//! Building text: appending characters and decimal numerals to a `String`.
use vstd::prelude::*;

verus! {

/// The character that writes the decimal digit `d`.
pub open spec fn digit_char(d: int) -> char {
    if d == 0 {
        '0'
    } else if d == 1 {
        '1'
    } else if d == 2 {
        '2'
    } else if d == 3 {
        '3'
    } else if d == 4 {
        '4'
    } else if d == 5 {
        '5'
    } else if d == 6 {
        '6'
    } else if d == 7 {
        '7'
    } else if d == 8 {
        '8'
    } else {
        '9'
    }
}

/// The decimal numeral of a natural number, most significant digit first, without
/// leading zeros.
pub open spec fn digits(n: nat) -> Seq<char>
    decreases n,
{
    if n < 10 {
        seq![digit_char(n as int)]
    } else {
        digits(n / 10).push(digit_char((n % 10) as int))
    }
}

/// The decimal numeral of an integer: a minus sign for a negative number, then the digits
/// of its magnitude.
pub open spec fn decimal(v: int) -> Seq<char> {
    if v < 0 {
        seq!['-'] + digits((-v) as nat)
    } else {
        digits(v as nat)
    }
}

/// The digits still to be written in front of what a conversion has produced so far.
pub open spec fn leading_digits(rest: nat) -> Seq<char> {
    if rest == 0 {
        Seq::empty()
    } else {
        digits(rest)
    }
}

/// A sequence read from its last element to its first.
pub open spec fn backwards(s: Seq<char>) -> Seq<char> {
    Seq::new(s.len(), |k: int| s[s.len() - 1 - k])
}

/// Appends one character to a string by `String::push`. The string afterwards holds the
/// characters it held before, followed by `c`.
#[verifier::external_body]
pub(crate) fn push_char(s: &mut String, c: char)
    ensures
        final(s)@ == old(s)@.push(c),
{
    s.push(c);
}

/// Compares two string slices by `str::eq`. The result tells whether they hold the same
/// characters.
#[verifier::external_body]
pub(crate) fn str_eq(a: &str, b: &str) -> (same: bool)
    ensures
        same == (a@ == b@),
{
    a == b
}

/// The character for one decimal digit.
pub fn digit_to_char(d: u8) -> (c: char)
    requires
        d < 10,
    ensures
        c == digit_char(d as int),
{
    if d == 0 {
        '0'
    } else if d == 1 {
        '1'
    } else if d == 2 {
        '2'
    } else if d == 3 {
        '3'
    } else if d == 4 {
        '4'
    } else if d == 5 {
        '5'
    } else if d == 6 {
        '6'
    } else if d == 7 {
        '7'
    } else if d == 8 {
        '8'
    } else {
        '9'
    }
}

/// Appends the characters of `text` to `s`.
pub fn push_chars(s: &mut String, text: &Vec<char>)
    ensures
        final(s)@ == old(s)@ + text@,
{
    let mut i: usize = 0;
    while i < text.len()
        invariant
            i <= text.len(),
            s@ == old(s)@ + text@.take(i as int),
        decreases text.len() - i,
    {
        push_char(s, text[i]);
        assert(text@.take(i as int + 1) =~= text@.take(i as int).push(text@[i as int]));
        i += 1;
    }
    assert(text@.take(i as int) =~= text@);
}

/// Appends the decimal numeral of `n` to `out`.
pub fn push_natural(out: &mut Vec<char>, n: u64)
    ensures
        final(out)@ == old(out)@ + digits(n as nat),
{
    let mut low_first: Vec<char> = Vec::new();
    low_first.push(digit_to_char((n % 10) as u8));
    let mut rest: u64 = n / 10;
    assert(digits(n as nat) =~= leading_digits(rest as nat) + backwards(low_first@));
    while rest > 0
        invariant
            digits(n as nat) == leading_digits(rest as nat) + backwards(low_first@),
        decreases rest,
    {
        let ghost before = low_first@;
        low_first.push(digit_to_char((rest % 10) as u8));
        assert(leading_digits(rest as nat) + backwards(before) =~= leading_digits(
            (rest / 10) as nat,
        ) + backwards(low_first@));
        rest = rest / 10;
    }
    let mut i: usize = low_first.len();
    while i > 0
        invariant
            i <= low_first.len(),
            out@ == old(out)@ + backwards(low_first@).take(low_first.len() - i),
        decreases i,
    {
        i -= 1;
        out.push(low_first[i]);
        assert(backwards(low_first@).take(low_first.len() - i) =~= backwards(low_first@).take(
            low_first.len() - i - 1,
        ).push(low_first@[i as int]));
    }
    assert(backwards(low_first@).take(low_first.len() as int) =~= backwards(low_first@));
}

/// Appends the decimal numeral of `v` to `s`.
pub fn push_decimal(s: &mut String, v: i64)
    ensures
        final(s)@ == old(s)@ + decimal(v as int),
{
    let mut numeral: Vec<char> = Vec::new();
    let magnitude: u64 = if v < 0 {
        numeral.push('-');
        (-(v + 1)) as u64 + 1
    } else {
        v as u64
    };
    push_natural(&mut numeral, magnitude);
    assert(numeral@ =~= decimal(v as int));
    push_chars(s, &numeral);
}

} // verus!
