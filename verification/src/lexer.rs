//! The tokenizer: a longest-match scanner from characters to tokens with their positions.
use crate::text::{push_char, str_eq};
use crate::tokens::{tokens_view, TCode, TCodeView, TLoc, TPos, Token, TokenView};
use vstd::prelude::*;

verus! {

/// A blank between tokens: space, tab, carriage return or line feed.
pub open spec fn is_space(c: char) -> bool {
    c == ' ' || c == '\t' || c == '\r' || c == '\n'
}

/// One of the ten ASCII digits.
pub open spec fn is_digit(c: char) -> bool {
    '0' <= c && c <= '9'
}

/// A character that may begin an identifier: an ASCII letter or the underscore.
pub open spec fn is_ident_start(c: char) -> bool {
    ('a' <= c && c <= 'z') || ('A' <= c && c <= 'Z') || c == '_'
}

/// Whether `char::is_alphanumeric` holds of a character.
pub uninterp spec fn is_alphanumeric_char(c: char) -> bool;

/// A character that may continue an identifier: an alphanumeric one or the underscore.
pub open spec fn is_ident_part(c: char) -> bool {
    is_alphanumeric_char(c) || c == '_'
}

/// Asks `char::is_alphanumeric` whether a character is alphabetic or numeric in the sense
/// of Unicode.
#[verifier::external_body]
fn char_is_alphanumeric(c: char) -> (b: bool)
    ensures
        b == is_alphanumeric_char(c),
{
    c.is_alphanumeric()
}

/// Tells whether a character may continue an identifier, given whether it is
/// alphanumeric.
pub fn continues_identifier(c: char, alphanumeric: bool) -> (b: bool)
    ensures
        b == (alphanumeric || c == '_'),
{
    alphanumeric || c == '_'
}

/// Tells whether a character is a blank.
pub fn char_is_space(c: char) -> (b: bool)
    ensures
        b == is_space(c),
{
    c == ' ' || c == '\t' || c == '\r' || c == '\n'
}

/// Tells whether a character is an ASCII digit.
pub fn char_is_digit(c: char) -> (b: bool)
    ensures
        b == is_digit(c),
{
    '0' <= c && c <= '9'
}

/// Tells whether a character may begin an identifier.
pub fn char_is_ident_start(c: char) -> (b: bool)
    ensures
        b == is_ident_start(c),
{
    ('a' <= c && c <= 'z') || ('A' <= c && c <= 'Z') || c == '_'
}

/// The blanks, as a predicate to skip by.
pub open spec fn spaces() -> spec_fn(char) -> bool {
    |c: char| is_space(c)
}

/// The characters that continue an identifier, as a predicate to skip by.
pub open spec fn ident_parts() -> spec_fn(char) -> bool {
    |c: char| is_ident_part(c)
}

/// The digits, as a predicate to skip by.
pub open spec fn digit_run() -> spec_fn(char) -> bool {
    |c: char| is_digit(c)
}

/// The keyword or truth literal that a word is, or else the identifier of that name.
pub open spec fn word_code(text: Seq<char>) -> TCodeView {
    if text == "func"@ {
        TCodeView::KW_FUNC
    } else if text == "let"@ {
        TCodeView::KW_LET
    } else if text == "if"@ {
        TCodeView::KW_IF
    } else if text == "else"@ {
        TCodeView::KW_ELSE
    } else if text == "while"@ {
        TCodeView::KW_WHILE
    } else if text == "return"@ {
        TCodeView::KW_RETURN
    } else if text == "print"@ {
        TCodeView::KW_PRINT
    } else if text == "true"@ {
        TCodeView::BOOL(true)
    } else if text == "false"@ {
        TCodeView::BOOL(false)
    } else {
        TCodeView::ID(text)
    }
}

/// The number that a digit writes.
pub open spec fn digit_value(c: char) -> int {
    c as int - '0' as int
}

/// The number that a string of digits writes in base ten.
pub open spec fn digits_value(text: Seq<char>) -> int
    decreases text.len(),
{
    if text.len() == 0 {
        0
    } else {
        digits_value(text.drop_last()) * 10 + digit_value(text.last())
    }
}

/// The integer literal that a string of digits writes; the error code where the number
/// does not fit in 64 bits.
pub open spec fn number_code(text: Seq<char>) -> TCodeView {
    if digits_value(text) <= i64::MAX {
        TCodeView::INT(digits_value(text) as i64)
    } else {
        TCodeView::ERROR
    }
}

/// The code of a token that is a single character, but for `=` and `!`, which may begin a
/// longer one.
pub open spec fn symbol_code(c: char) -> Option<TCodeView> {
    if c == '<' {
        Some(TCodeView::OP_LT)
    } else if c == '>' {
        Some(TCodeView::OP_GT)
    } else if c == '+' {
        Some(TCodeView::OP_ADD)
    } else if c == '-' {
        Some(TCodeView::OP_SUB)
    } else if c == '*' {
        Some(TCodeView::OP_MUL)
    } else if c == '/' {
        Some(TCodeView::OP_DIV)
    } else if c == '&' {
        Some(TCodeView::OP_AND)
    } else if c == '|' {
        Some(TCodeView::OP_OR)
    } else if c == '(' {
        Some(TCodeView::PAREN_L)
    } else if c == ')' {
        Some(TCodeView::PAREN_R)
    } else if c == '[' {
        Some(TCodeView::BRACKET_L)
    } else if c == ']' {
        Some(TCodeView::BRACKET_R)
    } else if c == ';' {
        Some(TCodeView::SEMICOLON)
    } else if c == ',' {
        Some(TCodeView::COMMA)
    } else {
        None
    }
}

/// The state of a scan: the text, the index of the next character, and the row and column
/// of that character, both counted from 1.
pub ghost struct LexState {
    pub src: Seq<char>,
    pub pos: int,
    pub row: int,
    pub col: int,
}

impl LexState {
    /// The index lies in the text, which is short enough for every position in it to be
    /// counted, and row and column have not run ahead of it.
    pub open spec fn wf(self) -> bool {
        &&& 0 <= self.pos <= self.src.len() < usize::MAX
        &&& 1 <= self.row <= self.pos + 1
        &&& 1 <= self.col <= self.pos + 1
    }

    /// The state at the start of `src`.
    pub open spec fn start(src: Seq<char>) -> LexState {
        LexState { src, pos: 0, row: 1, col: 1 }
    }

    /// The next character, if the text has not ended.
    pub open spec fn peek(self) -> Option<char> {
        if 0 <= self.pos < self.src.len() {
            Some(self.src[self.pos])
        } else {
            None
        }
    }

    /// The state after the next character: a line feed begins a new row, any other
    /// character moves one column on. At the end of the text nothing changes.
    pub open spec fn advance(self) -> LexState {
        match self.peek() {
            Some(c) => if c == '\n' {
                LexState { src: self.src, pos: self.pos + 1, row: self.row + 1, col: 1 }
            } else {
                LexState { src: self.src, pos: self.pos + 1, row: self.row, col: self.col + 1 }
            },
            None => self,
        }
    }

    /// The state after the longest run of characters that `keep` holds of.
    pub open spec fn skip_while(self, keep: spec_fn(char) -> bool) -> LexState
        decreases self.src.len() - self.pos,
    {
        match self.peek() {
            Some(c) => if keep(c) {
                self.advance().skip_while(keep)
            } else {
                self
            },
            None => self,
        }
    }

    /// The characters between this state and a later one.
    pub open spec fn text_to(self, end: LexState) -> Seq<char> {
        self.src.subrange(self.pos, end.pos)
    }
}

/// The location of a token of `len` characters that begins at `start` and after which the
/// scan is at `end`.
pub open spec fn span(start: LexState, end: LexState, len: int) -> TLoc {
    TLoc {
        first: TPos { row: start.row as usize, col: start.col as usize, len: len as usize },
        last: TPos { row: end.row as usize, col: (end.col - 1) as usize, len: 1 },
    }
}

/// A token, and the state of the scan behind it.
pub ghost struct Lexed {
    pub token: TokenView,
    pub rest: LexState,
}

/// The next token from `st`. Blanks before it are skipped. At the end of the text it is
/// the end-of-input token, which has no location. A word is a letter or an underscore with
/// all the alphanumeric characters and underscores behind it; a number is the longest run
/// of digits; `==` and `!=` are taken before `=` and `!`. A character that begins no token
/// is skipped and gives the error token without a location.
pub open spec fn next_token(st: LexState) -> Lexed {
    let s = st.skip_while(spaces());
    match s.peek() {
        None => Lexed { token: TokenView { code: TCodeView::EOI, loc: TLoc::spec_empty() }, rest: s },
        Some(c) => {
            let one = s.advance();
            if is_ident_start(c) {
                let e = one.skip_while(ident_parts());
                Lexed {
                    token: TokenView {
                        code: word_code(s.text_to(e)),
                        loc: span(s, e, e.pos - s.pos),
                    },
                    rest: e,
                }
            } else if is_digit(c) {
                let e = one.skip_while(digit_run());
                Lexed {
                    token: TokenView {
                        code: number_code(s.text_to(e)),
                        loc: span(s, e, e.pos - s.pos),
                    },
                    rest: e,
                }
            } else if c == '=' || c == '!' {
                if one.peek() == Some('=') {
                    let two = one.advance();
                    Lexed {
                        token: TokenView {
                            code: if c == '=' {
                                TCodeView::OP_EQUAL
                            } else {
                                TCodeView::OP_NOT_EQUAL
                            },
                            loc: span(s, two, 2),
                        },
                        rest: two,
                    }
                } else {
                    Lexed {
                        token: TokenView {
                            code: if c == '=' {
                                TCodeView::OP_ASSIGN
                            } else {
                                TCodeView::OP_NOT
                            },
                            loc: span(s, one, 1),
                        },
                        rest: one,
                    }
                }
            } else {
                match symbol_code(c) {
                    Some(code) => Lexed {
                        token: TokenView { code, loc: span(s, one, 1) },
                        rest: one,
                    },
                    None => Lexed {
                        token: TokenView { code: TCodeView::ERROR, loc: TLoc::spec_empty() },
                        rest: one,
                    },
                }
            }
        },
    }
}

/// Skipping never moves back, never leaves the text, and keeps a state well formed.
pub proof fn lemma_skip_while(st: LexState, keep: spec_fn(char) -> bool)
    ensures
        st.skip_while(keep).src == st.src,
        st.skip_while(keep).pos >= st.pos,
        st.pos <= st.src.len() ==> st.skip_while(keep).pos <= st.src.len(),
        st.wf() ==> st.skip_while(keep).wf(),
        match st.skip_while(keep).peek() {
            Some(c) => !keep(c),
            None => true,
        },
    decreases st.src.len() - st.pos,
{
    match st.peek() {
        Some(c) => if keep(c) {
            lemma_skip_while(st.advance(), keep);
        },
        None => {},
    }
}

/// Every token but the end of input takes at least one character, and a scan stays well
/// formed.
pub proof fn lemma_next_token_advances(st: LexState)
    ensures
        next_token(st).rest.src == st.src,
        next_token(st).rest.pos >= st.pos,
        !(next_token(st).token.code is EOI) ==> st.pos < next_token(st).rest.pos
            <= st.src.len(),
        st.wf() ==> next_token(st).rest.wf(),
{
    let s = st.skip_while(spaces());
    lemma_skip_while(st, spaces());
    match s.peek() {
        None => {},
        Some(c) => {
            let one = s.advance();
            lemma_skip_while(one, ident_parts());
            lemma_skip_while(one, digit_run());
        },
    }
}

/// The tokens from `st` to the end of the text. The last one, and no other, is the
/// end-of-input token.
pub open spec fn tokens_from(st: LexState) -> Seq<TokenView>
    decreases st.src.len() - st.pos,
{
    let l = next_token(st);
    if l.token.code is EOI {
        seq![l.token]
    } else {
        proof {
            lemma_next_token_advances(st);
        }
        seq![l.token] + tokens_from(l.rest)
    }
}

/// The tokens of a text end with the end of input, and hold it nowhere else.
pub proof fn lemma_tokens_end(st: LexState)
    ensures
        tokens_from(st).len() > 0,
        tokens_from(st).last().code is EOI,
        forall|i: int| 0 <= i < tokens_from(st).len() - 1 ==> !((#[trigger] tokens_from(st)[i]).code
            is EOI),
    decreases st.src.len() - st.pos,
{
    let l = next_token(st);
    if !(l.token.code is EOI) {
        lemma_next_token_advances(st);
        lemma_tokens_end(l.rest);
        let rest = tokens_from(l.rest);
        let all = tokens_from(st);
        assert forall|i: int| 0 <= i < all.len() - 1 implies !((#[trigger] all[i]).code is EOI) by {
            if i > 0 {
                assert(all[i] == rest[i - 1]);
            }
        }
    }
}

/// The tokens of a whole text.
pub open spec fn tokens_of(src: Seq<char>) -> Seq<TokenView> {
    tokens_from(LexState::start(src))
}

/// A scanner over the characters of a source text.
pub struct Lexer {
    src: Vec<char>,
    pos: usize,
    row: usize,
    col: usize,
}

impl View for Lexer {
    type V = LexState;

    closed spec fn view(&self) -> LexState {
        LexState { src: self.src@, pos: self.pos as int, row: self.row as int, col: self.col as int }
    }
}

/// The keyword or truth literal that a word is, or else the identifier of that name.
fn word_to_code(word: String) -> (code: TCode)
    ensures
        code@ == word_code(word@),
{
    if str_eq(word.as_str(), "func") {
        TCode::KW_FUNC
    } else if str_eq(word.as_str(), "let") {
        TCode::KW_LET
    } else if str_eq(word.as_str(), "if") {
        TCode::KW_IF
    } else if str_eq(word.as_str(), "else") {
        TCode::KW_ELSE
    } else if str_eq(word.as_str(), "while") {
        TCode::KW_WHILE
    } else if str_eq(word.as_str(), "return") {
        TCode::KW_RETURN
    } else if str_eq(word.as_str(), "print") {
        TCode::KW_PRINT
    } else if str_eq(word.as_str(), "true") {
        TCode::BOOL(true)
    } else if str_eq(word.as_str(), "false") {
        TCode::BOOL(false)
    } else {
        TCode::ID(word)
    }
}

/// The code of a token that is a single character.
fn symbol_to_code(c: char) -> (code: Option<TCode>)
    ensures
        match code {
            Some(k) => symbol_code(c) == Some(k@),
            None => symbol_code(c) is None,
        },
{
    if c == '<' {
        Some(TCode::OP_LT)
    } else if c == '>' {
        Some(TCode::OP_GT)
    } else if c == '+' {
        Some(TCode::OP_ADD)
    } else if c == '-' {
        Some(TCode::OP_SUB)
    } else if c == '*' {
        Some(TCode::OP_MUL)
    } else if c == '/' {
        Some(TCode::OP_DIV)
    } else if c == '&' {
        Some(TCode::OP_AND)
    } else if c == '|' {
        Some(TCode::OP_OR)
    } else if c == '(' {
        Some(TCode::PAREN_L)
    } else if c == ')' {
        Some(TCode::PAREN_R)
    } else if c == '[' {
        Some(TCode::BRACKET_L)
    } else if c == ']' {
        Some(TCode::BRACKET_R)
    } else if c == ';' {
        Some(TCode::SEMICOLON)
    } else if c == ',' {
        Some(TCode::COMMA)
    } else {
        None
    }
}

/// The number that a digit writes.
fn digit_to_value(c: char) -> (d: i64)
    requires
        is_digit(c),
    ensures
        d == digit_value(c),
        0 <= d <= 9,
{
    if c == '0' {
        0
    } else if c == '1' {
        1
    } else if c == '2' {
        2
    } else if c == '3' {
        3
    } else if c == '4' {
        4
    } else if c == '5' {
        5
    } else if c == '6' {
        6
    } else if c == '7' {
        7
    } else if c == '8' {
        8
    } else {
        9
    }
}

impl Lexer {
    /// The state of the scan is well formed.
    pub open spec fn wf(&self) -> bool {
        self@.wf()
    }

    /// A scanner at the start of `input`.
    pub fn new(input: &str) -> (lexer: Lexer)
        requires
            input@.len() < usize::MAX,
        ensures
            lexer@ == LexState::start(input@),
            lexer.wf(),
    {
        let mut src: Vec<char> = Vec::new();
        for c in it: input.chars()
            invariant
                src@ == it.seq().take(it.index() as int),
                it.seq() == input@,
        {
            src.push(c);
            assert(it.seq().take(it.index() as int + 1) =~= it.seq().take(it.index() as int).push(
                c,
            ));
        }
        assert(input@.take(input@.len() as int) =~= input@);
        Lexer { src, pos: 0, row: 1, col: 1 }
    }

    fn peek(&self) -> (c: Option<char>)
        requires
            self.wf(),
        ensures
            c == self@.peek(),
    {
        if self.pos < self.src.len() {
            Some(self.src[self.pos])
        } else {
            None
        }
    }

    fn advance(&mut self) -> (c: Option<char>)
        requires
            old(self).wf(),
        ensures
            final(self).wf(),
            c == old(self)@.peek(),
            final(self)@ == old(self)@.advance(),
    {
        if self.pos < self.src.len() {
            let c = self.src[self.pos];
            self.pos += 1;
            if c == '\n' {
                self.row += 1;
                self.col = 1;
            } else {
                self.col += 1;
            }
            Some(c)
        } else {
            None
        }
    }

    fn make_loc(&self, start_row: usize, start_col: usize, len: usize) -> (loc: TLoc)
        requires
            self.wf(),
        ensures
            loc == (TLoc {
                first: TPos { row: start_row, col: start_col, len },
                last: TPos { row: self@.row as usize, col: (self@.col - 1) as usize, len: 1 },
            }),
    {
        TLoc { first: TPos::new(start_row, start_col, len), last: TPos::new(self.row, self.col - 1, 1) }
    }

    fn skip_whitespace(&mut self)
        requires
            old(self).wf(),
        ensures
            final(self).wf(),
            final(self)@ == old(self)@.skip_while(spaces()),
    {
        loop
            invariant
                self.wf(),
                old(self)@.skip_while(spaces()) == self@.skip_while(spaces()),
            decreases self@.src.len() - self@.pos,
        {
            match self.peek() {
                Some(c) => {
                    if char_is_space(c) {
                        self.advance();
                    } else {
                        return ;
                    }
                },
                None => {
                    return ;
                },
            }
        }
    }

    /// Scans a word: an identifier, a keyword or a truth literal.
    fn scan_ident_or_keyword(&mut self) -> (t: Token)
        requires
            old(self).wf(),
            old(self)@.peek() matches Some(c) && is_ident_start(c),
        ensures
            final(self).wf(),
            final(self)@ == old(self)@.advance().skip_while(ident_parts()),
            t@ == (TokenView {
                code: word_code(old(self)@.text_to(final(self)@)),
                loc: span(old(self)@, final(self)@, final(self)@.pos - old(self)@.pos),
            }),
    {
        let sr = self.row;
        let sc = self.col;
        let start = self.pos;
        let mut buf = String::new();
        match self.advance() {
            Some(c) => {
                push_char(&mut buf, c);
            },
            None => {},
        }
        let ghost one = self@;
        assert(buf@ =~= old(self)@.text_to(self@));
        loop
            invariant
                self.wf(),
                start == old(self)@.pos,
                start < self@.pos,
                self@.src == old(self)@.src,
                buf@ == old(self)@.text_to(self@),
                one.skip_while(ident_parts()) == self@.skip_while(ident_parts()),
            ensures
                self.wf(),
                start < self@.pos,
                self@ == one.skip_while(ident_parts()),
                buf@ == old(self)@.text_to(self@),
            decreases self@.src.len() - self@.pos,
        {
            match self.peek() {
                Some(c) => {
                    if continues_identifier(c, char_is_alphanumeric(c)) {
                        let ghost before = self@;
                        push_char(&mut buf, c);
                        self.advance();
                        assert(old(self)@.text_to(self@) =~= old(self)@.text_to(before).push(c));
                    } else {
                        break ;
                    }
                },
                None => {
                    break ;
                },
            }
        }
        let len = self.pos - start;
        Token { code: word_to_code(buf), loc: self.make_loc(sr, sc, len) }
    }

    /// Scans an integer literal.
    fn scan_int(&mut self) -> (t: Token)
        requires
            old(self).wf(),
            old(self)@.peek() matches Some(c) && is_digit(c),
        ensures
            final(self).wf(),
            final(self)@ == old(self)@.advance().skip_while(digit_run()),
            t@ == (TokenView {
                code: number_code(old(self)@.text_to(final(self)@)),
                loc: span(old(self)@, final(self)@, final(self)@.pos - old(self)@.pos),
            }),
    {
        let sr = self.row;
        let sc = self.col;
        let start = self.pos;
        let mut value: i64 = 0;
        let mut fits = true;
        match self.advance() {
            Some(c) => {
                value = digit_to_value(c);
            },
            None => {},
        }
        let ghost one = self@;
        proof {
            let text = old(self)@.text_to(self@);
            assert(text.drop_last() =~= Seq::<char>::empty());
            assert(digits_value(text.drop_last()) == 0);
        }
        loop
            invariant
                self.wf(),
                start == old(self)@.pos,
                start < self@.pos,
                self@.src == old(self)@.src,
                0 <= value,
                fits ==> value == digits_value(old(self)@.text_to(self@)),
                !fits ==> digits_value(old(self)@.text_to(self@)) > i64::MAX,
                one.skip_while(digit_run()) == self@.skip_while(digit_run()),
            ensures
                self.wf(),
                start < self@.pos,
                self@ == one.skip_while(digit_run()),
                fits ==> value == digits_value(old(self)@.text_to(self@)),
                !fits ==> digits_value(old(self)@.text_to(self@)) > i64::MAX,
            decreases self@.src.len() - self@.pos,
        {
            match self.peek() {
                Some(c) => {
                    if char_is_digit(c) {
                        let ghost before = self@;
                        let d = digit_to_value(c);
                        self.advance();
                        proof {
                            let text = old(self)@.text_to(self@);
                            assert(text.drop_last() =~= old(self)@.text_to(before));
                            assert(text.last() == c);
                        }
                        if fits && value <= (i64::MAX - d) / 10 {
                            value = value * 10 + d;
                        } else {
                            fits = false;
                        }
                    } else {
                        break ;
                    }
                },
                None => {
                    break ;
                },
            }
        }
        let len = self.pos - start;
        let code = if fits {
            TCode::INT(value)
        } else {
            TCode::ERROR
        };
        Token { code, loc: self.make_loc(sr, sc, len) }
    }

    /// Takes the next character if it is `expected`, and then returns `code`.
    fn two_char_operator(&mut self, expected: char, code: TCode) -> (r: Option<TCode>)
        requires
            old(self).wf(),
        ensures
            final(self).wf(),
            old(self)@.peek() == Some(expected) ==> r == Some(code) && final(self)@ == old(self)@.advance(),
            old(self)@.peek() != Some(expected) ==> r is None && final(self)@ == old(self)@,
    {
        match self.peek() {
            Some(c) => {
                if c == expected {
                    self.advance();
                    return Some(code);
                }
            },
            None => {},
        }
        None
    }

    /// Scans the next token.
    pub fn next_token(&mut self) -> (t: Token)
        requires
            old(self).wf(),
        ensures
            final(self).wf(),
            t@ == next_token(old(self)@).token,
            final(self)@ == next_token(old(self)@).rest,
    {
        self.skip_whitespace();
        let sr = self.row;
        let sc = self.col;
        let ghost s = self@;
        let ch = match self.peek() {
            Some(c) => c,
            None => {
                return Token::from(TCode::EOI);
            },
        };
        if char_is_ident_start(ch) {
            return self.scan_ident_or_keyword();
        }
        if char_is_digit(ch) {
            return self.scan_int();
        }
        self.advance();
        if ch == '=' {
            match self.two_char_operator('=', TCode::OP_EQUAL) {
                Some(tok) => {
                    return Token { code: tok, loc: self.make_loc(sr, sc, 2) };
                },
                None => {
                    return Token { code: TCode::OP_ASSIGN, loc: self.make_loc(sr, sc, 1) };
                },
            }
        }
        if ch == '!' {
            match self.two_char_operator('=', TCode::OP_NOT_EQUAL) {
                Some(tok) => {
                    return Token { code: tok, loc: self.make_loc(sr, sc, 2) };
                },
                None => {
                    return Token { code: TCode::OP_NOT, loc: self.make_loc(sr, sc, 1) };
                },
            }
        }
        match symbol_to_code(ch) {
            Some(code) => Token { code, loc: self.make_loc(sr, sc, 1) },
            None => Token::error(),
        }
    }

    /// Scans all the tokens that are left, up to and with the end-of-input token.
    pub fn tokenize(&mut self) -> (out: Vec<Token>)
        requires
            old(self).wf(),
        ensures
            final(self).wf(),
            tokens_view(out@) == tokens_from(old(self)@),
    {
        let mut out: Vec<Token> = Vec::new();
        assert(tokens_view(out@) =~= Seq::empty());
        loop
            invariant_except_break
                tokens_from(old(self)@) == tokens_view(out@) + tokens_from(self@),
            invariant
                self.wf(),
            ensures
                self.wf(),
                tokens_view(out@) == tokens_from(old(self)@),
            decreases self@.src.len() - self@.pos,
        {
            let ghost before = self@;
            let ghost seen = tokens_view(out@);
            let t = self.next_token();
            proof {
                lemma_next_token_advances(before);
            }
            let last = match t.code {
                TCode::EOI => true,
                _ => false,
            };
            out.push(t);
            assert(tokens_view(out@) =~= seen.push(t@));
            if last {
                assert(seen + tokens_from(before) =~= seen.push(t@));
                break ;
            }
            assert(seen + tokens_from(before) =~= seen.push(t@) + tokens_from(self@));
        }
        out
    }
}

} // verus!
