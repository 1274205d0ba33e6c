//! The parser's view of its input: a token stream with a cursor, and the error that ends
//! a parse.
use crate::grammar::{at, step, tok, ExpectedView, Failure};
use crate::lexer::{lemma_tokens_end, tokens_from, Lexer};
use crate::tokens::{codes_of, tokens_view, TCode, TCodeView, TLoc, Token, TokenView};
use vstd::prelude::*;
use vstd::string::StringExecFns;

verus! {

/// What a parse wanted where it failed.
#[derive(Debug)]
pub enum Expected {
    /// A token of this kind.
    Symbol(TCode),
    /// An identifier.
    Identifier,
    /// The keyword that begins a function, or the end of the input.
    FunctionOrEnd,
    /// A token that begins a statement.
    Statement,
    /// A token that begins an expression.
    Expression,
}

impl View for Expected {
    type V = ExpectedView;

    open spec fn view(&self) -> ExpectedView {
        match self {
            Expected::Symbol(code) => ExpectedView::Symbol(code@),
            Expected::Identifier => ExpectedView::Identifier,
            Expected::FunctionOrEnd => ExpectedView::FunctionOrEnd,
            Expected::Statement => ExpectedView::Statement,
            Expected::Expression => ExpectedView::Expression,
        }
    }
}

/// The error that ends a parse: what was wanted, the token that stood there, and its
/// place in the source text.
#[derive(Debug)]
pub struct ParseError {
    pub expected: Expected,
    pub found: TCode,
    pub loc: TLoc,
}

/// What a `ParseError` stands for.
pub ghost struct ParseErrorView {
    pub expected: ExpectedView,
    pub found: TCodeView,
    pub loc: TLoc,
}

impl View for ParseError {
    type V = ParseErrorView;

    open spec fn view(&self) -> ParseErrorView {
        ParseErrorView { expected: self.expected@, found: self.found@, loc: self.loc }
    }
}

impl ParseErrorView {
    /// The message that reports the error to a reader: what was wanted, what was found,
    /// and the row and column of the token found.
    pub open spec fn message(self) -> Seq<char> {
        let wanted = match self.expected {
            ExpectedView::Symbol(code) => "Syntax error: expected "@ + code.text()
                + ", but found "@,
            ExpectedView::Identifier => "Syntax error: expected identifier, found "@,
            ExpectedView::FunctionOrEnd =>
                "Syntax error: expected function declaration or end of input, found "@,
            ExpectedView::Statement => "Syntax error: unexpected statement token, found "@,
            ExpectedView::Expression => "Syntax error: unexpected token in expression: "@,
        };
        wanted + self.found.text() + " at row "@ + crate::text::decimal(self.loc.first.row as int)
            + ", column "@ + crate::text::decimal(self.loc.first.col as int)
    }
}

impl ParseError {
    /// The message that reports the error to a reader.
    pub fn message(&self) -> (s: String)
        ensures
            s@ == self@.message(),
    {
        let mut s = match &self.expected {
            Expected::Symbol(code) => {
                let mut s = String::from_str("Syntax error: expected ");
                let wanted = code.text();
                s.append(wanted.as_str());
                s.append(", but found ");
                s
            },
            Expected::Identifier => String::from_str("Syntax error: expected identifier, found "),
            Expected::FunctionOrEnd => String::from_str(
                "Syntax error: expected function declaration or end of input, found ",
            ),
            Expected::Statement => String::from_str(
                "Syntax error: unexpected statement token, found ",
            ),
            Expected::Expression => String::from_str(
                "Syntax error: unexpected token in expression: ",
            ),
        };
        let found = self.found.text();
        s.append(found.as_str());
        s.append(" at row ");
        push_position(&mut s, self.loc.first.row);
        s.append(", column ");
        push_position(&mut s, self.loc.first.col);
        s
    }
}

/// Appends a row or column number in decimal.
fn push_position(s: &mut String, n: usize)
    ensures
        final(s)@ == old(s)@ + crate::text::decimal(n as int),
{
    let mut digits: Vec<char> = Vec::new();
    crate::text::push_natural(&mut digits, n as u64);
    crate::text::push_chars(s, &digits);
}

/// The place of the token at position `at` of a stream; behind the last token, the place
/// of the last one.
pub open spec fn loc_at(tokens: Seq<TokenView>, at: int) -> TLoc {
    if 0 <= at < tokens.len() {
        tokens[at].loc
    } else if tokens.len() > 0 {
        tokens.last().loc
    } else {
        TLoc::spec_empty()
    }
}

/// The error that reports the failure `f` of a parse of `tokens`.
pub open spec fn error_at(tokens: Seq<TokenView>, f: Failure) -> ParseErrorView {
    ParseErrorView {
        expected: f.expected,
        found: tok(tokens.map_values(|t: TokenView| t.code), f.at),
        loc: loc_at(tokens, f.at),
    }
}

/// The last token of the stream is the end of input.
pub open spec fn ends_input(tokens: Seq<Token>) -> bool {
    tokens.len() > 0 && tokens.last().code@ is EOI
}

/// A parser: the tokens of the source text, and a cursor on the current one.
pub struct Parser {
    tokens: Vec<Token>,
    pos: usize,
}

impl Parser {
    /// The tokens that the parser reads.
    pub closed spec fn stream(&self) -> Seq<Token> {
        self.tokens@
    }

    /// The position of the current token in the stream.
    pub closed spec fn cursor(&self) -> int {
        self.pos as int
    }

    /// The codes of the tokens.
    pub open spec fn codes(&self) -> Seq<TCodeView> {
        codes_of(self.stream())
    }

    /// What the tokens stand for.
    pub open spec fn views(&self) -> Seq<TokenView> {
        tokens_view(self.stream())
    }

    /// The stream ends with the end of input, and the cursor lies on a token or just behind
    /// the last one.
    pub open spec fn wf(&self) -> bool {
        &&& ends_input(self.stream())
        &&& 0 <= self.cursor() <= self.stream().len()
    }

    /// The parser reads the same tokens as `before`, and is well formed.
    pub open spec fn continues(&self, before: &Parser) -> bool {
        self.wf() && self.stream() == before.stream()
    }

    /// A parser over all the tokens that `lexer` has left, with the cursor on the first.
    pub fn new(mut lexer: Lexer) -> (p: Parser)
        requires
            lexer.wf(),
        ensures
            p.wf(),
            tokens_view(p.stream()) == tokens_from(lexer@),
            p.cursor() == 0,
    {
        proof {
            lemma_tokens_end(lexer@);
        }
        let tokens = lexer.tokenize();
        assert(tokens@.len() == tokens_view(tokens@).len());
        assert(tokens@.last().code@ == tokens_view(tokens@).last().code);
        Parser { tokens, pos: 0 }
    }

    /// A parser over `tokens`, with the cursor on the first. Where the last token is not
    /// the end of input, that token is added.
    pub fn from_tokens(tokens: Vec<Token>) -> (p: Parser)
        ensures
            p.wf(),
            p.cursor() == 0,
            p.stream() == if ends_input(tokens@) {
                tokens@
            } else {
                tokens@.push(Token { code: TCode::EOI, loc: TLoc::spec_empty() })
            },
    {
        let mut tokens = tokens;
        let ended = tokens.len() > 0 && match tokens[tokens.len() - 1].code {
            TCode::EOI => true,
            _ => false,
        };
        if !ended {
            tokens.push(Token::from(TCode::EOI));
        }
        Parser { tokens, pos: 0 }
    }

    /// The current token.
    pub fn token(&self) -> (t: &Token)
        requires
            self.wf(),
        ensures
            t.code@ == tok(self.codes(), self.cursor()),
            t.loc == loc_at(self.views(), self.cursor()),
    {
        if self.pos < self.tokens.len() {
            &self.tokens[self.pos]
        } else {
            &self.tokens[self.tokens.len() - 1]
        }
    }

    /// The code of the current token.
    pub fn curr(&self) -> (code: &TCode)
        requires
            self.wf(),
        ensures
            code@ == tok(self.codes(), self.cursor()),
    {
        &self.token().code
    }

    /// Moves the cursor to the next token. Behind the last token it stays.
    pub fn advance(&mut self)
        requires
            old(self).wf(),
        ensures
            final(self).continues(old(self)),
            final(self).cursor() == step(old(self).codes(), old(self).cursor()),
    {
        if self.pos < self.tokens.len() {
            self.pos += 1;
        }
    }

    /// Tells whether the current token is of the kind of `symbol`.
    pub fn peek(&self, symbol: &TCode) -> (b: bool)
        requires
            self.wf(),
        ensures
            b == at(self.codes(), self.cursor(), symbol@),
    {
        self.curr().ordinal() == symbol.ordinal()
    }

    /// The token behind the current one; behind the last token, the last one.
    pub fn peek_next(&self) -> (t: &Token)
        requires
            self.wf(),
        ensures
            t.code@ == tok(self.codes(), self.cursor() + 1),
            t.loc == loc_at(self.views(), self.cursor() + 1),
    {
        if self.pos < self.tokens.len() - 1 {
            &self.tokens[self.pos + 1]
        } else {
            &self.tokens[self.tokens.len() - 1]
        }
    }

    /// The error of wanting `expected` at the current token.
    pub fn error(&self, expected: Expected) -> (e: ParseError)
        requires
            self.wf(),
        ensures
            e@ == error_at(self.views(), Failure { at: self.cursor(), expected: expected@ }),
    {
        assert(self.views().map_values(|t: TokenView| t.code) =~= self.codes());
        let t = self.token();
        ParseError { expected, found: t.code.clone(), loc: t.loc }
    }

    /// Takes the current token if it is of the kind of `symbol`; fails otherwise, and then
    /// leaves the cursor where it is.
    pub fn expect(&mut self, symbol: TCode) -> (r: Result<(), ParseError>)
        requires
            old(self).wf(),
        ensures
            final(self).continues(old(self)),
            match r {
                Ok(_) => {
                    &&& at(old(self).codes(), old(self).cursor(), symbol@)
                    &&& final(self).cursor() == step(old(self).codes(), old(self).cursor())
                },
                Err(e) => {
                    &&& !at(old(self).codes(), old(self).cursor(), symbol@)
                    &&& final(self).cursor() == old(self).cursor()
                    &&& e@ == error_at(
                        old(self).views(),
                        Failure { at: old(self).cursor(), expected: ExpectedView::Symbol(symbol@) },
                    )
                },
            },
    {
        if self.peek(&symbol) {
            self.advance();
            Ok(())
        } else {
            Err(self.error(Expected::Symbol(symbol)))
        }
    }

    /// Takes the current token if it is an identifier, and returns its name; fails
    /// otherwise, and then leaves the cursor where it is.
    pub fn expect_id(&mut self) -> (r: Result<String, ParseError>)
        requires
            old(self).wf(),
        ensures
            final(self).continues(old(self)),
            match r {
                Ok(name) => {
                    &&& tok(old(self).codes(), old(self).cursor()) == TCodeView::ID(name@)
                    &&& final(self).cursor() == old(self).cursor() + 1
                },
                Err(e) => {
                    &&& !(tok(old(self).codes(), old(self).cursor()) is ID)
                    &&& final(self).cursor() == old(self).cursor()
                    &&& e@ == error_at(
                        old(self).views(),
                        Failure { at: old(self).cursor(), expected: ExpectedView::Identifier },
                    )
                },
            },
    {
        let found = match self.curr() {
            TCode::ID(name) => Some(name.clone()),
            _ => None,
        };
        match found {
            Some(name) => {
                self.advance();
                Ok(name)
            },
            None => Err(self.error(Expected::Identifier)),
        }
    }

    /// Takes the current token if it is of the kind of `symbol`, and tells whether it did.
    pub fn accept(&mut self, symbol: TCode) -> (taken: bool)
        requires
            old(self).wf(),
        ensures
            final(self).continues(old(self)),
            taken == at(old(self).codes(), old(self).cursor(), symbol@),
            final(self).cursor() == if taken {
                step(old(self).codes(), old(self).cursor())
            } else {
                old(self).cursor()
            },
    {
        if self.peek(&symbol) {
            self.advance();
            true
        } else {
            false
        }
    }
}

} // verus!
