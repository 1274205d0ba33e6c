//! Lexical units and syntax-tree node kinds, with their mathematical views.
#![allow(non_camel_case_types)]
use crate::text::{decimal, push_decimal};
use vstd::prelude::*;
use vstd::string::StringExecFns;

verus! {

/// The kind of a lexical unit, with its payload where it has one.
#[derive(Debug)]
pub enum TCode {
    // General
    EOI,
    ERROR,
    // Literals and identifiers
    ID(String),
    INT(i64),
    BOOL(bool),
    // Keywords
    KW_FUNC,
    KW_LET,
    KW_IF,
    KW_ELSE,
    KW_WHILE,
    KW_RETURN,
    KW_PRINT,
    // Arithmetic operators
    OP_ASSIGN,
    OP_ADD,
    OP_SUB,
    OP_MUL,
    OP_DIV,
    // Relational operators
    OP_EQUAL,
    OP_NOT_EQUAL,
    OP_LT,
    OP_GT,
    // Logical operators
    OP_AND,
    OP_OR,
    OP_NOT,
    // Nesting
    PAREN_L,
    PAREN_R,
    BRACKET_L,
    BRACKET_R,
    // Separators
    SEMICOLON,
    COMMA,
}

/// What a `TCode` stands for: the same variants, an identifier held as its characters.
pub ghost enum TCodeView {
    EOI,
    ERROR,
    ID(Seq<char>),
    INT(i64),
    BOOL(bool),
    KW_FUNC,
    KW_LET,
    KW_IF,
    KW_ELSE,
    KW_WHILE,
    KW_RETURN,
    KW_PRINT,
    OP_ASSIGN,
    OP_ADD,
    OP_SUB,
    OP_MUL,
    OP_DIV,
    OP_EQUAL,
    OP_NOT_EQUAL,
    OP_LT,
    OP_GT,
    OP_AND,
    OP_OR,
    OP_NOT,
    PAREN_L,
    PAREN_R,
    BRACKET_L,
    BRACKET_R,
    SEMICOLON,
    COMMA,
}

impl TCodeView {
    /// The position of the variant in the declaration, which identifies the kind of token
    /// whatever its payload.
    pub open spec fn ordinal(self) -> int {
        match self {
            TCodeView::EOI => 0,
            TCodeView::ERROR => 1,
            TCodeView::ID(_) => 2,
            TCodeView::INT(_) => 3,
            TCodeView::BOOL(_) => 4,
            TCodeView::KW_FUNC => 5,
            TCodeView::KW_LET => 6,
            TCodeView::KW_IF => 7,
            TCodeView::KW_ELSE => 8,
            TCodeView::KW_WHILE => 9,
            TCodeView::KW_RETURN => 10,
            TCodeView::KW_PRINT => 11,
            TCodeView::OP_ASSIGN => 12,
            TCodeView::OP_ADD => 13,
            TCodeView::OP_SUB => 14,
            TCodeView::OP_MUL => 15,
            TCodeView::OP_DIV => 16,
            TCodeView::OP_EQUAL => 17,
            TCodeView::OP_NOT_EQUAL => 18,
            TCodeView::OP_LT => 19,
            TCodeView::OP_GT => 20,
            TCodeView::OP_AND => 21,
            TCodeView::OP_OR => 22,
            TCodeView::OP_NOT => 23,
            TCodeView::PAREN_L => 24,
            TCodeView::PAREN_R => 25,
            TCodeView::BRACKET_L => 26,
            TCodeView::BRACKET_R => 27,
            TCodeView::SEMICOLON => 28,
            TCodeView::COMMA => 29,
        }
    }

    /// Two codes are of the same kind when they are the same variant; payloads are not
    /// compared.
    pub open spec fn same_kind(self, other: TCodeView) -> bool {
        self.ordinal() == other.ordinal()
    }

    /// The text that shows a code to a reader: the symbol of an operator or bracket, the
    /// upper-case name of a keyword, and the variant with its payload for the rest.
    pub open spec fn text(self) -> Seq<char> {
        match self {
            TCodeView::EOI => "EOI"@,
            TCodeView::ERROR => "ERROR"@,
            TCodeView::ID(name) => "ID(\""@ + name + "\")"@,
            TCodeView::INT(value) => "INT("@ + decimal(value as int) + ")"@,
            TCodeView::BOOL(value) => if value {
                "BOOL(true)"@
            } else {
                "BOOL(false)"@
            },
            TCodeView::KW_FUNC => "FUNC"@,
            TCodeView::KW_LET => "LET"@,
            TCodeView::KW_IF => "IF"@,
            TCodeView::KW_ELSE => "ELSE"@,
            TCodeView::KW_WHILE => "WHILE"@,
            TCodeView::KW_RETURN => "RETURN"@,
            TCodeView::KW_PRINT => "PRINT"@,
            TCodeView::OP_ASSIGN => "="@,
            TCodeView::OP_ADD => "+"@,
            TCodeView::OP_SUB => "-"@,
            TCodeView::OP_MUL => "*"@,
            TCodeView::OP_DIV => "/"@,
            TCodeView::OP_EQUAL => "=="@,
            TCodeView::OP_NOT_EQUAL => "!="@,
            TCodeView::OP_LT => "<"@,
            TCodeView::OP_GT => ">"@,
            TCodeView::OP_AND => "&"@,
            TCodeView::OP_OR => "|"@,
            TCodeView::OP_NOT => "!"@,
            TCodeView::PAREN_L => "("@,
            TCodeView::PAREN_R => ")"@,
            TCodeView::BRACKET_L => "["@,
            TCodeView::BRACKET_R => "]"@,
            TCodeView::SEMICOLON => ";"@,
            TCodeView::COMMA => ","@,
        }
    }
}

impl View for TCode {
    type V = TCodeView;

    open spec fn view(&self) -> TCodeView {
        match self {
            TCode::EOI => TCodeView::EOI,
            TCode::ERROR => TCodeView::ERROR,
            TCode::ID(name) => TCodeView::ID(name@),
            TCode::INT(value) => TCodeView::INT(*value),
            TCode::BOOL(value) => TCodeView::BOOL(*value),
            TCode::KW_FUNC => TCodeView::KW_FUNC,
            TCode::KW_LET => TCodeView::KW_LET,
            TCode::KW_IF => TCodeView::KW_IF,
            TCode::KW_ELSE => TCodeView::KW_ELSE,
            TCode::KW_WHILE => TCodeView::KW_WHILE,
            TCode::KW_RETURN => TCodeView::KW_RETURN,
            TCode::KW_PRINT => TCodeView::KW_PRINT,
            TCode::OP_ASSIGN => TCodeView::OP_ASSIGN,
            TCode::OP_ADD => TCodeView::OP_ADD,
            TCode::OP_SUB => TCodeView::OP_SUB,
            TCode::OP_MUL => TCodeView::OP_MUL,
            TCode::OP_DIV => TCodeView::OP_DIV,
            TCode::OP_EQUAL => TCodeView::OP_EQUAL,
            TCode::OP_NOT_EQUAL => TCodeView::OP_NOT_EQUAL,
            TCode::OP_LT => TCodeView::OP_LT,
            TCode::OP_GT => TCodeView::OP_GT,
            TCode::OP_AND => TCodeView::OP_AND,
            TCode::OP_OR => TCodeView::OP_OR,
            TCode::OP_NOT => TCodeView::OP_NOT,
            TCode::PAREN_L => TCodeView::PAREN_L,
            TCode::PAREN_R => TCodeView::PAREN_R,
            TCode::BRACKET_L => TCodeView::BRACKET_L,
            TCode::BRACKET_R => TCodeView::BRACKET_R,
            TCode::SEMICOLON => TCodeView::SEMICOLON,
            TCode::COMMA => TCodeView::COMMA,
        }
    }
}

impl TCode {
    /// The number of the variant, by which two codes are compared.
    pub fn ordinal(&self) -> (n: u8)
        ensures
            n as int == self@.ordinal(),
    {
        match self {
            TCode::EOI => 0,
            TCode::ERROR => 1,
            TCode::ID(_) => 2,
            TCode::INT(_) => 3,
            TCode::BOOL(_) => 4,
            TCode::KW_FUNC => 5,
            TCode::KW_LET => 6,
            TCode::KW_IF => 7,
            TCode::KW_ELSE => 8,
            TCode::KW_WHILE => 9,
            TCode::KW_RETURN => 10,
            TCode::KW_PRINT => 11,
            TCode::OP_ASSIGN => 12,
            TCode::OP_ADD => 13,
            TCode::OP_SUB => 14,
            TCode::OP_MUL => 15,
            TCode::OP_DIV => 16,
            TCode::OP_EQUAL => 17,
            TCode::OP_NOT_EQUAL => 18,
            TCode::OP_LT => 19,
            TCode::OP_GT => 20,
            TCode::OP_AND => 21,
            TCode::OP_OR => 22,
            TCode::OP_NOT => 23,
            TCode::PAREN_L => 24,
            TCode::PAREN_R => 25,
            TCode::BRACKET_L => 26,
            TCode::BRACKET_R => 27,
            TCode::SEMICOLON => 28,
            TCode::COMMA => 29,
        }
    }

    /// The text that shows this code to a reader.
    pub fn text(&self) -> (s: String)
        ensures
            s@ == self@.text(),
    {
        match self {
            TCode::EOI => String::from_str("EOI"),
            TCode::ERROR => String::from_str("ERROR"),
            TCode::ID(name) => {
                let mut s = String::from_str("ID(\"");
                s.append(name.as_str());
                s.append("\")");
                s
            },
            TCode::INT(value) => {
                let mut s = String::from_str("INT(");
                push_decimal(&mut s, *value);
                s.append(")");
                s
            },
            TCode::BOOL(value) => if *value {
                String::from_str("BOOL(true)")
            } else {
                String::from_str("BOOL(false)")
            },
            TCode::KW_FUNC => String::from_str("FUNC"),
            TCode::KW_LET => String::from_str("LET"),
            TCode::KW_IF => String::from_str("IF"),
            TCode::KW_ELSE => String::from_str("ELSE"),
            TCode::KW_WHILE => String::from_str("WHILE"),
            TCode::KW_RETURN => String::from_str("RETURN"),
            TCode::KW_PRINT => String::from_str("PRINT"),
            TCode::OP_ASSIGN => String::from_str("="),
            TCode::OP_ADD => String::from_str("+"),
            TCode::OP_SUB => String::from_str("-"),
            TCode::OP_MUL => String::from_str("*"),
            TCode::OP_DIV => String::from_str("/"),
            TCode::OP_EQUAL => String::from_str("=="),
            TCode::OP_NOT_EQUAL => String::from_str("!="),
            TCode::OP_LT => String::from_str("<"),
            TCode::OP_GT => String::from_str(">"),
            TCode::OP_AND => String::from_str("&"),
            TCode::OP_OR => String::from_str("|"),
            TCode::OP_NOT => String::from_str("!"),
            TCode::PAREN_L => String::from_str("("),
            TCode::PAREN_R => String::from_str(")"),
            TCode::BRACKET_L => String::from_str("["),
            TCode::BRACKET_R => String::from_str("]"),
            TCode::SEMICOLON => String::from_str(";"),
            TCode::COMMA => String::from_str(","),
        }
    }
}

impl Clone for TCode {
    fn clone(&self) -> (c: TCode)
        ensures
            c == *self,
    {
        match self {
            TCode::EOI => TCode::EOI,
            TCode::ERROR => TCode::ERROR,
            TCode::ID(name) => TCode::ID(name.clone()),
            TCode::INT(value) => TCode::INT(*value),
            TCode::BOOL(value) => TCode::BOOL(*value),
            TCode::KW_FUNC => TCode::KW_FUNC,
            TCode::KW_LET => TCode::KW_LET,
            TCode::KW_IF => TCode::KW_IF,
            TCode::KW_ELSE => TCode::KW_ELSE,
            TCode::KW_WHILE => TCode::KW_WHILE,
            TCode::KW_RETURN => TCode::KW_RETURN,
            TCode::KW_PRINT => TCode::KW_PRINT,
            TCode::OP_ASSIGN => TCode::OP_ASSIGN,
            TCode::OP_ADD => TCode::OP_ADD,
            TCode::OP_SUB => TCode::OP_SUB,
            TCode::OP_MUL => TCode::OP_MUL,
            TCode::OP_DIV => TCode::OP_DIV,
            TCode::OP_EQUAL => TCode::OP_EQUAL,
            TCode::OP_NOT_EQUAL => TCode::OP_NOT_EQUAL,
            TCode::OP_LT => TCode::OP_LT,
            TCode::OP_GT => TCode::OP_GT,
            TCode::OP_AND => TCode::OP_AND,
            TCode::OP_OR => TCode::OP_OR,
            TCode::OP_NOT => TCode::OP_NOT,
            TCode::PAREN_L => TCode::PAREN_L,
            TCode::PAREN_R => TCode::PAREN_R,
            TCode::BRACKET_L => TCode::BRACKET_L,
            TCode::BRACKET_R => TCode::BRACKET_R,
            TCode::SEMICOLON => TCode::SEMICOLON,
            TCode::COMMA => TCode::COMMA,
        }
    }
}

impl PartialEq for TCode {
    /// Equality by kind: the payload of an identifier or a literal is ignored.
    fn eq(&self, other: &Self) -> (r: bool) {
        self.ordinal() == other.ordinal()
    }
}

impl Eq for TCode {

}

impl vstd::std_specs::cmp::PartialEqSpecImpl for TCode {
    open spec fn obeys_eq_spec() -> bool {
        true
    }

    open spec fn eq_spec(&self, other: &Self) -> bool {
        self@.same_kind(other@)
    }
}

/// A position in the source text: row and column, counted from 1, and a length in
/// characters.
#[derive(Debug, Clone, Copy, PartialEq, Eq, Structural)]
pub struct TPos {
    pub row: usize,
    pub col: usize,
    pub len: usize,
}

impl TPos {
    pub fn new(row: usize, col: usize, len: usize) -> (p: TPos)
        ensures
            p == (TPos { row, col, len }),
    {
        TPos { row, col, len }
    }
}

/// Where a token lies in the source text: its first and its last position.
#[derive(Debug, Clone, Copy, PartialEq, Eq, Structural)]
pub struct TLoc {
    pub first: TPos,
    pub last: TPos,
}

impl TLoc {
    /// The location of a token that has no place in the text: all zeros.
    pub open spec fn spec_empty() -> TLoc {
        TLoc { first: TPos { row: 0, col: 0, len: 0 }, last: TPos { row: 0, col: 0, len: 0 } }
    }

    #[verifier::when_used_as_spec(spec_empty)]
    pub fn empty() -> (l: TLoc)
        ensures
            l == TLoc::spec_empty(),
    {
        TLoc { first: TPos::new(0, 0, 0), last: TPos::new(0, 0, 0) }
    }
}

/// A lexical unit: its code and its place in the source text.
#[derive(Debug)]
pub struct Token {
    pub code: TCode,
    pub loc: TLoc,
}

/// What a `Token` stands for.
pub ghost struct TokenView {
    pub code: TCodeView,
    pub loc: TLoc,
}

impl View for Token {
    type V = TokenView;

    open spec fn view(&self) -> TokenView {
        TokenView { code: self.code@, loc: self.loc }
    }
}

/// What a sequence of tokens stands for.
pub open spec fn tokens_view(tokens: Seq<Token>) -> Seq<TokenView> {
    tokens.map_values(|t: Token| t@)
}

impl Clone for Token {
    fn clone(&self) -> (t: Token)
        ensures
            t == *self,
    {
        Token { code: self.code.clone(), loc: self.loc }
    }
}

impl Token {
    /// A token of the given code with no location.
    pub fn from(code: TCode) -> (t: Token)
        ensures
            t == (Token { code, loc: TLoc::spec_empty() }),
    {
        Token { code, loc: TLoc::empty() }
    }

    /// The error token, with no location.
    pub fn error() -> (t: Token)
        ensures
            t == (Token { code: TCode::ERROR, loc: TLoc::spec_empty() }),
    {
        Token { code: TCode::ERROR, loc: TLoc::empty() }
    }

    /// An identifier token of the given name, with no location.
    pub fn id(name: &str) -> (t: Token)
        ensures
            t.code@ == TCodeView::ID(name@),
            t.loc == TLoc::spec_empty(),
    {
        Token { code: TCode::ID(String::from_str(name)), loc: TLoc::empty() }
    }
}

/// The symbol of an operator node.
#[derive(Debug, Clone, Copy, PartialEq, Eq, Structural)]
pub enum Op {
    ADD,
    SUB,
    MUL,
    DIV,
    EQUAL,
    NOT_EQUAL,
    LT,
    GT,
    AND,
    OR,
    NOT,
}

impl Op {
    /// The operator as it is written in source text.
    pub open spec fn symbol(self) -> Seq<char> {
        match self {
            Op::ADD => "+"@,
            Op::SUB => "-"@,
            Op::MUL => "*"@,
            Op::DIV => "/"@,
            Op::EQUAL => "=="@,
            Op::NOT_EQUAL => "!="@,
            Op::LT => "<"@,
            Op::GT => ">"@,
            Op::AND => "&"@,
            Op::OR => "|"@,
            Op::NOT => "!"@,
        }
    }

    /// The operator as it is written in source text.
    pub fn text(&self) -> (s: String)
        ensures
            s@ == self.symbol(),
    {
        match self {
            Op::ADD => String::from_str("+"),
            Op::SUB => String::from_str("-"),
            Op::MUL => String::from_str("*"),
            Op::DIV => String::from_str("/"),
            Op::EQUAL => String::from_str("=="),
            Op::NOT_EQUAL => String::from_str("!="),
            Op::LT => String::from_str("<"),
            Op::GT => String::from_str(">"),
            Op::AND => String::from_str("&"),
            Op::OR => String::from_str("|"),
            Op::NOT => String::from_str("!"),
        }
    }
}

/// The construct that a node of the syntax tree stands for.
#[derive(Debug)]
pub enum TreeCode {
    PROGRAM,
    FUNCTION,
    PARAM_LIST,
    PARAMETER,
    BLOCK,
    STATEMENT,
    LET,
    ASSIGN,
    IF,
    WHILE,
    RETURN,
    PRINT,
    IDENTIFIER(String),
    INT_LITERAL(i64),
    BOOL_LITERAL(bool),
    OPERATOR(Op),
    FUNCTION_CALL(String),
}

/// What a `TreeCode` stands for: the same variants, a name held as its characters.
pub ghost enum TreeCodeView {
    PROGRAM,
    FUNCTION,
    PARAM_LIST,
    PARAMETER,
    BLOCK,
    STATEMENT,
    LET,
    ASSIGN,
    IF,
    WHILE,
    RETURN,
    PRINT,
    IDENTIFIER(Seq<char>),
    INT_LITERAL(i64),
    BOOL_LITERAL(bool),
    OPERATOR(Op),
    FUNCTION_CALL(Seq<char>),
}

impl TreeCodeView {
    /// The text that shows a node to a reader: the name of the variant, followed in
    /// brackets by its payload where it has one.
    pub open spec fn text(self) -> Seq<char> {
        match self {
            TreeCodeView::PROGRAM => "PROGRAM"@,
            TreeCodeView::FUNCTION => "FUNCTION"@,
            TreeCodeView::PARAM_LIST => "PARAM_LIST"@,
            TreeCodeView::PARAMETER => "PARAMETER"@,
            TreeCodeView::BLOCK => "BLOCK"@,
            TreeCodeView::STATEMENT => "STATEMENT"@,
            TreeCodeView::LET => "LET"@,
            TreeCodeView::ASSIGN => "ASSIGN"@,
            TreeCodeView::IF => "IF"@,
            TreeCodeView::WHILE => "WHILE"@,
            TreeCodeView::RETURN => "RETURN"@,
            TreeCodeView::PRINT => "PRINT"@,
            TreeCodeView::IDENTIFIER(name) => "IDENTIFIER(\""@ + name + "\")"@,
            TreeCodeView::INT_LITERAL(value) => "INT_LITERAL("@ + decimal(value as int) + ")"@,
            TreeCodeView::BOOL_LITERAL(value) => if value {
                "BOOL_LITERAL(true)"@
            } else {
                "BOOL_LITERAL(false)"@
            },
            TreeCodeView::OPERATOR(op) => "OPERATOR(\""@ + op.symbol() + "\")"@,
            TreeCodeView::FUNCTION_CALL(name) => "FUNCTION_CALL(\""@ + name + "\")"@,
        }
    }
}

impl View for TreeCode {
    type V = TreeCodeView;

    open spec fn view(&self) -> TreeCodeView {
        match self {
            TreeCode::PROGRAM => TreeCodeView::PROGRAM,
            TreeCode::FUNCTION => TreeCodeView::FUNCTION,
            TreeCode::PARAM_LIST => TreeCodeView::PARAM_LIST,
            TreeCode::PARAMETER => TreeCodeView::PARAMETER,
            TreeCode::BLOCK => TreeCodeView::BLOCK,
            TreeCode::STATEMENT => TreeCodeView::STATEMENT,
            TreeCode::LET => TreeCodeView::LET,
            TreeCode::ASSIGN => TreeCodeView::ASSIGN,
            TreeCode::IF => TreeCodeView::IF,
            TreeCode::WHILE => TreeCodeView::WHILE,
            TreeCode::RETURN => TreeCodeView::RETURN,
            TreeCode::PRINT => TreeCodeView::PRINT,
            TreeCode::IDENTIFIER(name) => TreeCodeView::IDENTIFIER(name@),
            TreeCode::INT_LITERAL(value) => TreeCodeView::INT_LITERAL(*value),
            TreeCode::BOOL_LITERAL(value) => TreeCodeView::BOOL_LITERAL(*value),
            TreeCode::OPERATOR(op) => TreeCodeView::OPERATOR(*op),
            TreeCode::FUNCTION_CALL(name) => TreeCodeView::FUNCTION_CALL(name@),
        }
    }
}

impl Clone for TreeCode {
    fn clone(&self) -> (c: TreeCode)
        ensures
            c == *self,
    {
        match self {
            TreeCode::PROGRAM => TreeCode::PROGRAM,
            TreeCode::FUNCTION => TreeCode::FUNCTION,
            TreeCode::PARAM_LIST => TreeCode::PARAM_LIST,
            TreeCode::PARAMETER => TreeCode::PARAMETER,
            TreeCode::BLOCK => TreeCode::BLOCK,
            TreeCode::STATEMENT => TreeCode::STATEMENT,
            TreeCode::LET => TreeCode::LET,
            TreeCode::ASSIGN => TreeCode::ASSIGN,
            TreeCode::IF => TreeCode::IF,
            TreeCode::WHILE => TreeCode::WHILE,
            TreeCode::RETURN => TreeCode::RETURN,
            TreeCode::PRINT => TreeCode::PRINT,
            TreeCode::IDENTIFIER(name) => TreeCode::IDENTIFIER(name.clone()),
            TreeCode::INT_LITERAL(value) => TreeCode::INT_LITERAL(*value),
            TreeCode::BOOL_LITERAL(value) => TreeCode::BOOL_LITERAL(*value),
            TreeCode::OPERATOR(op) => TreeCode::OPERATOR(*op),
            TreeCode::FUNCTION_CALL(name) => TreeCode::FUNCTION_CALL(name.clone()),
        }
    }
}

impl TreeCode {
    /// The text that shows this node kind to a reader.
    pub fn text(&self) -> (s: String)
        ensures
            s@ == self@.text(),
    {
        match self {
            TreeCode::PROGRAM => String::from_str("PROGRAM"),
            TreeCode::FUNCTION => String::from_str("FUNCTION"),
            TreeCode::PARAM_LIST => String::from_str("PARAM_LIST"),
            TreeCode::PARAMETER => String::from_str("PARAMETER"),
            TreeCode::BLOCK => String::from_str("BLOCK"),
            TreeCode::STATEMENT => String::from_str("STATEMENT"),
            TreeCode::LET => String::from_str("LET"),
            TreeCode::ASSIGN => String::from_str("ASSIGN"),
            TreeCode::IF => String::from_str("IF"),
            TreeCode::WHILE => String::from_str("WHILE"),
            TreeCode::RETURN => String::from_str("RETURN"),
            TreeCode::PRINT => String::from_str("PRINT"),
            TreeCode::IDENTIFIER(name) => {
                let mut s = String::from_str("IDENTIFIER(\"");
                s.append(name.as_str());
                s.append("\")");
                s
            },
            TreeCode::INT_LITERAL(value) => {
                let mut s = String::from_str("INT_LITERAL(");
                push_decimal(&mut s, *value);
                s.append(")");
                s
            },
            TreeCode::BOOL_LITERAL(value) => if *value {
                String::from_str("BOOL_LITERAL(true)")
            } else {
                String::from_str("BOOL_LITERAL(false)")
            },
            TreeCode::OPERATOR(op) => {
                let mut s = String::from_str("OPERATOR(\"");
                let symbol = op.text();
                s.append(symbol.as_str());
                s.append("\")");
                s
            },
            TreeCode::FUNCTION_CALL(name) => {
                let mut s = String::from_str("FUNCTION_CALL(\"");
                s.append(name.as_str());
                s.append("\")");
                s
            },
        }
    }
}

/// The codes of a sequence of tokens, which is all that parsing reads of them.
pub open spec fn codes_of(tokens: Seq<Token>) -> Seq<TCodeView> {
    tokens.map_values(|t: Token| t.code@)
}

} // verus!
