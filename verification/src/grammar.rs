//! The grammar, as mathematical functions from a token sequence and a position to the
//! tree that the tokens from that position write, or to the place where they write none.
//!
//! ```text
//! program        = { function } EOI
//! function       = "func" ID "(" [ ID { "," ID } ] ")" block
//! block          = "[" { statement } "]"
//! statement      = let | assign | if | while | return | print | block | expr_stmt | ";"
//! let            = "let" ID [ "=" expression ] ";"
//! assign         = ID "=" expression ";"
//! if             = "if" expression block [ "else" block ]
//! while          = "while" expression block
//! return         = "return" expression ";"
//! print          = "print" expression ";"
//! expr_stmt      = expression ";"
//! expression     = logic_or
//! logic_or       = logic_and { "|" logic_and }
//! logic_and      = equality { "&" equality }
//! equality       = relational { ("==" | "!=") relational }
//! relational     = additive { ("<" | ">") additive }
//! additive       = multiplicative { ("+" | "-") multiplicative }
//! multiplicative = unary { ("*" | "/") unary }
//! unary          = ("!" | "-") unary | primary
//! primary        = INT | BOOL | ID [ "(" [ expression { "," expression } ] ")" ]
//!                | "(" expression ")"
//! ```
//!
//! Binary operators associate to the left. There is no recovery: the first token that
//! does not fit ends the parse.
use crate::mtree::Ast;
use crate::tokens::{Op, TCodeView, TreeCodeView};
use vstd::prelude::*;

verus! {

/// The code at position `pos`. Behind the last token the input has ended.
pub open spec fn tok(ts: Seq<TCodeView>, pos: int) -> TCodeView {
    if 0 <= pos < ts.len() {
        ts[pos]
    } else {
        TCodeView::EOI
    }
}

/// The number of tokens from position `pos` on.
pub open spec fn left(ts: Seq<TCodeView>, pos: int) -> nat {
    if pos < ts.len() {
        (ts.len() - pos) as nat
    } else {
        0
    }
}

/// The position behind `pos`; the end of the sequence is not left.
pub open spec fn step(ts: Seq<TCodeView>, pos: int) -> int {
    if pos < ts.len() {
        pos + 1
    } else {
        pos
    }
}

/// Whether the token at `pos` is of the kind of `symbol`.
pub open spec fn at(ts: Seq<TCodeView>, pos: int, symbol: TCodeView) -> bool {
    tok(ts, pos).same_kind(symbol)
}

/// What a parse wanted where it failed.
pub ghost enum ExpectedView {
    /// A token of this kind.
    Symbol(TCodeView),
    /// An identifier.
    Identifier,
    /// The keyword that begins a function, or the end of the input.
    FunctionOrEnd,
    /// A token that begins a statement.
    Statement,
    /// A token that begins an expression.
    Expression,
}

/// Where a parse failed, and what it wanted there.
pub ghost struct Failure {
    pub at: int,
    pub expected: ExpectedView,
}

/// The result of parsing a construct from a position: its value and the number of tokens
/// it is written with, or the failure.
pub ghost enum Parsed<T> {
    Done { value: T, used: nat },
    Failed(Failure),
}

/// The failure of wanting `expected` at `at`.
pub open spec fn fail<T>(at: int, expected: ExpectedView) -> Parsed<T> {
    Parsed::Failed(Failure { at, expected })
}

/// The failure of wanting a token of the kind of `symbol` at `at`.
pub open spec fn want<T>(at: int, symbol: TCodeView) -> Parsed<T> {
    fail(at, ExpectedView::Symbol(symbol))
}

/// A node with the given children.
pub open spec fn node(code: TreeCodeView, children: Seq<Ast>) -> Ast {
    Ast { code, children }
}

/// Whether a parse that took `used` tokens at `pos` has moved towards the end.
pub open spec fn advances(ts: Seq<TCodeView>, pos: int, used: nat) -> bool {
    left(ts, pos + used) < left(ts, pos)
}

/// The binary operator of the given level of precedence that a code writes. Level 0
/// binds loosest: `|`; then `&`; `==` and `!=`; `<` and `>`; `+` and `-`; at level 5,
/// `*` and `/`.
pub open spec fn level_op(level: int, code: TCodeView) -> Option<Op> {
    if level == 0 && code is OP_OR {
        Some(Op::OR)
    } else if level == 1 && code is OP_AND {
        Some(Op::AND)
    } else if level == 2 && code is OP_EQUAL {
        Some(Op::EQUAL)
    } else if level == 2 && code is OP_NOT_EQUAL {
        Some(Op::NOT_EQUAL)
    } else if level == 3 && code is OP_LT {
        Some(Op::LT)
    } else if level == 3 && code is OP_GT {
        Some(Op::GT)
    } else if level == 4 && code is OP_ADD {
        Some(Op::ADD)
    } else if level == 4 && code is OP_SUB {
        Some(Op::SUB)
    } else if level == 5 && code is OP_MUL {
        Some(Op::MUL)
    } else if level == 5 && code is OP_DIV {
        Some(Op::DIV)
    } else {
        None
    }
}

/// The number of levels of binary operators that bind tighter than `level`, and `level`
/// itself.
pub open spec fn levels_below(level: int) -> int {
    if 0 <= level <= 5 {
        6 - level
    } else {
        0
    }
}

/// The unary operator that a code writes.
pub open spec fn prefix_op(code: TCodeView) -> Option<Op> {
    match code {
        TCodeView::OP_NOT => Some(Op::NOT),
        TCodeView::OP_SUB => Some(Op::SUB),
        _ => None,
    }
}

/// `expression = logic_or`
pub open spec fn expression(ts: Seq<TCodeView>, pos: int) -> Parsed<Ast>
    decreases left(ts, pos), 11int,
{
    binary(ts, pos, 0)
}

/// The expressions of one level of precedence: operands of the next level, joined by the
/// operators of this one. Behind the last level stand the unary expressions.
pub open spec fn binary(ts: Seq<TCodeView>, pos: int, level: int) -> Parsed<Ast>
    decreases left(ts, pos), levels_below(level) + 3,
{
    if level < 0 || level > 5 {
        unary(ts, pos)
    } else {
        match binary(ts, pos, level + 1) {
            Parsed::Done { value, used } => binary_rest(ts, pos, pos + used, level, value),
            Parsed::Failed(f) => Parsed::Failed(f),
        }
    }
}

/// The expression of level `level` that began at `start`, of which the tokens before `pos`
/// have given `so_far`: each further operator of the level takes `so_far` as its left
/// operand and the operand behind it as its right one.
pub open spec fn binary_rest(
    ts: Seq<TCodeView>,
    start: int,
    pos: int,
    level: int,
    so_far: Ast,
) -> Parsed<Ast>
    decreases left(ts, pos), 0int,
{
    match level_op(level, tok(ts, pos)) {
        Some(op) => match binary(ts, pos + 1, level + 1) {
            Parsed::Done { value, used } => binary_rest(
                ts,
                start,
                pos + 1 + used,
                level,
                node(TreeCodeView::OPERATOR(op), seq![so_far, value]),
            ),
            Parsed::Failed(f) => Parsed::Failed(f),
        },
        None => Parsed::Done { value: so_far, used: (pos - start) as nat },
    }
}

/// `unary = ("!" | "-") unary | primary`
pub open spec fn unary(ts: Seq<TCodeView>, pos: int) -> Parsed<Ast>
    decreases left(ts, pos), 2int,
{
    match prefix_op(tok(ts, pos)) {
        Some(op) => match unary(ts, pos + 1) {
            Parsed::Done { value, used } => Parsed::Done {
                value: node(TreeCodeView::OPERATOR(op), seq![value]),
                used: used + 1,
            },
            Parsed::Failed(f) => Parsed::Failed(f),
        },
        None => primary(ts, pos),
    }
}

/// `primary = INT | BOOL | ID [ "(" [ expression { "," expression } ] ")" ] | "(" expression ")"`
///
/// A call is a node of the callee's name whose first child is the callee as an identifier
/// and whose other children are the arguments. Brackets leave no node.
pub open spec fn primary(ts: Seq<TCodeView>, pos: int) -> Parsed<Ast>
    decreases left(ts, pos), 1int,
{
    match tok(ts, pos) {
        TCodeView::INT(value) => Parsed::Done {
            value: Ast::leaf(TreeCodeView::INT_LITERAL(value)),
            used: 1,
        },
        TCodeView::BOOL(value) => Parsed::Done {
            value: Ast::leaf(TreeCodeView::BOOL_LITERAL(value)),
            used: 1,
        },
        TCodeView::ID(name) => if tok(ts, pos + 1) is PAREN_L {
            let call = node(
                TreeCodeView::FUNCTION_CALL(name),
                seq![Ast::leaf(TreeCodeView::IDENTIFIER(name))],
            );
            if tok(ts, pos + 2) is PAREN_R {
                closing(ts, pos, Parsed::Done { value: call, used: 2 })
            } else {
                closing(ts, pos, arguments(ts, pos, pos + 2, call))
            }
        } else {
            Parsed::Done { value: Ast::leaf(TreeCodeView::IDENTIFIER(name)), used: 1 }
        },
        TCodeView::PAREN_L => match expression(ts, pos + 1) {
            Parsed::Done { value, used } => if tok(ts, pos + 1 + used) is PAREN_R {
                Parsed::Done { value, used: used + 2 }
            } else {
                want(pos + 1 + used, TCodeView::PAREN_R)
            },
            Parsed::Failed(f) => Parsed::Failed(f),
        },
        _ => fail(pos, ExpectedView::Expression),
    }
}

/// The closing bracket behind the arguments of the call that began at `pos`.
pub open spec fn closing(ts: Seq<TCodeView>, pos: int, args: Parsed<Ast>) -> Parsed<Ast> {
    match args {
        Parsed::Done { value, used } => if tok(ts, pos + used) is PAREN_R {
            Parsed::Done { value, used: used + 1 }
        } else {
            want(pos + used, TCodeView::PAREN_R)
        },
        Parsed::Failed(f) => Parsed::Failed(f),
    }
}

/// `expression { "," expression }`: the arguments of the call that began at `start`, added
/// to `call` from position `pos` on.
pub open spec fn arguments(ts: Seq<TCodeView>, start: int, pos: int, call: Ast) -> Parsed<Ast>
    decreases left(ts, pos), 12int,
{
    match expression(ts, pos) {
        Parsed::Done { value, used } => if tok(ts, pos + used) is COMMA {
            arguments(ts, start, pos + used + 1, call.with_child(value))
        } else {
            Parsed::Done { value: call.with_child(value), used: (pos + used - start) as nat }
        },
        Parsed::Failed(f) => Parsed::Failed(f),
    }
}

/// A keyword, an expression and a semicolon: the shape of `return` and `print`.
pub open spec fn keyword_statement(
    ts: Seq<TCodeView>,
    pos: int,
    keyword: TCodeView,
    code: TreeCodeView,
) -> Parsed<Ast> {
    if !at(ts, pos, keyword) {
        want(pos, keyword)
    } else {
        match expression(ts, pos + 1) {
            Parsed::Done { value, used } => if tok(ts, pos + 1 + used) is SEMICOLON {
                Parsed::Done { value: node(code, seq![value]), used: used + 2 }
            } else {
                want(pos + 1 + used, TCodeView::SEMICOLON)
            },
            Parsed::Failed(f) => Parsed::Failed(f),
        }
    }
}

/// `return = "return" expression ";"`
pub open spec fn return_statement(ts: Seq<TCodeView>, pos: int) -> Parsed<Ast> {
    keyword_statement(ts, pos, TCodeView::KW_RETURN, TreeCodeView::RETURN)
}

/// `print = "print" expression ";"`
pub open spec fn print_statement(ts: Seq<TCodeView>, pos: int) -> Parsed<Ast> {
    keyword_statement(ts, pos, TCodeView::KW_PRINT, TreeCodeView::PRINT)
}

/// `let = "let" ID [ "=" expression ] ";"`: the name, then the initializer if there is
/// one.
pub open spec fn let_statement(ts: Seq<TCodeView>, pos: int) -> Parsed<Ast> {
    if !(tok(ts, pos) is KW_LET) {
        want(pos, TCodeView::KW_LET)
    } else {
        match tok(ts, pos + 1) {
            TCodeView::ID(name) => {
                let declared = node(
                    TreeCodeView::LET,
                    seq![Ast::leaf(TreeCodeView::IDENTIFIER(name))],
                );
                if tok(ts, pos + 2) is OP_ASSIGN {
                    match expression(ts, pos + 3) {
                        Parsed::Done { value, used } => if tok(ts, pos + 3 + used) is SEMICOLON {
                            Parsed::Done { value: declared.with_child(value), used: used + 4 }
                        } else {
                            want(pos + 3 + used, TCodeView::SEMICOLON)
                        },
                        Parsed::Failed(f) => Parsed::Failed(f),
                    }
                } else if tok(ts, pos + 2) is SEMICOLON {
                    Parsed::Done { value: declared, used: 3 }
                } else {
                    want(pos + 2, TCodeView::SEMICOLON)
                }
            },
            _ => fail(pos + 1, ExpectedView::Identifier),
        }
    }
}

/// `assign = ID "=" expression ";"`: the target, then the value.
pub open spec fn assign_statement(ts: Seq<TCodeView>, pos: int) -> Parsed<Ast> {
    match tok(ts, pos) {
        TCodeView::ID(name) => if !(tok(ts, pos + 1) is OP_ASSIGN) {
            want(pos + 1, TCodeView::OP_ASSIGN)
        } else {
            match expression(ts, pos + 2) {
                Parsed::Done { value, used } => if tok(ts, pos + 2 + used) is SEMICOLON {
                    Parsed::Done {
                        value: node(
                            TreeCodeView::ASSIGN,
                            seq![Ast::leaf(TreeCodeView::IDENTIFIER(name)), value],
                        ),
                        used: used + 3,
                    }
                } else {
                    want(pos + 2 + used, TCodeView::SEMICOLON)
                },
                Parsed::Failed(f) => Parsed::Failed(f),
            }
        },
        _ => fail(pos, ExpectedView::Identifier),
    }
}

/// `expr_stmt = expression ";"`
pub open spec fn expression_statement(ts: Seq<TCodeView>, pos: int) -> Parsed<Ast> {
    match expression(ts, pos) {
        Parsed::Done { value, used } => if tok(ts, pos + used) is SEMICOLON {
            Parsed::Done { value, used: used + 1 }
        } else {
            want(pos + used, TCodeView::SEMICOLON)
        },
        Parsed::Failed(f) => Parsed::Failed(f),
    }
}

/// Whether a code may begin an expression.
pub open spec fn begins_expression(code: TCodeView) -> bool {
    code is ID || code is INT || code is BOOL || code is PAREN_L || code is OP_NOT
        || code is OP_SUB
}

/// `block = "[" { statement } "]"`
pub open spec fn block(ts: Seq<TCodeView>, pos: int) -> Parsed<Ast>
    decreases left(ts, pos), 1int,
{
    if !(tok(ts, pos) is BRACKET_L) {
        want(pos, TCodeView::BRACKET_L)
    } else {
        block_items(ts, pos, pos + 1, Ast::leaf(TreeCodeView::BLOCK))
    }
}

/// `{ statement } "]"`: the statements of the block that began at `start`, added to
/// `so_far` from position `pos` on.
///
/// The test that a statement has moved the parse on serves the proof that this definition
/// ends; `lemma_statement_advances` shows that every statement passes it.
pub open spec fn block_items(ts: Seq<TCodeView>, start: int, pos: int, so_far: Ast) -> Parsed<Ast>
    decreases left(ts, pos), 3int,
{
    if tok(ts, pos) is BRACKET_R {
        Parsed::Done { value: so_far, used: (pos + 1 - start) as nat }
    } else {
        match statement(ts, pos) {
            Parsed::Done { value, used } => if advances(ts, pos, used) {
                block_items(ts, start, pos + used, so_far.with_child(value))
            } else {
                fail(pos, ExpectedView::Statement)
            },
            Parsed::Failed(f) => Parsed::Failed(f),
        }
    }
}

/// A statement: a statement node around the construct that the first token announces. An
/// identifier announces an assignment where `=` follows it, and an expression otherwise.
/// A semicolon alone is a statement node without children.
pub open spec fn statement(ts: Seq<TCodeView>, pos: int) -> Parsed<Ast>
    decreases left(ts, pos), 2int,
{
    let inner = match tok(ts, pos) {
        TCodeView::KW_RETURN => return_statement(ts, pos),
        TCodeView::KW_LET => let_statement(ts, pos),
        TCodeView::KW_IF => if_statement(ts, pos),
        TCodeView::KW_PRINT => print_statement(ts, pos),
        TCodeView::KW_WHILE => while_statement(ts, pos),
        TCodeView::BRACKET_L => block(ts, pos),
        TCodeView::ID(_) => if tok(ts, pos + 1) is OP_ASSIGN {
            assign_statement(ts, pos)
        } else {
            expression_statement(ts, pos)
        },
        TCodeView::SEMICOLON => Parsed::Done {
            value: Ast::leaf(TreeCodeView::STATEMENT),
            used: 1,
        },
        other => if begins_expression(other) {
            expression_statement(ts, pos)
        } else {
            fail(pos, ExpectedView::Statement)
        },
    };
    match inner {
        Parsed::Done { value, used } => if tok(ts, pos) is SEMICOLON {
            Parsed::Done { value, used }
        } else {
            Parsed::Done { value: node(TreeCodeView::STATEMENT, seq![value]), used }
        },
        Parsed::Failed(f) => Parsed::Failed(f),
    }
}

/// `if = "if" expression block [ "else" block ]`: the condition, the block taken where it
/// holds, and the other block if there is one.
pub open spec fn if_statement(ts: Seq<TCodeView>, pos: int) -> Parsed<Ast>
    decreases left(ts, pos), 1int,
{
    if !(tok(ts, pos) is KW_IF) {
        want(pos, TCodeView::KW_IF)
    } else {
        match expression(ts, pos + 1) {
            Parsed::Done { value: condition, used: c } => match block(ts, pos + 1 + c) {
                Parsed::Done { value: then_block, used: t } => {
                    let short = node(TreeCodeView::IF, seq![condition, then_block]);
                    if tok(ts, pos + 1 + c + t) is KW_ELSE {
                        match block(ts, pos + 2 + c + t) {
                            Parsed::Done { value: else_block, used: e } => Parsed::Done {
                                value: short.with_child(else_block),
                                used: c + t + e + 2,
                            },
                            Parsed::Failed(f) => Parsed::Failed(f),
                        }
                    } else {
                        Parsed::Done { value: short, used: c + t + 1 }
                    }
                },
                Parsed::Failed(f) => Parsed::Failed(f),
            },
            Parsed::Failed(f) => Parsed::Failed(f),
        }
    }
}

/// `while = "while" expression block`: the condition, then the body.
pub open spec fn while_statement(ts: Seq<TCodeView>, pos: int) -> Parsed<Ast>
    decreases left(ts, pos), 1int,
{
    if !(tok(ts, pos) is KW_WHILE) {
        want(pos, TCodeView::KW_WHILE)
    } else {
        match expression(ts, pos + 1) {
            Parsed::Done { value: condition, used: c } => match block(ts, pos + 1 + c) {
                Parsed::Done { value: body, used: b } => Parsed::Done {
                    value: node(TreeCodeView::WHILE, seq![condition, body]),
                    used: c + b + 1,
                },
                Parsed::Failed(f) => Parsed::Failed(f),
            },
            Parsed::Failed(f) => Parsed::Failed(f),
        }
    }
}

/// One parameter: a parameter node around the identifier.
pub open spec fn parameter(ts: Seq<TCodeView>, pos: int) -> Parsed<Ast> {
    match tok(ts, pos) {
        TCodeView::ID(name) => Parsed::Done {
            value: node(TreeCodeView::PARAMETER, seq![Ast::leaf(TreeCodeView::IDENTIFIER(name))]),
            used: 1,
        },
        _ => fail(pos, ExpectedView::Identifier),
    }
}

/// `[ ID { "," ID } ]`: the parameter list of a function. Before a closing bracket it is
/// empty.
pub open spec fn parameter_list(ts: Seq<TCodeView>, pos: int) -> Parsed<Ast> {
    if tok(ts, pos) is PAREN_R {
        Parsed::Done { value: Ast::leaf(TreeCodeView::PARAM_LIST), used: 0 }
    } else {
        parameter_items(ts, pos, pos, Ast::leaf(TreeCodeView::PARAM_LIST))
    }
}

/// `ID { "," ID }`: the parameters of the list that began at `start`, added to `so_far`
/// from position `pos` on.
pub open spec fn parameter_items(ts: Seq<TCodeView>, start: int, pos: int, so_far: Ast) -> Parsed<
    Ast,
>
    decreases left(ts, pos),
{
    match parameter(ts, pos) {
        Parsed::Done { value, used } => if tok(ts, pos + 1) is COMMA {
            parameter_items(ts, start, pos + 2, so_far.with_child(value))
        } else {
            Parsed::Done { value: so_far.with_child(value), used: (pos + 1 - start) as nat }
        },
        Parsed::Failed(f) => Parsed::Failed(f),
    }
}

/// `function = "func" ID "(" [ ID { "," ID } ] ")" block`: the name, the parameter list and
/// the body.
pub open spec fn function(ts: Seq<TCodeView>, pos: int) -> Parsed<Ast> {
    if !(tok(ts, pos) is KW_FUNC) {
        want(pos, TCodeView::KW_FUNC)
    } else {
        match tok(ts, pos + 1) {
            TCodeView::ID(name) => if !(tok(ts, pos + 2) is PAREN_L) {
                want(pos + 2, TCodeView::PAREN_L)
            } else {
                match parameter_list(ts, pos + 3) {
                    Parsed::Done { value: params, used: p } => if !(tok(ts, pos + 3 + p)
                        is PAREN_R) {
                        want(pos + 3 + p, TCodeView::PAREN_R)
                    } else {
                        match block(ts, pos + 4 + p) {
                            Parsed::Done { value: body, used: b } => Parsed::Done {
                                value: node(
                                    TreeCodeView::FUNCTION,
                                    seq![Ast::leaf(TreeCodeView::IDENTIFIER(name)), params, body],
                                ),
                                used: p + b + 4,
                            },
                            Parsed::Failed(f) => Parsed::Failed(f),
                        }
                    },
                    Parsed::Failed(f) => Parsed::Failed(f),
                }
            },
            _ => fail(pos + 1, ExpectedView::Identifier),
        }
    }
}

/// `{ function } EOI`: the functions of the program that began at `start`, added to
/// `so_far` from position `pos` on. The end of the input is not taken.
///
/// The test that a function has moved the parse on serves the proof that this definition
/// ends; `lemma_function_advances` shows that every function passes it.
pub open spec fn program_items(ts: Seq<TCodeView>, start: int, pos: int, so_far: Ast) -> Parsed<
    Ast,
>
    decreases left(ts, pos),
{
    match tok(ts, pos) {
        TCodeView::KW_FUNC => match function(ts, pos) {
            Parsed::Done { value, used } => if advances(ts, pos, used) {
                program_items(ts, start, pos + used, so_far.with_child(value))
            } else {
                fail(pos, ExpectedView::FunctionOrEnd)
            },
            Parsed::Failed(f) => Parsed::Failed(f),
        },
        TCodeView::EOI => Parsed::Done { value: so_far, used: (pos - start) as nat },
        _ => fail(pos, ExpectedView::FunctionOrEnd),
    }
}

/// `program = { function } EOI`: a program node with one child for each function, in the
/// order of the source.
pub open spec fn program(ts: Seq<TCodeView>, pos: int) -> Parsed<Ast> {
    program_items(ts, pos, pos, Ast::leaf(TreeCodeView::PROGRAM))
}

} // verus!
