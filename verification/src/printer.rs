//! Writing a tree back as tokens, and the proof that parsing those tokens gives the tree
//! again.
//!
//! An operand that is no literal, identifier or call is written in brackets, so that the
//! tokens of an expression show its shape whatever the precedence of its operators.
use crate::grammar::{
    advances, arguments, assign_statement, begins_expression, binary, binary_rest, block,
    block_items, closing, expression, expression_statement, function, if_statement,
    keyword_statement, let_statement, level_op, node, parameter_items, parameter_list, prefix_op,
    primary, program, program_items, statement, tok, unary, while_statement, Parsed,
};
use crate::mtree::{lemma_view_unfold, views_of, Ast, MTree};
use crate::shape::{
    are_expressions, are_statements, is_atom, is_block, is_construct, is_expression, is_function,
    is_infix, is_parameter, is_program, is_statement, lemma_program_shape, name_of,
};
use crate::tokens::{codes_of, Op, TCode, TCodeView, TLoc, Token, TreeCode, TreeCodeView};
use vstd::prelude::*;

verus! {

/// The token that writes an operator.
pub open spec fn op_code(op: Op) -> TCodeView {
    match op {
        Op::ADD => TCodeView::OP_ADD,
        Op::SUB => TCodeView::OP_SUB,
        Op::MUL => TCodeView::OP_MUL,
        Op::DIV => TCodeView::OP_DIV,
        Op::EQUAL => TCodeView::OP_EQUAL,
        Op::NOT_EQUAL => TCodeView::OP_NOT_EQUAL,
        Op::LT => TCodeView::OP_LT,
        Op::GT => TCodeView::OP_GT,
        Op::AND => TCodeView::OP_AND,
        Op::OR => TCodeView::OP_OR,
        Op::NOT => TCodeView::OP_NOT,
    }
}

/// The level of precedence of a binary operator.
pub open spec fn op_level(op: Op) -> int {
    match op {
        Op::OR => 0,
        Op::AND => 1,
        Op::EQUAL => 2,
        Op::NOT_EQUAL => 2,
        Op::LT => 3,
        Op::GT => 3,
        Op::ADD => 4,
        Op::SUB => 4,
        Op::MUL => 5,
        Op::DIV => 5,
        Op::NOT => 6,
    }
}

/// The tokens that write an expression.
pub open spec fn expression_tokens(e: Ast) -> Seq<TCodeView>
    decreases e, 0int,
{
    match e.code {
        TreeCodeView::INT_LITERAL(value) => seq![TCodeView::INT(value)],
        TreeCodeView::BOOL_LITERAL(value) => seq![TCodeView::BOOL(value)],
        TreeCodeView::IDENTIFIER(name) => seq![TCodeView::ID(name)],
        TreeCodeView::OPERATOR(op) => if e.children.len() == 1 {
            seq![op_code(op)] + operand_tokens(e.children[0])
        } else if e.children.len() == 2 {
            operand_tokens(e.children[0]) + seq![op_code(op)] + operand_tokens(e.children[1])
        } else {
            Seq::empty()
        },
        TreeCodeView::FUNCTION_CALL(name) => seq![TCodeView::ID(name), TCodeView::PAREN_L]
            + argument_tokens(e.children, 1) + seq![TCodeView::PAREN_R],
        _ => Seq::empty(),
    }
}

/// The tokens that write an expression as an operand: in brackets, but for an atom.
pub open spec fn operand_tokens(e: Ast) -> Seq<TCodeView>
    decreases e, 1int,
{
    if is_atom(e) {
        expression_tokens(e)
    } else {
        seq![TCodeView::PAREN_L] + expression_tokens(e) + seq![TCodeView::PAREN_R]
    }
}

/// The tokens that write the expressions `list[from..]` as arguments, with commas between
/// them.
pub open spec fn argument_tokens(list: Seq<Ast>, from: int) -> Seq<TCodeView>
    decreases list, list.len() - from,
{
    if from < 0 || from >= list.len() {
        Seq::empty()
    } else if from + 1 >= list.len() {
        expression_tokens(list[from])
    } else {
        expression_tokens(list[from]) + seq![TCodeView::COMMA] + argument_tokens(list, from + 1)
    }
}

/// The tokens `s` stand in `ts` from position `pos` on.
pub open spec fn fits(ts: Seq<TCodeView>, pos: int, s: Seq<TCodeView>) -> bool {
    &&& 0 <= pos
    &&& pos + s.len() <= ts.len()
    &&& ts.subrange(pos, pos + s.len()) == s
}

/// Where two runs of tokens stand one after the other, each stands in its place.
pub proof fn lemma_fits_split(ts: Seq<TCodeView>, pos: int, a: Seq<TCodeView>, b: Seq<TCodeView>)
    requires
        fits(ts, pos, a + b),
    ensures
        fits(ts, pos, a),
        fits(ts, pos + a.len(), b),
{
    let whole = ts.subrange(pos, pos + (a + b).len());
    assert forall|k: int| 0 <= k < a.len() implies ts.subrange(pos, pos + a.len())[k] == a[k] by {
        assert(whole[k] == (a + b)[k]);
    }
    assert(ts.subrange(pos, pos + a.len()) =~= a);
    assert forall|k: int| 0 <= k < b.len() implies ts.subrange(
        pos + a.len(),
        pos + a.len() + b.len(),
    )[k] == b[k] by {
        assert(whole[a.len() + k] == (a + b)[a.len() + k]);
    }
    assert(ts.subrange(pos + a.len(), pos + a.len() + b.len()) =~= b);
}

/// The token at an offset within a run that stands in `ts`.
pub proof fn lemma_fits_tok(ts: Seq<TCodeView>, pos: int, s: Seq<TCodeView>, k: int)
    requires
        fits(ts, pos, s),
        0 <= k < s.len(),
    ensures
        tok(ts, pos + k) == s[k],
{
    assert(ts.subrange(pos, pos + s.len())[k] == ts[pos + k]);
}

/// A token that no expression goes on with: no binary operator, and no opening bracket.
pub open spec fn ends_expression(code: TCodeView) -> bool {
    !(code is OP_OR || code is OP_AND || code is OP_EQUAL || code is OP_NOT_EQUAL || code is OP_LT
        || code is OP_GT || code is OP_ADD || code is OP_SUB || code is OP_MUL || code is OP_DIV
        || code is PAREN_L)
}

/// An expression is written with at least one token, and its first token begins an
/// expression. An operand begins with no prefix operator.
pub proof fn lemma_expression_begins(e: Ast)
    requires
        is_expression(e),
    ensures
        expression_tokens(e).len() > 0,
        begins_expression(expression_tokens(e)[0]),
        operand_tokens(e).len() > 0,
        prefix_op(operand_tokens(e)[0]) is None,
        begins_expression(operand_tokens(e)[0]),
        expression_tokens(e)[0] is ID ==> expression_tokens(e).len() == 1 || !(expression_tokens(
            e,
        )[1] is OP_ASSIGN),
    decreases e,
{
    match e.code {
        TreeCodeView::OPERATOR(op) => {
            if e.children.len() == 1 {
                lemma_expression_begins(e.children[0]);
            } else {
                lemma_expression_begins(e.children[0]);
                lemma_expression_begins(e.children[1]);
                let a = operand_tokens(e.children[0]);
                if is_atom(e.children[0]) && a[0] is ID {
                    if a.len() > 1 {
                        assert(expression_tokens(e)[1] == a[1]);
                    } else {
                        assert(expression_tokens(e)[1] == op_code(op));
                    }
                }
            }
        },
        _ => {},
    }
}

/// A soft step down the levels of precedence: where an expression of a tighter level ends
/// before a token that is no operator of the looser levels, it is the expression of those
/// levels too.
pub proof fn lemma_lift(ts: Seq<TCodeView>, pos: int, v: Ast, m: nat, from: int, to: int)
    requires
        0 <= to <= from <= 6,
        binary(ts, pos, from) == (Parsed::Done { value: v, used: m }),
        forall|l: int| to <= l < from ==> (#[trigger] level_op(l, tok(ts, pos + m))) is None,
    ensures
        binary(ts, pos, to) == (Parsed::Done { value: v, used: m }),
    decreases from - to,
{
    if to < from {
        lemma_lift(ts, pos, v, m, from, to + 1);
        assert(level_op(to, tok(ts, pos + m)) is None);
        assert(binary_rest(ts, pos, pos + m, to, v) == (Parsed::Done::<Ast> {
            value: v,
            used: m,
        }));
    }
}

/// The operator token of an infix operator writes it at its own level, and at no other.
pub proof fn lemma_level_of_code(op: Op, l: int)
    requires
        is_infix(op),
    ensures
        level_op(l, op_code(op)) == if l == op_level(op) {
            Some(op)
        } else {
            None
        },
        0 <= op_level(op) <= 5,
        !ends_expression(op_code(op)),
        !(op_code(op) is PAREN_L),
{
}

/// A token that ends an expression is no operator of any level.
pub proof fn lemma_end_is_no_operator(code: TCodeView)
    requires
        ends_expression(code),
    ensures
        forall|l: int| (#[trigger] level_op(l, code)) is None,
{
}

/// Parsing the tokens of an atom gives the atom.
pub proof fn lemma_atom_parses(e: Ast, ts: Seq<TCodeView>, pos: int)
    requires
        is_expression(e),
        is_atom(e),
        fits(ts, pos, expression_tokens(e)),
        !(tok(ts, pos + expression_tokens(e).len()) is PAREN_L),
    ensures
        unary(ts, pos) == (Parsed::Done { value: e, used: expression_tokens(e).len() }),
    decreases e, 0int,
{
    let s = expression_tokens(e);
    lemma_fits_tok(ts, pos, s, 0);
    match e.code {
        TreeCodeView::INT_LITERAL(value) => {
            assert(e.children =~= Seq::empty());
            assert(primary(ts, pos) == (Parsed::Done::<Ast> { value: e, used: 1 }));
        },
        TreeCodeView::BOOL_LITERAL(value) => {
            assert(e.children =~= Seq::empty());
            assert(primary(ts, pos) == (Parsed::Done::<Ast> { value: e, used: 1 }));
        },
        TreeCodeView::IDENTIFIER(name) => {
            assert(e.children =~= Seq::empty());
            assert(primary(ts, pos) == (Parsed::Done::<Ast> { value: e, used: 1 }));
        },
        TreeCodeView::FUNCTION_CALL(name) => {
            let head = seq![TCodeView::ID(name), TCodeView::PAREN_L];
            let args = argument_tokens(e.children, 1);
            let tail = seq![TCodeView::PAREN_R];
            assert(s == head + args + tail);
            lemma_fits_tok(ts, pos, s, 1);
            lemma_fits_tok(ts, pos, s, 2 + args.len() as int);
            lemma_fits_split(ts, pos, head + args, tail);
            lemma_fits_split(ts, pos, head, args);
            let call = node(
                TreeCodeView::FUNCTION_CALL(name),
                seq![Ast::leaf(TreeCodeView::IDENTIFIER(name))],
            );
            if e.children.len() == 1 {
                assert(args =~= Seq::empty());
                assert(e.children =~= seq![Ast::leaf(TreeCodeView::IDENTIFIER(name))]);
                assert(tok(ts, pos + 2) is PAREN_R);
                assert(primary(ts, pos) == (Parsed::Done::<Ast> { value: e, used: 3 }));
            } else {
                assert(are_expressions(e.children, 1));
                assert(is_expression(e.children[1]));
                lemma_expression_begins(e.children[1]);
                assert(args[0] == expression_tokens(e.children[1])[0]);
                lemma_fits_tok(ts, pos + 2, args, 0);
                assert(!(tok(ts, pos + 2) is PAREN_R));
                assert(call.children =~= e.children.take(1));
                lemma_arguments_parse(e.children, 1, ts, pos, pos + 2, call);
                assert(node(call.code, e.children) == e);
                assert(arguments(ts, pos, pos + 2, call) == (Parsed::Done::<Ast> {
                    value: e,
                    used: (2 + args.len()) as nat,
                }));
                assert(closing(ts, pos, arguments(ts, pos, pos + 2, call)) == (Parsed::Done::<
                    Ast,
                > { value: e, used: (3 + args.len()) as nat }));
                assert(primary(ts, pos) == (Parsed::Done::<Ast> { value: e, used: s.len() }));
            }
        },
        _ => {},
    }
}

/// Parsing the tokens of a list of arguments adds the arguments to the call.
pub proof fn lemma_arguments_parse(
    list: Seq<Ast>,
    from: int,
    ts: Seq<TCodeView>,
    start: int,
    pos: int,
    so_far: Ast,
)
    requires
        1 <= from < list.len(),
        are_expressions(list, from),
        fits(ts, pos, argument_tokens(list, from)),
        tok(ts, pos + argument_tokens(list, from).len()) is PAREN_R,
        so_far.children == list.take(from),
        start <= pos,
    ensures
        arguments(ts, start, pos, so_far) == (Parsed::Done {
            value: node(so_far.code, list),
            used: (pos + argument_tokens(list, from).len() - start) as nat,
        }),
    decreases list, list.len() - from,
{
    let arg = list[from];
    let own = expression_tokens(arg);
    let all = argument_tokens(list, from);
    assert(so_far.with_child(arg).children =~= list.take(from + 1));
    if from + 1 >= list.len() {
        assert(all == own);
        lemma_expression_parses(arg, ts, pos);
        assert(list.take(from + 1) =~= list);
        assert(so_far.with_child(arg) == node(so_far.code, list));
    } else {
        let rest = argument_tokens(list, from + 1);
        assert(all == own + seq![TCodeView::COMMA] + rest);
        lemma_fits_split(ts, pos, own + seq![TCodeView::COMMA], rest);
        lemma_fits_split(ts, pos, own, seq![TCodeView::COMMA]);
        lemma_fits_tok(ts, pos + own.len() as int, seq![TCodeView::COMMA], 0);
        lemma_expression_parses(arg, ts, pos);
        lemma_arguments_parse(list, from + 1, ts, start, pos + own.len() + 1, so_far.with_child(arg));
    }
}

/// Parsing the tokens of an operand gives the operand.
pub proof fn lemma_operand_parses(e: Ast, ts: Seq<TCodeView>, pos: int)
    requires
        is_expression(e),
        fits(ts, pos, operand_tokens(e)),
        !(tok(ts, pos + operand_tokens(e).len()) is PAREN_L),
    ensures
        unary(ts, pos) == (Parsed::Done { value: e, used: operand_tokens(e).len() }),
    decreases e, 2int,
{
    if is_atom(e) {
        lemma_atom_parses(e, ts, pos);
    } else {
        let inner = expression_tokens(e);
        let open = seq![TCodeView::PAREN_L];
        let shut = seq![TCodeView::PAREN_R];
        lemma_fits_split(ts, pos, open + inner, shut);
        lemma_fits_split(ts, pos, open, inner);
        lemma_fits_tok(ts, pos, open, 0);
        lemma_fits_tok(ts, pos + 1 + inner.len() as int, shut, 0);
        lemma_expression_parses(e, ts, pos + 1);
        assert(primary(ts, pos) == (Parsed::Done::<Ast> {
            value: e,
            used: (inner.len() + 2) as nat,
        }));
    }
}

/// Parsing the tokens of an expression gives the expression, where the token behind them
/// ends it.
pub proof fn lemma_expression_parses(e: Ast, ts: Seq<TCodeView>, pos: int)
    requires
        is_expression(e),
        fits(ts, pos, expression_tokens(e)),
        ends_expression(tok(ts, pos + expression_tokens(e).len())),
    ensures
        expression(ts, pos) == (Parsed::Done { value: e, used: expression_tokens(e).len() }),
    decreases e, 1int,
{
    let s = expression_tokens(e);
    let n = s.len();
    lemma_end_is_no_operator(tok(ts, pos + n));
    if is_atom(e) {
        lemma_atom_parses(e, ts, pos);
        lemma_lift(ts, pos, e, n, 6, 0);
    } else {
        match e.code {
            TreeCodeView::OPERATOR(op) => {
                if e.children.len() == 1 {
                    let a = e.children[0];
                    let at = operand_tokens(a);
                    lemma_fits_split(ts, pos, seq![op_code(op)], at);
                    lemma_fits_tok(ts, pos, seq![op_code(op)], 0);
                    lemma_operand_parses(a, ts, pos + 1);
                    assert(e.children =~= seq![a]);
                    assert(prefix_op(tok(ts, pos)) == Some(op));
                    assert(unary(ts, pos) == (Parsed::Done::<Ast> { value: e, used: n }));
                    lemma_lift(ts, pos, e, n, 6, 0);
                } else {
                    let a = e.children[0];
                    let b = e.children[1];
                    let at = operand_tokens(a);
                    let bt = operand_tokens(b);
                    let level = op_level(op);
                    lemma_fits_split(ts, pos, at + seq![op_code(op)], bt);
                    lemma_fits_split(ts, pos, at, seq![op_code(op)]);
                    lemma_fits_tok(ts, pos + at.len() as int, seq![op_code(op)], 0);
                    assert forall|l: int| true implies level_op(l, op_code(op)) == (if l == level {
                        Some(op)
                    } else {
                        None
                    }) by {
                        lemma_level_of_code(op, l);
                    }
                    lemma_level_of_code(op, level);
                    lemma_operand_parses(a, ts, pos);
                    lemma_lift(ts, pos, a, at.len(), 6, level + 1);
                    lemma_operand_parses(b, ts, pos + at.len() + 1);
                    lemma_lift(ts, pos + at.len() + 1, b, bt.len(), 6, level + 1);
                    assert(e.children =~= seq![a, b]);
                    let joined = node(TreeCodeView::OPERATOR(op), seq![a, b]);
                    assert(joined == e);
                    assert(binary_rest(ts, pos, pos + n, level, joined) == (Parsed::Done::<Ast> {
                        value: e,
                        used: n,
                    }));
                    assert(binary_rest(ts, pos, pos + at.len(), level, a) == (Parsed::Done::<
                        Ast,
                    > { value: e, used: n }));
                    assert(binary(ts, pos, level) == (Parsed::Done::<Ast> { value: e, used: n }));
                    lemma_lift(ts, pos, e, n, level, 0);
                }
            },
            _ => {},
        }
    }
}

/// The tokens that write a block.
pub open spec fn block_tokens(b: Ast) -> Seq<TCodeView>
    decreases b, 0int,
{
    seq![TCodeView::BRACKET_L] + statements_tokens(b.children, 0) + seq![TCodeView::BRACKET_R]
}

/// The tokens that write the statements `list[from..]`.
pub open spec fn statements_tokens(list: Seq<Ast>, from: int) -> Seq<TCodeView>
    decreases list, list.len() - from,
{
    if from < 0 || from >= list.len() {
        Seq::empty()
    } else {
        statement_tokens(list[from]) + statements_tokens(list, from + 1)
    }
}

/// The tokens that write a statement.
pub open spec fn statement_tokens(s: Ast) -> Seq<TCodeView>
    decreases s, 2int,
{
    if s.children.len() == 0 {
        seq![TCodeView::SEMICOLON]
    } else {
        construct_tokens(s.children[0])
    }
}

/// The tokens that write what a statement node holds.
pub open spec fn construct_tokens(c: Ast) -> Seq<TCodeView>
    decreases c, 1int,
{
    match c.code {
        TreeCodeView::RETURN => if c.children.len() == 1 {
            seq![TCodeView::KW_RETURN] + expression_tokens(c.children[0])
                + seq![TCodeView::SEMICOLON]
        } else {
            Seq::empty()
        },
        TreeCodeView::PRINT => if c.children.len() == 1 {
            seq![TCodeView::KW_PRINT] + expression_tokens(c.children[0])
                + seq![TCodeView::SEMICOLON]
        } else {
            Seq::empty()
        },
        TreeCodeView::LET => if c.children.len() == 2 {
            seq![TCodeView::KW_LET, TCodeView::ID(name_of(c.children[0])), TCodeView::OP_ASSIGN]
                + expression_tokens(c.children[1]) + seq![TCodeView::SEMICOLON]
        } else if c.children.len() == 1 {
            seq![TCodeView::KW_LET, TCodeView::ID(name_of(c.children[0])), TCodeView::SEMICOLON]
        } else {
            Seq::empty()
        },
        TreeCodeView::ASSIGN => if c.children.len() == 2 {
            seq![TCodeView::ID(name_of(c.children[0])), TCodeView::OP_ASSIGN] + expression_tokens(
                c.children[1],
            ) + seq![TCodeView::SEMICOLON]
        } else {
            Seq::empty()
        },
        TreeCodeView::IF => if c.children.len() == 3 {
            seq![TCodeView::KW_IF] + expression_tokens(c.children[0]) + block_tokens(c.children[1])
                + seq![TCodeView::KW_ELSE] + block_tokens(c.children[2])
        } else if c.children.len() == 2 {
            seq![TCodeView::KW_IF] + expression_tokens(c.children[0]) + block_tokens(c.children[1])
        } else {
            Seq::empty()
        },
        TreeCodeView::WHILE => if c.children.len() == 2 {
            seq![TCodeView::KW_WHILE] + expression_tokens(c.children[0]) + block_tokens(
                c.children[1],
            )
        } else {
            Seq::empty()
        },
        TreeCodeView::BLOCK => block_tokens(c),
        _ => expression_tokens(c) + seq![TCodeView::SEMICOLON],
    }
}

/// A token that may begin a statement.
pub open spec fn begins_statement(code: TCodeView) -> bool {
    code is KW_RETURN || code is KW_PRINT || code is KW_LET || code is KW_IF || code is KW_WHILE
        || code is BRACKET_L || code is SEMICOLON || begins_expression(code)
}

/// A statement is written with at least one token, and its first token begins a
/// statement.
pub proof fn lemma_statement_begins(s: Ast)
    requires
        is_statement(s),
    ensures
        statement_tokens(s).len() > 0,
        begins_statement(statement_tokens(s)[0]),
{
    if s.children.len() == 1 {
        let c = s.children[0];
        match c.code {
            TreeCodeView::RETURN => {},
            TreeCodeView::PRINT => {},
            TreeCodeView::LET => {},
            TreeCodeView::ASSIGN => {},
            TreeCodeView::IF => {},
            TreeCodeView::WHILE => {},
            TreeCodeView::BLOCK => {},
            _ => {
                lemma_expression_begins(c);
            },
        }
    }
}

/// Parsing the tokens of a `return` or a `print` gives the node.
pub proof fn lemma_keyword_statement_parses(
    c: Ast,
    ts: Seq<TCodeView>,
    pos: int,
    keyword: TCodeView,
    code: TreeCodeView,
)
    requires
        c.code == code,
        c.children.len() == 1,
        is_expression(c.children[0]),
        !(keyword is EOI),
        fits(ts, pos, seq![keyword] + expression_tokens(c.children[0]) + seq![TCodeView::SEMICOLON]),
    ensures
        keyword_statement(ts, pos, keyword, code) == (Parsed::Done {
            value: c,
            used: expression_tokens(c.children[0]).len() + 2,
        }),
{
    let semi = seq![TCodeView::SEMICOLON];
    let e = c.children[0];
    let et = expression_tokens(e);
    lemma_fits_split(ts, pos, seq![keyword] + et, semi);
    lemma_fits_split(ts, pos, seq![keyword], et);
    lemma_fits_tok(ts, pos, seq![keyword], 0);
    lemma_fits_tok(ts, pos + 1 + et.len() as int, semi, 0);
    lemma_expression_parses(e, ts, pos + 1);
    assert(c.children =~= seq![e]);
}

/// Parsing the tokens of a `let` gives the node.
pub proof fn lemma_let_parses(c: Ast, ts: Seq<TCodeView>, pos: int)
    requires
        c.code is LET,
        is_construct(c),
        fits(ts, pos, construct_tokens(c)),
    ensures
        let_statement(ts, pos) == (Parsed::Done { value: c, used: construct_tokens(c).len() }),
{
    let semi = seq![TCodeView::SEMICOLON];
    let all = construct_tokens(c);
    let name = c.children[0];
    assert(name.children =~= Seq::empty());
    assert(name == Ast::leaf(TreeCodeView::IDENTIFIER(name_of(name))));
    lemma_fits_tok(ts, pos, all, 0);
    lemma_fits_tok(ts, pos, all, 1);
    lemma_fits_tok(ts, pos, all, 2);
    if c.children.len() == 2 {
        let e = c.children[1];
        let et = expression_tokens(e);
        let head = seq![TCodeView::KW_LET, TCodeView::ID(name_of(name)), TCodeView::OP_ASSIGN];
        lemma_fits_split(ts, pos, head + et, semi);
        lemma_fits_split(ts, pos, head, et);
        lemma_fits_tok(ts, pos + 3 + et.len() as int, semi, 0);
        lemma_expression_parses(e, ts, pos + 3);
        assert(c.children =~= seq![name, e]);
        assert(seq![name].push(e) =~= seq![name, e]);
    } else {
        assert(c.children =~= seq![name]);
    }
}

/// Parsing the tokens of an assignment gives the node.
pub proof fn lemma_assign_parses(c: Ast, ts: Seq<TCodeView>, pos: int)
    requires
        c.code is ASSIGN,
        is_construct(c),
        fits(ts, pos, construct_tokens(c)),
    ensures
        assign_statement(ts, pos) == (Parsed::Done { value: c, used: construct_tokens(c).len() }),
{
    let semi = seq![TCodeView::SEMICOLON];
    let all = construct_tokens(c);
    let name = c.children[0];
    let e = c.children[1];
    let et = expression_tokens(e);
    assert(name.children =~= Seq::empty());
    assert(name == Ast::leaf(TreeCodeView::IDENTIFIER(name_of(name))));
    let head = seq![TCodeView::ID(name_of(name)), TCodeView::OP_ASSIGN];
    lemma_fits_tok(ts, pos, all, 0);
    lemma_fits_tok(ts, pos, all, 1);
    lemma_fits_split(ts, pos, head + et, semi);
    lemma_fits_split(ts, pos, head, et);
    lemma_fits_tok(ts, pos + 2 + et.len() as int, semi, 0);
    lemma_expression_parses(e, ts, pos + 2);
    assert(c.children =~= seq![name, e]);
}

/// Parsing the tokens of an expression statement gives the expression.
pub proof fn lemma_expression_statement_parses(c: Ast, ts: Seq<TCodeView>, pos: int)
    requires
        is_expression(c),
        fits(ts, pos, expression_tokens(c) + seq![TCodeView::SEMICOLON]),
    ensures
        expression_statement(ts, pos) == (Parsed::Done {
            value: c,
            used: expression_tokens(c).len() + 1,
        }),
        begins_expression(tok(ts, pos)),
        tok(ts, pos) is ID ==> !(tok(ts, pos + 1) is OP_ASSIGN),
{
    let semi = seq![TCodeView::SEMICOLON];
    let et = expression_tokens(c);
    lemma_expression_begins(c);
    lemma_fits_split(ts, pos, et, semi);
    lemma_fits_tok(ts, pos + et.len() as int, semi, 0);
    lemma_fits_tok(ts, pos, et + semi, 0);
    lemma_fits_tok(ts, pos, et + semi, 1);
    lemma_expression_parses(c, ts, pos);
}

/// Parsing the tokens of an `if` gives the node, where no `else` stands behind them.
pub proof fn lemma_if_parses(c: Ast, ts: Seq<TCodeView>, pos: int)
    requires
        c.code is IF,
        is_construct(c),
        fits(ts, pos, construct_tokens(c)),
        !(tok(ts, pos + construct_tokens(c).len()) is KW_ELSE),
    ensures
        if_statement(ts, pos) == (Parsed::Done { value: c, used: construct_tokens(c).len() }),
    decreases c, 0int,
{
    let e = c.children[0];
    let then_block = c.children[1];
    let et = expression_tokens(e);
    let bt = block_tokens(then_block);
    let head = seq![TCodeView::KW_IF];
    if c.children.len() == 3 {
        let else_block = c.children[2];
        let ot = block_tokens(else_block);
        let word = seq![TCodeView::KW_ELSE];
        lemma_fits_split(ts, pos, head + et + bt + word, ot);
        lemma_fits_split(ts, pos, head + et + bt, word);
        lemma_fits_split(ts, pos, head + et, bt);
        lemma_fits_split(ts, pos, head, et);
        lemma_fits_tok(ts, pos, head, 0);
        lemma_fits_tok(ts, pos + 1 + et.len() as int, bt, 0);
        lemma_fits_tok(ts, pos + 1 + et.len() as int + bt.len() as int, word, 0);
        lemma_expression_parses(e, ts, pos + 1);
        lemma_block_parses(then_block, ts, pos + 1 + et.len() as int);
        lemma_block_parses(else_block, ts, pos + 2 + et.len() as int + bt.len() as int);
        assert(c.children =~= seq![e, then_block, else_block]);
        assert(seq![e, then_block].push(else_block) =~= seq![e, then_block, else_block]);
    } else {
        lemma_fits_split(ts, pos, head + et, bt);
        lemma_fits_split(ts, pos, head, et);
        lemma_fits_tok(ts, pos, head, 0);
        lemma_fits_tok(ts, pos + 1 + et.len() as int, bt, 0);
        lemma_expression_parses(e, ts, pos + 1);
        lemma_block_parses(then_block, ts, pos + 1 + et.len() as int);
        assert(c.children =~= seq![e, then_block]);
    }
}

/// Parsing the tokens of a `while` gives the node.
pub proof fn lemma_while_parses(c: Ast, ts: Seq<TCodeView>, pos: int)
    requires
        c.code is WHILE,
        is_construct(c),
        fits(ts, pos, construct_tokens(c)),
    ensures
        while_statement(ts, pos) == (Parsed::Done { value: c, used: construct_tokens(c).len() }),
    decreases c, 0int,
{
    let e = c.children[0];
    let body = c.children[1];
    let et = expression_tokens(e);
    let bt = block_tokens(body);
    let head = seq![TCodeView::KW_WHILE];
    lemma_fits_split(ts, pos, head + et, bt);
    lemma_fits_split(ts, pos, head, et);
    lemma_fits_tok(ts, pos, head, 0);
    lemma_fits_tok(ts, pos + 1 + et.len() as int, bt, 0);
    lemma_expression_parses(e, ts, pos + 1);
    lemma_block_parses(body, ts, pos + 1 + et.len() as int);
    assert(c.children =~= seq![e, body]);
}

/// Parsing the tokens of a statement gives the statement, where no `else` stands behind
/// them.
pub proof fn lemma_statement_parses(s: Ast, ts: Seq<TCodeView>, pos: int)
    requires
        is_statement(s),
        fits(ts, pos, statement_tokens(s)),
        !(tok(ts, pos + statement_tokens(s).len()) is KW_ELSE),
    ensures
        statement(ts, pos) == (Parsed::Done { value: s, used: statement_tokens(s).len() }),
    decreases s, 2int,
{
    let all = statement_tokens(s);
    let n = all.len();
    lemma_statement_begins(s);
    lemma_fits_tok(ts, pos, all, 0);
    if s.children.len() == 0 {
        assert(s.children =~= Seq::empty());
    } else {
        let c = s.children[0];
        assert(s.children =~= seq![c]);
        assert(node(TreeCodeView::STATEMENT, seq![c]) == s);
        match c.code {
            TreeCodeView::RETURN => {
                lemma_keyword_statement_parses(
                    c,
                    ts,
                    pos,
                    TCodeView::KW_RETURN,
                    TreeCodeView::RETURN,
                );
            },
            TreeCodeView::PRINT => {
                lemma_keyword_statement_parses(
                    c,
                    ts,
                    pos,
                    TCodeView::KW_PRINT,
                    TreeCodeView::PRINT,
                );
            },
            TreeCodeView::LET => {
                lemma_let_parses(c, ts, pos);
            },
            TreeCodeView::ASSIGN => {
                lemma_fits_tok(ts, pos, all, 1);
                lemma_assign_parses(c, ts, pos);
            },
            TreeCodeView::IF => {
                lemma_if_parses(c, ts, pos);
            },
            TreeCodeView::WHILE => {
                lemma_while_parses(c, ts, pos);
            },
            TreeCodeView::BLOCK => {
                lemma_block_parses(c, ts, pos);
            },
            _ => {
                lemma_expression_statement_parses(c, ts, pos);
            },
        }
    }
}

/// Parsing the tokens of a block gives the block.
pub proof fn lemma_block_parses(b: Ast, ts: Seq<TCodeView>, pos: int)
    requires
        is_block(b),
        fits(ts, pos, block_tokens(b)),
    ensures
        block(ts, pos) == (Parsed::Done { value: b, used: block_tokens(b).len() }),
    decreases b, 0int,
{
    let open = seq![TCodeView::BRACKET_L];
    let inner = statements_tokens(b.children, 0);
    let shut = seq![TCodeView::BRACKET_R];
    lemma_fits_split(ts, pos, open + inner, shut);
    lemma_fits_split(ts, pos, open, inner);
    lemma_fits_tok(ts, pos, open, 0);
    lemma_fits_tok(ts, pos + 1 + inner.len() as int, shut, 0);
    let empty = Ast::leaf(TreeCodeView::BLOCK);
    assert(empty.children =~= b.children.take(0));
    lemma_block_items_parse(b.children, 0, ts, pos, pos + 1, empty);
    assert(node(empty.code, b.children) == b);
}

/// Parsing the tokens of the statements of a block, and its closing bracket, adds the
/// statements to the block.
pub proof fn lemma_block_items_parse(
    list: Seq<Ast>,
    from: int,
    ts: Seq<TCodeView>,
    start: int,
    pos: int,
    so_far: Ast,
)
    requires
        0 <= from <= list.len(),
        are_statements(list, from),
        fits(ts, pos, statements_tokens(list, from)),
        tok(ts, pos + statements_tokens(list, from).len()) is BRACKET_R,
        so_far.children == list.take(from),
        start <= pos,
    ensures
        block_items(ts, start, pos, so_far) == (Parsed::Done {
            value: node(so_far.code, list),
            used: (pos + statements_tokens(list, from).len() + 1 - start) as nat,
        }),
    decreases list, list.len() - from,
{
    if from == list.len() {
        assert(list.take(from) =~= list);
    } else {
        let s = list[from];
        let own = statement_tokens(s);
        let rest = statements_tokens(list, from + 1);
        lemma_statement_begins(s);
        lemma_fits_split(ts, pos, own, rest);
        lemma_fits_tok(ts, pos, own, 0);
        if from + 1 < list.len() {
            assert(are_statements(list, from + 1));
            assert(is_statement(list[from + 1]));
            lemma_statement_begins(list[from + 1]);
            assert(rest[0] == statement_tokens(list[from + 1])[0]);
            lemma_fits_tok(ts, pos + own.len() as int, rest, 0);
        } else {
            assert(rest =~= Seq::empty());
        }
        lemma_statement_parses(s, ts, pos);
        assert(advances(ts, pos, own.len()));
        assert(so_far.with_child(s).children =~= list.take(from + 1));
        lemma_block_items_parse(list, from + 1, ts, start, pos + own.len(), so_far.with_child(s));
    }
}

/// The name that the first child of a node holds; the empty name where there is none.
pub open spec fn first_name(node: Ast) -> Seq<char> {
    if node.children.len() > 0 {
        name_of(node.children[0])
    } else {
        Seq::empty()
    }
}

/// The tokens that write the parameters `list[from..]`, with commas between them.
pub open spec fn parameters_tokens(list: Seq<Ast>, from: int) -> Seq<TCodeView>
    decreases list.len() - from,
{
    if from < 0 || from >= list.len() {
        Seq::empty()
    } else if from + 1 >= list.len() {
        seq![TCodeView::ID(first_name(list[from]))]
    } else {
        seq![TCodeView::ID(first_name(list[from])), TCodeView::COMMA] + parameters_tokens(
            list,
            from + 1,
        )
    }
}

/// The tokens that write a function. A node that has not the three children of a function
/// is written with none.
pub open spec fn function_tokens(f: Ast) -> Seq<TCodeView> {
    if f.children.len() == 3 {
        seq![TCodeView::KW_FUNC, TCodeView::ID(name_of(f.children[0])), TCodeView::PAREN_L]
            + parameters_tokens(f.children[1].children, 0) + seq![TCodeView::PAREN_R]
            + block_tokens(f.children[2])
    } else {
        Seq::empty()
    }
}

/// The tokens that write the functions `list[from..]`.
pub open spec fn functions_tokens(list: Seq<Ast>, from: int) -> Seq<TCodeView>
    decreases list.len() - from,
{
    if from < 0 || from >= list.len() {
        Seq::empty()
    } else {
        function_tokens(list[from]) + functions_tokens(list, from + 1)
    }
}

/// The tokens that write a program, without the end of input.
pub open spec fn program_tokens(p: Ast) -> Seq<TCodeView> {
    functions_tokens(p.children, 0)
}

/// Parsing the tokens of a list of parameters adds the parameters to the list node.
pub proof fn lemma_parameters_parse(
    list: Seq<Ast>,
    from: int,
    ts: Seq<TCodeView>,
    start: int,
    pos: int,
    so_far: Ast,
)
    requires
        0 <= from < list.len(),
        forall|i: int| 0 <= i < list.len() ==> is_parameter(#[trigger] list[i]),
        fits(ts, pos, parameters_tokens(list, from)),
        tok(ts, pos + parameters_tokens(list, from).len()) is PAREN_R,
        so_far.children == list.take(from),
        start <= pos,
    ensures
        parameter_items(ts, start, pos, so_far) == (Parsed::Done {
            value: node(so_far.code, list),
            used: (pos + parameters_tokens(list, from).len() - start) as nat,
        }),
    decreases list.len() - from,
{
    let p = list[from];
    let all = parameters_tokens(list, from);
    assert(is_parameter(p));
    assert(p.children =~= seq![p.children[0]]);
    assert(p.children[0].children =~= Seq::empty());
    assert(p == node(
        TreeCodeView::PARAMETER,
        seq![Ast::leaf(TreeCodeView::IDENTIFIER(name_of(p.children[0])))],
    ));
    lemma_fits_tok(ts, pos, all, 0);
    assert(so_far.with_child(p).children =~= list.take(from + 1));
    if from + 1 >= list.len() {
        assert(list.take(from + 1) =~= list);
        assert(so_far.with_child(p) == node(so_far.code, list));
    } else {
        let rest = parameters_tokens(list, from + 1);
        let head = seq![TCodeView::ID(first_name(p)), TCodeView::COMMA];
        lemma_fits_tok(ts, pos, all, 1);
        lemma_fits_split(ts, pos, head, rest);
        lemma_parameters_parse(list, from + 1, ts, start, pos + 2, so_far.with_child(p));
    }
}

/// Parsing the tokens of a function gives the function.
pub proof fn lemma_function_parses(f: Ast, ts: Seq<TCodeView>, pos: int)
    requires
        is_function(f),
        fits(ts, pos, function_tokens(f)),
    ensures
        function(ts, pos) == (Parsed::Done { value: f, used: function_tokens(f).len() }),
{
    let name = f.children[0];
    let params = f.children[1];
    let body = f.children[2];
    let head = seq![TCodeView::KW_FUNC, TCodeView::ID(name_of(name)), TCodeView::PAREN_L];
    let pt = parameters_tokens(params.children, 0);
    let shut = seq![TCodeView::PAREN_R];
    let bt = block_tokens(body);
    let all = function_tokens(f);
    lemma_fits_split(ts, pos, head + pt + shut, bt);
    lemma_fits_split(ts, pos, head + pt, shut);
    lemma_fits_split(ts, pos, head, pt);
    lemma_fits_tok(ts, pos, head, 0);
    lemma_fits_tok(ts, pos, head, 1);
    lemma_fits_tok(ts, pos, head, 2);
    lemma_fits_tok(ts, pos + 3 + pt.len() as int, shut, 0);
    assert(name.children =~= Seq::empty());
    assert(name == Ast::leaf(TreeCodeView::IDENTIFIER(name_of(name))));
    let empty = Ast::leaf(TreeCodeView::PARAM_LIST);
    if params.children.len() == 0 {
        assert(pt =~= Seq::empty());
        assert(params.children =~= Seq::empty());
        assert(params == empty);
        assert(parameter_list(ts, pos + 3) == (Parsed::Done::<Ast> { value: params, used: 0 }));
    } else {
        lemma_fits_tok(ts, pos + 3, pt, 0);
        assert(empty.children =~= params.children.take(0));
        lemma_parameters_parse(params.children, 0, ts, pos + 3, pos + 3, empty);
        assert(node(empty.code, params.children) == params);
        assert(parameter_list(ts, pos + 3) == (Parsed::Done::<Ast> {
            value: params,
            used: pt.len(),
        }));
    }
    lemma_block_parses(body, ts, pos + 4 + pt.len() as int);
    assert(f.children =~= seq![name, params, body]);
}

/// Parsing the tokens of the functions of a program, and the end of input, adds the
/// functions to the program.
pub proof fn lemma_program_items_parse(
    list: Seq<Ast>,
    from: int,
    ts: Seq<TCodeView>,
    start: int,
    pos: int,
    so_far: Ast,
)
    requires
        0 <= from <= list.len(),
        forall|i: int| 0 <= i < list.len() ==> is_function(#[trigger] list[i]),
        fits(ts, pos, functions_tokens(list, from)),
        tok(ts, pos + functions_tokens(list, from).len()) is EOI,
        so_far.children == list.take(from),
        start <= pos,
    ensures
        program_items(ts, start, pos, so_far) == (Parsed::Done {
            value: node(so_far.code, list),
            used: (pos + functions_tokens(list, from).len() - start) as nat,
        }),
    decreases list.len() - from,
{
    if from == list.len() {
        assert(list.take(from) =~= list);
    } else {
        let f = list[from];
        let own = function_tokens(f);
        let rest = functions_tokens(list, from + 1);
        assert(is_function(f));
        lemma_fits_split(ts, pos, own, rest);
        lemma_fits_tok(ts, pos, own, 0);
        lemma_function_parses(f, ts, pos);
        assert(advances(ts, pos, own.len()));
        assert(so_far.with_child(f).children =~= list.take(from + 1));
        lemma_program_items_parse(list, from + 1, ts, start, pos + own.len(), so_far.with_child(f));
    }
}

/// Round trip: the tokens that write a program, followed by the end of input, parse to
/// that program again.
pub proof fn lemma_round_trip(p: Ast)
    requires
        is_program(p),
    ensures
        program(program_tokens(p) + seq![TCodeView::EOI], 0) == (Parsed::Done {
            value: p,
            used: program_tokens(p).len(),
        }),
{
    let ts = program_tokens(p) + seq![TCodeView::EOI];
    assert(ts.subrange(0, program_tokens(p).len() as int) =~= program_tokens(p));
    let empty = Ast::leaf(TreeCodeView::PROGRAM);
    assert(empty.children =~= p.children.take(0));
    lemma_program_items_parse(p.children, 0, ts, 0, 0, empty);
    assert(node(empty.code, p.children) == p);
}

/// Round trip from source: the tree that any token sequence parses to, written as tokens
/// and parsed again, is the same tree.
pub proof fn lemma_parse_print_parse(ts: Seq<TCodeView>, pos: int)
    ensures
        program(ts, pos) matches Parsed::Done { value, .. } ==> program(
            program_tokens(value) + seq![TCodeView::EOI],
            0,
        ) == (Parsed::Done { value, used: program_tokens(value).len() }),
{
    lemma_program_shape(ts, pos);
    match program(ts, pos) {
        Parsed::Done { value, used } => {
            lemma_round_trip(value);
        },
        Parsed::Failed(_) => {},
    }
}

/// No token of the sequence has a location.
pub open spec fn bare(tokens: Seq<Token>) -> bool {
    forall|i: int| 0 <= i < tokens.len() ==> (#[trigger] tokens[i]).loc == TLoc::spec_empty()
}

/// The token that writes an operator.
pub fn op_token(op: Op) -> (code: TCode)
    ensures
        code@ == op_code(op),
{
    match op {
        Op::ADD => TCode::OP_ADD,
        Op::SUB => TCode::OP_SUB,
        Op::MUL => TCode::OP_MUL,
        Op::DIV => TCode::OP_DIV,
        Op::EQUAL => TCode::OP_EQUAL,
        Op::NOT_EQUAL => TCode::OP_NOT_EQUAL,
        Op::LT => TCode::OP_LT,
        Op::GT => TCode::OP_GT,
        Op::AND => TCode::OP_AND,
        Op::OR => TCode::OP_OR,
        Op::NOT => TCode::OP_NOT,
    }
}

/// Adds a token of the given code, without a location.
fn emit(out: &mut Vec<Token>, code: TCode)
    ensures
        codes_of(final(out)@) == codes_of(old(out)@).push(code@),
        bare(old(out)@) ==> bare(final(out)@),
{
    out.push(Token::from(code));
    assert(codes_of(out@) =~= codes_of(old(out)@).push(code@));
}

/// Adds the identifier token of the name that `node` holds.
fn emit_name(out: &mut Vec<Token>, node: &MTree)
    ensures
        codes_of(final(out)@) == codes_of(old(out)@).push(TCodeView::ID(name_of(node@))),
        bare(old(out)@) ==> bare(final(out)@),
{
    proof {
        lemma_view_unfold(*node);
    }
    let name = match &node.token {
        TreeCode::IDENTIFIER(name) => name.clone(),
        _ => String::new(),
    };
    emit(out, TCode::ID(name));
}

/// Tells whether a node is a literal, an identifier or a call.
fn node_is_atom(e: &MTree) -> (b: bool)
    ensures
        b == is_atom(e@),
{
    proof {
        lemma_view_unfold(*e);
    }
    match e.token {
        TreeCode::INT_LITERAL(_) => true,
        TreeCode::BOOL_LITERAL(_) => true,
        TreeCode::IDENTIFIER(_) => true,
        TreeCode::FUNCTION_CALL(_) => true,
        _ => false,
    }
}

/// Writes an expression as tokens behind those of `out`.
pub fn write_expression(e: &MTree, out: &mut Vec<Token>)
    ensures
        codes_of(final(out)@) == codes_of(old(out)@) + expression_tokens(e@),
        bare(old(out)@) ==> bare(final(out)@),
    decreases e, 0int,
{
    proof {
        lemma_view_unfold(*e);
    }
    let ghost before = codes_of(out@);
    match &e.token {
        TreeCode::INT_LITERAL(value) => {
            emit(out, TCode::INT(*value));
            assert(codes_of(out@) =~= before + expression_tokens(e@));
        },
        TreeCode::BOOL_LITERAL(value) => {
            emit(out, TCode::BOOL(*value));
            assert(codes_of(out@) =~= before + expression_tokens(e@));
        },
        TreeCode::IDENTIFIER(name) => {
            emit(out, TCode::ID(name.clone()));
            assert(codes_of(out@) =~= before + expression_tokens(e@));
        },
        TreeCode::OPERATOR(op) => {
            if e.children.len() == 1 {
                emit(out, op_token(*op));
                write_operand(&e.children[0], out);
                assert(codes_of(out@) =~= before + expression_tokens(e@));
            } else if e.children.len() == 2 {
                write_operand(&e.children[0], out);
                emit(out, op_token(*op));
                write_operand(&e.children[1], out);
                assert(codes_of(out@) =~= before + expression_tokens(e@));
            } else {
                assert(codes_of(out@) =~= before + expression_tokens(e@));
            }
        },
        TreeCode::FUNCTION_CALL(name) => {
            emit(out, TCode::ID(name.clone()));
            emit(out, TCode::PAREN_L);
            let ghost head = codes_of(out@);
            let ghost list = e@.children;
            let mut i: usize = 1;
            while i < e.children.len()
                invariant
                    1 <= i,
                    bare(old(out)@) ==> bare(out@),
                    list == e@.children,
                    list == views_of(e.children@),
                    head + argument_tokens(list, 1) == codes_of(out@) + argument_tokens(
                        list,
                        i as int,
                    ),
                decreases e.children.len() - i,
            {
                let ghost now = codes_of(out@);
                write_expression(&e.children[i], out);
                if i + 1 < e.children.len() {
                    emit(out, TCode::COMMA);
                }
                assert(now + argument_tokens(list, i as int) =~= codes_of(out@) + argument_tokens(
                    list,
                    i as int + 1,
                ));
                i += 1;
            }
            let ghost args = codes_of(out@);
            emit(out, TCode::PAREN_R);
            assert(argument_tokens(list, i as int) =~= Seq::empty());
            assert(args =~= head + argument_tokens(list, 1));
            assert(codes_of(out@) =~= before + expression_tokens(e@));
        },
        _ => {
            assert(codes_of(out@) =~= before + expression_tokens(e@));
        },
    }
}

/// Writes an expression as an operand: in brackets, but for an atom.
fn write_operand(e: &MTree, out: &mut Vec<Token>)
    ensures
        codes_of(final(out)@) == codes_of(old(out)@) + operand_tokens(e@),
        bare(old(out)@) ==> bare(final(out)@),
    decreases e, 1int,
{
    let ghost before = codes_of(out@);
    if node_is_atom(e) {
        write_expression(e, out);
    } else {
        emit(out, TCode::PAREN_L);
        write_expression(e, out);
        emit(out, TCode::PAREN_R);
        assert(codes_of(out@) =~= before + operand_tokens(e@));
    }
}

/// Writes a block as tokens behind those of `out`.
fn write_block(b: &MTree, out: &mut Vec<Token>)
    ensures
        codes_of(final(out)@) == codes_of(old(out)@) + block_tokens(b@),
        bare(old(out)@) ==> bare(final(out)@),
    decreases b, 0int,
{
    proof {
        lemma_view_unfold(*b);
    }
    let ghost before = codes_of(out@);
    emit(out, TCode::BRACKET_L);
    let ghost head = codes_of(out@);
    let ghost list = b@.children;
    let mut i: usize = 0;
    while i < b.children.len()
        invariant
            bare(old(out)@) ==> bare(out@),
            list == b@.children,
            list == views_of(b.children@),
            head + statements_tokens(list, 0) == codes_of(out@) + statements_tokens(list, i as int),
        decreases b.children.len() - i,
    {
        let ghost now = codes_of(out@);
        write_statement(&b.children[i], out);
        assert(now + statements_tokens(list, i as int) =~= codes_of(out@) + statements_tokens(
            list,
            i as int + 1,
        ));
        i += 1;
    }
    let ghost inner = codes_of(out@);
    emit(out, TCode::BRACKET_R);
    assert(statements_tokens(list, i as int) =~= Seq::empty());
    assert(inner =~= head + statements_tokens(list, 0));
    assert(codes_of(out@) =~= before + block_tokens(b@));
}

/// Writes a statement as tokens behind those of `out`.
fn write_statement(s: &MTree, out: &mut Vec<Token>)
    ensures
        codes_of(final(out)@) == codes_of(old(out)@) + statement_tokens(s@),
        bare(old(out)@) ==> bare(final(out)@),
    decreases s, 2int,
{
    proof {
        lemma_view_unfold(*s);
    }
    let ghost before = codes_of(out@);
    if s.children.len() == 0 {
        emit(out, TCode::SEMICOLON);
        assert(codes_of(out@) =~= before + statement_tokens(s@));
    } else {
        write_construct(&s.children[0], out);
    }
}

/// Writes what a statement node holds as tokens behind those of `out`.
fn write_construct(c: &MTree, out: &mut Vec<Token>)
    ensures
        codes_of(final(out)@) == codes_of(old(out)@) + construct_tokens(c@),
        bare(old(out)@) ==> bare(final(out)@),
    decreases c, 1int,
{
    proof {
        lemma_view_unfold(*c);
    }
    let ghost before = codes_of(out@);
    let n = c.children.len();
    match c.token {
        TreeCode::RETURN => {
            if n == 1 {
                emit(out, TCode::KW_RETURN);
                write_expression(&c.children[0], out);
                emit(out, TCode::SEMICOLON);
            }
        },
        TreeCode::PRINT => {
            if n == 1 {
                emit(out, TCode::KW_PRINT);
                write_expression(&c.children[0], out);
                emit(out, TCode::SEMICOLON);
            }
        },
        TreeCode::LET => {
            if n == 2 {
                emit(out, TCode::KW_LET);
                emit_name(out, &c.children[0]);
                emit(out, TCode::OP_ASSIGN);
                write_expression(&c.children[1], out);
                emit(out, TCode::SEMICOLON);
            } else if n == 1 {
                emit(out, TCode::KW_LET);
                emit_name(out, &c.children[0]);
                emit(out, TCode::SEMICOLON);
            }
        },
        TreeCode::ASSIGN => {
            if n == 2 {
                emit_name(out, &c.children[0]);
                emit(out, TCode::OP_ASSIGN);
                write_expression(&c.children[1], out);
                emit(out, TCode::SEMICOLON);
            }
        },
        TreeCode::IF => {
            if n == 3 {
                emit(out, TCode::KW_IF);
                write_expression(&c.children[0], out);
                write_block(&c.children[1], out);
                emit(out, TCode::KW_ELSE);
                write_block(&c.children[2], out);
            } else if n == 2 {
                emit(out, TCode::KW_IF);
                write_expression(&c.children[0], out);
                write_block(&c.children[1], out);
            }
        },
        TreeCode::WHILE => {
            if n == 2 {
                emit(out, TCode::KW_WHILE);
                write_expression(&c.children[0], out);
                write_block(&c.children[1], out);
            }
        },
        TreeCode::BLOCK => {
            write_block(c, out);
        },
        _ => {
            write_expression(c, out);
            emit(out, TCode::SEMICOLON);
        },
    }
    assert(codes_of(out@) =~= before + construct_tokens(c@));
}

/// Writes a function as tokens behind those of `out`.
fn write_function(f: &MTree, out: &mut Vec<Token>)
    ensures
        codes_of(final(out)@) == codes_of(old(out)@) + function_tokens(f@),
        bare(old(out)@) ==> bare(final(out)@),
{
    proof {
        lemma_view_unfold(*f);
    }
    let ghost before = codes_of(out@);
    if f.children.len() != 3 {
        assert(codes_of(out@) =~= before + function_tokens(f@));
        return ;
    }
    proof {
        lemma_view_unfold(f.children@[1]);
    }
    emit(out, TCode::KW_FUNC);
    emit_name(out, &f.children[0]);
    emit(out, TCode::PAREN_L);
    let params = &f.children[1].children;
    let ghost head = codes_of(out@);
    let ghost list = f@.children[1].children;
    let mut i: usize = 0;
    while i < params.len()
        invariant
            bare(old(out)@) ==> bare(out@),
            list == views_of(params@),
            head + parameters_tokens(list, 0) == codes_of(out@) + parameters_tokens(list, i as int),
        decreases params.len() - i,
    {
        let ghost now = codes_of(out@);
        proof {
            lemma_view_unfold(params@[i as int]);
        }
        if params[i].children.len() > 0 {
            emit_name(out, &params[i].children[0]);
        } else {
            emit(out, TCode::ID(String::new()));
        }
        assert(codes_of(out@) == now.push(TCodeView::ID(first_name(list[i as int]))));
        if i + 1 < params.len() {
            emit(out, TCode::COMMA);
        }
        assert(now + parameters_tokens(list, i as int) =~= codes_of(out@) + parameters_tokens(
            list,
            i as int + 1,
        ));
        i += 1;
    }
    let ghost listed = codes_of(out@);
    emit(out, TCode::PAREN_R);
    write_block(&f.children[2], out);
    assert(parameters_tokens(list, i as int) =~= Seq::empty());
    assert(listed =~= head + parameters_tokens(list, 0));
    assert(codes_of(out@) =~= before + function_tokens(f@));
}

/// Writes a program as tokens, ended by the end of input. The tokens have no location.
pub fn write_program(p: &MTree) -> (tokens: Vec<Token>)
    ensures
        codes_of(tokens@) == program_tokens(p@) + seq![TCodeView::EOI],
        bare(tokens@),
{
    proof {
        lemma_view_unfold(*p);
    }
    let mut out: Vec<Token> = Vec::new();
    let ghost list = p@.children;
    assert(codes_of(out@) =~= Seq::empty());
    let mut i: usize = 0;
    while i < p.children.len()
        invariant
            bare(out@),
            list == p@.children,
            list == views_of(p.children@),
            functions_tokens(list, 0) == codes_of(out@) + functions_tokens(list, i as int),
        decreases p.children.len() - i,
    {
        let ghost now = codes_of(out@);
        write_function(&p.children[i], &mut out);
        assert(now + functions_tokens(list, i as int) =~= codes_of(out@) + functions_tokens(
            list,
            i as int + 1,
        ));
        i += 1;
    }
    assert(functions_tokens(list, i as int) =~= Seq::empty());
    let ghost body = codes_of(out@);
    emit(&mut out, TCode::EOI);
    assert(body =~= program_tokens(p@));
    out
}

} // verus!
