//! The shape of the trees that the grammar builds, and the proof that every tree that a
//! parse yields has it.
use crate::grammar::{
    advances, arguments, assign_statement, binary, binary_rest, block, block_items, expression,
    expression_statement, function, if_statement, keyword_statement, left, let_statement,
    level_op, levels_below, node, parameter, parameter_items, parameter_list, prefix_op, primary,
    program, program_items, statement, tok, unary, while_statement, Parsed,
};
use crate::mtree::Ast;
use crate::tokens::{Op, TCodeView, TreeCodeView};
use vstd::prelude::*;

verus! {

/// The operators that stand before their one operand.
pub open spec fn is_prefix(op: Op) -> bool {
    op == Op::NOT || op == Op::SUB
}

/// The operators that stand between their two operands.
pub open spec fn is_infix(op: Op) -> bool {
    op != Op::NOT
}

/// A literal, an identifier or a call: an expression that needs no brackets as an operand.
pub open spec fn is_atom(e: Ast) -> bool {
    e.code is INT_LITERAL || e.code is BOOL_LITERAL || e.code is IDENTIFIER
        || e.code is FUNCTION_CALL
}

/// The trees that the grammar builds for expressions: literals and identifiers without
/// children, a prefix operator over one expression, an infix operator over two, and a call
/// whose first child names the callee and whose other children are expressions.
pub open spec fn is_expression(e: Ast) -> bool
    decreases e, 0int,
{
    match e.code {
        TreeCodeView::INT_LITERAL(_) => e.children.len() == 0,
        TreeCodeView::BOOL_LITERAL(_) => e.children.len() == 0,
        TreeCodeView::IDENTIFIER(_) => e.children.len() == 0,
        TreeCodeView::OPERATOR(op) => if e.children.len() == 1 {
            is_prefix(op) && is_expression(e.children[0])
        } else if e.children.len() == 2 {
            is_infix(op) && is_expression(e.children[0]) && is_expression(e.children[1])
        } else {
            false
        },
        TreeCodeView::FUNCTION_CALL(name) => e.children.len() >= 1 && e.children[0] == Ast::leaf(
            TreeCodeView::IDENTIFIER(name),
        ) && are_expressions(e.children, 1),
        _ => false,
    }
}

/// Each of `list[from..]` is an expression.
pub open spec fn are_expressions(list: Seq<Ast>, from: int) -> bool
    decreases list, list.len() - from,
{
    if from < 0 || from >= list.len() {
        true
    } else {
        is_expression(list[from]) && are_expressions(list, from + 1)
    }
}

/// A leaf that holds an identifier.
pub open spec fn is_name(e: Ast) -> bool {
    e.code is IDENTIFIER && e.children.len() == 0
}

/// The name that an identifier holds.
pub open spec fn name_of(e: Ast) -> Seq<char> {
    match e.code {
        TreeCodeView::IDENTIFIER(name) => name,
        _ => Seq::empty(),
    }
}

/// The trees that the grammar builds for blocks: a block node over statements.
pub open spec fn is_block(b: Ast) -> bool
    decreases b, 0int,
{
    b.code is BLOCK && are_statements(b.children, 0)
}

/// Each of `list[from..]` is a statement.
pub open spec fn are_statements(list: Seq<Ast>, from: int) -> bool
    decreases list, list.len() - from,
{
    if from < 0 || from >= list.len() {
        true
    } else {
        is_statement(list[from]) && are_statements(list, from + 1)
    }
}

/// The trees that the grammar builds for statements: a statement node without children,
/// for a semicolon alone, or over one construct.
pub open spec fn is_statement(s: Ast) -> bool
    decreases s, 2int,
{
    s.code is STATEMENT && (s.children.len() == 0 || (s.children.len() == 1 && is_construct(
        s.children[0],
    )))
}

/// What a statement node holds: `return` and `print` over an expression, `let` over a name
/// and perhaps an initializer, an assignment over a name and an expression, `if` over a
/// condition and one or two blocks, `while` over a condition and a block, a block, or an
/// expression.
pub open spec fn is_construct(c: Ast) -> bool
    decreases c, 1int,
{
    match c.code {
        TreeCodeView::RETURN => c.children.len() == 1 && is_expression(c.children[0]),
        TreeCodeView::PRINT => c.children.len() == 1 && is_expression(c.children[0]),
        TreeCodeView::LET => if c.children.len() == 1 {
            is_name(c.children[0])
        } else if c.children.len() == 2 {
            is_name(c.children[0]) && is_expression(c.children[1])
        } else {
            false
        },
        TreeCodeView::ASSIGN => c.children.len() == 2 && is_name(c.children[0]) && is_expression(
            c.children[1],
        ),
        TreeCodeView::IF => if c.children.len() == 2 {
            is_expression(c.children[0]) && is_block(c.children[1])
        } else if c.children.len() == 3 {
            is_expression(c.children[0]) && is_block(c.children[1]) && is_block(c.children[2])
        } else {
            false
        },
        TreeCodeView::WHILE => c.children.len() == 2 && is_expression(c.children[0]) && is_block(
            c.children[1],
        ),
        TreeCodeView::BLOCK => is_block(c),
        _ => is_expression(c),
    }
}

/// The trees that the grammar builds for parameters: a parameter node over a name.
pub open spec fn is_parameter(p: Ast) -> bool {
    p.code is PARAMETER && p.children.len() == 1 && is_name(p.children[0])
}

/// The trees that the grammar builds for functions: a function node over its name, the
/// list of its parameters, and its body.
pub open spec fn is_function(f: Ast) -> bool {
    &&& f.code is FUNCTION
    &&& f.children.len() == 3
    &&& is_name(f.children[0])
    &&& f.children[1].code is PARAM_LIST
    &&& forall|i: int| 0 <= i < f.children[1].children.len() ==> is_parameter(
        #[trigger] f.children[1].children[i],
    )
    &&& is_block(f.children[2])
}

/// The trees that the grammar builds for programs: a program node over functions.
pub open spec fn is_program(p: Ast) -> bool {
    &&& p.code is PROGRAM
    &&& forall|i: int| 0 <= i < p.children.len() ==> is_function(#[trigger] p.children[i])
}

/// Each node of a list of expressions is an expression.
pub proof fn lemma_expressions_each(list: Seq<Ast>, from: int)
    requires
        0 <= from,
        are_expressions(list, from),
    ensures
        forall|k: int| from <= k < list.len() ==> is_expression(#[trigger] list[k]),
    decreases list.len() - from,
{
    if from < list.len() {
        lemma_expressions_each(list, from + 1);
    }
}

/// Each node of a list of statements is a statement.
pub proof fn lemma_statements_each(list: Seq<Ast>, from: int)
    requires
        0 <= from,
        are_statements(list, from),
    ensures
        forall|k: int| from <= k < list.len() ==> is_statement(#[trigger] list[k]),
    decreases list.len() - from,
{
    if from < list.len() {
        lemma_statements_each(list, from + 1);
    }
}

/// A list of expressions with one more expression behind it is a list of expressions.
pub proof fn lemma_expressions_push(list: Seq<Ast>, from: int, e: Ast)
    requires
        0 <= from,
        are_expressions(list, from),
        is_expression(e),
    ensures
        are_expressions(list.push(e), from),
    decreases list.len() - from,
{
    let more = list.push(e);
    if from < list.len() {
        lemma_expressions_push(list, from + 1, e);
        assert(more[from] == list[from]);
    } else if from == list.len() {
        assert(more[from] == e);
        assert(are_expressions(more, from + 1));
    }
}

/// A list of statements with one more statement behind it is a list of statements.
pub proof fn lemma_statements_push(list: Seq<Ast>, from: int, s: Ast)
    requires
        0 <= from,
        are_statements(list, from),
        is_statement(s),
    ensures
        are_statements(list.push(s), from),
    decreases list.len() - from,
{
    let more = list.push(s);
    if from < list.len() {
        lemma_statements_push(list, from + 1, s);
        assert(more[from] == list[from]);
    } else if from == list.len() {
        assert(more[from] == s);
        assert(are_statements(more, from + 1));
    }
}

/// What parses as an expression is an expression tree.
pub proof fn lemma_expression_shape(ts: Seq<TCodeView>, pos: int)
    ensures
        expression(ts, pos) matches Parsed::Done { value, .. } ==> is_expression(value),
    decreases left(ts, pos), 11int,
{
    lemma_binary_shape(ts, pos, 0);
}

/// What parses as an expression of a level is an expression tree.
pub proof fn lemma_binary_shape(ts: Seq<TCodeView>, pos: int, level: int)
    ensures
        binary(ts, pos, level) matches Parsed::Done { value, .. } ==> is_expression(value),
    decreases left(ts, pos), levels_below(level) + 3,
{
    if level < 0 || level > 5 {
        lemma_unary_shape(ts, pos);
    } else {
        lemma_binary_shape(ts, pos, level + 1);
        match binary(ts, pos, level + 1) {
            Parsed::Done { value, used } => {
                lemma_binary_rest_shape(ts, pos, pos + used, level, value);
            },
            Parsed::Failed(_) => {},
        }
    }
}

/// What an expression tree grows to by further operators of its level is an expression
/// tree.
pub proof fn lemma_binary_rest_shape(
    ts: Seq<TCodeView>,
    start: int,
    pos: int,
    level: int,
    so_far: Ast,
)
    requires
        is_expression(so_far),
    ensures
        binary_rest(ts, start, pos, level, so_far) matches Parsed::Done { value, .. }
            ==> is_expression(value),
    decreases left(ts, pos), 0int,
{
    match level_op(level, tok(ts, pos)) {
        Some(op) => {
            lemma_binary_shape(ts, pos + 1, level + 1);
            match binary(ts, pos + 1, level + 1) {
                Parsed::Done { value, used } => {
                    let joined = node(TreeCodeView::OPERATOR(op), seq![so_far, value]);
                    assert(is_expression(joined));
                    lemma_binary_rest_shape(ts, start, pos + 1 + used, level, joined);
                },
                Parsed::Failed(_) => {},
            }
        },
        None => {},
    }
}

/// What parses as a unary expression is an expression tree.
pub proof fn lemma_unary_shape(ts: Seq<TCodeView>, pos: int)
    ensures
        unary(ts, pos) matches Parsed::Done { value, .. } ==> is_expression(value),
    decreases left(ts, pos), 2int,
{
    match prefix_op(tok(ts, pos)) {
        Some(op) => {
            lemma_unary_shape(ts, pos + 1);
            match unary(ts, pos + 1) {
                Parsed::Done { value, used } => {
                    assert(is_expression(node(TreeCodeView::OPERATOR(op), seq![value])));
                },
                Parsed::Failed(_) => {},
            }
        },
        None => {
            lemma_primary_shape(ts, pos);
        },
    }
}

/// What parses as a primary expression is an expression tree.
pub proof fn lemma_primary_shape(ts: Seq<TCodeView>, pos: int)
    ensures
        primary(ts, pos) matches Parsed::Done { value, .. } ==> is_expression(value),
    decreases left(ts, pos), 1int,
{
    match tok(ts, pos) {
        TCodeView::INT(value) => {
            assert(is_expression(Ast::leaf(TreeCodeView::INT_LITERAL(value))));
        },
        TCodeView::BOOL(value) => {
            assert(is_expression(Ast::leaf(TreeCodeView::BOOL_LITERAL(value))));
        },
        TCodeView::ID(name) => {
            if tok(ts, pos + 1) is PAREN_L {
                let call = node(
                    TreeCodeView::FUNCTION_CALL(name),
                    seq![Ast::leaf(TreeCodeView::IDENTIFIER(name))],
                );
                assert(are_expressions(call.children, 1));
                assert(is_expression(call));
                if !(tok(ts, pos + 2) is PAREN_R) {
                    lemma_arguments_shape(ts, pos, pos + 2, call);
                }
            } else {
                assert(is_expression(Ast::leaf(TreeCodeView::IDENTIFIER(name))));
            }
        },
        TCodeView::PAREN_L => {
            lemma_expression_shape(ts, pos + 1);
        },
        _ => {},
    }
}

/// What a call grows to by its arguments is an expression tree.
pub proof fn lemma_arguments_shape(ts: Seq<TCodeView>, start: int, pos: int, call: Ast)
    requires
        call.code is FUNCTION_CALL,
        is_expression(call),
    ensures
        arguments(ts, start, pos, call) matches Parsed::Done { value, .. } ==> is_expression(value),
    decreases left(ts, pos), 12int,
{
    lemma_expression_shape(ts, pos);
    match expression(ts, pos) {
        Parsed::Done { value, used } => {
            lemma_expressions_push(call.children, 1, value);
            let more = call.with_child(value);
            assert(more.children[0] == call.children[0]);
            assert(is_expression(more));
            if tok(ts, pos + used) is COMMA {
                lemma_arguments_shape(ts, start, pos + used + 1, more);
            }
        },
        Parsed::Failed(_) => {},
    }
}

/// What parses as a `return` or a `print` is such a node over an expression.
pub proof fn lemma_keyword_statement_shape(
    ts: Seq<TCodeView>,
    pos: int,
    keyword: TCodeView,
    code: TreeCodeView,
)
    requires
        code is RETURN || code is PRINT,
    ensures
        keyword_statement(ts, pos, keyword, code) matches Parsed::Done { value, .. }
            ==> is_construct(value),
{
    lemma_expression_shape(ts, pos + 1);
}

/// What parses as a `let`, as an assignment or as an expression statement is what a
/// statement node may hold.
pub proof fn lemma_simple_statement_shape(ts: Seq<TCodeView>, pos: int)
    ensures
        let_statement(ts, pos) matches Parsed::Done { value, .. } ==> is_construct(value),
        assign_statement(ts, pos) matches Parsed::Done { value, .. } ==> is_construct(value),
        expression_statement(ts, pos) matches Parsed::Done { value, .. } ==> is_construct(value),
{
    lemma_expression_shape(ts, pos);
    lemma_expression_shape(ts, pos + 2);
    lemma_expression_shape(ts, pos + 3);
}

/// What parses as a block is a block tree.
pub proof fn lemma_block_shape(ts: Seq<TCodeView>, pos: int)
    ensures
        block(ts, pos) matches Parsed::Done { value, .. } ==> is_block(value),
    decreases left(ts, pos), 1int,
{
    if tok(ts, pos) is BRACKET_L {
        let empty = Ast::leaf(TreeCodeView::BLOCK);
        assert(is_block(empty));
        lemma_block_items_shape(ts, pos, pos + 1, empty);
    }
}

/// What a block grows to by its statements is a block tree.
pub proof fn lemma_block_items_shape(ts: Seq<TCodeView>, start: int, pos: int, so_far: Ast)
    requires
        is_block(so_far),
    ensures
        block_items(ts, start, pos, so_far) matches Parsed::Done { value, .. } ==> is_block(value),
    decreases left(ts, pos), 3int,
{
    if !(tok(ts, pos) is BRACKET_R) {
        lemma_statement_shape(ts, pos);
        match statement(ts, pos) {
            Parsed::Done { value, used } => {
                if advances(ts, pos, used) {
                    lemma_statements_push(so_far.children, 0, value);
                    lemma_block_items_shape(ts, start, pos + used, so_far.with_child(value));
                }
            },
            Parsed::Failed(_) => {},
        }
    }
}

/// What parses as a statement is a statement tree.
pub proof fn lemma_statement_shape(ts: Seq<TCodeView>, pos: int)
    ensures
        statement(ts, pos) matches Parsed::Done { value, .. } ==> is_statement(value),
    decreases left(ts, pos), 2int,
{
    lemma_keyword_statement_shape(ts, pos, TCodeView::KW_RETURN, TreeCodeView::RETURN);
    lemma_keyword_statement_shape(ts, pos, TCodeView::KW_PRINT, TreeCodeView::PRINT);
    lemma_simple_statement_shape(ts, pos);
    match tok(ts, pos) {
        TCodeView::KW_IF => {
            lemma_if_shape(ts, pos);
        },
        TCodeView::KW_WHILE => {
            lemma_while_shape(ts, pos);
        },
        TCodeView::BRACKET_L => {
            lemma_block_shape(ts, pos);
        },
        TCodeView::SEMICOLON => {
            assert(is_statement(Ast::leaf(TreeCodeView::STATEMENT)));
        },
        _ => {},
    }
    match statement(ts, pos) {
        Parsed::Done { value, used } => {
            if !(tok(ts, pos) is SEMICOLON) {
                assert(value.children.len() == 1);
                assert(is_construct(value.children[0]));
            }
        },
        Parsed::Failed(_) => {},
    }
}

/// What parses as an `if` is an `if` over a condition and one or two blocks.
pub proof fn lemma_if_shape(ts: Seq<TCodeView>, pos: int)
    ensures
        if_statement(ts, pos) matches Parsed::Done { value, .. } ==> is_construct(value),
    decreases left(ts, pos), 1int,
{
    if tok(ts, pos) is KW_IF {
        lemma_expression_shape(ts, pos + 1);
        match expression(ts, pos + 1) {
            Parsed::Done { value: condition, used: c } => {
                lemma_block_shape(ts, pos + 1 + c);
                match block(ts, pos + 1 + c) {
                    Parsed::Done { value: then_block, used: t } => {
                        if tok(ts, pos + 1 + c + t) is KW_ELSE {
                            lemma_block_shape(ts, pos + 2 + c + t);
                        }
                    },
                    Parsed::Failed(_) => {},
                }
            },
            Parsed::Failed(_) => {},
        }
    }
}

/// What parses as a `while` is a `while` over a condition and a block.
pub proof fn lemma_while_shape(ts: Seq<TCodeView>, pos: int)
    ensures
        while_statement(ts, pos) matches Parsed::Done { value, .. } ==> is_construct(value),
    decreases left(ts, pos), 1int,
{
    if tok(ts, pos) is KW_WHILE {
        lemma_expression_shape(ts, pos + 1);
        match expression(ts, pos + 1) {
            Parsed::Done { value: condition, used: c } => {
                lemma_block_shape(ts, pos + 1 + c);
            },
            Parsed::Failed(_) => {},
        }
    }
}

/// What a parameter list grows to by its parameters holds parameters alone.
pub proof fn lemma_parameter_items_shape(ts: Seq<TCodeView>, start: int, pos: int, so_far: Ast)
    requires
        so_far.code is PARAM_LIST,
        forall|i: int| 0 <= i < so_far.children.len() ==> is_parameter(#[trigger] so_far.children[i]),
    ensures
        parameter_items(ts, start, pos, so_far) matches Parsed::Done { value, .. } ==> {
            &&& value.code is PARAM_LIST
            &&& forall|i: int|
                0 <= i < value.children.len() ==> is_parameter(#[trigger] value.children[i])
        },
    decreases left(ts, pos),
{
    match parameter(ts, pos) {
        Parsed::Done { value, used } => {
            assert(is_parameter(value));
            let more = so_far.with_child(value);
            assert forall|i: int| 0 <= i < more.children.len() implies is_parameter(
                #[trigger] more.children[i],
            ) by {
                if i < so_far.children.len() {
                    assert(more.children[i] == so_far.children[i]);
                }
            }
            if tok(ts, pos + 1) is COMMA {
                lemma_parameter_items_shape(ts, start, pos + 2, more);
            }
        },
        Parsed::Failed(_) => {},
    }
}

/// What parses as a function is a function tree.
pub proof fn lemma_function_shape(ts: Seq<TCodeView>, pos: int)
    ensures
        function(ts, pos) matches Parsed::Done { value, .. } ==> is_function(value),
{
    let empty = Ast::leaf(TreeCodeView::PARAM_LIST);
    if !(tok(ts, pos + 3) is PAREN_R) {
        lemma_parameter_items_shape(ts, pos + 3, pos + 3, empty);
    }
    match parameter_list(ts, pos + 3) {
        Parsed::Done { value: params, used: p } => {
            lemma_block_shape(ts, pos + 4 + p);
        },
        Parsed::Failed(_) => {},
    }
}

/// What a program grows to by its functions is a program tree.
pub proof fn lemma_program_items_shape(ts: Seq<TCodeView>, start: int, pos: int, so_far: Ast)
    requires
        is_program(so_far),
    ensures
        program_items(ts, start, pos, so_far) matches Parsed::Done { value, .. } ==> is_program(
            value,
        ),
    decreases left(ts, pos),
{
    if tok(ts, pos) is KW_FUNC {
        lemma_function_shape(ts, pos);
        match function(ts, pos) {
            Parsed::Done { value, used } => {
                if advances(ts, pos, used) {
                    let more = so_far.with_child(value);
                    assert forall|i: int| 0 <= i < more.children.len() implies is_function(
                        #[trigger] more.children[i],
                    ) by {
                        if i < so_far.children.len() {
                            assert(more.children[i] == so_far.children[i]);
                        }
                    }
                    lemma_program_items_shape(ts, start, pos + used, more);
                }
            },
            Parsed::Failed(_) => {},
        }
    }
}

/// What parses as a program is a program tree.
pub proof fn lemma_program_shape(ts: Seq<TCodeView>, pos: int)
    ensures
        program(ts, pos) matches Parsed::Done { value, .. } ==> is_program(value),
{
    lemma_program_items_shape(ts, pos, pos, Ast::leaf(TreeCodeView::PROGRAM));
}

} // verus!
