//! The parser and the evaluator agree on the shape of trees: a program that the parser
//! has built never fails as malformed.
use crate::analyzer::binder_name;
use crate::evaluator::{
    bind, block_of, collect, collect_list, eval_args, eval_expr, find_function, is_true,
    parameters, run_branch, run_function, run_program, run_stmt, run_stmts, run_while,
    CallOutcome, Outcome, RuntimeErrorView, Scope, Value, World,
};
use crate::mtree::Ast;
use crate::shape::{
    are_expressions, are_statements, is_block, is_construct, is_expression, is_function,
    is_parameter, is_program, is_statement, lemma_expressions_each, lemma_statements_each,
    name_of,
};
use crate::tokens::TreeCodeView;
use vstd::prelude::*;

verus! {

/// The step did not fail for the shape of the tree.
pub open spec fn well_shaped<T>(o: Outcome<T>) -> bool {
    !(o.result matches Err(RuntimeErrorView::Malformed))
}

/// Each entry of the table has the shape of a function.
pub open spec fn all_functions(funcs: Seq<Ast>) -> bool {
    forall|i: int| 0 <= i < funcs.len() ==> is_function(#[trigger] funcs[i])
}

/// Of a list whose first `upto` nodes hold no function definition, those nodes add
/// nothing to the table.
pub proof fn lemma_collect_prefix(list: Seq<Ast>, upto: int, table: Seq<Ast>)
    requires
        0 <= upto <= list.len(),
        forall|k: int| 0 <= k < upto ==> collect(#[trigger] list[k], table) == table,
    ensures
        collect_list(list.take(upto), table) == table,
    decreases upto,
{
    if upto > 0 {
        lemma_collect_prefix(list, upto - 1, table);
        assert(list.take(upto).drop_last() =~= list.take(upto - 1));
        assert(list.take(upto).last() == list[upto - 1]);
    }
}

/// A node that is no function and whose children hold no function definition holds
/// none.
pub proof fn lemma_collect_node(node: Ast, table: Seq<Ast>)
    requires
        !(node.code is FUNCTION),
        forall|k: int|
            0 <= k < node.children.len() ==> collect(#[trigger] node.children[k], table) == table,
    ensures
        collect(node, table) == table,
{
    lemma_collect_prefix(node.children, node.children.len() as int, table);
    assert(node.children.take(node.children.len() as int) =~= node.children);
}

/// An expression holds no function definition.
pub proof fn lemma_collect_expression(e: Ast, table: Seq<Ast>)
    requires
        is_expression(e),
    ensures
        collect(e, table) == table,
    decreases e, 1int,
{
    match e.code {
        TreeCodeView::FUNCTION_CALL(name) => {
            lemma_expressions_each(e.children, 1);
            assert forall|k: int| 0 <= k < e.children.len() implies collect(
                #[trigger] e.children[k],
                table,
            ) == table by {
                if k == 0 {
                    lemma_collect_node(e.children[0], table);
                } else {
                    lemma_collect_expression(e.children[k], table);
                }
            }
        },
        TreeCodeView::OPERATOR(_) => {
            assert forall|k: int| 0 <= k < e.children.len() implies collect(
                #[trigger] e.children[k],
                table,
            ) == table by {
                lemma_collect_expression(e.children[k], table);
            }
        },
        _ => {},
    }
    lemma_collect_node(e, table);
}

/// A block holds no function definition.
pub proof fn lemma_collect_block(b: Ast, table: Seq<Ast>)
    requires
        is_block(b),
    ensures
        collect(b, table) == table,
    decreases b, 0int,
{
    lemma_statements_each(b.children, 0);
    assert forall|k: int| 0 <= k < b.children.len() implies collect(
        #[trigger] b.children[k],
        table,
    ) == table by {
        lemma_collect_statement(b.children[k], table);
    }
    lemma_collect_node(b, table);
}

/// A statement holds no function definition.
pub proof fn lemma_collect_statement(s: Ast, table: Seq<Ast>)
    requires
        is_statement(s),
    ensures
        collect(s, table) == table,
    decreases s, 2int,
{
    assert forall|k: int| 0 <= k < s.children.len() implies collect(
        #[trigger] s.children[k],
        table,
    ) == table by {
        lemma_collect_construct(s.children[k], table);
    }
    lemma_collect_node(s, table);
}

/// What a statement node holds holds no function definition.
pub proof fn lemma_collect_construct(c: Ast, table: Seq<Ast>)
    requires
        is_construct(c),
    ensures
        collect(c, table) == table,
    decreases c, 1int,
{
    match c.code {
        TreeCodeView::RETURN => {
            lemma_collect_expression(c.children[0], table);
            lemma_collect_node(c, table);
        },
        TreeCodeView::PRINT => {
            lemma_collect_expression(c.children[0], table);
            lemma_collect_node(c, table);
        },
        TreeCodeView::LET => {
            lemma_collect_node(c.children[0], table);
            if c.children.len() == 2 {
                lemma_collect_expression(c.children[1], table);
            }
            lemma_collect_node(c, table);
        },
        TreeCodeView::ASSIGN => {
            lemma_collect_node(c.children[0], table);
            lemma_collect_expression(c.children[1], table);
            lemma_collect_node(c, table);
        },
        TreeCodeView::IF => {
            lemma_collect_expression(c.children[0], table);
            lemma_collect_block(c.children[1], table);
            if c.children.len() == 3 {
                lemma_collect_block(c.children[2], table);
            }
            lemma_collect_node(c, table);
        },
        TreeCodeView::WHILE => {
            lemma_collect_expression(c.children[0], table);
            lemma_collect_block(c.children[1], table);
            lemma_collect_node(c, table);
        },
        TreeCodeView::BLOCK => {
            lemma_collect_block(c, table);
        },
        _ => {
            lemma_collect_expression(c, table);
        },
    }
}

/// A function adds itself to the table, and nothing else.
pub proof fn lemma_collect_function(f: Ast, table: Seq<Ast>)
    requires
        is_function(f),
    ensures
        collect(f, table) == table.push(f),
{
    let more = table.push(f);
    let name = f.children[0];
    let params = f.children[1];
    let body = f.children[2];
    lemma_collect_node(name, more);
    assert forall|k: int| 0 <= k < params.children.len() implies collect(
        #[trigger] params.children[k],
        more,
    ) == more by {
        let p = params.children[k];
        assert(is_parameter(p));
        lemma_collect_node(p.children[0], more);
        lemma_collect_node(p, more);
    }
    lemma_collect_node(params, more);
    lemma_collect_block(body, more);
    assert forall|k: int| 0 <= k < 3 implies collect(#[trigger] f.children[k], more) == more by {}
    lemma_collect_prefix(f.children, 3, more);
    assert(f.children.take(3) =~= f.children);
}

/// The functions `list[..upto]` of a program are added to the table, which then holds
/// functions alone.
pub proof fn lemma_collect_functions(list: Seq<Ast>, upto: int, table: Seq<Ast>)
    requires
        0 <= upto <= list.len(),
        forall|i: int| 0 <= i < list.len() ==> is_function(#[trigger] list[i]),
        all_functions(table),
    ensures
        all_functions(collect_list(list.take(upto), table)),
    decreases upto,
{
    if upto > 0 {
        lemma_collect_functions(list, upto - 1, table);
        assert(list.take(upto).drop_last() =~= list.take(upto - 1));
        assert(list.take(upto).last() == list[upto - 1]);
        lemma_collect_function(list[upto - 1], collect_list(list.take(upto - 1), table));
    }
}

/// The table of a program holds functions alone.
pub proof fn lemma_collect_program(p: Ast, table: Seq<Ast>)
    requires
        is_program(p),
        all_functions(table),
    ensures
        all_functions(collect(p, table)),
{
    lemma_collect_functions(p.children, p.children.len() as int, table);
    assert(p.children.take(p.children.len() as int) =~= p.children);
}

/// The evaluation of an expression tree does not fail for its shape.
pub proof fn lemma_eval_expr_shaped(funcs: Seq<Ast>, e: Ast, w: World, fuel: nat)
    requires
        all_functions(funcs),
        is_expression(e),
    ensures
        well_shaped(eval_expr(funcs, e, w, fuel)),
    decreases fuel, e, 0int,
{
    match e.code {
        TreeCodeView::OPERATOR(op) => {
            if e.children.len() == 1 {
                lemma_eval_expr_shaped(funcs, e.children[0], w, fuel);
            } else {
                let a = eval_expr(funcs, e.children[0], w, fuel);
                lemma_eval_expr_shaped(funcs, e.children[0], w, fuel);
                lemma_eval_expr_shaped(funcs, e.children[1], a.world, fuel);
            }
        },
        TreeCodeView::FUNCTION_CALL(_) => {
            match e.children[0].code {
                TreeCodeView::IDENTIFIER(name) => {
                    let a = eval_args(funcs, e.children, 1, Seq::empty(), w, fuel);
                    lemma_eval_args_shaped(funcs, e.children, 1, Seq::empty(), w, fuel);
                    match a.result {
                        Ok(args) => match find_function(funcs, name) {
                            Some(i) => {
                                lemma_find_function_in(funcs, name);
                                if fuel > 0 {
                                    lemma_run_function_shaped(
                                        funcs,
                                        funcs[i],
                                        args,
                                        a.world.with_scope(Scope::fresh(Some(a.world.scope))),
                                        (fuel - 1) as nat,
                                    );
                                }
                            },
                            None => {},
                        },
                        Err(_) => {},
                    }
                },
                _ => {},
            }
        },
        _ => {},
    }
}

/// A function that is found is one of the table.
pub proof fn lemma_find_function_in(funcs: Seq<Ast>, name: Seq<char>)
    ensures
        find_function(funcs, name) matches Some(i) ==> 0 <= i < funcs.len() && binder_name(
            funcs[i],
            TreeCodeView::FUNCTION,
        ) == Some(name),
    decreases funcs.len(),
{
    if funcs.len() > 0 && binder_name(funcs.last(), TreeCodeView::FUNCTION) != Some(name) {
        lemma_find_function_in(funcs.drop_last(), name);
    }
}

/// The evaluation of a list of expression trees does not fail for their shape.
pub proof fn lemma_eval_args_shaped(
    funcs: Seq<Ast>,
    args: Seq<Ast>,
    i: int,
    acc: Seq<Value>,
    w: World,
    fuel: nat,
)
    requires
        all_functions(funcs),
        0 <= i,
        are_expressions(args, i),
    ensures
        well_shaped(eval_args(funcs, args, i, acc, w, fuel)),
    decreases fuel, args, args.len() - i,
{
    if i < args.len() {
        let a = eval_expr(funcs, args[i], w, fuel);
        lemma_eval_expr_shaped(funcs, args[i], w, fuel);
        match a.result {
            Ok(v) => {
                lemma_eval_args_shaped(funcs, args, i + 1, acc.push(v), a.world, fuel);
            },
            Err(_) => {},
        }
    }
}

/// The run of a function tree does not fail for its shape.
pub proof fn lemma_run_function_shaped(
    funcs: Seq<Ast>,
    f: Ast,
    args: Seq<Value>,
    w: World,
    fuel: nat,
)
    requires
        all_functions(funcs),
        is_function(f),
    ensures
        well_shaped(run_function(funcs, f, args, w, fuel)),
    decreases fuel, f, 0int,
{
    if parameters(f).len() == args.len() {
        lemma_run_stmts_shaped(
            funcs,
            f.children[2].children,
            0,
            w.with_scope(bind(parameters(f), args, w.scope)),
            fuel,
        );
    }
}

/// The run of a list of statement trees does not fail for their shape.
pub proof fn lemma_run_stmts_shaped(funcs: Seq<Ast>, stmts: Seq<Ast>, i: int, w: World, fuel: nat)
    requires
        all_functions(funcs),
        0 <= i,
        are_statements(stmts, i),
    ensures
        well_shaped(run_stmts(funcs, stmts, i, w, fuel)),
    decreases fuel, stmts, stmts.len() - i,
{
    if i < stmts.len() {
        let r = run_stmt(funcs, stmts[i], w, fuel);
        lemma_run_stmt_shaped(funcs, stmts[i], w, fuel);
        match r.result {
            Ok(None) => {
                lemma_run_stmts_shaped(funcs, stmts, i + 1, r.world, fuel);
            },
            _ => {},
        }
    }
}

/// The run of a block tree as a branch does not fail for its shape.
pub proof fn lemma_run_branch_shaped(funcs: Seq<Ast>, b: Ast, w: World, fuel: nat)
    requires
        all_functions(funcs),
        is_block(b),
    ensures
        well_shaped(run_branch(funcs, b, w, fuel)),
    decreases fuel, b, 0int,
{
    assert(block_of(b) == Some(b));
    lemma_run_stmts_shaped(funcs, b.children, 0, w, fuel);
}

/// The run of a statement tree, or of what a statement node holds, does not fail for its
/// shape.
pub proof fn lemma_run_stmt_shaped(funcs: Seq<Ast>, s: Ast, w: World, fuel: nat)
    requires
        all_functions(funcs),
        is_statement(s) || is_construct(s),
    ensures
        well_shaped(run_stmt(funcs, s, w, fuel)),
    decreases fuel, s, 1int,
{
    match s.code {
        TreeCodeView::STATEMENT => {
            if s.children.len() > 0 {
                lemma_run_stmt_shaped(funcs, s.children[0], w, fuel);
            }
        },
        TreeCodeView::BLOCK => {
            lemma_run_stmts_shaped(funcs, s.children, 0, w, fuel);
        },
        TreeCodeView::ASSIGN => {
            lemma_eval_expr_shaped(funcs, s.children[1], w, fuel);
        },
        TreeCodeView::PRINT => {
            lemma_eval_expr_shaped(funcs, s.children[0], w, fuel);
        },
        TreeCodeView::RETURN => {
            lemma_eval_expr_shaped(funcs, s.children[0], w, fuel);
        },
        TreeCodeView::IF => {
            let a = eval_expr(funcs, s.children[0], w, fuel);
            lemma_eval_expr_shaped(funcs, s.children[0], w, fuel);
            match a.result {
                Ok(v) => {
                    if is_true(v) {
                        lemma_run_branch_shaped(funcs, s.children[1], a.world, fuel);
                    } else if s.children.len() > 2 {
                        lemma_run_branch_shaped(funcs, s.children[2], a.world, fuel);
                    }
                },
                Err(_) => {},
            }
        },
        TreeCodeView::WHILE => {
            lemma_run_while_shaped(funcs, s, w, fuel);
        },
        _ => {},
    }
}

/// The run of a loop tree does not fail for its shape.
pub proof fn lemma_run_while_shaped(funcs: Seq<Ast>, s: Ast, w: World, fuel: nat)
    requires
        all_functions(funcs),
        s.code is WHILE,
        is_construct(s),
    ensures
        well_shaped(run_while(funcs, s, w, fuel)),
    decreases fuel, s, 0int,
{
    let a = eval_expr(funcs, s.children[0], w, fuel);
    lemma_eval_expr_shaped(funcs, s.children[0], w, fuel);
    match a.result {
        Ok(Value::INT(i)) => {
            if i != 0 {
                let body = s.children[1];
                let r = run_branch(funcs, body, a.world, fuel);
                lemma_run_branch_shaped(funcs, body, a.world, fuel);
                match r.result {
                    Ok(None) => {
                        if fuel > 0 {
                            lemma_run_while_shaped(funcs, s, r.world, (fuel - 1) as nat);
                        }
                    },
                    _ => {},
                }
            }
        },
        _ => {},
    }
}

/// A program of the shape that the parser builds never fails as malformed, whatever its
/// budget.
pub proof fn lemma_program_never_malformed(
    program: Ast,
    table: Seq<Ast>,
    output: Seq<Value>,
    fuel: nat,
)
    requires
        is_program(program),
        all_functions(table),
    ensures
        !(run_program(program, table, output, fuel).result matches Err(
            RuntimeErrorView::Malformed,
        )),
{
    let funcs = collect(program, table);
    lemma_collect_program(program, table);
    match find_function(funcs, "main"@) {
        Some(i) => {
            lemma_find_function_in(funcs, "main"@);
            lemma_run_function_shaped(
                funcs,
                funcs[i],
                Seq::empty(),
                World { scope: Scope::fresh(None), output },
                fuel,
            );
        },
        None => {},
    }
}

/// The functions `list[..upto]` of a program are added to the table in their order, and
/// nothing else is.
pub proof fn lemma_collect_in_order(list: Seq<Ast>, upto: int, table: Seq<Ast>)
    requires
        0 <= upto <= list.len(),
        forall|i: int| 0 <= i < list.len() ==> is_function(#[trigger] list[i]),
    ensures
        collect_list(list.take(upto), table) == table + list.take(upto),
    decreases upto,
{
    if upto > 0 {
        lemma_collect_in_order(list, upto - 1, table);
        assert(list.take(upto).drop_last() =~= list.take(upto - 1));
        assert(list.take(upto).last() == list[upto - 1]);
        lemma_collect_function(list[upto - 1], table + list.take(upto - 1));
        assert((table + list.take(upto - 1)).push(list[upto - 1]) =~= table + list.take(upto));
    } else {
        assert(table + list.take(0) =~= table);
    }
}

/// The table of a program of the shape that the parser builds holds its functions, in the
/// order of the source, behind what it held before.
pub proof fn lemma_table_of_program(program: Ast, table: Seq<Ast>)
    requires
        is_program(program),
    ensures
        collect(program, table) == table + program.children,
{
    lemma_collect_in_order(program.children, program.children.len() as int, table);
    assert(program.children.take(program.children.len() as int) =~= program.children);
}

/// A table none of whose functions has the name holds no function to call by it.
pub proof fn lemma_find_function_none(funcs: Seq<Ast>, name: Seq<char>)
    requires
        forall|i: int|
            0 <= i < funcs.len() ==> binder_name(#[trigger] funcs[i], TreeCodeView::FUNCTION)
                != Some(name),
    ensures
        find_function(funcs, name) is None,
    decreases funcs.len(),
{
    if funcs.len() > 0 {
        assert(binder_name(funcs[funcs.len() - 1], TreeCodeView::FUNCTION) != Some(name));
        assert forall|i: int| 0 <= i < funcs.drop_last().len() implies binder_name(
            #[trigger] funcs.drop_last()[i],
            TreeCodeView::FUNCTION,
        ) != Some(name) by {
            assert(funcs.drop_last()[i] == funcs[i]);
        }
        lemma_find_function_none(funcs.drop_last(), name);
    }
}

/// Missing `main`: a program without functions, or with functions of other names alone,
/// fails with the error of the missing `main` and prints nothing.
pub proof fn lemma_missing_main(program: Ast, output: Seq<Value>, fuel: nat)
    requires
        is_program(program),
        forall|i: int|
            0 <= i < program.children.len() ==> name_of(
                (#[trigger] program.children[i]).children[0],
            ) != "main"@,
    ensures
        run_program(program, Seq::empty(), output, fuel) == (CallOutcome {
            parent: None,
            output,
            result: Err(RuntimeErrorView::NoMain),
        }),
{
    lemma_table_of_program(program, Seq::empty());
    assert(Seq::<Ast>::empty() + program.children =~= program.children);
    assert forall|i: int| 0 <= i < program.children.len() implies binder_name(
        #[trigger] program.children[i],
        TreeCodeView::FUNCTION,
    ) != Some("main"@) by {
        assert(is_function(program.children[i]));
    }
    lemma_find_function_none(program.children, "main"@);
}

} // verus!
