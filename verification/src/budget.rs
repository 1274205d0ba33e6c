//! The budget of a run bounds it and does nothing else: a run that ends without having
//! spent its budget ends in the same way with any larger one.
use crate::evaluator::{
    block_of, eval_args, eval_expr, find_function, lemma_block_of_within,
    run_branch, run_function, run_program, run_stmt, run_stmts, run_while, is_true, parameters,
    collect, Outcome, RuntimeErrorView, Scope, Value, World,
};
use crate::mtree::Ast;
use crate::tokens::TreeCodeView;
use vstd::prelude::*;

verus! {

/// The step did not end for want of budget.
pub open spec fn within_budget<T>(o: Outcome<T>) -> bool {
    !(o.result matches Err(RuntimeErrorView::StepLimit))
}

/// An expression that is evaluated within its budget has the same value and effect with a
/// larger one.
pub proof fn lemma_eval_expr_budget(funcs: Seq<Ast>, e: Ast, w: World, fuel: nat, more: nat)
    requires
        fuel <= more,
        within_budget(eval_expr(funcs, e, w, fuel)),
    ensures
        eval_expr(funcs, e, w, more) == eval_expr(funcs, e, w, fuel),
    decreases fuel, e, 0int,
{
    match e.code {
        TreeCodeView::OPERATOR(op) => {
            if e.children.len() == 1 {
                lemma_eval_expr_budget(funcs, e.children[0], w, fuel, more);
            } else if e.children.len() == 2 {
                let a = eval_expr(funcs, e.children[0], w, fuel);
                lemma_eval_expr_budget(funcs, e.children[0], w, fuel, more);
                if a.result is Ok {
                    lemma_eval_expr_budget(funcs, e.children[1], a.world, fuel, more);
                }
            }
        },
        TreeCodeView::FUNCTION_CALL(_) => {
            if e.children.len() > 0 {
                match e.children[0].code {
                    TreeCodeView::IDENTIFIER(name) => {
                        let a = eval_args(funcs, e.children, 1, Seq::empty(), w, fuel);
                        lemma_eval_args_budget(funcs, e.children, 1, Seq::empty(), w, fuel, more);
                        match a.result {
                            Ok(args) => match find_function(funcs, name) {
                                Some(i) => {
                                    lemma_run_function_budget(
                                        funcs,
                                        funcs[i],
                                        args,
                                        a.world.with_scope(Scope::fresh(Some(a.world.scope))),
                                        (fuel - 1) as nat,
                                        (more - 1) as nat,
                                    );
                                },
                                None => {},
                            },
                            Err(_) => {},
                        }
                    },
                    _ => {},
                }
            }
        },
        _ => {},
    }
}

/// Arguments that are evaluated within their budget have the same values and effect with
/// a larger one.
pub proof fn lemma_eval_args_budget(
    funcs: Seq<Ast>,
    args: Seq<Ast>,
    i: int,
    acc: Seq<Value>,
    w: World,
    fuel: nat,
    more: nat,
)
    requires
        fuel <= more,
        within_budget(eval_args(funcs, args, i, acc, w, fuel)),
    ensures
        eval_args(funcs, args, i, acc, w, more) == eval_args(funcs, args, i, acc, w, fuel),
    decreases fuel, args, args.len() - i,
{
    if 0 <= i < args.len() {
        let a = eval_expr(funcs, args[i], w, fuel);
        lemma_eval_expr_budget(funcs, args[i], w, fuel, more);
        match a.result {
            Ok(v) => {
                lemma_eval_args_budget(funcs, args, i + 1, acc.push(v), a.world, fuel, more);
            },
            Err(_) => {},
        }
    }
}

/// A function that runs within its budget runs in the same way with a larger one.
pub proof fn lemma_run_function_budget(
    funcs: Seq<Ast>,
    f: Ast,
    args: Seq<Value>,
    w: World,
    fuel: nat,
    more: nat,
)
    requires
        fuel <= more,
        within_budget(run_function(funcs, f, args, w, fuel)),
    ensures
        run_function(funcs, f, args, w, more) == run_function(funcs, f, args, w, fuel),
    decreases fuel, f, 0int,
{
    if parameters(f).len() == args.len() && f.children.len() > 2 {
        lemma_run_stmts_budget(
            funcs,
            f.children[2].children,
            0,
            w.with_scope(crate::evaluator::bind(parameters(f), args, w.scope)),
            fuel,
            more,
        );
    }
}

/// Statements that run within their budget run in the same way with a larger one.
pub proof fn lemma_run_stmts_budget(
    funcs: Seq<Ast>,
    stmts: Seq<Ast>,
    i: int,
    w: World,
    fuel: nat,
    more: nat,
)
    requires
        fuel <= more,
        within_budget(run_stmts(funcs, stmts, i, w, fuel)),
    ensures
        run_stmts(funcs, stmts, i, w, more) == run_stmts(funcs, stmts, i, w, fuel),
    decreases fuel, stmts, stmts.len() - i,
{
    if 0 <= i < stmts.len() {
        let r = run_stmt(funcs, stmts[i], w, fuel);
        lemma_run_stmt_budget(funcs, stmts[i], w, fuel, more);
        match r.result {
            Ok(None) => {
                lemma_run_stmts_budget(funcs, stmts, i + 1, r.world, fuel, more);
            },
            _ => {},
        }
    }
}

/// A branch that runs within its budget runs in the same way with a larger one.
pub proof fn lemma_run_branch_budget(funcs: Seq<Ast>, branch: Ast, w: World, fuel: nat, more: nat)
    requires
        fuel <= more,
        within_budget(run_branch(funcs, branch, w, fuel)),
    ensures
        run_branch(funcs, branch, w, more) == run_branch(funcs, branch, w, fuel),
    decreases fuel, branch, 0int,
{
    match block_of(branch) {
        Some(block) => {
            lemma_block_of_within(branch);
            lemma_run_stmts_budget(funcs, block.children, 0, w, fuel, more);
        },
        None => {},
    }
}

/// A statement that runs within its budget runs in the same way with a larger one.
pub proof fn lemma_run_stmt_budget(funcs: Seq<Ast>, s: Ast, w: World, fuel: nat, more: nat)
    requires
        fuel <= more,
        within_budget(run_stmt(funcs, s, w, fuel)),
    ensures
        run_stmt(funcs, s, w, more) == run_stmt(funcs, s, w, fuel),
    decreases fuel, s, 1int,
{
    match s.code {
        TreeCodeView::STATEMENT => {
            if s.children.len() > 0 {
                lemma_run_stmt_budget(funcs, s.children[0], w, fuel, more);
            }
        },
        TreeCodeView::BLOCK => {
            lemma_run_stmts_budget(funcs, s.children, 0, w, fuel, more);
        },
        TreeCodeView::ASSIGN => {
            if s.children.len() >= 2 {
                lemma_eval_expr_budget(funcs, s.children[1], w, fuel, more);
            }
        },
        TreeCodeView::PRINT => {
            if s.children.len() >= 1 {
                lemma_eval_expr_budget(funcs, s.children[0], w, fuel, more);
            }
        },
        TreeCodeView::RETURN => {
            if s.children.len() >= 1 {
                lemma_eval_expr_budget(funcs, s.children[0], w, fuel, more);
            }
        },
        TreeCodeView::IF => {
            if s.children.len() >= 1 {
                let a = eval_expr(funcs, s.children[0], w, fuel);
                lemma_eval_expr_budget(funcs, s.children[0], w, fuel, more);
                match a.result {
                    Ok(v) => {
                        if is_true(v) {
                            if s.children.len() > 1 {
                                lemma_run_branch_budget(funcs, s.children[1], a.world, fuel, more);
                            }
                        } else {
                            if s.children.len() > 2 {
                                lemma_run_branch_budget(funcs, s.children[2], a.world, fuel, more);
                            }
                        }
                    },
                    Err(_) => {},
                }
            }
        },
        TreeCodeView::WHILE => {
            lemma_run_while_budget(funcs, s, w, fuel, more);
        },
        _ => {},
    }
}

/// A loop that runs within its budget runs in the same way with a larger one.
pub proof fn lemma_run_while_budget(funcs: Seq<Ast>, s: Ast, w: World, fuel: nat, more: nat)
    requires
        fuel <= more,
        within_budget(run_while(funcs, s, w, fuel)),
    ensures
        run_while(funcs, s, w, more) == run_while(funcs, s, w, fuel),
    decreases fuel, s, 0int,
{
    if s.children.len() >= 2 {
        let a = eval_expr(funcs, s.children[0], w, fuel);
        lemma_eval_expr_budget(funcs, s.children[0], w, fuel, more);
        match a.result {
            Ok(Value::INT(i)) => {
                if i != 0 {
                    let body = s.children[1];
                    let r = if body.code is BLOCK || body.code is STATEMENT {
                        run_branch(funcs, body, a.world, fuel)
                    } else {
                        run_stmt(funcs, body, a.world, fuel)
                    };
                    if body.code is BLOCK || body.code is STATEMENT {
                        lemma_run_branch_budget(funcs, body, a.world, fuel, more);
                    } else {
                        lemma_run_stmt_budget(funcs, body, a.world, fuel, more);
                    }
                    match r.result {
                        Ok(None) => {
                            lemma_run_while_budget(
                                funcs,
                                s,
                                r.world,
                                (fuel - 1) as nat,
                                (more - 1) as nat,
                            );
                        },
                        _ => {},
                    }
                }
            },
            _ => {},
        }
    }
}

/// A program that runs within its budget prints the same values and ends in the same way
/// with any larger budget.
pub proof fn lemma_run_program_budget(
    program: Ast,
    table: Seq<Ast>,
    output: Seq<Value>,
    fuel: nat,
    more: nat,
)
    requires
        fuel <= more,
        !(run_program(program, table, output, fuel).result matches Err(
            RuntimeErrorView::StepLimit,
        )),
    ensures
        run_program(program, table, output, more) == run_program(program, table, output, fuel),
{
    let funcs = collect(program, table);
    match find_function(funcs, "main"@) {
        Some(i) => {
            lemma_run_function_budget(
                funcs,
                funcs[i],
                Seq::empty(),
                World { scope: Scope::fresh(None), output },
                fuel,
                more,
            );
        },
        None => {},
    }
}

} // verus!
