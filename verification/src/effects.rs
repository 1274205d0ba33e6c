//! What a run does to its surroundings: what has been printed stays printed, and every
//! frame that a call enters is left again.
use crate::analyzer::binder_name;
use crate::evaluator::{
    bind, block_of, call_function, eval_args, eval_expr, find_function, is_true,
    lemma_block_of_within, parameters, run_branch, run_function, run_program, run_stmt,
    run_stmts, run_while, collect, Outcome, Scope, Value, World,
};
use crate::mtree::Ast;
use crate::tokens::TreeCodeView;
use vstd::prelude::*;

verus! {

/// The number of frames of a chain.
pub open spec fn depth(s: Scope) -> nat
    decreases s,
{
    match s.parent {
        Some(p) => depth(*p) + 1,
        None => 1,
    }
}

/// A chain has at least one frame.
pub proof fn lemma_depth_positive(s: Scope)
    ensures
        depth(s) >= 1,
{
}

/// A chain of one frame is a frame without a parent.
pub proof fn lemma_single_frame(s: Scope)
    ensures
        depth(s) == 1 <==> s.parent is None,
{
    match s.parent {
        Some(p) => {
            lemma_depth_positive(*p);
        },
        None => {},
    }
}

/// The state `after` has the frames of `before`, one for one, and the output of `before`
/// with what was printed since behind it.
pub open spec fn follows(before: World, after: World) -> bool {
    &&& depth(after.scope) == depth(before.scope)
    &&& before.output.is_prefix_of(after.output)
}

/// An assignment changes the number of frames no more than a declaration does.
pub proof fn lemma_set_keeps_depth(s: Scope, name: Seq<char>, v: Value)
    ensures
        s.set(name, v) matches Some(t) ==> depth(t) == depth(s),
        depth(s.declare(name, v)) == depth(s),
    decreases s,
{
    if !s.vars.dom().contains(name) {
        match s.parent {
            Some(p) => {
                lemma_set_keeps_depth(*p, name, v);
            },
            None => {},
        }
    }
}

/// Binding parameters changes the number of frames not.
pub proof fn lemma_bind_keeps_depth(params: Seq<Ast>, args: Seq<Value>, scope: Scope)
    ensures
        depth(bind(params, args, scope)) == depth(scope),
    decreases params.len(),
{
    if params.len() > 0 {
        lemma_bind_keeps_depth(params.drop_last(), args, scope);
        let before = bind(params.drop_last(), args, scope);
        match binder_name(params.last(), TreeCodeView::PARAMETER) {
            Some(name) => {
                lemma_set_keeps_depth(before, name, args[params.len() - 1]);
            },
            None => {},
        }
    }
}

/// The evaluation of an expression leaves the frames and the output in place.
pub proof fn lemma_eval_expr_follows(funcs: Seq<Ast>, e: Ast, w: World, fuel: nat)
    ensures
        follows(w, eval_expr(funcs, e, w, fuel).world),
    decreases fuel, e, 0int,
{
    match e.code {
        TreeCodeView::OPERATOR(op) => {
            if e.children.len() == 1 {
                lemma_eval_expr_follows(funcs, e.children[0], w, fuel);
            } else if e.children.len() == 2 {
                let a = eval_expr(funcs, e.children[0], w, fuel);
                lemma_eval_expr_follows(funcs, e.children[0], w, fuel);
                if a.result is Ok {
                    lemma_eval_expr_follows(funcs, e.children[1], a.world, fuel);
                }
            }
        },
        TreeCodeView::FUNCTION_CALL(_) => {
            if e.children.len() > 0 {
                match e.children[0].code {
                    TreeCodeView::IDENTIFIER(name) => {
                        let a = eval_args(funcs, e.children, 1, Seq::empty(), w, fuel);
                        lemma_eval_args_follows(funcs, e.children, 1, Seq::empty(), w, fuel);
                        match a.result {
                            Ok(args) => match find_function(funcs, name) {
                                Some(i) => {
                                    if fuel > 0 {
                                        let entered = a.world.with_scope(
                                            Scope::fresh(Some(a.world.scope)),
                                        );
                                        lemma_run_function_follows(
                                            funcs,
                                            funcs[i],
                                            args,
                                            entered,
                                            (fuel - 1) as nat,
                                        );
                                    }
                                },
                                None => {},
                            },
                            Err(_) => {},
                        }
                    },
                    _ => {},
                }
            }
        },
        _ => {},
    }
}

/// The evaluation of arguments leaves the frames and the output in place.
pub proof fn lemma_eval_args_follows(
    funcs: Seq<Ast>,
    args: Seq<Ast>,
    i: int,
    acc: Seq<Value>,
    w: World,
    fuel: nat,
)
    ensures
        follows(w, eval_args(funcs, args, i, acc, w, fuel).world),
    decreases fuel, args, args.len() - i,
{
    if 0 <= i < args.len() {
        let a = eval_expr(funcs, args[i], w, fuel);
        lemma_eval_expr_follows(funcs, args[i], w, fuel);
        match a.result {
            Ok(v) => {
                lemma_eval_args_follows(funcs, args, i + 1, acc.push(v), a.world, fuel);
            },
            Err(_) => {},
        }
    }
}

/// The run of a function leaves the frames and the output in place.
pub proof fn lemma_run_function_follows(
    funcs: Seq<Ast>,
    f: Ast,
    args: Seq<Value>,
    w: World,
    fuel: nat,
)
    ensures
        follows(w, run_function(funcs, f, args, w, fuel).world),
    decreases fuel, f, 0int,
{
    if parameters(f).len() == args.len() && f.children.len() > 2 {
        lemma_bind_keeps_depth(parameters(f), args, w.scope);
        lemma_run_stmts_follows(
            funcs,
            f.children[2].children,
            0,
            w.with_scope(bind(parameters(f), args, w.scope)),
            fuel,
        );
    }
}

/// The run of statements leaves the frames and the output in place.
pub proof fn lemma_run_stmts_follows(funcs: Seq<Ast>, stmts: Seq<Ast>, i: int, w: World, fuel: nat)
    ensures
        follows(w, run_stmts(funcs, stmts, i, w, fuel).world),
    decreases fuel, stmts, stmts.len() - i,
{
    if 0 <= i < stmts.len() {
        let r = run_stmt(funcs, stmts[i], w, fuel);
        lemma_run_stmt_follows(funcs, stmts[i], w, fuel);
        match r.result {
            Ok(None) => {
                lemma_run_stmts_follows(funcs, stmts, i + 1, r.world, fuel);
            },
            _ => {},
        }
    }
}

/// The run of a branch leaves the frames and the output in place.
pub proof fn lemma_run_branch_follows(funcs: Seq<Ast>, branch: Ast, w: World, fuel: nat)
    ensures
        follows(w, run_branch(funcs, branch, w, fuel).world),
    decreases fuel, branch, 0int,
{
    match block_of(branch) {
        Some(block) => {
            lemma_block_of_within(branch);
            lemma_run_stmts_follows(funcs, block.children, 0, w, fuel);
        },
        None => {},
    }
}

/// The run of a statement leaves the frames and the output in place.
pub proof fn lemma_run_stmt_follows(funcs: Seq<Ast>, s: Ast, w: World, fuel: nat)
    ensures
        follows(w, run_stmt(funcs, s, w, fuel).world),
    decreases fuel, s, 1int,
{
    match s.code {
        TreeCodeView::STATEMENT => {
            if s.children.len() > 0 {
                lemma_run_stmt_follows(funcs, s.children[0], w, fuel);
            }
        },
        TreeCodeView::BLOCK => {
            lemma_run_stmts_follows(funcs, s.children, 0, w, fuel);
        },
        TreeCodeView::LET => {
            if s.children.len() > 0 {
                match s.children[0].code {
                    TreeCodeView::IDENTIFIER(name) => {
                        lemma_set_keeps_depth(w.scope, name, Value::INT(0));
                    },
                    _ => {},
                }
            }
        },
        TreeCodeView::ASSIGN => {
            if s.children.len() >= 2 {
                let a = eval_expr(funcs, s.children[1], w, fuel);
                lemma_eval_expr_follows(funcs, s.children[1], w, fuel);
                match a.result {
                    Ok(v) => match s.children[0].code {
                        TreeCodeView::IDENTIFIER(name) => {
                            lemma_set_keeps_depth(a.world.scope, name, v);
                        },
                        _ => {},
                    },
                    Err(_) => {},
                }
            }
        },
        TreeCodeView::PRINT => {
            if s.children.len() >= 1 {
                lemma_eval_expr_follows(funcs, s.children[0], w, fuel);
            }
        },
        TreeCodeView::RETURN => {
            if s.children.len() >= 1 {
                lemma_eval_expr_follows(funcs, s.children[0], w, fuel);
            }
        },
        TreeCodeView::IF => {
            if s.children.len() >= 1 {
                let a = eval_expr(funcs, s.children[0], w, fuel);
                lemma_eval_expr_follows(funcs, s.children[0], w, fuel);
                match a.result {
                    Ok(v) => {
                        if is_true(v) {
                            if s.children.len() > 1 {
                                lemma_run_branch_follows(funcs, s.children[1], a.world, fuel);
                            }
                        } else {
                            if s.children.len() > 2 {
                                lemma_run_branch_follows(funcs, s.children[2], a.world, fuel);
                            }
                        }
                    },
                    Err(_) => {},
                }
            }
        },
        TreeCodeView::WHILE => {
            lemma_run_while_follows(funcs, s, w, fuel);
        },
        _ => {},
    }
}

/// The run of a loop leaves the frames and the output in place.
pub proof fn lemma_run_while_follows(funcs: Seq<Ast>, s: Ast, w: World, fuel: nat)
    ensures
        follows(w, run_while(funcs, s, w, fuel).world),
    decreases fuel, s, 0int,
{
    if s.children.len() >= 2 {
        let a = eval_expr(funcs, s.children[0], w, fuel);
        lemma_eval_expr_follows(funcs, s.children[0], w, fuel);
        match a.result {
            Ok(Value::INT(i)) => {
                if i != 0 {
                    let body = s.children[1];
                    let r = if body.code is BLOCK || body.code is STATEMENT {
                        run_branch(funcs, body, a.world, fuel)
                    } else {
                        run_stmt(funcs, body, a.world, fuel)
                    };
                    if body.code is BLOCK || body.code is STATEMENT {
                        lemma_run_branch_follows(funcs, body, a.world, fuel);
                    } else {
                        lemma_run_stmt_follows(funcs, body, a.world, fuel);
                    }
                    match r.result {
                        Ok(None) => {
                            if fuel > 0 {
                                lemma_run_while_follows(funcs, s, r.world, (fuel - 1) as nat);
                            }
                        },
                        _ => {},
                    }
                }
            },
            _ => {},
        }
    }
}

/// A call hands back as many frames as it was given, and what was printed before it stays
/// printed.
pub proof fn lemma_call_function_follows(
    funcs: Seq<Ast>,
    f: Ast,
    args: Seq<Value>,
    parent: Option<Scope>,
    output: Seq<Value>,
    fuel: nat,
)
    ensures
        output.is_prefix_of(call_function(funcs, f, args, parent, output, fuel).output),
        call_function(funcs, f, args, parent, output, fuel).parent is Some <==> parent is Some,
        parent matches Some(p) ==> depth(
            call_function(funcs, f, args, parent, output, fuel).parent->0,
        ) == depth(p),
{
    let entered = World { scope: Scope::fresh(parent), output };
    lemma_run_function_follows(funcs, f, args, entered, fuel);
    let left = run_function(funcs, f, args, entered, fuel).world.scope;
    lemma_single_frame(left);
    lemma_single_frame(entered.scope);
}

/// What was printed before a program ran stays printed, whether it ends well or fails.
pub proof fn lemma_run_program_keeps_output(
    program: Ast,
    table: Seq<Ast>,
    output: Seq<Value>,
    fuel: nat,
)
    ensures
        output.is_prefix_of(run_program(program, table, output, fuel).output),
{
    let funcs = collect(program, table);
    match find_function(funcs, "main"@) {
        Some(i) => {
            lemma_call_function_follows(funcs, funcs[i], Seq::empty(), None, output, fuel);
        },
        None => {},
    }
}

} // verus!
