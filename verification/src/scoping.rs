//! What the analyzer's findings mean: a reading of the tree as a trace of scope events, a
//! definition over that trace of "declared in an enclosing scope before use", and the
//! proof that the analyzer reports exactly the uses that are not.
use crate::analyzer::{
    binder_name, binder_names, close, declare, declare_all, declared, lemma_binder_names_step,
    lemma_declare_all_twice, lemma_declare_none, names_function, scan_list, scan_node,
    spec_analyze, DiagnosticKind, DiagnosticView, Scan,
};
use crate::mtree::Ast;
use crate::tokens::TreeCodeView;
use vstd::prelude::*;

verus! {

/// What a walk over the tree meets that matters for scoping.
pub ghost enum Event {
    /// A scope begins.
    Open,
    /// The innermost scope ends.
    Close,
    /// A name is declared in the innermost scope.
    Declare(Seq<char>),
    /// A variable is read.
    Read(Seq<char>),
    /// A variable is the target of an assignment.
    Write(Seq<char>),
}

/// The declarations of the names that the nodes of kind `kind` among `nodes` declare, in
/// order.
pub open spec fn declarations(nodes: Seq<Ast>, kind: TreeCodeView) -> Seq<Event>
    decreases nodes.len(),
{
    if nodes.len() == 0 {
        Seq::empty()
    } else {
        declarations(nodes.drop_last(), kind) + match binder_name(nodes.last(), kind) {
            Some(name) => seq![Event::Declare(name)],
            None => Seq::empty(),
        }
    }
}

/// The declaration that a node makes by the name in its first child, if that is an
/// identifier.
pub open spec fn first_child_event(node: Ast, write: bool) -> Seq<Event> {
    if node.children.len() > 0 {
        match node.children[0].code {
            TreeCodeView::IDENTIFIER(name) => if write {
                seq![Event::Write(name)]
            } else {
                seq![Event::Declare(name)]
            },
            _ => Seq::empty(),
        }
    } else {
        Seq::empty()
    }
}

/// The events of a tree, in the order of the walk. A program declares the names of all
/// its functions before anything else. A function opens a scope, declares its parameters,
/// holds the events of its body, and closes the scope. A block opens and closes a scope
/// around its statements. A `let` declares its name before its initializer is read. An
/// identifier is a read, but where it names a function or the variable of a `let`
/// (`exempt`). An assignment writes its target, then reads its right side.
pub open spec fn events(node: Ast, exempt: bool) -> Seq<Event>
    decreases node,
{
    match node.code {
        TreeCodeView::PROGRAM => declarations(node.children, TreeCodeView::FUNCTION) + events_of(
            node.children,
            node.code,
        ),
        TreeCodeView::FUNCTION => seq![Event::Open] + (if node.children.len() > 1 {
            declarations(node.children[1].children, TreeCodeView::PARAMETER)
        } else {
            Seq::empty()
        }) + (if node.children.len() > 2 {
            events(node.children[2], false)
        } else {
            Seq::empty()
        }) + seq![Event::Close],
        TreeCodeView::BLOCK => seq![Event::Open] + events_of(node.children, node.code)
            + seq![Event::Close],
        TreeCodeView::LET => first_child_event(node, false) + events_of(node.children, node.code),
        TreeCodeView::IDENTIFIER(name) => if exempt {
            Seq::empty()
        } else {
            seq![Event::Read(name)]
        },
        TreeCodeView::ASSIGN => first_child_event(node, true) + (if node.children.len() > 1 {
            events(node.children[1], false)
        } else {
            Seq::empty()
        }),
        _ => events_of(node.children, node.code),
    }
}

/// The events of the children of a node of kind `parent`, from the first to the last.
pub open spec fn events_of(children: Seq<Ast>, parent: TreeCodeView) -> Seq<Event>
    decreases children,
{
    if children.len() == 0 {
        Seq::empty()
    } else {
        events_of(children.drop_last(), parent) + events(
            children.last(),
            names_function(parent, children.len() - 1),
        )
    }
}

/// The change that an event makes to the number of open scopes.
pub open spec fn delta(e: Event) -> int {
    match e {
        Event::Open => 1,
        Event::Close => -1,
        _ => 0,
    }
}

/// The number of scopes that the first `i` events of a trace have opened and not closed.
pub open spec fn depth(t: Seq<Event>, i: int) -> int
    decreases i,
{
    if i <= 0 {
        0
    } else {
        depth(t, i - 1) + delta(t[i - 1])
    }
}

/// From event `j` up to event `i`, no scope that was open at `j` has been closed: the
/// scope in which `j` stands encloses `i`.
pub open spec fn encloses(t: Seq<Event>, j: int, i: int) -> bool {
    &&& 0 <= j < i
    &&& forall|k: int| j < k <= i ==> #[trigger] depth(t, k) >= depth(t, j)
}

/// At event `i`, `name` is declared in an enclosing scope before use: an earlier event
/// declares it in a scope that encloses `i`.
pub open spec fn visible(t: Seq<Event>, i: int, name: Seq<char>) -> bool {
    exists|j: int| #[trigger] encloses(t, j, i) && t[j] == Event::Declare(name)
}

/// What is wrong with event `i`, if anything: a read or a write of a name that is not
/// visible there.
pub open spec fn finding(t: Seq<Event>, i: int) -> Option<DiagnosticView> {
    match t[i] {
        Event::Read(name) => if visible(t, i, name) {
            None
        } else {
            Some(DiagnosticView { kind: DiagnosticKind::UseBeforeDeclaration, name })
        },
        Event::Write(name) => if visible(t, i, name) {
            None
        } else {
            Some(DiagnosticView { kind: DiagnosticKind::AssignUndeclared, name })
        },
        _ => None,
    }
}

/// The findings of the first `i` events, in order.
pub open spec fn findings(t: Seq<Event>, i: int) -> Seq<DiagnosticView>
    decreases i,
{
    if i <= 0 {
        Seq::empty()
    } else {
        match finding(t, i - 1) {
            Some(d) => findings(t, i - 1).push(d),
            None => findings(t, i - 1),
        }
    }
}

/// Every read and every assigned identifier of the trace is declared in an enclosing scope
/// before use.
pub open spec fn well_scoped(t: Seq<Event>) -> bool {
    forall|i: int| 0 <= i < t.len() ==> (#[trigger] finding(t, i)) is None
}

/// The state of an analysis after one event.
pub open spec fn step(st: Scan, e: Event) -> Scan {
    match e {
        Event::Open => st.with_scopes(st.scopes.push(Set::empty())),
        Event::Close => st.with_scopes(close(st.scopes)),
        Event::Declare(name) => st.with_scopes(declare(st.scopes, name)),
        Event::Read(name) => if declared(st.scopes, name) {
            st
        } else {
            st.report(DiagnosticKind::UseBeforeDeclaration, name)
        },
        Event::Write(name) => if declared(st.scopes, name) {
            st
        } else {
            st.report(DiagnosticKind::AssignUndeclared, name)
        },
    }
}

/// The state of an analysis after the events of a trace, one after the other.
pub open spec fn run(t: Seq<Event>, st: Scan) -> Scan
    decreases t.len(),
{
    if t.len() == 0 {
        st
    } else {
        step(run(t.drop_last(), st), t.last())
    }
}

/// The state in which the analysis of a whole tree begins: the global scope, empty, and
/// no diagnostic.
pub open spec fn initial() -> Scan {
    Scan { scopes: seq![Set::<Seq<char>>::empty()], diags: Seq::empty() }
}

/// Running two traces one after the other is running their concatenation.
pub proof fn lemma_run_concat(a: Seq<Event>, b: Seq<Event>, st: Scan)
    ensures
        run(a + b, st) == run(b, run(a, st)),
    decreases b.len(),
{
    if b.len() == 0 {
        assert(a + b =~= a);
    } else {
        lemma_run_concat(a, b.drop_last(), st);
        assert((a + b).drop_last() =~= a + b.drop_last());
        assert((a + b).last() == b.last());
    }
}

/// Running one event is one step.
pub proof fn lemma_run_one(e: Event, st: Scan)
    ensures
        run(seq![e], st) == step(st, e),
{
    assert(seq![e].drop_last() =~= Seq::<Event>::empty());
    assert(run(seq![e].drop_last(), st) == st);
}

/// Running the declarations of a list of nodes declares the names of the list in the
/// innermost scope.
pub proof fn lemma_run_declarations(nodes: Seq<Ast>, kind: TreeCodeView, st: Scan)
    ensures
        run(declarations(nodes, kind), st) == st.with_scopes(
            declare_all(st.scopes, binder_names(nodes, kind)),
        ),
    decreases nodes.len(),
{
    if nodes.len() == 0 {
        assert(binder_names(nodes, kind) =~= Set::empty());
        lemma_declare_none(st.scopes);
    } else {
        let front = nodes.drop_last();
        lemma_run_declarations(front, kind, st);
        lemma_binder_names_step(nodes, kind, nodes.len() - 1);
        assert(nodes.take(nodes.len() - 1) =~= front);
        assert(nodes.take(nodes.len() as int) =~= nodes);
        let one: Seq<Event> = match binder_name(nodes.last(), kind) {
            Some(name) => seq![Event::Declare(name)],
            None => Seq::empty(),
        };
        lemma_run_concat(declarations(front, kind), one, st);
        let mid = run(declarations(front, kind), st);
        match binder_name(nodes.last(), kind) {
            Some(name) => {
                lemma_run_one(Event::Declare(name), mid);
                lemma_declare_all_twice(st.scopes, binder_names(front, kind), set![name]);
            },
            None => {
                assert(binder_names(front, kind).union(Set::empty()) =~= binder_names(
                    front,
                    kind,
                ));
            },
        }
    }
}

/// The analysis of a node is the run of its events.
pub proof fn lemma_scan_is_run(node: Ast, exempt: bool, st: Scan)
    ensures
        scan_node(node, exempt, st) == run(events(node, exempt), st),
    decreases node, 1int,
{
    match node.code {
        TreeCodeView::PROGRAM => {
            let d = declarations(node.children, TreeCodeView::FUNCTION);
            lemma_run_declarations(node.children, TreeCodeView::FUNCTION, st);
            lemma_scan_list_is_run(node.children, node.code, run(d, st));
            lemma_run_concat(d, events_of(node.children, node.code), st);
        },
        TreeCodeView::FUNCTION => {
            let open = seq![Event::Open];
            let params = if node.children.len() > 1 {
                declarations(node.children[1].children, TreeCodeView::PARAMETER)
            } else {
                Seq::empty()
            };
            let body = if node.children.len() > 2 {
                events(node.children[2], false)
            } else {
                Seq::empty()
            };
            let shut = seq![Event::Close];
            lemma_run_one(Event::Open, st);
            let s1 = run(open, st);
            if node.children.len() > 1 {
                lemma_run_declarations(node.children[1].children, TreeCodeView::PARAMETER, s1);
            }
            let s2 = run(params, s1);
            if node.children.len() > 2 {
                lemma_scan_is_run(node.children[2], false, s2);
            }
            let s3 = run(body, s2);
            lemma_run_one(Event::Close, s3);
            lemma_run_concat(open, params, st);
            lemma_run_concat(open + params, body, st);
            lemma_run_concat(open + params + body, shut, st);
        },
        TreeCodeView::BLOCK => {
            let open = seq![Event::Open];
            let inner = events_of(node.children, node.code);
            let shut = seq![Event::Close];
            lemma_run_one(Event::Open, st);
            let s1 = run(open, st);
            lemma_scan_list_is_run(node.children, node.code, s1);
            let s2 = run(inner, s1);
            lemma_run_one(Event::Close, s2);
            lemma_run_concat(open, inner, st);
            lemma_run_concat(open + inner, shut, st);
        },
        TreeCodeView::LET => {
            let first = first_child_event(node, false);
            if first.len() > 0 {
                lemma_run_one(first[0], st);
                assert(first =~= seq![first[0]]);
            }
            let s1 = run(first, st);
            lemma_scan_list_is_run(node.children, node.code, s1);
            lemma_run_concat(first, events_of(node.children, node.code), st);
        },
        TreeCodeView::IDENTIFIER(name) => {
            if !exempt {
                lemma_run_one(Event::Read(name), st);
            }
        },
        TreeCodeView::ASSIGN => {
            let first = first_child_event(node, true);
            if first.len() > 0 {
                lemma_run_one(first[0], st);
                assert(first =~= seq![first[0]]);
            }
            let s1 = run(first, st);
            let rest = if node.children.len() > 1 {
                events(node.children[1], false)
            } else {
                Seq::empty()
            };
            if node.children.len() > 1 {
                lemma_scan_is_run(node.children[1], false, s1);
            }
            lemma_run_concat(first, rest, st);
        },
        _ => {
            lemma_scan_list_is_run(node.children, node.code, st);
        },
    }
}

/// The analysis of a list of children is the run of their events.
pub proof fn lemma_scan_list_is_run(children: Seq<Ast>, parent: TreeCodeView, st: Scan)
    ensures
        scan_list(children, parent, st) == run(events_of(children, parent), st),
    decreases children, 0int,
{
    if children.len() > 0 {
        let front = children.drop_last();
        lemma_scan_list_is_run(front, parent, st);
        let mid = run(events_of(front, parent), st);
        let exempt = names_function(parent, children.len() - 1);
        lemma_scan_is_run(children.last(), exempt, mid);
        lemma_run_concat(events_of(front, parent), events(children.last(), exempt), st);
    }
}

/// A trace is balanced where it closes every scope it opens, and none that it has not
/// opened.
pub open spec fn balanced(t: Seq<Event>) -> bool {
    &&& depth(t, t.len() as int) == 0
    &&& forall|k: int| 0 <= k <= t.len() ==> #[trigger] depth(t, k) >= 0
}

/// The depth within the first of two traces is not changed by the second.
pub proof fn lemma_depth_prefix(a: Seq<Event>, b: Seq<Event>, k: int)
    requires
        0 <= k <= a.len(),
    ensures
        depth(a + b, k) == depth(a, k),
    decreases k,
{
    if k > 0 {
        lemma_depth_prefix(a, b, k - 1);
        assert((a + b)[k - 1] == a[k - 1]);
    }
}

/// The depth within the second of two traces starts from the depth that the first ends
/// with.
pub proof fn lemma_depth_concat(a: Seq<Event>, b: Seq<Event>, k: int)
    requires
        0 <= k <= b.len(),
    ensures
        depth(a + b, a.len() + k) == depth(a, a.len() as int) + depth(b, k),
    decreases k,
{
    if k == 0 {
        lemma_depth_prefix(a, b, a.len() as int);
    } else {
        lemma_depth_concat(a, b, k - 1);
        assert((a + b)[a.len() + k - 1] == b[k - 1]);
    }
}

/// Two balanced traces, one after the other, are balanced.
pub proof fn lemma_balanced_concat(a: Seq<Event>, b: Seq<Event>)
    requires
        balanced(a),
        balanced(b),
    ensures
        balanced(a + b),
{
    lemma_depth_concat(a, b, b.len() as int);
    assert forall|k: int| 0 <= k <= (a + b).len() implies #[trigger] depth(a + b, k) >= 0 by {
        if k <= a.len() {
            lemma_depth_prefix(a, b, k);
        } else {
            lemma_depth_concat(a, b, k - a.len());
        }
    }
}

/// A balanced trace within a scope of its own is balanced.
pub proof fn lemma_balanced_wrap(a: Seq<Event>)
    requires
        balanced(a),
    ensures
        balanced(seq![Event::Open] + a + seq![Event::Close]),
{
    let open = seq![Event::Open];
    let shut = seq![Event::Close];
    let t = open + a + shut;
    assert(depth(open, 1) == 1) by {
        assert(depth(open, 0) == 0);
    }
    assert forall|k: int| 0 <= k <= (open + a).len() implies #[trigger] depth(open + a, k) >= (if k
        == 0 {
        0int
    } else {
        1int
    }) by {
        if k == 0 {
        } else {
            lemma_depth_concat(open, a, k - 1);
        }
    }
    lemma_depth_concat(open, a, a.len() as int);
    assert(depth(shut, 1) == -1) by {
        assert(depth(shut, 0) == 0);
    }
    lemma_depth_concat(open + a, shut, 1);
    assert forall|k: int| 0 <= k <= t.len() implies #[trigger] depth(t, k) >= 0 by {
        if k <= (open + a).len() {
            lemma_depth_prefix(open + a, shut, k);
            assert(depth(open + a, k) >= 0);
        }
    }
}

/// A trace of declarations, reads and writes alone is balanced.
pub proof fn lemma_flat_balanced(t: Seq<Event>)
    requires
        forall|i: int| 0 <= i < t.len() ==> delta(#[trigger] t[i]) == 0,
    ensures
        balanced(t),
{
    assert forall|k: int| 0 <= k <= t.len() implies #[trigger] depth(t, k) == 0 by {
        lemma_flat_depth(t, k);
    }
}

/// Within a trace of declarations, reads and writes no scope is open.
pub proof fn lemma_flat_depth(t: Seq<Event>, k: int)
    requires
        forall|i: int| 0 <= i < t.len() ==> delta(#[trigger] t[i]) == 0,
        0 <= k <= t.len(),
    ensures
        depth(t, k) == 0,
    decreases k,
{
    if k > 0 {
        lemma_flat_depth(t, k - 1);
    }
}

/// Declarations open and close no scope.
pub proof fn lemma_declarations_flat(nodes: Seq<Ast>, kind: TreeCodeView)
    ensures
        forall|i: int|
            0 <= i < declarations(nodes, kind).len() ==> delta(
                #[trigger] declarations(nodes, kind)[i],
            ) == 0,
    decreases nodes.len(),
{
    if nodes.len() > 0 {
        lemma_declarations_flat(nodes.drop_last(), kind);
        let front = declarations(nodes.drop_last(), kind);
        let all = declarations(nodes, kind);
        assert forall|i: int| 0 <= i < all.len() implies delta(#[trigger] all[i]) == 0 by {
            if i < front.len() {
                assert(all[i] == front[i]);
            }
        }
    }
}

/// The events of a tree are balanced.
pub proof fn lemma_events_balanced(node: Ast, exempt: bool)
    ensures
        balanced(events(node, exempt)),
    decreases node, 1int,
{
    let none = Seq::<Event>::empty();
    assert(balanced(none));
    match node.code {
        TreeCodeView::PROGRAM => {
            let d = declarations(node.children, TreeCodeView::FUNCTION);
            lemma_declarations_flat(node.children, TreeCodeView::FUNCTION);
            lemma_flat_balanced(d);
            lemma_events_of_balanced(node.children, node.code);
            lemma_balanced_concat(d, events_of(node.children, node.code));
        },
        TreeCodeView::FUNCTION => {
            let params = if node.children.len() > 1 {
                declarations(node.children[1].children, TreeCodeView::PARAMETER)
            } else {
                Seq::empty()
            };
            let body = if node.children.len() > 2 {
                events(node.children[2], false)
            } else {
                Seq::empty()
            };
            if node.children.len() > 1 {
                lemma_declarations_flat(node.children[1].children, TreeCodeView::PARAMETER);
            }
            lemma_flat_balanced(params);
            if node.children.len() > 2 {
                lemma_events_balanced(node.children[2], false);
            }
            lemma_balanced_concat(params, body);
            lemma_balanced_wrap(params + body);
            assert(seq![Event::Open] + (params + body) + seq![Event::Close] =~= seq![Event::Open]
                + params + body + seq![Event::Close]);
        },
        TreeCodeView::BLOCK => {
            lemma_events_of_balanced(node.children, node.code);
            lemma_balanced_wrap(events_of(node.children, node.code));
        },
        TreeCodeView::LET => {
            lemma_flat_balanced(first_child_event(node, false));
            lemma_events_of_balanced(node.children, node.code);
            lemma_balanced_concat(
                first_child_event(node, false),
                events_of(node.children, node.code),
            );
        },
        TreeCodeView::IDENTIFIER(name) => {
            lemma_flat_balanced(events(node, exempt));
        },
        TreeCodeView::ASSIGN => {
            lemma_flat_balanced(first_child_event(node, true));
            let rest = if node.children.len() > 1 {
                events(node.children[1], false)
            } else {
                Seq::empty()
            };
            if node.children.len() > 1 {
                lemma_events_balanced(node.children[1], false);
            }
            lemma_balanced_concat(first_child_event(node, true), rest);
        },
        _ => {
            lemma_events_of_balanced(node.children, node.code);
        },
    }
}

/// The events of a list of children are balanced.
pub proof fn lemma_events_of_balanced(children: Seq<Ast>, parent: TreeCodeView)
    ensures
        balanced(events_of(children, parent)),
    decreases children, 0int,
{
    if children.len() > 0 {
        lemma_events_of_balanced(children.drop_last(), parent);
        lemma_events_balanced(children.last(), names_function(parent, children.len() - 1));
        lemma_balanced_concat(
            events_of(children.drop_last(), parent),
            events(children.last(), names_function(parent, children.len() - 1)),
        );
    }
}

/// From event `j` up to event `i` the depth has not gone below `d`.
pub open spec fn open_since(t: Seq<Event>, j: int, i: int, d: int) -> bool {
    forall|k: int| j < k <= i ==> #[trigger] depth(t, k) >= d
}

/// Event `j` declares `n` at depth `d`, in a scope that is still open at event `i`.
pub open spec fn held_by(t: Seq<Event>, i: int, j: int, d: int, n: Seq<char>) -> bool {
    &&& 0 <= j < i
    &&& t[j] == Event::Declare(n)
    &&& depth(t, j) == d
    &&& open_since(t, j, i, d)
}

/// At event `i`, the open scope at depth `d` holds `n`.
pub open spec fn held(t: Seq<Event>, i: int, d: int, n: Seq<char>) -> bool {
    exists|j: int| #[trigger] held_by(t, i, j, d, n)
}

/// The state `st` is what the first `i` events of `t` leave: one scope for each depth,
/// holding what was declared in it, and the findings so far.
pub open spec fn mirrors(t: Seq<Event>, i: int, st: Scan) -> bool {
    &&& st.scopes.len() == depth(t, i) + 1
    &&& forall|d: int, n: Seq<char>|
        0 <= d < st.scopes.len() ==> (#[trigger] st.scopes[d].contains(n) <==> held(t, i, d, n))
    &&& st.diags == findings(t, i)
}

/// What a scope holds behind one more event.
pub proof fn lemma_held_step(t: Seq<Event>, i: int, d: int, n: Seq<char>)
    requires
        1 <= i <= t.len(),
    ensures
        held(t, i, d, n) <==> (depth(t, i) >= d && (held(t, i - 1, d, n) || (t[i - 1]
            == Event::Declare(n) && depth(t, i - 1) == d))),
{
    if held(t, i, d, n) {
        let j = choose|j: int| #[trigger] held_by(t, i, j, d, n);
        assert(depth(t, i) >= d);
        if j < i - 1 {
            assert(open_since(t, j, i - 1, d));
            assert(held_by(t, i - 1, j, d, n));
        }
    }
    if depth(t, i) >= d && held(t, i - 1, d, n) {
        let j = choose|j: int| #[trigger] held_by(t, i - 1, j, d, n);
        assert(open_since(t, j, i, d));
        assert(held_by(t, i, j, d, n));
    }
    if depth(t, i) >= d && t[i - 1] == Event::Declare(n) && depth(t, i - 1) == d {
        assert(open_since(t, i - 1, i, d));
        assert(held_by(t, i, i - 1, d, n));
    }
}

/// Where the state mirrors the trace, a name is declared in some scope exactly where it
/// is visible.
pub proof fn lemma_declared_is_visible(t: Seq<Event>, i: int, st: Scan, n: Seq<char>)
    requires
        0 <= i <= t.len(),
        mirrors(t, i, st),
        forall|k: int| 0 <= k <= i ==> #[trigger] depth(t, k) >= 0,
    ensures
        declared(st.scopes, n) <==> visible(t, i, n),
{
    if declared(st.scopes, n) {
        let d = choose|d: int| 0 <= d < st.scopes.len() && st.scopes[d].contains(n);
        assert(held(t, i, d, n));
        let j = choose|j: int| #[trigger] held_by(t, i, j, d, n);
        assert(encloses(t, j, i));
    }
    if visible(t, i, n) {
        let j = choose|j: int| #[trigger] encloses(t, j, i) && t[j] == Event::Declare(n);
        let d = depth(t, j);
        assert(depth(t, i) >= d);
        assert(held_by(t, i, j, d, n));
        assert(st.scopes[d].contains(n));
    }
}

/// The analysis of the first `i` events of a trace, none of which closes a scope that is
/// not open, leaves the state that mirrors them.
pub proof fn lemma_run_mirrors(t: Seq<Event>, i: int)
    requires
        0 <= i <= t.len(),
        forall|k: int| 0 <= k <= i ==> #[trigger] depth(t, k) >= 0,
    ensures
        mirrors(t, i, run(t.take(i), initial())),
    decreases i,
{
    if i == 0 {
        assert(t.take(0) =~= Seq::<Event>::empty());
        let st = initial();
        assert forall|d: int, n: Seq<char>| 0 <= d < st.scopes.len() implies (
        #[trigger] st.scopes[d].contains(n) <==> held(t, 0, d, n)) by {
            if held(t, 0, d, n) {
                let j = choose|j: int| #[trigger] held_by(t, 0, j, d, n);
            }
        }
    } else {
        lemma_run_mirrors(t, i - 1);
        let st = run(t.take(i - 1), initial());
        let e = t[i - 1];
        assert(t.take(i).drop_last() =~= t.take(i - 1));
        assert(t.take(i).last() == e);
        let next = step(st, e);
        assert(run(t.take(i), initial()) == next);
        let top = depth(t, i - 1);
        assert(depth(t, i) >= 0);
        assert(top >= 0);
        assert forall|d: int, n: Seq<char>| 0 <= d < next.scopes.len() implies (
        #[trigger] next.scopes[d].contains(n) <==> held(t, i, d, n)) by {
            lemma_held_step(t, i, d, n);
            if d <= top {
                assert(st.scopes[d].contains(n) <==> held(t, i - 1, d, n));
            } else {
                if held(t, i - 1, d, n) {
                    let j = choose|j: int| #[trigger] held_by(t, i - 1, j, d, n);
                    if j < i - 1 {
                        assert(depth(t, i - 1) >= d);
                    }
                }
            }
            match e {
                Event::Declare(m) => {
                    if d == top {
                        assert(next.scopes[d] == st.scopes[d].union(set![m]));
                    }
                },
                _ => {},
            }
        }
        match e {
            Event::Read(name) => {
                lemma_declared_is_visible(t, i - 1, st, name);
            },
            Event::Write(name) => {
                lemma_declared_is_visible(t, i - 1, st, name);
            },
            _ => {},
        }
    }
}

/// The analyzer reports exactly the reads and the assignments of names that are not
/// declared in an enclosing scope before use, in the order of the walk.
pub proof fn lemma_analysis_is_findings(root: Ast)
    ensures
        spec_analyze(root) == findings(events(root, false), events(root, false).len() as int),
{
    let t = events(root, false);
    lemma_events_balanced(root, false);
    lemma_run_mirrors(t, t.len() as int);
    assert(t.take(t.len() as int) =~= t);
    lemma_scan_is_run(root, false, initial());
}

/// Where every finding of the first `i` events is none, there are no findings.
pub proof fn lemma_no_findings(t: Seq<Event>, i: int)
    requires
        0 <= i <= t.len(),
        well_scoped(t),
    ensures
        findings(t, i).len() == 0,
    decreases i,
{
    if i > 0 {
        lemma_no_findings(t, i - 1);
        assert(finding(t, i - 1) is None);
    }
}

/// A finding of an event is among the findings of every longer prefix.
pub proof fn lemma_finding_kept(t: Seq<Event>, i: int, upto: int)
    requires
        0 <= i < upto <= t.len(),
        finding(t, i) is Some,
    ensures
        findings(t, upto).contains(finding(t, i)->0),
    decreases upto,
{
    if upto - 1 == i {
        let all = findings(t, upto);
        assert(all[all.len() - 1] == finding(t, i)->0);
    } else {
        lemma_finding_kept(t, i, upto - 1);
        let before = findings(t, upto - 1);
        let found = finding(t, i)->0;
        let k = choose|k: int| 0 <= k < before.len() && #[trigger] before[k] == found;
        assert(findings(t, upto)[k] == found);
    }
}

/// Where every read and every assigned identifier of a program is declared in an
/// enclosing scope before use, the analyzer yields no diagnostic.
pub proof fn lemma_well_scoped_is_clean(root: Ast)
    requires
        well_scoped(events(root, false)),
    ensures
        spec_analyze(root).len() == 0,
{
    let t = events(root, false);
    lemma_analysis_is_findings(root);
    lemma_no_findings(t, t.len() as int);
}

/// Where a program reads a variable that no enclosing scope has declared before, the
/// analyzer yields a diagnostic that names that variable.
pub proof fn lemma_undeclared_read_is_reported(root: Ast, i: int, name: Seq<char>)
    requires
        0 <= i < events(root, false).len(),
        events(root, false)[i] == Event::Read(name),
        !visible(events(root, false), i, name),
    ensures
        spec_analyze(root).contains(
            DiagnosticView { kind: DiagnosticKind::UseBeforeDeclaration, name },
        ),
{
    let t = events(root, false);
    lemma_analysis_is_findings(root);
    lemma_finding_kept(t, i, t.len() as int);
}

/// Where a program assigns to a variable that no enclosing scope has declared before, the
/// analyzer yields a diagnostic that names that variable.
pub proof fn lemma_undeclared_write_is_reported(root: Ast, i: int, name: Seq<char>)
    requires
        0 <= i < events(root, false).len(),
        events(root, false)[i] == Event::Write(name),
        !visible(events(root, false), i, name),
    ensures
        spec_analyze(root).contains(
            DiagnosticView { kind: DiagnosticKind::AssignUndeclared, name },
        ),
{
    let t = events(root, false);
    lemma_analysis_is_findings(root);
    lemma_finding_kept(t, i, t.len() as int);
}

} // verus!
