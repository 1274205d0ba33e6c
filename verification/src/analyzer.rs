//! The scope analyzer: one walk over the syntax tree that reports each identifier used
//! where no enclosing scope has declared it.
//!
//! The findings are collected, and none stops the walk. They are warnings: whether a
//! program with findings is run is for the caller to decide. A `let` declares its name
//! before its initializer is looked at, so that `let x = x;` has no finding.
use crate::mtree::{lemma_view_unfold, views_of, Ast, MTree};
use crate::text::str_eq;
use crate::tokens::{TreeCode, TreeCodeView};
use vstd::prelude::*;
use vstd::string::StringExecFns;

verus! {

/// What a diagnostic reports.
#[derive(Debug, Clone, Copy, PartialEq, Eq, Structural)]
pub enum DiagnosticKind {
    /// An identifier is read where no enclosing scope declares it.
    UseBeforeDeclaration,
    /// An assignment names a target that no enclosing scope declares.
    AssignUndeclared,
}

/// One finding of the analyzer. Findings are collected; none stops the analysis.
#[derive(Debug)]
pub struct Diagnostic {
    pub kind: DiagnosticKind,
    pub name: String,
}

/// What a `Diagnostic` stands for.
pub ghost struct DiagnosticView {
    pub kind: DiagnosticKind,
    pub name: Seq<char>,
}

impl DiagnosticView {
    /// The message that reports the finding to a reader.
    pub open spec fn message(self) -> Seq<char> {
        match self.kind {
            DiagnosticKind::UseBeforeDeclaration => "SEMANTIC ERROR: variable `"@ + self.name
                + "` used before declaration"@,
            DiagnosticKind::AssignUndeclared => "SEMANTIC ERROR: assigning to undeclared variable `"@
                + self.name + "`"@,
        }
    }
}

impl View for Diagnostic {
    type V = DiagnosticView;

    open spec fn view(&self) -> DiagnosticView {
        DiagnosticView { kind: self.kind, name: self.name@ }
    }
}

impl Diagnostic {
    /// The message that reports the finding to a reader.
    pub fn message(&self) -> (s: String)
        ensures
            s@ == self@.message(),
    {
        match self.kind {
            DiagnosticKind::UseBeforeDeclaration => {
                let mut s = String::from_str("SEMANTIC ERROR: variable `");
                s.append(self.name.as_str());
                s.append("` used before declaration");
                s
            },
            DiagnosticKind::AssignUndeclared => {
                let mut s = String::from_str("SEMANTIC ERROR: assigning to undeclared variable `");
                s.append(self.name.as_str());
                s.append("`");
                s
            },
        }
    }
}

/// What a list of diagnostics stands for.
pub open spec fn diagnostics_view(diags: Seq<Diagnostic>) -> Seq<DiagnosticView> {
    diags.map_values(|d: Diagnostic| d@)
}

/// The names that a list of strings holds.
pub open spec fn names_of(names: Seq<String>) -> Set<Seq<char>> {
    Set::new(|n: Seq<char>| exists|i: int| 0 <= i < names.len() && (#[trigger] names[i])@ == n)
}

/// The nested scopes of an analysis, the innermost last; a scope is the set of the names
/// declared in it.
pub type Scopes = Seq<Set<Seq<char>>>;

/// The scopes with `name` declared in the innermost one. Where no scope is open there is
/// nothing to declare it in.
pub open spec fn declare(scopes: Scopes, name: Seq<char>) -> Scopes {
    declare_all(scopes, set![name])
}

/// The scopes with every name of `names` declared in the innermost one.
pub open spec fn declare_all(scopes: Scopes, names: Set<Seq<char>>) -> Scopes {
    if scopes.len() == 0 {
        scopes
    } else {
        scopes.update(scopes.len() - 1, scopes.last().union(names))
    }
}

/// The scopes without the innermost one.
pub open spec fn close(scopes: Scopes) -> Scopes {
    if scopes.len() == 0 {
        scopes
    } else {
        scopes.drop_last()
    }
}

/// A name is declared where some scope of the stack holds it.
pub open spec fn declared(scopes: Scopes, name: Seq<char>) -> bool {
    exists|i: int| 0 <= i < scopes.len() && scopes[i].contains(name)
}

/// The stack of lexical scopes that the analyzer keeps while it walks the tree.
pub struct ScopeStack {
    stack: Vec<Vec<String>>,
}

/// The scopes that a stack of name lists stands for.
pub open spec fn scopes_of(stack: Seq<Vec<String>>) -> Scopes {
    stack.map_values(|names: Vec<String>| names_of(names@))
}

impl View for ScopeStack {
    type V = Scopes;

    closed spec fn view(&self) -> Scopes {
        scopes_of(self.stack@)
    }
}

impl ScopeStack {
    /// A stack that holds the global scope, with nothing declared.
    pub fn new() -> (s: ScopeStack)
        ensures
            s@ == seq![Set::<Seq<char>>::empty()],
    {
        let mut stack: Vec<Vec<String>> = Vec::new();
        stack.push(Vec::new());
        let s = ScopeStack { stack };
        assert(names_of(Seq::<String>::empty()) =~= Set::empty());
        assert(s@ =~= seq![Set::<Seq<char>>::empty()]);
        s
    }

    /// Opens a new innermost scope.
    pub fn push(&mut self)
        ensures
            final(self)@ == old(self)@.push(Set::empty()),
    {
        self.stack.push(Vec::new());
        assert(names_of(Seq::<String>::empty()) =~= Set::empty());
        assert(self@ =~= old(self)@.push(Set::empty()));
    }

    /// Closes the innermost scope.
    pub fn pop(&mut self)
        ensures
            final(self)@ == close(old(self)@),
    {
        self.stack.pop();
        assert(self@ =~= close(old(self)@));
    }

    /// Declares `name` in the innermost scope.
    pub fn declare(&mut self, name: &str)
        ensures
            final(self)@ == declare(old(self)@, name@),
    {
        let owned = String::from_str(name);
        match self.stack.pop() {
            Some(mut top) => {
                let ghost before = top@;
                top.push(owned);
                assert(names_of(top@) =~= names_of(before).union(set![name@])) by {
                    assert forall|n: Seq<char>| names_of(top@).contains(n) implies names_of(
                        before,
                    ).union(set![name@]).contains(n) by {
                        let i = choose|i: int| 0 <= i < top@.len() && (#[trigger] top@[i])@ == n;
                        if i < before.len() {
                            assert(before[i]@ == n);
                        }
                    }
                    assert forall|n: Seq<char>|
                        names_of(before).union(set![name@]).contains(n) implies names_of(
                        top@,
                    ).contains(n) by {
                        if names_of(before).contains(n) {
                            let i = choose|i: int| 0 <= i < before.len() && (#[trigger] before[i])@ == n;
                            assert(top@[i]@ == n);
                        } else {
                            assert(top@[before.len() as int]@ == n);
                        }
                    }
                }
                self.stack.push(top);
                assert(self@ =~= declare(old(self)@, name@));
            },
            None => {
                assert(self@ =~= declare(old(self)@, name@));
            },
        }
    }

    /// Tells whether some scope of the stack declares `name`.
    pub fn is_declared(&self, name: &str) -> (found: bool)
        ensures
            found == declared(self@, name@),
    {
        let mut i: usize = self.stack.len();
        while i > 0
            invariant
                i <= self.stack.len(),
                forall|k: int| i <= k < self.stack.len() ==> !(#[trigger] self@[k]).contains(name@),
            decreases i,
        {
            i -= 1;
            let scope = &self.stack[i];
            assert(self@[i as int] == names_of(scope@));
            let mut j: usize = 0;
            while j < scope.len()
                invariant
                    j <= scope.len(),
                    i < self.stack.len(),
                    self@[i as int] == names_of(scope@),
                    forall|k: int| 0 <= k < j ==> (#[trigger] scope@[k])@ != name@,
                decreases scope.len() - j,
            {
                if str_eq(scope[j].as_str(), name) {
                    assert(names_of(scope@).contains(name@));
                    return true;
                }
                j += 1;
            }
        }
        false
    }
}

/// The name that a node of kind `kind` declares: that of its first child, where that is an
/// identifier. A node of another kind declares none.
pub open spec fn binder_name(node: Ast, kind: TreeCodeView) -> Option<Seq<char>> {
    if node.code == kind && node.children.len() > 0 {
        match node.children[0].code {
            TreeCodeView::IDENTIFIER(name) => Some(name),
            _ => None,
        }
    } else {
        None
    }
}

/// The names that the nodes of kind `kind` among `nodes` declare.
pub open spec fn binder_names(nodes: Seq<Ast>, kind: TreeCodeView) -> Set<Seq<char>> {
    Set::new(
        |n: Seq<char>|
            exists|i: int| 0 <= i < nodes.len() && #[trigger] binder_name(nodes[i], kind) == Some(n),
    )
}

/// The names of the functions among `nodes`.
pub open spec fn function_names(nodes: Seq<Ast>) -> Set<Seq<char>> {
    binder_names(nodes, TreeCodeView::FUNCTION)
}

/// The names of the parameters among `nodes`.
pub open spec fn parameter_names(nodes: Seq<Ast>) -> Set<Seq<char>> {
    binder_names(nodes, TreeCodeView::PARAMETER)
}

/// The kind of node that declares a function, or else a parameter.
pub open spec fn binder_kind(functions: bool) -> TreeCodeView {
    if functions {
        TreeCodeView::FUNCTION
    } else {
        TreeCodeView::PARAMETER
    }
}

/// The first child of a function, of a call and of a `let` names what the node is about;
/// an identifier in that place is not a use of a variable.
pub open spec fn names_function(parent: TreeCodeView, index: int) -> bool {
    index == 0 && (parent is FUNCTION || parent is FUNCTION_CALL || parent is LET)
}

/// The state of an analysis: the open scopes and the diagnostics found so far.
pub ghost struct Scan {
    pub scopes: Scopes,
    pub diags: Seq<DiagnosticView>,
}

impl Scan {
    /// The same diagnostics, with other scopes.
    pub open spec fn with_scopes(self, scopes: Scopes) -> Scan {
        Scan { scopes, diags: self.diags }
    }

    /// The same scopes, with one more diagnostic.
    pub open spec fn report(self, kind: DiagnosticKind, name: Seq<char>) -> Scan {
        Scan { scopes: self.scopes, diags: self.diags.push(DiagnosticView { kind, name }) }
    }
}

/// The analysis of one node, from the state `st`. `exempt` tells that the node stands where
/// an identifier names a function or a new variable and is not looked up.
pub open spec fn scan_node(node: Ast, exempt: bool, st: Scan) -> Scan
    decreases node,
{
    match node.code {
        TreeCodeView::PROGRAM => scan_list(
            node.children,
            node.code,
            st.with_scopes(declare_all(st.scopes, function_names(node.children))),
        ),
        TreeCodeView::FUNCTION => {
            let opened = st.scopes.push(Set::empty());
            let bound = if node.children.len() > 1 {
                declare_all(opened, parameter_names(node.children[1].children))
            } else {
                opened
            };
            let done = if node.children.len() > 2 {
                scan_node(node.children[2], false, st.with_scopes(bound))
            } else {
                st.with_scopes(bound)
            };
            done.with_scopes(close(done.scopes))
        },
        TreeCodeView::BLOCK => {
            let done = scan_list(
                node.children,
                node.code,
                st.with_scopes(st.scopes.push(Set::empty())),
            );
            done.with_scopes(close(done.scopes))
        },
        TreeCodeView::LET => {
            let bound = if node.children.len() > 0 {
                match node.children[0].code {
                    TreeCodeView::IDENTIFIER(name) => declare(st.scopes, name),
                    _ => st.scopes,
                }
            } else {
                st.scopes
            };
            scan_list(node.children, node.code, st.with_scopes(bound))
        },
        TreeCodeView::IDENTIFIER(name) => if exempt || declared(st.scopes, name) {
            st
        } else {
            st.report(DiagnosticKind::UseBeforeDeclaration, name)
        },
        TreeCodeView::ASSIGN => {
            let checked = if node.children.len() > 0 {
                match node.children[0].code {
                    TreeCodeView::IDENTIFIER(name) => if declared(st.scopes, name) {
                        st
                    } else {
                        st.report(DiagnosticKind::AssignUndeclared, name)
                    },
                    _ => st,
                }
            } else {
                st
            };
            if node.children.len() > 1 {
                scan_node(node.children[1], false, checked)
            } else {
                checked
            }
        },
        _ => scan_list(node.children, node.code, st),
    }
}

/// The analysis of the children of a node of kind `parent`, from the first to the last.
pub open spec fn scan_list(children: Seq<Ast>, parent: TreeCodeView, st: Scan) -> Scan
    decreases children,
{
    if children.len() == 0 {
        st
    } else {
        scan_node(
            children.last(),
            names_function(parent, children.len() - 1),
            scan_list(children.drop_last(), parent, st),
        )
    }
}

/// The diagnostics that the analysis of a whole tree yields, in the order in which the
/// walk meets them.
pub open spec fn spec_analyze(root: Ast) -> Seq<DiagnosticView> {
    scan_node(
        root,
        false,
        Scan { scopes: seq![Set::<Seq<char>>::empty()], diags: Seq::empty() },
    ).diags
}

/// Tells whether the child at `index` of `parent` names a function or a new variable, so
/// that an identifier there is not a use.
pub fn is_function_name(parent: &MTree, index: usize) -> (b: bool)
    ensures
        b == names_function(parent@.code, index as int),
{
    index == 0 && match parent.token {
        TreeCode::FUNCTION => true,
        TreeCode::FUNCTION_CALL(_) => true,
        TreeCode::LET => true,
        _ => false,
    }
}

/// Analyzes a whole tree and returns the diagnostics, in the order in which the walk meets
/// them. The tree is not changed.
pub fn analyze(root: &MTree) -> (diags: Vec<Diagnostic>)
    ensures
        diagnostics_view(diags@) == spec_analyze(root@),
{
    let mut scopes = ScopeStack::new();
    let mut diags: Vec<Diagnostic> = Vec::new();
    assert(diagnostics_view(diags@) =~= Seq::empty());
    analyze_node(root, &mut scopes, false, &mut diags);
    diags
}

fn report(diags: &mut Vec<Diagnostic>, kind: DiagnosticKind, name: &String)
    ensures
        diagnostics_view(final(diags)@) == diagnostics_view(old(diags)@).push(
            DiagnosticView { kind, name: name@ },
        ),
{
    diags.push(Diagnostic { kind, name: name.clone() });
    assert(diagnostics_view(diags@) =~= diagnostics_view(old(diags)@).push(
        DiagnosticView { kind, name: name@ },
    ));
}

/// The name that `node` declares as a function (`functions`) or as a parameter.
pub(crate) fn declared_name(node: &MTree, functions: bool) -> (name: Option<&String>)
    ensures
        match name {
            Some(n) => binder_name(node@, binder_kind(functions)) == Some(n@),
            None => binder_name(node@, binder_kind(functions)) is None,
        },
{
    proof {
        lemma_view_unfold(*node);
    }
    let of_kind = match node.token {
        TreeCode::FUNCTION => functions,
        TreeCode::PARAMETER => !functions,
        _ => false,
    };
    if of_kind && node.children.len() > 0 {
        proof {
            lemma_view_unfold(node.children@[0]);
        }
        match &node.children[0].token {
            TreeCode::IDENTIFIER(name) => Some(name),
            _ => None,
        }
    } else {
        None
    }
}

/// The names declared among the first `i + 1` nodes are those declared among the first
/// `i`, and the one that node `i` declares.
pub proof fn lemma_binder_names_step(nodes: Seq<Ast>, kind: TreeCodeView, i: int)
    requires
        0 <= i < nodes.len(),
    ensures
        binder_names(nodes.take(i + 1), kind) == binder_names(nodes.take(i), kind).union(
            match binder_name(nodes[i], kind) {
                Some(n) => set![n],
                None => Set::empty(),
            },
        ),
{
    let more = binder_names(nodes.take(i + 1), kind);
    let less = binder_names(nodes.take(i), kind);
    let one: Set<Seq<char>> = match binder_name(nodes[i], kind) {
        Some(n) => set![n],
        None => Set::empty(),
    };
    assert forall|n: Seq<char>| more.contains(n) implies less.union(one).contains(n) by {
        let k = choose|k: int|
            0 <= k < nodes.take(i + 1).len() && #[trigger] binder_name(nodes.take(i + 1)[k], kind)
                == Some(n);
        if k < i {
            assert(binder_name(nodes.take(i)[k], kind) == Some(n));
        }
    }
    assert forall|n: Seq<char>| less.union(one).contains(n) implies more.contains(n) by {
        if less.contains(n) {
            let k = choose|k: int|
                0 <= k < nodes.take(i).len() && #[trigger] binder_name(nodes.take(i)[k], kind)
                    == Some(n);
            assert(binder_name(nodes.take(i + 1)[k], kind) == Some(n));
        } else {
            assert(binder_name(nodes.take(i + 1)[i], kind) == Some(n));
        }
    }
    assert(more =~= less.union(one));
}

/// Declaring two sets of names, one after the other, declares their union.
pub proof fn lemma_declare_all_twice(scopes: Scopes, a: Set<Seq<char>>, b: Set<Seq<char>>)
    ensures
        declare_all(declare_all(scopes, a), b) == declare_all(scopes, a.union(b)),
{
    if scopes.len() > 0 {
        assert(scopes.last().union(a).union(b) =~= scopes.last().union(a.union(b)));
        assert(declare_all(declare_all(scopes, a), b) =~= declare_all(scopes, a.union(b)));
    }
}

/// Declaring no name leaves the scopes as they are.
pub proof fn lemma_declare_none(scopes: Scopes)
    ensures
        declare_all(scopes, Set::empty()) == scopes,
{
    if scopes.len() > 0 {
        assert(scopes.last().union(Set::empty()) =~= scopes.last());
        assert(declare_all(scopes, Set::empty()) =~= scopes);
    }
}

/// Declares in the innermost scope the name of each function, or of each parameter, among
/// `nodes`.
fn declare_binders(nodes: &Vec<MTree>, functions: bool, scopes: &mut ScopeStack)
    ensures
        final(scopes)@ == declare_all(
            old(scopes)@,
            binder_names(views_of(nodes@), binder_kind(functions)),
        ),
{
    let ghost kind = binder_kind(functions);
    let ghost all = views_of(nodes@);
    assert(binder_names(all.take(0), kind) =~= Set::empty());
    proof {
        lemma_declare_none(scopes@);
    }
    let mut i: usize = 0;
    while i < nodes.len()
        invariant
            i <= nodes.len(),
            kind == binder_kind(functions),
            all == views_of(nodes@),
            scopes@ == declare_all(old(scopes)@, binder_names(all.take(i as int), kind)),
        decreases nodes.len() - i,
    {
        let ghost before = scopes@;
        proof {
            lemma_binder_names_step(all, kind, i as int);
        }
        match declared_name(&nodes[i], functions) {
            Some(name) => {
                scopes.declare(name.as_str());
                proof {
                    lemma_declare_all_twice(
                        old(scopes)@,
                        binder_names(all.take(i as int), kind),
                        set![name@],
                    );
                }
            },
            None => {
                assert(binder_names(all.take(i as int + 1), kind) =~= binder_names(
                    all.take(i as int),
                    kind,
                ));
            },
        }
        i += 1;
    }
    assert(all.take(i as int) =~= all);
}

/// Analyzes the children of `node`, from the first to the last.
fn analyze_children(node: &MTree, scopes: &mut ScopeStack, diags: &mut Vec<Diagnostic>)
    ensures
        (Scan { scopes: final(scopes)@, diags: diagnostics_view(final(diags)@) }) == scan_list(
            node@.children,
            node@.code,
            Scan { scopes: old(scopes)@, diags: diagnostics_view(old(diags)@) },
        ),
    decreases node, 0int,
{
    proof {
        lemma_view_unfold(*node);
    }
    let ghost start = Scan { scopes: scopes@, diags: diagnostics_view(diags@) };
    let ghost all = node@.children;
    let mut i: usize = 0;
    while i < node.children.len()
        invariant
            i <= node.children.len(),
            all == node@.children,
            all == views_of(node.children@),
            (Scan { scopes: scopes@, diags: diagnostics_view(diags@) }) == scan_list(
                all.take(i as int),
                node@.code,
                start,
            ),
        decreases node.children.len() - i,
    {
        let exempt = is_function_name(node, i);
        analyze_node(&node.children[i], scopes, exempt, diags);
        proof {
            let done = all.take(i as int + 1);
            assert(done.drop_last() =~= all.take(i as int));
            assert(done.last() == node.children@[i as int]@);
        }
        i += 1;
    }
    assert(all.take(i as int) =~= all);
}

/// Analyzes one node and what lies below it.
fn analyze_node(
    node: &MTree,
    scopes: &mut ScopeStack,
    exempt: bool,
    diags: &mut Vec<Diagnostic>,
)
    ensures
        (Scan { scopes: final(scopes)@, diags: diagnostics_view(final(diags)@) }) == scan_node(
            node@,
            exempt,
            Scan { scopes: old(scopes)@, diags: diagnostics_view(old(diags)@) },
        ),
    decreases node, 1int,
{
    proof {
        lemma_view_unfold(*node);
    }
    match &node.token {
        TreeCode::PROGRAM => {
            // Function names first, so that a call may precede the definition.
            declare_binders(&node.children, true, scopes);
            analyze_children(node, scopes, diags);
        },
        TreeCode::FUNCTION => {
            scopes.push();
            if node.children.len() > 1 {
                proof {
                    lemma_view_unfold(node.children@[1]);
                }
                declare_binders(&node.children[1].children, false, scopes);
            }
            if node.children.len() > 2 {
                analyze_node(&node.children[2], scopes, false, diags);
            }
            scopes.pop();
        },
        TreeCode::BLOCK => {
            scopes.push();
            analyze_children(node, scopes, diags);
            scopes.pop();
        },
        TreeCode::LET => {
            if node.children.len() > 0 {
                proof {
                    lemma_view_unfold(node.children@[0]);
                }
                match &node.children[0].token {
                    TreeCode::IDENTIFIER(name) => {
                        scopes.declare(name.as_str());
                    },
                    _ => {},
                }
            }
            analyze_children(node, scopes, diags);
        },
        TreeCode::IDENTIFIER(name) => {
            if !exempt && !scopes.is_declared(name.as_str()) {
                report(diags, DiagnosticKind::UseBeforeDeclaration, name);
            }
        },
        TreeCode::ASSIGN => {
            if node.children.len() > 0 {
                proof {
                    lemma_view_unfold(node.children@[0]);
                }
                match &node.children[0].token {
                    TreeCode::IDENTIFIER(name) => {
                        if !scopes.is_declared(name.as_str()) {
                            report(diags, DiagnosticKind::AssignUndeclared, name);
                        }
                    },
                    _ => {},
                }
            }
            if node.children.len() > 1 {
                analyze_node(&node.children[1], scopes, false, diags);
            }
        },
        _ => {
            analyze_children(node, scopes, diags);
        },
    }
}

} // verus!
