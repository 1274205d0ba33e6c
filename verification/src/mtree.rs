//! The syntax tree: an ordered tree of tagged nodes, each owning its children.
use crate::tokens::{TreeCode, TreeCodeView};
use vstd::prelude::*;
use vstd::string::StringExecFns;

verus! {

/// A node of the syntax tree. The order of the children is significant.
#[derive(Debug)]
pub struct MTree {
    pub token: TreeCode,
    pub children: Vec<MTree>,
}

/// The mathematical tree that an `MTree` stands for.
pub ghost struct Ast {
    pub code: TreeCodeView,
    pub children: Seq<Ast>,
}

impl Ast {
    /// A node without children.
    pub open spec fn leaf(code: TreeCodeView) -> Ast {
        Ast { code, children: Seq::empty() }
    }

    /// This node with `child` added after its last child.
    pub open spec fn with_child(self, child: Ast) -> Ast {
        Ast { code: self.code, children: self.children.push(child) }
    }

    /// The lines that show the tree, one node to a line in pre-order, each line indented
    /// by `indent` and two more spaces for each level below the node the listing began at.
    pub open spec fn lines(self, indent: Seq<char>) -> Seq<Seq<char>>
        decreases self, 1int,
    {
        seq![indent + self.code.text()] + Ast::lines_of(self.children, indent + "  "@)
    }

    /// The lines of a list of trees, one tree after another.
    pub open spec fn lines_of(trees: Seq<Ast>, indent: Seq<char>) -> Seq<Seq<char>>
        decreases trees, 0int,
    {
        if trees.len() == 0 {
            Seq::empty()
        } else {
            Ast::lines_of(trees.drop_last(), indent) + trees.last().lines(indent)
        }
    }
}

/// The trees that a sequence of nodes stands for.
pub open spec fn views_of(nodes: Seq<MTree>) -> Seq<Ast> {
    nodes.map_values(|n: MTree| n@)
}

/// The tree that a node stands for: its code, and the trees of its children in order.
pub open spec fn ast_of(t: MTree) -> Ast
    decreases t,
{
    Ast { code: t.token@, children: asts_of(t.children@) }
}

/// The trees of a sequence of nodes, built from the first node to the last.
pub open spec fn asts_of(nodes: Seq<MTree>) -> Seq<Ast>
    decreases nodes,
{
    if nodes.len() == 0 {
        Seq::empty()
    } else {
        asts_of(nodes.drop_last()).push(ast_of(nodes.last()))
    }
}

impl View for MTree {
    type V = Ast;

    open spec fn view(&self) -> Ast {
        ast_of(*self)
    }
}

/// The trees of a sequence of nodes are the views of the nodes, one for one.
pub proof fn lemma_asts_of(nodes: Seq<MTree>)
    ensures
        asts_of(nodes) == views_of(nodes),
    decreases nodes.len(),
{
    if nodes.len() > 0 {
        lemma_asts_of(nodes.drop_last());
    }
    assert(asts_of(nodes) =~= views_of(nodes));
}

/// A node stands for the tree whose code is the view of its token and whose children are
/// the trees that its children stand for, in order.
pub proof fn lemma_view_unfold(t: MTree)
    ensures
        t@.code == t.token@,
        t@.children.len() == t.children@.len(),
        forall|i: int| 0 <= i < t.children@.len() ==> #[trigger] t@.children[i] == t.children@[i]@,
        t@.children == views_of(t.children@),
{
    lemma_asts_of(t.children@);
}

impl Clone for MTree {
    /// A deep copy: the copy stands for the same tree.
    fn clone(&self) -> (t: MTree)
        ensures
            t@ == self@,
        decreases self,
    {
        let mut children: Vec<MTree> = Vec::new();
        let mut i: usize = 0;
        while i < self.children.len()
            invariant
                i <= self.children.len(),
                children@.len() == i,
                forall|k: int| 0 <= k < i ==> children@[k]@ == self.children@[k]@,
            decreases self.children.len() - i,
        {
            let child = self.children[i].clone();
            children.push(child);
            i += 1;
        }
        let t = MTree { token: self.token.clone(), children };
        proof {
            lemma_view_unfold(t);
            lemma_view_unfold(*self);
        }
        assert(t@.children =~= self@.children);
        t
    }
}

impl MTree {
    /// A node of the given kind without children.
    pub fn new(token: TreeCode) -> (t: MTree)
        ensures
            t@ == Ast::leaf(token@),
            t.token == token,
            t.children@.len() == 0,
    {
        let t = MTree { token, children: Vec::new() };
        assert(t@.children =~= Seq::empty());
        t
    }

    /// Adds `tree` as the last child.
    pub fn _push(&mut self, tree: MTree)
        ensures
            final(self)@ == old(self)@.with_child(tree@),
            final(self).token == old(self).token,
            final(self).children@ == old(self).children@.push(tree),
    {
        self.children.push(tree);
        proof {
            lemma_view_unfold(*self);
            lemma_view_unfold(*old(self));
        }
        assert(self@.children =~= old(self)@.children.push(tree@));
    }

    /// The text that shows this node alone.
    pub fn node_string(&self) -> (s: String)
        ensures
            s@ == self@.code.text(),
    {
        self.token.text()
    }

    fn print_recursively(&self, indent: &String, out: &mut Vec<String>)
        ensures
            lines_view(final(out)@) == lines_view(old(out)@) + self@.lines(indent@),
        decreases self,
    {
        let mut line = indent.clone();
        let text = self.node_string();
        line.append(text.as_str());
        out.push(line);
        let mut deeper = indent.clone();
        deeper.append("  ");
        let ghost start = lines_view(out@);
        assert(start =~= lines_view(old(out)@) + seq![indent@ + self@.code.text()]);
        proof {
            lemma_view_unfold(*self);
        }
        let mut i: usize = 0;
        while i < self.children.len()
            invariant
                i <= self.children.len(),
                self@.children == views_of(self.children@),
                deeper@ == indent@ + "  "@,
                lines_view(out@) == start + Ast::lines_of(self@.children.take(i as int), deeper@),
            decreases self.children.len() - i,
        {
            let ghost before = lines_view(out@);
            self.children[i].print_recursively(&deeper, out);
            proof {
                let done = self@.children.take(i as int + 1);
                assert(done.drop_last() =~= self@.children.take(i as int));
                assert(done.last() == self.children@[i as int]@);
            }
            i += 1;
        }
        assert(self@.children.take(i as int) =~= self@.children);
    }

    /// The lines that show the whole tree: one node to a line in pre-order, a child two
    /// spaces deeper than its parent.
    pub fn print(&self) -> (lines: Vec<String>)
        ensures
            lines_view(lines@) == self@.lines(Seq::empty()),
    {
        let mut out: Vec<String> = Vec::new();
        let indent = String::new();
        assert(lines_view(out@) =~= Seq::empty());
        self.print_recursively(&indent, &mut out);
        out
    }
}

/// The characters of each string of a list.
pub open spec fn lines_view(lines: Seq<String>) -> Seq<Seq<char>> {
    lines.map_values(|l: String| l@)
}

} // verus!
