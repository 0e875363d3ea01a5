//! The tree as a graph description in the DOT language: one line for each
//! node, numbered from zero in the order in which a walk from the root
//! meets them, and one line for each edge from a node to a child.
use crate::node::{lemma_trees_of, Node, Tree};
use crate::text::{char_len, head};
use vstd::prelude::*;
use vstd::string::StringExecFns;

verus! {

/// The numeral of a number below ten.
pub open spec fn digit(d: nat) -> Seq<char> {
    if d == 0 {
        "0"@
    } else if d == 1 {
        "1"@
    } else if d == 2 {
        "2"@
    } else if d == 3 {
        "3"@
    } else if d == 4 {
        "4"@
    } else if d == 5 {
        "5"@
    } else if d == 6 {
        "6"@
    } else if d == 7 {
        "7"@
    } else if d == 8 {
        "8"@
    } else {
        "9"@
    }
}

/// The decimal numeral of `n`.
pub open spec fn decimal(n: nat) -> Seq<char>
    decreases n,
{
    if n < 10 {
        digit(n)
    } else {
        decimal(n / 10) + digit(n % 10)
    }
}

/// What is shown of a content: all of it up to ten characters, else the
/// first ten followed by three dots.
pub open spec fn preview(content: Seq<char>) -> Seq<char> {
    if content.len() > 10 {
        content.subrange(0, 10) + "..."@
    } else {
        content
    }
}

/// The line that declares the node of number `id`, labelled with the name
/// of the tree and, in quotes, the preview of its content.
pub open spec fn node_line(tree: Tree, id: nat) -> Seq<char> {
    decimal(id) + " [label=\""@ + tree.type_label + "\\n\\\""@ + preview(tree.content)
        + "\\\"\"];\n"@
}

/// The line that declares the edge between two nodes.
pub open spec fn edge_line(from: nat, to: nat) -> Seq<char> {
    decimal(from) + " -> "@ + decimal(to) + ";\n"@
}

/// The lines of a tree whose top node has the number `id`. Its nodes take
/// the numbers from `id` on, as many as it has nodes.
pub open spec fn dot_of(tree: Tree, id: nat) -> Seq<char>
    decreases tree, 1int,
{
    node_line(tree, id) + dot_of_children(tree.children, id, id + 1)
}

/// The lines of the children of the node of number `parent`, where the
/// first child takes the number `next`: for each child the edge to it,
/// then its own lines.
pub open spec fn dot_of_children(children: Seq<Tree>, parent: nat, next: nat) -> Seq<char>
    decreases children, 0int,
{
    if children.len() == 0 {
        Seq::empty()
    } else {
        let number = next + Tree::total_size(children.drop_last());
        dot_of_children(children.drop_last(), parent, next) + edge_line(parent, number) + dot_of(
            children.last(),
            number,
        )
    }
}

/// The whole description of a tree.
pub open spec fn dot_graph(tree: Tree) -> Seq<char> {
    "digraph G {\n"@ + dot_of(tree, 0) + "}\n"@
}

fn digit_text(d: usize) -> (text: &'static str)
    requires
        d < 10,
    ensures
        text@ == digit(d as nat),
{
    if d == 0 {
        "0"
    } else if d == 1 {
        "1"
    } else if d == 2 {
        "2"
    } else if d == 3 {
        "3"
    } else if d == 4 {
        "4"
    } else if d == 5 {
        "5"
    } else if d == 6 {
        "6"
    } else if d == 7 {
        "7"
    } else if d == 8 {
        "8"
    } else {
        "9"
    }
}

/// The decimal numeral of `n`.
pub fn decimal_text(n: usize) -> (text: String)
    ensures
        text@ == decimal(n as nat),
    decreases n,
{
    if n < 10 {
        digit_text(n).to_owned()
    } else {
        let mut text = decimal_text(n / 10);
        text.append(digit_text(n % 10));
        text
    }
}

/// What is shown of `content` in a label.
pub fn preview_text(content: &str) -> (text: String)
    ensures
        text@ == preview(content@),
{
    if char_len(content) > 10 {
        let mut text = head(content, 10).to_owned();
        text.append("...");
        text
    } else {
        content.to_owned()
    }
}

impl<'a> Node<'a> {
    /// The lines of this node and of everything below it, numbered from
    /// `id` on; `id` is moved past the numbers that were used.
    pub fn to_dot_private(&self, id: &mut usize) -> (text: String)
        requires
            *old(id) + self@.size() <= usize::MAX,
        ensures
            text@ == dot_of(self@, *old(id) as nat),
            *final(id) == *old(id) + self@.size(),
        decreases self,
    {
        let content_preview = preview_text(self.content);
        let mut result = decimal_text(*id);
        result.append(" [label=\"");
        result.append(self.type_label.as_str());
        result.append("\\n\\\"");
        result.append(content_preview.as_str());
        result.append("\\\"\"];\n");
        let my_id = *id;
        proof {
            self.lemma_view_children();
            lemma_trees_of(self.children@);
            assert(self@.children.take(0) =~= Seq::<Tree>::empty());
            assert(result@ + Seq::<char>::empty() =~= result@);
            assert(self@.size() == 1 + Tree::total_size(self@.children));
        }
        *id = *id + 1;
        let mut i: usize = 0;
        while i < self.children.len()
            invariant
                i <= self.children.len(),
                self@.children.len() == self.children@.len(),
                forall|j: int|
                    0 <= j < self.children@.len() ==> (#[trigger] self@.children[j])
                        == self.children@[j]@,
                my_id + 1 + Tree::total_size(self@.children) <= usize::MAX,
                *id == my_id + 1 + Tree::total_size(self@.children.take(i as int)),
                result@ == node_line(self@, my_id as nat) + dot_of_children(
                    self@.children.take(i as int),
                    my_id as nat,
                    (my_id + 1) as nat,
                ),
            decreases self.children.len() - i,
        {
            let ghost done = self@.children.take(i as int);
            let ghost next = self@.children.take(i + 1);
            let ghost before = result@;
            proof {
                assert(next.drop_last() =~= done);
                assert(next.last() == self.children@[i as int]@);
                assert(Tree::total_size(next) == Tree::total_size(done) + next.last().size());
                lemma_total_size_take(self@.children, i + 1);
            }
            result.append(decimal_text(my_id).as_str());
            result.append(" -> ");
            result.append(decimal_text(*id).as_str());
            result.append(";\n");
            let below = self.children[i].to_dot_private(id);
            result.append(below.as_str());
            proof {
                let edge = edge_line(my_id as nat, (my_id + 1 + Tree::total_size(done)) as nat);
                let sub = dot_of(next.last(), (my_id + 1 + Tree::total_size(done)) as nat);
                let head_line = node_line(self@, my_id as nat);
                let front = dot_of_children(done, my_id as nat, (my_id + 1) as nat);
                assert(result@ =~= head_line + (front + edge + sub));
            }
            i += 1;
        }
        proof {
            assert(self@.children.take(i as int) =~= self@.children);
        }
        result
    }

    /// The tree as a graph description in the DOT language.
    pub fn to_dot(&self) -> (text: String)
        requires
            self@.size() <= usize::MAX,
        ensures
            text@ == dot_graph(self@),
    {
        let mut id: usize = 0;
        let mut result = "digraph G {\n".to_owned();
        let below = self.to_dot_private(&mut id);
        result.append(below.as_str());
        result.append("}\n");
        result
    }
}

/// The first trees of a list have no more nodes than the whole list.
pub proof fn lemma_total_size_take(trees: Seq<Tree>, n: int)
    requires
        0 <= n <= trees.len(),
    ensures
        Tree::total_size(trees.take(n)) <= Tree::total_size(trees),
    decreases trees.len(),
{
    if n < trees.len() {
        assert(trees.drop_last().take(n) =~= trees.take(n));
        lemma_total_size_take(trees.drop_last(), n);
    } else {
        assert(trees.take(n) =~= trees);
    }
}

} // verus!
