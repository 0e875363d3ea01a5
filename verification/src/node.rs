//! The syntax tree: what a successful match produces.
use crate::registry::{Kind, Registry};
use crate::text::same_text;
use vstd::prelude::*;

verus! {

/// The mathematical value of a [`Node`]: which rule produced it, under what
/// name, the text it covers, and its children in match order.
pub ghost struct Tree {
    pub type_id: usize,
    pub type_label: Seq<char>,
    pub content: Seq<char>,
    pub children: Seq<Tree>,
}

/// A node of the syntax tree. `content` borrows from the text that was
/// matched; the children are owned.
#[derive(Debug)]
pub struct Node<'a> {
    pub type_id: usize,
    pub type_label: String,
    pub content: &'a str,
    pub children: Vec<Node<'a>>,
}

impl<'a> View for Node<'a> {
    type V = Tree;

    open spec fn view(&self) -> Tree {
        tree_of(*self)
    }
}

/// The value of a node.
pub open spec fn tree_of<'a>(node: Node<'a>) -> Tree
    decreases node, 1int,
{
    Tree {
        type_id: node.type_id,
        type_label: node.type_label@,
        content: node.content@,
        children: trees_of(node.children@),
    }
}

/// The values of a list of nodes, in order.
pub open spec fn trees_of<'a>(nodes: Seq<Node<'a>>) -> Seq<Tree>
    decreases nodes, 0int,
{
    if nodes.len() == 0 {
        Seq::empty()
    } else {
        trees_of(nodes.drop_last()).push(tree_of(nodes.last()))
    }
}

/// The value of what a match returns: the tree of the node, if there is one.
pub open spec fn tree_of_result<'a>(result: Option<Node<'a>>) -> Option<Tree> {
    match result {
        Some(node) => Some(node@),
        None => None,
    }
}

/// `trees_of` keeps the length and works element by element.
pub proof fn lemma_trees_of<'a>(nodes: Seq<Node<'a>>)
    ensures
        trees_of(nodes).len() == nodes.len(),
        forall|i: int| 0 <= i < nodes.len() ==> (#[trigger] trees_of(nodes)[i]) == nodes[i]@,
    decreases nodes.len(),
{
    if nodes.len() > 0 {
        lemma_trees_of(nodes.drop_last());
    }
}

impl Tree {
    /// A tree without children.
    pub open spec fn leaf(content: Seq<char>, id: usize, label: Seq<char>) -> Tree {
        Tree { type_id: id, type_label: label, content, children: Seq::empty() }
    }

    /// The root over `inner`, for the given identifier of the root kind.
    pub open spec fn root_over(inner: Tree, root_id: usize) -> Tree {
        Tree {
            type_id: root_id,
            type_label: Kind::Root.label(),
            content: inner.content,
            children: seq![inner],
        }
    }

    /// Two trees cover the same text with children that, pairwise and in
    /// order, do so too. Identifiers and labels are not compared.
    pub open spec fn same_content(self, other: Tree) -> bool
        decreases self,
    {
        &&& self.content == other.content
        &&& self.children.len() == other.children.len()
        &&& forall|i: int|
            0 <= i < self.children.len() ==> (#[trigger] self.children[i]).same_content(
                other.children[i],
            )
    }

    /// The number of nodes in the tree.
    pub open spec fn size(self) -> nat
        decreases self,
    {
        1 + Tree::total_size(self.children)
    }

    /// The number of nodes in a list of trees.
    pub open spec fn total_size(trees: Seq<Tree>) -> nat
        decreases trees,
    {
        if trees.len() == 0 {
            0
        } else {
            trees.last().size() + Tree::total_size(trees.drop_last())
        }
    }
}

impl<'a> Node<'a> {
    /// The children of a node's value are the values of its children.
    pub proof fn lemma_view_children(&self)
        ensures
            self@.children == trees_of(self.children@),
            self@.children.len() == self.children@.len(),
    {
        lemma_trees_of(self.children@);
    }

    /// A childless node over `content`.
    pub fn new(content: &'a str, id: usize, name: &String) -> (node: Node<'a>)
        ensures
            node@ == Tree::leaf(content@, id, name@),
    {
        let node = Node { content, children: Vec::new(), type_id: id, type_label: name.clone() };
        node
    }

    /// A childless node over the empty text.
    pub fn new_empty(id: usize, name: &String) -> (node: Node<'a>)
        ensures
            node@ == Tree::leaf(Seq::empty(), id, name@),
    {
        let node = Node {
            content: "",
            children: Vec::new(),
            type_id: id,
            type_label: name.clone(),
        };
        proof {
            reveal_strlit("");
                assert(node@.content =~= Seq::empty());
        }
        node
    }

    /// A root over `node`: a node of the root kind with the content of
    /// `node` and `node` as its only child.
    pub fn new_as_root(node: Node<'a>, registry: &mut Registry) -> (root: Node<'a>)
        requires
            old(registry).wf(),
            old(registry).assigned(Kind::Root) is None ==> old(registry).has_room(),
        ensures
            final(registry).memoized(old(registry), Kind::Root, root@.type_id),
            root@ == Tree::root_over(node@, root@.type_id),
    {
        let id = registry.singleton_id(Kind::Root);
        let mut root = Node {
            content: node.content,
            children: Vec::new(),
            type_id: id,
            type_label: Kind::Root.default_name(),
        };
        root.add_child(node);
        root
    }

    /// A placeholder: an empty node of the unreachable kind.
    pub fn new_as_unreachable(registry: &mut Registry) -> (node: Node<'a>)
        requires
            old(registry).wf(),
            old(registry).assigned(Kind::Unreachable) is None ==> old(registry).has_room(),
        ensures
            final(registry).memoized(old(registry), Kind::Unreachable, node@.type_id),
            node@ == Tree::leaf(Seq::empty(), node@.type_id, Kind::Unreachable.label()),
    {
        let id = registry.singleton_id(Kind::Unreachable);
        let name = Kind::Unreachable.default_name();
        Node::new_empty(id, &name)
    }

    /// Appends `child` as the last child.
    pub fn add_child(&mut self, child: Node<'a>)
        ensures
            final(self)@ == (Tree { children: old(self)@.children.push(child@), ..old(self)@ }),
    {
        self.children.push(child);
        proof {
            assert(self.children@.drop_last() =~= old(self).children@);
        }
    }

    /// The children, in match order.
    pub fn children(&self) -> (children: &Vec<Node<'a>>)
        ensures
            trees_of(children@) == self@.children,
            *children == self.children,
    {
        proof {
            self.lemma_view_children();
        }
        &self.children
    }

    /// Whether two nodes cover the same text with the same shape below them.
    pub fn same_content(&self, other: &Node<'a>) -> (r: bool)
        ensures
            r == self@.same_content(other@),
        decreases self,
    {
        proof {
            lemma_trees_of(self.children@);
            lemma_trees_of(other.children@);
        }
        if !same_text(self.content, other.content) {
            return false;
        }
        if self.children.len() != other.children.len() {
            return false;
        }
        let mut i: usize = 0;
        while i < self.children.len()
            invariant
                i <= self.children.len(),
                self.children.len() == other.children.len(),
                self@.children == trees_of(self.children@),
                other@.children == trees_of(other.children@),
                trees_of(self.children@).len() == self.children.len(),
                trees_of(other.children@).len() == other.children.len(),
                forall|j: int|
                    0 <= j < self.children.len() ==> (#[trigger] trees_of(self.children@)[j])
                        == self.children@[j]@,
                forall|j: int|
                    0 <= j < self.children.len() ==> (#[trigger] trees_of(other.children@)[j])
                        == other.children@[j]@,
                forall|j: int|
                    0 <= j < i ==> (#[trigger] self@.children[j]).same_content(other@.children[j]),
            decreases self.children.len() - i,
        {
            if !self.children[i].same_content(&other.children[i]) {
                assert(!(self@.children[i as int]).same_content(other@.children[i as int]));
                return false;
            }
            i += 1;
        }
        true
    }
}

impl<'a> PartialEq for Node<'a> {
    fn eq(&self, other: &Self) -> (r: bool) {
        self.same_content(other)
    }
}

impl<'a> vstd::std_specs::cmp::PartialEqSpecImpl for Node<'a> {
    open spec fn obeys_eq_spec() -> bool {
        true
    }

    open spec fn eq_spec(&self, other: &Self) -> bool {
        self@.same_content(other@)
    }
}

} // verus!
