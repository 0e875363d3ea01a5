//! Pruning a syntax tree by type identifier.
//!
//! A filter allows or disallows each type identifier. Filtering keeps the
//! root, removes every node below it whose identifier is disallowed, and
//! puts the children of a removed node in its place, in order.
use crate::node::{lemma_trees_of, Node, Tree, trees_of};
use crate::registry::{Kind, Registry};
use vstd::prelude::*;

verus! {

/// A default policy and the identifiers that are exceptions to it.
pub struct Filter {
    pub allow_by_default: bool,
    pub exceptions: Vec<usize>,
}

/// Whether `id` occurs in `list`.
pub open spec fn listed(list: Seq<usize>, id: usize) -> bool {
    exists|i: int| 0 <= i < list.len() && list[i] == id
}

/// `list` without the occurrences of `id`.
pub open spec fn without(list: Seq<usize>, id: usize) -> Seq<usize>
    decreases list.len(),
{
    if list.len() == 0 {
        Seq::empty()
    } else if list.last() == id {
        without(list.drop_last(), id)
    } else {
        without(list.drop_last(), id).push(list.last())
    }
}

/// Whether a policy with the given exceptions allows `id`: under
/// deny-by-default the exceptions are the identifiers that are allowed,
/// under allow-by-default those that are not.
pub open spec fn allowed(allow_by_default: bool, exceptions: Seq<usize>, id: usize) -> bool {
    if allow_by_default {
        !listed(exceptions, id)
    } else {
        listed(exceptions, id)
    }
}

/// One pass over a list of trees: a tree that `keep` disallows is replaced
/// by its children, the others stay as they are.
pub open spec fn flattened(keep: spec_fn(usize) -> bool, trees: Seq<Tree>) -> Seq<Tree>
    decreases trees.len(),
{
    if trees.len() == 0 {
        Seq::empty()
    } else if keep(trees.last().type_id) {
        flattened(keep, trees.drop_last()).push(trees.last())
    } else {
        flattened(keep, trees.drop_last()) + trees.last().children
    }
}

/// Whether `keep` disallows one of the trees.
pub open spec fn any_disallowed(keep: spec_fn(usize) -> bool, trees: Seq<Tree>) -> bool {
    exists|i: int| 0 <= i < trees.len() && !keep(#[trigger] trees[i].type_id)
}

/// The list of trees after filtering: every tree that `keep` disallows is
/// replaced by what is left of its children, and every tree that stays has
/// its own children filtered in the same way.
pub open spec fn pruned(keep: spec_fn(usize) -> bool, trees: Seq<Tree>) -> Seq<Tree>
    decreases trees,
{
    if trees.len() == 0 {
        Seq::empty()
    } else if keep(trees.last().type_id) {
        pruned(keep, trees.drop_last()).push(
            Tree { children: pruned(keep, trees.last().children), ..trees.last() },
        )
    } else {
        pruned(keep, trees.drop_last()) + pruned(keep, trees.last().children)
    }
}

/// A tree that stays, with its children filtered.
pub open spec fn kept(keep: spec_fn(usize) -> bool, tree: Tree) -> Tree {
    Tree { children: pruned(keep, tree.children), ..tree }
}


/// The values of two lists of nodes put together.
pub proof fn lemma_trees_of_concat<'a>(a: Seq<Node<'a>>, b: Seq<Node<'a>>)
    ensures
        trees_of(a + b) == trees_of(a) + trees_of(b),
{
    lemma_trees_of(a);
    lemma_trees_of(b);
    lemma_trees_of(a + b);
    assert(trees_of(a + b) =~= trees_of(a) + trees_of(b));
}

/// One pass over two lists put together is the two passes put together.
pub proof fn lemma_flattened_concat(keep: spec_fn(usize) -> bool, a: Seq<Tree>, b: Seq<Tree>)
    ensures
        flattened(keep, a + b) == flattened(keep, a) + flattened(keep, b),
    decreases b.len(),
{
    if b.len() == 0 {
        assert(a + b =~= a);
        assert(flattened(keep, a) + flattened(keep, b) =~= flattened(keep, a));
    } else {
        assert((a + b).drop_last() =~= a + b.drop_last());
        assert((a + b).last() == b.last());
        lemma_flattened_concat(keep, a, b.drop_last());
        let front = flattened(keep, a);
        let middle = flattened(keep, b.drop_last());
        if keep(b.last().type_id) {
            assert((front + middle).push(b.last()) =~= front + middle.push(b.last()));
        } else {
            assert((front + middle) + b.last().children =~= front + (middle
                + b.last().children));
        }
    }
}

/// Filtering two lists put together is the two filtered lists put together.
pub proof fn lemma_pruned_concat(keep: spec_fn(usize) -> bool, a: Seq<Tree>, b: Seq<Tree>)
    ensures
        pruned(keep, a + b) == pruned(keep, a) + pruned(keep, b),
    decreases b.len(),
{
    if b.len() == 0 {
        assert(a + b =~= a);
        assert(pruned(keep, a) + pruned(keep, b) =~= pruned(keep, a));
    } else {
        assert((a + b).drop_last() =~= a + b.drop_last());
        assert((a + b).last() == b.last());
        lemma_pruned_concat(keep, a, b.drop_last());
        let front = pruned(keep, a);
        let middle = pruned(keep, b.drop_last());
        if keep(b.last().type_id) {
            let last = kept(keep, b.last());
            assert((front + middle).push(last) =~= front + middle.push(last));
        } else {
            let inner = pruned(keep, b.last().children);
            assert((front + middle) + inner =~= front + (middle + inner));
        }
    }
}

/// A pass of flattening does not change what filtering gives.
pub proof fn lemma_pruned_after_flattening(keep: spec_fn(usize) -> bool, trees: Seq<Tree>)
    ensures
        pruned(keep, flattened(keep, trees)) == pruned(keep, trees),
    decreases trees.len(),
{
    if trees.len() > 0 {
        let front = trees.drop_last();
        let last = trees.last();
        lemma_pruned_after_flattening(keep, front);
        if keep(last.type_id) {
            let flat = flattened(keep, front);
            assert(flat.push(last).drop_last() =~= flat);
        } else {
            lemma_pruned_concat(keep, flattened(keep, front), last.children);
        }
    }
}

/// Where nothing is disallowed, a pass of flattening changes nothing and
/// filtering keeps every tree, with its children filtered.
pub proof fn lemma_pruned_when_stable(keep: spec_fn(usize) -> bool, trees: Seq<Tree>)
    requires
        !any_disallowed(keep, trees),
    ensures
        flattened(keep, trees) == trees,
        pruned(keep, trees).len() == trees.len(),
        forall|i: int|
            0 <= i < trees.len() ==> (#[trigger] pruned(keep, trees)[i]) == kept(keep, trees[i]),
    decreases trees.len(),
{
    if trees.len() > 0 {
        let front = trees.drop_last();
        assert forall|i: int| 0 <= i < front.len() implies keep(#[trigger] front[i].type_id) by {
            assert(front[i] == trees[i]);
        }
        assert(keep(trees[trees.len() - 1].type_id));
        lemma_pruned_when_stable(keep, front);
        assert(front.push(trees.last()) =~= trees);
    }
}

/// The number of nodes in two lists put together.
pub proof fn lemma_total_size_concat(a: Seq<Tree>, b: Seq<Tree>)
    ensures
        Tree::total_size(a + b) == Tree::total_size(a) + Tree::total_size(b),
    decreases b.len(),
{
    if b.len() == 0 {
        assert(a + b =~= a);
    } else {
        assert((a + b).drop_last() =~= a + b.drop_last());
        assert((a + b).last() == b.last());
        lemma_total_size_concat(a, b.drop_last());
    }
}

/// A tree among others is no larger than all of them together.
pub proof fn lemma_total_size_bounds(trees: Seq<Tree>, i: int)
    requires
        0 <= i < trees.len(),
    ensures
        trees[i].size() <= Tree::total_size(trees),
    decreases trees.len(),
{
    if i < trees.len() - 1 {
        lemma_total_size_bounds(trees.drop_last(), i);
    }
}

/// A pass of flattening never adds nodes, and removes at least one where a
/// tree is disallowed.
pub proof fn lemma_flattened_shrinks(keep: spec_fn(usize) -> bool, trees: Seq<Tree>)
    ensures
        Tree::total_size(flattened(keep, trees)) <= Tree::total_size(trees),
        any_disallowed(keep, trees) ==> Tree::total_size(flattened(keep, trees))
            < Tree::total_size(trees),
    decreases trees.len(),
{
    if trees.len() > 0 {
        let front = trees.drop_last();
        let last = trees.last();
        lemma_flattened_shrinks(keep, front);
        let flat = flattened(keep, front);
        assert(Tree::total_size(trees) == Tree::total_size(front) + last.size());
        assert(last.size() == 1 + Tree::total_size(last.children));
        if keep(last.type_id) {
            assert(flat.push(last).drop_last() =~= flat);
            assert(flat.push(last).last() == last);
            assert(Tree::total_size(flat.push(last)) == Tree::total_size(flat) + last.size());
            if any_disallowed(keep, trees) {
                let i = choose|i: int| 0 <= i < trees.len() && !keep(#[trigger] trees[i].type_id);
                assert(front[i] == trees[i]);
            }
        } else {
            lemma_total_size_concat(flat, last.children);
        }
    }
}

/// Whether the policy `keep` allows `id`.
pub open spec fn permits(keep: spec_fn(usize) -> bool, id: usize) -> bool {
    keep(id)
}

/// Whether `keep` allows every node of the trees, at every depth.
pub open spec fn all_allowed(keep: spec_fn(usize) -> bool, trees: Seq<Tree>) -> bool
    decreases trees,
{
    trees.len() > 0 ==> {
        &&& all_allowed(keep, trees.drop_last())
        &&& keep(trees.last().type_id)
        &&& all_allowed(keep, trees.last().children)
    }
}

/// Two lists whose nodes are all allowed stay so when put together.
pub proof fn lemma_all_allowed_concat(keep: spec_fn(usize) -> bool, a: Seq<Tree>, b: Seq<Tree>)
    requires
        all_allowed(keep, a),
        all_allowed(keep, b),
    ensures
        all_allowed(keep, a + b),
    decreases b.len(),
{
    if b.len() == 0 {
        assert(a + b =~= a);
    } else {
        assert((a + b).drop_last() =~= a + b.drop_last());
        assert((a + b).last() == b.last());
        lemma_all_allowed_concat(keep, a, b.drop_last());
    }
}

/// After filtering, every node that is left below the root is allowed.
pub proof fn lemma_pruned_all_allowed(keep: spec_fn(usize) -> bool, trees: Seq<Tree>)
    ensures
        all_allowed(keep, pruned(keep, trees)),
    decreases trees,
{
    if trees.len() > 0 {
        let front = pruned(keep, trees.drop_last());
        let inner = pruned(keep, trees.last().children);
        lemma_pruned_all_allowed(keep, trees.drop_last());
        lemma_pruned_all_allowed(keep, trees.last().children);
        if keep(trees.last().type_id) {
            let last = kept(keep, trees.last());
            assert(front.push(last).drop_last() =~= front);
            assert(front.push(last).last() == last);
        } else {
            lemma_all_allowed_concat(keep, front, inner);
        }
    }
}

/// A policy that allows every identifier leaves every list of trees as it
/// is.
pub proof fn lemma_pruned_keeps_all(keep: spec_fn(usize) -> bool, trees: Seq<Tree>)
    requires
        forall|id: usize| #[trigger] permits(keep, id),
    ensures
        pruned(keep, trees) == trees,
    decreases trees,
{
    if trees.len() > 0 {
        assert(permits(keep, trees.last().type_id));
        lemma_pruned_keeps_all(keep, trees.drop_last());
        lemma_pruned_keeps_all(keep, trees.last().children);
        assert(trees.drop_last().push(trees.last()) =~= trees);
    }
}

/// A policy that allows no identifier leaves nothing of a list of trees.
pub proof fn lemma_pruned_keeps_none(keep: spec_fn(usize) -> bool, trees: Seq<Tree>)
    requires
        forall|id: usize| !#[trigger] permits(keep, id),
    ensures
        pruned(keep, trees) == Seq::<Tree>::empty(),
    decreases trees,
{
    if trees.len() > 0 {
        assert(!permits(keep, trees.last().type_id));
        lemma_pruned_keeps_none(keep, trees.drop_last());
        lemma_pruned_keeps_none(keep, trees.last().children);
        assert(Seq::<Tree>::empty() + Seq::<Tree>::empty() =~= Seq::<Tree>::empty());
    }
}

/// Filtering with a filter that allows by default and has no exceptions
/// changes nothing below the root.
pub proof fn lemma_permissive_filter_is_identity(filter: Filter, tree: Tree)
    requires
        filter.allow_by_default,
        filter.exceptions@.len() == 0,
    ensures
        kept(filter.policy(), tree) == tree,
{
    lemma_pruned_keeps_all(filter.policy(), tree.children);
}

/// Filtering with a filter that denies by default and has no exceptions
/// leaves the root without children.
pub proof fn lemma_empty_allowlist_keeps_root_only(filter: Filter, tree: Tree)
    requires
        !filter.allow_by_default,
        filter.exceptions@.len() == 0,
    ensures
        kept(filter.policy(), tree) == (Tree { children: Seq::empty(), ..tree }),
{
    lemma_pruned_keeps_none(filter.policy(), tree.children);
}

impl Filter {
    /// The policy as a predicate on identifiers.
    pub open spec fn policy(&self) -> spec_fn(usize) -> bool {
        |id: usize| allowed(self.allow_by_default, self.exceptions@, id)
    }

    /// A filter without exceptions.
    pub fn new(allow_by_default: bool) -> (filter: Filter)
        ensures
            filter.allow_by_default == allow_by_default,
            filter.exceptions@ == Seq::<usize>::empty(),
    {
        Filter { allow_by_default, exceptions: Vec::new() }
    }

    /// A filter with the given exceptions.
    pub fn new_with_list(allow_by_default: bool, exceptions: Vec<usize>) -> (filter: Filter)
        ensures
            filter.allow_by_default == allow_by_default,
            filter.exceptions == exceptions,
    {
        Filter { allow_by_default, exceptions }
    }

    /// Makes `filter` an exception.
    pub fn add_filter(&mut self, filter: usize)
        ensures
            final(self).allow_by_default == old(self).allow_by_default,
            final(self).exceptions@ == old(self).exceptions@.push(filter),
    {
        self.exceptions.push(filter);
    }

    /// Makes `filter` no exception any more.
    pub fn remove_filter(&mut self, filter: usize)
        ensures
            final(self).allow_by_default == old(self).allow_by_default,
            final(self).exceptions@ == without(old(self).exceptions@, filter),
    {
        let mut rest: Vec<usize> = Vec::new();
        let mut i: usize = 0;
        while i < self.exceptions.len()
            invariant
                i <= self.exceptions.len(),
                self.exceptions == old(self).exceptions,
                self.allow_by_default == old(self).allow_by_default,
                rest@ == without(self.exceptions@.take(i as int), filter),
            decreases self.exceptions.len() - i,
        {
            let x = self.exceptions[i];
            proof {
                assert(self.exceptions@.take(i + 1).drop_last() =~= self.exceptions@.take(
                    i as int,
                ));
            }
            if x != filter {
                rest.push(x);
            }
            i += 1;
        }
        proof {
            assert(self.exceptions@.take(i as int) =~= self.exceptions@);
        }
        self.exceptions = rest;
    }

    /// Whether the filter allows `filter`.
    pub fn is_allowed(&self, filter: usize) -> (yes: bool)
        ensures
            yes == allowed(self.allow_by_default, self.exceptions@, filter),
            yes == (self.policy())(filter),
    {
        let mut found = false;
        let mut i: usize = 0;
        while i < self.exceptions.len()
            invariant
                i <= self.exceptions.len(),
                found == listed(self.exceptions@.take(i as int), filter),
            decreases self.exceptions.len() - i,
        {
            proof {
                let before = self.exceptions@.take(i as int);
                let now = self.exceptions@.take(i + 1);
                assert(now[i as int] == self.exceptions@[i as int]);
                assert forall|j: int| 0 <= j < before.len() implies now[j] == before[j] by {}
                if listed(now, filter) && !listed(before, filter) {
                    let j = choose|j: int| 0 <= j < now.len() && now[j] == filter;
                    assert(j == i);
                }
                if listed(before, filter) {
                    let j = choose|j: int| 0 <= j < before.len() && before[j] == filter;
                    assert(now[j] == filter);
                }
            }
            if self.exceptions[i] == filter {
                found = true;
            }
            i += 1;
        }
        proof {
            assert(self.exceptions@.take(i as int) =~= self.exceptions@);
        }
        if !self.allow_by_default {
            found
        } else {
            !found
        }
    }
    /// Filters `ast`. A tree whose top node is not of the root kind is first
    /// put under a root. The root stays; below it every node that the
    /// filter disallows is replaced by its children, in order.
    pub fn filter_ast<'a>(&self, ast: Node<'a>, registry: &mut Registry) -> (root: Node<'a>)
        requires
            old(registry).wf(),
            old(registry).assigned(Kind::Root) is None ==> old(registry).has_room(),
        ensures
            final(registry).memoized(old(registry), Kind::Root, root@.type_id),
            root@ == kept(
                self.policy(),
                if ast@.type_id == root@.type_id {
                    ast@
                } else {
                    Tree::root_over(ast@, root@.type_id)
                },
            ),
    {
        let ghost start = *registry;
        let root_id = registry.singleton_id(Kind::Root);
        let ghost middle = *registry;
        let is_root = ast.type_id == root_id;
        let mut root = if is_root {
            ast
        } else {
            Node::new_as_root(ast, registry)
        };
        proof {
            registry.lemma_extends_further(&middle, &start);
        }
        self.filter_node(&mut root);
        root
    }

    /// Filters everything below `node`.
    pub fn filter_node<'a>(&self, node: &mut Node<'a>)
        ensures
            final(node)@ == kept(self.policy(), old(node)@),
        decreases old(node)@.size(),
    {
        let ghost keep = self.policy();
        let ghost start = node@;
        loop
            invariant
                keep == self.policy(),
                start == old(node)@,
                node@ == (Tree { children: node@.children, ..start }),
                pruned(keep, node@.children) == pruned(keep, start.children),
                Tree::total_size(node@.children) <= Tree::total_size(start.children),
            ensures
                !any_disallowed(keep, node@.children),
            decreases Tree::total_size(node@.children),
        {
            let ghost current = node@.children;
            proof {
                lemma_pruned_after_flattening(keep, current);
                lemma_flattened_shrinks(keep, current);
            }
            if !self.filter_node_children(node) {
                proof {
                    lemma_pruned_when_stable(keep, current);
                }
                break ;
            }
        }
        let ghost stable = node@.children;
        proof {
            lemma_pruned_when_stable(keep, stable);
            node.lemma_view_children();
            lemma_trees_of(node.children@);
        }
        let mut i: usize = 0;
        while i < node.children.len()
            invariant
                i <= node.children.len(),
                keep == self.policy(),
                start == old(node)@,
                node@ == (Tree { children: node@.children, ..start }),
                node.children@.len() == stable.len(),
                Tree::total_size(stable) <= Tree::total_size(start.children),
                forall|j: int|
                    0 <= j < i ==> (#[trigger] node.children@[j])@ == kept(keep, stable[j]),
                forall|j: int|
                    i <= j < stable.len() ==> (#[trigger] node.children@[j])@ == stable[j],
            decreases node.children.len() - i,
        {
            proof {
                lemma_total_size_bounds(stable, i as int);
            }
            self.filter_node(&mut node.children[i]);
            i += 1;
        }
        proof {
            node.lemma_view_children();
            lemma_trees_of(node.children@);
            assert(node@.children =~= pruned(keep, stable));
        }
    }

    /// One pass over the children of `node`: each child that the filter
    /// disallows is replaced by its own children. Reports whether there was
    /// such a child.
    pub fn filter_node_children<'a>(&self, node: &mut Node<'a>) -> (did_extract: bool)
        ensures
            did_extract == any_disallowed(self.policy(), old(node)@.children),
            final(node)@ == (Tree {
                children: flattened(self.policy(), old(node)@.children),
                ..old(node)@
            }),
    {
        let ghost keep = self.policy();
        let mut rest: Vec<Node<'a>> = Vec::new();
        core::mem::swap(&mut node.children, &mut rest);
        let ghost before = trees_of(rest@);
        proof {
            old(node).lemma_view_children();
            lemma_trees_of(rest@);
        }
        let mut new_children: Vec<Node<'a>> = Vec::new();
        let mut did_extract = false;
        for child in it: rest
            invariant
                keep == self.policy(),
                it.seq() == rest@,
                before == trees_of(rest@),
                before.len() == rest@.len(),
                forall|j: int| 0 <= j < rest@.len() ==> (#[trigger] before[j]) == rest@[j]@,
                trees_of(new_children@) == flattened(keep, before.take(it.index() as int)),
                did_extract == any_disallowed(keep, before.take(it.index() as int)),
        {
            let ghost done = before.take(it.index() as int);
            let ghost next = before.take(it.index() + 1);
            let ghost built = new_children@;
            proof {
                assert(next.drop_last() =~= done);
                assert(next.last() == child@);
                if any_disallowed(keep, done) {
                    let j = choose|j: int| 0 <= j < done.len() && !keep(#[trigger] done[j].type_id);
                    assert(next[j] == done[j]);
                }
                if any_disallowed(keep, next) && keep(child@.type_id) {
                    let j = choose|j: int| 0 <= j < next.len() && !keep(#[trigger] next[j].type_id);
                    assert(done[j] == next[j]);
                }
                if !keep(child@.type_id) {
                    assert(!keep(next[it.index() as int].type_id));
                }
            }
            if !self.is_allowed(child.type_id) {
                let mut child = child;
                proof {
                    child.lemma_view_children();
                    lemma_trees_of_concat(built, child.children@);
                }
                new_children = self.extract_children(&mut child, new_children);
                did_extract = true;
            } else {
                new_children.push(child);
                proof {
                    assert(new_children@.drop_last() =~= built);
                }
            }
        }
        proof {
            assert(before.take(rest@.len() as int) =~= before);
        }
        node.children = new_children;
        proof {
            node.lemma_view_children();
        }
        did_extract
    }

    /// Moves the children of `node` to the end of `vec`.
    pub fn extract_children<'a>(&self, node: &mut Node<'a>, vec: Vec<Node<'a>>) -> (all: Vec<
        Node<'a>,
    >)
        ensures
            all@ == vec@ + old(node).children@,
            final(node).children@.len() == 0,
            final(node).type_id == old(node).type_id,
            final(node).type_label == old(node).type_label,
            final(node).content == old(node).content,
    {
        let mut vec = vec;
        let mut children: Vec<Node<'a>> = Vec::new();
        core::mem::swap(&mut node.children, &mut children);
        vec.append(&mut children);
        vec
    }
}

} // verus!
