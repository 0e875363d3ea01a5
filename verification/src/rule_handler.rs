//! Hooks: callbacks that are run around the matching of each rule, keyed by
//! the type identifier of the rule.
use crate::node::{Node, Tree};
use std::collections::HashMap;
use vstd::prelude::*;

verus! {

/// A callback that is told that something happened.
pub trait Notify {
    /// Runs the callback.
    fn notify(&self);
}

/// A callback on a node that a rule has just built. It may change the node
/// in any way; `effect` says what it does.
pub trait Rewrite<'a> {
    /// What the callback makes of a tree.
    spec fn effect(&self, tree: Tree) -> Tree;

    /// Runs the callback on `node`.
    fn rewrite(&self, node: &mut Node<'a>)
        ensures
            final(node)@ == self.effect(old(node)@),
    ;
}

/// The success callback that replaces the content of the node.
pub struct SetContent<'a> {
    pub content: &'a str,
}

impl<'a> Rewrite<'a> for SetContent<'a> {
    open spec fn effect(&self, tree: Tree) -> Tree {
        Tree { content: self.content@, ..tree }
    }

    fn rewrite(&self, node: &mut Node<'a>) {
        node.content = self.content;
    }
}

/// The success callback that replaces the type identifier of the node.
pub struct SetTypeId {
    pub type_id: usize,
}

impl<'a> Rewrite<'a> for SetTypeId {
    open spec fn effect(&self, tree: Tree) -> Tree {
        Tree { type_id: self.type_id, ..tree }
    }

    fn rewrite(&self, node: &mut Node<'a>) {
        node.type_id = self.type_id;
    }
}

/// What a list of success callbacks, run in order, makes of a tree.
pub open spec fn rewritten_by<'a>(hooks: Seq<Box<dyn Rewrite<'a> + 'a>>, tree: Tree) -> Tree
    decreases hooks.len(),
{
    if hooks.len() == 0 {
        tree
    } else {
        rewritten_by(hooks.drop_first(), hooks[0].effect(tree))
    }
}

/// Callbacks that all leave `tree` as it is leave it so when run in a row.
pub proof fn lemma_rewritten_by_idle<'a>(hooks: Seq<Box<dyn Rewrite<'a> + 'a>>, tree: Tree)
    requires
        forall|i: int| 0 <= i < hooks.len() ==> (#[trigger] hooks[i]).effect(tree) == tree,
    ensures
        rewritten_by(hooks, tree) == tree,
    decreases hooks.len(),
{
    if hooks.len() > 0 {
        let rest = hooks.drop_first();
        assert(hooks[0].effect(tree) == tree);
        assert forall|i: int| 0 <= i < rest.len() implies (#[trigger] rest[i]).effect(tree)
            == tree by {
            assert(rest[i] == hooks[i + 1]);
        }
        lemma_rewritten_by_idle(rest, tree);
    }
}

/// The callbacks, by type identifier and in the order of registration.
pub struct Handler<'a> {
    pre_parse_map: HashMap<usize, Vec<Box<dyn Notify + 'a>>>,
    success_map: HashMap<usize, Vec<Box<dyn Rewrite<'a> + 'a>>>,
    failure_map: HashMap<usize, Vec<Box<dyn Notify + 'a>>>,
}

impl<'a> Handler<'a> {
    /// The success callbacks registered for `id`, in order.
    pub closed spec fn success_hooks(&self, id: usize) -> Seq<Box<dyn Rewrite<'a> + 'a>> {
        if self.success_map@.contains_key(id) {
            self.success_map@[id]@
        } else {
            Seq::empty()
        }
    }

    /// The callbacks registered for `id` to run before a match, in order.
    pub closed spec fn pre_parse_hooks(&self, id: usize) -> Seq<Box<dyn Notify + 'a>> {
        if self.pre_parse_map@.contains_key(id) {
            self.pre_parse_map@[id]@
        } else {
            Seq::empty()
        }
    }

    /// The callbacks registered for `id` to run after a failure, in order.
    pub closed spec fn failure_hooks(&self, id: usize) -> Seq<Box<dyn Notify + 'a>> {
        if self.failure_map@.contains_key(id) {
            self.failure_map@[id]@
        } else {
            Seq::empty()
        }
    }

    /// What the success callbacks make of a tree: those registered for the
    /// identifier that the tree has when they start, run in order.
    pub open spec fn rewritten(&self, tree: Tree) -> Tree {
        rewritten_by(self.success_hooks(tree.type_id), tree)
    }

    /// The effect of the success callbacks, as a function.
    pub open spec fn post(&self) -> spec_fn(Tree) -> Tree {
        |tree: Tree| self.rewritten(tree)
    }

    /// No success callback changes any tree.
    pub open spec fn transparent(&self) -> bool {
        forall|id: usize, i: int, tree: Tree|
            0 <= i < self.success_hooks(id).len() ==> (#[trigger] self.success_hooks(
                id,
            )[i].effect(tree)) == tree
    }

    /// The success callbacks of a transparent handler have the effect of no
    /// callback at all.
    pub proof fn lemma_transparent_post(&self)
        requires
            self.transparent(),
        ensures
            self.post() == crate::rule::semantics::untouched(),
    {
        assert forall|tree: Tree| #[trigger] self.rewritten(tree) == tree by {
            lemma_rewritten_by_idle(self.success_hooks(tree.type_id), tree);
        }
        assert(self.post() =~= crate::rule::semantics::untouched());
    }

    /// A handler without callbacks.
    pub fn new() -> (handler: Handler<'a>)
        ensures
            forall|id: usize|
                handler.success_hooks(id) == Seq::<Box<dyn Rewrite<'a> + 'a>>::empty(),
            forall|id: usize| handler.pre_parse_hooks(id) == Seq::<Box<dyn Notify + 'a>>::empty(),
            forall|id: usize| handler.failure_hooks(id) == Seq::<Box<dyn Notify + 'a>>::empty(),
    {
        Handler {
            success_map: HashMap::new(),
            failure_map: HashMap::new(),
            pre_parse_map: HashMap::new(),
        }
    }

    /// Registers `handler` to run on the nodes of type `id`, after the
    /// callbacks registered before.
    pub fn add_success_handler(&mut self, id: usize, handler: Box<dyn Rewrite<'a> + 'a>)
        ensures
            final(self).success_hooks(id) == old(self).success_hooks(id).push(handler),
            forall|other: usize|
                other != id ==> final(self).success_hooks(other) == old(self).success_hooks(other),
            forall|any: usize| final(self).pre_parse_hooks(any) == old(self).pre_parse_hooks(any),
            forall|any: usize| final(self).failure_hooks(any) == old(self).failure_hooks(any),
    {
        match self.success_map.remove(&id) {
            Some(list) => {
                let mut list = list;
                list.push(handler);
                self.success_map.insert(id, list);
            },
            None => {
                let mut list: Vec<Box<dyn Rewrite<'a> + 'a>> = Vec::new();
                list.push(handler);
                self.success_map.insert(id, list);
                proof {
                    assert(list@ =~= Seq::<Box<dyn Rewrite<'a> + 'a>>::empty().push(handler));
                }
            },
        }
    }

    /// Registers `handler` to run whenever a rule of type `id` has failed,
    /// after the callbacks registered before.
    pub fn add_failure_handler(&mut self, id: usize, handler: Box<dyn Notify + 'a>)
        ensures
            final(self).failure_hooks(id) == old(self).failure_hooks(id).push(handler),
            forall|other: usize|
                other != id ==> final(self).failure_hooks(other) == old(self).failure_hooks(other),
            forall|any: usize| final(self).pre_parse_hooks(any) == old(self).pre_parse_hooks(any),
            forall|any: usize| final(self).success_hooks(any) == old(self).success_hooks(any),
    {
        match self.failure_map.remove(&id) {
            Some(list) => {
                let mut list = list;
                list.push(handler);
                self.failure_map.insert(id, list);
            },
            None => {
                let mut list: Vec<Box<dyn Notify + 'a>> = Vec::new();
                list.push(handler);
                self.failure_map.insert(id, list);
            },
        }
    }

    /// Registers `handler` to run whenever a rule of type `id` is about to
    /// be tried, after the callbacks registered before.
    pub fn add_pre_parse_handler(&mut self, id: usize, handler: Box<dyn Notify + 'a>)
        ensures
            final(self).pre_parse_hooks(id) == old(self).pre_parse_hooks(id).push(handler),
            forall|other: usize|
                other != id ==> final(self).pre_parse_hooks(other) == old(self).pre_parse_hooks(
                    other,
                ),
            forall|any: usize| final(self).failure_hooks(any) == old(self).failure_hooks(any),
            forall|any: usize| final(self).success_hooks(any) == old(self).success_hooks(any),
    {
        match self.pre_parse_map.remove(&id) {
            Some(list) => {
                let mut list = list;
                list.push(handler);
                self.pre_parse_map.insert(id, list);
            },
            None => {
                let mut list: Vec<Box<dyn Notify + 'a>> = Vec::new();
                list.push(handler);
                self.pre_parse_map.insert(id, list);
            },
        }
    }

    /// Runs the callbacks registered for failures of type `type_id`, in the
    /// order of registration.
    pub fn handle_failure(&self, type_id: usize) {
        match self.failure_map.get(&type_id) {
            Some(list) => {
                let mut i: usize = 0;
                while i < list.len()
                    invariant
                        i <= list.len(),
                    decreases list.len() - i,
                {
                    list[i].notify();
                    i += 1;
                }
            },
            None => {},
        }
    }

    /// Runs the callbacks registered for attempts of type `type_id`, in the
    /// order of registration.
    pub fn handle_pre_parse(&self, type_id: usize) {
        match self.pre_parse_map.get(&type_id) {
            Some(list) => {
                let mut i: usize = 0;
                while i < list.len()
                    invariant
                        i <= list.len(),
                    decreases list.len() - i,
                {
                    list[i].notify();
                    i += 1;
                }
            },
            None => {},
        }
    }

    /// Runs the success callbacks registered for the type of `node`, in the
    /// order of registration.
    pub fn handle_success(&self, node: &mut Node<'a>)
        ensures
            final(node)@ == self.rewritten(old(node)@),
    {
        match self.success_map.get(&node.type_id) {
            Some(list) => {
                proof {
                    assert(list@.skip(0) =~= list@);
                }
                let mut i: usize = 0;
                while i < list.len()
                    invariant
                        i <= list.len(),
                        rewritten_by(list@.skip(i as int), node@) == rewritten_by(
                            list@,
                            old(node)@,
                        ),
                    decreases list.len() - i,
                {
                    proof {
                        assert(list@.skip(i as int).drop_first() =~= list@.skip(i as int + 1));
                    }
                    list[i].rewrite(node);
                    i += 1;
                }
            },
            None => {},
        }
    }
}

} // verus!
