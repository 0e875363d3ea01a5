//! The rule that matches one character out of a list of ranges.
use crate::node::{Node, Tree, tree_of_result};
use crate::registry::{Kind, Registry};
use crate::rule_handler::Handler;
use crate::text::head;
use super::{Arena, Matcher, Parsable, Ranges, Rule};
use super::fuel::{lemma_body_run_defined, lemma_body_unfold};
use super::model::{Body, RuleModel};
use super::semantics::{in_range, in_ranges, untouched};
use vstd::prelude::*;

verus! {

impl Ranges {
    /// What the matcher gives on `text`: a leaf over the first character if
    /// it lies in one of the ranges.
    pub open spec fn matched(&self, text: Seq<char>, id: usize, name: Seq<char>) -> Option<Tree> {
        if text.len() > 0 && in_ranges(self.ranges@, text[0]) {
            Some(Tree::leaf(text.subrange(0, 1), id, name))
        } else {
            None
        }
    }

    /// Whether `c` lies in one of the ranges.
    pub fn contains(&self, c: char) -> (found: bool)
        ensures
            found == in_ranges(self.ranges@, c),
    {
        let mut i: usize = 0;
        while i < self.ranges.len()
            invariant
                i <= self.ranges.len(),
                forall|j: int| 0 <= j < i ==> !in_range(#[trigger] self.ranges@[j], c),
            decreases self.ranges.len() - i,
        {
            let (low, high) = self.ranges[i];
            if low as u32 <= c as u32 && c as u32 <= high as u32 {
                assert(in_range(self.ranges@[i as int], c));
                return true;
            }
            i += 1;
        }
        false
    }

    /// An unnamed rule that matches one character out of `ranges`.
    pub fn rule(ranges: Vec<(char, char)>, registry: &mut Registry) -> (rule: Rule)
        requires
            old(registry).wf(),
            old(registry).assigned(Kind::Ranges) is None ==> old(registry).has_room(),
        ensures
            rule@ == (RuleModel {
                body: Body::Ranges(ranges@),
                id: rule.id,
                name: Kind::Ranges.label(),
            }),
            final(registry).memoized(old(registry), Kind::Ranges, rule.id),
    {
        let id = registry.singleton_id(Kind::Ranges);
        Rule::new(Box::new(Matcher::Ranges(Ranges { ranges })), id, Kind::Ranges.default_name())
    }
}

impl Parsable for Ranges {
    /// The matcher as a value.
    open spec fn body(&self) -> Body {
        Body::Ranges(self.ranges@)
    }

    /// Succeeds if and only if the first character of `input` lies in one of
    /// the ranges, and then consumes exactly that character.
    fn parse<'a>(&self, input: &'a str, id: usize, name: &String, arena: &Arena) -> (result:
        Option<Node<'a>>)
        ensures
            tree_of_result(result) == self.matched(input@, id, name@),
    {
        proof {
            lemma_body_unfold(arena@, untouched(), self.body(), id, name@, input@);
        }
        if !input.is_empty() && self.contains(input.get_char(0)) {
            Some(Node::new(head(input, 1), id, name))
        } else {
            None
        }
    }

    /// As `parse`, with the callbacks of `handler` run around it: those for
    /// attempts first, then those for the success on the node, or those for
    /// the failure.
    fn parse_with_handler<'a>(
        &self,
        input: &'a str,
        id: usize,
        name: &String,
        handler: &Handler<'a>,
        arena: &Arena,
    ) -> (result: Option<Node<'a>>)
        ensures
            tree_of_result(result) == (match self.matched(input@, id, name@) {
                Some(tree) => Some(handler.rewritten(tree)),
                None => None,
            }),
    {
        proof {
            lemma_body_unfold(arena@, handler.post(), self.body(), id, name@, input@);
            lemma_body_run_defined(arena@, untouched(), self.body(), id, name@, input@, 0);
        }
        handler.handle_pre_parse(id);
        match self.parse(input, id, name, arena) {
            Some(node) => {
                let mut success = node;
                handler.handle_success(&mut success);
                Some(success)
            },
            None => {
                handler.handle_failure(id);
                None
            },
        }
    }
}

} // verus!
