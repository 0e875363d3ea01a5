//! The rule that matches the end of the text.
use crate::node::{Node, Tree, tree_of_result};
use crate::registry::{Kind, Registry};
use crate::rule_handler::Handler;
use super::{Arena, Eof, Matcher, Parsable, Rule};
use super::fuel::{lemma_body_run_defined, lemma_body_unfold};
use super::model::{Body, RuleModel};
use super::semantics::untouched;
use vstd::prelude::*;

verus! {

impl Eof {
    /// What the matcher gives on `text`: an empty leaf if nothing is left.
    pub open spec fn matched(&self, text: Seq<char>, id: usize, name: Seq<char>) -> Option<Tree> {
        if text.len() == 0 {
            Some(Tree::leaf(Seq::empty(), id, name))
        } else {
            None
        }
    }

    /// An unnamed rule that matches the end of the text.
    pub fn rule(registry: &mut Registry) -> (rule: Rule)
        requires
            old(registry).wf(),
            old(registry).assigned(Kind::Eof) is None ==> old(registry).has_room(),
        ensures
            rule@ == (RuleModel { body: Body::Eof, id: rule.id, name: Kind::Eof.label() }),
            final(registry).memoized(old(registry), Kind::Eof, rule.id),
    {
        let id = registry.singleton_id(Kind::Eof);
        Rule::new(Box::new(Matcher::Eof(Eof {  })), id, Kind::Eof.default_name())
    }
}

impl Parsable for Eof {
    /// The matcher as a value.
    open spec fn body(&self) -> Body {
        Body::Eof
    }

    /// Succeeds, consuming nothing, if and only if `input` is empty.
    fn parse<'a>(&self, input: &'a str, id: usize, name: &String, arena: &Arena) -> (result:
        Option<Node<'a>>)
        ensures
            tree_of_result(result) == self.matched(input@, id, name@),
    {
        proof {
            lemma_body_unfold(arena@, untouched(), self.body(), id, name@, input@);
        }
        if input.is_empty() {
            Some(Node::new_empty(id, name))
        } else {
            None
        }
    }

    /// As `parse`, with the callbacks of `handler` run around it: those for
    /// attempts first, then those for the success on the node, or those for
    /// the failure.
    fn parse_with_handler<'a>(
        &self,
        input: &'a str,
        id: usize,
        name: &String,
        handler: &Handler<'a>,
        arena: &Arena,
    ) -> (result: Option<Node<'a>>)
        ensures
            tree_of_result(result) == (match self.matched(input@, id, name@) {
                Some(tree) => Some(handler.rewritten(tree)),
                None => None,
            }),
    {
        proof {
            lemma_body_unfold(arena@, handler.post(), self.body(), id, name@, input@);
            lemma_body_run_defined(arena@, untouched(), self.body(), id, name@, input@, 0);
        }
        handler.handle_pre_parse(id);
        match self.parse(input, id, name, arena) {
            Some(node) => {
                let mut success = node;
                handler.handle_success(&mut success);
                Some(success)
            },
            None => {
                handler.handle_failure(id);
                None
            },
        }
    }
}

} // verus!
