//! The rule that matches a literal text.
use crate::node::{Node, Tree, tree_of_result};
use crate::registry::{Kind, Registry};
use crate::rule_handler::Handler;
use crate::text::{char_len, head, is_prefix, starts_with};
use super::{Arena, Matcher, Parsable, Rule, Str};
use super::fuel::{lemma_body_run_defined, lemma_body_unfold};
use super::model::{Body, RuleModel};
use super::semantics::untouched;
use vstd::prelude::*;

verus! {

impl Str {
    /// What the matcher gives on `text`: a leaf over the literal if the text
    /// starts with it.
    pub open spec fn matched(&self, text: Seq<char>, id: usize, name: Seq<char>) -> Option<Tree> {
        if is_prefix(self.s@, text) {
            Some(Tree::leaf(text.subrange(0, self.s@.len() as int), id, name))
        } else {
            None
        }
    }

    /// An unnamed rule that matches the literal `s`.
    pub fn rule(s: String, registry: &mut Registry) -> (rule: Rule)
        requires
            old(registry).wf(),
            old(registry).assigned(Kind::Str) is None ==> old(registry).has_room(),
        ensures
            rule@ == (RuleModel { body: Body::Str(s@), id: rule.id, name: Kind::Str.label() }),
            final(registry).memoized(old(registry), Kind::Str, rule.id),
    {
        let id = registry.singleton_id(Kind::Str);
        Rule::new(Box::new(Matcher::Str(Str { s })), id, Kind::Str.default_name())
    }
}

impl Parsable for Str {
    /// The matcher as a value.
    open spec fn body(&self) -> Body {
        Body::Str(self.s@)
    }

    /// Succeeds if and only if `input` starts with the literal, and then
    /// consumes exactly the literal.
    fn parse<'a>(&self, input: &'a str, id: usize, name: &String, arena: &Arena) -> (result:
        Option<Node<'a>>)
        ensures
            tree_of_result(result) == self.matched(input@, id, name@),
    {
        proof {
            lemma_body_unfold(arena@, untouched(), self.body(), id, name@, input@);
        }
        if starts_with(input, self.s.as_str()) {
            let n = char_len(self.s.as_str());
            Some(Node::new(head(input, n), id, name))
        } else {
            None
        }
    }

    /// As `parse`, with the callbacks of `handler` run around it: those for
    /// attempts first, then those for the success on the node, or those for
    /// the failure.
    fn parse_with_handler<'a>(
        &self,
        input: &'a str,
        id: usize,
        name: &String,
        handler: &Handler<'a>,
        arena: &Arena,
    ) -> (result: Option<Node<'a>>)
        ensures
            tree_of_result(result) == (match self.matched(input@, id, name@) {
                Some(tree) => Some(handler.rewritten(tree)),
                None => None,
            }),
    {
        proof {
            lemma_body_unfold(arena@, handler.post(), self.body(), id, name@, input@);
            lemma_body_run_defined(arena@, untouched(), self.body(), id, name@, input@, 0);
        }
        handler.handle_pre_parse(id);
        match self.parse(input, id, name, arena) {
            Some(node) => {
                let mut success = node;
                handler.handle_success(&mut success);
                Some(success)
            },
            None => {
                handler.handle_failure(id);
                None
            },
        }
    }
}

} // verus!
