//! The rule that matches one given character.
use crate::node::{Node, Tree, tree_of_result};
use crate::registry::{Kind, Registry};
use crate::rule_handler::Handler;
use crate::text::head;
use super::{Arena, Matcher, One, Parsable, Rule};
use super::fuel::{lemma_body_run_defined, lemma_body_unfold};
use super::model::{Body, RuleModel};
use super::semantics::untouched;
use vstd::prelude::*;

verus! {

impl One {
    /// What the matcher gives on `text`: a leaf over the first character if
    /// that is the character looked for.
    pub open spec fn matched(&self, text: Seq<char>, id: usize, name: Seq<char>) -> Option<Tree> {
        if text.len() > 0 && text[0] == self.c {
            Some(Tree::leaf(text.subrange(0, 1), id, name))
        } else {
            None
        }
    }

    /// An unnamed rule that matches the character `c`.
    pub fn rule(c: char, registry: &mut Registry) -> (rule: Rule)
        requires
            old(registry).wf(),
            old(registry).assigned(Kind::Char) is None ==> old(registry).has_room(),
        ensures
            rule@ == (RuleModel { body: Body::One(c), id: rule.id, name: Kind::Char.label() }),
            final(registry).memoized(old(registry), Kind::Char, rule.id),
    {
        let id = registry.singleton_id(Kind::Char);
        Rule::new(Box::new(Matcher::One(One { c })), id, Kind::Char.default_name())
    }
}

impl Parsable for One {
    /// The matcher as a value.
    open spec fn body(&self) -> Body {
        Body::One(self.c)
    }

    /// Succeeds if and only if `input` starts with the character, and then
    /// consumes exactly that character.
    fn parse<'a>(&self, input: &'a str, id: usize, name: &String, arena: &Arena) -> (result:
        Option<Node<'a>>)
        ensures
            tree_of_result(result) == self.matched(input@, id, name@),
    {
        proof {
            lemma_body_unfold(arena@, untouched(), self.body(), id, name@, input@);
        }
        if !input.is_empty() && input.get_char(0) == self.c {
            Some(Node::new(head(input, 1), id, name))
        } else {
            None
        }
    }

    /// As `parse`, with the callbacks of `handler` run around it: those for
    /// attempts first, then those for the success on the node, or those for
    /// the failure.
    fn parse_with_handler<'a>(
        &self,
        input: &'a str,
        id: usize,
        name: &String,
        handler: &Handler<'a>,
        arena: &Arena,
    ) -> (result: Option<Node<'a>>)
        ensures
            tree_of_result(result) == (match self.matched(input@, id, name@) {
                Some(tree) => Some(handler.rewritten(tree)),
                None => None,
            }),
    {
        proof {
            lemma_body_unfold(arena@, handler.post(), self.body(), id, name@, input@);
            lemma_body_run_defined(arena@, untouched(), self.body(), id, name@, input@, 0);
        }
        handler.handle_pre_parse(id);
        match self.parse(input, id, name, arena) {
            Some(node) => {
                let mut success = node;
                handler.handle_success(&mut success);
                Some(success)
            },
            None => {
                handler.handle_failure(id);
                None
            },
        }
    }
}

} // verus!
