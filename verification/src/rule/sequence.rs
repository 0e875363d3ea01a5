//! The rule that matches its rules one after the other.
use crate::node::{Node, Tree};
use crate::registry::{Kind, Registry};
use crate::rule_handler::Handler;
use crate::text::{char_len, head, tail};
use super::{Arena, Matcher, Parsable, Rule, Sequence};
use super::fuel::{lemma_body_unfold, lemma_run_defined};
use super::model::{Body, lemma_rules_model, RuleModel, rules_model};
use super::semantics::{body_fuel, run_seq, total_len, untouched};
use vstd::prelude::*;

verus! {

/// The trees built so far, followed by what the rest of the run builds.
pub open spec fn after(
    built: Seq<Tree>,
    rest: Option<Option<Seq<Tree>>>,
) -> Option<Option<Seq<Tree>>> {
    match rest {
        None => None,
        Some(None) => Some(None),
        Some(Some(more)) => Some(Some(built + more)),
    }
}

/// The length covered by a list of trees grows by the tree that is added.
pub proof fn lemma_total_len_push(items: Seq<Tree>, item: Tree)
    ensures
        total_len(items.push(item)) == total_len(items) + item.content.len(),
{
    assert(items.push(item).drop_last() =~= items);
}

impl Sequence {
    /// An unnamed rule that matches `rules` one after the other.
    pub fn rule(rules: Vec<Rule>, registry: &mut Registry) -> (rule: Rule)
        requires
            old(registry).wf(),
            old(registry).assigned(Kind::Sequence) is None ==> old(registry).has_room(),
        ensures
            rule@ == (RuleModel {
                body: Body::Sequence(rules_model(rules@)),
                id: rule.id,
                name: Kind::Sequence.label(),
            }),
            final(registry).memoized(old(registry), Kind::Sequence, rule.id),
    {
        let id = registry.singleton_id(Kind::Sequence);
        Rule::new(
            Box::new(Matcher::Sequence(Sequence { rules })),
            id,
            Kind::Sequence.default_name(),
        )
    }
}

impl Parsable for Sequence {
    /// The matcher as a value.
    open spec fn body(&self) -> Body {
        Body::Sequence(rules_model(self.rules@))
    }

    /// Applies the rules from left to right, each to what the ones before
    /// left over. Fails as soon as one of them fails; otherwise the node
    /// covers what they consumed together and has their nodes as children.
    fn parse<'a>(&self, input: &'a str, id: usize, name: &String, arena: &Arena) -> (result:
        Option<Node<'a>>)
        decreases body_fuel(arena@, untouched(), self.body(), id, name@, input@), 0int,
    {
        let ghost post = untouched();
        let ghost rules = rules_model(self.rules@);
        let ghost top = body_fuel(arena@, post, self.body(), id, name@, input@);
        let ghost mut fuel: nat = (top - 1) as nat;
        proof {
            lemma_body_unfold(arena@, post, self.body(), id, name@, input@);
            lemma_rules_model(self.rules@);
            assert(rules.skip(0) =~= rules);
            assert(input@.skip(0) =~= input@);
        }
        let total = char_len(input);
        let mut node = Node::new_empty(id, name);
        let mut size: usize = 0;
        let mut i: usize = 0;
        while i < self.rules.len()
            invariant
                i <= self.rules.len(),
                size <= total,
                total == input@.len(),
                post == untouched(),
                rules == rules_model(self.rules@),
                rules.len() == self.rules.len(),
                forall|j: int| 0 <= j < rules.len() ==> (#[trigger] rules[j]) == self.rules@[j]@,
                top == body_fuel(arena@, post, self.body(), id, name@, input@),
                fuel < top,
                run_seq(arena@, post, rules.skip(i as int), input@.skip(size as int), fuel) is Some,
                run_seq(arena@, post, rules, input@, (top - 1) as nat) == after(
                    node@.children,
                    run_seq(arena@, post, rules.skip(i as int), input@.skip(size as int), fuel),
                ),
                size == total_len(node@.children),
                node@.type_id == id,
                node@.type_label == name@,
            decreases self.rules.len() - i,
        {
            let rest = tail(input, size, total);
            proof {
                assert(rules.skip(i as int)[0] == rules[i as int]);
                lemma_run_defined(arena@, post, rules[i as int], rest@, (fuel - 1) as nat);
            }
            match self.rules[i].parse(rest, arena) {
                Some(child) => {
                    let ghost before = node@.children;
                    let ghost step = input@.skip(size as int).skip(child@.content.len() as int);
                    let ghost later = run_seq(
                        arena@,
                        post,
                        rules.skip(i as int).drop_first(),
                        step,
                        (fuel - 1) as nat,
                    );
                    size = size + char_len(child.content);
                    node.add_child(child);
                    proof {
                        assert(rules.skip(i as int).drop_first() =~= rules.skip(i as int + 1));
                        assert(step =~= input@.skip(size as int));
                        lemma_total_len_push(before, child@);
                        if let Some(Some(more)) = later {
                            assert(before + (seq![child@] + more) =~= before.push(child@) + more);
                        }
                        fuel = (fuel - 1) as nat;
                    }
                },
                None => {
                    return None;
                },
            }
            i += 1;
        }
        proof {
            assert(node@.children + Seq::<Tree>::empty() =~= node@.children);
        }
        node.content = head(input, size);
        Some(node)
    }

    /// As `parse`, with the callbacks of `handler` run around the rule and
    /// around each of its rules: those for attempts first, then those for the
    /// failure, or those for the success on the finished node.
    fn parse_with_handler<'a>(
        &self,
        input: &'a str,
        id: usize,
        name: &String,
        handler: &Handler<'a>,
        arena: &Arena,
    ) -> (result: Option<Node<'a>>)
        decreases body_fuel(arena@, handler.post(), self.body(), id, name@, input@), 0int,
    {
        let ghost post = handler.post();
        let ghost rules = rules_model(self.rules@);
        let ghost top = body_fuel(arena@, post, self.body(), id, name@, input@);
        let ghost mut fuel: nat = (top - 1) as nat;
        proof {
            lemma_body_unfold(arena@, post, self.body(), id, name@, input@);
            lemma_rules_model(self.rules@);
            assert(rules.skip(0) =~= rules);
            assert(input@.skip(0) =~= input@);
        }
        handler.handle_pre_parse(id);
        let total = char_len(input);
        let mut node = Node::new_empty(id, name);
        let mut size: usize = 0;
        let mut i: usize = 0;
        while i < self.rules.len()
            invariant
                i <= self.rules.len(),
                size <= total,
                total == input@.len(),
                post == handler.post(),
                rules == rules_model(self.rules@),
                rules.len() == self.rules.len(),
                forall|j: int| 0 <= j < rules.len() ==> (#[trigger] rules[j]) == self.rules@[j]@,
                top == body_fuel(arena@, post, self.body(), id, name@, input@),
                fuel < top,
                run_seq(arena@, post, rules.skip(i as int), input@.skip(size as int), fuel) is Some,
                run_seq(arena@, post, rules, input@, (top - 1) as nat) == after(
                    node@.children,
                    run_seq(arena@, post, rules.skip(i as int), input@.skip(size as int), fuel),
                ),
                size == total_len(node@.children),
                node@.type_id == id,
                node@.type_label == name@,
            decreases self.rules.len() - i,
        {
            let rest = tail(input, size, total);
            proof {
                assert(rules.skip(i as int)[0] == rules[i as int]);
                lemma_run_defined(arena@, post, rules[i as int], rest@, (fuel - 1) as nat);
            }
            match self.rules[i].parse_with_handler(rest, handler, arena) {
                Some(child) => {
                    let ghost before = node@.children;
                    let ghost step = input@.skip(size as int).skip(child@.content.len() as int);
                    let ghost later = run_seq(
                        arena@,
                        post,
                        rules.skip(i as int).drop_first(),
                        step,
                        (fuel - 1) as nat,
                    );
                    size = size + char_len(child.content);
                    node.add_child(child);
                    proof {
                        assert(rules.skip(i as int).drop_first() =~= rules.skip(i as int + 1));
                        assert(step =~= input@.skip(size as int));
                        lemma_total_len_push(before, child@);
                        if let Some(Some(more)) = later {
                            assert(before + (seq![child@] + more) =~= before.push(child@) + more);
                        }
                        fuel = (fuel - 1) as nat;
                    }
                },
                None => {
                    handler.handle_failure(id);
                    return None;
                },
            }
            i += 1;
        }
        proof {
            assert(node@.children + Seq::<Tree>::empty() =~= node@.children);
        }
        node.content = head(input, size);
        handler.handle_success(&mut node);
        Some(node)
    }
}

} // verus!
