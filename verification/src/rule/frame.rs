//! Filling an empty slot of the arena changes no match that was defined
//! without it.
use crate::node::Tree;
use super::fuel::{lemma_rule_run, lemma_run_defined};
use super::model::{Body, RuleModel};
use super::semantics::{defined, outcome, rule_fuel, run, run_body, run_seq, run_sor, run_star};
use vstd::prelude::*;

verus! {

/// `later` has every rule that `earlier` has, in the same slot.
pub open spec fn fills(later: Seq<Option<RuleModel>>, earlier: Seq<Option<RuleModel>>) -> bool {
    &&& earlier.len() <= later.len()
    &&& forall|i: int| 0 <= i < earlier.len() && earlier[i] is Some ==> later[i] == earlier[i]
}

proof fn lemma_run_fills(
    later: Seq<Option<RuleModel>>,
    earlier: Seq<Option<RuleModel>>,
    post: spec_fn(Tree) -> Tree,
    rule: RuleModel,
    text: Seq<char>,
    fuel: nat,
)
    requires
        fills(later, earlier),
        run(earlier, post, rule, text, fuel) is Some,
    ensures
        run(later, post, rule, text, fuel) == run(earlier, post, rule, text, fuel),
    decreases fuel,
{
    lemma_body_fills(later, earlier, post, rule.body, rule.id, rule.name, text, (fuel - 1) as nat);
}

proof fn lemma_body_fills(
    later: Seq<Option<RuleModel>>,
    earlier: Seq<Option<RuleModel>>,
    post: spec_fn(Tree) -> Tree,
    body: Body,
    id: usize,
    name: Seq<char>,
    text: Seq<char>,
    fuel: nat,
)
    requires
        fills(later, earlier),
        run_body(earlier, post, body, id, name, text, fuel) is Some,
    ensures
        run_body(later, post, body, id, name, text, fuel) == run_body(
            earlier,
            post,
            body,
            id,
            name,
            text,
            fuel,
        ),
    decreases fuel,
{
    let below = (fuel - 1) as nat;
    match body {
        Body::Sequence(rules) => {
            lemma_seq_fills(later, earlier, post, rules, text, below);
        },
        Body::Sor(options) => {
            lemma_sor_fills(later, earlier, post, options, text, below);
        },
        Body::Star(rule) => {
            lemma_star_fills(later, earlier, post, *rule, text, below);
        },
        Body::Plus(rule) => {
            lemma_star_fills(later, earlier, post, *rule, text, below);
        },
        Body::Opt(rule) => {
            lemma_run_fills(later, earlier, post, *rule, text, below);
        },
        Body::Custom(rule) => {
            lemma_run_fills(later, earlier, post, *rule, text, below);
        },
        Body::Deferred(slot) => {
            lemma_run_fills(later, earlier, post, earlier[slot as int]->0, text, below);
        },
        _ => {},
    }
}

proof fn lemma_seq_fills(
    later: Seq<Option<RuleModel>>,
    earlier: Seq<Option<RuleModel>>,
    post: spec_fn(Tree) -> Tree,
    rules: Seq<RuleModel>,
    text: Seq<char>,
    fuel: nat,
)
    requires
        fills(later, earlier),
        run_seq(earlier, post, rules, text, fuel) is Some,
    ensures
        run_seq(later, post, rules, text, fuel) == run_seq(earlier, post, rules, text, fuel),
    decreases fuel,
{
    if rules.len() > 0 {
        let below = (fuel - 1) as nat;
        lemma_run_fills(later, earlier, post, rules[0], text, below);
        if let Some(Some(first)) = run(earlier, post, rules[0], text, below) {
            lemma_seq_fills(
                later,
                earlier,
                post,
                rules.drop_first(),
                text.skip(first.content.len() as int),
                below,
            );
        }
    }
}

proof fn lemma_sor_fills(
    later: Seq<Option<RuleModel>>,
    earlier: Seq<Option<RuleModel>>,
    post: spec_fn(Tree) -> Tree,
    options: Seq<RuleModel>,
    text: Seq<char>,
    fuel: nat,
)
    requires
        fills(later, earlier),
        run_sor(earlier, post, options, text, fuel) is Some,
    ensures
        run_sor(later, post, options, text, fuel) == run_sor(earlier, post, options, text, fuel),
    decreases fuel,
{
    if options.len() > 0 {
        let below = (fuel - 1) as nat;
        lemma_run_fills(later, earlier, post, options[0], text, below);
        if run(earlier, post, options[0], text, below) == Some(None::<Tree>) {
            lemma_sor_fills(later, earlier, post, options.drop_first(), text, below);
        }
    }
}

proof fn lemma_star_fills(
    later: Seq<Option<RuleModel>>,
    earlier: Seq<Option<RuleModel>>,
    post: spec_fn(Tree) -> Tree,
    rule: RuleModel,
    text: Seq<char>,
    fuel: nat,
)
    requires
        fills(later, earlier),
        run_star(earlier, post, rule, text, fuel) is Some,
    ensures
        run_star(later, post, rule, text, fuel) == run_star(earlier, post, rule, text, fuel),
    decreases fuel,
{
    let below = (fuel - 1) as nat;
    lemma_run_fills(later, earlier, post, rule, text, below);
    if let Some(Some(first)) = run(earlier, post, rule, text, below) {
        lemma_star_fills(later, earlier, post, rule, text.skip(first.content.len() as int), below);
    }
}

/// A match that is defined stays defined, with the same outcome, when more
/// slots are declared or empty slots are filled.
pub proof fn lemma_defined_stays_defined(
    later: Seq<Option<RuleModel>>,
    earlier: Seq<Option<RuleModel>>,
    post: spec_fn(Tree) -> Tree,
    rule: RuleModel,
    text: Seq<char>,
)
    requires
        fills(later, earlier),
        defined(earlier, post, rule, text),
    ensures
        defined(later, post, rule, text),
        outcome(later, post, rule, text) == outcome(earlier, post, rule, text),
{
    lemma_rule_run(earlier, post, rule, text);
    let fuel = rule_fuel(earlier, post, rule, text);
    lemma_run_fills(later, earlier, post, rule, text, fuel);
    lemma_run_defined(later, post, rule, text, fuel);
}

/// Declaring a slot and filling an empty slot both give an arena that has
/// every rule of the one before.
pub proof fn lemma_arena_grows(arena: Seq<Option<RuleModel>>, slot: int, rule: RuleModel)
    ensures
        fills(arena.push(None), arena),
        0 <= slot < arena.len() && arena[slot] is None ==> fills(
            arena.update(slot, Some(rule)),
            arena,
        ),
{
}

} // verus!
