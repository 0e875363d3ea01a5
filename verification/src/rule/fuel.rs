//! Facts about the step budget: a run that ended keeps its outcome under
//! any larger budget, and a defined match has a least budget.
use crate::node::Tree;
use super::model::{Body, RuleModel};
use super::semantics::{
    body_defined, body_fuel, body_outcome, defined, outcome, rule_fuel, run, run_body, run_seq,
    run_sor, run_star,
};
use vstd::prelude::*;

verus! {

/// A run of a rule that ended gives the same outcome with more fuel.
pub proof fn lemma_run_more_fuel(
    arena: Seq<Option<RuleModel>>,
    post: spec_fn(Tree) -> Tree,
    rule: RuleModel,
    text: Seq<char>,
    f1: nat,
    f2: nat,
)
    requires
        f1 <= f2,
        run(arena, post, rule, text, f1) is Some,
    ensures
        run(arena, post, rule, text, f2) == run(arena, post, rule, text, f1),
    decreases f1,
{
    lemma_body_more_fuel(
        arena,
        post,
        rule.body,
        rule.id,
        rule.name,
        text,
        (f1 - 1) as nat,
        (f2 - 1) as nat,
    );
}

/// A run of a matcher that ended gives the same outcome with more fuel.
pub proof fn lemma_body_more_fuel(
    arena: Seq<Option<RuleModel>>,
    post: spec_fn(Tree) -> Tree,
    body: Body,
    id: usize,
    name: Seq<char>,
    text: Seq<char>,
    f1: nat,
    f2: nat,
)
    requires
        f1 <= f2,
        run_body(arena, post, body, id, name, text, f1) is Some,
    ensures
        run_body(arena, post, body, id, name, text, f2) == run_body(
            arena,
            post,
            body,
            id,
            name,
            text,
            f1,
        ),
    decreases f1,
{
    let g1 = (f1 - 1) as nat;
    let g2 = (f2 - 1) as nat;
    match body {
        Body::Sequence(rules) => {
            lemma_seq_more_fuel(arena, post, rules, text, g1, g2);
        },
        Body::Sor(options) => {
            lemma_sor_more_fuel(arena, post, options, text, g1, g2);
        },
        Body::Star(rule) => {
            lemma_star_more_fuel(arena, post, *rule, text, g1, g2);
        },
        Body::Plus(rule) => {
            lemma_star_more_fuel(arena, post, *rule, text, g1, g2);
        },
        Body::Opt(rule) => {
            lemma_run_more_fuel(arena, post, *rule, text, g1, g2);
        },
        Body::Custom(rule) => {
            lemma_run_more_fuel(arena, post, *rule, text, g1, g2);
        },
        Body::Deferred(slot) => {
            lemma_run_more_fuel(arena, post, arena[slot as int]->0, text, g1, g2);
        },
        _ => {},
    }
}

/// A run of a list of rules that ended gives the same outcome with more fuel.
pub proof fn lemma_seq_more_fuel(
    arena: Seq<Option<RuleModel>>,
    post: spec_fn(Tree) -> Tree,
    rules: Seq<RuleModel>,
    text: Seq<char>,
    f1: nat,
    f2: nat,
)
    requires
        f1 <= f2,
        run_seq(arena, post, rules, text, f1) is Some,
    ensures
        run_seq(arena, post, rules, text, f2) == run_seq(arena, post, rules, text, f1),
    decreases f1,
{
    if rules.len() > 0 {
        let g1 = (f1 - 1) as nat;
        let g2 = (f2 - 1) as nat;
        lemma_run_more_fuel(arena, post, rules[0], text, g1, g2);
        if let Some(Some(first)) = run(arena, post, rules[0], text, g1) {
            lemma_seq_more_fuel(
                arena,
                post,
                rules.drop_first(),
                text.skip(first.content.len() as int),
                g1,
                g2,
            );
        }
    }
}

/// A run of a list of options that ended gives the same outcome with more
/// fuel.
pub proof fn lemma_sor_more_fuel(
    arena: Seq<Option<RuleModel>>,
    post: spec_fn(Tree) -> Tree,
    options: Seq<RuleModel>,
    text: Seq<char>,
    f1: nat,
    f2: nat,
)
    requires
        f1 <= f2,
        run_sor(arena, post, options, text, f1) is Some,
    ensures
        run_sor(arena, post, options, text, f2) == run_sor(arena, post, options, text, f1),
    decreases f1,
{
    if options.len() > 0 {
        let g1 = (f1 - 1) as nat;
        let g2 = (f2 - 1) as nat;
        lemma_run_more_fuel(arena, post, options[0], text, g1, g2);
        if run(arena, post, options[0], text, g1) == Some(None::<Tree>) {
            lemma_sor_more_fuel(arena, post, options.drop_first(), text, g1, g2);
        }
    }
}

/// A repeated run that ended gives the same outcome with more fuel.
pub proof fn lemma_star_more_fuel(
    arena: Seq<Option<RuleModel>>,
    post: spec_fn(Tree) -> Tree,
    rule: RuleModel,
    text: Seq<char>,
    f1: nat,
    f2: nat,
)
    requires
        f1 <= f2,
        run_star(arena, post, rule, text, f1) is Some,
    ensures
        run_star(arena, post, rule, text, f2) == run_star(arena, post, rule, text, f1),
    decreases f1,
{
    let g1 = (f1 - 1) as nat;
    let g2 = (f2 - 1) as nat;
    lemma_run_more_fuel(arena, post, rule, text, g1, g2);
    if let Some(Some(first)) = run(arena, post, rule, text, g1) {
        lemma_star_more_fuel(arena, post, rule, text.skip(first.content.len() as int), g1, g2);
    }
}

/// Whether `fuel` is the least budget that is enough for the rule's run.
pub open spec fn is_rule_fuel(
    arena: Seq<Option<RuleModel>>,
    post: spec_fn(Tree) -> Tree,
    rule: RuleModel,
    text: Seq<char>,
    fuel: nat,
) -> bool {
    run(arena, post, rule, text, fuel) is Some && forall|less: nat|
        run(arena, post, rule, text, less) is Some ==> fuel <= less
}

/// Whether `fuel` is the least budget that is enough for the matcher's run.
pub open spec fn is_body_fuel(
    arena: Seq<Option<RuleModel>>,
    post: spec_fn(Tree) -> Tree,
    body: Body,
    id: usize,
    name: Seq<char>,
    text: Seq<char>,
    fuel: nat,
) -> bool {
    run_body(arena, post, body, id, name, text, fuel) is Some && forall|less: nat|
        run_body(arena, post, body, id, name, text, less) is Some ==> fuel <= less
}

proof fn lemma_rule_fuel_exists(
    arena: Seq<Option<RuleModel>>,
    post: spec_fn(Tree) -> Tree,
    rule: RuleModel,
    text: Seq<char>,
    fuel: nat,
)
    requires
        run(arena, post, rule, text, fuel) is Some,
    ensures
        exists|least: nat| is_rule_fuel(arena, post, rule, text, least),
    decreases fuel,
{
    if exists|less: nat| less < fuel && run(arena, post, rule, text, less) is Some {
        let less = choose|less: nat| less < fuel && run(arena, post, rule, text, less) is Some;
        lemma_rule_fuel_exists(arena, post, rule, text, less);
    } else {
        assert(is_rule_fuel(arena, post, rule, text, fuel));
    }
}

proof fn lemma_body_fuel_exists(
    arena: Seq<Option<RuleModel>>,
    post: spec_fn(Tree) -> Tree,
    body: Body,
    id: usize,
    name: Seq<char>,
    text: Seq<char>,
    fuel: nat,
)
    requires
        run_body(arena, post, body, id, name, text, fuel) is Some,
    ensures
        exists|least: nat| is_body_fuel(arena, post, body, id, name, text, least),
    decreases fuel,
{
    if exists|less: nat|
        less < fuel && run_body(arena, post, body, id, name, text, less) is Some {
        let less = choose|less: nat|
            less < fuel && run_body(arena, post, body, id, name, text, less) is Some;
        lemma_body_fuel_exists(arena, post, body, id, name, text, less);
    } else {
        assert(is_body_fuel(arena, post, body, id, name, text, fuel));
    }
}

/// A run of a rule that ended with `fuel` shows that the match is defined,
/// that its least budget is at most `fuel`, and what its outcome is.
pub proof fn lemma_run_defined(
    arena: Seq<Option<RuleModel>>,
    post: spec_fn(Tree) -> Tree,
    rule: RuleModel,
    text: Seq<char>,
    fuel: nat,
)
    requires
        run(arena, post, rule, text, fuel) is Some,
    ensures
        defined(arena, post, rule, text),
        rule_fuel(arena, post, rule, text) <= fuel,
        run(arena, post, rule, text, rule_fuel(arena, post, rule, text)) is Some,
        outcome(arena, post, rule, text) == run(arena, post, rule, text, fuel)->0,
{
    reveal(defined);
    reveal(rule_fuel);
    lemma_rule_fuel_exists(arena, post, rule, text, fuel);
    let least = rule_fuel(arena, post, rule, text);
    assert(is_rule_fuel(arena, post, rule, text, least));
    lemma_run_more_fuel(arena, post, rule, text, least, fuel);
}

/// A run of a matcher that ended with `fuel` shows that the match is
/// defined, that its least budget is at most `fuel`, and what its outcome
/// is.
pub proof fn lemma_body_run_defined(
    arena: Seq<Option<RuleModel>>,
    post: spec_fn(Tree) -> Tree,
    body: Body,
    id: usize,
    name: Seq<char>,
    text: Seq<char>,
    fuel: nat,
)
    requires
        run_body(arena, post, body, id, name, text, fuel) is Some,
    ensures
        body_defined(arena, post, body, id, name, text),
        body_fuel(arena, post, body, id, name, text) <= fuel,
        run_body(arena, post, body, id, name, text, body_fuel(arena, post, body, id, name, text))
            is Some,
        body_outcome(arena, post, body, id, name, text) == run_body(
            arena,
            post,
            body,
            id,
            name,
            text,
            fuel,
        )->0,
{
    reveal(body_defined);
    reveal(body_fuel);
    lemma_body_fuel_exists(arena, post, body, id, name, text, fuel);
    let least = body_fuel(arena, post, body, id, name, text);
    assert(is_body_fuel(arena, post, body, id, name, text, least));
    lemma_body_more_fuel(arena, post, body, id, name, text, least, fuel);
}

/// A defined match of a rule ends when it is run with its least budget.
pub proof fn lemma_rule_run(
    arena: Seq<Option<RuleModel>>,
    post: spec_fn(Tree) -> Tree,
    rule: RuleModel,
    text: Seq<char>,
)
    requires
        defined(arena, post, rule, text),
    ensures
        run(arena, post, rule, text, rule_fuel(arena, post, rule, text)) == Some(
            outcome(arena, post, rule, text),
        ),
{
    reveal(defined);
    let some = choose|fuel: nat| run(arena, post, rule, text, fuel) is Some;
    lemma_run_defined(arena, post, rule, text, some);
}

/// A defined match of a rule is the defined match of its matcher, which
/// needs less fuel.
pub proof fn lemma_rule_unfold(
    arena: Seq<Option<RuleModel>>,
    post: spec_fn(Tree) -> Tree,
    rule: RuleModel,
    text: Seq<char>,
)
    requires
        defined(arena, post, rule, text),
    ensures
        body_defined(arena, post, rule.body, rule.id, rule.name, text),
        body_fuel(arena, post, rule.body, rule.id, rule.name, text) < rule_fuel(
            arena,
            post,
            rule,
            text,
        ),
        body_outcome(arena, post, rule.body, rule.id, rule.name, text) == outcome(
            arena,
            post,
            rule,
            text,
        ),
{
    reveal(defined);
    let some = choose|fuel: nat| run(arena, post, rule, text, fuel) is Some;
    lemma_run_defined(arena, post, rule, text, some);
    let fuel = rule_fuel(arena, post, rule, text);
    lemma_body_run_defined(arena, post, rule.body, rule.id, rule.name, text, (fuel - 1) as nat);
}

/// A defined match of a matcher ends when it is run with its least budget.
pub proof fn lemma_body_unfold(
    arena: Seq<Option<RuleModel>>,
    post: spec_fn(Tree) -> Tree,
    body: Body,
    id: usize,
    name: Seq<char>,
    text: Seq<char>,
)
    requires
        body_defined(arena, post, body, id, name, text),
    ensures
        run_body(arena, post, body, id, name, text, body_fuel(arena, post, body, id, name, text))
            == Some(body_outcome(arena, post, body, id, name, text)),
{
    reveal(body_defined);
    let some = choose|fuel: nat| run_body(arena, post, body, id, name, text, fuel) is Some;
    lemma_body_run_defined(arena, post, body, id, name, text, some);
}

} // verus!
