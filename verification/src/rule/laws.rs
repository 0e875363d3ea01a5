//! What holds of plain matching, whatever the rules and the text.
use crate::node::Tree;
use crate::rule_handler::Handler;
use crate::text::is_prefix;
use super::fuel::{lemma_rule_run, lemma_run_defined};
use super::model::{Body, RuleModel};
use super::semantics::{
    defined, outcome, rule_fuel, run, run_body, run_seq, run_sor, run_star, total_len, untouched,
    wrapping,
};
use vstd::prelude::*;

verus! {

/// The length covered by a tree followed by more trees is the sum of both.
pub proof fn lemma_total_len_prepend(first: Tree, rest: Seq<Tree>)
    ensures
        total_len(seq![first] + rest) == first.content.len() + total_len(rest),
    decreases rest.len(),
{
    let all = seq![first] + rest;
    if rest.len() == 0 {
        assert(all.drop_last() =~= Seq::<Tree>::empty());
        assert(all.last() == first);
        assert(total_len(all.drop_last()) == 0);
    } else {
        assert(all.drop_last() =~= seq![first] + rest.drop_last());
        assert(all.last() == rest.last());
        lemma_total_len_prepend(first, rest.drop_last());
    }
}

proof fn lemma_run_prefix(
    arena: Seq<Option<RuleModel>>,
    rule: RuleModel,
    text: Seq<char>,
    fuel: nat,
)
    requires
        run(arena, untouched(), rule, text, fuel) is Some,
        run(arena, untouched(), rule, text, fuel)->0 is Some,
    ensures
        is_prefix(run(arena, untouched(), rule, text, fuel)->0->0.content, text),
    decreases fuel,
{
    let post = untouched();
    let below = (fuel - 1) as nat;
    let deeper = (fuel - 2) as nat;
    match rule.body {
        Body::Sequence(rules) => {
            lemma_seq_within(arena, rules, text, deeper);
        },
        Body::Sor(options) => {
            lemma_sor_prefix(arena, options, text, deeper);
        },
        Body::Star(inner) => {
            lemma_star_within(arena, *inner, text, deeper);
        },
        Body::Plus(inner) => {
            lemma_star_within(arena, *inner, text, deeper);
        },
        Body::Opt(inner) => {
            if run(arena, post, *inner, text, deeper)->0 is Some {
                lemma_run_prefix(arena, *inner, text, deeper);
            } else {
                assert(text.subrange(0, 0) =~= Seq::<char>::empty());
            }
        },
        Body::Custom(inner) => {
            lemma_run_prefix(arena, *inner, text, deeper);
        },
        Body::Deferred(slot) => {
            lemma_run_prefix(arena, arena[slot as int]->0, text, deeper);
        },
        Body::One(c) => {},
        Body::Str(literal) => {},
        Body::Ranges(ranges) => {},
        Body::Eof => {
            assert(text.subrange(0, 0) =~= Seq::<char>::empty());
        },
    }
}

/// The trees that a list of rules builds cover no more than the text.
pub proof fn lemma_seq_within(
    arena: Seq<Option<RuleModel>>,
    rules: Seq<RuleModel>,
    text: Seq<char>,
    fuel: nat,
)
    requires
        run_seq(arena, untouched(), rules, text, fuel) is Some,
        run_seq(arena, untouched(), rules, text, fuel)->0 is Some,
    ensures
        total_len(run_seq(arena, untouched(), rules, text, fuel)->0->0) <= text.len(),
    decreases fuel,
{
    if rules.len() > 0 {
        let post = untouched();
        let below = (fuel - 1) as nat;
        let first = run(arena, post, rules[0], text, below)->0->0;
        let left = text.skip(first.content.len() as int);
        lemma_seq_within(arena, rules.drop_first(), left, below);
        lemma_total_len_prepend(first, run_seq(arena, post, rules.drop_first(), left, below)->0->0);
    }
}

proof fn lemma_sor_prefix(
    arena: Seq<Option<RuleModel>>,
    options: Seq<RuleModel>,
    text: Seq<char>,
    fuel: nat,
)
    requires
        run_sor(arena, untouched(), options, text, fuel) is Some,
        run_sor(arena, untouched(), options, text, fuel)->0 is Some,
    ensures
        is_prefix(run_sor(arena, untouched(), options, text, fuel)->0->0.content, text),
    decreases fuel,
{
    let post = untouched();
    let below = (fuel - 1) as nat;
    if run(arena, post, options[0], text, below)->0 is Some {
        lemma_run_prefix(arena, options[0], text, below);
    } else {
        lemma_sor_prefix(arena, options.drop_first(), text, below);
    }
}

/// The trees that a repetition builds cover no more than the text.
pub proof fn lemma_star_within(
    arena: Seq<Option<RuleModel>>,
    rule: RuleModel,
    text: Seq<char>,
    fuel: nat,
)
    requires
        run_star(arena, untouched(), rule, text, fuel) is Some,
    ensures
        total_len(run_star(arena, untouched(), rule, text, fuel)->0) <= text.len(),
    decreases fuel,
{
    let post = untouched();
    let below = (fuel - 1) as nat;
    if let Some(Some(first)) = run(arena, post, rule, text, below) {
        let left = text.skip(first.content.len() as int);
        lemma_star_within(arena, rule, left, below);
        lemma_total_len_prepend(first, run_star(arena, post, rule, left, below)->0);
    }
}

/// The node of a successful match covers an initial part of the text, so
/// it is never longer than the text.
pub proof fn lemma_match_is_prefix(
    arena: Seq<Option<RuleModel>>,
    rule: RuleModel,
    text: Seq<char>,
)
    requires
        defined(arena, untouched(), rule, text),
        outcome(arena, untouched(), rule, text) is Some,
    ensures
        is_prefix(outcome(arena, untouched(), rule, text)->0.content, text),
        outcome(arena, untouched(), rule, text)->0.content.len() <= text.len(),
{
    lemma_rule_run(arena, untouched(), rule, text);
    lemma_run_prefix(arena, rule, text, rule_fuel(arena, untouched(), rule, text));
}

/// A sequence fails whenever its first rule fails, whatever the rules after
/// it are.
pub proof fn lemma_sequence_short_circuits(
    arena: Seq<Option<RuleModel>>,
    rule: RuleModel,
    rules: Seq<RuleModel>,
    text: Seq<char>,
)
    requires
        rule.body == Body::Sequence(rules),
        rules.len() > 0,
        defined(arena, untouched(), rules[0], text),
        outcome(arena, untouched(), rules[0], text) is None,
    ensures
        defined(arena, untouched(), rule, text),
        outcome(arena, untouched(), rule, text) is None,
{
    let post = untouched();
    lemma_rule_run(arena, post, rules[0], text);
    let fuel = rule_fuel(arena, post, rules[0], text);
    assert(run_seq(arena, post, rules, text, fuel + 1) == Some(None::<Seq<Tree>>));
    assert(run_body(arena, post, rule.body, rule.id, rule.name, text, fuel + 2) == Some(
        None::<Tree>,
    ));
    lemma_run_defined(arena, post, rule, text, fuel + 3);
}

/// Enough fuel for a list of options to end with the node of the option at
/// `index`, where every option before it fails and it matches.
proof fn lemma_sor_first_match(
    arena: Seq<Option<RuleModel>>,
    options: Seq<RuleModel>,
    index: int,
    text: Seq<char>,
) -> (fuel: nat)
    requires
        0 <= index < options.len(),
        forall|j: int|
            0 <= j < index ==> defined(arena, untouched(), #[trigger] options[j], text)
                && outcome(arena, untouched(), options[j], text) is None,
        defined(arena, untouched(), options[index], text),
        outcome(arena, untouched(), options[index], text) is Some,
    ensures
        run_sor(arena, untouched(), options, text, fuel) == Some(
            outcome(arena, untouched(), options[index], text),
        ),
    decreases index,
{
    let post = untouched();
    lemma_rule_run(arena, post, options[0], text);
    let first = rule_fuel(arena, post, options[0], text);
    if index == 0 {
        first + 1
    } else {
        let rest = options.drop_first();
        assert forall|j: int| 0 <= j < index - 1 implies defined(
            arena,
            post,
            #[trigger] rest[j],
            text,
        ) && outcome(arena, post, rest[j], text) is None by {
            assert(rest[j] == options[j + 1]);
        }
        assert(rest[index - 1] == options[index]);
        let later = lemma_sor_first_match(arena, rest, index - 1, text);
        let fuel = first + later;
        super::fuel::lemma_run_more_fuel(arena, post, options[0], text, first, fuel);
        super::fuel::lemma_sor_more_fuel(arena, post, rest, text, later, fuel);
        fuel + 1
    }
}

/// Ordered choice takes the first option that matches: where every option
/// before the one at `index` fails and that one matches, the result is its
/// node, as the only child of a node with the same content.
pub proof fn lemma_choice_takes_first_match(
    arena: Seq<Option<RuleModel>>,
    rule: RuleModel,
    options: Seq<RuleModel>,
    index: int,
    text: Seq<char>,
)
    requires
        rule.body == Body::Sor(options),
        0 <= index < options.len(),
        forall|j: int|
            0 <= j < index ==> defined(arena, untouched(), #[trigger] options[j], text)
                && outcome(arena, untouched(), options[j], text) is None,
        defined(arena, untouched(), options[index], text),
        outcome(arena, untouched(), options[index], text) is Some,
    ensures
        defined(arena, untouched(), rule, text),
        outcome(arena, untouched(), rule, text) == Some(
            wrapping(rule.id, rule.name, outcome(arena, untouched(), options[index], text)->0),
        ),
{
    let post = untouched();
    let fuel = lemma_sor_first_match(arena, options, index, text);
    let inner = outcome(arena, post, options[index], text)->0;
    assert(run_body(arena, post, rule.body, rule.id, rule.name, text, fuel + 1) == Some(
        Some(wrapping(rule.id, rule.name, inner)),
    ));
    lemma_run_defined(arena, post, rule, text, fuel + 2);
}

/// Ordered choice fails where every option fails.
pub proof fn lemma_choice_fails_with_all(
    arena: Seq<Option<RuleModel>>,
    rule: RuleModel,
    options: Seq<RuleModel>,
    text: Seq<char>,
)
    requires
        rule.body == Body::Sor(options),
        forall|j: int|
            0 <= j < options.len() ==> defined(arena, untouched(), #[trigger] options[j], text)
                && outcome(arena, untouched(), options[j], text) is None,
    ensures
        defined(arena, untouched(), rule, text),
        outcome(arena, untouched(), rule, text) is None,
{
    let post = untouched();
    let fuel = lemma_sor_no_match(arena, options, text);
    assert(run_body(arena, post, rule.body, rule.id, rule.name, text, fuel + 1) == Some(
        None::<Tree>,
    ));
    lemma_run_defined(arena, post, rule, text, fuel + 2);
}

/// Enough fuel for a list of options that all fail to end without a node.
proof fn lemma_sor_no_match(
    arena: Seq<Option<RuleModel>>,
    options: Seq<RuleModel>,
    text: Seq<char>,
) -> (fuel: nat)
    requires
        forall|j: int|
            0 <= j < options.len() ==> defined(arena, untouched(), #[trigger] options[j], text)
                && outcome(arena, untouched(), options[j], text) is None,
    ensures
        run_sor(arena, untouched(), options, text, fuel) == Some(None::<Tree>),
    decreases options.len(),
{
    let post = untouched();
    if options.len() == 0 {
        0
    } else {
        lemma_rule_run(arena, post, options[0], text);
        let first = rule_fuel(arena, post, options[0], text);
        let rest = options.drop_first();
        assert forall|j: int| 0 <= j < rest.len() implies defined(
            arena,
            post,
            #[trigger] rest[j],
            text,
        ) && outcome(arena, post, rest[j], text) is None by {
            assert(rest[j] == options[j + 1]);
        }
        let later = lemma_sor_no_match(arena, rest, text);
        let fuel = first + later;
        super::fuel::lemma_run_more_fuel(arena, post, options[0], text, first, fuel);
        super::fuel::lemma_sor_more_fuel(arena, post, rest, text, later, fuel);
        fuel + 1
    }
}

/// Whether the rule is an optional whose inner rule matches `text`: then
/// the result is the inner rule's node and not a node of the optional.
pub open spec fn passes_inner_node(
    arena: Seq<Option<RuleModel>>,
    rule: RuleModel,
    text: Seq<char>,
) -> bool {
    match rule.body {
        Body::Opt(inner) => outcome(arena, untouched(), *inner, text) is Some,
        _ => false,
    }
}

/// The node of a successful match carries the identifier and the name of
/// the rule that was matched, unless that rule is an optional whose inner
/// rule matched: its result is the inner rule's node.
pub proof fn lemma_node_names_its_rule(
    arena: Seq<Option<RuleModel>>,
    rule: RuleModel,
    text: Seq<char>,
)
    requires
        defined(arena, untouched(), rule, text),
        outcome(arena, untouched(), rule, text) is Some,
        !passes_inner_node(arena, rule, text),
    ensures
        outcome(arena, untouched(), rule, text)->0.type_id == rule.id,
        outcome(arena, untouched(), rule, text)->0.type_label == rule.name,
{
    let post = untouched();
    lemma_rule_run(arena, post, rule, text);
    if let Body::Opt(inner) = rule.body {
        let fuel = rule_fuel(arena, post, rule, text);
        assert(run_body(arena, post, rule.body, rule.id, rule.name, text, (fuel - 1) as nat)
            is Some);
        lemma_run_defined(arena, post, *inner, text, (fuel - 2) as nat);
    }
}

/// Zero-or-more never fails where it is defined, and where its rule does
/// not match at all the node has no children.
pub proof fn lemma_star_never_fails(
    arena: Seq<Option<RuleModel>>,
    rule: RuleModel,
    inner: RuleModel,
    text: Seq<char>,
)
    requires
        rule.body == Body::Star(Box::new(inner)),
        defined(arena, untouched(), rule, text),
    ensures
        outcome(arena, untouched(), rule, text) is Some,
        defined(arena, untouched(), inner, text),
        outcome(arena, untouched(), inner, text) is None ==> outcome(
            arena,
            untouched(),
            rule,
            text,
        )->0.children.len() == 0,
{
    let post = untouched();
    lemma_rule_run(arena, post, rule, text);
    let fuel = rule_fuel(arena, post, rule, text);
    assert(run_body(arena, post, rule.body, rule.id, rule.name, text, (fuel - 1) as nat) is Some);
    assert(run_star(arena, post, inner, text, (fuel - 2) as nat) is Some);
    assert(run(arena, post, inner, text, (fuel - 3) as nat) is Some);
    lemma_run_defined(arena, post, inner, text, (fuel - 3) as nat);
}

/// Zero-or-more of a rule that does not match is defined and gives an empty
/// node without children.
pub proof fn lemma_star_of_no_match(
    arena: Seq<Option<RuleModel>>,
    rule: RuleModel,
    inner: RuleModel,
    text: Seq<char>,
)
    requires
        rule.body == Body::Star(Box::new(inner)),
        defined(arena, untouched(), inner, text),
        outcome(arena, untouched(), inner, text) is None,
    ensures
        defined(arena, untouched(), rule, text),
        outcome(arena, untouched(), rule, text) == Some(
            Tree::leaf(Seq::empty(), rule.id, rule.name),
        ),
{
    let post = untouched();
    lemma_rule_run(arena, post, inner, text);
    let fuel = rule_fuel(arena, post, inner, text);
    assert(run_star(arena, post, inner, text, fuel + 1) == Some(Seq::<Tree>::empty()));
    assert(text.subrange(0, 0) =~= Seq::<char>::empty());
    assert(run_body(arena, post, rule.body, rule.id, rule.name, text, fuel + 2) == Some(
        Some(Tree::leaf(Seq::empty(), rule.id, rule.name)),
    ));
    lemma_run_defined(arena, post, rule, text, fuel + 3);
}

/// One-or-more fails exactly when the first application of its rule fails.
pub proof fn lemma_plus_fails_with_first(
    arena: Seq<Option<RuleModel>>,
    rule: RuleModel,
    inner: RuleModel,
    text: Seq<char>,
)
    requires
        rule.body == Body::Plus(Box::new(inner)),
        defined(arena, untouched(), rule, text),
    ensures
        defined(arena, untouched(), inner, text),
        outcome(arena, untouched(), rule, text) is None <==> outcome(
            arena,
            untouched(),
            inner,
            text,
        ) is None,
{
    let post = untouched();
    lemma_rule_run(arena, post, rule, text);
    let fuel = rule_fuel(arena, post, rule, text);
    assert(run_body(arena, post, rule.body, rule.id, rule.name, text, (fuel - 1) as nat) is Some);
    assert(run_star(arena, post, inner, text, (fuel - 2) as nat) is Some);
    assert(run(arena, post, inner, text, (fuel - 3) as nat) is Some);
    lemma_run_defined(arena, post, inner, text, (fuel - 3) as nat);
}

/// One-or-more of a rule that does not match is defined, and fails.
pub proof fn lemma_plus_of_no_match(
    arena: Seq<Option<RuleModel>>,
    rule: RuleModel,
    inner: RuleModel,
    text: Seq<char>,
)
    requires
        rule.body == Body::Plus(Box::new(inner)),
        defined(arena, untouched(), inner, text),
        outcome(arena, untouched(), inner, text) is None,
    ensures
        defined(arena, untouched(), rule, text),
        outcome(arena, untouched(), rule, text) is None,
{
    let post = untouched();
    lemma_rule_run(arena, post, inner, text);
    let fuel = rule_fuel(arena, post, inner, text);
    assert(run_star(arena, post, inner, text, fuel + 1) == Some(Seq::<Tree>::empty()));
    assert(run_body(arena, post, rule.body, rule.id, rule.name, text, fuel + 2) == Some(
        None::<Tree>,
    ));
    lemma_run_defined(arena, post, rule, text, fuel + 3);
}

/// An optional never fails: it gives what its rule gives where that
/// matches, and an empty node of its own where it does not.
pub proof fn lemma_optional_is_transparent(
    arena: Seq<Option<RuleModel>>,
    rule: RuleModel,
    inner: RuleModel,
    text: Seq<char>,
)
    requires
        rule.body == Body::Opt(Box::new(inner)),
        defined(arena, untouched(), inner, text),
    ensures
        defined(arena, untouched(), rule, text),
        outcome(arena, untouched(), rule, text) == (if outcome(arena, untouched(), inner, text)
            is Some {
            outcome(arena, untouched(), inner, text)
        } else {
            Some(Tree::leaf(Seq::empty(), rule.id, rule.name))
        }),
{
    let post = untouched();
    lemma_rule_run(arena, post, inner, text);
    let fuel = rule_fuel(arena, post, inner, text);
    assert(run_body(arena, post, rule.body, rule.id, rule.name, text, fuel + 1) is Some);
    lemma_run_defined(arena, post, rule, text, fuel + 2);
}

/// Matching with callbacks agrees with plain matching where no success
/// callback changes a node: one is defined exactly where the other is, and
/// both give the same tree.
pub proof fn lemma_idle_hooks_change_nothing(
    handler: Handler,
    arena: Seq<Option<RuleModel>>,
    rule: RuleModel,
    text: Seq<char>,
)
    requires
        handler.transparent(),
    ensures
        defined(arena, handler.post(), rule, text) == defined(arena, untouched(), rule, text),
        outcome(arena, handler.post(), rule, text) == outcome(arena, untouched(), rule, text),
{
    handler.lemma_transparent_post();
}

} // verus!
