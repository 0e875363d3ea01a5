//! The shape of the trees that plain matching builds: every node that has
//! children covers exactly what its children cover, one after the other.
use crate::node::Tree;
use super::fuel::{lemma_rule_run, lemma_run_defined};
use super::laws::{lemma_match_is_prefix, lemma_total_len_prepend};
use super::model::{Body, RuleModel};
use super::semantics::{
    defined, outcome, rule_fuel, run, run_seq, run_sor, run_star, total_len, untouched,
};
use vstd::prelude::*;

verus! {

/// The contents of the trees, one after the other.
pub open spec fn joined(items: Seq<Tree>) -> Seq<char>
    decreases items.len(),
{
    if items.len() == 0 {
        Seq::empty()
    } else {
        joined(items.drop_last()) + items.last().content
    }
}

/// Every node of the tree that has children covers exactly what its
/// children cover, in order and without gaps.
pub open spec fn tiled(tree: Tree) -> bool
    decreases tree,
{
    &&& tree.children.len() > 0 ==> tree.content == joined(tree.children)
    &&& forall|i: int| 0 <= i < tree.children.len() ==> tiled(#[trigger] tree.children[i])
}

/// The contents of a single tree.
pub proof fn lemma_joined_one(tree: Tree)
    ensures
        joined(seq![tree]) == tree.content,
{
    let one = seq![tree];
    assert(one.drop_last() =~= Seq::<Tree>::empty());
    assert(one.last() == tree);
    assert(joined(one.drop_last()) =~= Seq::<char>::empty());
    assert(joined(one) =~= joined(one.drop_last()) + tree.content);
    assert(Seq::<char>::empty() + tree.content =~= tree.content);
}

/// The contents of a tree followed by more trees.
pub proof fn lemma_joined_prepend(first: Tree, rest: Seq<Tree>)
    ensures
        joined(seq![first] + rest) == first.content + joined(rest),
    decreases rest.len(),
{
    let all = seq![first] + rest;
    if rest.len() == 0 {
        assert(all.drop_last() =~= Seq::<Tree>::empty());
        assert(all.last() == first);
        assert(joined(all.drop_last()) =~= Seq::<char>::empty());
        assert(joined(all) =~= first.content + joined(rest));
    } else {
        assert(all.drop_last() =~= seq![first] + rest.drop_last());
        assert(all.last() == rest.last());
        lemma_joined_prepend(first, rest.drop_last());
        assert(joined(all) =~= first.content + joined(rest));
    }
}

proof fn lemma_run_tiled(
    arena: Seq<Option<RuleModel>>,
    rule: RuleModel,
    text: Seq<char>,
    fuel: nat,
)
    requires
        run(arena, untouched(), rule, text, fuel) is Some,
        run(arena, untouched(), rule, text, fuel)->0 is Some,
    ensures
        tiled(run(arena, untouched(), rule, text, fuel)->0->0),
    decreases fuel,
{
    let post = untouched();
    let deeper = (fuel - 2) as nat;
    let tree = run(arena, post, rule, text, fuel)->0->0;
    match rule.body {
        Body::Sequence(rules) => {
            lemma_seq_tiled(arena, rules, text, deeper);
        },
        Body::Sor(options) => {
            lemma_sor_tiled(arena, options, text, deeper);
            let inner = run_sor(arena, post, options, text, deeper)->0->0;
            lemma_joined_one(inner);
        },
        Body::Star(inner) => {
            lemma_star_tiled(arena, *inner, text, deeper);
        },
        Body::Plus(inner) => {
            lemma_star_tiled(arena, *inner, text, deeper);
        },
        Body::Opt(inner) => {
            if run(arena, post, *inner, text, deeper)->0 is Some {
                lemma_run_tiled(arena, *inner, text, deeper);
            }
        },
        Body::Custom(inner) => {
            lemma_run_tiled(arena, *inner, text, deeper);
            let below = run(arena, post, *inner, text, deeper)->0->0;
            lemma_joined_one(below);
        },
        Body::Deferred(slot) => {
            let bound = arena[slot as int]->0;
            lemma_run_tiled(arena, bound, text, deeper);
            let below = run(arena, post, bound, text, deeper)->0->0;
            lemma_joined_one(below);
        },
        Body::One(c) => {},
        Body::Str(literal) => {},
        Body::Ranges(ranges) => {},
        Body::Eof => {},
    }
}

proof fn lemma_seq_tiled(
    arena: Seq<Option<RuleModel>>,
    rules: Seq<RuleModel>,
    text: Seq<char>,
    fuel: nat,
)
    requires
        run_seq(arena, untouched(), rules, text, fuel) is Some,
        run_seq(arena, untouched(), rules, text, fuel)->0 is Some,
    ensures
        ({
            let items = run_seq(arena, untouched(), rules, text, fuel)->0->0;
            &&& total_len(items) <= text.len()
            &&& joined(items) == text.subrange(0, total_len(items) as int)
            &&& forall|i: int| 0 <= i < items.len() ==> tiled(#[trigger] items[i])
        }),
    decreases fuel,
{
    let post = untouched();
    if rules.len() > 0 {
        let below = (fuel - 1) as nat;
        let first = run(arena, post, rules[0], text, below)->0->0;
        let left = text.skip(first.content.len() as int);
        let rest = run_seq(arena, post, rules.drop_first(), left, below)->0->0;
        lemma_run_tiled(arena, rules[0], text, below);
        lemma_run_defined(arena, post, rules[0], text, below);
        lemma_match_is_prefix(arena, rules[0], text);
        lemma_seq_tiled(arena, rules.drop_first(), left, below);
        lemma_total_len_prepend(first, rest);
        lemma_joined_prepend(first, rest);
        assert(first.content + left.subrange(0, total_len(rest) as int) =~= text.subrange(
            0,
            (first.content.len() + total_len(rest)) as int,
        ));
        let items = seq![first] + rest;
        assert forall|i: int| 0 <= i < items.len() implies tiled(#[trigger] items[i]) by {
            if i > 0 {
                assert(items[i] == rest[i - 1]);
            }
        }
    } else {
        assert(text.subrange(0, 0) =~= Seq::<char>::empty());
    }
}

proof fn lemma_sor_tiled(
    arena: Seq<Option<RuleModel>>,
    options: Seq<RuleModel>,
    text: Seq<char>,
    fuel: nat,
)
    requires
        run_sor(arena, untouched(), options, text, fuel) is Some,
        run_sor(arena, untouched(), options, text, fuel)->0 is Some,
    ensures
        tiled(run_sor(arena, untouched(), options, text, fuel)->0->0),
    decreases fuel,
{
    let post = untouched();
    let below = (fuel - 1) as nat;
    if run(arena, post, options[0], text, below)->0 is Some {
        lemma_run_tiled(arena, options[0], text, below);
    } else {
        lemma_sor_tiled(arena, options.drop_first(), text, below);
    }
}

proof fn lemma_star_tiled(
    arena: Seq<Option<RuleModel>>,
    rule: RuleModel,
    text: Seq<char>,
    fuel: nat,
)
    requires
        run_star(arena, untouched(), rule, text, fuel) is Some,
    ensures
        ({
            let items = run_star(arena, untouched(), rule, text, fuel)->0;
            &&& total_len(items) <= text.len()
            &&& joined(items) == text.subrange(0, total_len(items) as int)
            &&& forall|i: int| 0 <= i < items.len() ==> tiled(#[trigger] items[i])
        }),
    decreases fuel,
{
    let post = untouched();
    let below = (fuel - 1) as nat;
    if let Some(Some(first)) = run(arena, post, rule, text, below) {
        let left = text.skip(first.content.len() as int);
        let rest = run_star(arena, post, rule, left, below)->0;
        lemma_run_tiled(arena, rule, text, below);
        lemma_run_defined(arena, post, rule, text, below);
        lemma_match_is_prefix(arena, rule, text);
        lemma_star_tiled(arena, rule, left, below);
        lemma_total_len_prepend(first, rest);
        lemma_joined_prepend(first, rest);
        assert(first.content + left.subrange(0, total_len(rest) as int) =~= text.subrange(
            0,
            (first.content.len() + total_len(rest)) as int,
        ));
        let items = seq![first] + rest;
        assert forall|i: int| 0 <= i < items.len() implies tiled(#[trigger] items[i]) by {
            if i > 0 {
                assert(items[i] == rest[i - 1]);
            }
        }
    } else {
        assert(text.subrange(0, 0) =~= Seq::<char>::empty());
    }
}

/// The tree of a successful match is tiled: every node that has children
/// covers exactly what its children cover, in order and without gaps.
pub proof fn lemma_match_is_tiled(
    arena: Seq<Option<RuleModel>>,
    rule: RuleModel,
    text: Seq<char>,
)
    requires
        defined(arena, untouched(), rule, text),
        outcome(arena, untouched(), rule, text) is Some,
    ensures
        tiled(outcome(arena, untouched(), rule, text)->0),
{
    lemma_rule_run(arena, untouched(), rule, text);
    lemma_run_tiled(arena, rule, text, rule_fuel(arena, untouched(), rule, text));
}

} // verus!
