//! What it means for a rule to match a text.
//!
//! Matching is defined with a step budget (`fuel`): a run that is given
//! enough fuel ends with `Some(outcome)`, where the outcome is the tree that
//! was built or `None` for a failed match. A run that is not given enough
//! ends with `None`. A match is *defined* when some budget is enough. It is
//! not defined where a repetition's rule keeps matching without consuming
//! anything, where rules refer to each other without consuming anything in
//! between, or where a rule refers to a slot that was never filled.
//!
//! The parameter `post` is what the success hooks do to each tree right
//! after it is built; plain matching uses [`untouched`].
use crate::node::Tree;
use super::model::{Body, RuleModel};
use vstd::prelude::*;

verus! {

/// The effect of no success hook at all.
pub open spec fn untouched() -> spec_fn(Tree) -> Tree {
    |t: Tree| t
}

/// `c` lies in one of the inclusive ranges.
pub open spec fn in_ranges(ranges: Seq<(char, char)>, c: char) -> bool {
    exists|i: int| 0 <= i < ranges.len() && in_range(#[trigger] ranges[i], c)
}

/// `c` lies between the two ends of `range`, ends included.
pub open spec fn in_range(range: (char, char), c: char) -> bool {
    range.0 as u32 <= c as u32 && c as u32 <= range.1 as u32
}

/// The number of characters that the trees cover together.
pub open spec fn total_len(items: Seq<Tree>) -> nat
    decreases items.len(),
{
    if items.len() == 0 {
        0
    } else {
        total_len(items.drop_last()) + items.last().content.len()
    }
}

/// A node of a rule that wraps the single tree `inner`.
pub open spec fn wrapping(id: usize, name: Seq<char>, inner: Tree) -> Tree {
    Tree { type_id: id, type_label: name, content: inner.content, children: seq![inner] }
}

/// A node of a rule over the start of `text` that its children cover.
pub open spec fn spanning(id: usize, name: Seq<char>, text: Seq<char>, items: Seq<Tree>) -> Tree {
    Tree {
        type_id: id,
        type_label: name,
        content: text.subrange(0, total_len(items) as int),
        children: items,
    }
}

/// The run of a rule on `text`.
pub open spec fn run(
    arena: Seq<Option<RuleModel>>,
    post: spec_fn(Tree) -> Tree,
    rule: RuleModel,
    text: Seq<char>,
    fuel: nat,
) -> Option<Option<Tree>>
    decreases fuel,
{
    if fuel == 0 {
        None
    } else {
        run_body(arena, post, rule.body, rule.id, rule.name, text, (fuel - 1) as nat)
    }
}

/// The run of a matcher on `text`, for a rule with the given identifier and
/// name.
pub open spec fn run_body(
    arena: Seq<Option<RuleModel>>,
    post: spec_fn(Tree) -> Tree,
    body: Body,
    id: usize,
    name: Seq<char>,
    text: Seq<char>,
    fuel: nat,
) -> Option<Option<Tree>>
    decreases fuel,
{
    match body {
        Body::One(c) => Some(
            if text.len() > 0 && text[0] == c {
                Some(post(Tree::leaf(text.subrange(0, 1), id, name)))
            } else {
                None
            },
        ),
        Body::Str(literal) => Some(
            if crate::text::is_prefix(literal, text) {
                Some(post(Tree::leaf(text.subrange(0, literal.len() as int), id, name)))
            } else {
                None
            },
        ),
        Body::Ranges(ranges) => Some(
            if text.len() > 0 && in_ranges(ranges, text[0]) {
                Some(post(Tree::leaf(text.subrange(0, 1), id, name)))
            } else {
                None
            },
        ),
        Body::Eof => Some(
            if text.len() == 0 {
                Some(post(Tree::leaf(Seq::empty(), id, name)))
            } else {
                None
            },
        ),
        Body::Sequence(rules) => if fuel == 0 {
            None
        } else {
            match run_seq(arena, post, rules, text, (fuel - 1) as nat) {
                None => None,
                Some(None) => Some(None),
                Some(Some(items)) => Some(Some(post(spanning(id, name, text, items)))),
            }
        },
        Body::Sor(options) => if fuel == 0 {
            None
        } else {
            match run_sor(arena, post, options, text, (fuel - 1) as nat) {
                None => None,
                Some(None) => Some(None),
                Some(Some(inner)) => Some(Some(post(wrapping(id, name, inner)))),
            }
        },
        Body::Star(rule) => if fuel == 0 {
            None
        } else {
            match run_star(arena, post, *rule, text, (fuel - 1) as nat) {
                None => None,
                Some(items) => Some(Some(post(spanning(id, name, text, items)))),
            }
        },
        Body::Plus(rule) => if fuel == 0 {
            None
        } else {
            match run_star(arena, post, *rule, text, (fuel - 1) as nat) {
                None => None,
                Some(items) => if items.len() == 0 {
                    Some(None)
                } else {
                    Some(Some(post(spanning(id, name, text, items))))
                },
            }
        },
        Body::Opt(rule) => if fuel == 0 {
            None
        } else {
            match run(arena, post, *rule, text, (fuel - 1) as nat) {
                None => None,
                Some(None) => Some(Some(post(Tree::leaf(Seq::empty(), id, name)))),
                Some(Some(inner)) => Some(Some(post(inner))),
            }
        },
        Body::Custom(rule) => if fuel == 0 {
            None
        } else {
            match run(arena, post, *rule, text, (fuel - 1) as nat) {
                None => None,
                Some(None) => Some(None),
                Some(Some(inner)) => Some(Some(post(wrapping(id, name, inner)))),
            }
        },
        Body::Deferred(slot) => if fuel == 0 || slot >= arena.len() || arena[slot as int] is None {
            None
        } else {
            match run(arena, post, arena[slot as int]->0, text, (fuel - 1) as nat) {
                None => None,
                Some(None) => Some(None),
                Some(Some(inner)) => Some(Some(post(wrapping(id, name, inner)))),
            }
        },
    }
}

/// The run of a list of rules, each on what the ones before it left: the
/// trees they build, or `None` as soon as one of them fails.
pub open spec fn run_seq(
    arena: Seq<Option<RuleModel>>,
    post: spec_fn(Tree) -> Tree,
    rules: Seq<RuleModel>,
    text: Seq<char>,
    fuel: nat,
) -> Option<Option<Seq<Tree>>>
    decreases fuel,
{
    if rules.len() == 0 {
        Some(Some(Seq::empty()))
    } else if fuel == 0 {
        None
    } else {
        match run(arena, post, rules[0], text, (fuel - 1) as nat) {
            None => None,
            Some(None) => Some(None),
            Some(Some(first)) => if first.content.len() > text.len() {
                None
            } else {
                match run_seq(
                    arena,
                    post,
                    rules.drop_first(),
                    text.skip(first.content.len() as int),
                    (fuel - 1) as nat,
                ) {
                    None => None,
                    Some(None) => Some(None),
                    Some(Some(rest)) => Some(Some(seq![first] + rest)),
                }
            },
        }
    }
}

/// The run of a list of options on `text`: the tree of the first one that
/// matches, or `None` if none does.
pub open spec fn run_sor(
    arena: Seq<Option<RuleModel>>,
    post: spec_fn(Tree) -> Tree,
    options: Seq<RuleModel>,
    text: Seq<char>,
    fuel: nat,
) -> Option<Option<Tree>>
    decreases fuel,
{
    if options.len() == 0 {
        Some(None)
    } else if fuel == 0 {
        None
    } else {
        match run(arena, post, options[0], text, (fuel - 1) as nat) {
            None => None,
            Some(Some(inner)) => Some(Some(inner)),
            Some(None) => run_sor(arena, post, options.drop_first(), text, (fuel - 1) as nat),
        }
    }
}

/// The run of a rule again and again, each time on what the time before
/// left, until it fails: the trees it built.
pub open spec fn run_star(
    arena: Seq<Option<RuleModel>>,
    post: spec_fn(Tree) -> Tree,
    rule: RuleModel,
    text: Seq<char>,
    fuel: nat,
) -> Option<Seq<Tree>>
    decreases fuel,
{
    if fuel == 0 {
        None
    } else {
        match run(arena, post, rule, text, (fuel - 1) as nat) {
            None => None,
            Some(None) => Some(Seq::empty()),
            Some(Some(first)) => if first.content.len() > text.len() {
                None
            } else {
                match run_star(
                    arena,
                    post,
                    rule,
                    text.skip(first.content.len() as int),
                    (fuel - 1) as nat,
                ) {
                    None => None,
                    Some(rest) => Some(seq![first] + rest),
                }
            },
        }
    }
}

/// Some budget is enough for the rule's run on `text`.
#[verifier::opaque]
pub open spec fn defined(
    arena: Seq<Option<RuleModel>>,
    post: spec_fn(Tree) -> Tree,
    rule: RuleModel,
    text: Seq<char>,
) -> bool {
    exists|fuel: nat| run(arena, post, rule, text, fuel) is Some
}

/// Some budget is enough for the matcher's run on `text`.
#[verifier::opaque]
pub open spec fn body_defined(
    arena: Seq<Option<RuleModel>>,
    post: spec_fn(Tree) -> Tree,
    body: Body,
    id: usize,
    name: Seq<char>,
    text: Seq<char>,
) -> bool {
    exists|fuel: nat| run_body(arena, post, body, id, name, text, fuel) is Some
}

/// The least budget that is enough for the rule's run on `text`.
#[verifier::opaque]
pub open spec fn rule_fuel(
    arena: Seq<Option<RuleModel>>,
    post: spec_fn(Tree) -> Tree,
    rule: RuleModel,
    text: Seq<char>,
) -> nat {
    choose|fuel: nat|
        run(arena, post, rule, text, fuel) is Some && forall|less: nat|
            run(arena, post, rule, text, less) is Some ==> fuel <= less
}

/// The least budget that is enough for the matcher's run on `text`.
#[verifier::opaque]
pub open spec fn body_fuel(
    arena: Seq<Option<RuleModel>>,
    post: spec_fn(Tree) -> Tree,
    body: Body,
    id: usize,
    name: Seq<char>,
    text: Seq<char>,
) -> nat {
    choose|fuel: nat|
        run_body(arena, post, body, id, name, text, fuel) is Some && forall|less: nat|
            run_body(arena, post, body, id, name, text, less) is Some ==> fuel <= less
}

/// What matching the rule against `text` gives, where the match is defined:
/// the tree, or `None` for a failed match.
pub open spec fn outcome(
    arena: Seq<Option<RuleModel>>,
    post: spec_fn(Tree) -> Tree,
    rule: RuleModel,
    text: Seq<char>,
) -> Option<Tree> {
    run(arena, post, rule, text, rule_fuel(arena, post, rule, text))->0
}

/// What matching the matcher against `text` gives, where the match is
/// defined.
pub open spec fn body_outcome(
    arena: Seq<Option<RuleModel>>,
    post: spec_fn(Tree) -> Tree,
    body: Body,
    id: usize,
    name: Seq<char>,
    text: Seq<char>,
) -> Option<Tree> {
    run_body(arena, post, body, id, name, text, body_fuel(arena, post, body, id, name, text))->0
}

} // verus!
