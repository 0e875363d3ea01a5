use pegmatch::node::Node;
use pegmatch::registry::{Kind, Registry};
use pegmatch::rule::{Arena, Custom, One, Opt, Plus, Rule, Sequence, Sor, Star, UninitializedRule};
use pegmatch::rule_handler::Handler;

fn ab(registry: &mut Registry) -> Rule {
    let a = One::rule('a', registry);
    let b = One::rule('b', registry);
    Sequence::rule(vec![a, b], registry)
}

fn a_or_b(registry: &mut Registry) -> Rule {
    let a = One::rule('a', registry);
    let b = One::rule('b', registry);
    Sor::rule(vec![a, b], registry)
}

#[test]
fn seq_rule_matches_multiple_rules() {
    let mut registry = Registry::new();
    let arena = Arena::new();
    let rule = ab(&mut registry);
    let input = "ab";
    let mut expected_node = Node::new("ab", rule.id, &rule.name);
    expected_node.add_child(Node::new("a", rule.id, &rule.name));
    expected_node.add_child(Node::new("b", rule.id, &rule.name));

    let result = rule.parse(input, &arena);
    let result2 = rule.parse_with_handler(input, &Handler::new(), &arena);
    assert_eq!(result, result2);

    assert_eq!(result, Some(expected_node));
}

#[test]
fn seq_rule_does_not_match_partial_input() {
    let mut registry = Registry::new();
    let arena = Arena::new();
    let rule = ab(&mut registry);
    let input = "a";

    let result = rule.parse(input, &arena);
    let result2 = rule.parse_with_handler(input, &Handler::new(), &arena);
    assert_eq!(result, result2);

    assert_eq!(result, None);
}

#[test]
fn seq_rule_does_not_match_empty_input() {
    let mut registry = Registry::new();
    let arena = Arena::new();
    let rule = ab(&mut registry);
    let input = "";

    let result = rule.parse(input, &arena);
    let result2 = rule.parse_with_handler(input, &Handler::new(), &arena);
    assert_eq!(result, result2);

    assert_eq!(result, None);
}

#[test]
fn seq_rule_does_match_longer_input() {
    let mut registry = Registry::new();
    let arena = Arena::new();
    let rule = ab(&mut registry);
    let input = "abc";

    let result = rule.parse(input, &arena);
    let result2 = rule.parse_with_handler(input, &Handler::new(), &arena);
    assert_eq!(result, result2);

    let mut expected_node = Node::new("ab", rule.id, &rule.name);
    expected_node.add_child(Node::new("a", rule.id, &rule.name));
    expected_node.add_child(Node::new("b", rule.id, &rule.name));
    assert_eq!(result, Some(expected_node));
}

#[test]
fn seq_rule_without_rules_matches_nothing_of_any_input() {
    let mut registry = Registry::new();
    let arena = Arena::new();
    let rule = Sequence::rule(vec![], &mut registry);
    let node = rule.parse("abc", &arena).unwrap();
    assert_eq!(node.content, "");
    assert_eq!(node.children.len(), 0);
    assert_eq!(node.type_label, "Seq");
}

#[test]
fn seq_rule_fails_with_its_first_rule_whatever_follows() {
    let mut registry = Registry::new();
    let arena = Arena::new();
    let a = One::rule('a', &mut registry);
    let anything = Star::rule(One::rule('x', &mut registry), &mut registry);
    let rule = Sequence::rule(vec![a.get(), anything], &mut registry);
    assert_eq!(a.parse("xx", &arena), None);
    assert_eq!(rule.parse("xx", &arena), None);
}

#[test]
fn macro_sor_works() {
    let mut registry = Registry::new();
    let first = Sor::rule(vec![], &mut registry);
    let second = Sor::rule(vec![], &mut registry);
    let rule = Custom::new_rule(
        Sor::rule(vec![first, second], &mut registry),
        "test".to_string(),
        &mut registry,
    );
    assert_eq!(rule.name, "test");
}

#[test]
fn sor_rule_matches_first_rule() {
    let mut registry = Registry::new();
    let arena = Arena::new();
    let rule = a_or_b(&mut registry);
    let input = "a";
    let mut sor_node = Node::new("a", rule.id, &rule.name);
    sor_node.add_child(Node::new("a", registry.singleton_id(Kind::Char), &"Char".to_string()));

    let result = rule.parse(input, &arena);

    assert_eq!(result, Some(sor_node));
}

#[test]
fn sor_rule_matches_second_rule() {
    let mut registry = Registry::new();
    let arena = Arena::new();
    let rule = a_or_b(&mut registry);
    let input = "b";
    let mut sor_node = Node::new("b", rule.id, &rule.name);
    sor_node.add_child(Node::new("b", registry.singleton_id(Kind::Char), &"Char".to_string()));

    let result = rule.parse(input, &arena);
    let result2 = rule.parse_with_handler(input, &Handler::new(), &arena);
    assert_eq!(result, result2);

    assert_eq!(result, Some(sor_node));
}

#[test]
fn sor_rule_does_not_match_empty_input() {
    let mut registry = Registry::new();
    let arena = Arena::new();
    let rule = a_or_b(&mut registry);
    let input = "";

    let result = rule.parse(input, &arena);
    let result2 = rule.parse_with_handler(input, &Handler::new(), &arena);
    assert_eq!(result, result2);

    assert_eq!(result, None);
}

#[test]
fn sor_rule_does_not_match_no_rule() {
    let mut registry = Registry::new();
    let arena = Arena::new();
    let rule = Sor::rule(vec![], &mut registry);
    let input = "a";

    let result = rule.parse(input, &arena);
    let result2 = rule.parse_with_handler(input, &Handler::new(), &arena);
    assert_eq!(result, result2);

    assert_eq!(result, None);
}

#[test]
fn sor_rule_does_match_longer_input() {
    let mut registry = Registry::new();
    let arena = Arena::new();
    let rule = a_or_b(&mut registry);
    let input = "abc";
    let mut sor_node = Node::new("a", rule.id, &rule.name);
    sor_node.add_child(Node::new("a", registry.singleton_id(Kind::Char), &"Char".to_string()));

    let result = rule.parse(input, &arena);
    let result2 = rule.parse_with_handler(input, &Handler::new(), &arena);
    assert_eq!(result, result2);

    assert_eq!(result, Some(sor_node));
}

#[test]
fn sor_rule_child_is_the_node_of_the_option_that_won() {
    let mut registry = Registry::new();
    let arena = Arena::new();
    let first = Custom::new_rule(One::rule('a', &mut registry), "first".to_string(), &mut registry);
    let second = Custom::new_rule(
        Str::rule("ab".to_string(), &mut registry),
        "second".to_string(),
        &mut registry,
    );
    let first_id = first.id;
    let second_id = second.id;
    let rule = Sor::rule(vec![first, second], &mut registry);
    let node = rule.parse("ab", &arena).unwrap();
    assert_eq!(node.type_id, rule.id);
    assert_eq!(node.content, "a");
    assert_eq!(node.children.len(), 1);
    assert_eq!(node.children[0].type_id, first_id);
    let swapped = Sor::rule(
        vec![
            Custom::new_rule(One::rule('x', &mut registry), "x".to_string(), &mut registry),
            Custom::new_rule(One::rule('a', &mut registry), "a".to_string(), &mut registry),
        ],
        &mut registry,
    );
    let node = swapped.parse("ab", &arena).unwrap();
    assert_eq!(node.children.len(), 1);
    assert_eq!(node.children[0].type_label, "a");
    assert_ne!(node.children[0].type_id, second_id);
}

use pegmatch::rule::Str;

#[test]
fn sor_rule_child_of_a_matching_optional_is_the_inner_node() {
    let mut registry = Registry::new();
    let arena = Arena::new();
    let optional = Opt::rule(One::rule('a', &mut registry), &mut registry);
    let optional_id = optional.id;
    let rule = Sor::rule(vec![optional, One::rule('b', &mut registry)], &mut registry);
    let node = rule.parse("a", &arena).unwrap();
    assert_eq!(node.children.len(), 1);
    assert_eq!(node.children[0].type_id, registry.singleton_id(Kind::Char));
    assert_ne!(node.children[0].type_id, optional_id);
}

#[test]
fn star_rule_matches_zero_times() {
    let mut registry = Registry::new();
    let arena = Arena::new();
    let rule = Star::rule(One::rule('a', &mut registry), &mut registry);
    let input = "";

    let result = rule.parse(input, &arena);
    let result2 = rule.parse_with_handler(input, &Handler::new(), &arena);
    assert_eq!(result, result2);

    let expected_node = Node::new_empty(rule.id, &rule.name);
    assert_eq!(result, Some(expected_node));
}

#[test]
fn star_rule_matches_multiple_times() {
    let mut registry = Registry::new();
    let arena = Arena::new();
    let rule = Star::rule(One::rule('a', &mut registry), &mut registry);
    let input = "aaa";
    let mut expected_node = Node::new("aaa", rule.id, &rule.name);
    expected_node.add_child(Node::new("a", rule.id, &rule.name));
    expected_node.add_child(Node::new("a", rule.id, &rule.name));
    expected_node.add_child(Node::new("a", rule.id, &rule.name));

    let result = rule.parse(input, &arena);
    let result2 = rule.parse_with_handler(input, &Handler::new(), &arena);
    assert_eq!(result, result2);

    assert_eq!(result, Some(expected_node));
}

#[test]
fn star_rule_matches_longer_input() {
    let mut registry = Registry::new();
    let arena = Arena::new();
    let rule = Star::rule(One::rule('a', &mut registry), &mut registry);
    let input = "aaaab";
    let mut expected_node = Node::new("aaaa", rule.id, &rule.name);
    expected_node.add_child(Node::new("a", rule.id, &"Char".to_string()));
    expected_node.add_child(Node::new("a", rule.id, &"Char".to_string()));
    expected_node.add_child(Node::new("a", rule.id, &"Char".to_string()));
    expected_node.add_child(Node::new("a", rule.id, &"Char".to_string()));

    let result = rule.parse(input, &arena);
    let result2 = rule.parse_with_handler(input, &Handler::new(), &arena);
    assert_eq!(result, result2);

    assert_eq!(result, Some(expected_node));
}

#[test]
fn star_rule_has_no_children_where_its_rule_does_not_match() {
    let mut registry = Registry::new();
    let arena = Arena::new();
    let inner = One::rule('a', &mut registry);
    let rule = Star::rule(inner.get(), &mut registry);
    assert_eq!(inner.parse("b", &arena), None);
    let node = rule.parse("b", &arena).unwrap();
    assert_eq!(node.children.len(), 0);
    assert_eq!(node.content, "");
    assert_eq!(node.type_id, rule.id);
    assert_eq!(node.type_label, "Star");
}

#[test]
fn plus_rule_matches_one_time() {
    let mut registry = Registry::new();
    let arena = Arena::new();
    let rule = Plus::rule(One::rule('a', &mut registry), &mut registry);
    let input = "a";

    let result = rule.parse(input, &arena);
    let result2 = rule.parse_with_handler(input, &Handler::new(), &arena);
    assert_eq!(result, result2);

    let mut expected_node = Node::new("a", rule.id, &rule.name);
    expected_node.add_child(Node::new("a", rule.id, &rule.name));
    assert_eq!(result, Some(expected_node));
}

#[test]
fn plus_rule_matches_multiple_times() {
    let mut registry = Registry::new();
    let arena = Arena::new();
    let rule = Plus::rule(One::rule('a', &mut registry), &mut registry);
    let input = "aaa";
    let mut expected_node = Node::new("aaa", rule.id, &rule.name);
    expected_node.add_child(Node::new("a", rule.id, &rule.name));
    expected_node.add_child(Node::new("a", rule.id, &rule.name));
    expected_node.add_child(Node::new("a", rule.id, &rule.name));

    let result = rule.parse(input, &arena);
    let result2 = rule.parse_with_handler(input, &Handler::new(), &arena);
    assert_eq!(result, result2);

    assert_eq!(result, Some(expected_node));
}

#[test]
fn plus_rule_does_not_match_zero_times() {
    let mut registry = Registry::new();
    let arena = Arena::new();
    let rule = Plus::rule(One::rule('a', &mut registry), &mut registry);
    let input = "";

    let result = rule.parse(input, &arena);
    let result2 = rule.parse_with_handler(input, &Handler::new(), &arena);
    assert_eq!(result, result2);

    assert_eq!(result, None);
}

#[test]
fn plus_rule_matches_longer_input() {
    let mut registry = Registry::new();
    let arena = Arena::new();
    let rule = Plus::rule(One::rule('a', &mut registry), &mut registry);
    let input = "aaaab";
    let mut expected_node = Node::new("aaaa", rule.id, &rule.name);
    expected_node.add_child(Node::new("a", rule.id, &rule.name));
    expected_node.add_child(Node::new("a", rule.id, &rule.name));
    expected_node.add_child(Node::new("a", rule.id, &rule.name));
    expected_node.add_child(Node::new("a", rule.id, &rule.name));

    let result = rule.parse(input, &arena);
    let result2 = rule.parse_with_handler(input, &Handler::new(), &arena);
    assert_eq!(result, result2);
    assert_eq!(result, Some(expected_node));
}

#[test]
fn plus_rule_fails_exactly_when_its_rule_fails_at_the_start() {
    let mut registry = Registry::new();
    let arena = Arena::new();
    let inner = One::rule('a', &mut registry);
    let rule = Plus::rule(inner.get(), &mut registry);
    for input in ["", "a", "b", "ab", "ba", "aab"] {
        assert_eq!(rule.parse(input, &arena).is_none(), inner.parse(input, &arena).is_none());
    }
}

#[test]
fn opt_rule_matches_zero_times() {
    let mut registry = Registry::new();
    let arena = Arena::new();
    let rule = Opt::rule(One::rule('a', &mut registry), &mut registry);
    let input = "";

    let result = rule.parse(input, &arena);
    let result2 = rule.parse_with_handler(input, &Handler::new(), &arena);
    assert_eq!(result, result2);

    let expected_node = Node::new_empty(rule.id, &rule.name);
    assert_eq!(result, Some(expected_node));
}

#[test]
fn opt_rule_matches_one_time() {
    let mut registry = Registry::new();
    let arena = Arena::new();
    let rule = Opt::rule(One::rule('a', &mut registry), &mut registry);
    let input = "a";

    let result = rule.parse(input, &arena);
    let result2 = rule.parse_with_handler(input, &Handler::new(), &arena);
    assert_eq!(result, result2);

    let expected_node = Node::new("a", rule.id, &rule.name);
    assert_eq!(result, Some(expected_node));
}

#[test]
fn opt_rule_matches_one_time_with_custom_name() {
    let mut registry = Registry::new();
    let arena = Arena::new();
    let rule = Custom::new_rule(
        Opt::rule(One::rule('a', &mut registry), &mut registry),
        "test".to_string(),
        &mut registry,
    );
    let input = "a";

    let result = rule.parse(input, &arena);
    let result2 = rule.parse_with_handler(input, &Handler::new(), &arena);
    assert_eq!(result, result2);

    let mut expected_node = Node::new("a", rule.id, &"test".to_string());
    expected_node.children.push(Node::new(
        "a",
        registry.singleton_id(Kind::Char),
        &"Char".to_string(),
    ));
    assert_eq!(result, Some(expected_node));
}

#[test]
fn opt_rule_matches_incompatible_input() {
    let mut registry = Registry::new();
    let arena = Arena::new();
    let rule = Opt::rule(One::rule('a', &mut registry), &mut registry);
    let input = "b";

    let result = rule.parse(input, &arena);
    let result2 = rule.parse_with_handler(input, &Handler::new(), &arena);
    assert_eq!(result, result2);

    let expected_node = Node::new_empty(rule.id, &rule.name);

    assert_eq!(result, Some(expected_node));
}

#[test]
fn opt_rule_matches_only_first_character() {
    let mut registry = Registry::new();
    let arena = Arena::new();
    let rule = Opt::rule(One::rule('a', &mut registry), &mut registry);
    let input = "aa";

    let result = rule.parse(input, &arena);
    let result2 = rule.parse_with_handler(input, &Handler::new(), &arena);
    assert_eq!(result, result2);

    let expected_node = Node::new("a", rule.id, &rule.name);
    assert_eq!(result, Some(expected_node));
}

#[test]
fn opt_rule_gives_the_inner_node_itself_or_an_empty_node_of_its_own() {
    let mut registry = Registry::new();
    let arena = Arena::new();
    let inner = Custom::new_rule(One::rule('a', &mut registry), "inner".to_string(), &mut registry);
    let rule = Opt::rule(inner.get(), &mut registry);
    let matched = rule.parse("a", &arena).unwrap();
    let direct = inner.parse("a", &arena).unwrap();
    assert_eq!(matched.type_id, direct.type_id);
    assert_eq!(matched.type_label, "inner");
    assert_eq!(matched, direct);
    let missed = rule.parse("b", &arena).unwrap();
    assert_eq!(missed.type_id, rule.id);
    assert_eq!(missed.type_label, "Opt");
    assert_eq!(missed.content, "");
    assert_eq!(missed.children.len(), 0);
}

#[test]
fn custom_macro_works() {
    let mut registry = Registry::new();
    let arena = Arena::new();
    let rule = Custom::new_rule(One::rule('a', &mut registry), "Custom".to_string(), &mut registry);
    let input = "a";
    let node = rule.parse(input, &arena).unwrap();
    assert_eq!(node.content, "a");
    assert_ne!(node.type_id, registry.singleton_id(Kind::Char));
    assert_eq!(node.type_label, "Custom");
    assert_eq!(node.children().len(), 1);
    assert!(node.children()[0].content == "a");
    assert!(node.children()[0].type_id == registry.singleton_id(Kind::Char));
}

#[test]
fn custom_macro_works_with_seq() {
    let mut registry = Registry::new();
    let arena = Arena::new();
    let rule = Custom::new_rule(ab(&mut registry), "Custom".to_string(), &mut registry);
    let input = "ab";
    let node = rule.parse(input, &arena).unwrap();
    let seq_id = registry.singleton_id(Kind::Sequence);
    let char_id = registry.singleton_id(Kind::Char);
    assert_eq!(node.content, "ab");
    assert_ne!(node.type_id, seq_id);
    assert_eq!(node.type_label, "Custom");
    assert_eq!(node.children().len(), 1);
    assert_eq!(node.children()[0].content, "ab");
    assert_eq!(node.children()[0].type_id, seq_id);
    assert_eq!(node.children()[0].children().len(), 2);
    assert_eq!(node.children()[0].children()[0].content, "a");
    assert_eq!(node.children()[0].children()[0].type_id, char_id);
    assert_eq!(node.children()[0].children()[1].content, "b");
    assert_eq!(node.children()[0].children()[1].type_id, char_id);
}

#[test]
fn custom_rule_fails_with_its_inner_rule() {
    let mut registry = Registry::new();
    let arena = Arena::new();
    let rule = Custom::new_rule(One::rule('a', &mut registry), "Custom".to_string(), &mut registry);
    assert_eq!(rule.parse("b", &arena), None);
    assert_eq!(rule.parse_with_handler("b", &Handler::new(), &arena), None);
    assert_eq!(
        rule.parse_with_handler("a", &Handler::new(), &arena),
        rule.parse("a", &arena)
    );
}

#[test]
fn latant_init_for_custom_rule() {
    let mut registry = Registry::new();
    let mut arena = Arena::new();
    let rule = UninitializedRule::new("Custom".to_string(), &mut registry, &mut arena);
    let rule = rule.init(One::rule('a', &mut registry), &mut arena);
    let input = "a";
    let node = rule.parse(input, &arena).unwrap();
    assert_eq!(node.content, "a");
    assert_ne!(node.type_id, registry.singleton_id(Kind::Char));
    assert_eq!(node.type_label, "Custom");
    assert_eq!(node.children().len(), 1);
    assert_eq!(node.children()[0].content, "a");
    assert_eq!(node.children()[0].type_id, registry.singleton_id(Kind::Char));
    assert_eq!(node.children()[0].type_label, "Char");
}

#[test]
fn back_and_forth() {
    let mut registry = Registry::new();
    let mut arena = Arena::new();
    let a_name = String::from("ARule");
    let b_name = String::from("BRule");
    let a = UninitializedRule::new(a_name.clone(), &mut registry, &mut arena);
    let b = UninitializedRule::new(b_name.clone(), &mut registry, &mut arena);
    let a_body = Sor::rule(
        vec![
            Sequence::rule(vec![One::rule('a', &mut registry), b.get()], &mut registry),
            One::rule('b', &mut registry),
        ],
        &mut registry,
    );
    let a = a.init(a_body, &mut arena);
    let b_body = Sor::rule(
        vec![
            Sequence::rule(vec![One::rule('b', &mut registry), a.get()], &mut registry),
            One::rule('a', &mut registry),
        ],
        &mut registry,
    );
    let b = b.init(b_body, &mut arena);
    let res = a.parse("abb", &arena);
    let res2 = b.parse("baa", &arena);
    let res3 = a.parse("ababababaa", &arena);
    let res4 = a.parse("ababababa", &arena);
    assert!(res.is_some());
    assert!(res2.is_some());
    assert!(res3.is_some());
    assert!(res4.is_none());
    let n = res3.as_ref().unwrap();
    assert_eq!(n.content, "ababababaa");
    assert_eq!(n.type_label, a_name);
    assert_eq!(n.children().len(), 1);
    let n = &n.children()[0];
    assert_eq!(n.content, "ababababaa");
    assert_eq!(n.type_label, "Sor");
    assert_eq!(n.children().len(), 1);
    let n = &n.children()[0];
    assert_eq!(n.children().len(), 2);
    assert_eq!(n.type_label, "Seq");
    let n1 = &n.children()[0];
    let n2 = &n.children()[1];
    assert_eq!(n1.content, "a");
    assert_eq!(n1.type_label, "Char");
    assert_eq!(n1.children().len(), 0);
    assert_eq!(n2.content, "babababaa");
    assert_eq!(n2.type_label, b_name);
    assert_eq!(n2.children().len(), 1);
    let n = &n2.children()[0];
    assert_eq!(n.content, "babababaa");
    assert_eq!(n.type_label, "Sor");
    assert_eq!(n.children().len(), 1);
    let n = &n.children()[0];
    assert_eq!(n.children().len(), 2);
    assert_eq!(n.type_label, "Seq");
    assert_eq!(n.content, "babababaa");
    let n1 = &n.children()[0];
    let n2 = &n.children()[1];
    assert_eq!(n1.content, "b");
    assert_eq!(n2.content, "abababaa");
    assert_eq!(n1.type_label, "Char");
    assert_eq!(n2.type_label, a_name);
    assert_eq!(n1.children().len(), 0);
    assert_eq!(n2.children().len(), 1);
}

#[test]
fn a_match_covers_a_prefix_of_the_input() {
    let mut registry = Registry::new();
    let arena = Arena::new();
    let rule = Star::rule(
        Sor::rule(vec![ab(&mut registry), One::rule('c', &mut registry)], &mut registry),
        &mut registry,
    );
    for input in ["", "a", "ab", "abc", "abcab", "cabx", "xabc", "ccc"] {
        let node = rule.parse(input, &arena).unwrap();
        assert!(input.starts_with(node.content));
        assert!(node.content.len() <= input.len());
    }
    assert_eq!(rule.parse("abcabx", &arena).unwrap().content, "abcab");
    assert_eq!(rule.parse("aab", &arena).unwrap().content, "");
}

#[test]
fn guarded_rules_are_told_by_their_form() {
    let mut registry = Registry::new();
    let mut arena = Arena::new();
    let a = One::rule('a', &mut registry);
    let empty = Str::rule(String::new(), &mut registry);
    let word = Str::rule("ab".to_string(), &mut registry);
    assert!(a.is_consuming());
    assert!(word.is_consuming());
    assert!(!empty.is_consuming());
    assert!(a.is_guarded(&arena, false));
    assert!(empty.is_guarded(&arena, false));
    let maybe = Opt::rule(a.get(), &mut registry);
    assert!(!maybe.is_consuming());
    assert!(maybe.is_guarded(&arena, false));
    let stars = Star::rule(a.get(), &mut registry);
    assert!(!stars.is_consuming());
    assert!(stars.is_guarded(&arena, false));
    let idle = Star::rule(maybe.get(), &mut registry);
    assert!(!idle.is_guarded(&arena, true));
    let plus = Plus::rule(word.get(), &mut registry);
    assert!(plus.is_consuming());
    assert!(plus.is_guarded(&arena, false));
    let seq = Sequence::rule(vec![maybe.get(), a.get(), stars.get()], &mut registry);
    assert!(seq.is_consuming());
    assert!(seq.is_guarded(&arena, false));
    let loose = Sequence::rule(vec![maybe.get(), stars.get()], &mut registry);
    assert!(!loose.is_consuming());
    assert!(loose.is_guarded(&arena, false));
    assert!(!Sequence::rule(vec![], &mut registry).is_consuming());
    let choice = Sor::rule(vec![a.get(), word.get()], &mut registry);
    assert!(choice.is_consuming());
    let weak = Sor::rule(vec![a.get(), maybe.get()], &mut registry);
    assert!(!weak.is_consuming());
    assert!(weak.is_guarded(&arena, false));
    assert!(Sor::rule(vec![], &mut registry).is_consuming());
    let named = Custom::new_rule(seq.get(), "named".to_string(), &mut registry);
    assert!(named.is_consuming());
    assert!(named.is_guarded(&arena, false));
    assert!(!Plus::rule(idle.get(), &mut registry).is_guarded(&arena, true));

    let declared = UninitializedRule::new("later".to_string(), &mut registry, &mut arena);
    let handle = declared.get();
    assert!(!handle.is_consuming());
    assert!(!handle.is_guarded(&arena, false));
    assert!(!handle.is_guarded(&arena, true));
    let after = Sequence::rule(vec![a.get(), declared.get()], &mut registry);
    let before = Sequence::rule(vec![declared.get(), a.get()], &mut registry);
    let behind = Sequence::rule(vec![maybe.get(), declared.get()], &mut registry);
    assert!(!after.is_guarded(&arena, false));
    declared.init(One::rule('x', &mut registry), &mut arena);
    assert!(handle.is_guarded(&arena, true));
    assert!(!handle.is_guarded(&arena, false));
    assert!(after.is_guarded(&arena, false));
    assert!(!before.is_guarded(&arena, false));
    assert!(before.is_guarded(&arena, true));
    assert!(!behind.is_guarded(&arena, false));
    assert!(arena.is_sound());
}

#[test]
fn a_grammar_is_matched_unasked_only_where_its_form_allows() {
    let mut registry = Registry::new();
    let mut arena = Arena::new();
    let rule = Star::rule(ab(&mut registry), &mut registry);
    let direct = rule.parse("ababa", &arena);
    assert_eq!(rule.parse_checked("ababa", &arena), Some(direct));
    assert_eq!(rule.parse_checked("ababa", &arena).unwrap().unwrap().content, "abab");
    let failing = Plus::rule(One::rule('x', &mut registry), &mut registry);
    assert_eq!(failing.parse_checked("ab", &arena), Some(None));
    let idle = Star::rule(Opt::rule(One::rule('a', &mut registry), &mut registry), &mut registry);
    assert_eq!(idle.parse_checked("aab", &arena), None);
    let declared = UninitializedRule::new("later".to_string(), &mut registry, &mut arena);
    assert!(arena.is_sound());
    assert_eq!(declared.get().parse_checked("a", &arena), None);
    assert_eq!(rule.parse_checked("ab", &arena).unwrap().unwrap().content, "ab");
}

#[test]
fn rules_that_refer_to_each_other_are_matched_where_each_round_consumes() {
    let mut registry = Registry::new();
    let mut arena = Arena::new();
    let a = UninitializedRule::new("A".to_string(), &mut registry, &mut arena);
    let b = UninitializedRule::new("B".to_string(), &mut registry, &mut arena);
    let a_body = Sor::rule(
        vec![
            Sequence::rule(vec![One::rule('a', &mut registry), b.get()], &mut registry),
            One::rule('b', &mut registry),
        ],
        &mut registry,
    );
    let a = a.init(a_body, &mut arena);
    assert!(!arena.is_complete());
    assert!(!arena.is_sound());
    assert_eq!(a.parse_checked("ab", &arena), None);
    let b_body = Sor::rule(
        vec![
            Sequence::rule(vec![One::rule('b', &mut registry), a.get()], &mut registry),
            One::rule('a', &mut registry),
        ],
        &mut registry,
    );
    let b = b.init(b_body, &mut arena);
    assert!(arena.is_complete());
    assert!(arena.is_sound());
    assert_eq!(a.parse_checked("ababababaa", &arena).unwrap().unwrap().content, "ababababaa");
    assert_eq!(a.parse_checked("ababababa", &arena), Some(None));
    assert_eq!(b.parse_checked("baa", &arena).unwrap().unwrap().content, "baa");

    let mut looping = Arena::new();
    let left = UninitializedRule::new("L".to_string(), &mut registry, &mut looping);
    let body = Sor::rule(
        vec![
            Sequence::rule(vec![left.get(), One::rule('a', &mut registry)], &mut registry),
            One::rule('b', &mut registry),
        ],
        &mut registry,
    );
    let left = left.init(body, &mut looping);
    assert!(looping.is_complete());
    assert!(!looping.is_sound());
    assert_eq!(left.parse_checked("ba", &looping), None);
}

#[test]
fn copies_of_rules_match_alike() {
    let mut registry = Registry::new();
    let arena = Arena::new();
    let rule = Custom::new_rule(
        Star::rule(
            Sor::rule(
                vec![
                    ab(&mut registry),
                    Ranges::rule(vec![('c', 'e')], &mut registry),
                    Str::rule("xy".to_string(), &mut registry),
                    Plus::rule(One::rule('z', &mut registry), &mut registry),
                    Sequence::rule(
                        vec![
                            One::rule('!', &mut registry),
                            Opt::rule(One::rule('?', &mut registry), &mut registry),
                            Eof::rule(&mut registry),
                        ],
                        &mut registry,
                    ),
                ],
                &mut registry,
            ),
            &mut registry,
        ),
        "all".to_string(),
        &mut registry,
    );
    let copy = rule.get();
    assert_eq!(copy.id, rule.id);
    assert_eq!(copy.name, rule.name);
    for input in ["", "abcxyzz!?", "abdzz!", "ab!?x", "q"] {
        let left = rule.parse(input, &arena).unwrap();
        let right = copy.parse(input, &arena).unwrap();
        assert_eq!(left, right);
        assert_eq!(left.children[0].children.len(), right.children[0].children.len());
    }
    assert_eq!(rule.parse("abcxyzz!?", &arena).unwrap().content, "abcxyzz!?");
    assert_eq!(rule.parse("ab!?x", &arena).unwrap().content, "ab");
}

use pegmatch::rule::{Eof, Ranges};
