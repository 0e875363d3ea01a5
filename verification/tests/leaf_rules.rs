use pegmatch::node::Node;
use pegmatch::registry::{Kind, Registry};
use pegmatch::rule::{Arena, Binding, Custom, Eof, Matcher, One, Ranges, Star, Str};
use pegmatch::rule_handler::Handler;

#[test]
fn char_macro_works() {
    let mut registry = Registry::new();
    let arena = Arena::new();
    let rule = One::rule('a', &mut registry);
    let tree = rule.parse("a", &arena);
    assert_eq!(tree.as_ref().unwrap().content, "a");
    assert_eq!(tree.as_ref().unwrap().type_label, "Char");
    let rule = Custom::new_rule(One::rule('a', &mut registry), "test".to_string(), &mut registry);
    let tree = rule.parse("a", &arena);
    assert_eq!(tree.as_ref().unwrap().content, "a");
    assert_eq!(tree.as_ref().unwrap().type_label, "test");
    assert_eq!(tree.as_ref().unwrap().children.len(), 1);
    assert_eq!(tree.as_ref().unwrap().children[0].content, "a");
}

#[test]
fn parsing_is_deterministic() {
    let mut registry = Registry::new();
    let arena = Arena::new();
    let rule1 = One::rule('a', &mut registry);
    let node1 = rule1.parse("a", &arena);
    let node2 = rule1.parse("a", &arena);
    assert_eq!(node1, node2);
}

#[test]
fn char_macro_unique_ids() {
    let mut registry = Registry::new();
    let arena = Arena::new();
    let rule1 = One::rule('a', &mut registry);
    let rule2 = One::rule('a', &mut registry);
    let node1 = rule1.parse("a", &arena);
    let node2 = rule2.parse("a", &arena);
    assert_eq!(node1.as_ref().unwrap().type_id, node2.unwrap().type_id);
    assert_eq!(rule1.id, rule2.id);
    assert_eq!(rule1.id, registry.singleton_id(Kind::Char));
    assert_eq!(rule2.id, registry.singleton_id(Kind::Char));
    assert_eq!(rule1.id, node1.as_ref().unwrap().type_id);
}

#[test]
fn char_rule_matches_single_character() {
    let mut registry = Registry::new();
    let arena = Arena::new();
    let rule = One::rule('a', &mut registry);
    let input = "a";
    let result = rule.parse(input, &arena);
    let expected_node = Node::new("a", rule.id, &rule.name);
    assert_eq!(result, Some(expected_node));
}

#[test]
fn char_rule_does_not_match_different_character() {
    let mut registry = Registry::new();
    let arena = Arena::new();
    let rule = One::rule('a', &mut registry);
    let input = "b";

    let result = rule.parse(input, &arena);

    assert_eq!(result, None);
}

#[test]
fn char_rule_does_not_match_empty_input() {
    let mut registry = Registry::new();
    let arena = Arena::new();
    let rule = One::rule('a', &mut registry);
    let input = "";

    let result = rule.parse(input, &arena);

    assert_eq!(result, None);
}

#[test]
fn char_rule_does_match_longer_input() {
    let mut registry = Registry::new();
    let arena = Arena::new();
    let rule = One::rule('a', &mut registry);
    let input = "abc";

    let result = rule.parse(input, &arena);
    let expected_node = Node::new("a", rule.id, &rule.name);
    assert_eq!(result, Some(expected_node));
}

#[test]
fn char_rule_steps_over_one_character_of_any_width() {
    let mut registry = Registry::new();
    let arena = Arena::new();
    let rule = One::rule('é', &mut registry);
    let node = rule.parse("été", &arena).unwrap();
    assert_eq!(node.content, "é");
    assert_eq!(node.children.len(), 0);
    assert_eq!(One::rule('e', &mut registry).parse("été", &arena), None);
}

#[test]
fn eof_rule_matches_empty_input() {
    let mut registry = Registry::new();
    let arena = Arena::new();
    let rule = Eof::rule(&mut registry);
    let input = "";

    let result = rule.parse(input, &arena);
    let result2 = rule.parse_with_handler(input, &Handler::new(), &arena);
    assert_eq!(result, result2);

    let expected_node = Node::new_empty(rule.id, &rule.name);
    assert_eq!(result, Some(expected_node));
}

#[test]
fn eof_rule_does_not_match_non_empty_input() {
    let mut registry = Registry::new();
    let arena = Arena::new();
    let rule = Eof::rule(&mut registry);
    let input = "a";

    let result = rule.parse(input, &arena);
    let result2 = rule.parse_with_handler(input, &Handler::new(), &arena);
    assert_eq!(result, result2);

    assert_eq!(result, None);
}

#[test]
fn eof_rule_does_not_match_longer_input() {
    let mut registry = Registry::new();
    let arena = Arena::new();
    let rule = Eof::rule(&mut registry);
    let input = "ahdgfhfgh";

    let result = rule.parse(input, &arena);
    let result2 = rule.parse_with_handler(input, &Handler::new(), &arena);
    assert_eq!(result, result2);

    assert_eq!(result, None);
}

#[test]
fn ranges_macro_works() {
    let mut registry = Registry::new();
    let rule = Ranges::rule(vec![('a', 'z')], &mut registry);
    match &rule.rule {
        Binding::Own(matcher) => match &**matcher {
            Matcher::Ranges(ranges) => assert_eq!(ranges.ranges, vec![('a', 'z')]),
            _ => panic!("not a ranges rule"),
        },
        Binding::Deferred(_) => panic!("not a ranges rule"),
    }
    assert_eq!(rule.name, "Ranges");
}

#[test]
fn ranges_matching_alphanumerics() {
    let mut registry = Registry::new();
    let arena = Arena::new();
    let rule = Star::rule(
        Ranges::rule(vec![('a', 'z'), ('A', 'Z'), ('0', '9')], &mut registry),
        &mut registry,
    );
    let input = "agfdaohehslh83945nklg2DFKASGH252GIRO";
    let expected_node = Node::new(input, rule.id, &rule.name);
    let result = rule.parse(input, &arena);
    assert!(result.is_some());
    let node = result.as_ref().unwrap();
    assert_eq!(node.content, expected_node.content);
    assert_eq!(node.children.len(), input.len());
    for (i, c) in input.chars().enumerate() {
        assert_eq!(node.children[i].content, c.to_string());
    }
}

#[test]
fn ranges_rule_includes_both_ends_and_nothing_outside() {
    let mut registry = Registry::new();
    let arena = Arena::new();
    let rule = Ranges::rule(vec![('b', 'd'), ('x', 'x')], &mut registry);
    assert_eq!(rule.parse("b", &arena).unwrap().content, "b");
    assert_eq!(rule.parse("d!", &arena).unwrap().content, "d");
    assert_eq!(rule.parse("x", &arena).unwrap().content, "x");
    assert_eq!(rule.parse("a", &arena), None);
    assert_eq!(rule.parse("e", &arena), None);
    assert_eq!(rule.parse("", &arena), None);
    let nothing = Ranges::rule(vec![], &mut registry);
    assert_eq!(nothing.parse("a", &arena), None);
    assert_eq!(rule.parse_with_handler("c", &Handler::new(), &arena), rule.parse("c", &arena));
}

#[test]
fn str_rule_matches_string() {
    let mut registry = Registry::new();
    let arena = Arena::new();
    let rule = Str::rule("hello".to_string(), &mut registry);
    let input = "hello";
    let expected_node = Node::new("hello", rule.id, &rule.name);

    let result = rule.parse(input, &arena);
    let result2 = rule.parse_with_handler(input, &Handler::new(), &arena);
    assert_eq!(result, result2);

    assert_eq!(result, Some(expected_node));
}

#[test]
fn str_rule_does_not_match_different_string() {
    let mut registry = Registry::new();
    let arena = Arena::new();
    let rule = Str::rule("hello".to_string(), &mut registry);
    let input = "world";

    let result = rule.parse(input, &arena);
    let result2 = rule.parse_with_handler(input, &Handler::new(), &arena);
    assert_eq!(result, result2);

    assert_eq!(result, None);
}

#[test]
fn str_rule_does_not_match_empty_input() {
    let mut registry = Registry::new();
    let arena = Arena::new();
    let rule = Str::rule("hello".to_string(), &mut registry);
    let input = "";

    let result = rule.parse(input, &arena);
    let result2 = rule.parse_with_handler(input, &Handler::new(), &arena);
    assert_eq!(result, result2);

    assert_eq!(result, None);
}

#[test]
fn str_rule_does_not_match_shorter_input() {
    let mut registry = Registry::new();
    let arena = Arena::new();
    let rule = Str::rule("hello".to_string(), &mut registry);
    let input = "hell";

    let result = rule.parse(input, &arena);
    let result2 = rule.parse_with_handler(input, &Handler::new(), &arena);
    assert_eq!(result, result2);

    assert_eq!(result, None);
}

#[test]
fn str_rule_does_match_longer_input() {
    let mut registry = Registry::new();
    let arena = Arena::new();
    let rule = Str::rule("hello".to_string(), &mut registry);
    let input = "hello world";

    let result = rule.parse(input, &arena);
    let result2 = rule.parse_with_handler(input, &Handler::new(), &arena);
    assert_eq!(result, result2);

    let expected_node = Node::new("hello", rule.id, &rule.name);
    assert_eq!(result, Some(expected_node));
}

#[test]
fn str_rule_with_empty_literal_matches_everything_and_consumes_nothing() {
    let mut registry = Registry::new();
    let arena = Arena::new();
    let rule = Str::rule(String::new(), &mut registry);
    assert_eq!(rule.parse("abc", &arena).unwrap().content, "");
    assert_eq!(rule.parse("", &arena).unwrap().content, "");
}

#[test]
fn matchers_can_be_used_without_a_rule_around_them() {
    let arena = Arena::new();
    let name = "Letter".to_string();
    let one = One { c: 'q' };
    let node = Parsable::parse(&one, "quit", 41, &name, &arena).unwrap();
    assert_eq!(node.type_id, 41);
    assert_eq!(node.type_label, "Letter");
    assert_eq!(node.content, "q");
    assert_eq!(Parsable::parse(&one, "exit", 41, &name, &arena), None);
    let matcher = Matcher::Str(Str { s: "qu".to_string() });
    let node = matcher.parse("quit", 42, &name, &arena).unwrap();
    assert_eq!(node.type_id, 42);
    assert_eq!(node.content, "qu");
    let hooked = matcher.parse_with_handler("quit", 42, &name, &Handler::new(), &arena).unwrap();
    assert_eq!(hooked, node);
    let end = Eof {};
    assert_eq!(end.parse("", 43, &name, &arena).unwrap().content, "");
    assert_eq!(end.parse("x", 43, &name, &arena), None);
    let copy = matcher.duplicate();
    assert_eq!(copy.parse("quit", 42, &name, &arena).unwrap().content, "qu");
}

use pegmatch::rule::Parsable;
