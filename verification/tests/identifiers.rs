use pegmatch::node::Node;
use pegmatch::registry::{Kind, Registry};
use pegmatch::rule::{Arena, Custom, One, Str, UninitializedRule};

#[test]
fn fresh_identifiers_count_up() {
    let mut registry = Registry::new();
    assert_eq!(registry.next_id(), 0);
    assert_eq!(registry.next_id(), 1);
    assert_eq!(registry.next_id(), 2);
}

#[test]
fn the_identifier_of_a_kind_is_allocated_once() {
    let mut registry = Registry::new();
    assert_eq!(registry.next_id(), 0);
    let star = registry.singleton_id(Kind::Star);
    assert_eq!(star, 1);
    let root = registry.singleton_id(Kind::Root);
    assert_eq!(root, 2);
    assert_eq!(registry.singleton_id(Kind::Star), 1);
    assert_eq!(registry.singleton_id(Kind::Root), 2);
    assert_eq!(registry.next_id(), 3);
    assert_eq!(registry.singleton_id(Kind::Star), 1);
    assert_eq!(registry.singleton_id(Kind::Char), 4);
}

#[test]
fn all_kinds_get_different_identifiers() {
    let mut registry = Registry::new();
    let kinds = [
        Kind::Char,
        Kind::Str,
        Kind::Ranges,
        Kind::Sequence,
        Kind::Sor,
        Kind::Star,
        Kind::Plus,
        Kind::Opt,
        Kind::Eof,
        Kind::Root,
        Kind::Unreachable,
    ];
    let mut ids = Vec::new();
    for kind in kinds {
        ids.push(registry.singleton_id(kind));
    }
    for i in 0..ids.len() {
        for j in 0..ids.len() {
            assert_eq!(ids[i] == ids[j], i == j);
        }
        assert_eq!(registry.singleton_id(kinds[i]), ids[i]);
    }
}

#[test]
fn default_names_are_fixed() {
    assert_eq!(Kind::Char.default_name(), "Char");
    assert_eq!(Kind::Str.default_name(), "Str");
    assert_eq!(Kind::Ranges.default_name(), "Ranges");
    assert_eq!(Kind::Sequence.default_name(), "Seq");
    assert_eq!(Kind::Sor.default_name(), "Sor");
    assert_eq!(Kind::Star.default_name(), "Star");
    assert_eq!(Kind::Plus.default_name(), "Plus");
    assert_eq!(Kind::Opt.default_name(), "Opt");
    assert_eq!(Kind::Eof.default_name(), "Eof");
    assert_eq!(Kind::Root.default_name(), "Root");
    assert_eq!(Kind::Unreachable.default_name(), "Unreachable");
}

#[test]
fn unnamed_rules_of_a_kind_share_an_identifier_and_named_rules_never_do() {
    let mut registry = Registry::new();
    let first = One::rule('a', &mut registry);
    let literal = Str::rule("a".to_string(), &mut registry);
    let named = Custom::new_rule(One::rule('a', &mut registry), "a".to_string(), &mut registry);
    let again = Custom::new_rule(One::rule('a', &mut registry), "a".to_string(), &mut registry);
    let second = One::rule('b', &mut registry);
    assert_eq!(first.id, second.id);
    assert_ne!(first.id, literal.id);
    assert_ne!(named.id, first.id);
    assert_ne!(named.id, again.id);
    assert_ne!(again.id, first.id);
    assert_eq!(named.name, again.name);
}

#[test]
fn root_and_placeholder_nodes_carry_their_kinds() {
    let mut registry = Registry::new();
    let inner = Node::new("abc", 40, &"Inner".to_string());
    let root = Node::new_as_root(inner, &mut registry);
    assert_eq!(root.type_id, registry.singleton_id(Kind::Root));
    assert_eq!(root.type_label, "Root");
    assert_eq!(root.content, "abc");
    assert_eq!(root.children().len(), 1);
    assert_eq!(root.children()[0].type_id, 40);
    let placeholder = Node::new_as_unreachable(&mut registry);
    assert_eq!(placeholder.type_id, registry.singleton_id(Kind::Unreachable));
    assert_ne!(placeholder.type_id, root.type_id);
    assert_eq!(placeholder.type_label, "Unreachable");
    assert_eq!(placeholder.content, "");
    assert_eq!(placeholder.children().len(), 0);
}

#[test]
fn nodes_are_equal_by_content_and_shape_only() {
    let mut left = Node::new("ab", 1, &"One".to_string());
    left.add_child(Node::new("a", 2, &"Two".to_string()));
    let mut right = Node::new("ab", 7, &"Seven".to_string());
    right.add_child(Node::new("a", 8, &"Eight".to_string()));
    assert_eq!(left, right);
    assert!(left.same_content(&right));
    right.add_child(Node::new("b", 8, &"Eight".to_string()));
    assert_ne!(left, right);
    left.add_child(Node::new("c", 2, &"Two".to_string()));
    assert_ne!(left, right);
    assert_ne!(Node::new("a", 1, &"One".to_string()), Node::new("b", 1, &"One".to_string()));
    assert_eq!(Node::new_empty(1, &"One".to_string()), Node::new("", 2, &"Two".to_string()));
}

#[test]
fn declared_rules_get_fresh_identifiers_and_slots() {
    let mut registry = Registry::new();
    let mut arena = Arena::new();
    let first = UninitializedRule::new("A".to_string(), &mut registry, &mut arena);
    let second = UninitializedRule::new("A".to_string(), &mut registry, &mut arena);
    assert_ne!(first.get().id, second.get().id);
    assert_eq!(first.get().name, "A");
    assert!(!arena.is_defined(0));
    assert!(!arena.is_defined(1));
    assert!(!arena.is_defined(2));
    let handle = first.init(One::rule('a', &mut registry), &mut arena);
    assert_eq!(handle.id, first.get().id);
    assert!(arena.is_defined(0));
    assert!(!arena.is_defined(1));
    assert!(arena.get(0).is_some());
    assert!(arena.get(1).is_none());
    assert!(arena.get(5).is_none());
    assert_eq!(handle.parse("a", &arena).unwrap().children.len(), 1);
}

#[test]
fn the_graph_description_numbers_the_nodes_in_walk_order() {
    let mut root = Node::new("abcdefghijklmnop", 1, &"Top".to_string());
    let mut left = Node::new("abcdefghij", 2, &"Left".to_string());
    left.add_child(Node::new("", 3, &"Leaf".to_string()));
    root.add_child(left);
    root.add_child(Node::new("k", 4, &"Right".to_string()));
    let expected = [
        "digraph G {\n",
        "0 [label=\"Top\\n\\\"abcdefghij...\\\"\"];\n",
        "0 -> 1;\n",
        "1 [label=\"Left\\n\\\"abcdefghij\\\"\"];\n",
        "1 -> 2;\n",
        "2 [label=\"Leaf\\n\\\"\\\"\"];\n",
        "0 -> 3;\n",
        "3 [label=\"Right\\n\\\"k\\\"\"];\n",
        "}\n",
    ]
    .concat();
    assert_eq!(root.to_dot(), expected);
    let mut id = 9;
    let text = Node::new("x", 5, &"N".to_string()).to_dot_private(&mut id);
    assert_eq!(text, "9 [label=\"N\\n\\\"x\\\"\"];\n");
    assert_eq!(id, 10);
}

#[test]
fn numerals_are_decimal() {
    assert_eq!(pegmatch::dot::decimal_text(0), "0");
    assert_eq!(pegmatch::dot::decimal_text(7), "7");
    assert_eq!(pegmatch::dot::decimal_text(10), "10");
    assert_eq!(pegmatch::dot::decimal_text(1234567890), "1234567890");
    assert_eq!(pegmatch::dot::preview_text("0123456789"), "0123456789");
    assert_eq!(pegmatch::dot::preview_text("0123456789a"), "0123456789...");
}
