use pegmatch::node::Node;
use std::cell::Cell;
use pegmatch::registry::{Kind, Registry};
use pegmatch::rule::{Arena, One, Sequence, Star};
use pegmatch::rule_handler::{Handler, Notify, SetContent, SetTypeId};

struct Fail;

impl Notify for Fail {
    fn notify(&self) {
        panic!("Failure");
    }
}

struct PreParse;

impl Notify for PreParse {
    fn notify(&self) {
        panic!("Pre-parse");
    }
}

struct Count<'c> {
    count: &'c Cell<usize>,
}

impl<'c> Notify for Count<'c> {
    fn notify(&self) {
        self.count.set(self.count.get() + 1);
    }
}

struct Quiet;

impl Notify for Quiet {
    fn notify(&self) {}
}

#[test]
fn handler_adds_success_handler() {
    let mut handler = Handler::new();
    let id = 1;
    let mut node = Node::new_empty(id, &"Test".to_string());

    handler.add_success_handler(id, Box::new(SetContent { content: "Success" }));
    handler.handle_success(&mut node);

    assert_eq!(node.content, "Success");
}

#[test]
#[should_panic(expected = "Failure")]
fn handler_adds_failure_handler() {
    let mut handler = Handler::new();
    let id = 1;
    handler.add_failure_handler(id, Box::new(Fail));
    handler.handle_failure(id);
}

#[test]
#[should_panic(expected = "Pre-parse")]
fn handler_adds_pre_parse_handler() {
    let mut handler = Handler::new();
    let id = 1;
    handler.add_pre_parse_handler(id, Box::new(PreParse));
    handler.handle_pre_parse(id);
}

#[test]
fn handler_handles_multiple_success_handlers() {
    let mut handler = Handler::new();
    let id = 1;
    let mut node = Node::new_empty(id, &"Test".to_string());

    handler.add_success_handler(id, Box::new(SetContent { content: "Success" }));
    handler.add_success_handler(id, Box::new(SetContent { content: "Success" }));
    handler.handle_success(&mut node);

    assert_eq!(node.content, "Success");
}

#[test]
fn success_handlers_run_in_the_order_of_registration() {
    let mut handler = Handler::new();
    let mut node = Node::new_empty(1, &"Test".to_string());
    handler.add_success_handler(1, Box::new(SetContent { content: "first" }));
    handler.add_success_handler(1, Box::new(SetTypeId { type_id: 2 }));
    handler.add_success_handler(1, Box::new(SetContent { content: "last" }));
    handler.add_success_handler(2, Box::new(SetContent { content: "never" }));
    handler.handle_success(&mut node);
    assert_eq!(node.content, "last");
    assert_eq!(node.type_id, 2);
    assert_eq!(node.type_label, "Test");
}

#[test]
fn handlers_of_other_types_are_not_run() {
    let mut handler = Handler::new();
    let mut node = Node::new("x", 1, &"Test".to_string());
    handler.add_success_handler(2, Box::new(SetContent { content: "Success" }));
    handler.add_failure_handler(2, Box::new(Fail));
    handler.add_pre_parse_handler(2, Box::new(PreParse));
    handler.handle_success(&mut node);
    handler.handle_failure(1);
    handler.handle_pre_parse(1);
    assert_eq!(node.content, "x");
}

#[test]
fn matching_with_idle_hooks_is_plain_matching() {
    let mut registry = Registry::new();
    let arena = Arena::new();
    let rule = Star::rule(
        Sequence::rule(
            vec![One::rule('a', &mut registry), One::rule('b', &mut registry)],
            &mut registry,
        ),
        &mut registry,
    );
    let mut handler = Handler::new();
    handler.add_pre_parse_handler(registry.singleton_id(Kind::Char), Box::new(Quiet));
    handler.add_failure_handler(registry.singleton_id(Kind::Sequence), Box::new(Quiet));
    for input in ["", "ab", "abab", "aba", "b"] {
        let plain = rule.parse(input, &arena).unwrap();
        let hooked = rule.parse_with_handler(input, &handler, &arena).unwrap();
        assert_eq!(plain, hooked);
        assert_eq!(plain.type_id, hooked.type_id);
        assert_eq!(plain.children.len(), hooked.children.len());
    }
}

#[test]
fn hooks_run_around_every_rule_that_is_tried() {
    let mut registry = Registry::new();
    let arena = Arena::new();
    let tried = Cell::new(0);
    let failed = Cell::new(0);
    let a = One::rule('a', &mut registry);
    let char_id = a.id;
    let rule = Star::rule(a, &mut registry);
    let mut handler = Handler::new();
    handler.add_pre_parse_handler(char_id, Box::new(Count { count: &tried }));
    handler.add_failure_handler(char_id, Box::new(Count { count: &failed }));
    handler.add_failure_handler(rule.id, Box::new(Count { count: &failed }));
    let node = rule.parse_with_handler("aab", &handler, &arena).unwrap();
    assert_eq!(node.content, "aa");
    assert_eq!(tried.get(), 3);
    assert_eq!(failed.get(), 1);
}

#[test]
fn a_success_hook_rewrites_the_node_that_the_match_goes_on_with() {
    let mut registry = Registry::new();
    let arena = Arena::new();
    let a = One::rule('a', &mut registry);
    let char_id = a.id;
    let rule = Sequence::rule(vec![a, One::rule('b', &mut registry)], &mut registry);
    let mut handler = Handler::new();
    handler.add_success_handler(rule.id, Box::new(SetTypeId { type_id: 77 }));
    let node = rule.parse_with_handler("ab", &handler, &arena).unwrap();
    assert_eq!(node.type_id, 77);
    assert_eq!(node.content, "ab");
    assert_eq!(node.children.len(), 2);
    assert_eq!(node.children[0].type_id, char_id);
    let mut shrink = Handler::new();
    shrink.add_success_handler(char_id, Box::new(SetContent { content: "" }));
    let node = rule.parse_with_handler("ab", &shrink, &arena);
    assert_eq!(node, None);
}
