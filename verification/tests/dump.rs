use svinst::dump::print_full_tree;
use svinst::tree::{classify, Node, NodeEvent, Token};

fn dump_enter(name: &str) -> NodeEvent {
    NodeEvent::Enter(Node::new(name.as_bytes().to_vec()))
}

fn dump_leave(name: &str) -> NodeEvent {
    NodeEvent::Leave(classify(name.as_bytes()))
}

fn dump_token(text: &str, line: u32) -> NodeEvent {
    NodeEvent::Token(Token { text: text.as_bytes().to_vec(), line })
}

fn dump_sample() -> Vec<NodeEvent> {
    vec![
        dump_enter("SourceText"),
        dump_enter("Keyword"),
        dump_token("module", 1),
        dump_enter("WhiteSpace"),
        dump_token(" ", 1),
        dump_leave("WhiteSpace"),
        dump_leave("Keyword"),
        dump_enter("Symbol"),
        dump_token(";", 2),
        dump_leave("Symbol"),
        dump_leave("SourceText"),
    ]
}

fn dump_string(events: &[NodeEvent], include_whitespace: bool) -> String {
    String::from_utf8(print_full_tree(events, include_whitespace)).unwrap()
}

#[test]
fn empty_tree_dumps_nothing() {
    assert_eq!(dump_string(&[], false), "");
}

#[test]
fn dump_without_white_space() {
    assert_eq!(
        dump_string(&dump_sample(), false),
        "      - SourceText:\n        - Keyword:\n          - Token: \"module\"\n            Line: 1\n        - Symbol:\n          - Token: \";\"\n            Line: 2\n"
    );
}

#[test]
fn dump_with_white_space() {
    assert_eq!(
        dump_string(&dump_sample(), true),
        "      - SourceText:\n        - Keyword:\n          - Token: \"module\"\n            Line: 1\n          - Token: \" \"\n            Line: 1\n        - Symbol:\n          - Token: \";\"\n            Line: 2\n"
    );
}

#[test]
fn single_token_stands_at_depth_three() {
    assert_eq!(
        dump_string(&[dump_token("x", 7)], false),
        "      - Token: \"x\"\n        Line: 7\n"
    );
}

#[test]
fn token_text_is_quoted_with_escapes() {
    assert_eq!(
        dump_string(&[dump_token("\"a\\b\"", 4294967295)], false),
        "      - Token: \"\\\"a\\\\b\\\"\"\n        Line: 4294967295\n"
    );
}

#[test]
fn nodes_inside_white_space_are_left_out() {
    let events = vec![
        dump_enter("WhiteSpace"),
        dump_enter("Comment"),
        dump_token("// c", 1),
        dump_leave("Comment"),
        dump_leave("WhiteSpace"),
        dump_enter("Symbol"),
        dump_token(";", 1),
        dump_leave("Symbol"),
    ];
    assert_eq!(
        dump_string(&events, false),
        "      - Symbol:\n        - Token: \";\"\n          Line: 1\n"
    );
    assert_eq!(
        dump_string(&events, true),
        "      - Comment:\n        - Token: \"// c\"\n          Line: 1\n      - Symbol:\n        - Token: \";\"\n          Line: 1\n"
    );
}

#[test]
fn leaving_inner_white_space_ends_the_skipping() {
    let events = vec![
        dump_enter("WhiteSpace"),
        dump_enter("CompilerDirective"),
        dump_enter("WhiteSpace"),
        dump_token(" ", 1),
        dump_leave("WhiteSpace"),
        dump_token("`x", 1),
        dump_leave("CompilerDirective"),
        dump_leave("WhiteSpace"),
    ];
    assert_eq!(dump_string(&events, false), "        - Token: \"`x\"\n          Line: 1\n");
}

#[test]
fn depth_stays_at_zero_when_more_is_left_than_entered() {
    let events = vec![
        dump_leave("A"),
        dump_leave("A"),
        dump_leave("A"),
        dump_leave("A"),
        dump_token("x", 1),
        dump_enter("B"),
        dump_token("y", 1),
    ];
    assert_eq!(
        dump_string(&events, false),
        "- Token: \"x\"\n  Line: 1\n- B:\n  - Token: \"y\"\n    Line: 1\n"
    );
}
