use svinst::tree::{
    bytes_equal, classify, end_of_subtree, find_node, get_identifier, get_keyword,
    get_unsigned_number, is_text, leading_token, Node, NodeEvent, NodeKind, Token,
};

fn tree_enter(name: &str) -> NodeEvent {
    NodeEvent::Enter(Node::new(name.as_bytes().to_vec()))
}

fn tree_leave(name: &str) -> NodeEvent {
    NodeEvent::Leave(classify(name.as_bytes()))
}

fn tree_token(text: &str, line: u32) -> NodeEvent {
    NodeEvent::Token(Token { text: text.as_bytes().to_vec(), line })
}

fn tree_sample() -> Vec<NodeEvent> {
    vec![
        tree_enter("ModuleIdentifier"),   // 0
        tree_enter("Identifier"),         // 1
        tree_enter("SimpleIdentifier"),   // 2
        tree_token("top", 1),             // 3
        tree_enter("WhiteSpace"),         // 4
        tree_token(" ", 1),               // 5
        tree_leave("WhiteSpace"),         // 6
        tree_leave("SimpleIdentifier"),   // 7
        tree_leave("Identifier"),         // 8
        tree_leave("ModuleIdentifier"),   // 9
        tree_enter("Keyword"),            // 10
        tree_token("input", 2),           // 11
        tree_leave("Keyword"),            // 12
        tree_enter("EscapedIdentifier"),  // 13
        tree_token("\\esc", 3),           // 14
        tree_leave("EscapedIdentifier"),  // 15
    ]
}

#[test]
fn classify_knows_the_kinds_of_the_report() {
    assert_eq!(classify(b"WhiteSpace"), NodeKind::WhiteSpace);
    assert_eq!(classify(b"ModuleDeclarationNonansi"), NodeKind::ModuleDeclarationNonansi);
    assert_eq!(classify(b"ModuleDeclarationAnsi"), NodeKind::ModuleDeclarationAnsi);
    assert_eq!(classify(b"ModuleInstantiation"), NodeKind::ModuleInstantiation);
    assert_eq!(classify(b"AnsiPortDeclaration"), NodeKind::AnsiPortDeclaration);
    assert_eq!(classify(b"PortDeclaration"), NodeKind::PortDeclaration);
    assert_eq!(classify(b"PortIdentifier"), NodeKind::PortIdentifier);
    assert_eq!(classify(b"PortDirection"), NodeKind::PortDirection);
    assert_eq!(classify(b"InputDeclaration"), NodeKind::InputDeclaration);
    assert_eq!(classify(b"OutputDeclaration"), NodeKind::OutputDeclaration);
    assert_eq!(classify(b"ConstantRange"), NodeKind::ConstantRange);
    assert_eq!(classify(b"UnsignedNumber"), NodeKind::UnsignedNumber);
    assert_eq!(classify(b"Keyword"), NodeKind::Keyword);
    assert_eq!(classify(b"ModuleIdentifier"), NodeKind::ModuleIdentifier);
    assert_eq!(classify(b"InstanceIdentifier"), NodeKind::InstanceIdentifier);
    assert_eq!(classify(b"SimpleIdentifier"), NodeKind::SimpleIdentifier);
    assert_eq!(classify(b"EscapedIdentifier"), NodeKind::EscapedIdentifier);
}

#[test]
fn classify_passes_over_other_names() {
    assert_eq!(classify(b"SourceText"), NodeKind::Other);
    assert_eq!(classify(b""), NodeKind::Other);
    assert_eq!(classify(b"Keywor"), NodeKind::Other);
    assert_eq!(classify(b"Keywords"), NodeKind::Other);
    assert_eq!(classify(b"keyword"), NodeKind::Other);
    assert_eq!(classify(b"InoutDeclaration"), NodeKind::Other);
}

#[test]
fn node_keeps_its_name() {
    let node = Node::new(b"SourceText".to_vec());
    assert_eq!(node.kind, NodeKind::Other);
    assert_eq!(node.name, b"SourceText".to_vec());
    let node = Node::new(b"Keyword".to_vec());
    assert_eq!(node.kind, NodeKind::Keyword);
}

#[test]
fn bytes_are_compared_whole() {
    assert!(bytes_equal(b"", b""));
    assert!(bytes_equal(b"abc", b"abc"));
    assert!(!bytes_equal(b"abc", b"abd"));
    assert!(!bytes_equal(b"abc", b"ab"));
    assert!(is_text(b"input", "input"));
    assert!(!is_text(b"inpu", "input"));
}

#[test]
fn subtree_ends_behind_the_matching_leave() {
    let events = tree_sample();
    assert_eq!(end_of_subtree(&events, 0), 10);
    assert_eq!(end_of_subtree(&events, 1), 9);
    assert_eq!(end_of_subtree(&events, 2), 8);
    assert_eq!(end_of_subtree(&events, 4), 7);
    assert_eq!(end_of_subtree(&events, 10), 13);
}

#[test]
fn subtree_of_a_token_is_the_token() {
    let events = tree_sample();
    assert_eq!(end_of_subtree(&events, 3), 4);
}

#[test]
fn subtree_of_a_node_never_left_runs_to_the_end() {
    let events = vec![tree_enter("SourceText"), tree_enter("Keyword"), tree_leave("Keyword")];
    assert_eq!(end_of_subtree(&events, 0), 3);
    assert_eq!(end_of_subtree(&events, 7), 3);
}

#[test]
fn find_node_takes_the_first_in_source_order() {
    let events = tree_sample();
    assert_eq!(
        find_node(&events, 0, NodeKind::SimpleIdentifier, NodeKind::EscapedIdentifier),
        Some(2)
    );
    assert_eq!(find_node(&events, 0, NodeKind::WhiteSpace, NodeKind::WhiteSpace), Some(4));
}

#[test]
fn find_node_counts_the_node_itself() {
    let events = tree_sample();
    assert_eq!(
        find_node(&events, 0, NodeKind::ModuleIdentifier, NodeKind::ModuleIdentifier),
        Some(0)
    );
}

#[test]
fn find_node_stays_inside_the_subtree() {
    let events = tree_sample();
    assert_eq!(find_node(&events, 0, NodeKind::Keyword, NodeKind::Keyword), None);
    assert_eq!(find_node(&events, 2, NodeKind::EscapedIdentifier, NodeKind::EscapedIdentifier), None);
    assert_eq!(find_node(&events, 3, NodeKind::WhiteSpace, NodeKind::WhiteSpace), None);
    assert_eq!(find_node(&events, 16, NodeKind::Keyword, NodeKind::Keyword), None);
}

#[test]
fn leading_token_is_the_token_right_behind() {
    let events = tree_sample();
    assert_eq!(leading_token(&events, 2), Some(&b"top".to_vec()));
    assert_eq!(leading_token(&events, 1), None);
    assert_eq!(leading_token(&events, 15), None);
    assert_eq!(leading_token(&events, usize::MAX), None);
}

#[test]
fn identifier_is_simple_or_escaped() {
    let events = tree_sample();
    assert_eq!(get_identifier(&events, 0), Some(&b"top".to_vec()));
    assert_eq!(get_identifier(&events, 13), Some(&b"\\esc".to_vec()));
    assert_eq!(get_identifier(&events, 10), None);
}

#[test]
fn keyword_and_number_are_read() {
    let mut events = tree_sample();
    assert_eq!(get_keyword(&events, 10), Some(&b"input".to_vec()));
    assert_eq!(get_keyword(&events, 0), None);
    events.push(tree_enter("UnsignedNumber"));
    events.push(tree_token("31", 4));
    events.push(tree_leave("UnsignedNumber"));
    assert_eq!(get_unsigned_number(&events, 16), Some(&b"31".to_vec()));
    assert_eq!(get_unsigned_number(&events, 13), None);
}

#[test]
fn identifier_without_a_token_is_missing() {
    let events = vec![
        tree_enter("PortIdentifier"),
        tree_enter("SimpleIdentifier"),
        tree_leave("SimpleIdentifier"),
        tree_leave("PortIdentifier"),
    ];
    assert_eq!(get_identifier(&events, 0), None);
}
