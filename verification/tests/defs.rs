use svinst::defs::{
    analyze_defs, parse_range_bound, process_module_def, process_module_inst, process_port_def,
    process_port_ident, resolve_port_state, DefsError, DefsState, Direction, MAX_RANGE_BOUND,
};
use svinst::tree::{classify, Node, NodeEvent, Token};

fn defs_enter(name: &str) -> NodeEvent {
    NodeEvent::Enter(Node::new(name.as_bytes().to_vec()))
}

fn defs_leave(name: &str) -> NodeEvent {
    NodeEvent::Leave(classify(name.as_bytes()))
}

fn defs_token(text: &str) -> NodeEvent {
    NodeEvent::Token(Token { text: text.as_bytes().to_vec(), line: 1 })
}

fn defs_wrap(name: &str, inner: Vec<NodeEvent>) -> Vec<NodeEvent> {
    let mut out = vec![defs_enter(name)];
    out.extend(inner);
    out.push(defs_leave(name));
    out
}

fn defs_join(parts: Vec<Vec<NodeEvent>>) -> Vec<NodeEvent> {
    parts.into_iter().flatten().collect()
}

fn defs_ident(kind: &str, name: &str) -> Vec<NodeEvent> {
    defs_wrap(kind, defs_wrap("Identifier", defs_wrap("SimpleIdentifier", vec![defs_token(name)])))
}

fn defs_direction(word: &str) -> Vec<NodeEvent> {
    defs_wrap("PortDirection", defs_wrap("Keyword", vec![defs_token(word)]))
}

fn defs_range(upper: &str) -> Vec<NodeEvent> {
    defs_wrap(
        "ConstantRange",
        defs_join(vec![
            defs_wrap(
                "ConstantExpression",
                defs_wrap("UnsignedNumber", vec![defs_token(upper)]),
            ),
            defs_wrap("Symbol", vec![defs_token(":")]),
            defs_wrap("ConstantExpression", defs_wrap("UnsignedNumber", vec![defs_token("0")])),
        ]),
    )
}

fn defs_port(parts: Vec<Vec<NodeEvent>>) -> Vec<NodeEvent> {
    defs_wrap("AnsiPortDeclaration", defs_join(parts))
}

fn defs_module(name: &str, body: Vec<Vec<NodeEvent>>) -> Vec<NodeEvent> {
    let mut parts = vec![defs_ident("ModuleIdentifier", name)];
    parts.extend(body);
    defs_wrap("ModuleDeclarationAnsi", defs_join(parts))
}

fn defs_inst(module: &str, instance: &str) -> Vec<NodeEvent> {
    defs_wrap(
        "ModuleInstantiation",
        defs_join(vec![
            defs_ident("ModuleIdentifier", module),
            defs_wrap("HierarchicalInstance", defs_ident("InstanceIdentifier", instance)),
        ]),
    )
}

fn defs_report(events: &[NodeEvent]) -> String {
    String::from_utf8(analyze_defs(events).unwrap()).unwrap()
}

#[test]
fn empty_tree_reports_nothing() {
    assert_eq!(defs_report(&[]), "");
}

#[test]
fn module_without_ports_and_instantiations() {
    let events = defs_module("top", vec![]);
    assert_eq!(
        defs_report(&events),
        "      - mod_name: \"top\"\n        ports: []\n        insts: []\n"
    );
}

#[test]
fn empty_lists_appear_exactly_once() {
    let events = defs_join(vec![defs_module("a", vec![]), defs_module("b", vec![])]);
    let report = defs_report(&events);
    assert_eq!(report.matches("ports: []").count(), 2);
    assert_eq!(report.matches("insts: []").count(), 2);
    assert_eq!(
        report,
        "      - mod_name: \"a\"\n        ports: []\n        insts: []\n      - mod_name: \"b\"\n        ports: []\n        insts: []\n"
    );
}

#[test]
fn module_with_two_ports() {
    let events = defs_module(
        "top",
        vec![
            defs_port(vec![defs_direction("input"), defs_ident("PortIdentifier", "a")]),
            defs_port(vec![
                defs_direction("output"),
                defs_range("3"),
                defs_ident("PortIdentifier", "b"),
            ]),
        ],
    );
    assert_eq!(
        defs_report(&events),
        "      - mod_name: \"top\"\n        ports:\n          - port_name: \"a\"\n            port_dir: \"input\"\n            port_width: 1\n          - port_name: \"b\"\n            port_dir: \"output\"\n            port_width: 4\n        insts: []\n"
    );
}

#[test]
fn port_without_direction_inherits_the_direction_before() {
    let events = defs_module(
        "top",
        vec![
            defs_port(vec![defs_direction("input"), defs_ident("PortIdentifier", "a")]),
            defs_port(vec![defs_ident("PortIdentifier", "b")]),
        ],
    );
    assert_eq!(
        defs_report(&events),
        "      - mod_name: \"top\"\n        ports:\n          - port_name: \"a\"\n            port_dir: \"input\"\n            port_width: 1\n          - port_name: \"b\"\n            port_dir: \"input\"\n            port_width: 1\n        insts: []\n"
    );
}

#[test]
fn port_without_direction_inherits_output_and_width() {
    let events = defs_module(
        "top",
        vec![
            defs_port(vec![
                defs_direction("output"),
                defs_range("7"),
                defs_ident("PortIdentifier", "a"),
            ]),
            defs_port(vec![defs_ident("PortIdentifier", "b")]),
        ],
    );
    assert_eq!(
        defs_report(&events),
        "      - mod_name: \"top\"\n        ports:\n          - port_name: \"a\"\n            port_dir: \"output\"\n            port_width: 8\n          - port_name: \"b\"\n            port_dir: \"output\"\n            port_width: 8\n        insts: []\n"
    );
}

#[test]
fn direction_carries_over_into_the_next_module() {
    let events = defs_join(vec![
        defs_module(
            "a",
            vec![defs_port(vec![defs_direction("output"), defs_ident("PortIdentifier", "x")])],
        ),
        defs_module("b", vec![defs_port(vec![defs_ident("PortIdentifier", "y")])]),
    ]);
    let report = defs_report(&events);
    assert!(report.ends_with(
        "      - mod_name: \"b\"\n        ports:\n          - port_name: \"y\"\n            port_dir: \"output\"\n            port_width: 1\n        insts: []\n"
    ));
}

#[test]
fn first_port_defaults_to_input_of_width_one() {
    let events = defs_module("top", vec![defs_port(vec![defs_ident("PortIdentifier", "a")])]);
    assert_eq!(
        defs_report(&events),
        "      - mod_name: \"top\"\n        ports:\n          - port_name: \"a\"\n            port_dir: \"input\"\n            port_width: 1\n        insts: []\n"
    );
}

#[test]
fn direction_keyword_puts_the_width_back_to_one() {
    let events = defs_module(
        "top",
        vec![
            defs_port(vec![
                defs_direction("input"),
                defs_range("15"),
                defs_ident("PortIdentifier", "a"),
            ]),
            defs_port(vec![defs_direction("input"), defs_ident("PortIdentifier", "b")]),
        ],
    );
    let report = defs_report(&events);
    assert!(report.contains("port_name: \"a\"\n            port_dir: \"input\"\n            port_width: 16\n"));
    assert!(report.contains("port_name: \"b\"\n            port_dir: \"input\"\n            port_width: 1\n"));
}

#[test]
fn any_keyword_but_input_is_an_output() {
    let events = defs_module(
        "top",
        vec![defs_port(vec![defs_direction("inout"), defs_ident("PortIdentifier", "a")])],
    );
    assert!(defs_report(&events).contains("port_dir: \"output\"\n"));
}

#[test]
fn input_and_output_declarations_set_the_direction() {
    let events = defs_wrap(
        "ModuleDeclarationNonansi",
        defs_join(vec![
            defs_ident("ModuleIdentifier", "m"),
            defs_wrap(
                "PortDeclaration",
                defs_wrap(
                    "OutputDeclaration",
                    defs_join(vec![
                        defs_wrap("Keyword", vec![defs_token("output")]),
                        defs_range("1"),
                        defs_ident("PortIdentifier", "q"),
                    ]),
                ),
            ),
            defs_wrap(
                "PortDeclaration",
                defs_wrap(
                    "InputDeclaration",
                    defs_join(vec![
                        defs_wrap("Keyword", vec![defs_token("input")]),
                        defs_ident("PortIdentifier", "d"),
                        defs_ident("PortIdentifier", "e"),
                    ]),
                ),
            ),
        ]),
    );
    assert_eq!(
        defs_report(&events),
        "      - mod_name: \"m\"\n        ports:\n          - port_name: \"q\"\n            port_dir: \"output\"\n            port_width: 2\n          - port_name: \"d\"\n            port_dir: \"input\"\n            port_width: 1\n          - port_name: \"e\"\n            port_dir: \"input\"\n            port_width: 1\n        insts: []\n"
    );
}

#[test]
fn later_check_overrides_earlier_one() {
    // a direction keyword that says `input` inside an output declaration
    let events = defs_wrap(
        "PortDeclaration",
        defs_join(vec![
            defs_direction("input"),
            defs_wrap("OutputDeclaration", defs_ident("PortIdentifier", "p")),
        ]),
    );
    assert!(defs_report(&events).contains("port_dir: \"output\"\n"));
    let events = defs_wrap(
        "PortDeclaration",
        defs_join(vec![
            defs_wrap("InputDeclaration", vec![]),
            defs_wrap("OutputDeclaration", defs_ident("PortIdentifier", "p")),
        ]),
    );
    assert!(defs_report(&events).contains("port_dir: \"output\"\n"));
}

#[test]
fn ports_before_any_module_have_no_key() {
    let events = defs_port(vec![defs_direction("output"), defs_ident("PortIdentifier", "a")]);
    assert_eq!(
        defs_report(&events),
        "          - port_name: \"a\"\n            port_dir: \"output\"\n            port_width: 1\n"
    );
}

#[test]
fn port_identifier_without_name_is_left_out() {
    let events = defs_module(
        "top",
        vec![defs_port(vec![
            defs_direction("input"),
            defs_wrap("PortIdentifier", vec![]),
            defs_ident("PortIdentifier", "b"),
        ])],
    );
    let report = defs_report(&events);
    assert_eq!(report.matches("port_name").count(), 1);
    assert!(report.contains("port_name: \"b\""));
}

#[test]
fn module_without_name_is_left_out() {
    let events = defs_join(vec![
        defs_wrap("ModuleDeclarationAnsi", defs_wrap("Keyword", vec![defs_token("module")])),
        defs_module("b", vec![]),
    ]);
    assert_eq!(
        defs_report(&events),
        "      - mod_name: \"b\"\n        ports: []\n        insts: []\n"
    );
}

#[test]
fn instantiations_are_listed_in_order() {
    let events = defs_module("top", vec![defs_inst("sub", "u0"), defs_inst("other", "u1")]);
    assert_eq!(
        defs_report(&events),
        "      - mod_name: \"top\"\n        insts:\n          - mod_name: \"sub\"\n            inst_name: \"u0\"\n          - mod_name: \"other\"\n            inst_name: \"u1\"\n        ports: []\n"
    );
}

#[test]
fn instantiation_without_instance_name_is_left_out() {
    let events = defs_module(
        "top",
        vec![defs_wrap("ModuleInstantiation", defs_ident("ModuleIdentifier", "sub"))],
    );
    assert_eq!(
        defs_report(&events),
        "      - mod_name: \"top\"\n        ports: []\n        insts: []\n"
    );
}

#[test]
fn instantiation_without_module_name_is_left_out() {
    let events = defs_module(
        "top",
        vec![defs_wrap("ModuleInstantiation", defs_ident("InstanceIdentifier", "u0"))],
    );
    assert_eq!(
        defs_report(&events),
        "      - mod_name: \"top\"\n        ports: []\n        insts: []\n"
    );
}

#[test]
fn modules_keep_the_order_of_their_declarations() {
    let events = defs_join(vec![
        defs_module("top", vec![defs_inst("zeta", "z"), defs_inst("alpha", "a")]),
        defs_module("alpha", vec![]),
        defs_module("zeta", vec![]),
    ]);
    let report = defs_report(&events);
    let modules: Vec<&str> =
        report.lines().filter(|line| line.starts_with("      - mod_name: ")).collect();
    assert_eq!(
        modules,
        vec![
            "      - mod_name: \"top\"",
            "      - mod_name: \"alpha\"",
            "      - mod_name: \"zeta\""
        ]
    );
}

#[test]
fn names_are_quoted_with_escapes() {
    let events = defs_wrap(
        "ModuleDeclarationAnsi",
        defs_wrap(
            "ModuleIdentifier",
            defs_wrap("EscapedIdentifier", vec![defs_token("\\a\"b")]),
        ),
    );
    assert_eq!(
        defs_report(&events),
        "      - mod_name: \"\\\\a\\\"b\"\n        ports: []\n        insts: []\n"
    );
}

#[test]
fn bad_range_bound_is_an_error() {
    let events = defs_module(
        "top",
        vec![defs_port(vec![
            defs_direction("input"),
            defs_range("1_000"),
            defs_ident("PortIdentifier", "a"),
        ])],
    );
    assert_eq!(analyze_defs(&events), Err(DefsError::BadRangeBound));
}

#[test]
fn range_without_number_keeps_the_width() {
    let events = defs_module(
        "top",
        vec![defs_port(vec![
            defs_direction("input"),
            defs_wrap("ConstantRange", defs_wrap("Identifier", vec![defs_token("N")])),
            defs_ident("PortIdentifier", "a"),
        ])],
    );
    assert!(defs_report(&events).contains("port_width: 1\n"));
}

#[test]
fn range_bounds_are_decimal_numbers() {
    assert_eq!(parse_range_bound(b"0"), Some(0));
    assert_eq!(parse_range_bound(b"3"), Some(3));
    assert_eq!(parse_range_bound(b"007"), Some(7));
    assert_eq!(parse_range_bound(b"1023"), Some(1023));
    assert_eq!(parse_range_bound(b"2147483647"), Some(MAX_RANGE_BOUND));
    assert_eq!(parse_range_bound(b"2147483648"), None);
    assert_eq!(parse_range_bound(b"99999999999999999999999"), None);
    assert_eq!(parse_range_bound(b""), None);
    assert_eq!(parse_range_bound(b"1_000"), None);
    assert_eq!(parse_range_bound(b"-1"), None);
    assert_eq!(parse_range_bound(b"+1"), None);
    assert_eq!(parse_range_bound(b"12a"), None);
    assert_eq!(parse_range_bound(b" 12"), None);
}

#[test]
fn largest_bound_gives_largest_width() {
    let events = defs_port(vec![defs_range("2147483647"), defs_ident("PortIdentifier", "a")]);
    assert!(defs_report(&events).contains("port_width: 2147483648\n"));
}

#[test]
fn state_starts_as_input_of_width_one() {
    let s = DefsState::new();
    assert!(!s.ports_pending);
    assert!(!s.insts_pending);
    assert_eq!(s.direction, Direction::Input);
    assert_eq!(s.width, 1);
}

#[test]
fn module_declaration_makes_both_keys_pending() {
    let events = defs_module("top", vec![]);
    let mut s = DefsState::new();
    let mut out = Vec::new();
    process_module_def(&events, 0, &mut s, &mut out);
    assert!(s.ports_pending && s.insts_pending);
    assert_eq!(out, b"      - mod_name: \"top\"\n".to_vec());
    process_module_def(&events, 0, &mut s, &mut out);
    assert_eq!(
        out,
        b"      - mod_name: \"top\"\n        ports: []\n        insts: []\n      - mod_name: \"top\"\n".to_vec()
    );
}

#[test]
fn instantiation_writes_its_key_once() {
    let events = defs_inst("sub", "u0");
    let mut s = DefsState::new();
    s.insts_pending = true;
    let mut out = Vec::new();
    process_module_inst(&events, 0, &mut s, &mut out);
    assert!(!s.insts_pending);
    process_module_inst(&events, 0, &mut s, &mut out);
    assert_eq!(
        String::from_utf8(out).unwrap(),
        "        insts:\n          - mod_name: \"sub\"\n            inst_name: \"u0\"\n          - mod_name: \"sub\"\n            inst_name: \"u0\"\n"
    );
}

#[test]
fn port_identifier_reads_the_state_at_its_time() {
    let events = defs_ident("PortIdentifier", "p");
    let mut s = DefsState::new();
    s.ports_pending = true;
    s.direction = Direction::Output;
    s.width = 12;
    let mut out = Vec::new();
    process_port_ident(&events, 0, &mut s, &mut out);
    assert!(!s.ports_pending);
    assert_eq!(
        String::from_utf8(out).unwrap(),
        "        ports:\n          - port_name: \"p\"\n            port_dir: \"output\"\n            port_width: 12\n"
    );
}

#[test]
fn port_state_is_resolved_by_all_four_checks() {
    let events = defs_port(vec![defs_direction("output"), defs_range("31")]);
    let mut s = DefsState::new();
    assert_eq!(resolve_port_state(&events, 0, &mut s), Ok(()));
    assert_eq!(s.direction, Direction::Output);
    assert_eq!(s.width, 32);
    let events = defs_port(vec![defs_range("x")]);
    assert_eq!(resolve_port_state(&events, 0, &mut s), Err(DefsError::BadRangeBound));
}

#[test]
fn port_declaration_writes_every_port_identifier_in_it() {
    let events = defs_join(vec![
        defs_port(vec![
            defs_direction("input"),
            defs_ident("PortIdentifier", "a"),
            defs_ident("PortIdentifier", "b"),
        ]),
        defs_ident("PortIdentifier", "outside"),
    ]);
    let mut s = DefsState::new();
    let mut out = Vec::new();
    assert_eq!(process_port_def(&events, 0, &mut s, &mut out), Ok(()));
    let text = String::from_utf8(out).unwrap();
    assert_eq!(text.matches("port_name").count(), 2);
    assert!(!text.contains("outside"));
}
