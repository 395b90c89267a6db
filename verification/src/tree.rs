//! The syntax tree of one source file, as the stream of events of its
//! depth-first traversal in source order.
//!
//! A node that has children is entered, its children follow in order, and it
//! is left. A terminal token is a single event that carries its exact source
//! text and its line. The functions here find nodes inside the subtree of a
//! node, which is the stretch of the stream from the node's entry to its
//! leave.

use vstd::prelude::*;
use crate::text::lit;

verus! {

/// The grammar constructs that the reports tell apart.
#[derive(Clone, Copy, Debug, PartialEq, Eq, Structural)]
pub enum NodeKind {
    WhiteSpace,
    ModuleDeclarationNonansi,
    ModuleDeclarationAnsi,
    ModuleInstantiation,
    AnsiPortDeclaration,
    PortDeclaration,
    PortIdentifier,
    PortDirection,
    InputDeclaration,
    OutputDeclaration,
    ConstantRange,
    UnsignedNumber,
    Keyword,
    ModuleIdentifier,
    InstanceIdentifier,
    SimpleIdentifier,
    EscapedIdentifier,
    /// Any other construct.
    Other,
}

/// The kind of the construct that the grammar calls `name`.
pub open spec fn kind_of(name: Seq<u8>) -> NodeKind {
    if name == lit("WhiteSpace") {
        NodeKind::WhiteSpace
    } else if name == lit("ModuleDeclarationNonansi") {
        NodeKind::ModuleDeclarationNonansi
    } else if name == lit("ModuleDeclarationAnsi") {
        NodeKind::ModuleDeclarationAnsi
    } else if name == lit("ModuleInstantiation") {
        NodeKind::ModuleInstantiation
    } else if name == lit("AnsiPortDeclaration") {
        NodeKind::AnsiPortDeclaration
    } else if name == lit("PortDeclaration") {
        NodeKind::PortDeclaration
    } else if name == lit("PortIdentifier") {
        NodeKind::PortIdentifier
    } else if name == lit("PortDirection") {
        NodeKind::PortDirection
    } else if name == lit("InputDeclaration") {
        NodeKind::InputDeclaration
    } else if name == lit("OutputDeclaration") {
        NodeKind::OutputDeclaration
    } else if name == lit("ConstantRange") {
        NodeKind::ConstantRange
    } else if name == lit("UnsignedNumber") {
        NodeKind::UnsignedNumber
    } else if name == lit("Keyword") {
        NodeKind::Keyword
    } else if name == lit("ModuleIdentifier") {
        NodeKind::ModuleIdentifier
    } else if name == lit("InstanceIdentifier") {
        NodeKind::InstanceIdentifier
    } else if name == lit("SimpleIdentifier") {
        NodeKind::SimpleIdentifier
    } else if name == lit("EscapedIdentifier") {
        NodeKind::EscapedIdentifier
    } else {
        NodeKind::Other
    }
}

/// Whether `a` and `b` hold the same bytes.
pub fn bytes_equal(a: &[u8], b: &[u8]) -> (r: bool)
    ensures
        r == (a@ == b@),
{
    if a.len() != b.len() {
        return false;
    }
    let mut i: usize = 0;
    while i < a.len()
        invariant
            i <= a.len(),
            a@.len() == b@.len(),
            a@.take(i as int) == b@.take(i as int),
        decreases a.len() - i,
    {
        if a[i] != b[i] {
            return false;
        }
        assert(a@.take(i + 1) =~= a@.take(i as int).push(a@[i as int]));
        assert(b@.take(i + 1) =~= b@.take(i as int).push(b@[i as int]));
        i += 1;
    }
    assert(a@ =~= a@.take(a.len() as int));
    assert(b@ =~= b@.take(b.len() as int));
    true
}

/// Whether `a` holds the bytes of the text `s`.
pub fn is_text(a: &[u8], s: &str) -> (r: bool)
    ensures
        r == (a@ == lit(s)),
{
    bytes_equal(a, s.as_bytes())
}

/// Tells the kind of the construct that the grammar calls `name`.
pub fn classify(name: &[u8]) -> (kind: NodeKind)
    ensures
        kind == kind_of(name@),
{
    if is_text(name, "WhiteSpace") {
        NodeKind::WhiteSpace
    } else if is_text(name, "ModuleDeclarationNonansi") {
        NodeKind::ModuleDeclarationNonansi
    } else if is_text(name, "ModuleDeclarationAnsi") {
        NodeKind::ModuleDeclarationAnsi
    } else if is_text(name, "ModuleInstantiation") {
        NodeKind::ModuleInstantiation
    } else if is_text(name, "AnsiPortDeclaration") {
        NodeKind::AnsiPortDeclaration
    } else if is_text(name, "PortDeclaration") {
        NodeKind::PortDeclaration
    } else if is_text(name, "PortIdentifier") {
        NodeKind::PortIdentifier
    } else if is_text(name, "PortDirection") {
        NodeKind::PortDirection
    } else if is_text(name, "InputDeclaration") {
        NodeKind::InputDeclaration
    } else if is_text(name, "OutputDeclaration") {
        NodeKind::OutputDeclaration
    } else if is_text(name, "ConstantRange") {
        NodeKind::ConstantRange
    } else if is_text(name, "UnsignedNumber") {
        NodeKind::UnsignedNumber
    } else if is_text(name, "Keyword") {
        NodeKind::Keyword
    } else if is_text(name, "ModuleIdentifier") {
        NodeKind::ModuleIdentifier
    } else if is_text(name, "InstanceIdentifier") {
        NodeKind::InstanceIdentifier
    } else if is_text(name, "SimpleIdentifier") {
        NodeKind::SimpleIdentifier
    } else if is_text(name, "EscapedIdentifier") {
        NodeKind::EscapedIdentifier
    } else {
        NodeKind::Other
    }
}

/// A node that is not a token: its kind, and the name that the grammar gives
/// to the construct.
pub struct Node {
    pub kind: NodeKind,
    pub name: Vec<u8>,
}

impl Node {
    /// The kind is the one that the name stands for.
    pub open spec fn consistent(&self) -> bool {
        self.kind == kind_of(self.name@)
    }

    /// The node for the construct that the grammar calls `name`.
    pub fn new(name: Vec<u8>) -> (node: Node)
        ensures
            node.name == name,
            node.consistent(),
    {
        let kind = classify(name.as_slice());
        Node { kind, name }
    }
}

/// A terminal token: its exact source text and its line, counted from 1.
pub struct Token {
    pub text: Vec<u8>,
    pub line: u32,
}

/// One step of the traversal of a syntax tree.
pub enum NodeEvent {
    /// A terminal token, entered and left at once.
    Token(Token),
    /// A node is entered; its children follow.
    Enter(Node),
    /// A node of the given kind is left.
    Leave(NodeKind),
}

/// Where a scan that stands at `pos` with `open` nodes entered and not yet
/// left comes to the end of the subtree it started in.
pub open spec fn scan_end(events: Seq<NodeEvent>, pos: int, open: nat) -> int
    decreases events.len() - pos,
{
    if pos < 0 || pos >= events.len() {
        events.len() as int
    } else {
        match events[pos] {
            NodeEvent::Enter(_) => scan_end(events, pos + 1, open + 1),
            NodeEvent::Token(_) => if open == 0 {
                pos + 1
            } else {
                scan_end(events, pos + 1, open)
            },
            NodeEvent::Leave(_) => if open <= 1 {
                pos + 1
            } else {
                scan_end(events, pos + 1, (open - 1) as nat)
            },
        }
    }
}

/// The index just behind the subtree of the node at `at`: behind the leave
/// that closes the node entered at `at`, behind `at` itself for a token, and
/// the end of the stream where the node is never left.
pub open spec fn subtree_end(events: Seq<NodeEvent>, at: int) -> int {
    scan_end(events, at, 0)
}

/// The event enters a node of kind `a` or `b`.
pub open spec fn enters(event: NodeEvent, a: NodeKind, b: NodeKind) -> bool {
    match event {
        NodeEvent::Enter(node) => node.kind == a || node.kind == b,
        _ => false,
    }
}

/// The first index from `from` up to `to` whose event enters a node of kind
/// `a` or `b`.
pub open spec fn first_entry(
    events: Seq<NodeEvent>,
    from: int,
    to: int,
    a: NodeKind,
    b: NodeKind,
) -> Option<int>
    decreases to - from,
{
    if from < 0 || from >= to || from >= events.len() {
        None
    } else if enters(events[from], a, b) {
        Some(from)
    } else {
        first_entry(events, from + 1, to, a, b)
    }
}

/// The first node of kind `a` or `b` in the subtree of the node at `at`, the
/// node itself included, in source order.
pub open spec fn find(events: Seq<NodeEvent>, at: int, a: NodeKind, b: NodeKind) -> Option<int> {
    first_entry(events, at, subtree_end(events, at), a, b)
}

/// The text of the token that the node at `at` begins with.
pub open spec fn leading_text(events: Seq<NodeEvent>, at: int) -> Option<Seq<u8>> {
    if 0 <= at && at + 1 < events.len() {
        match events[at + 1] {
            NodeEvent::Token(token) => Some(token.text@),
            _ => None,
        }
    } else {
        None
    }
}

/// The text that the first node of kind `a` or `b` in the subtree of the node
/// at `at` begins with.
pub open spec fn text_of(events: Seq<NodeEvent>, at: int, a: NodeKind, b: NodeKind) -> Option<
    Seq<u8>,
> {
    match find(events, at, a, b) {
        Some(j) => leading_text(events, j),
        None => None,
    }
}

/// The identifier in the subtree of the node at `at`: the text of its first
/// simple or escaped identifier.
pub open spec fn identifier(events: Seq<NodeEvent>, at: int) -> Option<Seq<u8>> {
    text_of(events, at, NodeKind::SimpleIdentifier, NodeKind::EscapedIdentifier)
}

/// The text of the first keyword in the subtree of the node at `at`.
pub open spec fn keyword(events: Seq<NodeEvent>, at: int) -> Option<Seq<u8>> {
    text_of(events, at, NodeKind::Keyword, NodeKind::Keyword)
}

/// The text of the first unsigned number in the subtree of the node at `at`.
pub open spec fn unsigned_number(events: Seq<NodeEvent>, at: int) -> Option<Seq<u8>> {
    text_of(events, at, NodeKind::UnsignedNumber, NodeKind::UnsignedNumber)
}

/// A scan ends behind where it stands and within the stream.
pub proof fn lemma_scan_end_bounds(events: Seq<NodeEvent>, pos: int, open: nat)
    requires
        0 <= pos,
    ensures
        scan_end(events, pos, open) <= events.len(),
        pos < events.len() ==> pos < scan_end(events, pos, open),
    decreases events.len() - pos,
{
    if pos < events.len() {
        lemma_scan_end_bounds(events, pos + 1, open + 1);
        lemma_scan_end_bounds(events, pos + 1, open);
        if open > 1 {
            lemma_scan_end_bounds(events, pos + 1, (open - 1) as nat);
        }
    }
}

/// What [`first_entry`] finds is the least index in its range whose event
/// enters a node of one of the two kinds.
pub proof fn lemma_first_entry(events: Seq<NodeEvent>, from: int, to: int, a: NodeKind, b: NodeKind)
    requires
        0 <= from,
    ensures
        match first_entry(events, from, to, a, b) {
            Some(j) => from <= j < to && j < events.len() && enters(events[j], a, b) && forall|
                k: int,
            | from <= k < j ==> !enters(events[k], a, b),
            None => forall|k: int| from <= k < to && k < events.len() ==> !enters(events[k], a, b),
        },
    decreases to - from,
{
    if from < to && from < events.len() && !enters(events[from], a, b) {
        lemma_first_entry(events, from + 1, to, a, b);
    }
}

/// Finds the first node of kind `a` or `b` in the subtree of the node at
/// `at`, the node itself included.
pub fn find_node(events: &[NodeEvent], at: usize, a: NodeKind, b: NodeKind) -> (r: Option<usize>)
    ensures
        r is Some == find(events@, at as int, a, b) is Some,
        r matches Some(j) ==> find(events@, at as int, a, b) == Some(j as int) && at <= j
            < events@.len(),
{
    let ghost end = subtree_end(events@, at as int);
    let mut pos: usize = at;
    let mut open: usize = 0;
    while pos < events.len()
        invariant
            at <= pos,
            open <= pos - at,
            scan_end(events@, pos as int, open as nat) == end,
            first_entry(events@, pos as int, end, a, b) == find(events@, at as int, a, b),
            end == subtree_end(events@, at as int),
        decreases events.len() - pos,
    {
        proof {
            lemma_scan_end_bounds(events@, pos as int, open as nat);
        }
        match &events[pos] {
            NodeEvent::Enter(node) => {
                if node.kind == a || node.kind == b {
                    return Some(pos);
                }
                open += 1;
            },
            NodeEvent::Token(_) => {
                if open == 0 {
                    assert(first_entry(events@, pos + 1, end, a, b) is None);
                    return None;
                }
            },
            NodeEvent::Leave(_) => {
                if open <= 1 {
                    assert(first_entry(events@, pos + 1, end, a, b) is None);
                    return None;
                }
                open -= 1;
            },
        }
        pos += 1;
    }
    None
}

/// Finds the index just behind the subtree of the node at `at`.
pub fn end_of_subtree(events: &[NodeEvent], at: usize) -> (end: usize)
    ensures
        end == subtree_end(events@, at as int),
        end <= events@.len(),
        at < events@.len() ==> at < end,
{
    proof {
        lemma_scan_end_bounds(events@, at as int, 0);
    }
    let mut pos: usize = at;
    let mut open: usize = 0;
    while pos < events.len()
        invariant
            at <= pos,
            open <= pos - at,
            scan_end(events@, pos as int, open as nat) == subtree_end(events@, at as int),
        decreases events.len() - pos,
    {
        match &events[pos] {
            NodeEvent::Enter(_) => {
                open += 1;
            },
            NodeEvent::Token(_) => {
                if open == 0 {
                    return pos + 1;
                }
            },
            NodeEvent::Leave(_) => {
                if open <= 1 {
                    return pos + 1;
                }
                open -= 1;
            },
        }
        pos += 1;
    }
    events.len()
}

/// Reads the text of the token that the node at `at` begins with.
pub fn leading_token(events: &[NodeEvent], at: usize) -> (r: Option<&Vec<u8>>)
    ensures
        r is Some == leading_text(events@, at as int) is Some,
        r matches Some(text) ==> leading_text(events@, at as int) == Some(text@),
{
    if at < events.len() && at + 1 < events.len() {
        match &events[at + 1] {
            NodeEvent::Token(token) => Some(&token.text),
            _ => None,
        }
    } else {
        None
    }
}

/// Reads the text that the first node of kind `a` or `b` in the subtree of
/// the node at `at` begins with.
pub fn find_text(events: &[NodeEvent], at: usize, a: NodeKind, b: NodeKind) -> (r: Option<
    &Vec<u8>,
>)
    ensures
        r is Some == text_of(events@, at as int, a, b) is Some,
        r matches Some(text) ==> text_of(events@, at as int, a, b) == Some(text@),
{
    match find_node(events, at, a, b) {
        Some(j) => leading_token(events, j),
        None => None,
    }
}

/// Reads the identifier in the subtree of the node at `at`.
pub fn get_identifier(events: &[NodeEvent], at: usize) -> (r: Option<&Vec<u8>>)
    ensures
        r is Some == identifier(events@, at as int) is Some,
        r matches Some(text) ==> identifier(events@, at as int) == Some(text@),
{
    find_text(events, at, NodeKind::SimpleIdentifier, NodeKind::EscapedIdentifier)
}

/// Reads the first keyword in the subtree of the node at `at`.
pub fn get_keyword(events: &[NodeEvent], at: usize) -> (r: Option<&Vec<u8>>)
    ensures
        r is Some == keyword(events@, at as int) is Some,
        r matches Some(text) ==> keyword(events@, at as int) == Some(text@),
{
    find_text(events, at, NodeKind::Keyword, NodeKind::Keyword)
}

/// Reads the first unsigned number in the subtree of the node at `at`.
pub fn get_unsigned_number(events: &[NodeEvent], at: usize) -> (r: Option<&Vec<u8>>)
    ensures
        r is Some == unsigned_number(events@, at as int) is Some,
        r matches Some(text) ==> unsigned_number(events@, at as int) == Some(text@),
{
    find_text(events, at, NodeKind::UnsignedNumber, NodeKind::UnsignedNumber)
}

} // verus!
