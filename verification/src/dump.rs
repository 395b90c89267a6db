//! The dump of a whole syntax tree: every node and every token on a line of
//! its own, indented by its depth.

use vstd::prelude::*;
use crate::escape::{push_quoted, quoted};
use crate::text::{decimal, lit, push_bytes, push_decimal, push_text, spaces, LINE_FEED, SPACE};
use crate::tree::{NodeEvent, NodeKind};

verus! {

/// The depth at which the dump begins, so that it nests under its key in
/// the report.
pub const DUMP_DEPTH: usize = 3;

/// What the dump remembers from event to event.
pub struct DumpState {
    /// How many nodes are entered and not yet left, plus [`DUMP_DEPTH`].
    pub depth: nat,
    /// Whether the events are inside white space that is left out.
    pub skip: bool,
}

/// A state together with the text written on the way to it.
pub struct Dump {
    pub state: DumpState,
    pub text: Seq<u8>,
}

/// The indentation at `depth`: two spaces for each level.
pub open spec fn indent(depth: nat) -> Seq<u8> {
    spaces(2 * depth)
}

/// The two lines for a token at `depth`: its quoted text and its line.
pub open spec fn token_lines(depth: nat, text: Seq<u8>, line: u32) -> Seq<u8> {
    indent(depth) + lit("- Token: ") + quoted(text) + seq![LINE_FEED] + indent(depth) + lit(
        "  Line: ",
    ) + decimal(line as nat) + seq![LINE_FEED]
}

/// The line for a node at `depth`: the name of its construct as a key.
pub open spec fn node_line(depth: nat, name: Seq<u8>) -> Seq<u8> {
    indent(depth) + lit("- ") + name + lit(":\n")
}

/// What one event does to the dump.
///
/// A token is written at the current depth unless white space is being
/// skipped. Entering white space starts the skipping unless white space is
/// included; leaving white space ends it; neither is written nor changes the
/// depth. Entering any other node writes its name unless white space is
/// being skipped, and the depth grows by one; leaving it makes the depth
/// one less, where it is not zero already.
pub open spec fn dump_event(event: NodeEvent, include_whitespace: bool, s: DumpState) -> Dump {
    match event {
        NodeEvent::Token(token) => Dump {
            state: s,
            text: if s.skip {
                Seq::empty()
            } else {
                token_lines(s.depth, token.text@, token.line)
            },
        },
        NodeEvent::Enter(node) => if node.kind == NodeKind::WhiteSpace {
            Dump {
                state: DumpState { depth: s.depth, skip: s.skip || !include_whitespace },
                text: Seq::empty(),
            }
        } else {
            Dump {
                state: DumpState { depth: s.depth + 1, skip: s.skip },
                text: if s.skip {
                    Seq::empty()
                } else {
                    node_line(s.depth, node.name@)
                },
            }
        },
        NodeEvent::Leave(kind) => if kind == NodeKind::WhiteSpace {
            Dump { state: DumpState { depth: s.depth, skip: false }, text: Seq::empty() }
        } else {
            Dump {
                state: DumpState {
                    depth: if s.depth > 0 {
                        (s.depth - 1) as nat
                    } else {
                        0
                    },
                    skip: s.skip,
                },
                text: Seq::empty(),
            }
        },
    }
}

/// The dump of the first `upto` events.
pub open spec fn dump_upto(events: Seq<NodeEvent>, upto: int, include_whitespace: bool) -> Dump
    decreases upto,
{
    if upto <= 0 || upto > events.len() {
        Dump { state: DumpState { depth: DUMP_DEPTH as nat, skip: false }, text: Seq::empty() }
    } else {
        let before = dump_upto(events, upto - 1, include_whitespace);
        let last = dump_event(events[upto - 1], include_whitespace, before.state);
        Dump { state: last.state, text: before.text + last.text }
    }
}

/// The text of the `syntax_tree` block for the syntax tree `events`.
pub open spec fn dump_text(events: Seq<NodeEvent>, include_whitespace: bool) -> Seq<u8> {
    dump_upto(events, events.len() as int, include_whitespace).text
}

/// Where white space is included nothing is skipped: every token is
/// written, and every node but the white space nodes themselves.
pub proof fn lemma_nothing_skipped(events: Seq<NodeEvent>, upto: int)
    requires
        0 <= upto <= events.len(),
    ensures
        !dump_upto(events, upto, true).state.skip,
    decreases upto,
{
    if upto > 0 {
        lemma_nothing_skipped(events, upto - 1);
    }
}

/// Writes the two lines for a token.
fn write_token(out: &mut Vec<u8>, margin: &Vec<u8>, text: &[u8], line: u32)
    ensures
        final(out)@ == old(out)@ + (margin@ + lit("- Token: ") + quoted(text@) + seq![LINE_FEED]
            + margin@ + lit("  Line: ") + decimal(line as nat) + seq![LINE_FEED]),
{
    push_bytes(out, margin.as_slice());
    push_text(out, "- Token: ");
    push_quoted(out, text);
    out.push(LINE_FEED);
    let ghost first = out@;
    assert(first =~= old(out)@ + (margin@ + lit("- Token: ") + quoted(text@) + seq![LINE_FEED]));
    push_bytes(out, margin.as_slice());
    push_text(out, "  Line: ");
    push_decimal(out, line as u128);
    out.push(LINE_FEED);
    assert(out@ =~= first + (margin@ + lit("  Line: ") + decimal(line as nat) + seq![LINE_FEED]));
    assert(out@ =~= old(out)@ + (margin@ + lit("- Token: ") + quoted(text@) + seq![LINE_FEED]
        + margin@ + lit("  Line: ") + decimal(line as nat) + seq![LINE_FEED]));
}

/// Writes the line for a node.
fn write_node(out: &mut Vec<u8>, margin: &Vec<u8>, name: &[u8])
    ensures
        final(out)@ == old(out)@ + (margin@ + lit("- ") + name@ + lit(":\n")),
{
    push_bytes(out, margin.as_slice());
    push_text(out, "- ");
    push_bytes(out, name);
    push_text(out, ":\n");
    assert(out@ =~= old(out)@ + (margin@ + lit("- ") + name@ + lit(":\n")));
}

/// Dumps the syntax tree `events`.
///
/// The result is the text of the `syntax_tree` block: every token with its
/// quoted text and its line, and every other node with the name of its
/// construct, each indented by its depth, in source order. White space and
/// what stands in it appear only where `include_whitespace` is set.
pub fn print_full_tree(events: &[NodeEvent], include_whitespace: bool) -> (r: Vec<u8>)
    ensures
        r@ == dump_text(events@, include_whitespace),
{
    let mut out: Vec<u8> = Vec::new();
    let mut margin: Vec<u8> = Vec::new();
    let mut skip: bool = false;
    let mut level: usize = 0;
    while level < DUMP_DEPTH
        invariant
            level <= DUMP_DEPTH,
            margin@ == indent(level as nat),
        decreases DUMP_DEPTH - level,
    {
        margin.push(SPACE);
        margin.push(SPACE);
        level += 1;
        assert(margin@ =~= indent(level as nat));
    }
    let mut pos: usize = 0;
    while pos < events.len()
        invariant
            pos <= events.len(),
            margin@ == indent(dump_upto(events@, pos as int, include_whitespace).state.depth),
            skip == dump_upto(events@, pos as int, include_whitespace).state.skip,
            out@ == dump_upto(events@, pos as int, include_whitespace).text,
        decreases events.len() - pos,
    {
        let ghost before = dump_upto(events@, pos as int, include_whitespace);
        let ghost depth = before.state.depth;
        match &events[pos] {
            NodeEvent::Token(token) => {
                if !skip {
                    write_token(&mut out, &margin, token.text.as_slice(), token.line);
                }
            },
            NodeEvent::Enter(node) => {
                if node.kind == NodeKind::WhiteSpace {
                    if !include_whitespace {
                        skip = true;
                    }
                } else {
                    if !skip {
                        write_node(&mut out, &margin, node.name.as_slice());
                    }
                    margin.push(SPACE);
                    margin.push(SPACE);
                    assert(margin@ =~= indent(depth + 1));
                }
            },
            NodeEvent::Leave(kind) => {
                if *kind == NodeKind::WhiteSpace {
                    skip = false;
                } else if margin.len() >= 2 {
                    margin.pop();
                    margin.pop();
                    assert(depth > 0);
                    assert(margin@ =~= indent((depth - 1) as nat));
                } else {
                    assert(depth == 0);
                }
            },
        }
        assert(out@ =~= before.text + dump_event(events@[pos as int], include_whitespace, before.state).text);
        pos += 1;
    }
    out
}

} // verus!
