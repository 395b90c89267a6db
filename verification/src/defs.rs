//! The definitions of a source file: its modules with their ports and
//! instantiations, read off the syntax tree in a single pass.
//!
//! The pass carries a small state from node to node. What it writes is first
//! described as a sequence of [`Entry`] values and then rendered as text, so
//! that what holds of the report can be said of the entries.

use vstd::prelude::*;
use crate::escape::{push_quoted, quoted};
use crate::text::{decimal, lit, push_decimal, push_text, LINE_FEED};
use crate::tree::{
    end_of_subtree, enters, find, find_node, get_identifier, get_keyword, get_unsigned_number, identifier,
    is_text, keyword, subtree_end, unsigned_number, NodeEvent, NodeKind,
};

verus! {

/// The direction of a port.
#[derive(Clone, Copy, Debug, PartialEq, Eq, Structural)]
pub enum Direction {
    Input,
    Output,
}

/// Why the definitions of a file cannot be reported.
#[derive(Clone, Copy, Debug, PartialEq, Eq, Structural)]
pub enum DefsError {
    /// The upper bound of a bit range is not a decimal number that fits.
    BadRangeBound,
}

/// A port as the report shows it.
pub struct PortRecord {
    pub name: Seq<u8>,
    pub direction: Direction,
    pub width: nat,
}

/// An instantiation as the report shows it.
pub struct InstRecord {
    pub module: Seq<u8>,
    pub instance: Seq<u8>,
}

/// One piece of the `defs` block of a report.
pub enum Entry {
    /// The name of a module, which opens its record.
    Module(Seq<u8>),
    /// The key `ports` with an empty list.
    NoPorts,
    /// The key `insts` with an empty list.
    NoInsts,
    /// The key `ports`, before the first port of a module.
    PortsHeader,
    /// A port.
    Port(PortRecord),
    /// The key `insts`, before the first instantiation of a module.
    InstsHeader,
    /// An instantiation.
    Inst(InstRecord),
}

/// What the pass remembers from node to node.
#[derive(Clone, Copy, Debug)]
pub struct DefsState {
    /// A module is open and its `ports` key is still to be written.
    pub ports_pending: bool,
    /// A module is open and its `insts` key is still to be written.
    pub insts_pending: bool,
    /// The direction that the next port gets.
    pub direction: Direction,
    /// The width that the next port gets.
    pub width: u32,
}

/// A state together with what was written on the way to it.
pub struct Step {
    pub state: DefsState,
    pub entries: Seq<Entry>,
}

/// The largest upper bound of a bit range that is accepted.
pub const MAX_RANGE_BOUND: u32 = 0x7fff_ffff;

impl DefsState {
    /// A port is at least one bit wide, and at most one more than the
    /// largest bound.
    pub open spec fn wf(&self) -> bool {
        1 <= self.width <= MAX_RANGE_BOUND + 1
    }

    /// The state at the start of a file: no module is open, and a port would
    /// be an input of width 1.
    pub open spec fn initial() -> DefsState {
        DefsState {
            ports_pending: false,
            insts_pending: false,
            direction: Direction::Input,
            width: 1,
        }
    }

    /// The state at the start of a file.
    pub fn new() -> (s: DefsState)
        ensures
            s == DefsState::initial(),
            s.wf(),
    {
        DefsState {
            ports_pending: false,
            insts_pending: false,
            direction: Direction::Input,
            width: 1,
        }
    }
}

/// The byte is a decimal digit.
pub open spec fn is_digit(b: u8) -> bool {
    0x30 <= b <= 0x39
}

/// Every byte of `s` is a decimal digit.
pub open spec fn all_digits(s: Seq<u8>) -> bool {
    forall|i: int| 0 <= i < s.len() ==> is_digit(#[trigger] s[i])
}

/// The number that the decimal digits `s` write.
pub open spec fn digits_value(s: Seq<u8>) -> nat
    decreases s.len(),
{
    if s.len() == 0 {
        0
    } else {
        digits_value(s.drop_last()) * 10 + (s.last() - 0x30) as nat
    }
}

/// The upper bound that `text` writes: `text` must be one or more decimal
/// digits and nothing else, and the number at most [`MAX_RANGE_BOUND`].
pub open spec fn range_bound(text: Seq<u8>) -> Option<nat> {
    if text.len() > 0 && all_digits(text) && digits_value(text) <= MAX_RANGE_BOUND {
        Some(digits_value(text))
    } else {
        None
    }
}

/// The text of one entry.
pub open spec fn render_entry(entry: Entry) -> Seq<u8> {
    match entry {
        Entry::Module(name) => lit("      - mod_name: ") + quoted(name) + seq![LINE_FEED],
        Entry::NoPorts => lit("        ports: []\n"),
        Entry::NoInsts => lit("        insts: []\n"),
        Entry::PortsHeader => lit("        ports:\n"),
        Entry::Port(port) => lit("          - port_name: ") + quoted(port.name) + seq![LINE_FEED]
            + (match port.direction {
            Direction::Input => lit("            port_dir: \"input\"\n"),
            Direction::Output => lit("            port_dir: \"output\"\n"),
        }) + lit("            port_width: ") + decimal(port.width) + seq![LINE_FEED],
        Entry::InstsHeader => lit("        insts:\n"),
        Entry::Inst(inst) => lit("          - mod_name: ") + quoted(inst.module) + seq![LINE_FEED]
            + (lit("            inst_name: ") + quoted(inst.instance) + seq![LINE_FEED]),
    }
}

/// The text of the entries, one after the other.
pub open spec fn render(entries: Seq<Entry>) -> Seq<u8>
    decreases entries.len(),
{
    if entries.len() == 0 {
        Seq::empty()
    } else {
        render(entries.drop_last()) + render_entry(entries.last())
    }
}

/// The empty lists that close a module whose keys are still to be written.
pub open spec fn flush(s: DefsState) -> Seq<Entry> {
    (if s.ports_pending {
        seq![Entry::NoPorts]
    } else {
        Seq::empty()
    }) + (if s.insts_pending {
        seq![Entry::NoInsts]
    } else {
        Seq::empty()
    })
}

/// The name in the first identifier node of kind `kind` in the subtree of
/// the node at `at`.
pub open spec fn name_in(events: Seq<NodeEvent>, at: int, kind: NodeKind) -> Option<Seq<u8>> {
    match find(events, at, kind, kind) {
        Some(j) => identifier(events, j),
        None => None,
    }
}

/// A module declaration at `at`: where its name is found, the open module
/// is closed, the name is written and both keys are pending again.
pub open spec fn module_def(events: Seq<NodeEvent>, at: int, s: DefsState) -> Step {
    match name_in(events, at, NodeKind::ModuleIdentifier) {
        Some(name) => Step {
            state: DefsState {
                ports_pending: true,
                insts_pending: true,
                direction: s.direction,
                width: s.width,
            },
            entries: flush(s).push(Entry::Module(name)),
        },
        None => Step { state: s, entries: Seq::empty() },
    }
}

/// The instantiation that the node at `at` makes: the name of the module
/// and the name of the instance, where both are found.
pub open spec fn inst_in(events: Seq<NodeEvent>, at: int) -> Option<InstRecord> {
    match (
        name_in(events, at, NodeKind::ModuleIdentifier),
        name_in(events, at, NodeKind::InstanceIdentifier),
    ) {
        (Some(module), Some(instance)) => Some(InstRecord { module, instance }),
        _ => None,
    }
}

/// A module instantiation at `at`: where both of its names are found, it is
/// written, behind the `insts` key if that is pending. Where one of them is
/// missing nothing is written.
pub open spec fn module_inst(events: Seq<NodeEvent>, at: int, s: DefsState) -> Step {
    match inst_in(events, at) {
        Some(inst) => Step {
            state: DefsState {
                ports_pending: s.ports_pending,
                insts_pending: false,
                direction: s.direction,
                width: s.width,
            },
            entries: (if s.insts_pending {
                seq![Entry::InstsHeader]
            } else {
                Seq::empty()
            }).push(Entry::Inst(inst)),
        },
        None => Step { state: s, entries: Seq::empty() },
    }
}

/// The state with the given direction and the width back at 1.
pub open spec fn redirected(s: DefsState, direction: Direction) -> DefsState {
    DefsState {
        ports_pending: s.ports_pending,
        insts_pending: s.insts_pending,
        direction,
        width: 1,
    }
}

/// The direction keyword in the subtree of the node at `at`, if it has one:
/// the keyword `input` means an input, any other an output.
pub open spec fn direction_keyword(events: Seq<NodeEvent>, at: int) -> Option<Direction> {
    match find(events, at, NodeKind::PortDirection, NodeKind::PortDirection) {
        Some(j) => match keyword(events, j) {
            Some(text) => Some(
                if text == lit("input") {
                    Direction::Input
                } else {
                    Direction::Output
                },
            ),
            None => None,
        },
        None => None,
    }
}

/// Whether the subtree of the node at `at` holds a node of kind `kind`.
pub open spec fn holds(events: Seq<NodeEvent>, at: int, kind: NodeKind) -> bool {
    find(events, at, kind, kind) is Some
}

/// The text of the upper bound of the first constant range in the subtree
/// of the node at `at`.
pub open spec fn range_text(events: Seq<NodeEvent>, at: int) -> Option<Seq<u8>> {
    match find(events, at, NodeKind::ConstantRange, NodeKind::ConstantRange) {
        Some(j) => unsigned_number(events, j),
        None => None,
    }
}

/// First check on a port declaration: a direction keyword sets the direction
/// and puts the width back to 1.
pub open spec fn after_keyword(events: Seq<NodeEvent>, at: int, s: DefsState) -> DefsState {
    match direction_keyword(events, at) {
        Some(direction) => redirected(s, direction),
        None => s,
    }
}

/// Second check: an input declaration makes the port an input of width 1.
pub open spec fn after_input(events: Seq<NodeEvent>, at: int, s: DefsState) -> DefsState {
    if holds(events, at, NodeKind::InputDeclaration) {
        redirected(s, Direction::Input)
    } else {
        s
    }
}

/// Third check: an output declaration makes the port an output of width 1.
pub open spec fn after_output(events: Seq<NodeEvent>, at: int, s: DefsState) -> DefsState {
    if holds(events, at, NodeKind::OutputDeclaration) {
        redirected(s, Direction::Output)
    } else {
        s
    }
}

/// Fourth check: a constant range sets the width to its upper bound plus 1.
/// A bound that [`range_bound`] cannot read is an error.
pub open spec fn after_range(events: Seq<NodeEvent>, at: int, s: DefsState) -> Result<
    DefsState,
    DefsError,
> {
    match range_text(events, at) {
        Some(text) => match range_bound(text) {
            Some(bound) => Ok(
                DefsState {
                    ports_pending: s.ports_pending,
                    insts_pending: s.insts_pending,
                    direction: s.direction,
                    width: (bound + 1) as u32,
                },
            ),
            None => Err(DefsError::BadRangeBound),
        },
        None => Ok(s),
    }
}

/// The state in which the ports of the declaration at `at` are written: all
/// four checks are made, one after the other, and a later one overrides what
/// an earlier one set.
pub open spec fn port_state(events: Seq<NodeEvent>, at: int, s: DefsState) -> Result<
    DefsState,
    DefsError,
> {
    after_range(events, at, after_output(events, at, after_input(events, at, after_keyword(events, at, s))))
}

/// A port identifier at `at`: where its name is found, the port is written
/// with the direction and width of the state, behind the `ports` key if
/// that is pending.
pub open spec fn port_ident(events: Seq<NodeEvent>, at: int, s: DefsState) -> Step {
    match identifier(events, at) {
        Some(name) => Step {
            state: DefsState {
                ports_pending: false,
                insts_pending: s.insts_pending,
                direction: s.direction,
                width: s.width,
            },
            entries: (if s.ports_pending {
                seq![Entry::PortsHeader]
            } else {
                Seq::empty()
            }).push(
                Entry::Port(
                    PortRecord { name, direction: s.direction, width: s.width as nat },
                ),
            ),
        },
        None => Step { state: s, entries: Seq::empty() },
    }
}

/// The port identifiers among the events from `from` up to `to`, each
/// handled by [`port_ident`], in order.
pub open spec fn port_idents(events: Seq<NodeEvent>, from: int, to: int, s: DefsState) -> Step
    decreases to - from,
{
    if to <= from || to > events.len() || from < 0 {
        Step { state: s, entries: Seq::empty() }
    } else {
        let before = port_idents(events, from, to - 1, s);
        if enters(events[to - 1], NodeKind::PortIdentifier, NodeKind::PortIdentifier) {
            let last = port_ident(events, to - 1, before.state);
            Step { state: last.state, entries: before.entries + last.entries }
        } else {
            before
        }
    }
}

/// A port declaration at `at`: the four checks settle direction and width,
/// then every port identifier in the subtree is written.
pub open spec fn port_def(events: Seq<NodeEvent>, at: int, s: DefsState) -> Result<Step, DefsError> {
    match port_state(events, at, s) {
        Ok(checked) => Ok(port_idents(events, at, subtree_end(events, at), checked)),
        Err(e) => Err(e),
    }
}

/// What the event at `at` adds to the report: module declarations, module
/// instantiations and port declarations are handled, every other node and
/// every other event is passed over.
pub open spec fn visit(events: Seq<NodeEvent>, at: int, s: DefsState) -> Result<Step, DefsError> {
    match events[at] {
        NodeEvent::Enter(node) => match node.kind {
            NodeKind::ModuleDeclarationNonansi | NodeKind::ModuleDeclarationAnsi => Ok(
                module_def(events, at, s),
            ),
            NodeKind::ModuleInstantiation => Ok(module_inst(events, at, s)),
            NodeKind::AnsiPortDeclaration | NodeKind::PortDeclaration => port_def(events, at, s),
            _ => Ok(Step { state: s, entries: Seq::empty() }),
        },
        _ => Ok(Step { state: s, entries: Seq::empty() }),
    }
}

/// The pass over the first `upto` events, begun in the state `s`: the first
/// error ends it.
pub open spec fn walk(events: Seq<NodeEvent>, upto: int, s: DefsState) -> Result<Step, DefsError>
    decreases upto,
{
    if upto <= 0 || upto > events.len() {
        Ok(Step { state: s, entries: Seq::empty() })
    } else {
        match walk(events, upto - 1, s) {
            Ok(before) => match visit(events, upto - 1, before.state) {
                Ok(last) => Ok(Step { state: last.state, entries: before.entries + last.entries }),
                Err(e) => Err(e),
            },
            Err(e) => Err(e),
        }
    }
}

/// The entries of the `defs` block for the syntax tree `events`: what the
/// pass over all events writes, and the empty lists of the last module.
pub open spec fn defs_entries(events: Seq<NodeEvent>) -> Result<Seq<Entry>, DefsError> {
    match walk(events, events.len() as int, DefsState::initial()) {
        Ok(end) => Ok(end.entries + flush(end.state)),
        Err(e) => Err(e),
    }
}

/// The text of the `defs` block for the syntax tree `events`.
pub open spec fn defs_text(events: Seq<NodeEvent>) -> Result<Seq<u8>, DefsError> {
    match defs_entries(events) {
        Ok(entries) => Ok(render(entries)),
        Err(e) => Err(e),
    }
}

/// Rendering distributes over concatenation.
pub proof fn lemma_render_concat(a: Seq<Entry>, b: Seq<Entry>)
    ensures
        render(a + b) == render(a) + render(b),
    decreases b.len(),
{
    if b.len() == 0 {
        assert(a + b =~= a);
        assert(render(a) + render(b) =~= render(a));
    } else {
        assert((a + b).drop_last() =~= a + b.drop_last());
        assert((a + b).last() == b.last());
        lemma_render_concat(a, b.drop_last());
        assert(render(a + b) =~= render(a) + render(b));
    }
}

/// The text of a single entry, and of one more entry behind others.
pub proof fn lemma_render_push(a: Seq<Entry>, e: Entry)
    ensures
        render(seq![e]) == render_entry(e),
        render(a.push(e)) == render(a) + render_entry(e),
{
    assert(seq![e].drop_last() =~= Seq::<Entry>::empty());
    assert(seq![e].last() == e);
    assert(render(Seq::<Entry>::empty()) =~= Seq::<u8>::empty());
    assert(render(seq![e]) =~= render(seq![e].drop_last()) + render_entry(e));
    assert(render(seq![e]) =~= render_entry(e));
    assert(a.push(e).drop_last() =~= a);
    assert(a.push(e).last() == e);
}

/// An error ends the pass: once the pass over some events has failed, the
/// pass over more of them fails in the same way.
pub proof fn lemma_walk_error(events: Seq<NodeEvent>, upto: int, more: int, s: DefsState)
    requires
        0 <= upto <= more <= events.len(),
        walk(events, upto, s) is Err,
    ensures
        walk(events, more, s) == walk(events, upto, s),
    decreases more - upto,
{
    if upto < more {
        lemma_walk_error(events, upto, more - 1, s);
    }
}

/// Leading digits never write a larger number than all of them.
pub proof fn lemma_digits_value_prefix(s: Seq<u8>, i: int)
    requires
        all_digits(s),
        0 <= i <= s.len(),
    ensures
        digits_value(s.take(i)) <= digits_value(s),
    decreases s.len() - i,
{
    if i < s.len() {
        let longer = s.take(i + 1);
        assert(longer.drop_last() =~= s.take(i));
        assert(is_digit(s[i]));
        assert(longer.last() == s[i]);
        lemma_digits_value_prefix(s, i + 1);
    } else {
        assert(s.take(i) =~= s);
    }
}

/// Reads the upper bound of a bit range.
pub fn parse_range_bound(text: &[u8]) -> (r: Option<u32>)
    ensures
        match r {
            Some(bound) => range_bound(text@) == Some(bound as nat),
            None => range_bound(text@) is None,
        },
{
    if text.len() == 0 {
        return None;
    }
    let mut value: u64 = 0;
    let mut i: usize = 0;
    while i < text.len()
        invariant
            i <= text.len(),
            all_digits(text@.take(i as int)),
            value == digits_value(text@.take(i as int)),
            value <= MAX_RANGE_BOUND,
        decreases text.len() - i,
    {
        let b: u8 = text[i];
        if b < 0x30 || b > 0x39 {
            assert(!is_digit(text@[i as int]));
            return None;
        }
        let ghost longer = text@.take(i + 1);
        assert(longer.drop_last() =~= text@.take(i as int));
        assert(longer.last() == b);
        assert(all_digits(longer)) by {
            assert forall|k: int| 0 <= k < longer.len() implies is_digit(#[trigger] longer[k]) by {
                if k < i {
                    assert(longer[k] == text@.take(i as int)[k]);
                }
            }
        }
        value = value * 10 + (b - 0x30) as u64;
        if value > MAX_RANGE_BOUND as u64 {
            proof {
                if all_digits(text@) {
                    lemma_digits_value_prefix(text@, i + 1);
                }
            }
            return None;
        }
        i += 1;
    }
    assert(text@.take(text.len() as int) =~= text@);
    Some(value as u32)
}

/// Writes a line that holds a key and a quoted name.
fn write_named(out: &mut Vec<u8>, key: &str, name: &[u8])
    ensures
        final(out)@ == old(out)@ + (lit(key) + quoted(name@) + seq![LINE_FEED]),
{
    push_text(out, key);
    push_quoted(out, name);
    out.push(LINE_FEED);
    assert(out@ =~= old(out)@ + (lit(key) + quoted(name@) + seq![LINE_FEED]));
}

/// Writes a port.
fn write_port(out: &mut Vec<u8>, name: &[u8], direction: Direction, width: u32)
    ensures
        final(out)@ == old(out)@ + render_entry(
            Entry::Port(PortRecord { name: name@, direction, width: width as nat }),
        ),
{
    write_named(out, "          - port_name: ", name);
    match direction {
        Direction::Input => {
            push_text(out, "            port_dir: \"input\"\n");
        },
        Direction::Output => {
            push_text(out, "            port_dir: \"output\"\n");
        },
    }
    let ghost line2 = out@;
    push_text(out, "            port_width: ");
    push_decimal(out, width as u128);
    out.push(LINE_FEED);
    assert(out@ =~= line2 + (lit("            port_width: ") + decimal(width as nat)
        + seq![LINE_FEED]));
    assert(out@ =~= old(out)@ + render_entry(
        Entry::Port(PortRecord { name: name@, direction, width: width as nat }),
    ));
}

/// Writes the empty lists that close a module whose keys are pending.
fn write_flush(s: &DefsState, out: &mut Vec<u8>)
    ensures
        final(out)@ == old(out)@ + render(flush(*s)),
{
    let ghost mut written: Seq<Entry> = Seq::empty();
    if s.ports_pending {
        push_text(out, "        ports: []\n");
        proof {
            lemma_render_push(written, Entry::NoPorts);
            written = written.push(Entry::NoPorts);
        }
    }
    assert(out@ =~= old(out)@ + render(written));
    if s.insts_pending {
        push_text(out, "        insts: []\n");
        proof {
            lemma_render_push(written, Entry::NoInsts);
            written = written.push(Entry::NoInsts);
        }
    }
    assert(out@ =~= old(out)@ + render(written));
    assert(written =~= flush(*s));
}

/// Reads the name in the first identifier node of kind `kind` in the subtree
/// of the node at `at`.
fn get_name(events: &[NodeEvent], at: usize, kind: NodeKind) -> (r: Option<&Vec<u8>>)
    ensures
        r is Some == name_in(events@, at as int, kind) is Some,
        r matches Some(text) ==> name_in(events@, at as int, kind) == Some(text@),
{
    match find_node(events, at, kind, kind) {
        Some(j) => get_identifier(events, j),
        None => None,
    }
}

/// Handles the module declaration at `at`.
pub fn process_module_def(events: &[NodeEvent], at: usize, s: &mut DefsState, out: &mut Vec<u8>)
    ensures
        *final(s) == module_def(events@, at as int, *old(s)).state,
        final(out)@ == old(out)@ + render(module_def(events@, at as int, *old(s)).entries),
        old(s).wf() ==> final(s).wf(),
{
    let name = match get_name(events, at, NodeKind::ModuleIdentifier) {
        Some(name) => name,
        None => {
            assert(out@ =~= old(out)@ + render(Seq::<Entry>::empty()));
            return ;
        },
    };
    write_flush(s, out);
    write_named(out, "      - mod_name: ", name.as_slice());
    s.ports_pending = true;
    s.insts_pending = true;
    proof {
        lemma_render_push(flush(*old(s)), Entry::Module(name@));
        assert(out@ =~= old(out)@ + render(flush(*old(s)).push(Entry::Module(name@))));
    }
}

/// Handles the module instantiation at `at`.
pub fn process_module_inst(events: &[NodeEvent], at: usize, s: &mut DefsState, out: &mut Vec<u8>)
    ensures
        *final(s) == module_inst(events@, at as int, *old(s)).state,
        final(out)@ == old(out)@ + render(module_inst(events@, at as int, *old(s)).entries),
        old(s).wf() ==> final(s).wf(),
{
    let module = match get_name(events, at, NodeKind::ModuleIdentifier) {
        Some(name) => name,
        None => {
            assert(out@ =~= old(out)@ + render(Seq::<Entry>::empty()));
            return ;
        },
    };
    let instance = match get_name(events, at, NodeKind::InstanceIdentifier) {
        Some(name) => name,
        None => {
            assert(out@ =~= old(out)@ + render(Seq::<Entry>::empty()));
            return ;
        },
    };
    let ghost inst = InstRecord { module: module@, instance: instance@ };
    let ghost mut written: Seq<Entry> = Seq::empty();
    if s.insts_pending {
        push_text(out, "        insts:\n");
        s.insts_pending = false;
        proof {
            lemma_render_push(written, Entry::InstsHeader);
            written = written.push(Entry::InstsHeader);
        }
    }
    assert(out@ =~= old(out)@ + render(written));
    let ghost header = out@;
    write_named(out, "          - mod_name: ", module.as_slice());
    write_named(out, "            inst_name: ", instance.as_slice());
    proof {
        assert(out@ =~= header + render_entry(Entry::Inst(inst)));
        lemma_render_push(written, Entry::Inst(inst));
        written = written.push(Entry::Inst(inst));
    }
    assert(out@ =~= old(out)@ + render(written));
    assert(written =~= module_inst(events@, at as int, *old(s)).entries);
}

/// Handles the port identifier at `at`.
pub fn process_port_ident(events: &[NodeEvent], at: usize, s: &mut DefsState, out: &mut Vec<u8>)
    ensures
        *final(s) == port_ident(events@, at as int, *old(s)).state,
        final(out)@ == old(out)@ + render(port_ident(events@, at as int, *old(s)).entries),
        old(s).wf() ==> final(s).wf(),
{
    let name = match get_identifier(events, at) {
        Some(name) => name,
        None => {
            assert(out@ =~= old(out)@ + render(Seq::<Entry>::empty()));
            return ;
        },
    };
    let ghost mut written: Seq<Entry> = Seq::empty();
    if s.ports_pending {
        push_text(out, "        ports:\n");
        s.ports_pending = false;
        proof {
            lemma_render_push(written, Entry::PortsHeader);
            written = written.push(Entry::PortsHeader);
        }
    }
    assert(out@ =~= old(out)@ + render(written));
    let ghost port = PortRecord { name: name@, direction: s.direction, width: s.width as nat };
    write_port(out, name.as_slice(), s.direction, s.width);
    proof {
        lemma_render_push(written, Entry::Port(port));
        assert(out@ =~= old(out)@ + render(written.push(Entry::Port(port))));
        written = written.push(Entry::Port(port));
    }
    assert(written =~= port_ident(events@, at as int, *old(s)).entries);
}

/// Makes the four checks on the port declaration at `at`.
pub fn resolve_port_state(events: &[NodeEvent], at: usize, s: &mut DefsState) -> (r: Result<
    (),
    DefsError,
>)
    ensures
        match port_state(events@, at as int, *old(s)) {
            Ok(checked) => r is Ok && *final(s) == checked,
            Err(e) => r == Err::<(), DefsError>(e),
        },
        old(s).wf() ==> final(s).wf(),
{
    match find_node(events, at, NodeKind::PortDirection, NodeKind::PortDirection) {
        Some(j) => match get_keyword(events, j) {
            Some(text) => {
                if is_text(text.as_slice(), "input") {
                    s.direction = Direction::Input;
                } else {
                    s.direction = Direction::Output;
                }
                s.width = 1;
            },
            None => {},
        },
        None => {},
    }
    assert(*s == after_keyword(events@, at as int, *old(s)));
    let ghost s1 = *s;
    if find_node(events, at, NodeKind::InputDeclaration, NodeKind::InputDeclaration).is_some() {
        s.direction = Direction::Input;
        s.width = 1;
    }
    assert(*s == after_input(events@, at as int, s1));
    let ghost s2 = *s;
    if find_node(events, at, NodeKind::OutputDeclaration, NodeKind::OutputDeclaration).is_some() {
        s.direction = Direction::Output;
        s.width = 1;
    }
    assert(*s == after_output(events@, at as int, s2));
    match find_node(events, at, NodeKind::ConstantRange, NodeKind::ConstantRange) {
        Some(j) => match get_unsigned_number(events, j) {
            Some(text) => match parse_range_bound(text.as_slice()) {
                Some(bound) => {
                    s.width = bound + 1;
                },
                None => {
                    return Err(DefsError::BadRangeBound);
                },
            },
            None => {},
        },
        None => {},
    }
    Ok(())
}

/// Handles the port declaration at `at`.
pub fn process_port_def(events: &[NodeEvent], at: usize, s: &mut DefsState, out: &mut Vec<u8>) -> (r:
    Result<(), DefsError>)
    ensures
        match port_def(events@, at as int, *old(s)) {
            Ok(step) => r is Ok && *final(s) == step.state && final(out)@ == old(out)@ + render(
                step.entries,
            ),
            Err(e) => r == Err::<(), DefsError>(e),
        },
        old(s).wf() ==> final(s).wf(),
{
    match resolve_port_state(events, at, s) {
        Ok(()) => {},
        Err(e) => {
            return Err(e);
        },
    }
    let ghost checked = *s;
    let end = end_of_subtree(events, at);
    let mut pos: usize = at;
    assert(out@ =~= old(out)@ + render(Seq::<Entry>::empty()));
    while pos < end
        invariant
            at <= pos,
            end <= events@.len(),
            pos <= end || end <= at,
            old(s).wf() ==> s.wf(),
            *s == port_idents(events@, at as int, pos as int, checked).state,
            out@ == old(out)@ + render(port_idents(events@, at as int, pos as int, checked).entries),
        decreases end - pos,
    {
        let ghost before = port_idents(events@, at as int, pos as int, checked);
        match &events[pos] {
            NodeEvent::Enter(node) => {
                if node.kind == NodeKind::PortIdentifier {
                    process_port_ident(events, pos, s, out);
                    proof {
                        lemma_render_concat(
                            before.entries,
                            port_ident(events@, pos as int, before.state).entries,
                        );
                    }
                }
            },
            _ => {},
        }
        pos += 1;
    }
    assert(port_idents(events@, at as int, pos as int, checked) == port_idents(
        events@,
        at as int,
        end as int,
        checked,
    ));
    Ok(())
}

/// Handles the event at `at`.
pub fn process_event(events: &[NodeEvent], at: usize, s: &mut DefsState, out: &mut Vec<u8>) -> (r:
    Result<(), DefsError>)
    requires
        at < events@.len(),
    ensures
        match visit(events@, at as int, *old(s)) {
            Ok(step) => r is Ok && *final(s) == step.state && final(out)@ == old(out)@ + render(
                step.entries,
            ),
            Err(e) => r == Err::<(), DefsError>(e),
        },
        old(s).wf() ==> final(s).wf(),
{
    match &events[at] {
        NodeEvent::Enter(node) => match node.kind {
            NodeKind::ModuleDeclarationNonansi | NodeKind::ModuleDeclarationAnsi => {
                process_module_def(events, at, s, out);
                Ok(())
            },
            NodeKind::ModuleInstantiation => {
                process_module_inst(events, at, s, out);
                Ok(())
            },
            NodeKind::AnsiPortDeclaration | NodeKind::PortDeclaration => process_port_def(
                events,
                at,
                s,
                out,
            ),
            _ => {
                assert(out@ =~= old(out)@ + render(Seq::<Entry>::empty()));
                Ok(())
            },
        },
        _ => {
            assert(out@ =~= old(out)@ + render(Seq::<Entry>::empty()));
            Ok(())
        },
    }
}

/// Reports the definitions of the syntax tree `events`.
///
/// The result is the text of the `defs` block: for every module its name,
/// then its ports and its instantiations as they come in the source, each
/// list under its key, and an empty list for a key that got no entry. It is
/// an error where the upper bound of a bit range cannot be read.
pub fn analyze_defs(events: &[NodeEvent]) -> (r: Result<Vec<u8>, DefsError>)
    ensures
        match defs_text(events@) {
            Ok(text) => r matches Ok(out) && out@ == text,
            Err(e) => r matches Err(f) && f == e,
        },
{
    let mut s = DefsState::new();
    let mut out: Vec<u8> = Vec::new();
    let mut pos: usize = 0;
    assert(out@ =~= render(Seq::<Entry>::empty()));
    while pos < events.len()
        invariant
            pos <= events.len(),
            walk(events@, pos as int, DefsState::initial()) matches Ok(step) && s == step.state
                && out@ == render(step.entries),
        decreases events.len() - pos,
    {
        let ghost before = walk(events@, pos as int, DefsState::initial())->Ok_0;
        match process_event(events, pos, &mut s, &mut out) {
            Ok(()) => {},
            Err(e) => {
                proof {
                    lemma_walk_error(
                        events@,
                        pos as int + 1,
                        events@.len() as int,
                        DefsState::initial(),
                    );
                }
                return Err(e);
            },
        }
        proof {
            lemma_render_concat(before.entries, visit(events@, pos as int, before.state)->Ok_0.entries);
        }
        pos += 1;
    }
    let ghost end = walk(events@, events@.len() as int, DefsState::initial())->Ok_0;
    write_flush(&s, &mut out);
    proof {
        lemma_render_concat(end.entries, flush(end.state));
    }
    Ok(out)
}

} // verus!
