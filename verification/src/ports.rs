//! Direction and width of the ports in a report of definitions: where they
//! come from, what they are by default, and how they carry over from one
//! declaration to the next.

use vstd::prelude::*;
use crate::defs::{
    defs_entries, direction_keyword, holds, port_def, port_idents, port_state, range_text, visit,
    walk, DefsState, Direction, Entry,
};
use crate::tree::{enters, subtree_end, NodeEvent, NodeKind};

verus! {

/// The declaration at `at` names a direction: by a direction keyword, or by
/// being an input or an output declaration.
pub open spec fn names_direction(events: Seq<NodeEvent>, at: int) -> bool {
    direction_keyword(events, at) is Some || holds(events, at, NodeKind::InputDeclaration) || holds(
        events,
        at,
        NodeKind::OutputDeclaration,
    )
}

/// Every port among `entries` has the given direction and width.
pub open spec fn ports_have(entries: Seq<Entry>, direction: Direction, width: nat) -> bool {
    forall|i: int|
        0 <= i < entries.len() ==> (#[trigger] entries[i] matches Entry::Port(port)
            ==> port.direction == direction && port.width == width)
}

/// Every port among `entries` is at least one bit wide.
pub open spec fn ports_wide(entries: Seq<Entry>) -> bool {
    forall|i: int|
        0 <= i < entries.len() ==> (#[trigger] entries[i] matches Entry::Port(port) ==> port.width
            >= 1)
}

/// A declaration that names a direction and has no bit range gives its
/// ports the width 1, whatever came before it.
pub proof fn lemma_width_defaults_to_one(events: Seq<NodeEvent>, at: int, s: DefsState)
    requires
        names_direction(events, at),
        range_text(events, at) is None,
    ensures
        port_state(events, at, s) matches Ok(checked) && checked.width == 1,
{
}

/// A declaration that names no direction and has no bit range leaves
/// direction and width as the declaration before it left them: its ports
/// take over both.
pub proof fn lemma_carry_over(events: Seq<NodeEvent>, at: int, s: DefsState)
    requires
        !names_direction(events, at),
        range_text(events, at) is None,
    ensures
        port_state(events, at, s) == Ok::<DefsState, crate::defs::DefsError>(s),
{
}

/// The ports of a stretch of events all have the direction and the width of
/// the state in which the stretch begins, and leave both as they are.
pub proof fn lemma_ports_take_state(events: Seq<NodeEvent>, from: int, to: int, s: DefsState)
    ensures
        ports_have(port_idents(events, from, to, s).entries, s.direction, s.width as nat),
        port_idents(events, from, to, s).state.direction == s.direction,
        port_idents(events, from, to, s).state.width == s.width,
    decreases to - from,
{
    if to <= from || to > events.len() || from < 0 {
    } else {
        lemma_ports_take_state(events, from, to - 1, s);
    }
}

/// Only a port declaration changes direction and width.
pub proof fn lemma_visit_keeps_state(events: Seq<NodeEvent>, at: int, s: DefsState)
    requires
        0 <= at < events.len(),
        !enters(events[at], NodeKind::AnsiPortDeclaration, NodeKind::PortDeclaration),
    ensures
        visit(events, at, s) matches Ok(step) && step.state.direction == s.direction
            && step.state.width == s.width && ports_wide(step.entries),
{
}

/// Up to the first port declaration of a file a port would be an input of
/// width 1.
pub proof fn lemma_state_before_first_port(events: Seq<NodeEvent>, upto: int)
    requires
        0 <= upto <= events.len(),
        forall|i: int|
            0 <= i < upto ==> !enters(
                #[trigger] events[i],
                NodeKind::AnsiPortDeclaration,
                NodeKind::PortDeclaration,
            ),
    ensures
        walk(events, upto, DefsState::initial()) matches Ok(step) && step.state.direction
            == Direction::Input && step.state.width == 1,
    decreases upto,
{
    if upto > 0 {
        lemma_state_before_first_port(events, upto - 1);
        let before = walk(events, upto - 1, DefsState::initial())->Ok_0;
        assert(!enters(events[upto - 1], NodeKind::AnsiPortDeclaration, NodeKind::PortDeclaration));
        lemma_visit_keeps_state(events, upto - 1, before.state);
    }
}

/// The defaults: the ports of the first port declaration of a file are
/// inputs where the declaration names no direction, and one bit wide where
/// it has no bit range either.
pub proof fn lemma_first_port_defaults(events: Seq<NodeEvent>, at: int)
    requires
        0 <= at < events.len(),
        enters(events[at], NodeKind::AnsiPortDeclaration, NodeKind::PortDeclaration),
        forall|i: int|
            0 <= i < at ==> !enters(
                #[trigger] events[i],
                NodeKind::AnsiPortDeclaration,
                NodeKind::PortDeclaration,
            ),
        !names_direction(events, at),
        range_text(events, at) is None,
    ensures
        walk(events, at, DefsState::initial()) matches Ok(before) && visit(
            events,
            at,
            before.state,
        ) matches Ok(step) && ports_have(step.entries, Direction::Input, 1),
{
    lemma_state_before_first_port(events, at);
    let before = walk(events, at, DefsState::initial())->Ok_0;
    lemma_carry_over(events, at, before.state);
    lemma_ports_take_state(events, at, subtree_end(events, at), before.state);
}

/// The four checks on a port declaration keep the width within its bounds.
pub proof fn lemma_port_state_wf(events: Seq<NodeEvent>, at: int, s: DefsState)
    requires
        s.wf(),
        port_state(events, at, s) is Ok,
    ensures
        port_state(events, at, s)->Ok_0.wf(),
{
}

/// What the pass writes for an event holds no port narrower than one bit,
/// and keeps the width within its bounds.
pub proof fn lemma_visit_wide(events: Seq<NodeEvent>, at: int, s: DefsState)
    requires
        0 <= at < events.len(),
        s.wf(),
        visit(events, at, s) is Ok,
    ensures
        visit(events, at, s)->Ok_0.state.wf(),
        ports_wide(visit(events, at, s)->Ok_0.entries),
{
    if enters(events[at], NodeKind::AnsiPortDeclaration, NodeKind::PortDeclaration) {
        assert(port_def(events, at, s) is Ok);
        let checked = port_state(events, at, s)->Ok_0;
        lemma_port_state_wf(events, at, s);
        lemma_ports_take_state(events, at, subtree_end(events, at), checked);
    } else {
        lemma_visit_keeps_state(events, at, s);
    }
}

/// What the pass over the first `upto` events writes holds no port narrower
/// than one bit.
pub proof fn lemma_walk_wide(events: Seq<NodeEvent>, upto: int)
    requires
        0 <= upto <= events.len(),
        walk(events, upto, DefsState::initial()) is Ok,
    ensures
        walk(events, upto, DefsState::initial())->Ok_0.state.wf(),
        ports_wide(walk(events, upto, DefsState::initial())->Ok_0.entries),
    decreases upto,
{
    if upto > 0 {
        let before = walk(events, upto - 1, DefsState::initial())->Ok_0;
        lemma_walk_wide(events, upto - 1);
        lemma_visit_wide(events, upto - 1, before.state);
    }
}

/// Every port of a report of definitions is at least one bit wide.
pub proof fn lemma_ports_wide(events: Seq<NodeEvent>)
    requires
        defs_entries(events) is Ok,
    ensures
        ports_wide(defs_entries(events)->Ok_0),
{
    lemma_walk_wide(events, events.len() as int);
}

} // verus!
