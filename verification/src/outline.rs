//! What a report of definitions holds, set against what the source declares.
//!
//! The outline of a report is the sequence of the names in it: modules,
//! ports and instantiations, without the keys and the empty lists around
//! them. The outline of a source is the sequence of the names that its
//! declarations resolve to, in the order of the traversal. The two are the
//! same.

use vstd::prelude::*;
use crate::defs::{
    defs_entries, flush, inst_in, module_def, module_inst, name_in, port_def, port_ident, port_idents,
    visit, walk, DefsState, Entry,
};
use crate::tree::{enters, identifier, subtree_end, NodeEvent, NodeKind};

verus! {

/// A name in a report or in a source.
pub enum Item {
    /// A module that is declared.
    Module(Seq<u8>),
    /// A port of the module declared last.
    Port(Seq<u8>),
    /// An instantiation in the module declared last: the module that is
    /// instantiated, and the name of the instance.
    Inst(Seq<u8>, Seq<u8>),
}

/// The name that an entry of a report shows, if it shows one.
pub open spec fn entry_items(entry: Entry) -> Seq<Item> {
    match entry {
        Entry::Module(name) => seq![Item::Module(name)],
        Entry::Port(port) => seq![Item::Port(port.name)],
        Entry::Inst(inst) => seq![Item::Inst(inst.module, inst.instance)],
        _ => Seq::empty(),
    }
}

/// The outline of a report: the names that its entries show, in order.
pub open spec fn items(entries: Seq<Entry>) -> Seq<Item>
    decreases entries.len(),
{
    if entries.len() == 0 {
        Seq::empty()
    } else {
        items(entries.drop_last()) + entry_items(entries.last())
    }
}

/// The port that the event at `at` declares: the event must enter a port
/// identifier whose name is found.
pub open spec fn declared_port(events: Seq<NodeEvent>, at: int) -> Seq<Item> {
    if enters(events[at], NodeKind::PortIdentifier, NodeKind::PortIdentifier) {
        match identifier(events, at) {
            Some(name) => seq![Item::Port(name)],
            None => Seq::empty(),
        }
    } else {
        Seq::empty()
    }
}

/// The ports that the events from `from` up to `to` declare, in order.
pub open spec fn declared_ports(events: Seq<NodeEvent>, from: int, to: int) -> Seq<Item>
    decreases to - from,
{
    if to <= from || to > events.len() || from < 0 {
        Seq::empty()
    } else {
        declared_ports(events, from, to - 1) + declared_port(events, to - 1)
    }
}

/// The module that a module declaration at `at` declares, where its name is
/// found.
pub open spec fn declared_module(events: Seq<NodeEvent>, at: int) -> Seq<Item> {
    match name_in(events, at, NodeKind::ModuleIdentifier) {
        Some(name) => seq![Item::Module(name)],
        None => Seq::empty(),
    }
}

/// The instantiation that a module instantiation at `at` declares, where
/// the name of the module and the name of the instance are both found.
pub open spec fn declared_inst(events: Seq<NodeEvent>, at: int) -> Seq<Item> {
    match inst_in(events, at) {
        Some(inst) => seq![Item::Inst(inst.module, inst.instance)],
        None => Seq::empty(),
    }
}

/// What the event at `at` declares: a module declaration its module, a
/// module instantiation its instantiation, a port declaration the ports in
/// its subtree; any other event nothing.
pub open spec fn declared_at(events: Seq<NodeEvent>, at: int) -> Seq<Item> {
    match events[at] {
        NodeEvent::Enter(node) => match node.kind {
            NodeKind::ModuleDeclarationNonansi | NodeKind::ModuleDeclarationAnsi => declared_module(
                events,
                at,
            ),
            NodeKind::ModuleInstantiation => declared_inst(events, at),
            NodeKind::AnsiPortDeclaration | NodeKind::PortDeclaration => declared_ports(
                events,
                at,
                subtree_end(events, at),
            ),
            _ => Seq::empty(),
        },
        _ => Seq::empty(),
    }
}

/// The outline of the first `upto` events of a source.
pub open spec fn declared(events: Seq<NodeEvent>, upto: int) -> Seq<Item>
    decreases upto,
{
    if upto <= 0 || upto > events.len() {
        Seq::empty()
    } else {
        declared(events, upto - 1) + declared_at(events, upto - 1)
    }
}

/// The outline of one more entry behind others, and of a single entry.
pub proof fn lemma_items_push(a: Seq<Entry>, e: Entry)
    ensures
        items(a.push(e)) == items(a) + entry_items(e),
        items(seq![e]) == entry_items(e),
        items(Seq::<Entry>::empty()) == Seq::<Item>::empty(),
{
    assert(a.push(e).drop_last() =~= a);
    assert(a.push(e).last() == e);
    assert(seq![e] =~= Seq::<Entry>::empty().push(e));
    assert(seq![e].drop_last() =~= Seq::<Entry>::empty());
    assert(seq![e].last() == e);
    assert(items(seq![e]) =~= items(Seq::<Entry>::empty()) + entry_items(e));
    assert(items(seq![e]) =~= entry_items(e));
}

/// The outline distributes over concatenation.
pub proof fn lemma_items_concat(a: Seq<Entry>, b: Seq<Entry>)
    ensures
        items(a + b) == items(a) + items(b),
    decreases b.len(),
{
    if b.len() == 0 {
        assert(a + b =~= a);
        assert(items(a) + items(b) =~= items(a));
    } else {
        assert((a + b).drop_last() =~= a + b.drop_last());
        assert((a + b).last() == b.last());
        lemma_items_concat(a, b.drop_last());
        assert(items(a + b) =~= items(a) + items(b));
    }
}

/// The empty lists that close a module show no name.
pub proof fn lemma_items_flush(s: DefsState)
    ensures
        items(flush(s)) == Seq::<Item>::empty(),
{
    let ports: Seq<Entry> = if s.ports_pending {
        seq![Entry::NoPorts]
    } else {
        Seq::empty()
    };
    let insts: Seq<Entry> = if s.insts_pending {
        seq![Entry::NoInsts]
    } else {
        Seq::empty()
    };
    lemma_items_push(Seq::empty(), Entry::NoPorts);
    lemma_items_push(Seq::empty(), Entry::NoInsts);
    lemma_items_concat(ports, insts);
    assert(items(ports) =~= Seq::<Item>::empty());
    assert(items(insts) =~= Seq::<Item>::empty());
    assert(items(flush(s)) =~= Seq::<Item>::empty());
}

/// A port identifier shows the port that it declares, whatever the state.
pub proof fn lemma_items_port_ident(events: Seq<NodeEvent>, at: int, s: DefsState)
    requires
        0 <= at < events.len(),
        enters(events[at], NodeKind::PortIdentifier, NodeKind::PortIdentifier),
    ensures
        items(port_ident(events, at, s).entries) == declared_port(events, at),
{
    match identifier(events, at) {
        Some(name) => {
            let header: Seq<Entry> = if s.ports_pending {
                seq![Entry::PortsHeader]
            } else {
                Seq::empty()
            };
            let port = port_ident(events, at, s).entries.last();
            lemma_items_push(Seq::empty(), Entry::PortsHeader);
            lemma_items_push(header, port);
            assert(items(header) =~= Seq::<Item>::empty());
            assert(items(header.push(port)) =~= declared_port(events, at));
        },
        None => {
            lemma_items_push(Seq::empty(), Entry::NoPorts);
        },
    }
}

/// The port identifiers of a stretch of events show the ports that the
/// stretch declares.
pub proof fn lemma_items_port_idents(events: Seq<NodeEvent>, from: int, to: int, s: DefsState)
    ensures
        items(port_idents(events, from, to, s).entries) == declared_ports(events, from, to),
    decreases to - from,
{
    if to <= from || to > events.len() || from < 0 {
        lemma_items_push(Seq::empty(), Entry::NoPorts);
    } else {
        let before = port_idents(events, from, to - 1, s);
        lemma_items_port_idents(events, from, to - 1, s);
        if enters(events[to - 1], NodeKind::PortIdentifier, NodeKind::PortIdentifier) {
            let last = port_ident(events, to - 1, before.state);
            lemma_items_port_ident(events, to - 1, before.state);
            lemma_items_concat(before.entries, last.entries);
        } else {
            assert(declared_ports(events, from, to) =~= declared_ports(events, from, to - 1));
        }
    }
}

/// A module declaration shows the module that it declares.
pub proof fn lemma_items_module_def(events: Seq<NodeEvent>, at: int, s: DefsState)
    ensures
        items(module_def(events, at, s).entries) == declared_module(events, at),
{
    lemma_items_push(Seq::empty(), Entry::NoPorts);
    match name_in(events, at, NodeKind::ModuleIdentifier) {
        Some(name) => {
            lemma_items_flush(s);
            lemma_items_push(flush(s), Entry::Module(name));
            assert(items(flush(s).push(Entry::Module(name))) =~= declared_module(events, at));
        },
        None => {},
    }
}

/// A module instantiation shows the instantiation that it declares.
pub proof fn lemma_items_module_inst(events: Seq<NodeEvent>, at: int, s: DefsState)
    ensures
        items(module_inst(events, at, s).entries) == declared_inst(events, at),
{
    lemma_items_push(Seq::empty(), Entry::NoPorts);
    match inst_in(events, at) {
        Some(inst) => {
            let header: Seq<Entry> = if s.insts_pending {
                seq![Entry::InstsHeader]
            } else {
                Seq::empty()
            };
            lemma_items_push(Seq::empty(), Entry::InstsHeader);
            lemma_items_push(header, Entry::Inst(inst));
            assert(items(header) =~= Seq::<Item>::empty());
            assert(items(header.push(Entry::Inst(inst))) =~= declared_inst(events, at));
        },
        None => {},
    }
}

/// What the pass writes for an event shows what the event declares.
pub proof fn lemma_items_visit(events: Seq<NodeEvent>, at: int, s: DefsState)
    requires
        0 <= at < events.len(),
        visit(events, at, s) is Ok,
    ensures
        items(visit(events, at, s)->Ok_0.entries) == declared_at(events, at),
{
    lemma_items_push(Seq::empty(), Entry::NoPorts);
    lemma_items_module_def(events, at, s);
    lemma_items_module_inst(events, at, s);
    match events[at] {
        NodeEvent::Enter(node) => {
            if node.kind == NodeKind::AnsiPortDeclaration || node.kind
                == NodeKind::PortDeclaration {
                let checked = crate::defs::port_state(events, at, s)->Ok_0;
                assert(port_def(events, at, s) is Ok);
                lemma_items_port_idents(events, at, subtree_end(events, at), checked);
            }
        },
        _ => {},
    }
}

/// What the pass over the first `upto` events writes shows what these
/// events declare.
pub proof fn lemma_items_walk(events: Seq<NodeEvent>, upto: int, s: DefsState)
    requires
        0 <= upto <= events.len(),
        walk(events, upto, s) is Ok,
    ensures
        items(walk(events, upto, s)->Ok_0.entries) == declared(events, upto),
    decreases upto,
{
    lemma_items_push(Seq::empty(), Entry::NoPorts);
    if upto > 0 {
        let before = walk(events, upto - 1, s)->Ok_0;
        let last = visit(events, upto - 1, before.state)->Ok_0;
        lemma_items_walk(events, upto - 1, s);
        lemma_items_visit(events, upto - 1, before.state);
        lemma_items_concat(before.entries, last.entries);
    }
}

/// The report follows the source: it shows the modules, the ports and the
/// instantiations that the source declares and whose names are found, each
/// once for each declaration, none besides, and in the order of the source.
/// So a module has as many ports in the report as port identifiers of its
/// declarations were resolved, and the modules stand in the order of their
/// declarations, whichever of them instantiates which.
pub proof fn lemma_report_follows_source(events: Seq<NodeEvent>)
    requires
        defs_entries(events) is Ok,
    ensures
        items(defs_entries(events)->Ok_0) == declared(events, events.len() as int),
{
    let end = walk(events, events.len() as int, DefsState::initial())->Ok_0;
    lemma_items_walk(events, events.len() as int, DefsState::initial());
    lemma_items_flush(end.state);
    lemma_items_concat(end.entries, flush(end.state));
    assert(items(end.entries + flush(end.state)) =~= declared(events, events.len() as int));
}

} // verus!
