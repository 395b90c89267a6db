//! The keys `ports` and `insts` in a report of definitions: every module has
//! each of them exactly once.

use vstd::prelude::*;
use crate::defs::{
    defs_entries, flush, module_def, module_inst, port_def, port_ident, port_idents, port_state,
    visit, walk, DefsState, Entry,
};
use crate::tree::{enters, subtree_end, NodeEvent, NodeKind};

verus! {

/// How far a key of the open module is written.
pub enum Key {
    /// No module is open: entries stand without a key.
    Free,
    /// A module is open and the key is not written yet.
    Pending,
    /// The key is written and its first entry is due.
    Opening,
    /// The key is written and has entries.
    Listed,
    /// The key is written with an empty list.
    Empty,
}

/// The two keys of the open module.
pub struct Keys {
    pub ports: Key,
    pub insts: Key,
}

/// The key needs nothing more: it is written, with an entry or as an empty
/// list, or no module is open.
pub open spec fn settled(key: Key) -> bool {
    key is Free || key is Listed || key is Empty
}

/// The key takes an entry: it is written and not as an empty list, or no
/// module is open.
pub open spec fn takes_entry(key: Key) -> bool {
    key is Free || key is Opening || key is Listed
}

/// The key after it took an entry.
pub open spec fn with_entry(key: Key) -> Key {
    if key is Free {
        Key::Free
    } else {
        Key::Listed
    }
}

/// The keys after the entry `entry`, where the entry may stand there.
///
/// A module may begin only when both keys of the module before it are
/// settled. A key, with entries to follow or with an empty list, may be
/// written only while it is pending. An entry of a list may stand only
/// under its key, or where no module is open.
pub open spec fn key_step(keys: Keys, entry: Entry) -> Option<Keys> {
    match entry {
        Entry::Module(_) => if settled(keys.ports) && settled(keys.insts) {
            Some(Keys { ports: Key::Pending, insts: Key::Pending })
        } else {
            None
        },
        Entry::NoPorts => if keys.ports is Pending {
            Some(Keys { ports: Key::Empty, insts: keys.insts })
        } else {
            None
        },
        Entry::PortsHeader => if keys.ports is Pending {
            Some(Keys { ports: Key::Opening, insts: keys.insts })
        } else {
            None
        },
        Entry::Port(_) => if takes_entry(keys.ports) {
            Some(Keys { ports: with_entry(keys.ports), insts: keys.insts })
        } else {
            None
        },
        Entry::NoInsts => if keys.insts is Pending {
            Some(Keys { ports: keys.ports, insts: Key::Empty })
        } else {
            None
        },
        Entry::InstsHeader => if keys.insts is Pending {
            Some(Keys { ports: keys.ports, insts: Key::Opening })
        } else {
            None
        },
        Entry::Inst(_) => if takes_entry(keys.insts) {
            Some(Keys { ports: keys.ports, insts: with_entry(keys.insts) })
        } else {
            None
        },
    }
}

/// The keys after all of `entries`, where every entry may stand where it
/// does.
pub open spec fn keys_after(entries: Seq<Entry>, start: Keys) -> Option<Keys>
    decreases entries.len(),
{
    if entries.len() == 0 {
        Some(start)
    } else {
        match keys_after(entries.drop_last(), start) {
            Some(keys) => key_step(keys, entries.last()),
            None => None,
        }
    }
}

/// Every module of the report has the key `ports` exactly once and the key
/// `insts` exactly once: with an empty list where the module has no entry
/// for the key, and else before the first of its entries.
pub open spec fn each_key_once(entries: Seq<Entry>) -> bool {
    keys_after(entries, Keys { ports: Key::Free, insts: Key::Free }) matches Some(keys) && settled(
        keys.ports,
    ) && settled(keys.insts)
}

/// The key is as the flag of the state says: pending where the flag is set,
/// and else free or with entries.
pub open spec fn key_agrees(pending: bool, key: Key) -> bool {
    if pending {
        key is Pending
    } else {
        key is Free || key is Listed
    }
}

/// The keys are as the state says.
pub open spec fn agrees(s: DefsState, keys: Keys) -> bool {
    key_agrees(s.ports_pending, keys.ports) && key_agrees(s.insts_pending, keys.insts)
}

/// The keys after one more entry behind others.
pub proof fn lemma_keys_push(a: Seq<Entry>, e: Entry, start: Keys)
    ensures
        keys_after(a.push(e), start) == match keys_after(a, start) {
            Some(keys) => key_step(keys, e),
            None => None,
        },
        keys_after(Seq::<Entry>::empty(), start) == Some(start),
{
    assert(a.push(e).drop_last() =~= a);
    assert(a.push(e).last() == e);
}

/// The keys after two sequences of entries, one behind the other.
pub proof fn lemma_keys_concat(a: Seq<Entry>, b: Seq<Entry>, start: Keys)
    ensures
        keys_after(a + b, start) == match keys_after(a, start) {
            Some(keys) => keys_after(b, keys),
            None => None,
        },
    decreases b.len(),
{
    if b.len() == 0 {
        assert(a + b =~= a);
    } else {
        assert((a + b).drop_last() =~= a + b.drop_last());
        assert((a + b).last() == b.last());
        lemma_keys_concat(a, b.drop_last(), start);
    }
}

/// Closing a module settles both keys.
pub proof fn lemma_keys_flush(s: DefsState, keys: Keys)
    requires
        agrees(s, keys),
    ensures
        keys_after(flush(s), keys) matches Some(after) && settled(after.ports) && settled(
            after.insts,
        ),
{
    let ports: Seq<Entry> = if s.ports_pending {
        seq![Entry::NoPorts]
    } else {
        Seq::empty()
    };
    let insts: Seq<Entry> = if s.insts_pending {
        seq![Entry::NoInsts]
    } else {
        Seq::empty()
    };
    assert(seq![Entry::NoPorts] =~= Seq::<Entry>::empty().push(Entry::NoPorts));
    assert(seq![Entry::NoInsts] =~= Seq::<Entry>::empty().push(Entry::NoInsts));
    lemma_keys_push(Seq::empty(), Entry::NoPorts, keys);
    let middle = keys_after(ports, keys)->Some_0;
    lemma_keys_push(Seq::empty(), Entry::NoInsts, middle);
    lemma_keys_concat(ports, insts, keys);
}

/// A module declaration may stand where it does, and the keys are as the
/// state says behind it.
pub proof fn lemma_keys_module_def(events: Seq<NodeEvent>, at: int, s: DefsState, keys: Keys)
    requires
        agrees(s, keys),
    ensures
        keys_after(module_def(events, at, s).entries, keys) matches Some(after) && agrees(
            module_def(events, at, s).state,
            after,
        ),
{
    lemma_keys_push(Seq::empty(), Entry::NoPorts, keys);
    match crate::defs::name_in(events, at, NodeKind::ModuleIdentifier) {
        Some(name) => {
            lemma_keys_flush(s, keys);
            lemma_keys_push(flush(s), Entry::Module(name), keys);
        },
        None => {},
    }
}

/// A module instantiation may stand where it does, and the keys are as the
/// state says behind it.
pub proof fn lemma_keys_module_inst(events: Seq<NodeEvent>, at: int, s: DefsState, keys: Keys)
    requires
        agrees(s, keys),
    ensures
        keys_after(module_inst(events, at, s).entries, keys) matches Some(after) && agrees(
            module_inst(events, at, s).state,
            after,
        ),
{
    lemma_keys_push(Seq::empty(), Entry::NoPorts, keys);
    match crate::defs::inst_in(events, at) {
        Some(inst) => {
            let header: Seq<Entry> = if s.insts_pending {
                seq![Entry::InstsHeader]
            } else {
                Seq::empty()
            };
            assert(seq![Entry::InstsHeader] =~= Seq::<Entry>::empty().push(Entry::InstsHeader));
            lemma_keys_push(Seq::empty(), Entry::InstsHeader, keys);
            lemma_keys_push(header, Entry::Inst(inst), keys);
        },
        None => {},
    }
}

/// A port may stand where it does, and the keys are as the state says
/// behind it.
pub proof fn lemma_keys_port_ident(events: Seq<NodeEvent>, at: int, s: DefsState, keys: Keys)
    requires
        agrees(s, keys),
    ensures
        keys_after(port_ident(events, at, s).entries, keys) matches Some(after) && agrees(
            port_ident(events, at, s).state,
            after,
        ),
{
    lemma_keys_push(Seq::empty(), Entry::NoPorts, keys);
    match crate::tree::identifier(events, at) {
        Some(name) => {
            let header: Seq<Entry> = if s.ports_pending {
                seq![Entry::PortsHeader]
            } else {
                Seq::empty()
            };
            let port = port_ident(events, at, s).entries.last();
            assert(seq![Entry::PortsHeader] =~= Seq::<Entry>::empty().push(Entry::PortsHeader));
            lemma_keys_push(Seq::empty(), Entry::PortsHeader, keys);
            lemma_keys_push(header, port, keys);
        },
        None => {},
    }
}

/// The ports of a stretch of events may stand where they do, and the keys
/// are as the state says behind them.
pub proof fn lemma_keys_port_idents(
    events: Seq<NodeEvent>,
    from: int,
    to: int,
    s: DefsState,
    keys: Keys,
)
    requires
        agrees(s, keys),
    ensures
        keys_after(port_idents(events, from, to, s).entries, keys) matches Some(after) && agrees(
            port_idents(events, from, to, s).state,
            after,
        ),
    decreases to - from,
{
    lemma_keys_push(Seq::empty(), Entry::NoPorts, keys);
    if to <= from || to > events.len() || from < 0 {
    } else {
        let before = port_idents(events, from, to - 1, s);
        lemma_keys_port_idents(events, from, to - 1, s, keys);
        if enters(events[to - 1], NodeKind::PortIdentifier, NodeKind::PortIdentifier) {
            let middle = keys_after(before.entries, keys)->Some_0;
            let last = port_ident(events, to - 1, before.state);
            lemma_keys_port_ident(events, to - 1, before.state, middle);
            lemma_keys_concat(before.entries, last.entries, keys);
        }
    }
}

/// The four checks on a port declaration leave the flags of the state as
/// they are.
pub proof fn lemma_port_state_flags(events: Seq<NodeEvent>, at: int, s: DefsState)
    requires
        port_state(events, at, s) is Ok,
    ensures
        port_state(events, at, s)->Ok_0.ports_pending == s.ports_pending,
        port_state(events, at, s)->Ok_0.insts_pending == s.insts_pending,
{
}

/// What the pass writes for an event may stand where it does, and the keys
/// are as the state says behind it.
pub proof fn lemma_keys_visit(events: Seq<NodeEvent>, at: int, s: DefsState, keys: Keys)
    requires
        0 <= at < events.len(),
        agrees(s, keys),
        visit(events, at, s) is Ok,
    ensures
        keys_after(visit(events, at, s)->Ok_0.entries, keys) matches Some(after) && agrees(
            visit(events, at, s)->Ok_0.state,
            after,
        ),
{
    lemma_keys_push(Seq::empty(), Entry::NoPorts, keys);
    lemma_keys_module_def(events, at, s, keys);
    lemma_keys_module_inst(events, at, s, keys);
    match events[at] {
        NodeEvent::Enter(node) => {
            if node.kind == NodeKind::AnsiPortDeclaration || node.kind
                == NodeKind::PortDeclaration {
                assert(port_def(events, at, s) is Ok);
                let checked = port_state(events, at, s)->Ok_0;
                lemma_port_state_flags(events, at, s);
                lemma_keys_port_idents(events, at, subtree_end(events, at), checked, keys);
            }
        },
        _ => {},
    }
}

/// What the pass over the first `upto` events writes may stand where it
/// does, and the keys are as the state says behind it.
pub proof fn lemma_keys_walk(events: Seq<NodeEvent>, upto: int)
    requires
        0 <= upto <= events.len(),
        walk(events, upto, DefsState::initial()) is Ok,
    ensures
        keys_after(
            walk(events, upto, DefsState::initial())->Ok_0.entries,
            Keys { ports: Key::Free, insts: Key::Free },
        ) matches Some(after) && agrees(walk(events, upto, DefsState::initial())->Ok_0.state, after),
    decreases upto,
{
    let start = Keys { ports: Key::Free, insts: Key::Free };
    lemma_keys_push(Seq::empty(), Entry::NoPorts, start);
    if upto > 0 {
        let before = walk(events, upto - 1, DefsState::initial())->Ok_0;
        lemma_keys_walk(events, upto - 1);
        let middle = keys_after(before.entries, start)->Some_0;
        let last = visit(events, upto - 1, before.state)->Ok_0;
        lemma_keys_visit(events, upto - 1, before.state, middle);
        lemma_keys_concat(before.entries, last.entries, start);
    }
}

/// In every report of definitions each module has the key `ports` exactly
/// once and the key `insts` exactly once, never left out and never written
/// twice: as an empty list where the module has no entry for the key, and
/// before its first entry where it has one. In particular a module with no
/// ports and no instantiations has exactly one `ports: []` and one
/// `insts: []`.
pub proof fn lemma_each_key_once(events: Seq<NodeEvent>)
    requires
        defs_entries(events) is Ok,
    ensures
        each_key_once(defs_entries(events)->Ok_0),
{
    let start = Keys { ports: Key::Free, insts: Key::Free };
    let end = walk(events, events.len() as int, DefsState::initial())->Ok_0;
    lemma_keys_walk(events, events.len() as int);
    let middle = keys_after(end.entries, start)->Some_0;
    lemma_keys_flush(end.state, middle);
    lemma_keys_concat(end.entries, flush(end.state), start);
}

} // verus!
