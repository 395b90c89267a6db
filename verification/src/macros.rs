//! The macro table: the definitions that the preprocessor knows, their
//! reading from command-line arguments, and their snapshot in a report.

use vstd::prelude::*;
use vstd::string::*;
use vstd::utf8::encode_utf8;
use crate::escape::{push_quoted, quoted};
use crate::text::{decimal, lit, push_decimal, push_text, LINE_FEED};
use crate::tree::bytes_equal;

verus! {

/// Where the text of a macro comes from: a file and a range of bytes in it.
pub struct DefineOrigin {
    pub path: Vec<u8>,
    pub begin: usize,
    pub end: usize,
}

/// The replacement text of a macro.
pub struct DefineText {
    pub text: Vec<u8>,
    pub origin: Option<DefineOrigin>,
}

/// A parameter of a macro, with its default where it has one.
pub struct DefineArgument {
    pub name: Vec<u8>,
    pub default: Option<Vec<u8>>,
}

/// The definition of a macro.
pub struct Define {
    pub identifier: Vec<u8>,
    pub arguments: Vec<DefineArgument>,
    pub text: Option<DefineText>,
}

/// An entry of the macro table. A name with no definition is an entry of
/// its own kind: it is known, and it is not the same as a name that the
/// table does not hold.
pub struct DefineEntry {
    pub name: Vec<u8>,
    pub define: Option<Define>,
}

/// Why a macro cannot be read from an argument.
#[derive(Clone, Copy, Debug, PartialEq, Eq, Structural)]
pub enum DefineError {
    /// The text behind `=` holds an escape that cannot be read.
    BadEscape,
}

/// The error of the crate `enquote`.
#[verifier::external_type_specification]
#[verifier::external_body]
pub struct ExUnescapeError(enquote::Error);

/// What `enquote::unescape` makes of `s` when no character is illegal: the
/// text with its escapes replaced, or nothing where it reports an error.
pub uninterp spec fn enquote_unescape(s: Seq<char>) -> Option<Seq<char>>;

/// Calls `enquote::unescape` on `s` with no illegal character. The function
/// reads `s` and nothing else, so that its result is the one that
/// [`enquote_unescape`] names.
#[verifier::external_body]
fn unescape(s: &str) -> (r: Result<String, enquote::Error>)
    ensures
        enquote_unescape(s@) == match r {
            Ok(text) => Some(text@),
            Err(_) => None::<Seq<char>>,
        },
{
    enquote::unescape(s, None)
}

/// The text for a value that may be missing.
pub open spec fn option_text(value: Option<Vec<u8>>) -> Seq<u8> {
    match value {
        Some(v) => lit("Some(") + quoted(v@) + lit(")"),
        None => lit("None"),
    }
}

/// The text for one parameter.
pub open spec fn argument_text(argument: DefineArgument) -> Seq<u8> {
    lit("(") + quoted(argument.name@) + lit(", ") + option_text(argument.default) + lit(")")
}

/// The text for the parameters, with `, ` between them.
pub open spec fn arguments_text(arguments: Seq<DefineArgument>) -> Seq<u8>
    decreases arguments.len(),
{
    if arguments.len() == 0 {
        Seq::empty()
    } else {
        arguments_text(arguments.drop_last()) + (if arguments.len() > 1 {
            lit(", ")
        } else {
            Seq::empty()
        }) + argument_text(arguments.last())
    }
}

/// The text for where a replacement text comes from.
pub open spec fn origin_text(origin: Option<DefineOrigin>) -> Seq<u8> {
    match origin {
        Some(o) => lit("Some((") + quoted(o.path@) + lit(", Range { begin: ") + decimal(
            o.begin as nat,
        ) + lit(", end: ") + decimal(o.end as nat) + lit(" }))"),
        None => lit("None"),
    }
}

/// The text for a replacement text.
pub open spec fn body_text(text: Option<DefineText>) -> Seq<u8> {
    match text {
        Some(t) => lit("Some(DefineText { text: ") + quoted(t.text@) + lit(", origin: ")
            + origin_text(t.origin) + lit(" })"),
        None => lit("None"),
    }
}

/// The text for a definition: its name, its parameters, its replacement
/// text and where that comes from, every string quoted.
pub open spec fn define_text(define: Define) -> Seq<u8> {
    lit("Define { identifier: ") + quoted(define.identifier@) + lit(", arguments: [")
        + arguments_text(define.arguments@) + lit("], text: ") + body_text(define.text) + lit(" }")
}

/// The line of the snapshot for one entry: the quoted text of its
/// definition as a list item, and nothing for a name without a definition.
pub open spec fn entry_line(entry: DefineEntry) -> Seq<u8> {
    match entry.define {
        Some(define) => lit("      - ") + quoted(define_text(define)) + seq![LINE_FEED],
        None => Seq::empty(),
    }
}

/// The snapshot of the entries, in their order.
pub open spec fn snapshot_text(entries: Seq<DefineEntry>) -> Seq<u8>
    decreases entries.len(),
{
    if entries.len() == 0 {
        Seq::empty()
    } else {
        snapshot_text(entries.drop_last()) + entry_line(entries.last())
    }
}

/// The first index from `from` on at which `entries` holds `name`.
pub open spec fn position(entries: Seq<DefineEntry>, name: Seq<u8>, from: int) -> Option<int>
    decreases entries.len() - from,
{
    if from < 0 || from >= entries.len() {
        None
    } else if entries[from].name@ == name {
        Some(from)
    } else {
        position(entries, name, from + 1)
    }
}

/// What `entries` holds for `name`: nothing, a name without a definition, or
/// a definition.
pub open spec fn lookup(entries: Seq<DefineEntry>, name: Seq<u8>) -> Option<Option<Define>> {
    match position(entries, name, 0) {
        Some(i) => Some(entries[i].define),
        None => None,
    }
}

/// No name occurs twice.
pub open spec fn distinct_names(entries: Seq<DefineEntry>) -> bool {
    forall|i: int, j: int|
        0 <= i < j < entries.len() ==> (#[trigger] entries[i]).name@ != (#[trigger] entries[j]).name@
}

/// What [`position`] finds is the least index from `from` on that holds
/// `name`.
pub proof fn lemma_position(entries: Seq<DefineEntry>, name: Seq<u8>, from: int)
    requires
        0 <= from,
    ensures
        match position(entries, name, from) {
            Some(i) => from <= i < entries.len() && entries[i].name@ == name && forall|k: int|
                from <= k < i ==> entries[k].name@ != name,
            None => forall|k: int| from <= k < entries.len() ==> entries[k].name@ != name,
        },
    decreases entries.len() - from,
{
    if from < entries.len() && entries[from].name@ != name {
        lemma_position(entries, name, from + 1);
    }
}

/// The snapshot distributes over concatenation.
pub proof fn lemma_snapshot_concat(a: Seq<DefineEntry>, b: Seq<DefineEntry>)
    ensures
        snapshot_text(a + b) == snapshot_text(a) + snapshot_text(b),
    decreases b.len(),
{
    if b.len() == 0 {
        assert(a + b =~= a);
        assert(snapshot_text(a) + snapshot_text(b) =~= snapshot_text(a));
    } else {
        assert((a + b).drop_last() =~= a + b.drop_last());
        assert((a + b).last() == b.last());
        lemma_snapshot_concat(a, b.drop_last());
        assert(snapshot_text(a + b) =~= snapshot_text(a) + snapshot_text(b));
    }
}

/// The snapshot shows every entry at its place: the line of the entry at
/// `i` stands between the snapshot of the entries before it and the
/// snapshot of those behind it.
pub proof fn lemma_snapshot_shows(entries: Seq<DefineEntry>, i: int)
    requires
        0 <= i < entries.len(),
    ensures
        snapshot_text(entries) == snapshot_text(entries.take(i)) + entry_line(entries[i])
            + snapshot_text(entries.skip(i + 1)),
{
    let upto = entries.take(i + 1);
    assert(upto.drop_last() =~= entries.take(i));
    assert(upto.last() == entries[i]);
    assert(entries =~= upto + entries.skip(i + 1));
    lemma_snapshot_concat(upto, entries.skip(i + 1));
}

/// The macro table: entries in the order in which their names first came,
/// each name once.
pub struct DefineTable {
    entries: Vec<DefineEntry>,
}

impl View for DefineTable {
    type V = Seq<DefineEntry>;

    closed spec fn view(&self) -> Seq<DefineEntry> {
        self.entries@
    }
}

impl DefineTable {
    /// No name occurs twice in the table.
    #[verifier::type_invariant]
    spec fn distinct(&self) -> bool {
        distinct_names(self.entries@)
    }

    /// The table without entries.
    pub fn new() -> (table: DefineTable)
        ensures
            table@ == Seq::<DefineEntry>::empty(),
    {
        DefineTable { entries: Vec::new() }
    }

    /// The entries in their order. No name occurs twice in them.
    pub fn entries(&self) -> (entries: &Vec<DefineEntry>)
        ensures
            entries@ == self@,
            distinct_names(entries@),
    {
        proof {
            use_type_invariant(self);
        }
        &self.entries
    }

    /// Finds the entry for `name`.
    pub fn find(&self, name: &[u8]) -> (r: Option<usize>)
        ensures
            match r {
                Some(i) => position(self@, name@, 0) == Some(i as int) && i < self@.len(),
                None => position(self@, name@, 0) is None,
            },
    {
        let mut i: usize = 0;
        while i < self.entries.len()
            invariant
                i <= self.entries@.len(),
                position(self.entries@, name@, i as int) == position(self.entries@, name@, 0),
            decreases self.entries.len() - i,
        {
            if bytes_equal(self.entries[i].name.as_slice(), name) {
                return Some(i);
            }
            i += 1;
        }
        None
    }

    /// Reads what the table holds for `name`.
    pub fn get(&self, name: &[u8]) -> (r: Option<&Option<Define>>)
        ensures
            match r {
                Some(define) => lookup(self@, name@) == Some(*define),
                None => lookup(self@, name@) is None,
            },
    {
        match self.find(name) {
            Some(i) => Some(&self.entries[i].define),
            None => None,
        }
    }

    /// Puts `define` under `name`: in place of what the table held for the
    /// name, or behind all entries where it held nothing.
    pub fn insert(&mut self, name: Vec<u8>, define: Option<Define>)
        ensures
            match position(old(self)@, name@, 0) {
                Some(i) => final(self)@ == old(self)@.update(i, DefineEntry { name, define }),
                None => final(self)@ == old(self)@.push(DefineEntry { name, define }),
            },
            lookup(final(self)@, name@) == Some(define),
            forall|other: Seq<u8>|
                other != name@ ==> lookup(final(self)@, other) == lookup(old(self)@, other),
    {
        let found = self.find(name.as_slice());
        let ghost before = self@;
        let ghost key = name@;
        let ghost entry = DefineEntry { name, define };
        let ghost at: int = match found {
            Some(i) => i as int,
            None => before.len() as int,
        };
        let ghost after = match found {
            Some(i) => before.update(i as int, entry),
            None => before.push(entry),
        };
        proof {
            use_type_invariant(&*self);
            lemma_position(before, key, 0);
            lemma_inserted(before, entry, at, after);
        }
        let mut table = DefineTable::new();
        core::mem::swap(self, &mut table);
        let mut entries = table.entries;
        match found {
            Some(i) => {
                entries.set(i, DefineEntry { name, define });
            },
            None => {
                entries.push(DefineEntry { name, define });
            },
        }
        *self = DefineTable { entries };
    }
}

/// Putting an entry in place of the one with its name, or behind all
/// entries where none has its name, keeps the names distinct, makes the
/// name stand for the new definition, and leaves every other name as it
/// was.
pub proof fn lemma_inserted(
    before: Seq<DefineEntry>,
    entry: DefineEntry,
    at: int,
    after: Seq<DefineEntry>,
)
    requires
        distinct_names(before),
        match position(before, entry.name@, 0) {
            Some(i) => at == i && after == before.update(i, entry),
            None => at == before.len() && after == before.push(entry),
        },
    ensures
        distinct_names(after),
        lookup(after, entry.name@) == Some(entry.define),
        forall|other: Seq<u8>|
            other != entry.name@ ==> lookup(after, other) == lookup(before, other),
{
    let key = entry.name@;
    lemma_position(before, key, 0);
    assert(after.len() > at && after[at] == entry);
    assert forall|k: int| 0 <= k < before.len() implies (#[trigger] after[k]).name@
        == before[k].name@ by {
        if k != at {
            assert(after[k] == before[k]);
        }
    }
    assert forall|k: int| 0 <= k < after.len() && k != at implies (#[trigger] after[k])
        == before[k] && after[k].name@ != key by {
        assert(after[k] == before[k]);
        if k < at {
            assert(before[k].name@ != key);
        } else {
            assert(before[at].name@ == key);
            assert(before[at].name@ != before[k].name@);
        }
    }
    assert(distinct_names(after)) by {
        assert forall|i: int, j: int| 0 <= i < j < after.len() implies (#[trigger] after[i]).name@
            != (#[trigger] after[j]).name@ by {
            if i != at && j != at {
                assert(before[i].name@ != before[j].name@);
            }
        }
    }
    assert forall|other: Seq<u8>|
        lookup(after, other) == (if other == key {
            Some(entry.define)
        } else {
            lookup(before, other)
        }) by {
        lemma_position(before, other, 0);
        lemma_position(after, other, 0);
        if other == key {
            match position(after, other, 0) {
                Some(j) => {
                    if j != at {
                        assert(after[j].name@ != key);
                    }
                },
                None => {
                    assert(after[at].name@ == key);
                },
            }
        } else {
            match position(after, other, 0) {
                Some(j) => {
                    assert(j != at);
                    assert(after[j] == before[j]);
                    match position(before, other, 0) {
                        Some(i) => {
                            assert(before[i].name@ == other);
                            assert(i != at);
                            assert(after[i] == before[i]);
                            if i < j {
                                assert(after[i].name@ != other);
                            }
                            if j < i {
                                assert(before[j].name@ != other);
                            }
                        },
                        None => {
                            assert(before[j].name@ != other);
                        },
                    }
                },
                None => {
                    match position(before, other, 0) {
                        Some(i) => {
                            assert(before[i].name@ == other);
                            assert(i != at);
                            assert(after[i] == before[i]);
                            assert(after[i].name@ != other);
                        },
                        None => {},
                    }
                },
            }
        }
    }
}

/// The index of the first `=` in `s` from `from` on.
pub open spec fn first_equals(s: Seq<char>, from: int) -> Option<int>
    decreases s.len() - from,
{
    if from < 0 || from >= s.len() {
        None
    } else if s[from] == '=' {
        Some(from)
    } else {
        first_equals(s, from + 1)
    }
}

/// `define` is the macro `name` without parameters, with the replacement
/// text `text` of no known origin where there is one.
pub open spec fn plain_define(define: Define, name: Seq<u8>, text: Option<Seq<u8>>) -> bool {
    &&& define.identifier@ == name
    &&& define.arguments@.len() == 0
    &&& match text {
        Some(t) => define.text matches Some(body) && body.text@ == t && body.origin is None,
        None => define.text is None,
    }
}

/// What an argument of the form `NAME` or `NAME=TEXT` defines, given what
/// the escapes in `TEXT` are read as: the name is what stands before the
/// first `=`, and it is an error where the escapes cannot be read.
pub open spec fn parsed_define(
    arg: Seq<char>,
    r: Result<Define, DefineError>,
) -> bool {
    match first_equals(arg, 0) {
        None => r matches Ok(define) && plain_define(define, encode_utf8(arg), None),
        Some(k) => match enquote_unescape(arg.skip(k + 1)) {
            Some(text) => r matches Ok(define) && plain_define(
                define,
                encode_utf8(arg.take(k)),
                Some(encode_utf8(text)),
            ),
            None => r matches Err(e) && e == DefineError::BadEscape,
        },
    }
}

/// Makes the macro `name` without parameters, with the replacement text
/// `text` where there is one.
pub fn define_with_text(name: &str, text: Option<&str>) -> (define: Define)
    ensures
        plain_define(
            define,
            encode_utf8(name@),
            match text {
                Some(t) => Some(encode_utf8(t@)),
                None => None,
            },
        ),
{
    let body = match text {
        Some(t) => Some(DefineText { text: t.as_bytes_vec(), origin: None }),
        None => None,
    };
    Define { identifier: name.as_bytes_vec(), arguments: Vec::new(), text: body }
}

/// Makes the macro `name` whose replacement text is what the escapes of
/// the text behind `=` were read as. It is an error where they could not be
/// read.
pub fn define_from(name: &str, unescaped: Result<String, enquote::Error>) -> (r: Result<
    Define,
    DefineError,
>)
    ensures
        match unescaped {
            Ok(text) => r matches Ok(define) && plain_define(
                define,
                encode_utf8(name@),
                Some(encode_utf8(text@)),
            ),
            Err(_) => r matches Err(e) && e == DefineError::BadEscape,
        },
{
    match unescaped {
        Ok(text) => Ok(define_with_text(name, Some(text.as_str()))),
        Err(_) => Err(DefineError::BadEscape),
    }
}

/// Finds the first `=` in `arg`.
pub fn find_equals(arg: &str) -> (r: Option<usize>)
    ensures
        match r {
            Some(k) => first_equals(arg@, 0) == Some(k as int) && k < arg@.len(),
            None => first_equals(arg@, 0) is None,
        },
{
    let n = arg.unicode_len();
    let mut i: usize = 0;
    while i < n
        invariant
            n == arg@.len(),
            i <= n,
            first_equals(arg@, i as int) == first_equals(arg@, 0),
        decreases n - i,
    {
        if arg.get_char(i) == '=' {
            return Some(i);
        }
        i += 1;
    }
    None
}

/// Reads a macro from an argument of the form `NAME` or `NAME=TEXT`.
///
/// The escapes in `TEXT` are read by `enquote::unescape`.
pub fn parse_define(arg: &str) -> (r: Result<Define, DefineError>)
    ensures
        parsed_define(arg@, r),
{
    match find_equals(arg) {
        None => Ok(define_with_text(arg, None)),
        Some(k) => {
            let n = arg.unicode_len();
            let name = arg.substring_char(0, k);
            let raw = arg.substring_char(k + 1, n);
            assert(name@ =~= arg@.take(k as int));
            assert(raw@ =~= arg@.skip(k + 1));
            define_from(name, unescape(raw))
        },
    }
}

/// Appends the text for a value that may be missing.
fn push_option_text(out: &mut Vec<u8>, value: &Option<Vec<u8>>)
    ensures
        final(out)@ == old(out)@ + option_text(*value),
{
    match value {
        Some(v) => {
            push_text(out, "Some(");
            push_quoted(out, v.as_slice());
            push_text(out, ")");
            assert(out@ =~= old(out)@ + option_text(*value));
        },
        None => {
            push_text(out, "None");
        },
    }
}

/// Appends the text for one parameter.
fn push_argument_text(out: &mut Vec<u8>, argument: &DefineArgument)
    ensures
        final(out)@ == old(out)@ + argument_text(*argument),
{
    push_text(out, "(");
    push_quoted(out, argument.name.as_slice());
    push_text(out, ", ");
    push_option_text(out, &argument.default);
    push_text(out, ")");
    assert(out@ =~= old(out)@ + argument_text(*argument));
}

/// Appends the text for the parameters.
fn push_arguments_text(out: &mut Vec<u8>, arguments: &Vec<DefineArgument>)
    ensures
        final(out)@ == old(out)@ + arguments_text(arguments@),
{
    let mut i: usize = 0;
    assert(out@ =~= old(out)@ + arguments_text(arguments@.take(0)));
    while i < arguments.len()
        invariant
            i <= arguments.len(),
            out@ == old(out)@ + arguments_text(arguments@.take(i as int)),
        decreases arguments.len() - i,
    {
        let ghost before = out@;
        if i > 0 {
            push_text(out, ", ");
        }
        push_argument_text(out, &arguments[i]);
        proof {
            let next = arguments@.take(i + 1);
            assert(next.drop_last() =~= arguments@.take(i as int));
            assert(next.last() == arguments@[i as int]);
            assert(out@ =~= old(out)@ + arguments_text(next));
        }
        i += 1;
    }
    assert(arguments@.take(arguments.len() as int) =~= arguments@);
}

/// Appends the text for where a replacement text comes from.
fn push_origin_text(out: &mut Vec<u8>, origin: &Option<DefineOrigin>)
    ensures
        final(out)@ == old(out)@ + origin_text(*origin),
{
    match origin {
        Some(o) => {
            push_text(out, "Some((");
            push_quoted(out, o.path.as_slice());
            push_text(out, ", Range { begin: ");
            push_decimal(out, o.begin as u128);
            push_text(out, ", end: ");
            push_decimal(out, o.end as u128);
            push_text(out, " }))");
            assert(out@ =~= old(out)@ + origin_text(*origin));
        },
        None => {
            push_text(out, "None");
        },
    }
}

/// Appends the text for a replacement text.
fn push_body_text(out: &mut Vec<u8>, text: &Option<DefineText>)
    ensures
        final(out)@ == old(out)@ + body_text(*text),
{
    match text {
        Some(t) => {
            push_text(out, "Some(DefineText { text: ");
            push_quoted(out, t.text.as_slice());
            push_text(out, ", origin: ");
            push_origin_text(out, &t.origin);
            push_text(out, " })");
            assert(out@ =~= old(out)@ + body_text(*text));
        },
        None => {
            push_text(out, "None");
        },
    }
}

/// Renders a definition: its name, its parameters, its replacement text and
/// where that comes from.
pub fn render_define(define: &Define) -> (r: Vec<u8>)
    ensures
        r@ == define_text(*define),
{
    let mut out: Vec<u8> = Vec::new();
    push_text(&mut out, "Define { identifier: ");
    push_quoted(&mut out, define.identifier.as_slice());
    push_text(&mut out, ", arguments: [");
    push_arguments_text(&mut out, &define.arguments);
    push_text(&mut out, "], text: ");
    push_body_text(&mut out, &define.text);
    push_text(&mut out, " }");
    assert(out@ =~= define_text(*define));
    out
}

/// Writes the snapshot of the macro table.
///
/// The result is the text of the `macro_defs` block: for every entry that
/// has a definition one list item with the quoted text of the definition,
/// in the order of the table. A name without a definition is left out.
pub fn show_macro_defs(table: &DefineTable) -> (r: Vec<u8>)
    ensures
        r@ == snapshot_text(table@),
{
    let entries = table.entries();
    let mut out: Vec<u8> = Vec::new();
    let mut i: usize = 0;
    while i < entries.len()
        invariant
            i <= entries.len(),
            out@ == snapshot_text(entries@.take(i as int)),
        decreases entries.len() - i,
    {
        let ghost before = out@;
        match &entries[i].define {
            Some(define) => {
                let rendered = render_define(define);
                push_text(&mut out, "      - ");
                push_quoted(&mut out, rendered.as_slice());
                out.push(LINE_FEED);
            },
            None => {},
        }
        proof {
            let next = entries@.take(i + 1);
            assert(next.drop_last() =~= entries@.take(i as int));
            assert(next.last() == entries@[i as int]);
            assert(out@ =~= before + entry_line(entries@[i as int]));
        }
        i += 1;
    }
    assert(entries@.take(entries.len() as int) =~= entries@);
    out
}

} // verus!
