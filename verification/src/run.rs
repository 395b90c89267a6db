//! The run over a list of files: what is written for each file that was
//! parsed, how the macro table goes from one file to the next, and the exit
//! status at the end.
//!
//! Reading and parsing a file is the caller's part. After each file the
//! caller tells the run how the parse ended, and writes what the run hands
//! back.

use vstd::prelude::*;
use crate::defs::{analyze_defs, defs_text, DefsError};
use crate::dump::{dump_text, print_full_tree};
use crate::escape::{push_quoted, quoted};
use crate::macros::{lookup, show_macro_defs, snapshot_text, DefineEntry, DefineTable};
use crate::text::{lit, push_bytes, push_text, LINE_FEED};
use crate::tree::NodeEvent;

verus! {

/// The byte `?`, which stands for a byte that is not ASCII.
pub const QUESTION_MARK: u8 = 0x3f;

/// How a run is to report.
#[derive(Clone, Copy, Debug)]
pub struct Options {
    /// Dump the whole syntax tree in place of the definitions.
    pub full_tree: bool,
    /// Show white space in the dump.
    pub include_whitespace: bool,
    /// Show the macro table after each file.
    pub show_macro_defs: bool,
    /// Parse every file with the macro table of the start.
    pub separate: bool,
}

/// The state of a run: the macro table for the next parse, and the exit
/// status so far.
pub struct Run {
    pub defines: DefineTable,
    pub exit_code: i32,
}

/// The source as the parser gets it: every byte that is not ASCII replaced
/// by `?`.
pub open spec fn sanitized(source: Seq<u8>) -> Seq<u8> {
    Seq::new(
        source.len(),
        |i: int|
            if source[i] < 128 {
                source[i]
            } else {
                QUESTION_MARK
            },
    )
}

/// The line that opens the record of the file `path`.
pub open spec fn file_name_line(path: Seq<u8>) -> Seq<u8> {
    lit("  - file_name: ") + quoted(path) + seq![LINE_FEED]
}

/// The block of the record that shows the syntax tree: the dump of the
/// whole tree where that is asked for, else the definitions.
pub open spec fn tree_block(events: Seq<NodeEvent>, options: Options) -> Result<
    Seq<u8>,
    DefsError,
> {
    if options.full_tree {
        Ok(lit("    syntax_tree:\n") + dump_text(events, options.include_whitespace))
    } else {
        match defs_text(events) {
            Ok(text) => Ok(lit("    defs:\n") + text),
            Err(e) => Err(e),
        }
    }
}

/// The block of the record that shows the macro table, where that is asked
/// for.
pub open spec fn macro_block(defines: Seq<DefineEntry>, options: Options) -> Seq<u8> {
    if options.show_macro_defs {
        lit("    macro_defs:\n") + snapshot_text(defines)
    } else {
        Seq::empty()
    }
}

/// The macro table after a file: the one that its parse returned, or, where
/// every file is parsed apart, the one from before.
pub open spec fn next_defines(current: DefineTable, parsed: DefineTable, options: Options) -> DefineTable {
    if options.separate {
        current
    } else {
        parsed
    }
}

/// Macros carry over from file to file, unless every file is parsed apart.
///
/// Of two files `a` and `b` of a run, reported one after the other: where
/// files are not parsed apart, the macro table that the parse of `a`
/// returned is the one that `b` is parsed with, so that a macro which `a`
/// defines is known in `b`, and the table shown behind `b` is the one that
/// the parse of `b` returned. Where every file is parsed apart, `b` is
/// parsed with the table that the run had before `a`, and that table is the
/// one shown behind `b`: it holds for every name, defined in `a` or not,
/// what it held before.
pub proof fn lemma_macros_carry_over(
    run: Run,
    a: (Seq<u8>, Seq<NodeEvent>, DefineTable),
    b: (Seq<u8>, Seq<NodeEvent>, DefineTable),
    options: Options,
    after_a: Run,
    written_a: Seq<u8>,
    after_b: Run,
    written_b: Seq<u8>,
    name: Seq<u8>,
)
    requires
        run.parsed(a.0, a.1, a.2, options, after_a, Ok(written_a)),
        after_a.parsed(b.0, b.1, b.2, options, after_b, Ok(written_b)),
    ensures
        !options.separate ==> after_a.defines == a.2 && after_b.defines == b.2,
        options.separate ==> after_a.defines == run.defines && after_b.defines == run.defines,
        options.separate ==> lookup(after_b.defines@, name) == lookup(run.defines@, name),
        options.show_macro_defs ==> written_b == file_name_line(b.0) + tree_block(
            b.1,
            options,
        )->Ok_0 + (lit("    macro_defs:\n") + snapshot_text(after_b.defines@)),
{
}

/// Replaces every byte of `source` that is not ASCII by `?`.
pub fn sanitize(source: &[u8]) -> (r: Vec<u8>)
    ensures
        r@ == sanitized(source@),
{
    let mut out: Vec<u8> = Vec::new();
    let mut i: usize = 0;
    while i < source.len()
        invariant
            i <= source.len(),
            out@ == sanitized(source@.take(i as int)),
        decreases source.len() - i,
    {
        let b: u8 = source[i];
        if b < 128 {
            out.push(b);
        } else {
            out.push(QUESTION_MARK);
        }
        assert(out@ =~= sanitized(source@.take(i + 1)));
        i += 1;
    }
    assert(source@.take(source.len() as int) =~= source@);
    out
}

/// The line that opens a report.
pub fn report_header() -> (r: Vec<u8>)
    ensures
        r@ == lit("files:\n"),
{
    let mut out: Vec<u8> = Vec::new();
    push_text(&mut out, "files:\n");
    assert(out@ =~= lit("files:\n"));
    out
}

/// Writes the block that shows the syntax tree `events`.
pub fn write_tree_block(events: &[NodeEvent], options: &Options) -> (r: Result<Vec<u8>, DefsError>)
    ensures
        match tree_block(events@, *options) {
            Ok(text) => r matches Ok(out) && out@ == text,
            Err(e) => r matches Err(f) && f == e,
        },
{
    let mut out: Vec<u8> = Vec::new();
    if options.full_tree {
        push_text(&mut out, "    syntax_tree:\n");
        let dump = print_full_tree(events, options.include_whitespace);
        push_bytes(&mut out, dump.as_slice());
        assert(out@ =~= lit("    syntax_tree:\n") + dump@);
        Ok(out)
    } else {
        match analyze_defs(events) {
            Ok(defs) => {
                push_text(&mut out, "    defs:\n");
                push_bytes(&mut out, defs.as_slice());
                assert(out@ =~= lit("    defs:\n") + defs@);
                Ok(out)
            },
            Err(e) => Err(e),
        }
    }
}

impl Run {
    /// The run as it is after the file `path` was parsed into `events` and
    /// the macro table `parsed`, and what it writes: the name of the file,
    /// the block for its syntax tree, and the macro table as it is handed
    /// on, where that is to be shown. Where the definitions cannot be
    /// reported the run is as before and nothing is written.
    pub open spec fn parsed(
        self,
        path: Seq<u8>,
        events: Seq<NodeEvent>,
        parsed: DefineTable,
        options: Options,
        after: Run,
        written: Result<Seq<u8>, DefsError>,
    ) -> bool {
        match tree_block(events, options) {
            Ok(block) => {
                &&& after.defines == next_defines(self.defines, parsed, options)
                &&& after.exit_code == self.exit_code
                &&& written == Ok::<Seq<u8>, DefsError>(
                    file_name_line(path) + block + macro_block(after.defines@, options),
                )
            },
            Err(e) => after == self && written == Err::<Seq<u8>, DefsError>(e),
        }
    }

    /// A run that starts with the macro table `defines`.
    pub fn new(defines: DefineTable) -> (run: Run)
        ensures
            run.defines == defines,
            run.exit_code == 0,
    {
        Run { defines, exit_code: 0 }
    }

    /// Takes note that the file `path` was parsed into the syntax tree
    /// `events` and the macro table `parsed`, and returns the record of the
    /// file for the report.
    pub fn file_parsed(
        &mut self,
        path: &[u8],
        events: &[NodeEvent],
        parsed: DefineTable,
        options: &Options,
    ) -> (r: Result<Vec<u8>, DefsError>)
        ensures
            old(self).parsed(
                path@,
                events@,
                parsed,
                *options,
                *final(self),
                match r {
                    Ok(out) => Ok(out@),
                    Err(e) => Err(e),
                },
            ),
    {
        let block = match write_tree_block(events, options) {
            Ok(block) => block,
            Err(e) => {
                return Err(e);
            },
        };
        let mut out: Vec<u8> = Vec::new();
        push_text(&mut out, "  - file_name: ");
        push_quoted(&mut out, path);
        out.push(LINE_FEED);
        push_bytes(&mut out, block.as_slice());
        if !options.separate {
            self.defines = parsed;
        }
        let ghost before_macros = out@;
        assert(before_macros =~= file_name_line(path@) + block@);
        if options.show_macro_defs {
            push_text(&mut out, "    macro_defs:\n");
            let snapshot = show_macro_defs(&self.defines);
            push_bytes(&mut out, snapshot.as_slice());
        }
        assert(out@ =~= before_macros + macro_block(self.defines@, *options));
        Ok(out)
    }

    /// Takes note that a file could not be parsed: the run goes on with the
    /// same macro table, and its exit status is 1 from now on.
    pub fn file_failed(&mut self)
        ensures
            final(self).defines == old(self).defines,
            final(self).exit_code == 1,
    {
        self.exit_code = 1;
    }
}

} // verus!
