//! Finding the line and column of a byte offset in a source text, and
//! rendering the diagnostic that points at it.

use vstd::prelude::*;
use crate::text::{
    decimal, lemma_decimal_len, push_bytes, push_decimal, push_repeated, push_spaces, repeated,
    spaces, CARRIAGE_RETURN, LINE_FEED, SPACE,
};

verus! {

/// The byte `:`.
pub const COLON: u8 = 0x3a;

/// The byte `|`.
pub const BAR: u8 = 0x7c;

/// The byte `^`.
pub const CARET: u8 = 0x5e;

/// How many line feeds `src` holds before `offset`.
pub open spec fn line_feeds(src: Seq<u8>, offset: int) -> nat
    decreases offset,
{
    if offset <= 0 {
        0
    } else if src[offset - 1] == LINE_FEED {
        line_feeds(src, offset - 1) + 1
    } else {
        line_feeds(src, offset - 1)
    }
}

/// Where the line of `offset` begins: just behind the last line feed before
/// `offset`, or at 0 where there is none.
pub open spec fn line_begin(src: Seq<u8>, offset: int) -> int
    decreases offset,
{
    if offset <= 0 {
        0
    } else if src[offset - 1] == LINE_FEED {
        offset
    } else {
        line_begin(src, offset - 1)
    }
}

/// Where the line of `offset` ends: at the first carriage return or line
/// feed from `offset` on, or at the end of `src` where there is none.
pub open spec fn line_end(src: Seq<u8>, offset: int) -> int
    decreases src.len() - offset,
{
    if offset >= src.len() {
        src.len() as int
    } else if src[offset] == CARRIAGE_RETURN || src[offset] == LINE_FEED {
        offset
    } else {
        line_end(src, offset + 1)
    }
}

/// The number of carets under a line that ends at `end`, for the offset
/// `offset` in it: from the offset to the byte behind it, and no further
/// than the end of the line. That is one caret where the offset points at a
/// byte of the line, and none where it points at the end of the line.
pub open spec fn caret_count(offset: int, end: int) -> nat {
    let stop = if offset + 1 <= end {
        offset + 1
    } else {
        end
    };
    (stop - offset) as nat
}

/// A byte offset in a source text together with the line around it.
pub struct SourcePosition {
    /// The offset itself.
    pub offset: usize,
    /// The number of line feeds before the offset.
    pub line_feeds: usize,
    /// The offset of the first byte of the line.
    pub line_begin: usize,
    /// The offset just behind the last byte of the line.
    pub line_end: usize,
}

impl SourcePosition {
    /// The position is the one of `offset` in `src`.
    pub open spec fn locates(&self, src: Seq<u8>, offset: int) -> bool {
        &&& self.offset == offset
        &&& self.line_feeds == line_feeds(src, offset)
        &&& self.line_begin == line_begin(src, offset)
        &&& self.line_end == line_end(src, offset)
    }

    /// The line begins at or before the offset and ends at or behind it.
    pub open spec fn wf(&self) -> bool {
        self.line_begin <= self.offset <= self.line_end
    }

    /// The line number, counted from 1.
    pub open spec fn line(&self) -> nat {
        (self.line_feeds + 1) as nat
    }

    /// The column number, counted from 1 in bytes.
    pub open spec fn column(&self) -> nat {
        (self.offset - self.line_begin + 1) as nat
    }

    /// The number of carets under the line.
    pub open spec fn caret_len(&self) -> nat {
        caret_count(self.offset as int, self.line_end as int)
    }

    /// The line number, counted from 1.
    pub fn line_number(&self) -> (n: u128)
        ensures
            n == self.line(),
    {
        self.line_feeds as u128 + 1
    }

    /// The column number, counted from 1 in bytes.
    pub fn column_number(&self) -> (n: u128)
        requires
            self.wf(),
        ensures
            n == self.column(),
    {
        (self.offset - self.line_begin) as u128 + 1
    }
}

/// The line of `offset` begins at or before it, behind a line feed or at 0,
/// and holds no line feed before `offset`; the count of line feeds is at most
/// `offset`.
pub proof fn lemma_line_begin(src: Seq<u8>, offset: int)
    requires
        0 <= offset <= src.len(),
    ensures
        0 <= line_begin(src, offset) <= offset,
        line_begin(src, offset) == 0 || src[line_begin(src, offset) - 1] == LINE_FEED,
        forall|k: int| line_begin(src, offset) <= k < offset ==> src[k] != LINE_FEED,
        line_feeds(src, offset) <= offset,
        line_feeds(src, offset) == 0 <==> line_begin(src, offset) == 0,
    decreases offset,
{
    if offset > 0 {
        lemma_line_begin(src, offset - 1);
    }
}

/// The line of `offset` ends at or behind it, at a carriage return, a line
/// feed or the end of `src`, and holds neither from `offset` on.
pub proof fn lemma_line_end(src: Seq<u8>, offset: int)
    requires
        0 <= offset <= src.len(),
    ensures
        offset <= line_end(src, offset) <= src.len(),
        line_end(src, offset) == src.len() || src[line_end(src, offset)] == CARRIAGE_RETURN
            || src[line_end(src, offset)] == LINE_FEED,
        forall|k: int|
            offset <= k < line_end(src, offset) ==> src[k] != CARRIAGE_RETURN && src[k]
                != LINE_FEED,
    decreases src.len() - offset,
{
    if offset < src.len() && src[offset] != CARRIAGE_RETURN && src[offset] != LINE_FEED {
        lemma_line_end(src, offset + 1);
    }
}

/// Finds the line around `offset` in `src`.
///
/// Every offset up to and including the length of `src` has a position; an
/// offset beyond it has none.
pub fn locate(src: &[u8], offset: usize) -> (r: Option<SourcePosition>)
    ensures
        r is Some <==> offset <= src@.len(),
        r matches Some(p) ==> p.locates(src@, offset as int) && p.wf(),
{
    proof {
        if offset <= src@.len() {
            lemma_line_begin(src@, offset as int);
            lemma_line_end(src@, offset as int);
        }
    }
    if offset > src.len() {
        return None;
    }
    let mut pos: usize = 0;
    let mut feeds: usize = 0;
    let mut begin: usize = 0;
    while pos < offset
        invariant
            pos <= offset <= src@.len(),
            feeds == line_feeds(src@, pos as int),
            feeds <= pos,
            begin == line_begin(src@, pos as int),
        decreases offset - pos,
    {
        if src[pos] == LINE_FEED {
            feeds += 1;
            begin = pos + 1;
        }
        pos += 1;
    }
    let mut end: usize = offset;
    while end < src.len() && src[end] != CARRIAGE_RETURN && src[end] != LINE_FEED
        invariant
            offset <= end <= src@.len(),
            line_end(src@, end as int) == line_end(src@, offset as int),
        decreases src@.len() - end,
    {
        end += 1;
    }
    Some(SourcePosition { offset, line_feeds: feeds, line_begin: begin, line_end: end })
}

/// The line under the header: the gutter for a line number of `width` digits.
pub open spec fn gutter(width: nat) -> Seq<u8> {
    spaces(width + 1) + seq![BAR]
}

/// Appends the gutter for a line number of `width` digits to `out`.
fn push_gutter(out: &mut Vec<u8>, width: usize)
    ensures
        final(out)@ == old(out)@ + gutter(width as nat),
{
    push_spaces(out, width);
    out.push(SPACE);
    out.push(BAR);
    assert(spaces((width + 1) as nat) =~= spaces(width as nat).push(SPACE));
    assert(out@ =~= old(out)@ + gutter(width as nat));
}

/// The four lines that point at `offset` in `src`, where `offset` is at most
/// the length of `src`:
///
/// ```text
///  path:line:column
///   |
/// 7 | the line of the offset
///   |       ^
/// ```
///
/// The line and the column count from 1, the column in bytes. The source line
/// runs from behind the last line feed before `offset` to the next carriage
/// return or line feed. The carets, as many as [`caret_count`] says, stand
/// under the byte at `offset`.
pub open spec fn diagnostic(path: Seq<u8>, src: Seq<u8>, offset: int) -> Seq<u8> {
    let line = decimal(line_feeds(src, offset) + 1);
    let column = decimal((offset - line_begin(src, offset) + 1) as nat);
    let begin = line_begin(src, offset);
    let end = line_end(src, offset);
    let carets = repeated(CARET, caret_count(offset, end));
    seq![SPACE] + path + seq![COLON] + line + seq![COLON] + column + seq![LINE_FEED]
        + gutter(line.len()) + seq![LINE_FEED]
        + line + seq![SPACE, BAR, SPACE] + src.subrange(begin, end) + seq![LINE_FEED]
        + gutter(line.len()) + seq![SPACE] + spaces((offset - begin) as nat) + carets + seq![LINE_FEED]
}

/// Renders the diagnostic for a parse failure at `offset` in the source
/// `src` of the file `path`.
///
/// The result is `None` exactly where `offset` lies beyond the end of `src`.
pub fn render_parse_error(path: &[u8], src: &[u8], offset: usize) -> (r: Option<Vec<u8>>)
    ensures
        r is Some <==> offset <= src@.len(),
        r matches Some(text) ==> text@ == diagnostic(path@, src@, offset as int),
{
    let p = match locate(src, offset) {
        Some(p) => p,
        None => {
            return None;
        },
    };
    proof {
        lemma_line_begin(src@, offset as int);
        lemma_line_end(src@, offset as int);
        lemma_decimal_len(p.line());
    }
    let mut digits: Vec<u8> = Vec::new();
    push_decimal(&mut digits, p.line_number());
    assert(digits@ =~= decimal(p.line()));
    let mut out: Vec<u8> = Vec::new();
    out.push(SPACE);
    push_bytes(&mut out, path);
    out.push(COLON);
    push_bytes(&mut out, digits.as_slice());
    out.push(COLON);
    push_decimal(&mut out, p.column_number());
    out.push(LINE_FEED);
    let ghost line1 = out@;
    assert(line1 =~= seq![SPACE] + path@ + seq![COLON] + digits@ + seq![COLON] + decimal(p.column()) + seq![LINE_FEED]);

    push_gutter(&mut out, digits.len());
    out.push(LINE_FEED);
    let ghost line2 = out@;
    assert(line2 =~= line1 + gutter(digits@.len()) + seq![LINE_FEED]);

    push_bytes(&mut out, digits.as_slice());
    out.push(SPACE);
    out.push(BAR);
    out.push(SPACE);
    push_bytes(&mut out, vstd::slice::slice_subrange(src, p.line_begin, p.line_end));
    out.push(LINE_FEED);
    let ghost line3 = out@;
    assert(line3 =~= line2 + digits@ + seq![SPACE, BAR, SPACE] + src@.subrange(
        p.line_begin as int,
        p.line_end as int,
    ) + seq![LINE_FEED]);

    push_gutter(&mut out, digits.len());
    out.push(SPACE);
    push_spaces(&mut out, offset - p.line_begin);
    let ghost before_carets = out@;
    let stop: usize = if offset < p.line_end {
        offset + 1
    } else {
        p.line_end
    };
    push_repeated(&mut out, CARET, stop - offset);
    out.push(LINE_FEED);
    assert(out@ =~= diagnostic(path@, src@, offset as int)) by {
        let carets = repeated(CARET, caret_count(offset as int, p.line_end as int));
        assert(before_carets =~= line3 + gutter(digits@.len()) + seq![SPACE] + spaces(
            (offset - p.line_begin) as nat,
        ));
        assert(out@ =~= before_carets + carets + seq![LINE_FEED]);
    }
    Some(out)
}

} // verus!
