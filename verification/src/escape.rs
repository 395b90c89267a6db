//! Quoting of arbitrary bytes as double-quoted report scalars.

use vstd::prelude::*;
use vstd::utf8::{encode_scalar, is_scalar};

verus! {

/// The byte `"`.
pub const QUOTE: u8 = 0x22;

/// The byte `\`.
pub const BACKSLASH: u8 = 0x5c;

/// The lower-case hexadecimal digit for `n`, where `0 <= n < 16`.
pub open spec fn hex_digit(n: int) -> u8 {
    if n < 10 {
        (0x30 + n) as u8
    } else {
        (0x61 + n - 10) as u8
    }
}

/// The bytes that stand for `b` inside a quoted scalar.
///
/// `"` and `\` get a backslash in front; backspace, tab, line feed, form feed
/// and carriage return get their mnemonic; every other byte below 0x20, and
/// 0x7f, becomes `\u00` followed by two hexadecimal digits; all other bytes
/// stand for themselves.
pub open spec fn escaped_byte(b: u8) -> Seq<u8> {
    if b == 0x22 {
        seq![0x5cu8, 0x22u8]
    } else if b == 0x5c {
        seq![0x5cu8, 0x5cu8]
    } else if b == 0x08 {
        seq![0x5cu8, 0x62u8]
    } else if b == 0x09 {
        seq![0x5cu8, 0x74u8]
    } else if b == 0x0a {
        seq![0x5cu8, 0x6eu8]
    } else if b == 0x0c {
        seq![0x5cu8, 0x66u8]
    } else if b == 0x0d {
        seq![0x5cu8, 0x72u8]
    } else if b < 0x20 || b == 0x7f {
        seq![0x5cu8, 0x75u8, 0x30u8, 0x30u8, hex_digit(b as int / 16), hex_digit(b as int % 16)]
    } else {
        seq![b]
    }
}

/// The escaped form of every byte of `s`, in order.
pub open spec fn escaped(s: Seq<u8>) -> Seq<u8>
    decreases s.len(),
{
    if s.len() == 0 {
        Seq::empty()
    } else {
        escaped(s.drop_last()) + escaped_byte(s.last())
    }
}

/// The quoted scalar for `s`: its escaped form between two `"`.
pub open spec fn quoted(s: Seq<u8>) -> Seq<u8> {
    seq![QUOTE] + escaped(s) + seq![QUOTE]
}

/// The value of the hexadecimal digit `d`, in either case.
pub open spec fn hex_value(d: u8) -> Option<int> {
    if 0x30 <= d <= 0x39 {
        Some(d - 0x30)
    } else if 0x61 <= d <= 0x66 {
        Some(d - 0x61 + 10)
    } else if 0x41 <= d <= 0x46 {
        Some(d - 0x41 + 10)
    } else {
        None
    }
}

/// The code point written as the four hexadecimal digits `a b c d`.
pub open spec fn code_point(a: u8, b: u8, c: u8, d: u8) -> Option<int> {
    match (hex_value(a), hex_value(b), hex_value(c), hex_value(d)) {
        (Some(x3), Some(x2), Some(x1), Some(x0)) => Some(((x3 * 16 + x2) * 16 + x1) * 16 + x0),
        _ => None,
    }
}

/// The UTF-8 bytes of the code point `cp`, if it is a scalar value.
pub open spec fn code_point_bytes(cp: int) -> Option<Seq<u8>> {
    if 0 <= cp < 0x80 {
        Some(seq![cp as u8])
    } else if 0x80 <= cp <= 0xffff && is_scalar(cp as u32) {
        Some(encode_scalar(cp as u32))
    } else {
        None
    }
}

/// `head` followed by `tail`, where both are there.
pub open spec fn join(head: Option<Seq<u8>>, tail: Option<Seq<u8>>) -> Option<Seq<u8>> {
    match (head, tail) {
        (Some(h), Some(t)) => Some(h + t),
        _ => None,
    }
}

/// The bytes that the inside of a quoted scalar stands for.
///
/// This is the usual reading of a double-quoted scalar: `\"`, `\\`, `\/`,
/// `\b`, `\f`, `\n`, `\r`, `\t` and `\u` with four hexadecimal digits are
/// escapes, any other byte but `"` and `\` stands for itself. The result is
/// `None` where `s` holds a bare `"` or an escape that is none of these.
pub open spec fn unescaped(s: Seq<u8>) -> Option<Seq<u8>>
    decreases s.len(),
{
    if s.len() == 0 {
        Some(Seq::empty())
    } else if s[0] == QUOTE {
        None
    } else if s[0] != BACKSLASH {
        join(Some(seq![s[0]]), unescaped(s.skip(1)))
    } else if s.len() < 2 {
        None
    } else if s[1] == 0x22 || s[1] == 0x5c || s[1] == 0x2f {
        join(Some(seq![s[1]]), unescaped(s.skip(2)))
    } else if s[1] == 0x62 {
        join(Some(seq![0x08u8]), unescaped(s.skip(2)))
    } else if s[1] == 0x66 {
        join(Some(seq![0x0cu8]), unescaped(s.skip(2)))
    } else if s[1] == 0x6e {
        join(Some(seq![0x0au8]), unescaped(s.skip(2)))
    } else if s[1] == 0x72 {
        join(Some(seq![0x0du8]), unescaped(s.skip(2)))
    } else if s[1] == 0x74 {
        join(Some(seq![0x09u8]), unescaped(s.skip(2)))
    } else if s[1] == 0x75 && s.len() >= 6 {
        match code_point(s[2], s[3], s[4], s[5]) {
            Some(cp) => join(code_point_bytes(cp), unescaped(s.skip(6))),
            None => None,
        }
    } else {
        None
    }
}

/// The bytes that the quoted scalar `s` stands for: `s` must begin and end
/// with `"`, and what lies between is read by [`unescaped`].
pub open spec fn unquoted(s: Seq<u8>) -> Option<Seq<u8>> {
    if s.len() >= 2 && s[0] == QUOTE && s.last() == QUOTE {
        unescaped(s.subrange(1, s.len() - 1))
    } else {
        None
    }
}

/// Escaping distributes over a byte put in front.
pub proof fn lemma_escaped_front(b: u8, rest: Seq<u8>)
    ensures
        escaped(seq![b] + rest) == escaped_byte(b) + escaped(rest),
    decreases rest.len(),
{
    let s = seq![b] + rest;
    if rest.len() == 0 {
        assert(s.drop_last() =~= Seq::<u8>::empty());
        assert(escaped(s.drop_last()) =~= Seq::<u8>::empty());
        assert(escaped(s) =~= escaped_byte(b));
        assert(escaped_byte(b) + escaped(rest) =~= escaped_byte(b));
    } else {
        assert(s.drop_last() =~= seq![b] + rest.drop_last());
        assert(s.last() == rest.last());
        lemma_escaped_front(b, rest.drop_last());
        assert(escaped(s) =~= escaped_byte(b) + escaped(rest));
    }
}

/// Escaping distributes over concatenation.
pub proof fn lemma_escaped_concat(a: Seq<u8>, b: Seq<u8>)
    ensures
        escaped(a + b) == escaped(a) + escaped(b),
    decreases b.len(),
{
    if b.len() == 0 {
        assert(a + b =~= a);
        assert(escaped(a) + escaped(b) =~= escaped(a));
    } else {
        assert((a + b).drop_last() =~= a + b.drop_last());
        assert((a + b).last() == b.last());
        lemma_escaped_concat(a, b.drop_last());
        assert(escaped(a + b) =~= escaped(a) + escaped(b));
    }
}

/// Reading the escaped form of one byte gives the byte back, whatever follows.
pub proof fn lemma_unescaped_byte(b: u8, rest: Seq<u8>)
    ensures
        unescaped(escaped_byte(b) + rest) == join(Some(seq![b]), unescaped(rest)),
{
    let e = escaped_byte(b);
    let s = e + rest;
    if b == 0x22 || b == 0x5c || b == 0x08 || b == 0x09 || b == 0x0a || b == 0x0c || b == 0x0d {
        assert(s[0] == 0x5c && s[1] == e[1]);
        assert(s.skip(2) =~= rest);
    } else if b < 0x20 || b == 0x7f {
        let hi = b as int / 16;
        let lo = b as int % 16;
        assert(s[0] == 0x5c && s[1] == 0x75 && s[2] == 0x30 && s[3] == 0x30);
        assert(s[4] == hex_digit(hi) && s[5] == hex_digit(lo));
        assert(hex_value(hex_digit(hi)) == Some(hi));
        assert(hex_value(hex_digit(lo)) == Some(lo));
        assert(code_point(s[2], s[3], s[4], s[5]) == Some(b as int));
        assert(code_point_bytes(b as int) == Some(seq![b]));
        assert(s.skip(6) =~= rest);
    } else {
        assert(s[0] == b);
        assert(s.skip(1) =~= rest);
    }
}

/// Reading the escaped form of `s` gives `s` back.
pub proof fn lemma_unescaped_escaped(s: Seq<u8>)
    ensures
        unescaped(escaped(s)) == Some(s),
    decreases s.len(),
{
    if s.len() == 0 {
    } else {
        let rest = s.skip(1);
        assert(s =~= seq![s[0]] + rest);
        lemma_escaped_front(s[0], rest);
        lemma_unescaped_byte(s[0], escaped(rest));
        lemma_unescaped_escaped(rest);
        assert(seq![s[0]] + rest =~= s);
    }
}

/// Quoting loses nothing: reading the quoted scalar for any bytes `s`, with
/// every `"`, `\` and control byte that they hold, gives exactly `s` back.
pub proof fn lemma_quote_round_trip(s: Seq<u8>)
    ensures
        unquoted(quoted(s)) == Some(s),
{
    let q = quoted(s);
    assert(q.len() == escaped(s).len() + 2);
    assert(q[0] == QUOTE);
    assert(q.last() == QUOTE);
    assert(q.subrange(1, q.len() - 1) =~= escaped(s));
    lemma_unescaped_escaped(s);
}

/// The digit for `n` as an executable value.
fn hex_digit_of(n: u8) -> (d: u8)
    requires
        n < 16,
    ensures
        d == hex_digit(n as int),
{
    if n < 10 {
        0x30 + n
    } else {
        0x61 + (n - 10)
    }
}

/// Appends the escaped form of `b` to `out`.
fn push_escaped(out: &mut Vec<u8>, b: u8)
    ensures
        final(out)@ == old(out)@ + escaped_byte(b),
{
    if b == 0x22 {
        out.push(BACKSLASH);
        out.push(0x22);
    } else if b == 0x5c {
        out.push(BACKSLASH);
        out.push(0x5c);
    } else if b == 0x08 {
        out.push(BACKSLASH);
        out.push(0x62);
    } else if b == 0x09 {
        out.push(BACKSLASH);
        out.push(0x74);
    } else if b == 0x0a {
        out.push(BACKSLASH);
        out.push(0x6e);
    } else if b == 0x0c {
        out.push(BACKSLASH);
        out.push(0x66);
    } else if b == 0x0d {
        out.push(BACKSLASH);
        out.push(0x72);
    } else if b < 0x20 || b == 0x7f {
        out.push(BACKSLASH);
        out.push(0x75);
        out.push(0x30);
        out.push(0x30);
        out.push(hex_digit_of(b / 16));
        out.push(hex_digit_of(b % 16));
    } else {
        out.push(b);
    }
    assert(out@ =~= old(out)@ + escaped_byte(b));
}

/// Appends the quoted scalar for `v` to `out`.
pub fn push_quoted(out: &mut Vec<u8>, v: &[u8])
    ensures
        final(out)@ == old(out)@ + quoted(v@),
{
    out.push(QUOTE);
    let mut i: usize = 0;
    while i < v.len()
        invariant
            i <= v.len(),
            out@ == old(out)@ + seq![QUOTE] + escaped(v@.take(i as int)),
        decreases v.len() - i,
    {
        let b: u8 = v[i];
        push_escaped(out, b);
        proof {
            let next = v@.take(i + 1);
            assert(next.drop_last() =~= v@.take(i as int));
            assert(next.last() == b);
            assert(out@ =~= old(out)@ + seq![QUOTE] + escaped(next));
        }
        i += 1;
    }
    out.push(QUOTE);
    proof {
        assert(v@.take(v.len() as int) =~= v@);
        assert(out@ =~= old(out)@ + quoted(v@));
    }
}

/// Quotes `v` as a report scalar.
///
/// The result is `v` between two `"`, with `"`, `\`, the control bytes and
/// 0x7f escaped as [`escaped_byte`] says and every other byte unchanged, so
/// that multi-byte text passes through as it is.
pub fn escape_str(v: &[u8]) -> (r: Vec<u8>)
    ensures
        r@ == quoted(v@),
{
    let mut out: Vec<u8> = Vec::new();
    push_quoted(&mut out, v);
    assert(out@ =~= quoted(v@));
    out
}

} // verus!
