//! Small building blocks for report text, which is handled as bytes.

use vstd::prelude::*;
use vstd::string::*;

verus! {

/// The byte ` `.
pub const SPACE: u8 = 0x20;

/// The line feed byte.
pub const LINE_FEED: u8 = 0x0a;

/// The carriage return byte.
pub const CARRIAGE_RETURN: u8 = 0x0d;

/// The bytes of the text `s`.
pub open spec fn lit(s: &str) -> Seq<u8> {
    s.spec_bytes()
}

/// The byte `byte`, `n` times.
pub open spec fn repeated(byte: u8, n: nat) -> Seq<u8> {
    Seq::new(n, |i: int| byte)
}

/// `n` spaces.
pub open spec fn spaces(n: nat) -> Seq<u8> {
    repeated(SPACE, n)
}

/// `n` written in decimal digits, without leading zeros.
pub open spec fn decimal(n: nat) -> Seq<u8>
    decreases n,
{
    if n < 10 {
        seq![(0x30 + n) as u8]
    } else {
        decimal(n / 10) + seq![(0x30 + n % 10) as u8]
    }
}

/// A number has at least one digit.
pub proof fn lemma_decimal_len(n: nat)
    ensures
        decimal(n).len() >= 1,
    decreases n,
{
    if n >= 10 {
        lemma_decimal_len(n / 10);
    }
}

/// Appends `bytes` to `out`.
pub fn push_bytes(out: &mut Vec<u8>, bytes: &[u8])
    ensures
        final(out)@ == old(out)@ + bytes@,
{
    let mut i: usize = 0;
    while i < bytes.len()
        invariant
            i <= bytes.len(),
            out@ == old(out)@ + bytes@.take(i as int),
        decreases bytes.len() - i,
    {
        out.push(bytes[i]);
        assert(bytes@.take(i + 1) =~= bytes@.take(i as int).push(bytes@[i as int]));
        i += 1;
    }
    assert(bytes@.take(bytes.len() as int) =~= bytes@);
}

/// Appends the bytes of the text `s` to `out`.
pub fn push_text(out: &mut Vec<u8>, s: &str)
    ensures
        final(out)@ == old(out)@ + lit(s),
{
    push_bytes(out, s.as_bytes());
}

/// Appends the byte `byte` to `out`, `n` times.
pub fn push_repeated(out: &mut Vec<u8>, byte: u8, n: usize)
    ensures
        final(out)@ == old(out)@ + repeated(byte, n as nat),
{
    let mut i: usize = 0;
    assert(out@ =~= old(out)@ + repeated(byte, 0));
    while i < n
        invariant
            i <= n,
            out@ == old(out)@ + repeated(byte, i as nat),
        decreases n - i,
    {
        out.push(byte);
        assert(repeated(byte, (i + 1) as nat) =~= repeated(byte, i as nat).push(byte));
        i += 1;
    }
}

/// Appends `n` spaces to `out`.
pub fn push_spaces(out: &mut Vec<u8>, n: usize)
    ensures
        final(out)@ == old(out)@ + spaces(n as nat),
{
    push_repeated(out, SPACE, n);
}

/// Appends `n` in decimal digits to `out`.
pub fn push_decimal(out: &mut Vec<u8>, n: u128)
    ensures
        final(out)@ == old(out)@ + decimal(n as nat),
    decreases n,
{
    if n >= 10 {
        push_decimal(out, n / 10);
    }
    let digit: u128 = n % 10;
    out.push(0x30 + digit as u8);
    assert(out@ =~= old(out)@ + decimal(n as nat));
}

} // verus!
