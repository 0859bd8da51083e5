//! Byte sequences as they stand in a frame: integers in both byte orders and
//! text that a zero byte ends.

use vstd::prelude::*;

verus! {

/// `base` with the bytes from `at` on overwritten by `part`.
pub open spec fn splice(base: Seq<u8>, at: int, part: Seq<u8>) -> Seq<u8> {
    base.take(at) + part + base.skip(at + part.len())
}

/// The four bytes of `x`, most significant first.
pub open spec fn be_bytes(x: u32) -> Seq<u8> {
    seq![
        (x / 0x100_0000) as u8,
        (x / 0x1_0000 % 0x100) as u8,
        (x / 0x100 % 0x100) as u8,
        (x % 0x100) as u8,
    ]
}

/// The four bytes of `x`, least significant first.
pub open spec fn le_bytes(x: u32) -> Seq<u8> {
    seq![
        (x % 0x100) as u8,
        (x / 0x100 % 0x100) as u8,
        (x / 0x1_0000 % 0x100) as u8,
        (x / 0x100_0000) as u8,
    ]
}

/// The number whose bytes, most significant first, are the first four of `b`.
pub open spec fn be_value(b: Seq<u8>) -> u32 {
    (b[0] * 0x100_0000 + b[1] * 0x1_0000 + b[2] * 0x100 + b[3]) as u32
}

/// The number whose bytes, least significant first, are the first four of `b`.
pub open spec fn le_value(b: Seq<u8>) -> u32 {
    (b[3] * 0x100_0000 + b[2] * 0x1_0000 + b[1] * 0x100 + b[0]) as u32
}

/// Index of the first zero byte of `s`, or its length if it has none.
pub open spec fn first_nul(s: Seq<u8>) -> int
    decreases s.len(),
{
    if s.len() == 0 || s[0] == 0 {
        0
    } else {
        1 + first_nul(s.drop_first())
    }
}

/// The bytes of `s` in front of its first zero byte.
pub open spec fn nul_terminated(s: Seq<u8>) -> Seq<u8> {
    s.take(first_nul(s))
}

/// `s` followed by zero bytes up to the length `len`.
pub open spec fn zero_padded(s: Seq<u8>, len: nat) -> Seq<u8> {
    s + Seq::new((len - s.len()) as nat, |i: int| 0u8)
}

/// What is written most significant byte first reads back, whatever follows it.
pub proof fn law_be_round_trip(x: u32, rest: Seq<u8>)
    ensures
        be_value(be_bytes(x) + rest) == x,
{
    let b = be_bytes(x) + rest;
    assert(b[0] == be_bytes(x)[0] && b[1] == be_bytes(x)[1] && b[2] == be_bytes(x)[2] && b[3]
        == be_bytes(x)[3]);
}

/// What is written least significant byte first reads back, whatever follows it.
pub proof fn law_le_round_trip(x: u32, rest: Seq<u8>)
    ensures
        le_value(le_bytes(x) + rest) == x,
{
    let b = le_bytes(x) + rest;
    assert(b[0] == le_bytes(x)[0] && b[1] == le_bytes(x)[1] && b[2] == le_bytes(x)[2] && b[3]
        == le_bytes(x)[3]);
}

/// `first_nul` is the least index of a zero byte.
pub proof fn lemma_first_nul(s: Seq<u8>)
    ensures
        0 <= first_nul(s) <= s.len(),
        forall|i: int| 0 <= i < first_nul(s) ==> s[i] != 0,
        first_nul(s) < s.len() ==> s[first_nul(s)] == 0,
    decreases s.len(),
{
    if s.len() != 0 && s[0] != 0 {
        let rest = s.drop_first();
        lemma_first_nul(rest);
        assert forall|i: int| 0 <= i < first_nul(s) implies s[i] != 0 by {
            if i > 0 {
                assert(s[i] == rest[i - 1]);
            }
        }
    }
}

/// An index with no zero byte in front of it, and a zero byte or the end at it, is `first_nul`.
pub proof fn lemma_first_nul_is(s: Seq<u8>, k: int)
    requires
        0 <= k <= s.len(),
        forall|i: int| 0 <= i < k ==> s[i] != 0,
        k < s.len() ==> s[k] == 0,
    ensures
        first_nul(s) == k,
{
    lemma_first_nul(s);
    let n = first_nul(s);
    if n < k {
        assert(s[n] == 0);
    } else if k < n {
        assert(s[k] != 0);
    }
}

/// Text without a zero byte reads back from a field that it was padded to.
pub proof fn law_padded_text_round_trip(s: Seq<u8>, len: nat)
    requires
        s.len() <= len,
        forall|i: int| 0 <= i < s.len() ==> s[i] != 0,
    ensures
        nul_terminated(zero_padded(s, len)) == s,
{
    let p = zero_padded(s, len);
    assert forall|i: int| 0 <= i < s.len() implies p[i] != 0 by {
        assert(p[i] == s[i]);
    }
    lemma_first_nul_is(p, s.len() as int);
    assert(p.take(s.len() as int) =~= s);
}

/// Reads four bytes from `at` on, most significant first.
pub fn read_be(bytes: &[u8], at: usize) -> (x: u32)
    requires
        at + 4 <= bytes.len(),
    ensures
        x == be_value(bytes@.skip(at as int)),
{
    bytes[at] as u32 * 0x100_0000 + bytes[at + 1] as u32 * 0x1_0000 + bytes[at + 2] as u32 * 0x100
        + bytes[at + 3] as u32
}

/// Reads four bytes from `at` on, least significant first.
pub fn read_le(bytes: &[u8], at: usize) -> (x: u32)
    requires
        at + 4 <= bytes.len(),
    ensures
        x == le_value(bytes@.skip(at as int)),
{
    bytes[at + 3] as u32 * 0x100_0000 + bytes[at + 2] as u32 * 0x1_0000 + bytes[at + 1] as u32
        * 0x100 + bytes[at] as u32
}

/// Overwrites the bytes of `buf` from `at` on by `part`.
pub fn write_bytes(buf: &mut [u8], at: usize, part: &[u8])
    requires
        at + part@.len() <= old(buf).len(),
    ensures
        final(buf)@ == splice(old(buf)@, at as int, part@),
{
    let n: usize = part.len();
    let mut i: usize = 0;
    while i < n
        invariant
            i <= n,
            n == part@.len(),
            at + n <= old(buf)@.len() <= usize::MAX,
            buf@ =~= splice(old(buf)@, at as int, part@.take(i as int)),
        decreases n - i,
    {
        buf[at + i] = part[i];
        i = i + 1;
    }
    assert(part@.take(n as int) =~= part@);
}

/// Overwrites `n` bytes of `buf` from `at` on by zero.
pub fn write_zeros(buf: &mut [u8], at: usize, n: usize)
    requires
        at + n <= old(buf).len(),
    ensures
        final(buf)@ == splice(old(buf)@, at as int, zero_padded(seq![], n as nat)),
{
    let mut i: usize = 0;
    while i < n
        invariant
            i <= n,
            at + n <= old(buf)@.len() <= usize::MAX,
            buf@ =~= splice(old(buf)@, at as int, zero_padded(seq![], i as nat)),
        decreases n - i,
    {
        buf[at + i] = 0;
        i = i + 1;
    }
}

/// Writes `x` at `at`, least significant byte first.
pub fn write_le(buf: &mut [u8], at: usize, x: u32)
    requires
        at + 4 <= old(buf).len(),
    ensures
        final(buf)@ == splice(old(buf)@, at as int, le_bytes(x)),
{
    buf[at] = (x % 0x100) as u8;
    buf[at + 1] = (x / 0x100 % 0x100) as u8;
    buf[at + 2] = (x / 0x1_0000 % 0x100) as u8;
    buf[at + 3] = (x / 0x100_0000) as u8;
    assert(buf@ =~= splice(old(buf)@, at as int, le_bytes(x)));
}

} // verus!
