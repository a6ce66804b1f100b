//! Byte buffers: appending to them, and the big-endian 32-bit integers of the format.

use vstd::prelude::*;

verus! {

/// The four bytes that hold `n`, most significant first.
pub open spec fn u32_to_be(n: u32) -> Seq<u8> {
    seq![
        (n / 0x100_0000) as u8,
        (n / 0x1_0000 % 0x100) as u8,
        (n / 0x100 % 0x100) as u8,
        (n % 0x100) as u8,
    ]
}

/// The integer that the first four bytes of `b` hold, most significant first.
pub open spec fn u32_from_be(b: Seq<u8>) -> u32
    recommends
        b.len() >= 4,
{
    (b[0] * 0x100_0000 + b[1] * 0x1_0000 + b[2] * 0x100 + b[3]) as u32
}

/// Decoding the encoding of `n` gives `n` back.
pub proof fn lemma_be_decode_encode(n: u32)
    ensures
        u32_to_be(n).len() == 4,
        u32_from_be(u32_to_be(n)) == n,
{
}

/// Encoding what four bytes decode to gives the four bytes back.
pub proof fn lemma_be_encode_decode(b: Seq<u8>)
    requires
        b.len() == 4,
    ensures
        u32_to_be(u32_from_be(b)) == b,
{
    let n = u32_from_be(b);
    let hi: int = b[0] as int;
    let mid: int = hi * 0x100 + b[1];
    let low: int = mid * 0x100 + b[2];
    assert(n == low * 0x100 + b[3]);
    assert(n / 0x100 == low && n % 0x100 == b[3]);
    assert(n / 0x1_0000 == mid && low % 0x100 == b[2]);
    assert(n / 0x100_0000 == hi && mid % 0x100 == b[1]);
    assert(u32_to_be(n) =~= b);
}

/// Reads the big-endian integer that starts at index `at`.
pub fn read_u32_be(bytes: &[u8], at: usize) -> (n: u32)
    requires
        at + 4 <= bytes@.len(),
    ensures
        n == u32_from_be(bytes@.subrange(at as int, at + 4)),
{
    let b0: u32 = bytes[at] as u32;
    let b1: u32 = bytes[at + 1] as u32;
    let b2: u32 = bytes[at + 2] as u32;
    let b3: u32 = bytes[at + 3] as u32;
    b0 * 0x100_0000 + b1 * 0x1_0000 + b2 * 0x100 + b3
}

/// Appends the big-endian encoding of `n` to `out`.
pub fn push_u32_be(out: &mut Vec<u8>, n: u32)
    ensures
        final(out)@ == old(out)@ + u32_to_be(n),
{
    out.push((n / 0x100_0000) as u8);
    out.push((n / 0x1_0000 % 0x100) as u8);
    out.push((n / 0x100 % 0x100) as u8);
    out.push((n % 0x100) as u8);
    assert(out@ =~= old(out)@ + u32_to_be(n));
}

/// Appends a copy of `src` to `out`.
pub fn extend_bytes(out: &mut Vec<u8>, src: &[u8])
    ensures
        final(out)@ == old(out)@ + src@,
{
    let mut i: usize = 0;
    while i < src.len()
        invariant
            i <= src@.len(),
            out@ == old(out)@ + src@.subrange(0, i as int),
        decreases src@.len() - i,
    {
        out.push(src[i]);
        i = i + 1;
        assert(out@ =~= old(out)@ + src@.subrange(0, i as int));
    }
    assert(src@.subrange(0, i as int) =~= src@);
}

} // verus!
