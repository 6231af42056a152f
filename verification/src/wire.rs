//! Big-endian 32-bit integers and the fixed byte constants of the wire format.

use vstd::prelude::*;

verus! {

/// The 32-bit integer held big-endian in a 4-byte sequence.
pub open spec fn be32(s: Seq<u8>) -> u32
    recommends
        s.len() == 4,
{
    ((s[0] as u32) << 24) | ((s[1] as u32) << 16) | ((s[2] as u32) << 8) | (s[3] as u32)
}

/// The 4 big-endian bytes of a 32-bit integer.
pub open spec fn be_bytes(n: u32) -> Seq<u8> {
    seq![
        ((n >> 24) & 0xff) as u8,
        ((n >> 16) & 0xff) as u8,
        ((n >> 8) & 0xff) as u8,
        (n & 0xff) as u8,
    ]
}

/// Serializing an integer and reading it back yields the integer.
pub proof fn lemma_be_bytes_be32(n: u32)
    ensures
        be_bytes(n).len() == 4,
        be32(be_bytes(n)) == n,
{
    let b0 = ((n >> 24) & 0xff) as u8;
    let b1 = ((n >> 16) & 0xff) as u8;
    let b2 = ((n >> 8) & 0xff) as u8;
    let b3 = (n & 0xff) as u8;
    assert(((b0 as u32) << 24) | ((b1 as u32) << 16) | ((b2 as u32) << 8) | (b3 as u32) == n)
        by (bit_vector)
        requires
            b0 == ((n >> 24) & 0xff) as u8,
            b1 == ((n >> 16) & 0xff) as u8,
            b2 == ((n >> 8) & 0xff) as u8,
            b3 == (n & 0xff) as u8,
    ;
}

/// Reading an integer from 4 bytes and serializing it back yields the bytes.
pub proof fn lemma_be32_be_bytes(s: Seq<u8>)
    requires
        s.len() == 4,
    ensures
        be_bytes(be32(s)) == s,
{
    let b0 = s[0];
    let b1 = s[1];
    let b2 = s[2];
    let b3 = s[3];
    let n = be32(s);
    assert(((n >> 24) & 0xff) as u8 == b0 && ((n >> 16) & 0xff) as u8 == b1 && ((n >> 8) & 0xff)
        as u8 == b2 && (n & 0xff) as u8 == b3) by (bit_vector)
        requires
            n == ((b0 as u32) << 24) | ((b1 as u32) << 16) | ((b2 as u32) << 8) | (b3 as u32),
    ;
    assert(be_bytes(be32(s)) =~= s);
}

/// Reads the big-endian integer out of 4 bytes.
pub fn be32_of(b0: u8, b1: u8, b2: u8, b3: u8) -> (r: u32)
    ensures
        r == be32(seq![b0, b1, b2, b3]),
{
    ((b0 as u32) << 24) | ((b1 as u32) << 16) | ((b2 as u32) << 8) | (b3 as u32)
}

/// Appends the 4 big-endian bytes of an integer to a byte buffer.
pub fn push_be32(out: &mut Vec<u8>, n: u32)
    ensures
        final(out)@ == old(out)@ + be_bytes(n),
{
    out.push(((n >> 24) & 0xff) as u8);
    out.push(((n >> 16) & 0xff) as u8);
    out.push(((n >> 8) & 0xff) as u8);
    out.push((n & 0xff) as u8);
    proof {
        assert(out@ =~= old(out)@ + be_bytes(n));
    }
}

/// The fixed 8-byte signature that opens every container.
pub open spec fn spec_signature() -> Seq<u8> {
    seq![137u8, 80u8, 78u8, 71u8, 13u8, 10u8, 26u8, 10u8]
}

/// The 4 type bytes of the terminator chunk.
pub open spec fn spec_terminator_type() -> Seq<u8> {
    seq![73u8, 69u8, 78u8, 68u8]
}

/// A fresh buffer holding the fixed 8-byte signature.
pub fn signature_bytes() -> (r: Vec<u8>)
    ensures
        r@ == spec_signature(),
{
    let mut v: Vec<u8> = Vec::new();
    v.push(137);
    v.push(80);
    v.push(78);
    v.push(71);
    v.push(13);
    v.push(10);
    v.push(26);
    v.push(10);
    proof {
        assert(v@ =~= spec_signature());
    }
    v
}

/// Appends a whole slice to a byte buffer.
pub fn push_bytes(out: &mut Vec<u8>, s: &[u8])
    ensures
        final(out)@ == old(out)@ + s@,
{
    let mut v = vstd::slice::slice_to_vec(s);
    out.append(&mut v);
}

} // verus!
