//! General laws of the codec, stated and proved over the spec-level model.

use crate::chunk::{chunk_wire, crc32_of, spec_parse_chunk, wf_chunk_model, ChunkModel};
use crate::error::PngError;
use crate::png::{chunks_wire, spec_parse_chunks, spec_parse_png};
use crate::wire::{
    be32, be_bytes, lemma_be32_be_bytes, lemma_be_bytes_be32, spec_signature,
    spec_terminator_type,
};
use vstd::prelude::*;

verus! {

/// The checksum is a pure function of the type bytes and the data bytes:
/// equal inputs always yield the identical checksum.
pub proof fn lemma_crc_deterministic(t1: Seq<u8>, d1: Seq<u8>, t2: Seq<u8>, d2: Seq<u8>)
    requires
        t1 == t2,
        d1 == d2,
    ensures
        crc32_of(t1 + d1) == crc32_of(t2 + d2),
{
}

/// Chunk round trip, serialize then parse: a well-formed chunk model,
/// serialized to its wire form, parses back to the very same model.
pub proof fn lemma_chunk_round_trip(c: ChunkModel)
    requires
        wf_chunk_model(c),
    ensures
        spec_parse_chunk(chunk_wire(c)) == Ok::<ChunkModel, PngError>(c),
{
    let w = chunk_wire(c);
    lemma_be_bytes_be32(c.data.len() as u32);
    lemma_be_bytes_be32(c.crc);
    assert(w.len() == 12 + c.data.len());
    assert(w.subrange(0, 4) =~= be_bytes(c.data.len() as u32));
    assert(w.subrange(4, 8) =~= c.ctype);
    assert(w.subrange(8, w.len() - 4) =~= c.data);
    assert(w.subrange(w.len() - 4, w.len() as int) =~= be_bytes(c.crc));
    assert(w.subrange(4, w.len() - 4) =~= c.ctype + c.data);
    assert(spec_parse_chunk(w) is Ok);
    assert(spec_parse_chunk(w)->Ok_0 =~= c);
}

/// Chunk round trip, parse then serialize: an exact slice that parses as a
/// chunk is reproduced by serializing the parsed chunk.
pub proof fn lemma_chunk_parse_then_serialize(b: Seq<u8>)
    requires
        spec_parse_chunk(b) is Ok,
    ensures
        chunk_wire(spec_parse_chunk(b)->Ok_0) == b,
{
    let c = spec_parse_chunk(b)->Ok_0;
    lemma_be32_be_bytes(b.subrange(0, 4));
    lemma_be32_be_bytes(b.subrange(b.len() - 4, b.len() as int));
    assert(c.data.len() == b.len() - 12);
    assert(c.data.len() as u32 == be32(b.subrange(0, 4)));
    assert(be_bytes(c.data.len() as u32) == b.subrange(0, 4));
    assert(be_bytes(c.crc) == b.subrange(b.len() - 4, b.len() as int));
    assert(chunk_wire(c) =~= b);
}

/// Stream round trip, serialize then parse: serializing well-formed chunks, of
/// which only the last may carry the terminator type, and parsing the bytes
/// back yields exactly those chunks.
pub proof fn lemma_chunks_round_trip(cs: Seq<ChunkModel>)
    requires
        forall|i: int| 0 <= i < cs.len() ==> wf_chunk_model(#[trigger] cs[i]),
        forall|i: int| 0 <= i < cs.len() - 1 ==> #[trigger] cs[i].ctype != spec_terminator_type(),
    ensures
        spec_parse_chunks(chunks_wire(cs)) == Ok::<Seq<ChunkModel>, PngError>(cs),
    decreases cs.len(),
{
    if cs.len() == 0 {
        assert(chunks_wire(cs) == Seq::<u8>::empty());
        assert(cs =~= Seq::<ChunkModel>::empty());
    } else {
        let c = cs[0];
        let w = chunk_wire(c);
        let rest = cs.drop_first();
        let b = chunks_wire(cs);
        assert(b == w + chunks_wire(rest));
        assert(wf_chunk_model(c));
        assert(w.len() == 12 + c.data.len());
        lemma_be_bytes_be32(c.data.len() as u32);
        assert(b.subrange(0, 4) =~= be_bytes(c.data.len() as u32));
        let n = c.data.len() as int;
        assert(be32(b.subrange(0, 4)) == n as u32);
        assert(b.len() >= 12 + n);
        assert(b.subrange(0, 12 + n) =~= w);
        lemma_chunk_round_trip(c);
        if c.ctype == spec_terminator_type() {
            assert(cs.len() == 1) by {
                if cs.len() > 1 {
                    assert(cs[0].ctype != spec_terminator_type());
                }
            }
            assert(chunks_wire(rest) == Seq::<u8>::empty());
            assert(spec_parse_chunks(b) == Ok::<Seq<ChunkModel>, PngError>(seq![c]));
            assert(seq![c] =~= cs);
        } else {
            assert(b.subrange(12 + n, b.len() as int) =~= chunks_wire(rest));
            assert forall|i: int| 0 <= i < rest.len() implies wf_chunk_model(#[trigger] rest[i]) by {
                assert(rest[i] == cs[i + 1]);
            }
            assert forall|i: int| 0 <= i < rest.len() - 1 implies #[trigger] rest[i].ctype
                != spec_terminator_type() by {
                assert(rest[i] == cs[i + 1]);
                assert(cs[i + 1].ctype != spec_terminator_type());
            }
            lemma_chunks_round_trip(rest);
            assert(spec_parse_chunks(b) == Ok::<Seq<ChunkModel>, PngError>(seq![c] + rest));
            assert(seq![c] + rest =~= cs);
        }
    }
}

/// Container round trip, serialize then parse: the signature followed by the
/// serialized chunks parses back to exactly those chunks, whenever only the
/// last chunk may carry the terminator type.
pub proof fn lemma_container_round_trip(cs: Seq<ChunkModel>)
    requires
        forall|i: int| 0 <= i < cs.len() ==> wf_chunk_model(#[trigger] cs[i]),
        forall|i: int| 0 <= i < cs.len() - 1 ==> #[trigger] cs[i].ctype != spec_terminator_type(),
    ensures
        spec_parse_png(spec_signature() + chunks_wire(cs)) == Ok::<Seq<ChunkModel>, PngError>(cs),
{
    let b = spec_signature() + chunks_wire(cs);
    assert(b.subrange(0, 8) =~= spec_signature());
    assert(b.subrange(8, b.len() as int) =~= chunks_wire(cs));
    lemma_chunks_round_trip(cs);
}

/// What a successful stream parse returns re-serializes to a prefix of the
/// input: the bytes up to and including the terminator chunk.
#[verifier::rlimit(50)]
pub proof fn lemma_parse_chunks_prefix(b: Seq<u8>, cs: Seq<ChunkModel>)
    requires
        spec_parse_chunks(b) == Ok::<Seq<ChunkModel>, PngError>(cs),
    ensures
        chunks_wire(cs).len() <= b.len(),
        chunks_wire(cs) == b.subrange(0, chunks_wire(cs).len() as int),
    decreases b.len(),
{
    if b.len() == 0 {
        assert(cs == Seq::<ChunkModel>::empty());
        assert(chunks_wire(cs) =~= b.subrange(0, 0));
    } else {
        let n = be32(b.subrange(0, 4)) as int;
        let piece = b.subrange(0, 12 + n);
        let c = spec_parse_chunk(piece)->Ok_0;
        lemma_chunk_parse_then_serialize(piece);
        assert(chunk_wire(c) == piece);
        if c.ctype == spec_terminator_type() {
            assert(cs == seq![c]);
            assert(cs[0] == c);
            assert(chunks_wire(cs.drop_first()) == Seq::<u8>::empty()) by {
                assert(cs.drop_first() =~= Seq::<ChunkModel>::empty());
            }
            assert(chunks_wire(cs) =~= piece);
            assert(piece == b.subrange(0, chunks_wire(cs).len() as int));
        } else {
            let tail = b.subrange(12 + n, b.len() as int);
            let rest = spec_parse_chunks(tail)->Ok_0;
            assert(spec_parse_chunks(tail) == Ok::<Seq<ChunkModel>, PngError>(rest));
            assert(cs == seq![c] + rest);
            lemma_parse_chunks_prefix(tail, rest);
            let m = chunks_wire(rest).len() as int;
            assert(cs[0] == c);
            assert(cs.drop_first() =~= rest);
            assert(chunks_wire(cs) == chunk_wire(c) + chunks_wire(rest));
            assert(chunks_wire(rest) == b.subrange(12 + n, 12 + n + m)) by {
                assert(tail.subrange(0, m) =~= b.subrange(12 + n, 12 + n + m));
            }
            assert(chunks_wire(cs).len() == 12 + n + m);
            assert(piece + b.subrange(12 + n, 12 + n + m) =~= b.subrange(0, 12 + n + m));
            assert(chunks_wire(cs) == b.subrange(0, 12 + n + m));
        }
    }
}

/// Container round trip, parse then serialize: a parsed container re-serializes
/// to exactly the input bytes, whenever the input ends at the terminator chunk
/// with nothing after it.
pub proof fn lemma_container_parse_then_serialize(b: Seq<u8>)
    requires
        spec_parse_png(b) is Ok,
        8 + chunks_wire(spec_parse_png(b)->Ok_0).len() == b.len(),
    ensures
        spec_signature() + chunks_wire(spec_parse_png(b)->Ok_0) == b,
{
    let cs = spec_parse_png(b)->Ok_0;
    let tail = b.subrange(8, b.len() as int);
    lemma_parse_chunks_prefix(tail, cs);
    assert(chunks_wire(cs) =~= tail);
    assert(b.subrange(0, 8) == spec_signature());
    assert(spec_signature() + chunks_wire(cs) =~= b);
}

} // verus!

