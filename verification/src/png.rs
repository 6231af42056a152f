//! The container: an ordered sequence of chunks behind the fixed signature.

use crate::chunk::{chunk_text, chunk_wire, spec_parse_chunk, Chunk, ChunkModel};
use crate::error::PngError;
use crate::text::vec_to_string;
use crate::wire::{be32, be32_of, signature_bytes, spec_signature, spec_terminator_type};
use vstd::prelude::*;
use vstd::slice::slice_subrange;
use vstd::string::StringSliceAdditionalSpecFns;
use vstd::utf8::{encode_utf8, valid_utf8};

verus! {

/// The wire form of a sequence of chunks, one after the other.
pub open spec fn chunks_wire(cs: Seq<ChunkModel>) -> Seq<u8>
    decreases cs.len(),
{
    if cs.len() == 0 {
        Seq::empty()
    } else {
        chunk_wire(cs[0]) + chunks_wire(cs.drop_first())
    }
}

/// Serializing one more chunk appends its wire form.
pub proof fn lemma_chunks_wire_push(cs: Seq<ChunkModel>, c: ChunkModel)
    ensures
        chunks_wire(cs.push(c)) == chunks_wire(cs) + chunk_wire(c),
    decreases cs.len(),
{
    if cs.len() == 0 {
        assert(cs.push(c)[0] == c);
        assert(cs.push(c).drop_first() =~= Seq::<ChunkModel>::empty());
        assert(chunks_wire(cs.push(c).drop_first()) == Seq::<u8>::empty());
        assert(chunks_wire(cs.push(c)) == chunk_wire(c) + Seq::<u8>::empty());
        assert(chunks_wire(cs) == Seq::<u8>::empty());
        assert(chunks_wire(cs.push(c)) =~= chunks_wire(cs) + chunk_wire(c));
    } else {
        assert(cs.push(c)[0] == cs[0]);
        assert(cs.push(c).drop_first() =~= cs.drop_first().push(c));
        lemma_chunks_wire_push(cs.drop_first(), c);
        assert(chunks_wire(cs.push(c)) == chunk_wire(cs[0]) + (chunks_wire(cs.drop_first())
            + chunk_wire(c)));
        assert(chunks_wire(cs.push(c)) =~= chunks_wire(cs) + chunk_wire(c));
    }
}

/// The chunk sequence that a byte stream parses to, or how the parse fails.
/// Chunks are read one after the other until the terminator chunk is consumed
/// or the bytes are exhausted.
pub open spec fn spec_parse_chunks(b: Seq<u8>) -> Result<Seq<ChunkModel>, PngError>
    decreases b.len(),
{
    if b.len() == 0 {
        Ok(Seq::empty())
    } else if b.len() < 12 {
        Err(PngError::TruncatedInput)
    } else {
        let n = be32(b.subrange(0, 4)) as int;
        if b.len() < 12 + n {
            Err(PngError::TruncatedInput)
        } else {
            match spec_parse_chunk(b.subrange(0, 12 + n)) {
                Err(e) => Err(e),
                Ok(c) => {
                    if c.ctype == spec_terminator_type() {
                        Ok(seq![c])
                    } else {
                        match spec_parse_chunks(b.subrange(12 + n, b.len() as int)) {
                            Err(e) => Err(e),
                            Ok(rest) => Ok(seq![c] + rest),
                        }
                    }
                },
            }
        }
    }
}

/// The container that a full byte buffer parses to, or how the parse fails.
pub open spec fn spec_parse_png(b: Seq<u8>) -> Result<Seq<ChunkModel>, PngError> {
    if b.len() < 8 || b.subrange(0, 8) != spec_signature() {
        Err(PngError::InvalidSignature)
    } else {
        spec_parse_chunks(b.subrange(8, b.len() as int))
    }
}

/// The index of the first chunk whose type bytes equal `t`, or the sequence's
/// length when no chunk matches.
pub open spec fn first_index_of(cs: Seq<ChunkModel>, t: Seq<u8>) -> int
    decreases cs.len(),
{
    if cs.len() == 0 {
        0
    } else if cs[0].ctype == t {
        0
    } else {
        1 + first_index_of(cs.drop_first(), t)
    }
}

/// What `first_index_of` returns: the first matching index, in bounds, with no
/// match anywhere before it.
pub proof fn lemma_first_index_of(cs: Seq<ChunkModel>, t: Seq<u8>)
    ensures
        0 <= first_index_of(cs, t) <= cs.len(),
        first_index_of(cs, t) < cs.len() ==> cs[first_index_of(cs, t)].ctype == t,
        forall|k: int| 0 <= k < first_index_of(cs, t) ==> cs[k].ctype != t,
    decreases cs.len(),
{
    if cs.len() == 0 {
    } else if cs[0].ctype == t {
    } else {
        lemma_first_index_of(cs.drop_first(), t);
        assert(forall|k: int|
            1 <= k < first_index_of(cs, t) ==> cs[k] == cs.drop_first()[k - 1]);
    }
}

/// A scan that saw no match up to `j`, and a match at `j` if `j` is in bounds,
/// pins `first_index_of` to `j`.
pub proof fn lemma_first_index_of_prefix(cs: Seq<ChunkModel>, t: Seq<u8>, j: int)
    requires
        0 <= j <= cs.len(),
        forall|k: int| 0 <= k < j ==> cs[k].ctype != t,
        j < cs.len() ==> cs[j].ctype == t,
    ensures
        first_index_of(cs, t) == j,
    decreases cs.len(),
{
    if cs.len() == 0 {
    } else if j == 0 {
        if cs.len() > 0 && cs[0].ctype != t {
            lemma_first_index_of(cs, t);
        }
    } else {
        assert(cs[0].ctype != t);
        assert(forall|k: int| 0 <= k < j - 1 ==> cs.drop_first()[k] == cs[k + 1]);
        lemma_first_index_of_prefix(cs.drop_first(), t, j - 1);
    }
}

/// The container's listing text: every chunk's line, one after the other.
pub open spec fn png_text(cs: Seq<ChunkModel>) -> Seq<u8>
    decreases cs.len(),
{
    if cs.len() == 0 {
        Seq::empty()
    } else {
        chunk_text(cs[0]) + png_text(cs.drop_first())
    }
}

/// Rendering one more chunk appends its listing line.
proof fn lemma_png_text_push(cs: Seq<ChunkModel>, c: ChunkModel)
    ensures
        png_text(cs.push(c)) == png_text(cs) + chunk_text(c),
    decreases cs.len(),
{
    if cs.len() == 0 {
        assert(cs.push(c)[0] == c);
        assert(cs.push(c).drop_first() =~= Seq::<ChunkModel>::empty());
        assert(png_text(cs.push(c).drop_first()) == Seq::<u8>::empty());
        assert(png_text(cs.push(c)) == chunk_text(c) + Seq::<u8>::empty());
        assert(png_text(cs) == Seq::<u8>::empty());
        assert(png_text(cs.push(c)) =~= png_text(cs) + chunk_text(c));
    } else {
        assert(cs.push(c)[0] == cs[0]);
        assert(cs.push(c).drop_first() =~= cs.drop_first().push(c));
        lemma_png_text_push(cs.drop_first(), c);
        assert(png_text(cs.push(c)) == chunk_text(cs[0]) + (png_text(cs.drop_first())
            + chunk_text(c)));
        assert(png_text(cs.push(c)) =~= png_text(cs) + chunk_text(c));
    }
}

/// An ordered collection of chunks that serializes behind the fixed signature.
#[derive(Debug)]
pub struct Png {
    chunks: Vec<Chunk>,
}

impl View for Png {
    type V = Seq<ChunkModel>;

    closed spec fn view(&self) -> Seq<ChunkModel> {
        self.chunks.deep_view()
    }
}

/// True when the chunk's type bytes equal the given bytes.
fn type_matches(c: &Chunk, t: &[u8]) -> (r: bool)
    ensures
        r == (c@.ctype == t@),
{
    let cb = c.chunk_type().bytes();
    if t.len() != 4 {
        proof {
            assert(c@.ctype.len() == 4);
        }
        return false;
    }
    let r = cb[0] == t[0] && cb[1] == t[1] && cb[2] == t[2] && cb[3] == t[3];
    proof {
        if r {
            assert(c@.ctype =~= t@);
        } else {
            assert(c@.ctype != t@);
        }
    }
    r
}

impl Png {
    /// Builds a container from an explicit chunk sequence.
    pub fn from_chunks(chunks: Vec<Chunk>) -> (r: Png)
        ensures
            r@ == chunks.deep_view(),
    {
        Png { chunks }
    }

    /// The number of chunks held.
    pub fn chunk_count(&self) -> (r: usize)
        ensures
            r as int == self@.len(),
    {
        self.chunks.len()
    }

    /// Parses a container: the fixed 8-byte signature, then chunks until the
    /// terminator chunk is consumed or the bytes are exhausted.
    pub fn parse(bytes: &[u8]) -> (r: Result<Png, PngError>)
        ensures
            (r is Ok) == (spec_parse_png(bytes@) is Ok),
            r is Ok ==> r->Ok_0@ == spec_parse_png(bytes@)->Ok_0,
            r is Err ==> r->Err_0 == spec_parse_png(bytes@)->Err_0,
    {
        if bytes.len() < 8 {
            return Err(PngError::InvalidSignature);
        }
        let sig_ok = bytes[0] == 137 && bytes[1] == 80 && bytes[2] == 78 && bytes[3] == 71
            && bytes[4] == 13 && bytes[5] == 10 && bytes[6] == 26 && bytes[7] == 10;
        if !sig_ok {
            proof {
                assert(bytes@.subrange(0, 8) != spec_signature());
            }
            return Err(PngError::InvalidSignature);
        }
        proof {
            assert(bytes@.subrange(0, 8) =~= spec_signature());
        }
        let ghost rest0 = bytes@.subrange(8, bytes@.len() as int);
        let mut chunks: Vec<Chunk> = Vec::new();
        let mut i: usize = 8;
        while i < bytes.len()
            invariant
                8 <= i <= bytes@.len(),
                spec_parse_png(bytes@) == spec_parse_chunks(rest0),
                spec_parse_chunks(rest0) == (match spec_parse_chunks(
                    bytes@.subrange(i as int, bytes@.len() as int),
                ) {
                    Ok(cs) => Ok::<Seq<ChunkModel>, PngError>(chunks.deep_view() + cs),
                    Err(e) => Err::<Seq<ChunkModel>, PngError>(e),
                }),
            decreases bytes@.len() - i,
        {
            let ghost tail = bytes@.subrange(i as int, bytes@.len() as int);
            if bytes.len() - i < 12 {
                return Err(PngError::TruncatedInput);
            }
            let n = be32_of(bytes[i], bytes[i + 1], bytes[i + 2], bytes[i + 3]);
            proof {
                assert(tail.subrange(0, 4) =~= seq![
                    bytes@[i as int],
                    bytes@[i as int + 1],
                    bytes@[i as int + 2],
                    bytes@[i as int + 3],
                ]);
            }
            if bytes.len() - i - 12 < n as usize {
                return Err(PngError::TruncatedInput);
            }
            let end = i + 12 + n as usize;
            let piece = slice_subrange(bytes, i, end);
            proof {
                assert(piece@ =~= tail.subrange(0, 12 + n as int));
            }
            match Chunk::parse(piece) {
                Err(e) => {
                    return Err(e);
                },
                Ok(c) => {
                    let term = c.is_terminator();
                    let ghost dv_pre = chunks.deep_view();
                    let ghost cm = c@;
                    chunks.push(c);
                    proof {
                        assert(chunks.deep_view() =~= dv_pre.push(cm));
                    }
                    i = end;
                    proof {
                        let tail2 = bytes@.subrange(i as int, bytes@.len() as int);
                        assert(tail2 =~= tail.subrange(12 + n as int, tail.len() as int));
                    }
                    if term {
                        let r = Png { chunks };
                        return Ok(r);
                    }
                    proof {
                        let tail2 = bytes@.subrange(i as int, bytes@.len() as int);
                        if spec_parse_chunks(tail2) is Ok {
                            assert(chunks.deep_view() + spec_parse_chunks(tail2)->Ok_0 =~= (
                            spec_parse_chunks(rest0))->Ok_0);
                        }
                    }
                },
            }
        }
        proof {
            assert(bytes@.subrange(i as int, bytes@.len() as int) =~= Seq::<u8>::empty());
            assert(chunks.deep_view() + Seq::<ChunkModel>::empty() =~= chunks.deep_view());
        }
        Ok(Png { chunks })
    }

    /// Serializes the container: the signature, then every chunk in order.
    pub fn as_bytes(&self) -> (r: Vec<u8>)
        ensures
            r@ == spec_signature() + chunks_wire(self@),
    {
        let mut out = signature_bytes();
        let mut k: usize = 0;
        while k < self.chunks.len()
            invariant
                k <= self.chunks@.len(),
                self@.len() == self.chunks@.len(),
                out@ == spec_signature() + chunks_wire(self@.subrange(0, k as int)),
            decreases self.chunks@.len() - k,
        {
            let mut cb = self.chunks[k].as_bytes();
            out.append(&mut cb);
            proof {
                assert(self@[k as int] == self.chunks@[k as int]@);
                lemma_chunks_wire_push(self@.subrange(0, k as int), self@[k as int]);
                assert(self@.subrange(0, k as int + 1) =~= self@.subrange(0, k as int).push(
                    self@[k as int],
                ));
            }
            k += 1;
        }
        proof {
            assert(self@.subrange(0, self@.len() as int) =~= self@);
        }
        out
    }

    /// The index of the first chunk whose type bytes equal `t`, or the chunk
    /// count when none matches.
    fn find_index(&self, t: &[u8]) -> (r: usize)
        ensures
            r as int == first_index_of(self@, t@),
    {
        let mut j: usize = 0;
        while j < self.chunks.len()
            invariant
                j <= self.chunks@.len(),
                self@.len() == self.chunks@.len(),
                forall|k: int| 0 <= k < j ==> self@[k].ctype != t@,
            decreases self.chunks@.len() - j,
        {
            if type_matches(&self.chunks[j], t) {
                proof {
                    assert(self@[j as int] == self.chunks@[j as int]@);
                    lemma_first_index_of_prefix(self@, t@, j as int);
                }
                return j;
            }
            proof {
                assert(self@[j as int] == self.chunks@[j as int]@);
            }
            j += 1;
        }
        proof {
            lemma_first_index_of_prefix(self@, t@, j as int);
        }
        j
    }

    /// The first chunk, in stored order, whose type renders as `chunk_type`;
    /// `None` when no chunk has that type.
    pub fn chunk_by_type(&self, chunk_type: &str) -> (r: Option<&Chunk>)
        ensures
            r is Some <==> first_index_of(self@, chunk_type.spec_bytes()) < self@.len(),
            r is Some ==> r->Some_0@ == self@[first_index_of(self@, chunk_type.spec_bytes())],
    {
        let t = chunk_type.as_bytes();
        let j = self.find_index(t);
        if j < self.chunks.len() {
            proof {
                assert(self@[j as int] == self.chunks@[j as int]@);
            }
            Some(&self.chunks[j])
        } else {
            None
        }
    }

    /// Removes and returns the first chunk whose type renders as `chunk_type`;
    /// fails, leaving the container unchanged, when no chunk has that type.
    pub fn remove_chunk(&mut self, chunk_type: &str) -> (r: Result<Chunk, PngError>)
        ensures
            r is Ok <==> first_index_of(old(self)@, chunk_type.spec_bytes()) < old(self)@.len(),
            r is Ok ==> final(self)@ == old(self)@.remove(
                first_index_of(old(self)@, chunk_type.spec_bytes()),
            ),
            r is Ok ==> r->Ok_0@ == old(self)@[first_index_of(
                old(self)@,
                chunk_type.spec_bytes(),
            )],
            r is Err ==> final(self)@ == old(self)@ && r->Err_0 == PngError::ChunkNotFound,
    {
        let t = chunk_type.as_bytes();
        let j = self.find_index(t);
        if j < self.chunks.len() {
            let ghost pre = self@;
            let c = self.chunks.remove(j);
            proof {
                assert(c@ == pre[j as int]);
                assert(self@ =~= pre.remove(j as int));
            }
            Ok(c)
        } else {
            Err(PngError::ChunkNotFound)
        }
    }

    /// The container rendered as text: every chunk's listing line in order.
    pub fn render(&self) -> (r: String)
        ensures
            encode_utf8(r@) == png_text(self@),
    {
        let mut v: Vec<u8> = Vec::new();
        proof {
            assert(v@ =~= png_text(self@.subrange(0, 0)));
        }
        let mut k: usize = 0;
        while k < self.chunks.len()
            invariant
                k <= self.chunks@.len(),
                self@.len() == self.chunks@.len(),
                v@ == png_text(self@.subrange(0, k as int)),
                valid_utf8(v@),
            decreases self.chunks@.len() - k,
        {
            self.chunks[k].push_text(&mut v);
            proof {
                broadcast use vstd::utf8::valid_utf8_concat;

                assert(self@[k as int] == self.chunks@[k as int]@);
                lemma_png_text_push(self@.subrange(0, k as int), self@[k as int]);
                assert(self@.subrange(0, k as int + 1) =~= self@.subrange(0, k as int).push(
                    self@[k as int],
                ));
            }
            k += 1;
        }
        proof {
            assert(self@.subrange(0, self@.len() as int) =~= self@);
        }
        match vec_to_string(v) {
            Some(s) => s,
            None => vstd::pervasive::unreached(),
        }
    }

    /// Inserts the chunk immediately before the first terminator chunk, or at
    /// the end when no terminator is present. Any type may be appended.
    pub fn append_chunk(&mut self, chunk: Chunk)
        ensures
            final(self)@ == old(self)@.insert(
                first_index_of(old(self)@, spec_terminator_type()),
                chunk@,
            ),
    {
        let t: [u8; 4] = [73, 69, 78, 68];
        proof {
            assert(t@ =~= spec_terminator_type());
            lemma_first_index_of(self@, spec_terminator_type());
        }
        let j = self.find_index(t.as_slice());
        let ghost pre = self@;
        self.chunks.insert(j, chunk);
        proof {
            assert(self@ =~= pre.insert(j as int, chunk@));
        }
    }
}

} // verus!
