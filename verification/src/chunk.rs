//! A length-prefixed, typed, checksummed chunk: the unit of the container.

use crate::chunk_type::{is_type_letter, valid_type_bytes, ChunkType};
use crate::error::PngError;
use crate::text::{
    byte_list_body, dec_bytes, lemma_ascii_bytes_valid_utf8, lemma_byte_list_body_ascii,
    lemma_dec_bytes_ascii, push_byte_list, push_decimal, vec_to_string,
};
use crate::wire::{be32, be32_of, be_bytes, push_be32, push_bytes, spec_terminator_type};
use vstd::prelude::*;
use vstd::slice::{slice_subrange, slice_to_vec};
use vstd::utf8::{encode_utf8, valid_utf8};

verus! {

/// The checksum that the outside CRC-32 routine computes for a byte sequence.
pub uninterp spec fn crc32_of(bytes: Seq<u8>) -> u32;

/// Relies on crc::Crc::<u32>::checksum with the CRC_32_ISO_HDLC algorithm of
/// crc-catalog: the checksum is a pure function of the input bytes.
#[verifier::external_body]
fn crc32_checksum(bytes: &[u8]) -> (r: u32)
    ensures
        r == crc32_of(bytes@),
{
    crc::Crc::<u32>::new(&crc::CRC_32_ISO_HDLC).checksum(bytes)
}

/// The mathematical model of a chunk: type bytes, data bytes, stored checksum.
#[verifier::ext_equal]
pub ghost struct ChunkModel {
    pub ctype: Seq<u8>,
    pub data: Seq<u8>,
    pub crc: u32,
}

/// A model the wire format can carry: letter type bytes, a data length that
/// fits the 4-byte length field, and a checksum that matches type and data.
pub open spec fn wf_chunk_model(c: ChunkModel) -> bool {
    &&& valid_type_bytes(c.ctype)
    &&& c.data.len() <= u32::MAX
    &&& c.crc == crc32_of(c.ctype + c.data)
}

/// A chunk as laid out on the wire: `length | type | data | crc`.
pub open spec fn chunk_wire(c: ChunkModel) -> Seq<u8> {
    be_bytes(c.data.len() as u32) + c.ctype + c.data + be_bytes(c.crc)
}

/// The chunk that an exact byte slice parses to, or how the parse fails.
pub open spec fn spec_parse_chunk(b: Seq<u8>) -> Result<ChunkModel, PngError> {
    if b.len() < 12 {
        Err(PngError::TruncatedInput)
    } else {
        let n = be32(b.subrange(0, 4)) as int;
        if b.len() != 12 + n {
            Err(PngError::TruncatedInput)
        } else if !valid_type_bytes(b.subrange(4, 8)) {
            Err(PngError::InvalidChunkType)
        } else if be32(b.subrange(b.len() - 4, b.len() as int)) != crc32_of(
            b.subrange(4, b.len() - 4),
        ) {
            Err(PngError::ChecksumMismatch)
        } else {
            Ok(
                ChunkModel {
                    ctype: b.subrange(4, 8),
                    data: b.subrange(8, b.len() - 4),
                    crc: be32(b.subrange(b.len() - 4, b.len() as int)),
                },
            )
        }
    }
}

/// A typed, checksummed unit of data, owning its data buffer outright.
#[derive(Debug)]
pub struct Chunk {
    length: u32,
    chunk_type: ChunkType,
    data: Vec<u8>,
    crc: u32,
}

impl View for Chunk {
    type V = ChunkModel;

    closed spec fn view(&self) -> ChunkModel {
        ChunkModel { ctype: self.chunk_type@, data: self.data@, crc: self.crc }
    }
}

impl DeepView for Chunk {
    type V = ChunkModel;

    open spec fn deep_view(&self) -> ChunkModel {
        self.view()
    }
}

impl Chunk {
    /// The length field counts the data bytes, and the stored checksum is the
    /// checksum of the type bytes followed by the data bytes.
    #[verifier::type_invariant]
    spec fn inv(self) -> bool {
        &&& self.length == self.data@.len()
        &&& self.crc == crc32_of(self.chunk_type@ + self.data@)
    }

    /// The checksum of a chunk, computed over the 4 type bytes followed by the
    /// data bytes; the length and checksum fields are never included.
    pub fn calculate_crc(chunk_type: &ChunkType, data: &[u8]) -> (r: u32)
        ensures
            r == crc32_of(chunk_type@ + data@),
    {
        let tb = chunk_type.bytes();
        let mut buf: Vec<u8> = Vec::new();
        buf.push(tb[0]);
        buf.push(tb[1]);
        buf.push(tb[2]);
        buf.push(tb[3]);
        push_bytes(&mut buf, data);
        proof {
            assert(buf@ =~= chunk_type@ + data@);
        }
        crc32_checksum(buf.as_slice())
    }

    /// Builds a chunk from a type and a data buffer, computing the checksum fresh.
    pub fn new(chunk_type: ChunkType, data: Vec<u8>) -> (r: Chunk)
        requires
            data@.len() <= u32::MAX,
        ensures
            r@ == (ChunkModel {
                ctype: chunk_type@,
                data: data@,
                crc: crc32_of(chunk_type@ + data@),
            }),
    {
        let crc = Chunk::calculate_crc(&chunk_type, data.as_slice());
        Chunk { length: data.len() as u32, chunk_type, data, crc }
    }

    /// Parses a chunk from an exact byte slice laid out as
    /// `length(4) | type(4) | data(length) | crc(4)`.
    pub fn parse(bytes: &[u8]) -> (r: Result<Chunk, PngError>)
        ensures
            (r is Ok) == (spec_parse_chunk(bytes@) is Ok),
            r is Ok ==> r->Ok_0@ == spec_parse_chunk(bytes@)->Ok_0,
            r is Err ==> r->Err_0 == spec_parse_chunk(bytes@)->Err_0,
    {
        if bytes.len() < 12 {
            return Err(PngError::TruncatedInput);
        }
        let n = be32_of(bytes[0], bytes[1], bytes[2], bytes[3]);
        proof {
            assert(seq![bytes@[0], bytes@[1], bytes@[2], bytes@[3]] =~= bytes@.subrange(0, 4));
        }
        if n as usize != bytes.len() - 12 {
            return Err(PngError::TruncatedInput);
        }
        let t: [u8; 4] = [bytes[4], bytes[5], bytes[6], bytes[7]];
        proof {
            assert(t@ =~= bytes@.subrange(4, 8));
        }
        if !(is_letter_byte(t[0]) && is_letter_byte(t[1]) && is_letter_byte(t[2]) && is_letter_byte(
            t[3],
        )) {
            return Err(PngError::InvalidChunkType);
        }
        assert(valid_type_bytes(t@));
        let chunk_type = ChunkType::from_letter_bytes(t);
        let data = slice_to_vec(slice_subrange(bytes, 8, bytes.len() - 4));
        let stored = be32_of(
            bytes[bytes.len() - 4],
            bytes[bytes.len() - 3],
            bytes[bytes.len() - 2],
            bytes[bytes.len() - 1],
        );
        proof {
            assert(seq![
                bytes@[bytes@.len() - 4],
                bytes@[bytes@.len() - 3],
                bytes@[bytes@.len() - 2],
                bytes@[bytes@.len() - 1],
            ] =~= bytes@.subrange(bytes@.len() - 4, bytes@.len() as int));
        }
        let computed = Chunk::calculate_crc(&chunk_type, data.as_slice());
        proof {
            assert(chunk_type@ + data@ =~= bytes@.subrange(4, bytes@.len() - 4));
        }
        if stored != computed {
            return Err(PngError::ChecksumMismatch);
        }
        let c = Chunk { length: n, chunk_type, data, crc: stored };
        proof {
            assert(c@ =~= spec_parse_chunk(bytes@)->Ok_0);
        }
        Ok(c)
    }

    /// The number of data bytes.
    pub fn length(&self) -> (r: u32)
        ensures
            r as int == self@.data.len(),
    {
        proof {
            use_type_invariant(self);
        }
        self.length
    }

    /// The chunk's type code.
    pub fn chunk_type(&self) -> (r: &ChunkType)
        ensures
            r@ == self@.ctype,
    {
        &self.chunk_type
    }

    /// The chunk's data bytes.
    pub fn data(&self) -> (r: &[u8])
        ensures
            r@ == self@.data,
    {
        self.data.as_slice()
    }

    /// The stored checksum.
    pub fn crc(&self) -> (r: u32)
        ensures
            r == self@.crc,
    {
        self.crc
    }

    /// The data bytes as text; fails when they are not valid UTF-8.
    pub fn data_as_string(&self) -> (r: Result<String, PngError>)
        ensures
            r is Ok <==> valid_utf8(self@.data),
            r is Ok ==> encode_utf8(r->Ok_0@) == self@.data,
            r is Err ==> r->Err_0 == PngError::InvalidEncoding,
    {
        let copy = slice_to_vec(self.data.as_slice());
        match vec_to_string(copy) {
            Some(s) => Ok(s),
            None => Err(PngError::InvalidEncoding),
        }
    }

    /// Serializes the chunk in wire order: `length | type | data | crc`.
    pub fn as_bytes(&self) -> (r: Vec<u8>)
        ensures
            r@ == chunk_wire(self@),
    {
        proof {
            use_type_invariant(self);
        }
        let mut out: Vec<u8> = Vec::new();
        push_be32(&mut out, self.length);
        let tb = self.chunk_type.bytes();
        out.push(tb[0]);
        out.push(tb[1]);
        out.push(tb[2]);
        out.push(tb[3]);
        push_bytes(&mut out, self.data.as_slice());
        push_be32(&mut out, self.crc);
        proof {
            assert(out@ =~= chunk_wire(self@));
        }
        out
    }

    /// Appends the chunk's one-line listing to a text buffer; the line is
    /// valid UTF-8.
    pub(crate) fn push_text(&self, out: &mut Vec<u8>)
        ensures
            final(out)@ == old(out)@ + chunk_text(self@),
            valid_utf8(chunk_text(self@)),
    {
        proof {
            use_type_invariant(self);
            use_type_invariant(&self.chunk_type);
        }
        push_bytes(out, "Chunk Length: ".as_bytes());
        push_decimal(out, self.length);
        push_bytes(out, ", Chunk Type: ".as_bytes());
        let tb = self.chunk_type.bytes();
        out.push(tb[0]);
        out.push(tb[1]);
        out.push(tb[2]);
        out.push(tb[3]);
        push_bytes(out, ", Chunk Data: [".as_bytes());
        push_byte_list(out, self.data.as_slice());
        push_bytes(out, "], Crc: ".as_bytes());
        push_decimal(out, self.crc);
        push_bytes(out, "\n".as_bytes());
        proof {
            assert(out@ =~= old(out)@ + chunk_text(self@));
            lemma_dec_bytes_ascii(self@.data.len() as nat);
            lemma_ascii_bytes_valid_utf8(dec_bytes(self@.data.len() as nat));
            lemma_byte_list_body_ascii(self@.data);
            lemma_ascii_bytes_valid_utf8(byte_list_body(self@.data));
            lemma_dec_bytes_ascii(self@.crc as nat);
            lemma_ascii_bytes_valid_utf8(dec_bytes(self@.crc as nat));
            let l1 = encode_utf8("Chunk Length: "@);
            let d1 = dec_bytes(self@.data.len() as nat);
            let l2 = encode_utf8(", Chunk Type: "@);
            let t = self@.ctype;
            let l3 = encode_utf8(", Chunk Data: ["@);
            let bl = byte_list_body(self@.data);
            let l4 = encode_utf8("], Crc: "@);
            let d2 = dec_bytes(self@.crc as nat);
            let l5 = encode_utf8("\n"@);
            vstd::utf8::encode_utf8_valid_utf8("Chunk Length: "@);
            vstd::utf8::encode_utf8_valid_utf8(", Chunk Type: "@);
            vstd::utf8::encode_utf8_valid_utf8(", Chunk Data: ["@);
            vstd::utf8::encode_utf8_valid_utf8("], Crc: "@);
            vstd::utf8::encode_utf8_valid_utf8("\n"@);
            vstd::utf8::valid_utf8_concat(l1, d1);
            vstd::utf8::valid_utf8_concat(l1 + d1, l2);
            vstd::utf8::valid_utf8_concat(l1 + d1 + l2, t);
            vstd::utf8::valid_utf8_concat(l1 + d1 + l2 + t, l3);
            vstd::utf8::valid_utf8_concat(l1 + d1 + l2 + t + l3, bl);
            vstd::utf8::valid_utf8_concat(l1 + d1 + l2 + t + l3 + bl, l4);
            vstd::utf8::valid_utf8_concat(l1 + d1 + l2 + t + l3 + bl + l4, d2);
            vstd::utf8::valid_utf8_concat(l1 + d1 + l2 + t + l3 + bl + l4 + d2, l5);
            assert(valid_utf8(chunk_text(self@)));
        }
    }

    /// The chunk's one-line listing as text.
    pub fn render(&self) -> (r: String)
        ensures
            encode_utf8(r@) == chunk_text(self@),
    {
        let mut v: Vec<u8> = Vec::new();
        self.push_text(&mut v);
        proof {
            assert(v@ =~= chunk_text(self@));
        }
        match vec_to_string(v) {
            Some(s) => s,
            None => vstd::pervasive::unreached(),
        }
    }

    /// True when this chunk's type is the terminator type.
    pub fn is_terminator(&self) -> (r: bool)
        ensures
            r == (self@.ctype == spec_terminator_type()),
    {
        let tb = self.chunk_type.bytes();
        let r = tb[0] == 73 && tb[1] == 69 && tb[2] == 78 && tb[3] == 68;
        proof {
            if r {
                assert(self@.ctype =~= spec_terminator_type());
            } else {
                assert(self@.ctype != spec_terminator_type());
            }
        }
        r
    }
}

/// A chunk's one-line listing, as the bytes of its text: length, type, data
/// bytes in decimal, and checksum.
pub open spec fn chunk_text(c: ChunkModel) -> Seq<u8> {
    encode_utf8("Chunk Length: "@) + dec_bytes(c.data.len() as nat) + encode_utf8(
        ", Chunk Type: "@,
    ) + c.ctype + encode_utf8(", Chunk Data: ["@) + byte_list_body(c.data) + encode_utf8(
        "], Crc: "@,
    ) + dec_bytes(c.crc as nat) + encode_utf8("\n"@)
}

/// True when the byte is an ASCII letter.
fn is_letter_byte(b: u8) -> (r: bool)
    ensures
        r == is_type_letter(b),
{
    (65 <= b && b <= 90) || (97 <= b && b <= 122)
}

} // verus!
