//! The 4-byte chunk type code and its property bits.

use crate::text::{lemma_ascii_bytes_valid_utf8, vec_to_string};
use vstd::prelude::*;
use vstd::string::StringSliceAdditionalSpecFns;
use vstd::utf8::{encode_utf8, valid_utf8};

verus! {

/// Failure kinds when building a chunk type.
#[derive(Debug, Clone, Copy, PartialEq, Eq, Structural)]
pub enum ParseChunkTypeError {
    /// The text is not exactly 4 bytes long.
    InvalidFormat,
    /// A byte of the text is not an ASCII letter.
    InvalidCharacter,
    /// The 4 raw bytes are not valid UTF-8 text.
    InvalidEncoding,
}

/// True of the bytes a chunk type read from text may hold: ASCII letters.
pub open spec fn is_type_letter(b: u8) -> bool {
    (65 <= b && b <= 90) || (97 <= b && b <= 122)
}

impl ParseChunkTypeError {
    /// A short human-readable name for the error kind.
    pub fn describe(&self) -> (r: &'static str)
        ensures
            r@ == match self {
                ParseChunkTypeError::InvalidFormat => "chunk type text must be 4 bytes"@,
                ParseChunkTypeError::InvalidCharacter => "chunk type bytes must be ASCII letters"@,
                ParseChunkTypeError::InvalidEncoding => "chunk type bytes must be valid text"@,
            },
    {
        match self {
            ParseChunkTypeError::InvalidFormat => "chunk type text must be 4 bytes",
            ParseChunkTypeError::InvalidCharacter => "chunk type bytes must be ASCII letters",
            ParseChunkTypeError::InvalidEncoding => "chunk type bytes must be valid text",
        }
    }
}

/// The constraint `ChunkType::from_str` gates on: 4 bytes, all ASCII letters.
pub open spec fn valid_type_bytes(s: Seq<u8>) -> bool {
    s.len() == 4 && (forall|i: int| 0 <= i < 4 ==> is_type_letter(#[trigger] s[i]))
}

/// Bit 5 of the first byte clear: the chunk is critical.
pub open spec fn spec_is_critical(s: Seq<u8>) -> bool {
    s[0] & 0x20 == 0
}

/// Bit 5 of the second byte clear: the chunk is public.
pub open spec fn spec_is_public(s: Seq<u8>) -> bool {
    s[1] & 0x20 == 0
}

/// Bit 5 of the third byte clear: the reserved bit is valid.
pub open spec fn spec_is_reserved_bit_valid(s: Seq<u8>) -> bool {
    s[2] & 0x20 == 0
}

/// Bit 5 of the fourth byte set: the chunk is safe to copy.
pub open spec fn spec_is_safe_to_copy(s: Seq<u8>) -> bool {
    s[3] & 0x20 != 0
}

/// A 4-byte chunk type code.
///
/// `from_str` enforces that every byte is an ASCII letter; `from_bytes` only
/// enforces that the 4 bytes are valid UTF-8 text. The asymmetry is kept
/// deliberately: syntactically improper type codes stay constructible from raw
/// bytes, and only the reserved-bit property reports them as improper.
#[derive(Debug, Clone, Copy, PartialEq, Eq)]
pub struct ChunkType {
    bytes: [u8; 4],
}

impl View for ChunkType {
    type V = Seq<u8>;

    closed spec fn view(&self) -> Seq<u8> {
        self.bytes@
    }
}

impl ChunkType {
    /// Every chunk type holds 4 bytes of valid UTF-8 text.
    #[verifier::type_invariant]
    pub(crate) open spec fn inv(self) -> bool {
        valid_utf8(self@)
    }

    /// Parses a chunk type from text: exactly 4 bytes, all ASCII letters.
    pub fn from_str(s: &str) -> (r: Result<ChunkType, ParseChunkTypeError>)
        ensures
            r is Ok <==> valid_type_bytes(s.spec_bytes()),
            r is Ok ==> r->Ok_0@ == s.spec_bytes(),
            s.spec_bytes().len() != 4 ==> r == Err::<ChunkType, ParseChunkTypeError>(
                ParseChunkTypeError::InvalidFormat,
            ),
            s.spec_bytes().len() == 4 && !valid_type_bytes(s.spec_bytes()) ==> r == Err::<
                ChunkType,
                ParseChunkTypeError,
            >(ParseChunkTypeError::InvalidCharacter),
    {
        let b = s.as_bytes();
        if b.len() != 4 {
            return Err(ParseChunkTypeError::InvalidFormat);
        }
        let arr: [u8; 4] = [b[0], b[1], b[2], b[3]];
        proof {
            assert(arr@ =~= s.spec_bytes());
        }
        let mut i: usize = 0;
        while i < 4
            invariant
                i <= 4,
                arr@ =~= s.spec_bytes(),
                forall|j: int| 0 <= j < i ==> is_type_letter(#[trigger] arr@[j]),
            decreases 4 - i,
        {
            let v = arr[i];
            if !((65 <= v && v <= 90) || (97 <= v && v <= 122)) {
                return Err(ParseChunkTypeError::InvalidCharacter);
            }
            i += 1;
        }
        proof {
            lemma_ascii_bytes_valid_utf8(arr@);
        }
        Ok(ChunkType { bytes: arr })
    }

    /// Builds a chunk type from 4 raw bytes; they need only be valid UTF-8 text.
    pub fn from_bytes(bytes: [u8; 4]) -> (r: Result<ChunkType, ParseChunkTypeError>)
        ensures
            r is Ok <==> valid_utf8(bytes@),
            r is Ok ==> r->Ok_0@ == bytes@,
            r is Err ==> r == Err::<ChunkType, ParseChunkTypeError>(
                ParseChunkTypeError::InvalidEncoding,
            ),
    {
        if utf8_check4(&bytes) {
            Ok(ChunkType { bytes })
        } else {
            Err(ParseChunkTypeError::InvalidEncoding)
        }
    }

    /// Builds a chunk type whose bytes are already known to be ASCII letters.
    pub(crate) fn from_letter_bytes(bytes: [u8; 4]) -> (r: ChunkType)
        requires
            valid_type_bytes(bytes@),
        ensures
            r@ == bytes@,
    {
        proof {
            lemma_ascii_bytes_valid_utf8(bytes@);
        }
        ChunkType { bytes }
    }

    /// The underlying 4 bytes.
    pub fn bytes(&self) -> (r: [u8; 4])
        ensures
            r@ == self@,
    {
        self.bytes
    }

    /// The 4 bytes rendered as text.
    pub fn to_text(&self) -> (r: String)
        ensures
            encode_utf8(r@) == self@,
    {
        proof {
            use_type_invariant(self);
        }
        let mut v: Vec<u8> = Vec::new();
        v.push(self.bytes[0]);
        v.push(self.bytes[1]);
        v.push(self.bytes[2]);
        v.push(self.bytes[3]);
        proof {
            assert(v@ =~= self@);
        }
        match vec_to_string(v) {
            Some(s) => s,
            None => vstd::pervasive::unreached(),
        }
    }

    /// True when the type is well formed: 4 bytes and the reserved bit is valid.
    pub fn is_valid(&self) -> (r: bool)
        ensures
            r == (self@.len() == 4 && spec_is_reserved_bit_valid(self@)),
    {
        self.is_reserved_bit_valid()
    }

    /// True when bit 5 of the first byte is clear.
    pub fn is_critical(&self) -> (r: bool)
        ensures
            r == spec_is_critical(self@),
    {
        self.bytes[0] & 0x20 == 0
    }

    /// True when bit 5 of the second byte is clear.
    pub fn is_public(&self) -> (r: bool)
        ensures
            r == spec_is_public(self@),
    {
        self.bytes[1] & 0x20 == 0
    }

    /// True when bit 5 of the third byte is clear.
    pub fn is_reserved_bit_valid(&self) -> (r: bool)
        ensures
            r == spec_is_reserved_bit_valid(self@),
    {
        self.bytes[2] & 0x20 == 0
    }

    /// True when bit 5 of the fourth byte is set.
    pub fn is_safe_to_copy(&self) -> (r: bool)
        ensures
            r == spec_is_safe_to_copy(self@),
    {
        self.bytes[3] & 0x20 != 0
    }
}

/// Relies on core::str::from_utf8: it returns Ok exactly when the bytes are
/// valid UTF-8.
#[verifier::external_body]
fn utf8_check4(b: &[u8; 4]) -> (r: bool)
    ensures
        r == valid_utf8(b@),
{
    core::str::from_utf8(b).is_ok()
}

} // verus!
