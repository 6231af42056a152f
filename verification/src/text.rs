//! Text helpers: UTF-8 conversion and decimal rendering of integers.

use vstd::prelude::*;
use vstd::utf8::{
    encode_utf8, is_leading_byte_width_1, partial_valid_utf8, partial_valid_utf8_extend_ascii_block,
    valid_utf8,
};

verus! {

/// Every sequence of ASCII bytes is valid UTF-8.
pub proof fn lemma_ascii_bytes_valid_utf8(s: Seq<u8>)
    requires
        forall|i: int| 0 <= i < s.len() ==> #[trigger] s[i] < 0x80,
    ensures
        valid_utf8(s),
{
    assert(s.subrange(0, 0) =~= Seq::<u8>::empty());
    assert(valid_utf8(Seq::<u8>::empty()));
    assert(partial_valid_utf8(s, 0));
    assert(forall|i: int| 0 <= i < s.len() ==> is_leading_byte_width_1(#[trigger] s[i]));
    partial_valid_utf8_extend_ascii_block(s, 0, s.len() as int);
    assert(s.subrange(0, s.len() as int) =~= s);
}

/// Relies on String::from_utf8: it succeeds exactly on valid UTF-8 input, and
/// the string it returns holds exactly the input bytes.
#[verifier::external_body]
pub(crate) fn vec_to_string(bytes: Vec<u8>) -> (r: Option<String>)
    ensures
        r is Some <==> valid_utf8(bytes@),
        r is Some ==> encode_utf8(r->Some_0@) == bytes@,
{
    String::from_utf8(bytes).ok()
}

/// The decimal rendering of an integer, as ASCII digit bytes.
pub open spec fn dec_bytes(n: nat) -> Seq<u8>
    decreases n,
{
    if n < 10 {
        seq![(48 + n) as u8]
    } else {
        dec_bytes(n / 10).push((48 + n % 10) as u8)
    }
}

/// Decimal renderings consist of ASCII digit bytes only.
pub proof fn lemma_dec_bytes_ascii(n: nat)
    ensures
        forall|i: int| 0 <= i < dec_bytes(n).len() ==> 48 <= #[trigger] dec_bytes(n)[i] <= 57,
    decreases n,
{
    if n >= 10 {
        lemma_dec_bytes_ascii(n / 10);
        assert(dec_bytes(n) == dec_bytes(n / 10).push((48 + n % 10) as u8));
        assert forall|i: int| 0 <= i < dec_bytes(n).len() implies 48 <= #[trigger] dec_bytes(n)[i]
            <= 57 by {
            if i < dec_bytes(n / 10).len() {
                assert(dec_bytes(n)[i] == dec_bytes(n / 10)[i]);
            }
        }
    }
}

/// The decimal renderings of the bytes, separated by a comma and a space.
pub open spec fn byte_list_body(s: Seq<u8>) -> Seq<u8>
    decreases s.len(),
{
    if s.len() == 0 {
        Seq::empty()
    } else if s.len() == 1 {
        dec_bytes(s[0] as nat)
    } else {
        byte_list_body(s.drop_last()) + seq![44u8, 32u8] + dec_bytes(s.last() as nat)
    }
}

/// The rendered list consists of ASCII bytes only.
pub proof fn lemma_byte_list_body_ascii(s: Seq<u8>)
    ensures
        forall|i: int| 0 <= i < byte_list_body(s).len() ==> #[trigger] byte_list_body(s)[i] < 0x80,
    decreases s.len(),
{
    if s.len() == 1 {
        lemma_dec_bytes_ascii(s[0] as nat);
    } else if s.len() > 1 {
        lemma_byte_list_body_ascii(s.drop_last());
        lemma_dec_bytes_ascii(s.last() as nat);
        let pre = byte_list_body(s.drop_last());
        let sep = seq![44u8, 32u8];
        let dig = dec_bytes(s.last() as nat);
        assert forall|i: int| 0 <= i < byte_list_body(s).len() implies #[trigger] byte_list_body(
            s,
        )[i] < 0x80 by {
            if i < pre.len() {
                assert(byte_list_body(s)[i] == pre[i]);
            } else if i < pre.len() + 2 {
                assert(byte_list_body(s)[i] == sep[i - pre.len()]);
            } else {
                assert(byte_list_body(s)[i] == dig[i - pre.len() - 2]);
            }
        }
    }
}

/// Appends the decimal list of the slice's bytes to a byte buffer.
pub fn push_byte_list(out: &mut Vec<u8>, s: &[u8])
    ensures
        final(out)@ == old(out)@ + byte_list_body(s@),
{
    let mut i: usize = 0;
    while i < s.len()
        invariant
            i <= s@.len(),
            out@ == old(out)@ + byte_list_body(s@.subrange(0, i as int)),
        decreases s@.len() - i,
    {
        if i > 0 {
            out.push(44);
            out.push(32);
        }
        push_decimal(out, s[i] as u32);
        proof {
            assert(s@.subrange(0, i as int + 1).drop_last() =~= s@.subrange(0, i as int));
            assert(s@.subrange(0, i as int + 1).last() == s@[i as int]);
            assert(out@ =~= old(out)@ + byte_list_body(s@.subrange(0, i as int + 1)));
        }
        i += 1;
    }
    proof {
        assert(s@.subrange(0, s@.len() as int) =~= s@);
    }
}

/// Appends the decimal rendering of an integer to a byte buffer.
pub fn push_decimal(out: &mut Vec<u8>, n: u32)
    ensures
        final(out)@ == old(out)@ + dec_bytes(n as nat),
    decreases n,
{
    if n < 10 {
        out.push(48 + (n as u8));
        proof {
            assert(out@ =~= old(out)@ + dec_bytes(n as nat));
        }
    } else {
        push_decimal(out, n / 10);
        out.push(48 + ((n % 10) as u8));
        proof {
            assert(out@ =~= old(out)@ + dec_bytes(n as nat));
        }
    }
}

} // verus!
