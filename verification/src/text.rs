//! Decoding consumed byte ranges as text.
//!
//! The identifier readers only ever hand over runs of ASCII bytes, for
//! which decoding is the identity on byte values; the quoted-literal
//! reader may see arbitrary bytes and checks them against UTF-8.

use vstd::prelude::*;
use vstd::utf8::{
    decode_utf8, is_leading_byte_width_1, pop_first_scalar, valid_first_scalar, valid_utf8,
};

verus! {

/// The characters denoted by a sequence of ASCII bytes, one per byte.
pub open spec fn ascii_chars(bytes: Seq<u8>) -> Seq<char> {
    bytes.map_values(|b: u8| b as char)
}

/// ASCII bytes form valid UTF-8 and decode to themselves, byte for byte.
pub proof fn lemma_ascii_utf8(bytes: Seq<u8>)
    requires
        forall|k: int| 0 <= k < bytes.len() ==> #[trigger] bytes[k] < 0x80,
    ensures
        valid_utf8(bytes),
        decode_utf8(bytes) == ascii_chars(bytes),
    decreases bytes.len(),
{
    if bytes.len() == 0 {
        assert(decode_utf8(bytes) =~= ascii_chars(bytes));
    } else {
        let b0 = bytes[0];
        assert(b0 & 0x7f == b0) by (bit_vector)
            requires
                b0 < 0x80,
        ;
        assert(is_leading_byte_width_1(b0));
        assert(valid_first_scalar(bytes));
        assert(pop_first_scalar(bytes) =~= bytes.drop_first());
        assert forall|k: int| 0 <= k < bytes.drop_first().len() implies #[trigger] bytes.drop_first()[k]
            < 0x80 by {
            assert(bytes.drop_first()[k] == bytes[k + 1]);
        }
        lemma_ascii_utf8(bytes.drop_first());
        assert(decode_utf8(bytes) =~= ascii_chars(bytes));
    }
}

/// Relies on `core::str::from_utf8`: it succeeds exactly on valid UTF-8
/// input, and then returns the text those bytes encode.
#[verifier::external_body]
pub(crate) fn utf8_to_str(bytes: &[u8]) -> (r: Option<&str>)
    ensures
        r is Some <==> valid_utf8(bytes@),
        r matches Some(s) ==> s@ == decode_utf8(bytes@),
{
    core::str::from_utf8(bytes).ok()
}

} // verus!
