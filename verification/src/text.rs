//! Text helpers: UTF-8 decoding of byte payloads into strings, and the
//! character reading of ASCII byte sequences such as chunk type tags.

use vstd::prelude::*;
use vstd::utf8::{
    codepoint_width_1, decode_utf8, is_leading_byte_width_1, leading_bits_width_1,
    length_of_first_scalar, pop_first_scalar, valid_first_scalar, valid_utf8,
};

verus! {

/// The characters that a sequence of ASCII bytes spells, byte for byte.
pub open spec fn chars_of_bytes(s: Seq<u8>) -> Seq<char>
    recommends
        forall|i: int| 0 <= i < s.len() ==> s[i] < 0x80,
{
    Seq::new(s.len(), |i: int| s[i] as char)
}

/// A sequence of bytes below 0x80 is valid UTF-8 and decodes byte for byte.
pub proof fn lemma_ascii_bytes_utf8(s: Seq<u8>)
    requires
        forall|i: int| 0 <= i < s.len() ==> s[i] < 0x80,
    ensures
        valid_utf8(s),
        decode_utf8(s) =~= chars_of_bytes(s),
    decreases s.len(),
{
    if s.len() != 0 {
        assert(is_leading_byte_width_1(s[0]));
        assert(length_of_first_scalar(s) == 1);
        assert(valid_first_scalar(s));
        let rest = pop_first_scalar(s);
        assert(rest =~= s.drop_first());
        lemma_ascii_bytes_utf8(rest);
        let b: u8 = s[0];
        assert(b & 0x7F == b) by (bit_vector)
            requires
                b < 0x80,
        ;
        assert(codepoint_width_1(s[0]) == s[0] as u32);
        assert(decode_utf8(s) =~= seq![s[0] as u32 as char] + decode_utf8(rest));
    }
}

/// Relies on `String::from_utf8`: it succeeds exactly on valid UTF-8 input,
/// and the resulting string holds the decoded characters of those bytes.
#[verifier::external_body]
pub fn string_from_utf8(bytes: Vec<u8>) -> (r: Option<String>)
    ensures
        r is Some <==> valid_utf8(bytes@),
        match r {
            Some(s) => s@ == decode_utf8(bytes@),
            None => !valid_utf8(bytes@),
        },
{
    match String::from_utf8(bytes) {
        Ok(s) => Some(s),
        Err(_) => None,
    }
}

} // verus!
