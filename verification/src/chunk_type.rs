//! The four-byte chunk type tag.
//!
//! Each byte must be an ASCII letter; bit 5 (0x20) of each byte carries a
//! semantic flag (critical, public, reserved validity, safe-to-copy), derived
//! from the stored bytes and never cached.

use vstd::prelude::*;
use vstd::string::StringSliceAdditionalSpecFns;

verus! {

/// A byte is acceptable in a chunk type tag iff it is an ASCII letter.
pub open spec fn is_valid_byte_spec(b: u8) -> bool {
    (65 <= b && b <= 90) || (97 <= b && b <= 122)
}

/// Every byte of the sequence is an ASCII letter.
pub open spec fn all_valid_spec(s: Seq<u8>) -> bool {
    forall|i: int| 0 <= i < s.len() ==> is_valid_byte_spec(s[i])
}

/// Of a four-byte sequence that holds a byte that is not an ASCII letter,
/// the leftmost such byte.
pub open spec fn first_invalid_byte(s: Seq<u8>) -> u8
    recommends
        s.len() == 4,
        !all_valid_spec(s),
{
    if !is_valid_byte_spec(s[0]) {
        s[0]
    } else if !is_valid_byte_spec(s[1]) {
        s[1]
    } else if !is_valid_byte_spec(s[2]) {
        s[2]
    } else {
        s[3]
    }
}

/// An error met while decoding a chunk type from bytes or text.
#[derive(Debug, Clone, Copy, PartialEq, Eq)]
pub enum ChunkTypeDecodeError {
    /// A byte outside the ASCII letter ranges, 65..=90 and 97..=122.
    InvalidByte(u8),
    /// A text tag whose length is not exactly four.
    InvalidLen(usize),
    UnkownError,
}

/// A chunk type is a sequence of four bytes. Each byte must be an ASCII
/// alphabetic character. The case of each character carries a specific meaning.
#[derive(Debug, Clone, Copy, PartialEq, Eq)]
pub struct ChunkType {
    bytes: [u8; 4],
}

impl View for ChunkType {
    type V = Seq<u8>;

    closed spec fn view(&self) -> Seq<u8> {
        self.bytes@
    }
}

impl ChunkType {
    /// The construction invariant: four bytes, each an ASCII letter.
    pub open spec fn wf(&self) -> bool {
        self@.len() == 4 && all_valid_spec(self@)
    }

    /// Converts a byte array into a `ChunkType`.
    ///
    /// This will return an error if any of the bytes is not an ASCII
    /// alphabetic character; the error carries the leftmost offending byte.
    pub fn try_from_bytes(bytes: [u8; 4]) -> (r: Result<ChunkType, ChunkTypeDecodeError>)
        ensures
            r is Ok <==> all_valid_spec(bytes@),
            match r {
                Ok(t) => t@ == bytes@ && t.wf(),
                Err(e) => e == ChunkTypeDecodeError::InvalidByte(first_invalid_byte(bytes@)),
            },
    {
        let mut i: usize = 0;
        while i < 4
            invariant
                i <= 4,
                forall|j: int| 0 <= j < i ==> is_valid_byte_spec(bytes@[j]),
            decreases 4 - i,
        {
            if !ChunkType::is_valid_byte(bytes[i]) {
                return Err(ChunkTypeDecodeError::InvalidByte(bytes[i]));
            }
            i = i + 1;
        }
        Ok(ChunkType { bytes })
    }

    /// Converts a string into a `ChunkType`.
    ///
    /// This will return an error if the string is not exactly four bytes long,
    /// or if any of the bytes is not an ASCII alphabetic character.
    pub fn from_str(s: &str) -> (r: Result<ChunkType, ChunkTypeDecodeError>)
        ensures
            r is Ok <==> s.spec_bytes().len() == 4 && all_valid_spec(s.spec_bytes()),
            match r {
                Ok(t) => t@ == s.spec_bytes() && t.wf(),
                Err(e) => if s.spec_bytes().len() != 4 {
                    e == ChunkTypeDecodeError::InvalidLen(s.spec_bytes().len() as usize)
                } else {
                    e == ChunkTypeDecodeError::InvalidByte(first_invalid_byte(s.spec_bytes()))
                },
            },
    {
        let b = s.as_bytes();
        if b.len() != 4 {
            return Err(ChunkTypeDecodeError::InvalidLen(b.len()));
        }
        let arr: [u8; 4] = [b[0], b[1], b[2], b[3]];
        assert(arr@ =~= s.spec_bytes());
        ChunkType::try_from_bytes(arr)
    }

    /// The underlying tag, read-only.
    pub fn bytes(&self) -> (r: [u8; 4])
        ensures
            r@ == self@,
    {
        self.bytes
    }

    /// Returns whether the chunk type is valid.
    ///
    /// A chunk type is valid if each byte is an ASCII alphabetic character
    /// and the reserved bit is valid.
    pub fn is_valid(&self) -> (r: bool)
        ensures
            r == (all_valid_spec(self@) && self@[2] & 0x20 == 0),
    {
        self.is_reserved_bit_valid() && self.all_valid_bytes()
    }

    /// Returns whether a byte is an ASCII alphabetic character.
    pub fn is_valid_byte(byte: u8) -> (r: bool)
        ensures
            r == is_valid_byte_spec(byte),
    {
        (65 <= byte && byte <= 90) || (97 <= byte && byte <= 122)
    }

    /// Returns whether the semantic bit of a byte is zero.
    ///
    /// The semantic bit is the fifth bit from the right.
    pub fn semantic_bit_is_zero(bit: u8) -> (r: bool)
        ensures
            r == (bit & 0x20 == 0),
    {
        bit & 0x20 == 0
    }

    /// Returns whether all bytes in the chunk type are valid characters.
    pub fn all_valid_bytes(&self) -> (r: bool)
        ensures
            r == all_valid_spec(self@),
    {
        let mut i: usize = 0;
        while i < 4
            invariant
                i <= 4,
                forall|j: int| 0 <= j < i ==> is_valid_byte_spec(self@[j]),
            decreases 4 - i,
        {
            if !ChunkType::is_valid_byte(self.bytes[i]) {
                assert(!is_valid_byte_spec(self@[i as int]));
                return false;
            }
            i = i + 1;
        }
        true
    }

    /// Renders the tag as text: each byte read directly as its ASCII
    /// character, concatenated, preserving original case.
    pub fn to_string(&self) -> (r: String)
        requires
            self.wf(),
        ensures
            r@ == crate::text::chars_of_bytes(self@),
    {
        let mut v: Vec<u8> = Vec::new();
        v.push(self.bytes[0]);
        v.push(self.bytes[1]);
        v.push(self.bytes[2]);
        v.push(self.bytes[3]);
        assert(v@ =~= self@);
        proof {
            assert(forall|i: int| 0 <= i < self@.len() ==> is_valid_byte_spec(#[trigger] self@[i]));
            crate::text::lemma_ascii_bytes_utf8(v@);
        }
        crate::text::string_from_utf8(v).unwrap()
    }

    /// Returns whether the chunk type is critical.
    ///
    /// A chunk type is critical if the case of the first character is uppercase.
    pub fn is_critical(&self) -> (r: bool)
        ensures
            r == (self@[0] & 0x20 == 0),
    {
        Self::semantic_bit_is_zero(self.bytes[0])
    }

    /// Returns whether the chunk type is public.
    ///
    /// A chunk type is public if the case of the second character is uppercase.
    pub fn is_public(&self) -> (r: bool)
        ensures
            r == (self@[1] & 0x20 == 0),
    {
        Self::semantic_bit_is_zero(self.bytes[1])
    }

    /// Returns whether the reserved bit of the chunk type is valid.
    ///
    /// The reserved bit is valid if the case of the third character is uppercase.
    pub fn is_reserved_bit_valid(&self) -> (r: bool)
        ensures
            r == (self@[2] & 0x20 == 0),
    {
        Self::semantic_bit_is_zero(self.bytes[2])
    }

    /// Returns whether the chunk type is safe to copy.
    ///
    /// A chunk type is safe to copy if the case of the fourth character is lowercase.
    pub fn is_safe_to_copy(&self) -> (r: bool)
        ensures
            r == (self@[3] & 0x20 != 0),
    {
        !Self::semantic_bit_is_zero(self.bytes[3])
    }
}

} // verus!
