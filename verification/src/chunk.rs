//! Length-prefixed, checksummed chunk records.
//!
//! A chunk is framed as four big-endian length bytes, four type bytes,
//! `length` data bytes, and four big-endian checksum bytes. The checksum is
//! CRC-32/ISO-HDLC over the type bytes followed by the data bytes.

use vstd::prelude::*;
use vstd::utf8::{decode_utf8, valid_utf8};

use crate::byte_order::{be32, be32_at, be32_bytes, lemma_be32_of_bytes, lemma_bytes_of_be32,
    read_be32, write_be32};
use crate::chunk_type::{all_valid_spec, ChunkType, is_valid_byte_spec};
use crate::text::{chars_of_bytes, string_from_utf8};

verus! {

/// The largest data length a chunk may declare: the top bit of the four-byte
/// length field is reserved, so lengths stop at 2^31 - 1.
pub const MAXIMUM_LENGTH: u32 = 0x7FFF_FFFF;

/// The CRC-32/ISO-HDLC checksum of a byte sequence, as the outside
/// implementation computes it. The checksum depends on the bytes alone.
pub uninterp spec fn crc32_of(bytes: Seq<u8>) -> u32;

/// The mathematical content of a chunk: its declared length, the four type
/// bytes, the data bytes, and the stored checksum.
pub ghost struct ChunkModel {
    pub length: u32,
    pub type_bytes: Seq<u8>,
    pub data: Seq<u8>,
    pub crc: u32,
}

impl ChunkModel {
    /// The chunk invariant: a four-byte ASCII-letter tag, a length field that
    /// equals the data's byte count and stays within the reserved-bit ceiling,
    /// and a checksum that equals the CRC of the type bytes and data bytes.
    pub open spec fn wf(self) -> bool {
        &&& self.type_bytes.len() == 4
        &&& all_valid_spec(self.type_bytes)
        &&& self.length == self.data.len()
        &&& self.data.len() <= MAXIMUM_LENGTH
        &&& self.crc == crc32_of(self.type_bytes + self.data)
    }

    /// The serialized form: big-endian length, type bytes, data bytes,
    /// big-endian checksum.
    pub open spec fn bytes(self) -> Seq<u8> {
        be32_bytes(self.length) + self.type_bytes + self.data + be32_bytes(self.crc)
    }
}

/// The length a chunk starting at `i` in `s` declares in its first four bytes.
pub open spec fn decl_len_at(s: Seq<u8>, i: int) -> u32
    recommends
        0 <= i,
        i + 4 <= s.len(),
{
    be32_at(s, i)
}

/// The four type bytes of a chunk starting at `i` in `s`.
pub open spec fn type_at(s: Seq<u8>, i: int) -> Seq<u8> {
    s.subrange(i + 4, i + 8)
}

/// The data bytes of a chunk starting at `i` in `s`.
pub open spec fn data_at(s: Seq<u8>, i: int) -> Seq<u8> {
    s.subrange(i + 8, i + 8 + decl_len_at(s, i))
}

/// The checksum stored in the trailing four bytes of a chunk starting at `i` in `s`.
pub open spec fn stored_crc_at(s: Seq<u8>, i: int) -> u32 {
    be32_at(s, i + 8 + decl_len_at(s, i))
}

/// The checksum recomputed over the type and data bytes of a chunk starting
/// at `i` in `s`.
pub open spec fn computed_crc_at(s: Seq<u8>, i: int) -> u32 {
    crc32_of(type_at(s, i) + data_at(s, i))
}

/// The byte count of the whole record of a chunk starting at `i` in `s`:
/// three four-byte fields around the data.
pub open spec fn chunk_size_at(s: Seq<u8>, i: int) -> int {
    12 + decl_len_at(s, i)
}

/// A chunk parses successfully at `i` in `s`: every field fits in the buffer,
/// the declared length stays under the ceiling, the type bytes are ASCII
/// letters, and the stored checksum matches the recomputed one.
pub open spec fn parse_ok_at(s: Seq<u8>, i: int) -> bool {
    &&& i + 4 <= s.len()
    &&& decl_len_at(s, i) <= MAXIMUM_LENGTH
    &&& i + 8 <= s.len()
    &&& all_valid_spec(type_at(s, i))
    &&& i + chunk_size_at(s, i) <= s.len()
    &&& stored_crc_at(s, i) == computed_crc_at(s, i)
}

/// The error a failed chunk parse at `i` in `s` reports, following the
/// left-to-right reading order of the fields.
pub open spec fn parse_err_at(s: Seq<u8>, i: int) -> ChunkError
    recommends
        0 <= i <= s.len(),
        !parse_ok_at(s, i),
{
    if i + 4 > s.len() {
        ChunkError::ChunkTooSmall((s.len() - i) as u32)
    } else if decl_len_at(s, i) > MAXIMUM_LENGTH {
        ChunkError::InvalidLengthGT(decl_len_at(s, i))
    } else if i + 8 > s.len() {
        ChunkError::ChunkTooSmall((s.len() - i) as u32)
    } else if !all_valid_spec(type_at(s, i)) {
        ChunkError::InvalidChunkType
    } else if i + chunk_size_at(s, i) > s.len() {
        ChunkError::ChunkTooSmall((s.len() - i) as u32)
    } else {
        ChunkError::InvalidCrc(computed_crc_at(s, i), stored_crc_at(s, i))
    }
}

/// The model of the chunk parsed at `i` in `s`, assuming the parse succeeds.
pub open spec fn parsed_model_at(s: Seq<u8>, i: int) -> ChunkModel
    recommends
        parse_ok_at(s, i),
{
    ChunkModel {
        length: decl_len_at(s, i),
        type_bytes: type_at(s, i),
        data: data_at(s, i),
        crc: stored_crc_at(s, i),
    }
}

/// The placeholder text shown for a payload that is not valid UTF-8.
pub open spec fn placeholder_chars() -> Seq<char> {
    seq!['[', 'd', 'a', 't', 'a', ']']
}

/// The human-readable rendering of a chunk: its type text, a tab, and the
/// payload as text or the placeholder.
pub open spec fn render_spec(m: ChunkModel) -> Seq<char> {
    chars_of_bytes(m.type_bytes) + seq!['\t'] + (if valid_utf8(m.data) {
        decode_utf8(m.data)
    } else {
        placeholder_chars()
    })
}

/// An error met while parsing a chunk from bytes.
#[derive(Debug, Clone, Copy, PartialEq, Eq)]
pub enum ChunkError {
    /// The declared length exceeds the 2^31 - 1 ceiling.
    InvalidLengthGT(u32),
    /// The observed data length disagrees with the declared length field.
    InvalidLengthCmp(u32, u32),
    /// Fewer bytes remain than a field requires; carries the count that remained.
    ChunkTooSmall(u32),
    /// A type byte outside the ASCII letter ranges.
    InvalidChunkType,
    /// The recomputed checksum (first) disagrees with the stored one (second).
    InvalidCrc(u32, u32),
}

/// A chunk rejected for a reason given as text.
#[derive(Debug)]
pub struct InvalidChunkError(String);

impl InvalidChunkError {
    /// The rejection reason's text.
    pub closed spec fn reason_spec(&self) -> Seq<char> {
        self.0@
    }

    /// Boxes a rejection reason as an error value.
    pub fn boxed(reason: String) -> (r: Box<InvalidChunkError>)
        ensures
            (*r).reason_spec() == reason@,
    {
        Box::new(InvalidChunkError(reason))
    }

    /// The rejection reason.
    pub fn reason(&self) -> (r: &String)
        ensures
            r@ == self.reason_spec(),
    {
        &self.0
    }
}

/// A parsed or freshly built chunk record.
#[derive(Debug, Clone)]
pub struct Chunk {
    length: u32,
    chunk_type: ChunkType,
    chunk_data: Vec<u8>,
    crc: u32,
}

impl View for Chunk {
    type V = ChunkModel;

    closed spec fn view(&self) -> ChunkModel {
        ChunkModel {
            length: self.length,
            type_bytes: self.chunk_type@,
            data: self.chunk_data@,
            crc: self.crc,
        }
    }
}

impl Chunk {
    /// The chunk invariant, stated of the model.
    pub open spec fn wf(&self) -> bool {
        self@.wf()
    }

    /// Relies on `crc::Crc::<u32>::checksum` with the `CRC_32_ISO_HDLC`
    /// algorithm: a table-driven computation whose result depends on the
    /// input bytes alone.
    #[verifier::external_body]
    pub fn gen_u32_crc(bytes: &[u8]) -> (r: u32)
        ensures
            r == crc32_of(bytes@),
    {
        crc::Crc::<u32>::new(&crc::CRC_32_ISO_HDLC).checksum(bytes)
    }

    /// Builds a chunk from a type tag and a data buffer; the length field is
    /// set to the data's byte count and the checksum is computed over the
    /// type bytes followed by the data bytes.
    pub fn new(chunk_type: ChunkType, chunk_data: Vec<u8>) -> (c: Chunk)
        requires
            chunk_type.wf(),
            chunk_data@.len() <= MAXIMUM_LENGTH,
        ensures
            c@ == (ChunkModel {
                length: chunk_data@.len() as u32,
                type_bytes: chunk_type@,
                data: chunk_data@,
                crc: crc32_of(chunk_type@ + chunk_data@),
            }),
            c.wf(),
    {
        let crc = {
            let t = chunk_type.bytes();
            let mut td: Vec<u8> = Vec::new();
            td.push(t[0]);
            td.push(t[1]);
            td.push(t[2]);
            td.push(t[3]);
            td.extend_from_slice(chunk_data.as_slice());
            assert(td@ =~= chunk_type@ + chunk_data@);
            Chunk::gen_u32_crc(td.as_slice())
        };
        Chunk { length: chunk_data.len() as u32, chunk_type, chunk_data, crc }
    }

    /// Assembles a chunk from already-validated fields; callers must supply
    /// fields that satisfy the chunk invariant.
    pub fn new_with_all_fields(
        length: u32,
        chunk_type: ChunkType,
        chunk_data: Vec<u8>,
        crc: u32,
    ) -> (c: Chunk)
        requires
            chunk_type.wf(),
            length == chunk_data@.len(),
            chunk_data@.len() <= MAXIMUM_LENGTH,
            crc == crc32_of(chunk_type@ + chunk_data@),
        ensures
            c@ == (ChunkModel { length, type_bytes: chunk_type@, data: chunk_data@, crc }),
            c.wf(),
    {
        Chunk { length, chunk_type, chunk_data, crc }
    }

    /// The declared length: the byte count of the data alone, not of the
    /// whole record.
    pub fn length(&self) -> (r: u32)
        ensures
            r == self@.length,
    {
        self.length
    }

    /// The chunk's type tag.
    pub fn chunk_type(&self) -> (r: &ChunkType)
        ensures
            r@ == self@.type_bytes,
    {
        &self.chunk_type
    }

    /// The data bytes.
    pub fn data(&self) -> (r: &[u8])
        ensures
            r@ == self@.data,
    {
        self.chunk_data.as_slice()
    }

    /// The stored checksum.
    pub fn crc(&self) -> (r: u32)
        ensures
            r == self@.crc,
    {
        self.crc
    }

    /// Parses one chunk record from `bytes`, beginning at `start` and reading
    /// the fields left to right: four length bytes, four type bytes,
    /// `length` data bytes, four checksum bytes. On success returns the chunk
    /// and the offset just past it; trailing bytes are left unread.
    pub fn parse_at(bytes: &[u8], start: usize) -> (r: Result<(Chunk, usize), ChunkError>)
        requires
            start <= bytes@.len(),
        ensures
            r is Ok <==> parse_ok_at(bytes@, start as int),
            match r {
                Ok(p) => {
                    &&& p.0@ == parsed_model_at(bytes@, start as int)
                    &&& p.0.wf()
                    &&& p.1 == start + chunk_size_at(bytes@, start as int)
                    &&& start < p.1 <= bytes@.len()
                },
                Err(e) => e == parse_err_at(bytes@, start as int),
            },
    {
        let n = bytes.len();
        if n - start < 4 {
            return Err(ChunkError::ChunkTooSmall((n - start) as u32));
        }
        let length = read_be32(bytes[start], bytes[start + 1], bytes[start + 2], bytes[start + 3]);
        if length > MAXIMUM_LENGTH {
            return Err(ChunkError::InvalidLengthGT(length));
        }
        if n - start < 8 {
            return Err(ChunkError::ChunkTooSmall((n - start) as u32));
        }
        let t: [u8; 4] = [bytes[start + 4], bytes[start + 5], bytes[start + 6], bytes[start + 7]];
        assert(t@ =~= type_at(bytes@, start as int));
        let chunk_type = match ChunkType::try_from_bytes(t) {
            Ok(ct) => ct,
            Err(_) => {
                return Err(ChunkError::InvalidChunkType);
            },
        };
        let len_us = length as usize;
        if n - (start + 8) < len_us + 4 {
            return Err(ChunkError::ChunkTooSmall((n - start) as u32));
        }
        let mut chunk_data: Vec<u8> = Vec::new();
        let mut j: usize = 0;
        while j < len_us
            invariant
                j <= len_us,
                n == bytes@.len(),
                start + 12 + len_us <= n,
                len_us == decl_len_at(bytes@, start as int),
                chunk_data@ == bytes@.subrange(start + 8, start + 8 + j),
            decreases len_us - j,
        {
            chunk_data.push(bytes[start + 8 + j]);
            assert(chunk_data@ =~= bytes@.subrange(start + 8, start + 8 + (j + 1)));
            j = j + 1;
        }
        // Redundant with the exact reads above, but preserved as an explicit
        // invariant check on the observed data length.
        if chunk_data.len() != len_us {
            return Err(ChunkError::InvalidLengthCmp(chunk_data.len() as u32, length));
        }
        let p = start + 8 + len_us;
        let stored_crc = read_be32(bytes[p], bytes[p + 1], bytes[p + 2], bytes[p + 3]);
        let real_crc = {
            let tb = chunk_type.bytes();
            let mut td: Vec<u8> = Vec::new();
            td.push(tb[0]);
            td.push(tb[1]);
            td.push(tb[2]);
            td.push(tb[3]);
            td.extend_from_slice(chunk_data.as_slice());
            assert(td@ =~= type_at(bytes@, start as int) + data_at(bytes@, start as int));
            Chunk::gen_u32_crc(td.as_slice())
        };
        if stored_crc != real_crc {
            return Err(ChunkError::InvalidCrc(real_crc, stored_crc));
        }
        Ok((Chunk::new_with_all_fields(length, chunk_type, chunk_data, stored_crc), p + 4))
    }

    /// Parses one chunk record from the front of `bytes`; bytes past the
    /// record are ignored.
    pub fn try_from_bytes(bytes: &[u8]) -> (r: Result<Chunk, ChunkError>)
        ensures
            r is Ok <==> parse_ok_at(bytes@, 0),
            match r {
                Ok(c) => c@ == parsed_model_at(bytes@, 0) && c.wf(),
                Err(e) => e == parse_err_at(bytes@, 0),
            },
    {
        match Chunk::parse_at(bytes, 0) {
            Ok(p) => Ok(p.0),
            Err(e) => Err(e),
        }
    }

    /// Attempts a UTF-8 decode of the data; yields nothing when the data is
    /// not valid text, which callers treat as recoverable.
    pub fn data_as_string(&self) -> (r: Option<String>)
        ensures
            r is Some <==> valid_utf8(self@.data),
            match r {
                Some(s) => s@ == decode_utf8(self@.data),
                None => !valid_utf8(self@.data),
            },
    {
        string_from_utf8(self.chunk_data.clone())
    }

    /// Serializes the chunk: big-endian length, type bytes, data bytes,
    /// big-endian checksum. The exact inverse of parsing.
    pub fn as_bytes(&self) -> (r: Vec<u8>)
        ensures
            r@ == self@.bytes(),
    {
        let mut out: Vec<u8> = Vec::new();
        write_be32(self.length, &mut out);
        let tb = self.chunk_type.bytes();
        out.push(tb[0]);
        out.push(tb[1]);
        out.push(tb[2]);
        out.push(tb[3]);
        out.extend_from_slice(self.chunk_data.as_slice());
        write_be32(self.crc, &mut out);
        assert(out@ =~= self@.bytes());
        out
    }

    /// Renders the chunk for human display: type text, a tab, and the payload
    /// as text, or a placeholder when the payload is not valid UTF-8.
    pub fn to_string(&self) -> (r: String)
        requires
            self@.type_bytes.len() == 4,
            all_valid_spec(self@.type_bytes),
        ensures
            r@ == render_spec(self@),
    {
        let mut s = self.chunk_type.to_string();
        proof {
            reveal_strlit("\t");
        }
        s.append("\t");
        assert(("\t")@ =~= seq!['\t']);
        match self.data_as_string() {
            Some(d) => {
                s.append(d.as_str());
            },
            None => {
                proof {
                    reveal_strlit("[data]");
                }
                s.append("[data]");
                assert(("[data]")@ =~= placeholder_chars());
            },
        }
        s
    }
}

/// Round trip, stated where a chunk's serialized bytes lie embedded in a
/// larger stream: at that position the parse succeeds and yields the chunk
/// back — same type, data, length, and checksum.
pub proof fn lemma_chunk_bytes_parse(s: Seq<u8>, i: int, m: ChunkModel)
    requires
        m.wf(),
        0 <= i,
        i + m.bytes().len() <= s.len(),
        s.subrange(i, i + m.bytes().len()) == m.bytes(),
    ensures
        parse_ok_at(s, i),
        parsed_model_at(s, i) == m,
        chunk_size_at(s, i) == m.bytes().len(),
{
    let mb = m.bytes();
    let len = m.length as int;
    assert(mb.len() == 12 + len);
    assert forall|k: int| 0 <= k < mb.len() implies s[i + k] == mb[k] by {
        assert(s.subrange(i, i + mb.len())[k] == s[i + k]);
    }
    let lb = be32_bytes(m.length);
    assert(mb[0] == lb[0] && mb[1] == lb[1] && mb[2] == lb[2] && mb[3] == lb[3]);
    lemma_be32_of_bytes(m.length);
    assert(decl_len_at(s, i) == be32(lb[0], lb[1], lb[2], lb[3]));
    assert(decl_len_at(s, i) == m.length);
    assert(type_at(s, i) =~= m.type_bytes) by {
        assert(forall|k: int| 0 <= k < 4 ==> mb[4 + k] == m.type_bytes[k]);
    }
    assert(data_at(s, i) =~= m.data) by {
        assert(forall|k: int| 0 <= k < len ==> mb[8 + k] == m.data[k]);
    }
    let cb = be32_bytes(m.crc);
    assert(mb[8 + len] == cb[0] && mb[9 + len] == cb[1] && mb[10 + len] == cb[2] && mb[11 + len]
        == cb[3]);
    lemma_be32_of_bytes(m.crc);
    assert(stored_crc_at(s, i) == be32(cb[0], cb[1], cb[2], cb[3]));
    assert(stored_crc_at(s, i) == m.crc);
    assert(computed_crc_at(s, i) == crc32_of(m.type_bytes + m.data));
}

/// Round trip: a well-formed chunk's serialized bytes parse back to the same
/// chunk — same type, data, length, and checksum.
pub proof fn lemma_chunk_round_trip(m: ChunkModel)
    requires
        m.wf(),
    ensures
        parse_ok_at(m.bytes(), 0),
        parsed_model_at(m.bytes(), 0) == m,
        chunk_size_at(m.bytes(), 0) == m.bytes().len(),
{
    assert(m.bytes().subrange(0, m.bytes().len() as int) =~= m.bytes());
    lemma_chunk_bytes_parse(m.bytes(), 0, m);
}

/// Tampering with the stored checksum alone is always caught: a chunk that
/// parses successfully no longer parses once any of its trailing checksum
/// bytes change and every other byte stays the same.
pub proof fn lemma_crc_field_tamper_detected(s: Seq<u8>, s2: Seq<u8>, i: int)
    requires
        0 <= i,
        parse_ok_at(s, i),
        s2.len() == s.len(),
        forall|q: int|
            0 <= q < s.len() && !(i + 8 + decl_len_at(s, i) <= q < i + chunk_size_at(s, i))
                ==> s[q] == s2[q],
        stored_crc_at(s2, i) != stored_crc_at(s, i),
    ensures
        !parse_ok_at(s2, i),
        parse_err_at(s2, i) == ChunkError::InvalidCrc(computed_crc_at(s, i), stored_crc_at(s2, i)),
{
    assert(decl_len_at(s2, i) == decl_len_at(s, i));
    assert(type_at(s2, i) =~= type_at(s, i));
    assert(data_at(s2, i) =~= data_at(s, i));
    assert(computed_crc_at(s2, i) == computed_crc_at(s, i));
    assert(stored_crc_at(s, i) == computed_crc_at(s, i));
}

/// The other direction of the round trip: a successful parse consumes exactly
/// the bytes that the parsed chunk serializes back to.
pub proof fn lemma_parse_then_serialize(s: Seq<u8>, i: int)
    requires
        0 <= i,
        parse_ok_at(s, i),
    ensures
        parsed_model_at(s, i).bytes() =~= s.subrange(i, i + chunk_size_at(s, i)),
{
    let m = parsed_model_at(s, i);
    let len = m.length as int;
    lemma_bytes_of_be32(s[i], s[i + 1], s[i + 2], s[i + 3]);
    let q = i + 8 + len;
    lemma_bytes_of_be32(s[q], s[q + 1], s[q + 2], s[q + 3]);
    assert(be32_bytes(m.length) =~= seq![s[i], s[i + 1], s[i + 2], s[i + 3]]);
    assert(be32_bytes(m.crc) =~= seq![s[q], s[q + 1], s[q + 2], s[q + 3]]);
}

} // verus!
