//! The container: an ordered sequence of chunks behind a fixed eight-byte
//! signature. Parsing validates the signature and then reads chunks until the
//! buffer is exhausted; serialization is the exact inverse.

use vstd::prelude::*;
use vstd::string::StrSliceExecFns;

use crate::chunk::{Chunk, ChunkError, ChunkModel, chunk_size_at, lemma_chunk_bytes_parse,
    lemma_parse_then_serialize, parse_err_at, parse_ok_at, parsed_model_at};
use crate::chunk_type::{ChunkTypeDecodeError, is_valid_byte_spec};

verus! {

broadcast use vstd::string::group_string_axioms;

/// The fixed eight-byte signature that opens every container.
pub open spec fn signature_spec() -> Seq<u8> {
    seq![0x89u8, 0x50u8, 0x4Eu8, 0x47u8, 0x0Du8, 0x0Au8, 0x1Au8, 0x0Au8]
}

/// Chunks parse successfully from `i` to the end of `s`, back to back.
pub open spec fn parse_chunks_ok(s: Seq<u8>, i: int) -> bool
    recommends
        0 <= i <= s.len(),
    decreases s.len() - i,
    when 0 <= i <= s.len()
{
    if i == s.len() {
        true
    } else if parse_ok_at(s, i) {
        parse_chunks_ok(s, i + chunk_size_at(s, i))
    } else {
        false
    }
}

/// The ordered chunk models parsed from `i` to the end of `s`.
pub open spec fn parse_chunks_models(s: Seq<u8>, i: int) -> Seq<ChunkModel>
    recommends
        0 <= i <= s.len(),
        parse_chunks_ok(s, i),
    decreases s.len() - i,
    when 0 <= i <= s.len()
{
    if i == s.len() {
        Seq::empty()
    } else if parse_ok_at(s, i) {
        seq![parsed_model_at(s, i)] + parse_chunks_models(s, i + chunk_size_at(s, i))
    } else {
        Seq::empty()
    }
}

/// The error of the first chunk that fails to parse, reading from `i`.
pub open spec fn parse_chunks_err(s: Seq<u8>, i: int) -> ChunkError
    recommends
        0 <= i <= s.len(),
        !parse_chunks_ok(s, i),
    decreases s.len() - i,
    when 0 <= i <= s.len()
{
    if !parse_ok_at(s, i) {
        parse_err_at(s, i)
    } else if i == s.len() {
        parse_err_at(s, i)
    } else {
        parse_chunks_err(s, i + chunk_size_at(s, i))
    }
}

/// The concatenated serialized form of a sequence of chunks.
pub open spec fn chunks_bytes(ms: Seq<ChunkModel>) -> Seq<u8>
    decreases ms.len(),
{
    if ms.len() == 0 {
        Seq::empty()
    } else {
        ms[0].bytes() + chunks_bytes(ms.drop_first())
    }
}

/// The serialized form of a whole container: signature, then each chunk.
pub open spec fn png_bytes(ms: Seq<ChunkModel>) -> Seq<u8> {
    signature_spec() + chunks_bytes(ms)
}

/// Appending a chunk appends its bytes.
pub proof fn lemma_chunks_bytes_push(ms: Seq<ChunkModel>, m: ChunkModel)
    ensures
        chunks_bytes(ms.push(m)) =~= chunks_bytes(ms) + m.bytes(),
    decreases ms.len(),
{
    if ms.len() == 0 {
        assert(ms.push(m).drop_first() =~= Seq::<ChunkModel>::empty());
        assert(chunks_bytes(Seq::<ChunkModel>::empty()) =~= Seq::<u8>::empty());
        assert(ms.push(m)[0] == m);
        assert(chunks_bytes(ms.push(m)) =~= m.bytes());
        assert(chunks_bytes(ms) =~= Seq::<u8>::empty());
    } else {
        assert(ms.push(m)[0] == ms[0]);
        assert(ms.push(m).drop_first() =~= ms.drop_first().push(m));
        lemma_chunks_bytes_push(ms.drop_first(), m);
        assert(chunks_bytes(ms.push(m)) =~= ms[0].bytes() + (chunks_bytes(ms.drop_first())
            + m.bytes()));
        assert(chunks_bytes(ms) == ms[0].bytes() + chunks_bytes(ms.drop_first()));
    }
}

/// Parsing then serializing is the identity on the bytes: the models parsed
/// from `i` serialize back to exactly the bytes from `i` to the end.
pub proof fn lemma_parse_chunks_serialize(s: Seq<u8>, i: int)
    requires
        0 <= i <= s.len(),
        parse_chunks_ok(s, i),
    ensures
        chunks_bytes(parse_chunks_models(s, i)) =~= s.subrange(i, s.len() as int),
    decreases s.len() - i,
{
    if i == s.len() {
        assert(s.subrange(i, s.len() as int) =~= Seq::<u8>::empty());
    } else {
        let size = chunk_size_at(s, i);
        lemma_parse_then_serialize(s, i);
        lemma_parse_chunks_serialize(s, i + size);
        let ms = parse_chunks_models(s, i);
        assert(ms.drop_first() =~= parse_chunks_models(s, i + size));
        assert(ms[0] == parsed_model_at(s, i));
        assert(chunks_bytes(ms) == ms[0].bytes() + chunks_bytes(ms.drop_first()));
        assert(chunks_bytes(ms) =~= s.subrange(i, i + size) + s.subrange(i + size, s.len() as int));
    }
}

/// The text `t` names the tag `ty`: four characters, each the direct ASCII
/// reading of the corresponding tag byte.
pub open spec fn type_text_matches(t: Seq<char>, ty: Seq<u8>) -> bool {
    &&& t.len() == 4
    &&& ty.len() == 4
    &&& forall|j: int| 0 <= j < 4 ==> t[j] == #[trigger] ty[j] as char
}

/// The position of the first chunk, in sequence order, whose tag renders to
/// `t`; nothing when no chunk's tag does.
pub open spec fn first_match(ms: Seq<ChunkModel>, t: Seq<char>) -> Option<int>
    decreases ms.len(),
{
    if ms.len() == 0 {
        None
    } else if type_text_matches(t, ms[0].type_bytes) {
        Some(0int)
    } else {
        match first_match(ms.drop_first(), t) {
            Some(k) => Some(k + 1),
            None => None,
        }
    }
}

/// Lookup determinism: when `first_match` finds a position, the chunk there
/// matches and no earlier chunk does; when it finds nothing, no chunk matches.
pub proof fn lemma_first_match(ms: Seq<ChunkModel>, t: Seq<char>)
    ensures
        match first_match(ms, t) {
            Some(k) => 0 <= k < ms.len() && type_text_matches(t, ms[k].type_bytes) && (forall|
                j: int,
            | 0 <= j < k ==> !type_text_matches(t, ms[j].type_bytes)),
            None => forall|j: int| 0 <= j < ms.len() ==> !type_text_matches(t, ms[j].type_bytes),
        },
    decreases ms.len(),
{
    if ms.len() != 0 && !type_text_matches(t, ms[0].type_bytes) {
        lemma_first_match(ms.drop_first(), t);
        assert(forall|j: int| 0 <= j < ms.drop_first().len() ==> ms.drop_first()[j] == ms[j + 1]);
        match first_match(ms.drop_first(), t) {
            Some(k) => {
                assert(first_match(ms, t) == Some(k + 1));
                assert(ms[k + 1] == ms.drop_first()[k]);
                assert forall|j: int| 0 <= j < k + 1 implies !type_text_matches(
                    t,
                    ms[j].type_bytes,
                ) by {
                    if j > 0 {
                        assert(ms[j] == ms.drop_first()[j - 1]);
                    }
                }
            },
            None => {
                assert forall|j: int| 0 <= j < ms.len() implies !type_text_matches(
                    t,
                    ms[j].type_bytes,
                ) by {
                    if j > 0 {
                        assert(ms[j] == ms.drop_first()[j - 1]);
                    }
                }
            },
        }
    }
}

/// The serialized bytes of a chunk sequence, laid down from `i` to the end of
/// `s`, parse back to exactly that sequence.
#[verifier::rlimit(50)]
pub proof fn lemma_chunks_seq_parse(s: Seq<u8>, i: int, ms: Seq<ChunkModel>)
    requires
        0 <= i <= s.len(),
        s.subrange(i, s.len() as int) == chunks_bytes(ms),
        forall|k: int| 0 <= k < ms.len() ==> (#[trigger] ms[k]).wf(),
    ensures
        parse_chunks_ok(s, i),
        parse_chunks_models(s, i) =~= ms,
    decreases ms.len(),
{
    let tail = s.subrange(i, s.len() as int);
    assert(tail.len() == s.len() - i);
    if ms.len() == 0 {
        assert(chunks_bytes(ms).len() == 0);
        assert(i == s.len());
    } else {
        let m = ms[0];
        let mb = m.bytes();
        let rest = chunks_bytes(ms.drop_first());
        assert(chunks_bytes(ms) == mb + rest);
        assert(i + mb.len() <= s.len());
        assert(s.subrange(i, i + mb.len()) =~= mb) by {
            assert forall|q: int| 0 <= q < mb.len() implies s[i + q] == mb[q] by {
                assert(tail[q] == s[i + q]);
                assert((mb + rest)[q] == mb[q]);
            }
        }
        lemma_chunk_bytes_parse(s, i, m);
        let next = i + chunk_size_at(s, i);
        assert(next == i + mb.len());
        assert(s.subrange(next, s.len() as int) =~= rest) by {
            assert forall|q: int| 0 <= q < s.len() - next implies s[next + q] == rest[q] by {
                assert(tail[mb.len() + q] == s[i + (mb.len() + q)]);
                assert((mb + rest)[mb.len() + q] == rest[q]);
            }
        }
        lemma_chunks_seq_parse(s, next, ms.drop_first());
        assert(parse_chunks_models(s, i) == seq![parsed_model_at(s, i)] + parse_chunks_models(
            s,
            next,
        ));
    }
}

/// Round trip: serializing a container of well-formed chunks and parsing the
/// resulting bytes yields a container with the same ordered chunk sequence.
pub proof fn lemma_png_round_trip(ms: Seq<ChunkModel>)
    requires
        forall|k: int| 0 <= k < ms.len() ==> (#[trigger] ms[k]).wf(),
    ensures
        png_bytes(ms).len() >= 8,
        png_bytes(ms).subrange(0, 8) =~= signature_spec(),
        parse_chunks_ok(png_bytes(ms), 8),
        parse_chunks_models(png_bytes(ms), 8) =~= ms,
{
    let s = png_bytes(ms);
    assert(s.subrange(0, 8) =~= signature_spec());
    assert(s.subrange(8, s.len() as int) =~= chunks_bytes(ms));
    lemma_chunks_seq_parse(s, 8, ms);
}

/// Order preservation: appending chunks `a`, `b`, `c` and then removing the
/// first chunk of `b`'s type — no other appended chunk sharing it — leaves
/// the original chunks, then `a`, then `c`, in order.
pub proof fn lemma_append_remove_order(
    ms: Seq<ChunkModel>,
    a: ChunkModel,
    b: ChunkModel,
    c: ChunkModel,
    t: Seq<char>,
)
    requires
        forall|j: int| 0 <= j < ms.len() ==> !type_text_matches(t, (#[trigger] ms[j]).type_bytes),
        !type_text_matches(t, a.type_bytes),
        type_text_matches(t, b.type_bytes),
        !type_text_matches(t, c.type_bytes),
    ensures
        first_match(ms.push(a).push(b).push(c), t) == Some(ms.len() + 1int),
        ms.push(a).push(b).push(c).remove(ms.len() + 1int) =~= ms.push(a).push(c),
{
    let s3 = ms.push(a).push(b).push(c);
    assert(s3[ms.len() as int] == a);
    assert(s3[ms.len() + 1int] == b);
    lemma_first_match(s3, t);
    match first_match(s3, t) {
        Some(k) => {
            if k < ms.len() + 1int {
                assert(type_text_matches(t, s3[k].type_bytes));
                if k < ms.len() {
                    assert(s3[k] == ms[k]);
                }
                assert(false);
            } else if k > ms.len() + 1int {
                assert(!type_text_matches(t, s3[ms.len() + 1int].type_bytes));
                assert(false);
            }
        },
        None => {
            assert(!type_text_matches(t, s3[ms.len() + 1int].type_bytes));
            assert(false);
        },
    }
}

/// An error met while parsing or editing a container.
#[derive(Debug, Clone, PartialEq, Eq)]
pub enum PngError {
    /// The leading eight bytes are not the signature.
    InvalidSignature,
    /// A chunk type tag could not be decoded from text.
    ChunkType(ChunkTypeDecodeError),
    /// A chunk failed to parse; the whole parse aborts.
    Chunk(ChunkError),
    /// No chunk of the requested type exists; carries the requested text.
    ChunkNotFound(String),
}

/// An ordered sequence of chunks behind the fixed signature.
#[derive(Debug)]
pub struct Png {
    chunks: Vec<Chunk>,
}

impl View for Png {
    type V = Seq<ChunkModel>;

    closed spec fn view(&self) -> Seq<ChunkModel> {
        self.chunks@.map(|k: int, c: Chunk| c@)
    }
}

impl Png {
    /// Every chunk of the container satisfies the chunk invariant.
    pub open spec fn wf(&self) -> bool {
        forall|k: int| 0 <= k < self@.len() ==> (#[trigger] self@[k]).wf()
    }

    /// An empty container: just the signature, no chunks.
    pub fn new() -> (p: Png)
        ensures
            p@ =~= Seq::<ChunkModel>::empty(),
            p.wf(),
    {
        Png { chunks: Vec::new() }
    }

    /// A container holding the given chunks in order.
    pub fn from_chunks(chunks: Vec<Chunk>) -> (p: Png)
        requires
            forall|k: int| 0 <= k < chunks@.len() ==> (#[trigger] chunks@[k])@.wf(),
        ensures
            p@.len() == chunks@.len(),
            forall|k: int| 0 <= k < chunks@.len() ==> p@[k] == (#[trigger] chunks@[k])@,
            p.wf(),
    {
        Png { chunks }
    }

    /// Adds a chunk at the end; insertion order is preserved and significant.
    pub fn append_chunk(&mut self, chunk: Chunk)
        requires
            chunk.wf(),
        ensures
            final(self)@ =~= old(self)@.push(chunk@),
            old(self).wf() ==> final(self).wf(),
    {
        self.chunks.push(chunk);
        assert(final(self)@ =~= old(self)@.push(chunk@));
    }

    /// Parses a container: the first eight bytes must equal the signature
    /// exactly, and the rest must parse as chunks until the buffer is
    /// exhausted. Any chunk failure aborts the whole parse. On success, the
    /// parsed container serializes back to exactly the input bytes.
    pub fn try_from_bytes(bytes: &[u8]) -> (r: Result<Png, PngError>)
        ensures
            r is Ok <==> (bytes@.len() >= 8 && bytes@.subrange(0, 8) == signature_spec()
                && parse_chunks_ok(bytes@, 8)),
            match r {
                Ok(p) => {
                    &&& p@ == parse_chunks_models(bytes@, 8)
                    &&& p.wf()
                    &&& png_bytes(p@) == bytes@
                },
                Err(e) => if bytes@.len() < 8 || bytes@.subrange(0, 8) != signature_spec() {
                    e == PngError::InvalidSignature
                } else {
                    e == PngError::Chunk(parse_chunks_err(bytes@, 8))
                },
            },
    {
        let n = bytes.len();
        if n < 8 {
            return Err(PngError::InvalidSignature);
        }
        if bytes[0] != 0x89 || bytes[1] != 0x50 || bytes[2] != 0x4E || bytes[3] != 0x47 || bytes[4]
            != 0x0D || bytes[5] != 0x0A || bytes[6] != 0x1A || bytes[7] != 0x0A {
            assert(bytes@.subrange(0, 8) != signature_spec()) by {
                assert(forall|j: int| 0 <= j < 8 ==> bytes@.subrange(0, 8)[j] == bytes@[j]);
            }
            return Err(PngError::InvalidSignature);
        }
        assert(bytes@.subrange(0, 8) =~= signature_spec());
        let ghost s = bytes@;
        let mut chunks: Vec<Chunk> = Vec::new();
        let mut i: usize = 8;
        while i < n
            invariant
                8 <= i <= n,
                n == s.len(),
                s == bytes@,
                s.subrange(0, 8) == signature_spec(),
                parse_chunks_ok(s, 8) <==> parse_chunks_ok(s, i as int),
                parse_chunks_ok(s, i as int) ==> parse_chunks_models(s, 8) == chunks@.map(
                    |k: int, c: Chunk| c@,
                ) + parse_chunks_models(s, i as int),
                !parse_chunks_ok(s, i as int) ==> parse_chunks_err(s, 8) == parse_chunks_err(
                    s,
                    i as int,
                ),
                forall|k: int| 0 <= k < chunks@.len() ==> (#[trigger] chunks@[k]).wf(),
            decreases n - i,
        {
            match Chunk::parse_at(bytes, i) {
                Ok(p) => {
                    let (c, next) = p;
                    proof {
                        assert(parse_chunks_ok(s, i as int) == parse_chunks_ok(s, next as int));
                        if parse_chunks_ok(s, next as int) {
                            assert(parse_chunks_models(s, i as int) == seq![parsed_model_at(
                                s,
                                i as int,
                            )] + parse_chunks_models(s, next as int));
                            assert(chunks@.push(c).map(|k: int, cc: Chunk| cc@) =~= chunks@.map(
                                |k: int, cc: Chunk| cc@,
                            ).push(c@));
                            assert(chunks@.map(|k: int, cc: Chunk| cc@).push(c@)
                                + parse_chunks_models(s, next as int) =~= chunks@.map(
                                |k: int, cc: Chunk| cc@,
                            ) + (seq![c@] + parse_chunks_models(s, next as int)));
                        } else {
                            assert(parse_chunks_err(s, i as int) == parse_chunks_err(
                                s,
                                next as int,
                            ));
                        }
                    }
                    chunks.push(c);
                    i = next;
                },
                Err(e) => {
                    proof {
                        assert(!parse_chunks_ok(s, i as int));
                        assert(parse_chunks_err(s, i as int) == parse_err_at(s, i as int));
                    }
                    return Err(PngError::Chunk(e));
                },
            }
        }
        assert(parse_chunks_ok(s, i as int));
        assert(parse_chunks_models(s, i as int) =~= Seq::<ChunkModel>::empty());
        let p = Png { chunks };
        proof {
            assert(p@ =~= parse_chunks_models(s, 8));
            lemma_parse_chunks_serialize(s, 8);
            assert(png_bytes(p@) =~= s.subrange(0, 8) + s.subrange(8, s.len() as int));
            assert(s.subrange(0, 8) + s.subrange(8, s.len() as int) =~= s);
        }
        Ok(p)
    }

    /// Serializes the container: the signature, then each chunk's bytes,
    /// concatenated in sequence order. Never mutates.
    pub fn as_bytes(&self) -> (r: Vec<u8>)
        ensures
            r@ == png_bytes(self@),
    {
        let mut out: Vec<u8> = Vec::new();
        out.push(0x89);
        out.push(0x50);
        out.push(0x4E);
        out.push(0x47);
        out.push(0x0D);
        out.push(0x0A);
        out.push(0x1A);
        out.push(0x0A);
        assert(out@ =~= signature_spec());
        assert(self@.take(0) =~= Seq::<ChunkModel>::empty());
        let mut k: usize = 0;
        let n = self.chunks.len();
        while k < n
            invariant
                k <= n,
                n == self.chunks@.len(),
                self@.len() == n,
                self@ == self.chunks@.map(|j: int, c: Chunk| c@),
                out@ == signature_spec() + chunks_bytes(self@.take(k as int)),
            decreases n - k,
        {
            let cb = self.chunks[k].as_bytes();
            out.extend_from_slice(cb.as_slice());
            proof {
                lemma_chunks_bytes_push(self@.take(k as int), self@[k as int]);
                assert(self@.take(k as int).push(self@[k as int]) =~= self@.take(k + 1));
                assert(out@ =~= signature_spec() + chunks_bytes(self@.take(k + 1)));
            }
            k = k + 1;
        }
        assert(self@.take(n as int) =~= self@);
        out
    }

    /// Finds the position of the first chunk, in sequence order, whose tag
    /// renders to `chunk_type`.
    fn find_chunk_index(&self, chunk_type: &str) -> (r: Option<usize>)
        requires
            self.wf(),
        ensures
            match r {
                Some(k) => k < self@.len() && first_match(self@, chunk_type@) == Some(k as int),
                None => first_match(self@, chunk_type@) is None,
            },
    {
        let t = chunk_type;
        if !t.is_ascii() || t.unicode_len() != 4 {
            proof {
                assert forall|j: int| 0 <= j < self@.len() implies !type_text_matches(
                    t@,
                    self@[j].type_bytes,
                ) by {
                    if type_text_matches(t@, self@[j].type_bytes) {
                        assert(self@[j].wf());
                        let ty = self@[j].type_bytes;
                        assert forall|q: int| 0 <= q < t@.len() implies '\0' <= #[trigger] t@[q]
                            <= '\u{7f}' by {
                            assert(t@[q] == ty[q] as char);
                            assert(is_valid_byte_spec(ty[q]));
                        }
                        assert(vstd::string::is_ascii(t));
                    }
                }
                lemma_first_match(self@, t@);
            }
            return None;
        }
        let tb = t.as_bytes();
        proof {
            vstd::string::is_ascii_spec_bytes(t);
        }
        assert(tb@.len() == 4);
        assert(forall|q: int| 0 <= q < 4 ==> tb@[q] == #[trigger] t@[q] as u8);
        let ghost tv = t@;
        let ghost tbv = tb@;
        let mut k: usize = 0;
        let n = self.chunks.len();
        while k < n
            invariant
                k <= n,
                n == self.chunks@.len(),
                self@.len() == n,
                self@ == self.chunks@.map(|j: int, c: Chunk| c@),
                self.wf(),
                tv == chunk_type@,
                tv.len() == 4,
                tbv.len() == 4,
                forall|q: int| 0 <= q < 4 ==> '\0' <= #[trigger] tv[q] <= '\u{7f}',
                forall|q: int| 0 <= q < 4 ==> tbv[q] == #[trigger] tv[q] as u8,
                tbv == tb@,
                forall|j: int| 0 <= j < k ==> !type_text_matches(tv, self@[j].type_bytes),
            decreases n - k,
        {
            let cb = self.chunks[k].chunk_type().bytes();
            let ghost ty = self@[k as int].type_bytes;
            assert(cb@ == ty);
            if cb[0] == tb[0] && cb[1] == tb[1] && cb[2] == tb[2] && cb[3] == tb[3] {
                proof {
                    assert forall|q: int| 0 <= q < 4 implies tv[q] == #[trigger] ty[q] as char by {
                        assert(tbv[q] == ty[q]);
                        assert(tv[q] as u8 == ty[q]);
                        assert(tv[q] <= '\u{7f}');
                        assert(tv[q] as char == ty[q] as char);
                    }
                    assert(type_text_matches(tv, ty));
                    lemma_first_match(self@, tv);
                    match first_match(self@, tv) {
                        Some(kk) => {
                            if kk < k as int {
                                assert(!type_text_matches(tv, self@[kk].type_bytes));
                                assert(false);
                            } else if kk > k as int {
                                assert(!type_text_matches(tv, self@[k as int].type_bytes));
                                assert(false);
                            }
                        },
                        None => {
                            assert(!type_text_matches(tv, self@[k as int].type_bytes));
                            assert(false);
                        },
                    }
                }
                return Some(k);
            }
            proof {
                assert(self@[k as int].wf());
                if type_text_matches(tv, ty) {
                    assert forall|q: int| 0 <= q < 4 implies tbv[q] == ty[q] by {
                        assert(tv[q] == ty[q] as char);
                        assert(is_valid_byte_spec(ty[q]));
                        assert(tv[q] as u8 == ty[q]);
                    }
                    assert(false);
                }
            }
            k = k + 1;
        }
        proof {
            lemma_first_match(self@, tv);
            if first_match(self@, tv) is Some {
                let kk = first_match(self@, tv)->0;
                assert(!type_text_matches(tv, self@[kk].type_bytes));
                assert(false);
            }
        }
        None
    }

    /// Returns the first chunk, in sequence order, whose tag renders to
    /// `chunk_type`; nothing when no chunk's tag does. Does not mutate.
    pub fn chunk_by_type(&self, chunk_type: &str) -> (r: Option<&Chunk>)
        requires
            self.wf(),
        ensures
            match r {
                Some(c) => first_match(self@, chunk_type@) is Some && c@ == self@[first_match(
                    self@,
                    chunk_type@,
                )->0],
                None => first_match(self@, chunk_type@) is None,
            },
    {
        match self.find_chunk_index(chunk_type) {
            Some(k) => Some(&self.chunks[k]),
            None => None,
        }
    }

    /// Removes and returns the first chunk whose tag renders to `chunk_type`,
    /// preserving the order of the remaining chunks; fails when no chunk
    /// matches, leaving the container unchanged.
    pub fn remove_chunk(&mut self, chunk_type: &str) -> (r: Result<Chunk, PngError>)
        requires
            old(self).wf(),
        ensures
            final(self).wf(),
            match first_match(old(self)@, chunk_type@) {
                Some(k) => {
                    &&& r is Ok
                    &&& (r matches Ok(c) && c@ == old(self)@[k])
                    &&& final(self)@ == old(self)@.remove(k)
                },
                None => {
                    &&& final(self)@ == old(self)@
                    &&& (r matches Err(e) && e matches PngError::ChunkNotFound(txt) && txt@
                        == chunk_type@)
                },
            },
    {
        match self.find_chunk_index(chunk_type) {
            Some(k) => {
                let c = self.chunks.remove(k);
                proof {
                    assert(self@ =~= old(self)@.remove(k as int));
                    assert forall|j: int| 0 <= j < self@.len() implies (#[trigger] self@[j]).wf()
                        by {
                        assert(self@[j] == if j < k as int {
                            old(self)@[j]
                        } else {
                            old(self)@[j + 1]
                        });
                    }
                }
                Ok(c)
            },
            None => {
                let mut txt = String::new();
                txt.append(chunk_type);
                assert(txt@ =~= chunk_type@);
                Err(PngError::ChunkNotFound(txt))
            },
        }
    }

    /// The chunks in container order, read-only.
    pub fn chunks(&self) -> (r: &Vec<Chunk>)
        ensures
            r@.len() == self@.len(),
            forall|k: int| 0 <= k < r@.len() ==> (#[trigger] r@[k])@ == self@[k],
    {
        &self.chunks
    }
}

} // verus!
