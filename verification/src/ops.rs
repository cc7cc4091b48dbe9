//! The caller-facing operation set, on in-memory buffers only: encode a
//! message into a new chunk, decode the first matching chunk's text, remove
//! the first matching chunk, and list every chunk's text. Callers do the I/O
//! and hand byte buffers in and out.

use vstd::prelude::*;
use vstd::string::StringSliceAdditionalSpecFns;
use vstd::string::StrSliceExecFns;

use crate::chunk::{Chunk, ChunkModel, crc32_of, MAXIMUM_LENGTH, render_spec};
use crate::chunk_type::{all_valid_spec, ChunkType, ChunkTypeDecodeError, first_invalid_byte};
use crate::png::{first_match, parse_chunks_err, parse_chunks_models, parse_chunks_ok, Png,
    PngError, png_bytes, signature_spec};

verus! {

/// The chunk that encoding builds: its length is the data's byte count and
/// its checksum covers the type bytes followed by the data bytes.
pub open spec fn encoded_chunk_model(t: Seq<u8>, data: Seq<u8>) -> ChunkModel {
    ChunkModel { length: data.len() as u32, type_bytes: t, data: data, crc: crc32_of(t + data) }
}

/// The error that decoding a chunk type tag from `tb` reports.
pub open spec fn type_text_err(tb: Seq<u8>) -> ChunkTypeDecodeError {
    if tb.len() != 4 {
        ChunkTypeDecodeError::InvalidLen(tb.len() as usize)
    } else {
        ChunkTypeDecodeError::InvalidByte(first_invalid_byte(tb))
    }
}

/// Appends a chunk built from `chunk_type` and `message` to the container
/// parsed from `input`, and returns the re-serialized buffer.
pub fn encode(input: &[u8], chunk_type: &str, message: &str) -> (r: Result<Vec<u8>, PngError>)
    requires
        message.spec_bytes().len() <= MAXIMUM_LENGTH,
    ensures
        ({
            let tb = chunk_type.spec_bytes();
            let db = message.spec_bytes();
            let s = input@;
            if !(tb.len() == 4 && all_valid_spec(tb)) {
                r == Err::<Vec<u8>, PngError>(PngError::ChunkType(type_text_err(tb)))
            } else if s.len() < 8 || s.subrange(0, 8) != signature_spec() {
                r == Err::<Vec<u8>, PngError>(PngError::InvalidSignature)
            } else if !parse_chunks_ok(s, 8) {
                r == Err::<Vec<u8>, PngError>(PngError::Chunk(parse_chunks_err(s, 8)))
            } else {
                r matches Ok(out) && out@ == png_bytes(
                    parse_chunks_models(s, 8).push(encoded_chunk_model(tb, db)),
                )
            }
        }),
{
    let ct = match ChunkType::from_str(chunk_type) {
        Ok(ct) => ct,
        Err(e) => {
            return Err(PngError::ChunkType(e));
        },
    };
    let data = message.as_bytes_vec();
    let chunk = Chunk::new(ct, data);
    let mut png = match Png::try_from_bytes(input) {
        Ok(p) => p,
        Err(e) => {
            return Err(e);
        },
    };
    png.append_chunk(chunk);
    Ok(png.as_bytes())
}

/// Looks up the first chunk whose tag renders to `chunk_type` in the
/// container parsed from `input`, and returns its text rendering, or nothing
/// when no chunk matches.
#[verifier::rlimit(50)]
pub fn decode(input: &[u8], chunk_type: &str) -> (r: Result<Option<String>, PngError>)
    ensures
        ({
            let s = input@;
            if s.len() < 8 || s.subrange(0, 8) != signature_spec() {
                r == Err::<Option<String>, PngError>(PngError::InvalidSignature)
            } else if !parse_chunks_ok(s, 8) {
                r == Err::<Option<String>, PngError>(PngError::Chunk(parse_chunks_err(s, 8)))
            } else {
                match first_match(parse_chunks_models(s, 8), chunk_type@) {
                    Some(k) => r matches Ok(o) && o matches Some(txt) && txt@ == render_spec(
                        parse_chunks_models(s, 8)[k],
                    ),
                    None => r matches Ok(o) && o is None,
                }
            }
        }),
{
    let png = match Png::try_from_bytes(input) {
        Ok(p) => p,
        Err(e) => {
            return Err(e);
        },
    };
    proof {
        crate::png::lemma_first_match(png@, chunk_type@);
    }
    match png.chunk_by_type(chunk_type) {
        Some(c) => {
            let ghost ms = parse_chunks_models(input@, 8);
            let ghost k = first_match(ms, chunk_type@)->0;
            assert(c@ == ms[k] && 0 <= k < ms.len());
            let txt = c.to_string();
            assert(txt@ == render_spec(ms[k]));
            Ok(Some(txt))
        },
        None => Ok(None),
    }
}

/// Removes the first chunk whose tag renders to `chunk_type` from the
/// container parsed from `input`, and returns the re-serialized buffer;
/// fails when no chunk matches.
pub fn remove(input: &[u8], chunk_type: &str) -> (r: Result<Vec<u8>, PngError>)
    ensures
        ({
            let s = input@;
            if s.len() < 8 || s.subrange(0, 8) != signature_spec() {
                r == Err::<Vec<u8>, PngError>(PngError::InvalidSignature)
            } else if !parse_chunks_ok(s, 8) {
                r == Err::<Vec<u8>, PngError>(PngError::Chunk(parse_chunks_err(s, 8)))
            } else {
                match first_match(parse_chunks_models(s, 8), chunk_type@) {
                    Some(k) => r matches Ok(out) && out@ == png_bytes(
                        parse_chunks_models(s, 8).remove(k),
                    ),
                    None => r matches Err(e) && e matches PngError::ChunkNotFound(txt) && txt@
                        == chunk_type@,
                }
            }
        }),
{
    let mut png = match Png::try_from_bytes(input) {
        Ok(p) => p,
        Err(e) => {
            return Err(e);
        },
    };
    match png.remove_chunk(chunk_type) {
        Ok(_) => Ok(png.as_bytes()),
        Err(e) => Err(e),
    }
}

/// Renders every chunk of the container parsed from `input`, in container
/// order.
pub fn list(input: &[u8]) -> (r: Result<Vec<String>, PngError>)
    ensures
        ({
            let s = input@;
            if s.len() < 8 || s.subrange(0, 8) != signature_spec() {
                r == Err::<Vec<String>, PngError>(PngError::InvalidSignature)
            } else if !parse_chunks_ok(s, 8) {
                r == Err::<Vec<String>, PngError>(PngError::Chunk(parse_chunks_err(s, 8)))
            } else {
                r matches Ok(lines) && lines@.len() == parse_chunks_models(s, 8).len() && (forall|
                    k: int,
                | 0 <= k < lines@.len() ==> (#[trigger] lines@[k])@ == render_spec(
                    parse_chunks_models(s, 8)[k],
                ))
            }
        }),
{
    let png = match Png::try_from_bytes(input) {
        Ok(p) => p,
        Err(e) => {
            return Err(e);
        },
    };
    let chunks = png.chunks();
    let mut lines: Vec<String> = Vec::new();
    let mut k: usize = 0;
    let n = chunks.len();
    while k < n
        invariant
            k <= n,
            n == chunks@.len(),
            png@.len() == n,
            forall|j: int| 0 <= j < n ==> (#[trigger] chunks@[j])@ == png@[j],
            png.wf(),
            png@ == parse_chunks_models(input@, 8),
            lines@.len() == k,
            forall|j: int| 0 <= j < k ==> (#[trigger] lines@[j])@ == render_spec(png@[j]),
        decreases n - k,
    {
        let line = chunks[k].to_string();
        lines.push(line);
        k = k + 1;
    }
    Ok(lines)
}

} // verus!
