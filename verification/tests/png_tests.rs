use pngme::chunk::{Chunk, ChunkError};
use pngme::chunk_type::ChunkType;
use pngme::png::{Png, PngError};

const SIGNATURE: [u8; 8] = [137, 80, 78, 71, 13, 10, 26, 10];

fn chunk_from(type_text: &str, data: &str) -> Chunk {
    Chunk::new(
        ChunkType::from_str(type_text).unwrap(),
        data.as_bytes().to_vec(),
    )
}

fn testing_png() -> Png {
    Png::from_chunks(vec![
        chunk_from("FrSt", "I am the first chunk"),
        chunk_from("miDl", "I am another chunk"),
        chunk_from("LASt", "I am the last chunk"),
    ])
}

#[test]
fn test_chunk_round_trip() {
    let chunk = chunk_from("RuSt", "Round and round");
    let bytes = chunk.as_bytes();
    let back = Chunk::try_from_bytes(bytes.as_ref()).unwrap();
    assert_eq!(back.length(), chunk.length());
    assert_eq!(back.chunk_type().bytes(), chunk.chunk_type().bytes());
    assert_eq!(back.data(), chunk.data());
    assert_eq!(back.crc(), chunk.crc());
}

#[test]
fn test_png_round_trip() {
    let png = testing_png();
    let bytes = png.as_bytes();
    let back = Png::try_from_bytes(bytes.as_ref()).unwrap();
    assert_eq!(back.chunks().len(), 3);
    for (a, b) in png.chunks().iter().zip(back.chunks().iter()) {
        assert_eq!(a.chunk_type().bytes(), b.chunk_type().bytes());
        assert_eq!(a.data(), b.data());
        assert_eq!(a.length(), b.length());
        assert_eq!(a.crc(), b.crc());
    }
    assert_eq!(back.as_bytes(), bytes);
}

#[test]
fn test_crc_sensitivity_data_bit_flip() {
    let chunk = chunk_from("RuSt", "untampered payload");
    let mut bytes = chunk.as_bytes();
    // Flip one bit inside the data region (after length and type fields).
    bytes[10] ^= 0x04;
    let parsed = Chunk::try_from_bytes(bytes.as_ref());
    assert!(matches!(parsed, Err(ChunkError::InvalidCrc(_, _))));
}

#[test]
fn test_crc_sensitivity_type_bit_flip() {
    let chunk = chunk_from("RuSt", "untampered payload");
    let mut bytes = chunk.as_bytes();
    // Flip the case bit of the first type byte: still an ASCII letter, so
    // the failure can only come from the checksum.
    bytes[4] ^= 0x20;
    let parsed = Chunk::try_from_bytes(bytes.as_ref());
    assert!(matches!(parsed, Err(ChunkError::InvalidCrc(_, _))));
}

#[test]
fn test_corrupt_crc_field() {
    let chunk = chunk_from("RuSt", "checked payload");
    let mut bytes = chunk.as_bytes();
    // Corrupt only the trailing checksum field by one.
    let last = bytes.len() - 1;
    bytes[last] = bytes[last].wrapping_add(1);
    let parsed = Chunk::try_from_bytes(bytes.as_ref());
    assert!(matches!(parsed, Err(ChunkError::InvalidCrc(_, _))));
}

#[test]
fn test_order_preservation() {
    let mut png = Png::new();
    png.append_chunk(chunk_from("FrSt", "A"));
    png.append_chunk(chunk_from("miDl", "B"));
    png.append_chunk(chunk_from("LASt", "C"));
    png.remove_chunk("miDl").unwrap();
    let bytes = png.as_bytes();
    let back = Png::try_from_bytes(bytes.as_ref()).unwrap();
    assert_eq!(back.chunks().len(), 2);
    assert_eq!(back.chunks()[0].chunk_type().to_string(), "FrSt");
    assert_eq!(back.chunks()[0].data(), "A".as_bytes());
    assert_eq!(back.chunks()[1].chunk_type().to_string(), "LASt");
    assert_eq!(back.chunks()[1].data(), "C".as_bytes());
}

#[test]
fn test_lookup_first_of_duplicates() {
    let mut png = Png::new();
    png.append_chunk(chunk_from("TeSt", "first occurrence"));
    png.append_chunk(chunk_from("TeSt", "second occurrence"));
    let found = png.chunk_by_type("TeSt").unwrap();
    assert_eq!(found.data(), "first occurrence".as_bytes());
    let removed = png.remove_chunk("TeSt").unwrap();
    assert_eq!(removed.data(), "first occurrence".as_bytes());
    let left = png.chunk_by_type("TeSt").unwrap();
    assert_eq!(left.data(), "second occurrence".as_bytes());
}

#[test]
fn test_secret_message_scenario() {
    let chunk = chunk_from("RuSt", "This is where your secret message will be!");
    let mut bytes = SIGNATURE.to_vec();
    bytes.extend_from_slice(chunk.as_bytes().as_ref());
    let png = Png::try_from_bytes(bytes.as_ref()).unwrap();
    let found = png.chunk_by_type("RuSt").unwrap();
    assert_eq!(found.length(), 42);
    assert_eq!(found.crc(), 2882656334);
}

#[test]
fn test_invalid_signature_rejected() {
    let chunk = chunk_from("RuSt", "valid chunk after bad signature");
    let mut bytes = vec![72, 101, 108, 108, 111, 33, 33, 33];
    bytes.extend_from_slice(chunk.as_bytes().as_ref());
    let parsed = Png::try_from_bytes(bytes.as_ref());
    assert!(matches!(parsed, Err(PngError::InvalidSignature)));
}

#[test]
fn test_short_buffer_rejected() {
    let parsed = Png::try_from_bytes(&SIGNATURE[0..5]);
    assert!(matches!(parsed, Err(PngError::InvalidSignature)));
}

#[test]
fn test_chunk_not_found() {
    let mut png = testing_png();
    let missing = png.remove_chunk("NoNe");
    assert!(matches!(missing, Err(PngError::ChunkNotFound(_))));
    assert!(png.chunk_by_type("NoNe").is_none());
}

#[test]
fn test_chunk_length_too_large() {
    let mut bytes = vec![0x80, 0, 0, 0];
    bytes.extend_from_slice("RuSt".as_bytes());
    let parsed = Chunk::try_from_bytes(bytes.as_ref());
    assert!(matches!(parsed, Err(ChunkError::InvalidLengthGT(0x80000000))));
}

#[test]
fn test_chunk_truncated() {
    let chunk = chunk_from("RuSt", "cut short");
    let bytes = chunk.as_bytes();
    let parsed = Chunk::try_from_bytes(&bytes[0..bytes.len() - 2]);
    assert!(matches!(parsed, Err(ChunkError::ChunkTooSmall(_))));
    let parsed_tiny = Chunk::try_from_bytes(&bytes[0..3]);
    assert!(matches!(parsed_tiny, Err(ChunkError::ChunkTooSmall(3))));
}

#[test]
fn test_chunk_bad_type_byte() {
    let mut bytes = vec![0, 0, 0, 0];
    bytes.extend_from_slice("Ru1t".as_bytes());
    bytes.extend_from_slice(&[0, 0, 0, 0]);
    let parsed = Chunk::try_from_bytes(bytes.as_ref());
    assert!(matches!(parsed, Err(ChunkError::InvalidChunkType)));
}

#[test]
fn test_data_not_text() {
    let chunk = Chunk::new(
        ChunkType::from_str("RuSt").unwrap(),
        vec![0xFF, 0xFE, 0x80, 0x00],
    );
    assert!(chunk.data_as_string().is_none());
    assert_eq!(chunk.to_string(), "RuSt\t[data]");
}

#[test]
fn test_empty_png() {
    let png = Png::new();
    let bytes = png.as_bytes();
    assert_eq!(bytes, SIGNATURE.to_vec());
    let back = Png::try_from_bytes(bytes.as_ref()).unwrap();
    assert_eq!(back.chunks().len(), 0);
}
