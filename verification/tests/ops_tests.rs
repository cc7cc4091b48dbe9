use pngme::chunk_type::ChunkTypeDecodeError;
use pngme::ops;
use pngme::png::PngError;

const SIGNATURE: [u8; 8] = [137, 80, 78, 71, 13, 10, 26, 10];

#[test]
fn test_encode_then_decode() {
    let input = SIGNATURE.to_vec();
    let encoded = ops::encode(input.as_ref(), "RuSt", "a secret").unwrap();
    let decoded = ops::decode(encoded.as_ref(), "RuSt").unwrap();
    assert_eq!(decoded, Some(String::from("RuSt\ta secret")));
}

#[test]
fn test_decode_missing_type() {
    let input = SIGNATURE.to_vec();
    let encoded = ops::encode(input.as_ref(), "RuSt", "a secret").unwrap();
    let decoded = ops::decode(encoded.as_ref(), "TeSt").unwrap();
    assert_eq!(decoded, None);
}

#[test]
fn test_remove_round() {
    let input = SIGNATURE.to_vec();
    let encoded = ops::encode(input.as_ref(), "RuSt", "a secret").unwrap();
    let removed = ops::remove(encoded.as_ref(), "RuSt").unwrap();
    assert_eq!(removed, input);
    let again = ops::remove(removed.as_ref(), "RuSt");
    assert!(matches!(again, Err(PngError::ChunkNotFound(_))));
}

#[test]
fn test_list_renders_all() {
    let input = SIGNATURE.to_vec();
    let one = ops::encode(input.as_ref(), "FrSt", "hello").unwrap();
    let two = ops::encode(one.as_ref(), "LASt", "world").unwrap();
    let lines = ops::list(two.as_ref()).unwrap();
    assert_eq!(lines.len(), 2);
    assert_eq!(lines[0], "FrSt\thello");
    assert_eq!(lines[1], "LASt\tworld");
}

#[test]
fn test_encode_bad_type_text() {
    let input = SIGNATURE.to_vec();
    let r = ops::encode(input.as_ref(), "Ru1t", "a secret");
    assert!(matches!(
        r,
        Err(PngError::ChunkType(ChunkTypeDecodeError::InvalidByte(49)))
    ));
    let r2 = ops::encode(input.as_ref(), "Rust!", "a secret");
    assert!(matches!(
        r2,
        Err(PngError::ChunkType(ChunkTypeDecodeError::InvalidLen(5)))
    ));
}

#[test]
fn test_ops_invalid_signature() {
    let input = vec![1, 2, 3, 4, 5, 6, 7, 8];
    assert!(matches!(
        ops::encode(input.as_ref(), "RuSt", "x"),
        Err(PngError::InvalidSignature)
    ));
    assert!(matches!(
        ops::decode(input.as_ref(), "RuSt"),
        Err(PngError::InvalidSignature)
    ));
    assert!(matches!(
        ops::remove(input.as_ref(), "RuSt"),
        Err(PngError::InvalidSignature)
    ));
    assert!(matches!(
        ops::list(input.as_ref()),
        Err(PngError::InvalidSignature)
    ));
}

#[test]
fn test_ops_propagate_chunk_error() {
    let mut input = SIGNATURE.to_vec();
    // A truncated chunk after a valid signature aborts every operation.
    input.extend_from_slice(&[0, 0, 0, 5, 82, 117]);
    let r = ops::list(input.as_ref());
    assert!(matches!(r, Err(PngError::Chunk(_))));
}
