use pngme::chunk_type::ChunkType;
use pngme::error::PngError;

#[test]
pub fn test_chunk_type_from_bytes() {
    let expected = [82, 117, 83, 116];
    let actual = ChunkType::try_from([82, 117, 83, 116]).unwrap();

    assert_eq!(expected, actual.bytes());
}

#[test]
pub fn test_chunk_type_from_str() {
    let expected = ChunkType::try_from([82, 117, 83, 116]).unwrap();
    let actual = ChunkType::from_str("RuSt").unwrap();
    assert_eq!(expected, actual);
}

#[test]
pub fn test_chunk_type_string() {
    let chunk = ChunkType::from_str("RuSt").unwrap();
    assert_eq!(chunk.to_text().unwrap(), "RuSt");
}

#[test]
pub fn test_chunk_type_trait_impls() {
    let chunk_type_1: ChunkType = ChunkType::try_from([82, 117, 83, 116]).unwrap();
    let chunk_type_2: ChunkType = ChunkType::from_str("RuSt").unwrap();
    let _chunk_string = chunk_type_1.to_text().unwrap();
    let _are_chunks_equal = chunk_type_1 == chunk_type_2;
}

#[test]
fn test_chunk_type_from_str_rejects_wrong_length() {
    assert_eq!(ChunkType::from_str("RuS").unwrap_err(), PngError::InvalidTag);
    assert_eq!(ChunkType::from_str("RuSty").unwrap_err(), PngError::InvalidTag);
    assert_eq!(ChunkType::from_str("").unwrap_err(), PngError::InvalidTag);
}

#[test]
fn test_chunk_type_from_str_rejects_non_alphabetic() {
    assert_eq!(ChunkType::from_str("Ru1t").unwrap_err(), PngError::InvalidTag);
    assert_eq!(ChunkType::from_str("Ru t").unwrap_err(), PngError::InvalidTag);
    assert_eq!(ChunkType::from_str("Ru_t").unwrap_err(), PngError::InvalidTag);
}

#[test]
fn test_chunk_type_flags() {
    // "RuSt": R upper => critical; u lower => private; S upper => reserved
    // valid; t lower => safe to copy.
    let t = ChunkType::from_str("RuSt").unwrap();
    assert!(t.is_critical());
    assert!(!t.is_public());
    assert!(t.is_reserved_valid());
    assert!(t.is_safe_to_copy());
    assert!(t.is_valid());

    let t = ChunkType::from_str("rUsT").unwrap();
    assert!(!t.is_critical());
    assert!(t.is_public());
    assert!(!t.is_reserved_valid());
    assert!(!t.is_safe_to_copy());
    assert!(!t.is_valid());
}

#[test]
fn test_chunk_type_from_raw_bytes_never_rejects() {
    // Parsing accepts any 4 bytes; only the validity flag reports them.
    let t = ChunkType::try_from([0, 255, 7, 31]).unwrap();
    assert_eq!(t.bytes(), [0, 255, 7, 31]);
}

#[test]
fn test_chunk_type_to_text_rejects_invalid_utf8() {
    let t = ChunkType::try_from([0xFF, 0xFE, 0x41, 0x42]).unwrap();
    assert_eq!(t.to_text().unwrap_err(), PngError::InvalidEncoding);
}
