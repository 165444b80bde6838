use pngme::chunk::Chunk;
use pngme::chunk_type::ChunkType;
use pngme::error::PngError;
use pngme::png::{signature, Png};

fn chunk_from_strings(chunk_type: &str, data: &str) -> Chunk {
    Chunk::new(
        ChunkType::from_str(chunk_type).unwrap(),
        data.as_bytes().to_vec(),
    )
}

fn testing_png() -> Png {
    Png::from_chunks(vec![
        chunk_from_strings("FrSt", "I am the first chunk"),
        chunk_from_strings("miDl", "I am another chunk"),
        chunk_from_strings("LASt", "I am the last chunk"),
    ])
}

#[test]
fn test_png_round_trip() {
    // Parsing the serialized container restores the identical chunk sequence.
    let png = testing_png();
    let bytes = png.as_bytes();
    let reparsed = Png::try_from(bytes.as_ref()).unwrap();
    assert_eq!(reparsed.chunks.len(), png.chunks.len());
    for (a, b) in reparsed.chunks.iter().zip(png.chunks.iter()) {
        assert_eq!(a.length, b.length);
        assert_eq!(a.chunk_type.bytes(), b.chunk_type.bytes());
        assert_eq!(a.data, b.data);
        assert_eq!(a.crc, b.crc);
    }
}

#[test]
fn test_empty_png_round_trip() {
    let png = Png::new();
    let bytes = png.as_bytes();
    assert_eq!(bytes, signature().to_vec());
    let reparsed = Png::try_from(bytes.as_ref()).unwrap();
    assert_eq!(reparsed.chunks.len(), 0);
}

#[test]
fn test_png_serialization_layout() {
    // Signature first, then each chunk's wire form in order.
    let png = testing_png();
    let bytes = png.as_bytes();
    assert_eq!(&bytes[0..8], &signature());
    let mut expected: Vec<u8> = signature().to_vec();
    for chunk in &png.chunks {
        expected.extend_from_slice(&chunk.as_bytes());
    }
    assert_eq!(bytes, expected);
}

#[test]
fn test_png_bad_signature() {
    let png = testing_png();
    let mut bytes = png.as_bytes();
    bytes[0] = 13;
    assert_eq!(
        Png::try_from(bytes.as_ref()).unwrap_err(),
        PngError::BadSignature
    );
    let short: Vec<u8> = vec![137, 80, 78];
    assert_eq!(
        Png::try_from(short.as_ref()).unwrap_err(),
        PngError::BadSignature
    );
}

#[test]
fn test_png_truncated_stream() {
    let png = testing_png();
    let bytes = png.as_bytes();
    // Cutting the buffer anywhere inside a chunk record leaves the stream
    // truncated.
    let cut = bytes.len() - 5;
    let truncated = &bytes[0..cut];
    assert_eq!(Png::try_from(truncated).unwrap_err(), PngError::Truncated);
    let cut_in_header = 8 + 3;
    let truncated = &bytes[0..cut_in_header];
    assert_eq!(Png::try_from(truncated).unwrap_err(), PngError::Truncated);
}

#[test]
fn test_png_corrupt_chunk_rejected() {
    let png = testing_png();
    let mut bytes = png.as_bytes();
    // Corrupt one payload byte of the second chunk.
    let second_payload = 8 + (12 + 20) + 8;
    bytes[second_payload] ^= 0x40;
    assert_eq!(
        Png::try_from(bytes.as_ref()).unwrap_err(),
        PngError::CrcMismatch
    );
}

#[test]
fn test_append_chunk() {
    let mut png = testing_png();
    png.append_chunk(chunk_from_strings("TeSt", "Message"));
    let chunk = png.chunk_by_type(&ChunkType::from_str("TeSt").unwrap()).unwrap();
    assert_eq!(chunk.chunk_type.to_text().unwrap(), String::from("TeSt"));
    assert_eq!(chunk.data_as_string().unwrap(), String::from("Message"));
    assert_eq!(png.chunks.len(), 4);
    assert_eq!(png.chunks[3].data_as_string().unwrap(), String::from("Message"));
}

#[test]
fn test_chunk_by_type_absent_is_none() {
    let png = testing_png();
    assert!(png
        .chunk_by_type(&ChunkType::from_str("NoNe").unwrap())
        .is_none());
}

#[test]
fn test_chunk_by_type_returns_first_of_duplicates() {
    let mut png = testing_png();
    png.append_chunk(chunk_from_strings("DupE", "first copy"));
    png.append_chunk(chunk_from_strings("DupE", "second copy"));
    let found = png
        .chunk_by_type(&ChunkType::from_str("DupE").unwrap())
        .unwrap();
    assert_eq!(found.data_as_string().unwrap(), String::from("first copy"));
}

#[test]
fn test_remove_chunk() {
    let mut png = testing_png();
    png.append_chunk(chunk_from_strings("TeSt", "Message"));
    let removed = png
        .remove_chunk(&ChunkType::from_str("TeSt").unwrap())
        .unwrap();
    assert_eq!(removed.data_as_string().unwrap(), String::from("Message"));
    assert!(png
        .chunk_by_type(&ChunkType::from_str("TeSt").unwrap())
        .is_none());
    assert_eq!(png.chunks.len(), 3);
}

#[test]
fn test_remove_chunk_takes_only_first_of_duplicates() {
    let mut png = Png::from_chunks(vec![
        chunk_from_strings("FrSt", "I am the first chunk"),
        chunk_from_strings("DupE", "first copy"),
        chunk_from_strings("miDl", "I am another chunk"),
        chunk_from_strings("DupE", "second copy"),
        chunk_from_strings("LASt", "I am the last chunk"),
    ]);
    let removed = png
        .remove_chunk(&ChunkType::from_str("DupE").unwrap())
        .unwrap();
    assert_eq!(removed.data_as_string().unwrap(), String::from("first copy"));
    // The remainder keeps its order, and the second duplicate survives.
    let texts: Vec<String> = png
        .chunks
        .iter()
        .map(|c| c.data_as_string().unwrap())
        .collect();
    assert_eq!(
        texts,
        vec![
            String::from("I am the first chunk"),
            String::from("I am another chunk"),
            String::from("second copy"),
            String::from("I am the last chunk"),
        ]
    );
}

#[test]
fn test_remove_chunk_absent_fails_and_leaves_sequence() {
    let mut png = testing_png();
    let before: Vec<Vec<u8>> = png.chunks.iter().map(|c| c.as_bytes()).collect();
    let err = png
        .remove_chunk(&ChunkType::from_str("NoNe").unwrap())
        .unwrap_err();
    assert_eq!(err, PngError::ChunkNotFound);
    let after: Vec<Vec<u8>> = png.chunks.iter().map(|c| c.as_bytes()).collect();
    assert_eq!(before, after);
}

#[test]
fn test_modified_png_round_trip() {
    let mut png = testing_png();
    png.append_chunk(chunk_from_strings("RuSt", "hidden"));
    png.remove_chunk(&ChunkType::from_str("miDl").unwrap())
        .unwrap();
    let bytes = png.as_bytes();
    let reparsed = Png::try_from(bytes.as_ref()).unwrap();
    let texts: Vec<String> = reparsed
        .chunks
        .iter()
        .map(|c| c.data_as_string().unwrap())
        .collect();
    assert_eq!(
        texts,
        vec![
            String::from("I am the first chunk"),
            String::from("I am the last chunk"),
            String::from("hidden"),
        ]
    );
}
