use pngme::chunk::Chunk;
use pngme::chunk_type::ChunkType;
use pngme::error::PngError;
use pngme::png::Png;

const SIGNATURE: [u8; 8] = [137, 80, 78, 71, 13, 10, 26, 10];

fn chunk_of(type_text: &str, data: &[u8]) -> Chunk {
    Chunk::new(ChunkType::from_str(type_text).unwrap(), data.to_vec())
}

/// A minimal valid container: a header-like chunk and the terminator.
fn minimal_png() -> Png {
    let chunks = vec![chunk_of("TeSt", b"pixels"), chunk_of("IEND", b"")];
    Png::from_chunks(chunks)
}

fn contains_subsequence(haystack: &[u8], needle: &[u8]) -> bool {
    haystack.windows(needle.len()).any(|w| w == needle)
}

#[test]
fn test_png_round_trip() {
    let png = minimal_png();
    let bytes = png.as_bytes();
    assert_eq!(&bytes[0..8], &SIGNATURE);
    let reparsed = Png::parse(bytes.as_slice()).unwrap();
    assert_eq!(reparsed.as_bytes(), bytes);
    assert_eq!(reparsed.chunk_count(), 2);
}

#[test]
fn test_png_parse_rejects_bad_signature() {
    let mut bytes = minimal_png().as_bytes();
    bytes[0] = 0;
    assert_eq!(
        Png::parse(bytes.as_slice()).unwrap_err(),
        PngError::InvalidSignature
    );
    assert_eq!(Png::parse(&[137, 80]).unwrap_err(), PngError::InvalidSignature);
}

#[test]
fn test_png_parse_rejects_corrupted_checksum() {
    let png = minimal_png();
    let mut bytes = png.as_bytes();
    // Corrupt the trailing checksum byte of the first chunk:
    // signature(8) + length(4) + type(4) + data(6) + crc(4).
    let crc_last = 8 + 4 + 4 + 6 + 3;
    bytes[crc_last] = bytes[crc_last].wrapping_add(1);
    assert_eq!(
        Png::parse(bytes.as_slice()).unwrap_err(),
        PngError::ChecksumMismatch
    );
}

#[test]
fn test_png_parse_rejects_truncated_chunk() {
    let png = minimal_png();
    let bytes = png.as_bytes();
    let cut = &bytes[0..bytes.len() - 5];
    assert_eq!(Png::parse(cut).unwrap_err(), PngError::TruncatedInput);
}

#[test]
fn test_append_then_lookup() {
    // Append a chunk to a minimal container, serialize, re-parse, and read the
    // hidden message back out.
    let mut png = minimal_png();
    png.append_chunk(chunk_of("ruSt", b"hidden"));
    let bytes = png.as_bytes();
    let reparsed = Png::parse(bytes.as_slice()).unwrap();
    let found = reparsed.chunk_by_type("ruSt").unwrap();
    assert_eq!(found.data_as_string().unwrap(), "hidden");
}

#[test]
fn test_append_inserts_before_terminator() {
    let mut png = minimal_png();
    png.append_chunk(chunk_of("ruSt", b"hidden"));
    let bytes = png.as_bytes();
    let reparsed = Png::parse(bytes.as_slice()).unwrap();
    // The terminator stays last, so the appended chunk is still reachable
    // after one more append.
    let mut again = reparsed;
    again.append_chunk(chunk_of("teXt", b"more"));
    let reparsed_again = Png::parse(again.as_bytes().as_slice()).unwrap();
    assert!(reparsed_again.chunk_by_type("ruSt").is_some());
    assert!(reparsed_again.chunk_by_type("teXt").is_some());
    assert_eq!(reparsed_again.chunk_count(), 4);
}

#[test]
fn test_remove_chunk_missing_type() {
    let mut png = minimal_png();
    assert_eq!(png.remove_chunk("ruSt").unwrap_err(), PngError::ChunkNotFound);
}

#[test]
fn test_remove_chunk_removes_bytes() {
    let mut png = minimal_png();
    let chunk = chunk_of("ruSt", b"hidden");
    let chunk_bytes = chunk.as_bytes();
    png.append_chunk(chunk);
    assert!(contains_subsequence(
        png.as_bytes().as_slice(),
        chunk_bytes.as_slice()
    ));
    let removed = png.remove_chunk("ruSt").unwrap();
    assert_eq!(removed.data_as_string().unwrap(), "hidden");
    assert!(!contains_subsequence(
        png.as_bytes().as_slice(),
        chunk_bytes.as_slice()
    ));
    assert_eq!(png.remove_chunk("ruSt").unwrap_err(), PngError::ChunkNotFound);
}

#[test]
fn test_remove_chunk_removes_first_match_only() {
    let chunks = vec![
        chunk_of("TeSt", b"pixels"),
        chunk_of("ruSt", b"first"),
        chunk_of("ruSt", b"second"),
        chunk_of("IEND", b""),
    ];
    let mut png = Png::from_chunks(chunks);
    let removed = png.remove_chunk("ruSt").unwrap();
    assert_eq!(removed.data_as_string().unwrap(), "first");
    let still_there = png.chunk_by_type("ruSt").unwrap();
    assert_eq!(still_there.data_as_string().unwrap(), "second");
}

#[test]
fn test_chunk_by_type_returns_first_match() {
    let chunks = vec![
        chunk_of("ruSt", b"first"),
        chunk_of("ruSt", b"second"),
        chunk_of("IEND", b""),
    ];
    let png = Png::from_chunks(chunks);
    assert_eq!(
        png.chunk_by_type("ruSt").unwrap().data_as_string().unwrap(),
        "first"
    );
    assert!(png.chunk_by_type("noNe").is_none());
}

#[test]
fn test_png_parse_stops_at_terminator() {
    // Bytes after the terminator chunk are ignored by the parse.
    let png = minimal_png();
    let mut bytes = png.as_bytes();
    bytes.extend_from_slice(b"trailing junk");
    let reparsed = Png::parse(bytes.as_slice()).unwrap();
    assert_eq!(reparsed.chunk_count(), 2);
}

#[test]
fn test_png_render_lists_every_chunk() {
    let png = minimal_png();
    let listing = png.render();
    let first = chunk_of("TeSt", b"pixels").render();
    let second = chunk_of("IEND", b"").render();
    assert_eq!(listing, format!("{}{}", first, second));
    assert!(listing.contains("Chunk Type: TeSt"));
    assert!(listing.contains("Chunk Type: IEND"));
}
