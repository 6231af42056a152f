use pngme::chunk::Chunk;
use pngme::chunk_type::ChunkType;
use pngme::error::PngError;

fn testing_chunk() -> Chunk {
    let data_length: u32 = 42;
    let chunk_type = "RuSt".as_bytes();
    let message_bytes = "This is where your secret message will be!".as_bytes();
    let crc: u32 = 2882656334;

    let chunk_data: Vec<u8> = data_length
        .to_be_bytes()
        .iter()
        .chain(chunk_type.iter())
        .chain(message_bytes.iter())
        .chain(crc.to_be_bytes().iter())
        .copied()
        .collect();

    Chunk::parse(chunk_data.as_ref()).unwrap()
}

#[test]
fn test_new_chunk() {
    let chunk_type = ChunkType::from_str("RuSt").unwrap();
    let data = "This is where your secret message will be!"
        .as_bytes()
        .to_vec();
    let chunk = Chunk::new(chunk_type, data);
    assert_eq!(chunk.length(), 42);
    assert_eq!(chunk.crc(), 2882656334);
}

#[test]
fn test_chunk_length() {
    let chunk = testing_chunk();
    assert_eq!(chunk.length(), 42);
}

#[test]
fn test_chunk_type() {
    let chunk = testing_chunk();
    assert_eq!(chunk.chunk_type().to_text(), String::from("RuSt"));
}

#[test]
fn test_chunk_string() {
    let chunk = testing_chunk();
    let chunk_string = chunk.data_as_string().unwrap();
    let expected_chunk_string = String::from("This is where your secret message will be!");
    assert_eq!(chunk_string, expected_chunk_string);
}

#[test]
fn test_chunk_crc() {
    let chunk = testing_chunk();
    assert_eq!(chunk.crc(), 2882656334);
}

#[test]
fn test_valid_chunk_from_bytes() {
    let data_length: u32 = 42;
    let chunk_type = "RuSt".as_bytes();
    let message_bytes = "This is where your secret message will be!".as_bytes();
    let crc: u32 = 2882656334;

    let chunk_data: Vec<u8> = data_length
        .to_be_bytes()
        .iter()
        .chain(chunk_type.iter())
        .chain(message_bytes.iter())
        .chain(crc.to_be_bytes().iter())
        .copied()
        .collect();

    let chunk = Chunk::parse(chunk_data.as_ref()).unwrap();

    let chunk_string = chunk.data_as_string().unwrap();
    let expected_chunk_string = String::from("This is where your secret message will be!");

    assert_eq!(chunk.length(), 42);
    assert_eq!(chunk.chunk_type().to_text(), String::from("RuSt"));
    assert_eq!(chunk_string, expected_chunk_string);
    assert_eq!(chunk.crc(), 2882656334);
}

#[test]
fn test_invalid_chunk_from_bytes() {
    let data_length: u32 = 42;
    let chunk_type = "RuSt".as_bytes();
    let message_bytes = "This is where your secret message will be!".as_bytes();
    let crc: u32 = 2882656333;

    let chunk_data: Vec<u8> = data_length
        .to_be_bytes()
        .iter()
        .chain(chunk_type.iter())
        .chain(message_bytes.iter())
        .chain(crc.to_be_bytes().iter())
        .copied()
        .collect();

    let chunk = Chunk::parse(chunk_data.as_ref());

    assert!(chunk.is_err());
}

#[test]
pub fn test_chunk_trait_impls() {
    let data_length: u32 = 42;
    let chunk_type = "RuSt".as_bytes();
    let message_bytes = "This is where your secret message will be!".as_bytes();
    let crc: u32 = 2882656334;

    let chunk_data: Vec<u8> = data_length
        .to_be_bytes()
        .iter()
        .chain(chunk_type.iter())
        .chain(message_bytes.iter())
        .chain(crc.to_be_bytes().iter())
        .copied()
        .collect();

    let chunk: Chunk = Chunk::parse(chunk_data.as_ref()).unwrap();

    let _chunk_string = chunk.render();
}

#[test]
fn test_corrupted_crc_reports_checksum_mismatch() {
    // The fixture chunk with its trailing checksum off by one.
    let data_length: u32 = 42;
    let chunk_type = "RuSt".as_bytes();
    let message_bytes = "This is where your secret message will be!".as_bytes();
    let crc: u32 = 2882656333;

    let chunk_data: Vec<u8> = data_length
        .to_be_bytes()
        .iter()
        .chain(chunk_type.iter())
        .chain(message_bytes.iter())
        .chain(crc.to_be_bytes().iter())
        .copied()
        .collect();

    assert_eq!(
        Chunk::parse(chunk_data.as_ref()).unwrap_err(),
        PngError::ChecksumMismatch
    );
}

#[test]
fn test_chunk_round_trip() {
    let chunk_type = ChunkType::from_str("TeSt").unwrap();
    let data = b"round trip payload".to_vec();
    let original = Chunk::new(chunk_type, data);
    let bytes = original.as_bytes();
    let reparsed = Chunk::parse(bytes.as_slice()).unwrap();
    assert_eq!(reparsed.length(), original.length());
    assert_eq!(reparsed.chunk_type(), original.chunk_type());
    assert_eq!(reparsed.data().to_vec(), original.data().to_vec());
    assert_eq!(reparsed.crc(), original.crc());
    assert_eq!(reparsed.as_bytes(), bytes);
}

#[test]
fn test_checksum_is_deterministic() {
    let t1 = ChunkType::from_str("RuSt").unwrap();
    let t2 = ChunkType::from_str("RuSt").unwrap();
    let c1 = Chunk::new(t1, b"payload".to_vec());
    let c2 = Chunk::new(t2, b"payload".to_vec());
    assert_eq!(c1.crc(), c2.crc());

    // Changing a single byte of the type or the data changes the checksum.
    let c3 = Chunk::new(ChunkType::from_str("Rust").unwrap(), b"payload".to_vec());
    let c4 = Chunk::new(ChunkType::from_str("RuSt").unwrap(), b"paybold".to_vec());
    assert_ne!(c1.crc(), c3.crc());
    assert_ne!(c1.crc(), c4.crc());
}

#[test]
fn test_chunk_parse_truncated_input() {
    // Fewer than the 12 bytes any chunk needs.
    assert_eq!(
        Chunk::parse(&[0, 0, 0, 1, 82, 117]).unwrap_err(),
        PngError::TruncatedInput
    );
    // Declared length demands more bytes than given.
    let bytes = [0u8, 0, 0, 5, 82, 117, 83, 116, 1, 2, 3, 4];
    assert_eq!(Chunk::parse(&bytes).unwrap_err(), PngError::TruncatedInput);
}

#[test]
fn test_chunk_parse_invalid_type() {
    // Zero-length chunk whose third type byte is a digit.
    let mut bytes: Vec<u8> = vec![0, 0, 0, 0];
    bytes.extend_from_slice(b"Ru1t");
    bytes.extend_from_slice(&[0, 0, 0, 0]);
    assert_eq!(
        Chunk::parse(bytes.as_slice()).unwrap_err(),
        PngError::InvalidChunkType
    );
}

#[test]
fn test_data_as_string_invalid_encoding() {
    let chunk_type = ChunkType::from_str("ruSt").unwrap();
    let chunk = Chunk::new(chunk_type, vec![0xff, 0xfe, 0x00]);
    assert_eq!(chunk.data_as_string().unwrap_err(), PngError::InvalidEncoding);
}

#[test]
fn test_chunk_render_line() {
    let chunk = Chunk::new(ChunkType::from_str("ruSt").unwrap(), vec![1, 2, 3]);
    let expected = format!(
        "Chunk Length: 3, Chunk Type: ruSt, Chunk Data: [1, 2, 3], Crc: {}\n",
        chunk.crc()
    );
    assert_eq!(chunk.render(), expected);
}
