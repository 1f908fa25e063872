use pngme::chunk::Chunk;
use pngme::chunk_type::ChunkType;
use pngme::error::PngError;

fn testing_chunk() -> Chunk {
    let data_length: u32 = 42;
    let chunk_type = "RuSt".as_bytes();
    let message_bytes = "This is where your secret message will be!".as_bytes();
    let crc: u32 = 2882656334;

    let chunk_data: Vec<u8> = data_length
        .to_be_bytes()
        .iter()
        .chain(chunk_type.iter())
        .chain(message_bytes.iter())
        .chain(crc.to_be_bytes().iter())
        .copied()
        .collect();

    Chunk::parse(chunk_data.as_slice()).unwrap()
}

#[test]
fn test_new_chunk() {
    let chunk_type = ChunkType::parse_str("RuSt").unwrap();
    let data = "This is where your secret message will be!"
        .as_bytes()
        .to_vec();
    let chunk = Chunk::new(chunk_type, data);
    assert_eq!(chunk.length(), 42);
    assert_eq!(chunk.crc(), 2882656334);
}

#[test]
fn test_chunk_length() {
    let chunk = testing_chunk();
    assert_eq!(chunk.length(), 42);
}

#[test]
fn test_chunk_type() {
    let chunk = testing_chunk();
    assert_eq!(chunk.chunk_type().to_string(), String::from("RuSt"));
}

#[test]
fn test_chunk_string() {
    let chunk = testing_chunk();
    let chunk_string = chunk.data_as_string().unwrap();
    let expected_chunk_string = String::from("This is where your secret message will be!");
    assert_eq!(chunk_string, expected_chunk_string);
}

#[test]
fn test_chunk_crc() {
    let chunk = testing_chunk();
    assert_eq!(chunk.crc(), 2882656334);
}

#[test]
fn test_valid_chunk_from_bytes() {
    let data_length: u32 = 42;
    let chunk_type = "RuSt".as_bytes();
    let message_bytes = "This is where your secret message will be!".as_bytes();
    let crc: u32 = 2882656334;

    let chunk_data: Vec<u8> = data_length
        .to_be_bytes()
        .iter()
        .chain(chunk_type.iter())
        .chain(message_bytes.iter())
        .chain(crc.to_be_bytes().iter())
        .copied()
        .collect();

    let chunk = Chunk::parse(chunk_data.as_slice()).unwrap();

    let chunk_string = chunk.data_as_string().unwrap();
    let expected_chunk_string = String::from("This is where your secret message will be!");

    assert_eq!(chunk.length(), 42);
    assert_eq!(chunk.chunk_type().to_string(), String::from("RuSt"));
    assert_eq!(chunk_string, expected_chunk_string);
    assert_eq!(chunk.crc(), 2882656334);
}

#[test]
fn test_invalid_chunk_from_bytes() {
    let data_length: u32 = 42;
    let chunk_type = "RuSt".as_bytes();
    let message_bytes = "This is where your secret message will be!".as_bytes();
    let crc: u32 = 2882656333;

    let chunk_data: Vec<u8> = data_length
        .to_be_bytes()
        .iter()
        .chain(chunk_type.iter())
        .chain(message_bytes.iter())
        .chain(crc.to_be_bytes().iter())
        .copied()
        .collect();

    let chunk = Chunk::parse(chunk_data.as_slice());

    assert!(chunk.is_err());
}

#[test]
pub fn test_chunk_trait_impls() {
    let data_length: u32 = 42;
    let chunk_type = "RuSt".as_bytes();
    let message_bytes = "This is where your secret message will be!".as_bytes();
    let crc: u32 = 2882656334;

    let chunk_data: Vec<u8> = data_length
        .to_be_bytes()
        .iter()
        .chain(chunk_type.iter())
        .chain(message_bytes.iter())
        .chain(crc.to_be_bytes().iter())
        .copied()
        .collect();

    let chunk: Chunk = Chunk::parse(chunk_data.as_slice()).unwrap();

    let _chunk_string = format!("{:?}", chunk);
}

#[test]
fn test_chunk_round_trip() {
    let chunk_type = ChunkType::parse_str("RuSt").unwrap();
    let chunk = Chunk::new(chunk_type, vec![1, 2, 3, 4, 5]);
    let bytes = chunk.as_bytes();
    assert_eq!(&bytes[0..4], &[0, 0, 0, 5]);
    let reparsed = Chunk::parse(bytes.as_slice()).unwrap();
    assert_eq!(reparsed.chunk_type().bytes(), chunk.chunk_type().bytes());
    assert_eq!(reparsed.data(), chunk.data());
    assert_eq!(reparsed.crc(), chunk.crc());
}

#[test]
fn test_chunk_bit_flip_is_detected() {
    let chunk_type = ChunkType::parse_str("teSt").unwrap();
    let chunk = Chunk::new(chunk_type, b"payload".to_vec());
    let good = chunk.as_bytes();
    assert!(Chunk::parse(good.as_slice()).is_ok());
    // Flip one bit in each data byte in turn: every flip must be caught.
    for i in 8..(8 + 7) {
        for bit in 0..8 {
            let mut bad = good.clone();
            bad[i] ^= 1u8 << bit;
            let r = Chunk::parse(bad.as_slice());
            assert_eq!(r.unwrap_err(), PngError::CrcMismatch);
        }
    }
    // A bit flip in the type that keeps it a valid type is caught by the
    // checksum as well: `teSt` -> `tESt` flips bit 5 of the second byte.
    let mut bad = good.clone();
    bad[5] ^= 0x20;
    assert_eq!(Chunk::parse(bad.as_slice()).unwrap_err(), PngError::CrcMismatch);
}

#[test]
fn test_chunk_truncated_input_fails() {
    // A chunk that claims 12 bytes of data but is backed by only 10 bytes
    // in all must fail, never yield a truncated chunk.
    let mut bytes: Vec<u8> = Vec::new();
    bytes.extend_from_slice(&12u32.to_be_bytes());
    bytes.extend_from_slice(b"RuSt");
    bytes.extend_from_slice(&[1, 2]);
    assert_eq!(bytes.len(), 10);
    assert_eq!(Chunk::parse(bytes.as_slice()).unwrap_err(), PngError::InvalidLength);
}

#[test]
fn test_chunk_invalid_type_rejected() {
    // A stream whose type bytes are not letters is rejected before any
    // checksum is looked at.
    let crc = crc::Crc::<u32>::new(&crc::CRC_32_ISO_HDLC);
    let type_and_data: Vec<u8> = b"Ru1t".iter().chain(b"data".iter()).copied().collect();
    let checksum = crc.checksum(type_and_data.as_slice());
    let mut bytes: Vec<u8> = Vec::new();
    bytes.extend_from_slice(&4u32.to_be_bytes());
    bytes.extend_from_slice(&type_and_data);
    bytes.extend_from_slice(&checksum.to_be_bytes());
    assert_eq!(Chunk::parse(bytes.as_slice()).unwrap_err(), PngError::InvalidChunkType);

    // So is a type whose reserved bit is set, even with a good checksum.
    let type_and_data: Vec<u8> = b"Rust".iter().chain(b"data".iter()).copied().collect();
    let checksum = crc.checksum(type_and_data.as_slice());
    let mut bytes: Vec<u8> = Vec::new();
    bytes.extend_from_slice(&4u32.to_be_bytes());
    bytes.extend_from_slice(&type_and_data);
    bytes.extend_from_slice(&checksum.to_be_bytes());
    assert_eq!(Chunk::parse(bytes.as_slice()).unwrap_err(), PngError::InvalidChunkType);
}

#[test]
fn test_chunk_utf8_error() {
    let chunk_type = ChunkType::parse_str("ruSt").unwrap();
    let chunk = Chunk::new(chunk_type, vec![0xff, 0xfe, 0x00]);
    assert_eq!(chunk.data_as_string().unwrap_err(), PngError::InvalidUtf8);
}
