use pngme::chunk::Chunk;
use pngme::chunk_type::ChunkType;
use pngme::commands::{decode, encode, print, remove};
use pngme::error::PngError;
use pngme::png::Png;

const SIGNATURE: [u8; 8] = [0x89, 0x50, 0x4e, 0x47, 0x0d, 0x0a, 0x1a, 0x0a];

fn empty_png() -> Png {
    Png::parse(&SIGNATURE).unwrap()
}

fn chunk(type_str: &str, data: &[u8]) -> Chunk {
    let t = ChunkType::parse_str(type_str).unwrap();
    Chunk::new(t, data.to_vec())
}

#[test]
fn test_png_parse_empty() {
    let png = empty_png();
    assert_eq!(png.chunks().len(), 0);
    assert_eq!(png.as_bytes(), SIGNATURE.to_vec());
}

#[test]
fn test_png_bad_signature() {
    assert_eq!(Png::parse(&[]).unwrap_err(), PngError::InvalidSignature);
    assert_eq!(
        Png::parse(&[0x89, 0x50, 0x4e, 0x47, 0x0d, 0x0a, 0x1a]).unwrap_err(),
        PngError::InvalidSignature
    );
    let mut bad = SIGNATURE;
    bad[0] = 0x88;
    assert_eq!(Png::parse(&bad).unwrap_err(), PngError::InvalidSignature);
}

#[test]
fn test_png_round_trip() {
    let mut png = empty_png();
    png.append_chunk(chunk("FrSt", b"I am the first chunk"));
    png.append_chunk(chunk("miDl", b"I am another chunk"));
    png.append_chunk(chunk("LASt", b"I am the last chunk"));
    let bytes = png.as_bytes();
    let reparsed = Png::parse(bytes.as_slice()).unwrap();
    assert_eq!(reparsed.chunks().len(), 3);
    assert_eq!(reparsed.as_bytes(), bytes);
    for (a, b) in reparsed.chunks().iter().zip(png.chunks().iter()) {
        assert_eq!(a.chunk_type().bytes(), b.chunk_type().bytes());
        assert_eq!(a.data(), b.data());
        assert_eq!(a.crc(), b.crc());
    }
}

#[test]
fn test_png_chunk_by_type_first_match_wins() {
    let mut png = empty_png();
    png.append_chunk(chunk("duPl", b"first"));
    png.append_chunk(chunk("duPl", b"second"));
    let found = png.chunk_by_type("duPl").unwrap();
    assert_eq!(found.data(), b"first");
    assert!(png.chunk_by_type("noNe").is_none());
}

#[test]
fn test_png_remove_chunk() {
    let mut png = empty_png();
    png.append_chunk(chunk("duPl", b"first"));
    png.append_chunk(chunk("duPl", b"second"));
    let removed = png.remove_chunk("duPl").unwrap();
    assert_eq!(removed.data(), b"first");
    assert_eq!(png.chunks().len(), 1);
    assert_eq!(png.chunk_by_type("duPl").unwrap().data(), b"second");
    assert_eq!(
        png.remove_chunk("noNe").unwrap_err(),
        PngError::ChunkNotFound
    );
    assert_eq!(png.chunks().len(), 1);
}

#[test]
fn test_png_parse_aborts_on_bad_chunk() {
    // A container whose second chunk's checksum was altered fails as a
    // whole; nothing is salvaged.
    let mut png = empty_png();
    png.append_chunk(chunk("okAy", b"fine"));
    png.append_chunk(chunk("baDd", b"tampered"));
    let mut bytes = png.as_bytes();
    let last = bytes.len() - 1;
    bytes[last] ^= 0x01;
    assert_eq!(Png::parse(bytes.as_slice()).unwrap_err(), PngError::CrcMismatch);
}

#[test]
fn test_png_truncated_chunk_fails() {
    // Signature, then a chunk that claims 12 data bytes but has only 10
    // bytes behind the header in all.
    let mut bytes = SIGNATURE.to_vec();
    bytes.extend_from_slice(&12u32.to_be_bytes());
    bytes.extend_from_slice(b"RuSt");
    bytes.extend_from_slice(&[9, 9]);
    assert_eq!(Png::parse(bytes.as_slice()).unwrap_err(), PngError::InvalidLength);
}

#[test]
fn test_encode_then_decode_then_remove() {
    let mut png = empty_png();
    encode(&mut png, "ruSt", "hello").unwrap();
    assert_eq!(decode(&png, "ruSt").unwrap(), "hello");
    remove(&mut png, "ruSt").unwrap();
    assert_eq!(decode(&png, "ruSt").unwrap_err(), PngError::ChunkNotFound);
}

#[test]
fn test_encode_rejects_bad_type() {
    let mut png = empty_png();
    assert_eq!(
        encode(&mut png, "toolong", "hi").unwrap_err(),
        PngError::InvalidLength
    );
    assert_eq!(
        encode(&mut png, "Ru1t", "hi").unwrap_err(),
        PngError::InvalidEncoding
    );
    assert_eq!(png.chunks().len(), 0);
}

#[test]
fn test_encode_accumulates() {
    let mut png = empty_png();
    encode(&mut png, "ruSt", "one").unwrap();
    encode(&mut png, "ruSt", "two").unwrap();
    assert_eq!(png.chunks().len(), 2);
    assert_eq!(decode(&png, "ruSt").unwrap(), "one");
}

#[test]
fn test_decode_non_text_chunk() {
    let mut png = empty_png();
    png.append_chunk(chunk("biNy", &[0xff, 0xfe]));
    assert_eq!(decode(&png, "biNy").unwrap_err(), PngError::InvalidUtf8);
}

#[test]
fn test_print_single_text_chunk_has_no_trailing_newline() {
    let mut png = empty_png();
    encode(&mut png, "onLy", "just one").unwrap();
    assert_eq!(print(&png), "onLy: just one");
}

#[test]
fn test_print_lists_text_chunks() {
    let mut png = empty_png();
    encode(&mut png, "onEa", "first message").unwrap();
    png.append_chunk(chunk("biNy", &[0xff, 0xfe]));
    encode(&mut png, "twOb", "second message").unwrap();
    let listing = print(&png);
    assert_eq!(listing, "onEa: first message\ntwOb: second message");
}

#[test]
fn test_print_empty_for_no_text_chunks() {
    let png = empty_png();
    assert_eq!(print(&png), "");

    let mut png = empty_png();
    png.append_chunk(chunk("biNy", &[0xff, 0xfe, 0x80]));
    png.append_chunk(chunk("oTHr", &[0xc0, 0x00]));
    assert_eq!(print(&png), "");
}
