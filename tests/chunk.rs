use pngme::{Chunk, ChunkType, FormatError};
use std::convert::TryFrom;
use std::str::FromStr;

const MESSAGE: &str = "This is where your secret message will be!";

fn framed(length: u32, kind: &[u8], data: &[u8], crc: u32) -> Vec<u8> {
    length
        .to_be_bytes()
        .iter()
        .chain(kind.iter())
        .chain(data.iter())
        .chain(crc.to_be_bytes().iter())
        .copied()
        .collect()
}

fn testing_chunk() -> Chunk {
    let chunk_data = framed(42, "RuSt".as_bytes(), MESSAGE.as_bytes(), 2882656334);
    Chunk::try_from(chunk_data.as_ref()).unwrap()
}

#[test]
fn test_new_chunk() {
    let chunk_type = ChunkType::from_str("RuSt").unwrap();
    let data = "This is where your secret message will be!"
        .as_bytes()
        .to_vec();
    let chunk = Chunk::new(chunk_type, data);
    assert_eq!(chunk.length(), 42);
    assert_eq!(chunk.crc(), 2882656334);
}

#[test]
fn test_chunk_length() {
    let chunk = testing_chunk();
    assert_eq!(chunk.length(), 42);
}

#[test]
fn test_chunk_type() {
    let chunk = testing_chunk();
    assert_eq!(chunk.chunk_type().to_string(), String::from("RuSt"));
}

#[test]
fn test_chunk_string() {
    let chunk = testing_chunk();
    let chunk_string = chunk.data_as_string().unwrap();
    let expected_chunk_string = String::from("This is where your secret message will be!");
    assert_eq!(chunk_string, expected_chunk_string);
}

#[test]
fn test_chunk_crc() {
    let chunk = testing_chunk();
    assert_eq!(chunk.crc(), 2882656334);
}

#[test]
fn test_valid_chunk_from_bytes() {
    let data_length: u32 = 42;
    let chunk_type = "RuSt".as_bytes();
    let message_bytes = "This is where your secret message will be!".as_bytes();
    let crc: u32 = 2882656334;

    let chunk_data: Vec<u8> = data_length
        .to_be_bytes()
        .iter()
        .chain(chunk_type.iter())
        .chain(message_bytes.iter())
        .chain(crc.to_be_bytes().iter())
        .copied()
        .collect();

    let chunk = Chunk::try_from(chunk_data.as_ref()).unwrap();

    let chunk_string = chunk.data_as_string().unwrap();
    let expected_chunk_string = String::from("This is where your secret message will be!");

    assert_eq!(chunk.length(), 42);
    assert_eq!(chunk.chunk_type().to_string(), String::from("RuSt"));
    assert_eq!(chunk_string, expected_chunk_string);
    assert_eq!(chunk.crc(), 2882656334);
}

#[test]
fn test_invalid_chunk_from_bytes() {
    let data_length: u32 = 42;
    let chunk_type = "RuSt".as_bytes();
    let message_bytes = "This is where your secret message will be!".as_bytes();
    let crc: u32 = 2882656333;

    let chunk_data: Vec<u8> = data_length
        .to_be_bytes()
        .iter()
        .chain(chunk_type.iter())
        .chain(message_bytes.iter())
        .chain(crc.to_be_bytes().iter())
        .copied()
        .collect();

    let chunk = Chunk::try_from(chunk_data.as_ref());

    assert!(chunk.is_err());
}

#[test]
pub fn test_chunk_trait_impls() {
    let data_length: u32 = 42;
    let chunk_type = "RuSt".as_bytes();
    let message_bytes = "This is where your secret message will be!".as_bytes();
    let crc: u32 = 2882656334;

    let chunk_data: Vec<u8> = data_length
        .to_be_bytes()
        .iter()
        .chain(chunk_type.iter())
        .chain(message_bytes.iter())
        .chain(crc.to_be_bytes().iter())
        .copied()
        .collect();

    let chunk: Chunk = TryFrom::try_from(chunk_data.as_ref()).unwrap();

    let _chunk_string = format!("{:?}", chunk);
}

#[test]
fn chunk_byte_layout() {
    let chunk = Chunk::new(
        ChunkType::from_str("RuSt").unwrap(),
        MESSAGE.as_bytes().to_vec(),
    );
    let expected = framed(42, "RuSt".as_bytes(), MESSAGE.as_bytes(), 2882656334);
    assert_eq!(chunk.as_bytes(), expected);
    assert_eq!(&chunk.as_bytes()[0..4], &[0, 0, 0, 42]);
    assert_eq!(&chunk.as_bytes()[50..54], &2882656334u32.to_be_bytes());
}

#[test]
fn crc_is_stable_across_calls_and_rebuilds() {
    let a = Chunk::new(
        ChunkType::from_str("RuSt").unwrap(),
        MESSAGE.as_bytes().to_vec(),
    );
    let b = Chunk::new(
        ChunkType::from_str("RuSt").unwrap(),
        MESSAGE.as_bytes().to_vec(),
    );
    assert_eq!(a.crc(), a.crc());
    assert_eq!(a.crc(), b.crc());
    assert_eq!(a.clone().crc(), 2882656334);
}

#[test]
fn crc_of_empty_data() {
    let chunk = Chunk::new(ChunkType::from_str("IEND").unwrap(), Vec::new());
    assert_eq!(chunk.length(), 0);
    assert_eq!(chunk.crc(), 0xAE426082);
    assert_eq!(
        chunk.as_bytes(),
        vec![0, 0, 0, 0, 73, 69, 78, 68, 0xAE, 0x42, 0x60, 0x82]
    );
}

#[test]
fn corrupt_crc_byte_is_rejected() {
    let good = framed(42, "RuSt".as_bytes(), MESSAGE.as_bytes(), 2882656334);
    for k in 0..4 {
        let mut bad = good.clone();
        bad[50 + k] ^= 0x01;
        assert_eq!(Chunk::parse(&bad).unwrap_err(), FormatError::CrcMismatch);
    }
}

#[test]
fn truncated_chunk_is_rejected() {
    let good = framed(42, "RuSt".as_bytes(), MESSAGE.as_bytes(), 2882656334);
    for cut in 0..good.len() {
        assert_eq!(
            Chunk::parse(&good[..cut]).unwrap_err(),
            FormatError::Truncated
        );
    }
    let huge = framed(u32::MAX, "RuSt".as_bytes(), b"abc", 0);
    assert_eq!(Chunk::parse(&huge).unwrap_err(), FormatError::Truncated);
}

#[test]
fn chunk_with_bad_type_is_rejected() {
    let bytes = framed(0, b"Ru1t", b"", 0);
    assert_eq!(Chunk::parse(&bytes).unwrap_err(), FormatError::NonAlphabetic);
}

#[test]
fn chunk_parse_at_gives_next_offset() {
    let mut bytes = vec![9u8, 9u8];
    bytes.extend(framed(42, "RuSt".as_bytes(), MESSAGE.as_bytes(), 2882656334));
    bytes.extend([1u8, 2u8]);
    let (chunk, next) = Chunk::parse_at(&bytes, 2).unwrap();
    assert_eq!(next, 2 + 12 + 42);
    assert_eq!(chunk.data(), MESSAGE.as_bytes());
}

#[test]
fn data_as_string_rejects_invalid_utf8() {
    let chunk = Chunk::new(ChunkType::from_str("RuSt").unwrap(), vec![0xff, 0xfe]);
    assert_eq!(chunk.data_as_string(), Err(FormatError::InvalidEncoding));
}
