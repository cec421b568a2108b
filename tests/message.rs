use pngme::message::{decode_message, encode_message};
use pngme::{Chunk, ChunkType, FormatError, Png};
use std::str::FromStr;

fn chunk(kind: &str, data: &[u8]) -> Chunk {
    Chunk::new(ChunkType::from_str(kind).unwrap(), data.to_vec())
}

#[test]
fn encode_then_decode_message() {
    let mut png = Png::from_chunks(vec![chunk("IHDR", b"head"), chunk("IEND", b"")]);
    encode_message(&mut png, "RuSt", b"secret".to_vec()).unwrap();
    assert_eq!(png.chunks().len(), 3);
    assert_eq!(png.chunks()[2].chunk_type().to_string(), "RuSt");
    assert_eq!(decode_message(&png, "RuSt"), Some(Ok(String::from("secret"))));
    assert_eq!(decode_message(&png, "NoNe"), None);
}

#[test]
fn encode_replaces_first_chunk_of_type() {
    let mut png = Png::from_chunks(vec![
        chunk("RuSt", b"old"),
        chunk("IEND", b""),
        chunk("RuSt", b"later"),
    ]);
    encode_message(&mut png, "RuSt", b"new".to_vec()).unwrap();
    let kinds: Vec<String> = png.chunks().iter().map(|c| c.chunk_type().to_string()).collect();
    assert_eq!(kinds, vec!["IEND", "RuSt", "RuSt"]);
    assert_eq!(png.chunks()[1].data(), b"later");
    assert_eq!(png.chunks()[2].data(), b"new");
}

#[test]
fn encode_with_bad_type_changes_nothing() {
    let mut png = Png::from_chunks(vec![chunk("IEND", b"")]);
    let before = png.as_bytes();
    assert_eq!(
        encode_message(&mut png, "Ru1t", b"x".to_vec()),
        Err(FormatError::NonAlphabetic)
    );
    assert_eq!(
        encode_message(&mut png, "RuStX", b"x".to_vec()),
        Err(FormatError::WrongLength)
    );
    assert_eq!(png.as_bytes(), before);
}

#[test]
fn decode_non_text_message() {
    let png = Png::from_chunks(vec![chunk("RuSt", &[0xc3, 0x28])]);
    assert_eq!(
        decode_message(&png, "RuSt"),
        Some(Err(FormatError::InvalidEncoding))
    );
}
