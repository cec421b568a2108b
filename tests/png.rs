use pngme::{Chunk, ChunkType, Error, FormatError, Png};
use std::convert::TryFrom;
use std::str::FromStr;

fn chunk_from_strings(chunk_type: &str, data: &str) -> Chunk {
    let chunk_type = ChunkType::from_str(chunk_type).unwrap();
    Chunk::new(chunk_type, data.as_bytes().to_vec())
}

fn testing_png() -> Png {
    Png::from_chunks(vec![
        chunk_from_strings("FrSt", "I am the first chunk"),
        chunk_from_strings("miDl", "I am another chunk"),
        chunk_from_strings("LASt", "I am the last chunk"),
    ])
}

#[test]
fn png_round_trip() {
    let png = testing_png();
    let bytes = png.as_bytes();
    assert_eq!(&bytes[0..8], &Png::STANDARD_HEADER);
    let parsed = Png::try_from(bytes.as_ref()).unwrap();
    assert_eq!(parsed.chunks().len(), 3);
    for (a, b) in parsed.chunks().iter().zip(png.chunks().iter()) {
        assert_eq!(a.chunk_type(), b.chunk_type());
        assert_eq!(a.data(), b.data());
        assert_eq!(a.crc(), b.crc());
    }
    assert_eq!(parsed.as_bytes(), bytes);
}

#[test]
fn png_empty_round_trip() {
    let png = Png::from_chunks(Vec::new());
    let bytes = png.as_bytes();
    assert_eq!(bytes, Png::STANDARD_HEADER.to_vec());
    assert_eq!(Png::parse(&bytes).unwrap().chunks().len(), 0);
}

#[test]
fn png_append_lookup_remove() {
    let mut png = testing_png();
    png.append_chunk(chunk_from_strings("TeSt", "Message"));
    let found = png.chunk_by_type("TeSt").unwrap();
    assert_eq!(found.data_as_string().unwrap(), "Message");
    assert_eq!(png.chunks().len(), 4);

    let removed = png.remove_chunk("TeSt").unwrap();
    assert_eq!(removed.data(), b"Message");
    assert!(png.chunk_by_type("TeSt").is_none());
    assert_eq!(png.chunks().len(), 3);
}

#[test]
fn png_remove_missing_leaves_container() {
    let mut png = testing_png();
    let before = png.as_bytes();
    assert_eq!(
        png.remove_chunk("NoNe").unwrap_err(),
        Error::NotFound(String::from("NoNe"))
    );
    assert_eq!(png.as_bytes(), before);
}

#[test]
fn png_first_match_only() {
    let mut png = Png::from_chunks(vec![
        chunk_from_strings("DuPe", "one"),
        chunk_from_strings("DuPe", "two"),
    ]);
    assert_eq!(png.chunk_by_type("DuPe").unwrap().data(), b"one");
    assert_eq!(png.remove_chunk("DuPe").unwrap().data(), b"one");
    assert_eq!(png.chunk_by_type("DuPe").unwrap().data(), b"two");
    assert_eq!(png.header().data(), b"two");
}

#[test]
fn png_bad_signature() {
    let mut bytes = testing_png().as_bytes();
    bytes[0] = 0;
    assert_eq!(
        Png::parse(&bytes).unwrap_err(),
        Error::Format(FormatError::BadSignature)
    );
    assert_eq!(
        Png::parse(&[137, 80, 78]).unwrap_err(),
        Error::Format(FormatError::BadSignature)
    );
}

#[test]
fn png_truncated_chunk() {
    let bytes = testing_png().as_bytes();
    let cut = &bytes[..bytes.len() - 1];
    assert_eq!(
        Png::parse(cut).unwrap_err(),
        Error::Format(FormatError::Truncated)
    );
}

#[test]
fn png_corrupt_chunk() {
    let mut bytes = testing_png().as_bytes();
    let last = bytes.len() - 1;
    bytes[last] ^= 0x80;
    assert_eq!(
        Png::parse(&bytes).unwrap_err(),
        Error::Format(FormatError::CrcMismatch)
    );
}

#[test]
fn png_header_is_first_chunk() {
    let png = testing_png();
    assert_eq!(png.header().chunk_type().to_string(), "FrSt");
}
