use pngme::chunk::Chunk;
use pngme::chunk_type::ChunkType;
use pngme::error::PngError;
use pngme::png::Png;
use std::convert::TryFrom;
use std::str::FromStr;

const SIGNATURE: [u8; 8] = [0x89, 0x50, 0x4e, 0x47, 0x0d, 0x0a, 0x1a, 0x0a];

fn chunk_from_strings(chunk_type: &str, data: &str) -> Chunk {
    Chunk::new(ChunkType::from_str(chunk_type).unwrap(), data.bytes().collect())
}

fn testing_chunks() -> Vec<Chunk> {
    vec![
        chunk_from_strings("FrSt", "I am the first chunk"),
        chunk_from_strings("miDl", "I am another chunk"),
        chunk_from_strings("LASt", "I am the last chunk"),
    ]
}

fn testing_png() -> Png {
    Png::from_chunks(testing_chunks())
}

fn testing_bytes() -> Vec<u8> {
    let mut bytes = SIGNATURE.to_vec();
    for chunk in testing_chunks() {
        bytes.extend(chunk.as_bytes());
    }
    bytes
}

fn type_codes(png: &Png) -> Vec<String> {
    png.chunks().iter().map(|c| c.chunk_type().to_string()).collect()
}

#[test]
fn test_png_header() {
    let png = testing_png();
    assert_eq!(png.header(), &SIGNATURE);
    assert_eq!(Png::STANDARD_HEADER, [137, 80, 78, 71, 13, 10, 26, 10]);
}

#[test]
fn test_png_from_chunks() {
    let png = testing_png();
    assert_eq!(png.chunks().len(), 3);
    assert_eq!(type_codes(&png), vec!["FrSt", "miDl", "LASt"]);
    assert_eq!(Png::from_chunks(Vec::new()).chunks().len(), 0);
}

#[test]
fn test_png_encoding_is_exact() {
    let png = testing_png();
    assert_eq!(png.as_bytes(), testing_bytes());
    assert_eq!(Png::from_chunks(Vec::new()).as_bytes(), SIGNATURE.to_vec());
    let one = Png::from_chunks(vec![Chunk::new(ChunkType::from_str("IEND").unwrap(), Vec::new())]);
    assert_eq!(
        one.as_bytes(),
        vec![137, 80, 78, 71, 13, 10, 26, 10, 0, 0, 0, 0, 73, 69, 78, 68, 0xae, 0x42, 0x60, 0x82]
    );
}

#[test]
fn test_png_decode_valid() {
    let png = Png::try_from(testing_bytes().as_slice()).unwrap();
    assert_eq!(png.chunks().len(), 3);
    assert_eq!(type_codes(&png), vec!["FrSt", "miDl", "LASt"]);
    assert_eq!(png.chunks()[0].data_as_string().unwrap(), "I am the first chunk");
    assert_eq!(png.chunks()[1].crc(), 3346321170);
    assert_eq!(png.chunks()[2].length(), 19);
}

#[test]
fn test_png_round_trip() {
    let png = testing_png();
    let bytes = png.as_bytes();
    let decoded = Png::try_from(bytes.as_slice()).unwrap();
    assert_eq!(decoded.chunks().len(), png.chunks().len());
    for (a, b) in decoded.chunks().iter().zip(png.chunks().iter()) {
        assert_eq!(a.length(), b.length());
        assert_eq!(a.chunk_type(), b.chunk_type());
        assert_eq!(a.data(), b.data());
        assert_eq!(a.crc(), b.crc());
    }
    assert_eq!(decoded.as_bytes(), bytes);
    assert_eq!(png.as_bytes(), bytes);
    let empty = Png::try_from(&SIGNATURE[..]).unwrap();
    assert_eq!(empty.chunks().len(), 0);
    assert_eq!(empty.as_bytes(), SIGNATURE.to_vec());
}

#[test]
fn test_png_invalid_signature() {
    let mut bytes = testing_bytes();
    bytes[0] = 13;
    assert!(matches!(Png::try_from(bytes.as_slice()), Err(PngError::InValidPngHeader)));
    for at in 0..8 {
        let mut bytes = testing_bytes();
        bytes[at] ^= 1;
        assert!(matches!(Png::try_from(bytes.as_slice()), Err(PngError::InValidPngHeader)));
    }
    for n in 0..8 {
        assert!(matches!(Png::try_from(&SIGNATURE[..n]), Err(PngError::InValidPngHeader)));
    }
    let no_signature: Vec<u8> = testing_chunks().iter().flat_map(|c| c.as_bytes()).collect();
    assert!(matches!(
        Png::try_from(no_signature.as_slice()),
        Err(PngError::InValidPngHeader)
    ));
}

#[test]
fn test_png_invalid_chunk() {
    let mut bytes = testing_bytes();
    let n = bytes.len();
    bytes[n - 1] ^= 0x10;
    assert!(matches!(Png::try_from(bytes.as_slice()), Err(PngError::CRCError)));

    let mut bytes = testing_bytes();
    bytes[8 + 4] = b'1';
    assert!(matches!(Png::try_from(bytes.as_slice()), Err(PngError::ChunkTypeError)));

    let mut bytes = testing_bytes();
    bytes[8 + 9] ^= 0xff;
    assert!(matches!(Png::try_from(bytes.as_slice()), Err(PngError::CRCError)));
}

#[test]
fn test_png_truncated_chunk() {
    let bytes = testing_bytes();
    for cut in 1..=30 {
        let short = &bytes[..bytes.len() - cut];
        assert!(matches!(Png::try_from(short), Err(PngError::ChunkError)), "{}", cut);
    }
    let mut long = testing_bytes();
    long.extend([0u8, 0, 0]);
    assert!(matches!(Png::try_from(long.as_slice()), Err(PngError::ChunkError)));
    let mut huge = SIGNATURE.to_vec();
    huge.extend([0xffu8, 0xff, 0xff, 0xff, 82, 117, 83, 116, 0, 0, 0, 0]);
    assert!(matches!(Png::try_from(huge.as_slice()), Err(PngError::ChunkError)));
}

#[test]
fn test_png_first_failure_wins() {
    let mut bytes = testing_bytes();
    bytes[8 + 4] = b'1';
    let n = bytes.len();
    bytes[n - 1] ^= 1;
    assert!(matches!(Png::try_from(bytes.as_slice()), Err(PngError::ChunkTypeError)));
}

#[test]
fn test_png_append_chunk() {
    let mut png = testing_png();
    png.append_chunk(chunk_from_strings("TeSt", "Message"));
    assert_eq!(type_codes(&png), vec!["FrSt", "miDl", "LASt", "TeSt"]);
    let chunk = png.chunk_by_type("TeSt").unwrap();
    assert_eq!(chunk.chunk_type().to_string(), "TeSt");
    assert_eq!(chunk.data_as_string().unwrap(), "Message");
}

#[test]
fn test_png_chunk_by_type() {
    let png = testing_png();
    let chunk = png.chunk_by_type("FrSt").unwrap();
    assert_eq!(chunk.chunk_type().to_string(), "FrSt");
    assert_eq!(chunk.data_as_string().unwrap(), "I am the first chunk");
    assert!(png.chunk_by_type("frSt").is_none());
    assert!(png.chunk_by_type("FrS").is_none());
    assert!(png.chunk_by_type("").is_none());
    assert!(png.chunk_by_type("FrSt ").is_none());
}

#[test]
fn test_png_chunk_by_type_is_the_first() {
    let mut png = testing_png();
    png.append_chunk(chunk_from_strings("miDl", "I am a later chunk"));
    let chunk = png.chunk_by_type("miDl").unwrap();
    assert_eq!(chunk.data_as_string().unwrap(), "I am another chunk");
    let removed = png.remove_chunk("miDl").unwrap();
    assert_eq!(removed.data_as_string().unwrap(), "I am another chunk");
    assert_eq!(type_codes(&png), vec!["FrSt", "LASt", "miDl"]);
    assert_eq!(
        png.chunk_by_type("miDl").unwrap().data_as_string().unwrap(),
        "I am a later chunk"
    );
}

#[test]
fn test_png_remove_chunk() {
    let mut png = testing_png();
    let removed = png.remove_chunk("miDl").unwrap();
    assert_eq!(removed.chunk_type().to_string(), "miDl");
    assert_eq!(removed.data_as_string().unwrap(), "I am another chunk");
    assert_eq!(type_codes(&png), vec!["FrSt", "LASt"]);
    assert!(png.chunk_by_type("miDl").is_none());
}

#[test]
fn test_png_append_then_remove_restores() {
    let mut png = testing_png();
    let before = png.as_bytes();
    png.append_chunk(chunk_from_strings("TeSt", "Message"));
    assert_ne!(png.as_bytes(), before);
    let removed = png.remove_chunk("TeSt").unwrap();
    assert_eq!(removed.data_as_string().unwrap(), "Message");
    assert_eq!(png.as_bytes(), before);
    assert_eq!(type_codes(&png), vec!["FrSt", "miDl", "LASt"]);
}

#[test]
fn test_png_remove_absent_chunk() {
    let mut png = testing_png();
    let before = png.as_bytes();
    assert!(matches!(png.remove_chunk("TeSt"), Err(PngError::NotFoundChunkType)));
    assert!(matches!(png.remove_chunk("Te1t"), Err(PngError::NotFoundChunkType)));
    assert!(matches!(png.remove_chunk(""), Err(PngError::NotFoundChunkType)));
    assert_eq!(png.as_bytes(), before);
    assert_eq!(png.chunks().len(), 3);
    let mut empty = Png::from_chunks(Vec::new());
    assert!(matches!(empty.remove_chunk("FrSt"), Err(PngError::NotFoundChunkType)));
}

#[test]
fn test_png_rendering() {
    let png = Png::from_chunks(vec![
        Chunk::new(ChunkType::from_str("RuSt").unwrap(), vec![1, 2, 3]),
        Chunk::new(ChunkType::from_str("IEND").unwrap(), Vec::new()),
    ]);
    assert_eq!(
        png.to_string(),
        "[137, 80, 78, 71, 13, 10, 26, 10]\n{3,RuSt,[1, 2, 3],1138384973}\n{0,IEND,[],2923585666}\n"
    );
    assert_eq!(
        Png::from_chunks(Vec::new()).to_string(),
        "[137, 80, 78, 71, 13, 10, 26, 10]\n"
    );
}
