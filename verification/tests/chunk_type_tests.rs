use pngme::chunk_type::ChunkType;
use pngme::error::PngError;
use std::convert::TryFrom;
use std::str::FromStr;

#[test]
pub fn test_chunk_type_from_bytes() {
    let expected = [82, 117, 83, 116];
    let actual = ChunkType::try_from([82, 117, 83, 116]).unwrap();

    assert_eq!(expected, actual.bytes());
}

#[test]
pub fn test_chunk_type_from_str() {
    let expected = ChunkType::try_from([82, 117, 83, 116]).unwrap();
    let actual = ChunkType::from_str("RuSt").unwrap();
    assert_eq!(expected, actual);
}

#[test]
pub fn test_chunk_type_is_critical() {
    let chunk = ChunkType::from_str("RuSt").unwrap();
    assert!(chunk.is_critical());
}

#[test]
pub fn test_chunk_type_is_not_critical() {
    let chunk = ChunkType::from_str("ruSt").unwrap();
    assert!(!chunk.is_critical());
}

#[test]
pub fn test_chunk_type_is_public() {
    let chunk = ChunkType::from_str("RUSt").unwrap();
    assert!(chunk.is_public());
}

#[test]
pub fn test_chunk_type_is_not_public() {
    let chunk = ChunkType::from_str("RuSt").unwrap();
    assert!(!chunk.is_public());
}

#[test]
pub fn test_chunk_type_is_reserved_bit_valid() {
    let chunk = ChunkType::from_str("RuSt").unwrap();
    assert!(chunk.is_reserved_bit_valid());
}

#[test]
pub fn test_chunk_type_is_reserved_bit_invalid() {
    let chunk = ChunkType::from_str("Rust").unwrap();
    assert!(!chunk.is_reserved_bit_valid());
}

#[test]
pub fn test_chunk_type_is_safe_to_copy() {
    let chunk = ChunkType::from_str("RuSt").unwrap();
    assert!(chunk.is_safe_to_copy());
}

#[test]
pub fn test_chunk_type_is_unsafe_to_copy() {
    let chunk = ChunkType::from_str("RuST").unwrap();
    assert!(!chunk.is_safe_to_copy());
}

#[test]
pub fn test_valid_chunk_is_valid() {
    let chunk = ChunkType::from_str("RuSt").unwrap();
    assert!(chunk.is_valid());
}

#[test]
pub fn test_invalid_chunk_is_valid() {
    let chunk = ChunkType::from_str("Rust").unwrap();
    assert!(!chunk.is_valid());

    let chunk = ChunkType::from_str("Ru1t");
    assert!(chunk.is_err());
}

#[test]
pub fn test_chunk_type_string() {
    let chunk = ChunkType::from_str("RuSt").unwrap();
    assert_eq!(&chunk.to_string(), "RuSt");
}

#[test]
pub fn test_chunk_type_trait_impls() {
    let chunk_type_1: ChunkType = TryFrom::try_from([82, 117, 83, 116]).unwrap();
    let chunk_type_2: ChunkType = FromStr::from_str("RuSt").unwrap();
    let _chunk_string = chunk_type_1.to_string();
    let _are_chunks_equal = chunk_type_1 == chunk_type_2;
}

#[test]
pub fn test_chunk_type_rust_scenario() {
    let chunk = ChunkType::from_str("RuSt").unwrap();
    assert_eq!(chunk.bytes(), [82, 117, 83, 116]);
    assert!(chunk.is_critical());
    assert!(!chunk.is_public());
    assert!(chunk.is_reserved_bit_valid());
    assert!(chunk.is_safe_to_copy());
    assert!(chunk.is_valid());

    let chunk = ChunkType::from_str("Rust").unwrap();
    assert_eq!(chunk.bytes(), [82, 117, 115, 116]);
    assert!(!chunk.is_reserved_bit_valid());
    assert!(!chunk.is_valid());
}

#[test]
pub fn test_chunk_type_text_round_trip() {
    for text in ["RuSt", "IHDR", "IEND", "tEXt", "abcd", "ZZZZ", "AzaZ"] {
        let chunk = ChunkType::from_str(text).unwrap();
        assert_eq!(chunk.to_string(), text);
        assert_eq!(chunk.bytes().to_vec(), text.as_bytes().to_vec());
        assert!(chunk.spells(text));
    }
}

#[test]
pub fn test_chunk_type_rejects_other_texts() {
    for text in ["", "R", "RuS", "RuStt", "Ru1t", "Ru t", "RuS\n", "Ru-t", "R\u{e9}S", "\u{e9}\u{e9}", "1234", "@bcd", "[bcd", "`bcd", "{bcd"] {
        assert!(matches!(ChunkType::from_str(text), Err(PngError::ChunkTypeError)), "{}", text);
    }
    let by_trait: Result<ChunkType, PngError> = FromStr::from_str("Ru1t");
    assert!(matches!(by_trait, Err(PngError::ChunkTypeError)));
}

#[test]
pub fn test_chunk_type_rejects_other_bytes() {
    for bytes in [[82, 117, 49, 116], [0, 0, 0, 0], [64, 65, 65, 65], [65, 91, 65, 65], [65, 65, 96, 65], [65, 65, 65, 123], [200, 65, 65, 65]] {
        assert!(matches!(ChunkType::try_from(bytes), Err(PngError::ChunkTypeError)));
    }
    for bytes in [[65, 90, 97, 122], [66, 89, 98, 121]] {
        assert_eq!(ChunkType::try_from(bytes).unwrap().bytes(), bytes);
    }
}

#[test]
pub fn test_chunk_type_spells_only_its_own_text() {
    let chunk = ChunkType::from_str("RuSt").unwrap();
    assert!(chunk.spells("RuSt"));
    for text in ["Rust", "RuS", "RuStt", "", "ruSt", "RuS\u{e9}"] {
        assert!(!chunk.spells(text));
    }
}

#[test]
pub fn test_chunk_type_predicates_follow_case() {
    let chunk = ChunkType::from_str("aBcD").unwrap();
    assert!(!chunk.is_critical());
    assert!(chunk.is_public());
    assert!(!chunk.is_reserved_bit_valid());
    assert!(!chunk.is_valid());
    assert!(!chunk.is_safe_to_copy());
}
