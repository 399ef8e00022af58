//! The four-letter type code of a chunk, and what the case of each letter says.

use crate::error::PngError;
use crate::text::{
    ascii_bytes, ascii_string, ascii_text, is_ascii_bytes, lemma_ascii_encoding,
    lemma_ascii_text_encoding,
};
use std::convert::TryFrom;
use std::str::FromStr;
use vstd::prelude::*;
use vstd::std_specs::convert::TryFromSpecImpl;
use vstd::utf8::{encode_utf8, is_ascii_chars};

verus! {

/// `b` is an ASCII capital letter, `A` to `Z`.
pub open spec fn is_upper(b: u8) -> bool {
    0x41 <= b <= 0x5a
}

/// `b` is an ASCII small letter, `a` to `z`.
pub open spec fn is_lower(b: u8) -> bool {
    0x61 <= b <= 0x7a
}

/// `b` is an ASCII letter.
pub open spec fn is_letter(b: u8) -> bool {
    is_upper(b) || is_lower(b)
}

/// `code` is a type code: exactly four bytes, each an ASCII letter.
pub open spec fn is_type_code(code: Seq<u8>) -> bool {
    &&& code.len() == 4
    &&& forall|i: int| 0 <= i < 4 ==> is_letter(#[trigger] code[i])
}

/// `text` spells a type code: exactly four characters, each an ASCII letter.
pub open spec fn is_type_text(text: Seq<char>) -> bool {
    &&& text.len() == 4
    &&& forall|i: int|
        0 <= i < 4 ==> ('A' <= #[trigger] text[i] <= 'Z' || 'a' <= text[i] <= 'z')
}

/// The bytes of a type code are ASCII, and the text they spell is made of
/// four letters.
pub proof fn lemma_type_code(code: Seq<u8>)
    requires
        is_type_code(code),
    ensures
        is_ascii_bytes(code),
        is_type_text(ascii_text(code)),
        ascii_bytes(ascii_text(code)) == code,
{
    assert forall|i: int| 0 <= i < code.len() implies #[trigger] code[i] < 0x80 by {
        assert(is_letter(code[i]));
    }
    assert forall|i: int| 0 <= i < 4 implies ('A' <= #[trigger] ascii_text(code)[i] <= 'Z' || 'a'
        <= ascii_text(code)[i] <= 'z') by {
        assert(is_letter(code[i]));
    }
    assert(ascii_bytes(ascii_text(code)) =~= code);
}

/// A text of four letters is ASCII; its UTF-8 encoding has one byte for each
/// letter, and those bytes are a type code that spells the text again.
pub proof fn lemma_type_text(text: Seq<char>)
    requires
        is_type_text(text),
    ensures
        is_ascii_chars(text),
        encode_utf8(text) == ascii_bytes(text),
        is_type_code(ascii_bytes(text)),
        ascii_text(ascii_bytes(text)) == text,
{
    assert forall|i: int| 0 <= i < text.len() implies '\0' <= #[trigger] text[i] <= '\u{7f}' by {
        assert('A' <= text[i] <= 'Z' || 'a' <= text[i] <= 'z');
    }
    lemma_ascii_text_encoding(text);
    assert forall|i: int| 0 <= i < 4 implies is_letter(#[trigger] ascii_bytes(text)[i]) by {
        assert('A' <= text[i] <= 'Z' || 'a' <= text[i] <= 'z');
    }
}

fn byte_is_upper(b: u8) -> (r: bool)
    ensures
        r == is_upper(b),
{
    0x41 <= b && b <= 0x5a
}

fn byte_is_lower(b: u8) -> (r: bool)
    ensures
        r == is_lower(b),
{
    0x61 <= b && b <= 0x7a
}

/// A chunk's type code: four ASCII letters.
///
/// Its view is the sequence of its four bytes.
#[derive(Debug, PartialEq, Eq, Structural)]
pub struct ChunkType(u8, u8, u8, u8);

impl View for ChunkType {
    type V = Seq<u8>;

    closed spec fn view(&self) -> Seq<u8> {
        seq![self.0, self.1, self.2, self.3]
    }
}

impl ChunkType {
    /// The invariant of the type: all four bytes are ASCII letters.
    #[verifier::type_invariant]
    pub closed spec fn wf(&self) -> bool {
        is_letter(self.0) && is_letter(self.1) && is_letter(self.2) && is_letter(self.3)
    }

    /// The type code with the given four bytes.
    pub closed spec fn of(code: Seq<u8>) -> ChunkType {
        ChunkType(code[0], code[1], code[2], code[3])
    }

    /// A value is well formed exactly when its view is a type code, and the
    /// view always has four bytes.
    pub proof fn lemma_wf(self)
        ensures
            self@.len() == 4,
            self.wf() <==> is_type_code(self@),
            ChunkType::of(self@) == self,
    {
        if is_type_code(self@) {
            assert(is_letter(self@[0]) && is_letter(self@[1]) && is_letter(self@[2]) && is_letter(
                self@[3],
            ));
        }
    }

    /// `of` builds the value whose view is the given four bytes.
    pub proof fn lemma_of(code: Seq<u8>)
        requires
            code.len() == 4,
        ensures
            ChunkType::of(code)@ == code,
    {
        assert(ChunkType::of(code)@ =~= code);
    }

    /// What `from_str` makes of a text: the type code that a text of four
    /// ASCII letters spells, and a failure for every other text.
    pub open spec fn spec_from_str(text: Seq<char>) -> Result<ChunkType, PngError> {
        if is_type_text(text) {
            Ok(ChunkType::of(ascii_bytes(text)))
        } else {
            Err(PngError::ChunkTypeError)
        }
    }

    /// The text that the code renders to: its four letters.
    pub open spec fn spec_to_string(&self) -> Seq<char> {
        ascii_text(self@)
    }

    /// The type code that `s` spells, if `s` is exactly four ASCII letters.
    pub fn from_str(s: &str) -> (r: Result<ChunkType, PngError>)
        ensures
            r == ChunkType::spec_from_str(s@),
            r matches Ok(t) ==> t.wf() && t@ == ascii_bytes(s@),
    {
        let bytes = s.as_bytes();
        if bytes.len() != 4 {
            proof {
                if is_type_text(s@) {
                    lemma_type_text(s@);
                }
            }
            return Err(PngError::ChunkTypeError);
        }
        let code: [u8; 4] = [bytes[0], bytes[1], bytes[2], bytes[3]];
        assert(code@ =~= bytes@);
        let r = ChunkType::try_from(code);
        proof {
            if is_type_code(code@) {
                lemma_type_code(code@);
                lemma_ascii_encoding(s@);
                lemma_type_text(s@);
            } else if is_type_text(s@) {
                lemma_type_text(s@);
            }
        }
        r
    }

    /// The code as text: its four letters.
    pub fn to_string(&self) -> (r: String)
        ensures
            r@ == self.spec_to_string(),
    {
        proof {
            use_type_invariant(self);
            self.lemma_wf();
            lemma_type_code(self@);
        }
        let mut letters: Vec<u8> = Vec::new();
        letters.push(self.0);
        letters.push(self.1);
        letters.push(self.2);
        letters.push(self.3);
        assert(letters@ =~= self@);
        ascii_string(letters)
    }

    /// Whether the code renders to the text `s`.
    pub fn spells(&self, s: &str) -> (r: bool)
        ensures
            r == (self.spec_to_string() == s@),
    {
        proof {
            use_type_invariant(self);
            self.lemma_wf();
            lemma_type_code(self@);
        }
        let bytes = s.as_bytes();
        let r = bytes.len() == 4 && bytes[0] == self.0 && bytes[1] == self.1 && bytes[2] == self.2
            && bytes[3] == self.3;
        proof {
            if r {
                assert(bytes@ =~= self@);
                lemma_ascii_encoding(s@);
            } else if self.spec_to_string() == s@ {
                lemma_type_text(s@);
                assert(bytes@ =~= self@);
            }
        }
        r
    }

    /// The four bytes of the code, unchanged.
    pub fn bytes(&self) -> (r: [u8; 4])
        ensures
            r@ == self@,
    {
        let r: [u8; 4] = [self.0, self.1, self.2, self.3];
        assert(r@ =~= self@);
        r
    }

    /// Whether the code is valid, which is decided by the reserved bit alone.
    pub fn is_valid(&self) -> (r: bool)
        ensures
            r == is_upper(self@[2]),
    {
        self.is_reserved_bit_valid()
    }

    /// Whether the chunk is critical: its first letter is a capital.
    pub fn is_critical(&self) -> (r: bool)
        ensures
            r == is_upper(self@[0]),
    {
        byte_is_upper(self.0)
    }

    /// Whether the chunk is public: its second letter is a capital.
    pub fn is_public(&self) -> (r: bool)
        ensures
            r == is_upper(self@[1]),
    {
        byte_is_upper(self.1)
    }

    /// Whether the reserved bit is valid: the third letter is a capital.
    pub fn is_reserved_bit_valid(&self) -> (r: bool)
        ensures
            r == is_upper(self@[2]),
    {
        byte_is_upper(self.2)
    }

    /// Whether the chunk is safe to copy: its fourth letter is a small one.
    pub fn is_safe_to_copy(&self) -> (r: bool)
        ensures
            r == is_lower(self@[3]),
    {
        byte_is_lower(self.3)
    }
}

impl TryFromSpecImpl<[u8; 4]> for ChunkType {
    open spec fn obeys_try_from_spec() -> bool {
        true
    }

    open spec fn try_from_spec(value: [u8; 4]) -> Result<Self, Self::Error> {
        if is_type_code(value@) {
            Ok(ChunkType::of(value@))
        } else {
            Err(PngError::ChunkTypeError)
        }
    }
}

impl TryFrom<[u8; 4]> for ChunkType {
    type Error = PngError;

    /// The type code with the given bytes, if each of them is an ASCII letter.
    fn try_from(value: [u8; 4]) -> (r: Result<Self, Self::Error>)
        ensures
            r is Ok <==> is_type_code(value@),
            r matches Ok(t) ==> t@ == value@ && t.wf(),
            r matches Err(e) ==> e == PngError::ChunkTypeError,
    {
        let mut i: usize = 0;
        while i < 4
            invariant
                i <= 4,
                forall|j: int| 0 <= j < i ==> is_letter(#[trigger] value@[j]),
            decreases 4 - i,
        {
            let b: u8 = value[i];
            if !(byte_is_upper(b) || byte_is_lower(b)) {
                return Err(PngError::ChunkTypeError);
            }
            i = i + 1;
        }
        let t = ChunkType(value[0], value[1], value[2], value[3]);
        assert(t@ =~= value@);
        Ok(t)
    }
}

impl FromStr for ChunkType {
    type Err = PngError;

    /// The type code that `s` spells: `ChunkType::from_str`.
    fn from_str(s: &str) -> (r: Result<Self, Self::Err>)
        ensures
            r == ChunkType::spec_from_str(s@),
            r matches Ok(t) ==> t.wf() && t@ == ascii_bytes(s@),
    {
        ChunkType::from_str(s)
    }
}

/// A text of four ASCII letters, read as a type code and rendered again, is
/// the same text; the code read is well formed.
pub proof fn lemma_from_str_to_string(text: Seq<char>)
    requires
        is_type_text(text),
    ensures
        ChunkType::spec_from_str(text) matches Ok(t) && t.wf() && t@ == ascii_bytes(text)
            && t.spec_to_string() == text,
{
    lemma_type_text(text);
    let t = ChunkType::of(ascii_bytes(text));
    ChunkType::lemma_of(ascii_bytes(text));
    t.lemma_wf();
}

/// A text that is not made of exactly four ASCII letters is no type code:
/// reading it fails, and with the error for an invalid chunk type.
pub proof fn lemma_from_str_rejects(text: Seq<char>)
    requires
        !is_type_text(text),
    ensures
        ChunkType::spec_from_str(text) == Err::<ChunkType, PngError>(PngError::ChunkTypeError),
{
}

} // verus!
