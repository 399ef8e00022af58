//! Text made of ASCII bytes, and its relation to UTF-8.

use vstd::pervasive::unreached;
use vstd::prelude::*;
use vstd::utf8::*;

verus! {

/// Every byte of `bytes` is an ASCII character.
pub open spec fn is_ascii_bytes(bytes: Seq<u8>) -> bool {
    forall|i: int| 0 <= i < bytes.len() ==> #[trigger] bytes[i] < 0x80
}

/// The text that a sequence of ASCII bytes spells: one character per byte.
pub open spec fn ascii_text(bytes: Seq<u8>) -> Seq<char> {
    Seq::new(bytes.len(), |i: int| bytes[i] as char)
}

/// The bytes of a text of ASCII characters: one byte per character.
pub open spec fn ascii_bytes(text: Seq<char>) -> Seq<u8> {
    Seq::new(text.len(), |i: int| text[i] as u8)
}

/// `String::from_utf8` of the standard library: it succeeds exactly on the
/// byte sequences that are well-formed UTF-8, and the string it then returns
/// holds the characters that those bytes encode.
pub assume_specification[ String::from_utf8 ](bytes: Vec<u8>) -> (r: Result<
    String,
    std::string::FromUtf8Error,
>)
    ensures
        r is Ok <==> valid_utf8(bytes@),
        r matches Ok(s) ==> s@ == decode_utf8(bytes@),
;

/// ASCII bytes are well-formed UTF-8, and they encode the text they spell.
pub proof fn lemma_ascii_is_utf8(bytes: Seq<u8>)
    requires
        is_ascii_bytes(bytes),
    ensures
        valid_utf8(bytes),
        decode_utf8(bytes) == ascii_text(bytes),
        encode_utf8(ascii_text(bytes)) == bytes,
        ascii_bytes(ascii_text(bytes)) == bytes,
{
    let text = ascii_text(bytes);
    assert forall|i: int| 0 <= i < text.len() implies '\0' <= #[trigger] text[i] <= '\u{7f}' by {
        assert(bytes[i] < 0x80);
    }
    is_ascii_chars_encode_utf8(text);
    assert(encode_utf8(text) =~= bytes);
    assert(ascii_bytes(text) =~= bytes);
    encode_utf8_valid_utf8(text);
    encode_utf8_decode_utf8(text);
}

/// A text whose UTF-8 encoding is made of ASCII bytes is the text that those
/// bytes spell.
pub proof fn lemma_ascii_encoding(text: Seq<char>)
    requires
        is_ascii_bytes(encode_utf8(text)),
    ensures
        text == ascii_text(encode_utf8(text)),
{
    lemma_ascii_is_utf8(encode_utf8(text));
    encode_utf8_decode_utf8(text);
}

/// A text of ASCII characters is encoded in UTF-8 by one byte per character.
pub proof fn lemma_ascii_text_encoding(text: Seq<char>)
    requires
        is_ascii_chars(text),
    ensures
        encode_utf8(text) == ascii_bytes(text),
        is_ascii_bytes(ascii_bytes(text)),
        ascii_text(ascii_bytes(text)) == text,
{
    is_ascii_chars_encode_utf8(text);
    assert(encode_utf8(text) =~= ascii_bytes(text));
    assert forall|i: int| 0 <= i < text.len() implies #[trigger] ascii_bytes(text)[i] < 0x80 by {
        assert('\0' <= text[i] <= '\u{7f}');
    }
    lemma_ascii_encoding(text);
}

/// The string that the given ASCII bytes spell.
pub(crate) fn ascii_string(bytes: Vec<u8>) -> (r: String)
    requires
        is_ascii_bytes(bytes@),
    ensures
        r@ == ascii_text(bytes@),
{
    proof {
        lemma_ascii_is_utf8(bytes@);
    }
    match String::from_utf8(bytes) {
        Ok(s) => s,
        Err(_) => unreached(),
    }
}

/// The ASCII digit for a number below ten.
pub open spec fn digit(d: nat) -> u8 {
    (0x30 + d) as u8
}

/// The decimal numeral of `n` in ASCII digits, without leading zeros.
pub open spec fn decimal(n: nat) -> Seq<u8>
    decreases n,
{
    if n < 10 {
        seq![digit(n)]
    } else {
        decimal(n / 10).push(digit(n % 10))
    }
}

/// The numerals of the bytes of `data`, separated by a comma and a space.
pub open spec fn list_items(data: Seq<u8>) -> Seq<u8>
    decreases data.len(),
{
    if data.len() == 0 {
        Seq::empty()
    } else if data.len() == 1 {
        decimal(data[0] as nat)
    } else {
        list_items(data.drop_last()) + seq![0x2cu8, 0x20u8] + decimal(data.last() as nat)
    }
}

/// The bytes of `data` as a list in square brackets, such as `[1, 2, 3]`.
pub open spec fn byte_list(data: Seq<u8>) -> Seq<u8> {
    seq![0x5bu8] + list_items(data) + seq![0x5du8]
}

/// Two runs of ASCII bytes, one after the other, are ASCII.
pub proof fn lemma_ascii_concat(a: Seq<u8>, b: Seq<u8>)
    requires
        is_ascii_bytes(a),
        is_ascii_bytes(b),
    ensures
        is_ascii_bytes(a + b),
{
    assert forall|i: int| 0 <= i < (a + b).len() implies #[trigger] (a + b)[i] < 0x80 by {
        if i < a.len() {
            assert((a + b)[i] == a[i]);
        } else {
            assert((a + b)[i] == b[i - a.len()]);
        }
    }
}

/// A decimal numeral is made of ASCII digits.
pub proof fn lemma_decimal_ascii(n: nat)
    ensures
        is_ascii_bytes(decimal(n)),
        decimal(n).len() >= 1,
    decreases n,
{
    if n >= 10 {
        lemma_decimal_ascii(n / 10);
        lemma_ascii_concat(decimal(n / 10), seq![digit(n % 10)]);
        assert(decimal(n / 10) + seq![digit(n % 10)] =~= decimal(n));
    }
}

/// Appends the decimal numeral of `n`.
pub(crate) fn push_decimal(out: &mut Vec<u8>, n: u32)
    requires
        is_ascii_bytes(old(out)@),
    ensures
        final(out)@ == old(out)@ + decimal(n as nat),
        is_ascii_bytes(final(out)@),
    decreases n,
{
    proof {
        lemma_decimal_ascii(n as nat);
        lemma_ascii_concat(old(out)@, decimal(n as nat));
    }
    if n >= 10 {
        push_decimal(out, n / 10);
    }
    let d: u8 = (n % 10) as u8;
    out.push(0x30 + d);
    assert(out@ =~= old(out)@ + decimal(n as nat));
}

/// Appends the bytes of `data` as a list in square brackets.
pub(crate) fn push_byte_list(out: &mut Vec<u8>, data: &[u8])
    requires
        is_ascii_bytes(old(out)@),
    ensures
        final(out)@ == old(out)@ + byte_list(data@),
        is_ascii_bytes(final(out)@),
{
    out.push(0x5b);
    let ghost start = out@;
    assert(is_ascii_bytes(start)) by {
        lemma_ascii_concat(old(out)@, seq![0x5bu8]);
        assert(start =~= old(out)@ + seq![0x5bu8]);
    }
    let mut i: usize = 0;
    while i < data.len()
        invariant
            i <= data@.len(),
            out@ == start + list_items(data@.take(i as int)),
            is_ascii_bytes(out@),
        decreases data@.len() - i,
    {
        let ghost before = out@;
        if i > 0 {
            out.push(0x2c);
            out.push(0x20);
            proof {
                lemma_ascii_concat(before, seq![0x2cu8, 0x20u8]);
                assert(out@ =~= before + seq![0x2cu8, 0x20u8]);
            }
        }
        push_decimal(out, data[i] as u32);
        proof {
            let next = data@.take(i + 1);
            assert(next.drop_last() =~= data@.take(i as int));
            assert(next.last() == data@[i as int]);
            assert(out@ =~= start + list_items(next));
        }
        i = i + 1;
    }
    assert(data@.take(i as int) =~= data@);
    let ghost body = out@;
    out.push(0x5d);
    proof {
        lemma_ascii_concat(body, seq![0x5du8]);
        assert(out@ =~= body + seq![0x5du8]);
        assert(out@ =~= old(out)@ + byte_list(data@));
    }
}

} // verus!
