//! One chunk: a length, a type code, a payload and a checksum.

use crate::bytes::{
    be_bytes, be_u32, lemma_be_u32_injective, lemma_be_u32_of_bytes, u32_from_be, u32_to_be,
};
use crate::checksum::{checksum, crc32_iso_hdlc};
use crate::chunk_type::{is_type_code, lemma_type_code, ChunkType};
use crate::error::PngError;
use crate::text::{
    ascii_string, ascii_text, byte_list, decimal, is_ascii_bytes, lemma_ascii_concat,
    push_byte_list, push_decimal,
};
use std::convert::TryFrom;
use vstd::prelude::*;
use vstd::slice::slice_to_vec;
use vstd::std_specs::convert::TryFromSpecImpl;
use vstd::utf8::{decode_utf8, valid_utf8};

verus! {

/// The number of bytes that frame a payload: four for the length, four for
/// the type code and four for the checksum.
pub const CHUNK_OVERHEAD: usize = 12;

/// The length field of a chunk whose payload has `n` bytes: `n` itself
/// where it fits in thirty-two bits, and its low thirty-two bits otherwise.
pub open spec fn length_field(n: nat) -> u32 {
    (n % 0x1_0000_0000) as u32
}

/// What a chunk is: the values of its four fields.
pub struct ChunkView {
    /// The length field.
    pub length: u32,
    /// The four bytes of the type code.
    pub chunk_type: Seq<u8>,
    /// The payload.
    pub data: Seq<u8>,
    /// The checksum field.
    pub crc: u32,
}

impl ChunkView {
    /// The chunk with the given type code and payload: its length field
    /// counts the payload, its checksum covers type code and payload.
    pub open spec fn new(chunk_type: Seq<u8>, data: Seq<u8>) -> ChunkView {
        ChunkView {
            length: length_field(data.len()),
            chunk_type,
            data,
            crc: crc32_iso_hdlc(chunk_type + data),
        }
    }

    /// The invariant of a chunk: a type code of four letters, a length field
    /// that counts the payload, and the checksum of type code and payload.
    pub open spec fn wf(self) -> bool {
        &&& is_type_code(self.chunk_type)
        &&& self == ChunkView::new(self.chunk_type, self.data)
    }

    /// The encoding: length, type code, payload, checksum; the two numbers
    /// with their most significant byte first.
    pub open spec fn bytes(self) -> Seq<u8> {
        be_bytes(self.length) + self.chunk_type + self.data + be_bytes(self.crc)
    }

    /// What decoding makes of `bytes`. The type code is bytes four to eight,
    /// the checksum the last four bytes, and the payload all that lies
    /// between them; the first four bytes are not consulted.
    pub open spec fn decode(bytes: Seq<u8>) -> Result<ChunkView, PngError> {
        if bytes.len() < 12 {
            Err(PngError::ChunkError)
        } else if !is_type_code(bytes.subrange(4, 8)) {
            Err(PngError::ChunkTypeError)
        } else {
            let chunk = ChunkView::new(bytes.subrange(4, 8), bytes.subrange(8, bytes.len() - 4));
            if chunk.crc != be_u32(bytes.subrange(bytes.len() - 4, bytes.len() as int)) {
                Err(PngError::CRCError)
            } else {
                Ok(chunk)
            }
        }
    }

    /// The chunk as ASCII text for diagnostics: the length, the type code,
    /// the payload as a list of numbers and the checksum, in braces and
    /// separated by commas, such as `{3,RuSt,[1, 2, 3],1138384973}`.
    pub open spec fn text(self) -> Seq<u8> {
        seq![0x7bu8] + decimal(self.length as nat) + seq![0x2cu8] + self.chunk_type + seq![0x2cu8]
            + byte_list(self.data) + seq![0x2cu8] + decimal(self.crc as nat) + seq![0x7du8]
    }

    /// What `expect_crc` makes of a chunk and a declared checksum.
    pub open spec fn expect_crc(self, declared: u32) -> Result<ChunkView, PngError> {
        if self.crc == declared {
            Ok(self)
        } else {
            Err(PngError::CRCError)
        }
    }
}

/// One chunk of a container. Its view is a `ChunkView`.
pub struct Chunk {
    len: u32,
    chunk_type: ChunkType,
    data: Vec<u8>,
    crc: u32,
}

impl View for Chunk {
    type V = ChunkView;

    closed spec fn view(&self) -> ChunkView {
        ChunkView {
            length: self.len,
            chunk_type: self.chunk_type@,
            data: self.data@,
            crc: self.crc,
        }
    }
}

/// The result of an operation that yields a chunk, as a result over views.
pub open spec fn view_of(r: Result<Chunk, PngError>) -> Result<ChunkView, PngError> {
    match r {
        Ok(c) => Ok(c@),
        Err(e) => Err(e),
    }
}

impl Chunk {
    #[verifier::type_invariant]
    closed spec fn inv(&self) -> bool {
        self.chunk_type.wf() && self@.wf()
    }

    /// A chunk with the given type code and payload.
    pub fn new(chunk_type: ChunkType, data: Vec<u8>) -> (chunk: Chunk)
        ensures
            chunk@ == ChunkView::new(chunk_type@, data@),
            chunk@.wf(),
    {
        proof {
            use_type_invariant(&chunk_type);
            chunk_type.lemma_wf();
        }
        let code = chunk_type.bytes();
        let mut source: Vec<u8> = Vec::new();
        source.push(code[0]);
        source.push(code[1]);
        source.push(code[2]);
        source.push(code[3]);
        let mut i: usize = 0;
        while i < data.len()
            invariant
                i <= data@.len(),
                source@ == code@ + data@.subrange(0, i as int),
            decreases data@.len() - i,
        {
            source.push(data[i]);
            i = i + 1;
        }
        assert(source@ == chunk_type@ + data@) by {
            assert(data@.subrange(0, data@.len() as int) =~= data@);
        }
        let crc = checksum(source.as_slice());
        let n: u64 = data.len() as u64;
        let len: u32 = #[verifier::truncate]
        (n as u32);
        assert(len == length_field(data@.len())) by {
            assert(n as u32 == n % 0x1_0000_0000) by (bit_vector);
        }
        Chunk { len, chunk_type, data, crc }
    }

    /// The length field: the number of bytes of the payload.
    pub fn length(&self) -> (r: u32)
        ensures
            r == self@.length,
            r == length_field(self@.data.len()),
    {
        proof {
            use_type_invariant(self);
        }
        self.len
    }

    /// The type code.
    pub fn chunk_type(&self) -> (r: &ChunkType)
        ensures
            r@ == self@.chunk_type,
            r.wf(),
    {
        proof {
            use_type_invariant(self);
        }
        &self.chunk_type
    }

    /// The payload.
    pub fn data(&self) -> (r: &[u8])
        ensures
            r@ == self@.data,
    {
        self.data.as_slice()
    }

    /// The checksum of type code and payload.
    pub fn crc(&self) -> (r: u32)
        ensures
            r == self@.crc,
            r == crc32_iso_hdlc(self@.chunk_type + self@.data),
    {
        proof {
            use_type_invariant(self);
        }
        self.crc
    }

    /// The payload as text, if it is valid UTF-8.
    pub fn data_as_string(&self) -> (r: Result<String, PngError>)
        ensures
            r is Ok <==> valid_utf8(self@.data),
            r matches Ok(s) ==> s@ == decode_utf8(self@.data),
            r matches Err(e) ==> e is FromUTF8Error,
    {
        let bytes = slice_to_vec(self.data.as_slice());
        match String::from_utf8(bytes) {
            Ok(s) => Ok(s),
            Err(e) => Err(PngError::FromUTF8Error(e)),
        }
    }

    /// The encoding of the chunk: twelve bytes more than its payload.
    pub fn as_bytes(&self) -> (r: Vec<u8>)
        ensures
            r@ == self@.bytes(),
            r@.len() == 12 + self@.data.len(),
    {
        proof {
            use_type_invariant(self);
            self.chunk_type.lemma_wf();
            lemma_bytes_layout(self@);
        }
        let len = u32_to_be(self.len);
        let code = self.chunk_type.bytes();
        let crc = u32_to_be(self.crc);
        let mut r: Vec<u8> = Vec::new();
        r.push(len[0]);
        r.push(len[1]);
        r.push(len[2]);
        r.push(len[3]);
        r.push(code[0]);
        r.push(code[1]);
        r.push(code[2]);
        r.push(code[3]);
        assert(r@ =~= be_bytes(self.len) + self.chunk_type@);
        let mut i: usize = 0;
        while i < self.data.len()
            invariant
                i <= self.data@.len(),
                r@ == be_bytes(self.len) + self.chunk_type@ + self.data@.subrange(0, i as int),
            decreases self.data@.len() - i,
        {
            r.push(self.data[i]);
            i = i + 1;
        }
        assert(self.data@.subrange(0, self.data@.len() as int) =~= self.data@);
        r.push(crc[0]);
        r.push(crc[1]);
        r.push(crc[2]);
        r.push(crc[3]);
        assert(r@ =~= self@.bytes());
        r
    }

    /// Appends the chunk as text.
    pub(crate) fn push_text(&self, out: &mut Vec<u8>)
        requires
            is_ascii_bytes(old(out)@),
        ensures
            final(out)@ == old(out)@ + self@.text(),
            is_ascii_bytes(final(out)@),
    {
        proof {
            use_type_invariant(self);
            self.chunk_type.lemma_wf();
            lemma_type_code(self.chunk_type@);
        }
        let code = self.chunk_type.bytes();
        out.push(0x7b);
        proof {
            lemma_ascii_concat(old(out)@, seq![0x7bu8]);
            assert(out@ =~= old(out)@ + seq![0x7bu8]);
        }
        push_decimal(out, self.len);
        let ghost a = out@;
        out.push(0x2c);
        out.push(code[0]);
        out.push(code[1]);
        out.push(code[2]);
        out.push(code[3]);
        out.push(0x2c);
        proof {
            let added = seq![0x2cu8] + self.chunk_type@ + seq![0x2cu8];
            lemma_ascii_concat(seq![0x2cu8], self.chunk_type@);
            lemma_ascii_concat(seq![0x2cu8] + self.chunk_type@, seq![0x2cu8]);
            lemma_ascii_concat(a, added);
            assert(out@ =~= a + added);
        }
        push_byte_list(out, self.data.as_slice());
        let ghost b = out@;
        out.push(0x2c);
        proof {
            lemma_ascii_concat(b, seq![0x2cu8]);
            assert(out@ =~= b + seq![0x2cu8]);
        }
        push_decimal(out, self.crc);
        let ghost c = out@;
        out.push(0x7d);
        proof {
            lemma_ascii_concat(c, seq![0x7du8]);
            assert(out@ =~= c + seq![0x7du8]);
            assert(out@ =~= old(out)@ + self@.text());
        }
    }

    /// The chunk as text for diagnostics.
    pub fn to_string(&self) -> (r: String)
        ensures
            r@ == ascii_text(self@.text()),
    {
        let mut out: Vec<u8> = Vec::new();
        self.push_text(&mut out);
        assert(out@ =~= self@.text());
        ascii_string(out)
    }

    /// The chunk itself where its checksum is the declared one, and the
    /// checksum error where it is not.
    pub fn expect_crc(self, declared: u32) -> (r: Result<Chunk, PngError>)
        ensures
            view_of(r) == self@.expect_crc(declared),
            r matches Ok(c) ==> c == self,
    {
        if self.crc != declared {
            return Err(PngError::CRCError);
        }
        Ok(self)
    }
}

/// The result of `try_from` holds a vector, which no ghost value can be built
/// to equal; what `try_from` returns is therefore stated on the function
/// itself, over views.
impl TryFromSpecImpl<&[u8]> for Chunk {
    open spec fn obeys_try_from_spec() -> bool {
        false
    }

    open spec fn try_from_spec(value: &[u8]) -> Result<Self, Self::Error> {
        Err(PngError::ChunkError)
    }
}

impl TryFrom<&[u8]> for Chunk {
    type Error = PngError;

    /// The chunk that `value` encodes.
    fn try_from(value: &[u8]) -> (r: Result<Self, Self::Error>)
        ensures
            view_of(r) == ChunkView::decode(value@),
            r matches Ok(c) ==> c@.wf(),
    {
        if value.len() < CHUNK_OVERHEAD {
            return Err(PngError::ChunkError);
        }
        let code: [u8; 4] = [value[4], value[5], value[6], value[7]];
        assert(code@ =~= value@.subrange(4, 8));
        let chunk_type = match ChunkType::try_from(code) {
            Ok(t) => t,
            Err(e) => { return Err(PngError::ChunkTypeError); },
        };
        let end: usize = value.len() - 4;
        let data = slice_to_vec(&value[8..end]);
        let field: [u8; 4] = [value[end], value[end + 1], value[end + 2], value[end + 3]];
        assert(field@ =~= value@.subrange(end as int, value@.len() as int));
        let declared = u32_from_be(field);
        let chunk = Chunk::new(chunk_type, data);
        chunk.expect_crc(declared)
    }
}

/// The encoding of a chunk has twelve bytes more than its payload, and its
/// parts lie where decoding looks for them.
pub proof fn lemma_bytes_layout(chunk: ChunkView)
    requires
        chunk.chunk_type.len() == 4,
    ensures
        chunk.bytes().len() == 12 + chunk.data.len(),
        chunk.bytes().subrange(0, 4) == be_bytes(chunk.length),
        chunk.bytes().subrange(4, 8) == chunk.chunk_type,
        chunk.bytes().subrange(8, chunk.bytes().len() - 4) == chunk.data,
        chunk.bytes().subrange(chunk.bytes().len() - 4, chunk.bytes().len() as int) == be_bytes(
            chunk.crc,
        ),
{
    let b = chunk.bytes();
    lemma_be_u32_of_bytes(chunk.length);
    lemma_be_u32_of_bytes(chunk.crc);
    assert(b.subrange(0, 4) =~= be_bytes(chunk.length));
    assert(b.subrange(4, 8) =~= chunk.chunk_type);
    assert(b.subrange(8, b.len() - 4) =~= chunk.data);
    assert(b.subrange(b.len() - 4, b.len() as int) =~= be_bytes(chunk.crc));
}

/// A chunk made from a type code and a payload, encoded and decoded again,
/// is the same chunk: same length, type code, payload and checksum.
pub proof fn lemma_encode_decode(chunk_type: Seq<u8>, data: Seq<u8>)
    requires
        is_type_code(chunk_type),
    ensures
        ChunkView::new(chunk_type, data).wf(),
        ChunkView::decode(ChunkView::new(chunk_type, data).bytes()) == Ok::<ChunkView, PngError>(
            ChunkView::new(chunk_type, data),
        ),
{
    let chunk = ChunkView::new(chunk_type, data);
    lemma_bytes_layout(chunk);
    lemma_be_u32_of_bytes(chunk.crc);
}

/// What decodes is well formed, and has a payload of twelve bytes less than
/// the bytes it was decoded from.
pub proof fn lemma_decode_wf(bytes: Seq<u8>)
    requires
        ChunkView::decode(bytes) is Ok,
    ensures
        ChunkView::decode(bytes)->Ok_0.wf(),
        ChunkView::decode(bytes)->Ok_0.data.len() == bytes.len() - 12,
{
}

/// Fewer than twelve bytes decode to no chunk: the error is that of a
/// malformed chunk.
pub proof fn lemma_decode_short(bytes: Seq<u8>)
    requires
        bytes.len() < 12,
    ensures
        ChunkView::decode(bytes) == Err::<ChunkView, PngError>(PngError::ChunkError),
{
}

/// Where bytes decode to a chunk, any other content of their last four
/// bytes, all else unchanged, fails with the checksum error.
pub proof fn lemma_crc_field_changed(bytes: Seq<u8>, other: Seq<u8>)
    requires
        ChunkView::decode(bytes) is Ok,
        other.len() == bytes.len(),
        other.subrange(0, other.len() - 4) == bytes.subrange(0, bytes.len() - 4),
        other != bytes,
    ensures
        ChunkView::decode(other) == Err::<ChunkView, PngError>(PngError::CRCError),
{
    let n = bytes.len() as int;
    let head = bytes.subrange(0, n - 4);
    assert(bytes.subrange(4, 8) =~= head.subrange(4, 8));
    assert(other.subrange(4, 8) =~= other.subrange(0, n - 4).subrange(4, 8));
    assert(bytes.subrange(8, n - 4) =~= head.subrange(8, n - 4));
    assert(other.subrange(8, n - 4) =~= other.subrange(0, n - 4).subrange(8, n - 4));
    let old_crc = bytes.subrange(n - 4, n);
    let new_crc = other.subrange(n - 4, n);
    if be_u32(old_crc) == be_u32(new_crc) {
        lemma_be_u32_injective(old_crc, new_crc);
        assert(bytes =~= head + old_crc);
        assert(other =~= other.subrange(0, n - 4) + new_crc);
    }
}

/// Where bytes decode to a chunk, flipping any single bit of the checksum
/// field, the last four bytes, makes decoding fail with the checksum error.
pub proof fn lemma_crc_bit_flipped(bytes: Seq<u8>, at: int, bit: u8)
    requires
        ChunkView::decode(bytes) is Ok,
        bytes.len() - 4 <= at < bytes.len(),
        bit < 8,
    ensures
        ChunkView::decode(bytes.update(at, bytes[at] ^ (1u8 << bit))) == Err::<
            ChunkView,
            PngError,
        >(PngError::CRCError),
{
    let b = bytes[at];
    let flipped = bytes.update(at, b ^ (1u8 << bit));
    assert(b ^ (1u8 << bit) != b) by (bit_vector)
        requires
            bit < 8,
    ;
    assert(flipped[at] != bytes[at]);
    assert(flipped.subrange(0, flipped.len() - 4) =~= bytes.subrange(0, bytes.len() - 4));
    lemma_crc_field_changed(bytes, flipped);
}

} // verus!
