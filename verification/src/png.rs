//! The container: the eight signature bytes and an ordered sequence of chunks.

use crate::bytes::{be_u32, lemma_be_bytes_of_u32, lemma_be_u32_of_bytes, u32_from_be};
use crate::chunk::{
    lemma_bytes_layout, lemma_decode_wf, lemma_encode_decode, Chunk, ChunkView, CHUNK_OVERHEAD,
};
use crate::error::PngError;
use crate::text::{
    ascii_string, ascii_text, byte_list, is_ascii_bytes, lemma_ascii_concat, push_byte_list,
};
use std::convert::TryFrom;
use vstd::prelude::*;
use vstd::std_specs::convert::TryFromSpecImpl;

verus! {

/// The eight bytes with which every container begins.
pub open spec fn signature() -> Seq<u8> {
    seq![137u8, 80u8, 78u8, 71u8, 13u8, 10u8, 26u8, 10u8]
}

/// The encodings of the chunks, one after the other.
pub open spec fn chunks_bytes(chunks: Seq<ChunkView>) -> Seq<u8>
    decreases chunks.len(),
{
    if chunks.len() == 0 {
        Seq::empty()
    } else {
        chunks[0].bytes() + chunks_bytes(chunks.drop_first())
    }
}

/// The encoding of a container: the signature, then the chunks in order.
pub open spec fn png_bytes(chunks: Seq<ChunkView>) -> Seq<u8> {
    signature() + chunks_bytes(chunks)
}

/// The chunks as text, each followed by a line feed.
pub open spec fn chunks_text(chunks: Seq<ChunkView>) -> Seq<u8>
    decreases chunks.len(),
{
    if chunks.len() == 0 {
        Seq::empty()
    } else {
        chunks_text(chunks.drop_last()) + chunks.last().text() + seq![0x0au8]
    }
}

/// The container as ASCII text for diagnostics: a line with the signature
/// as a list of numbers, then a line for each chunk.
pub open spec fn png_text(chunks: Seq<ChunkView>) -> Seq<u8> {
    byte_list(signature()) + seq![0x0au8] + chunks_text(chunks)
}

/// `done` followed by what decoding the rest gave, or the failure of the rest.
pub open spec fn after(done: Seq<ChunkView>, rest: Result<Seq<ChunkView>, PngError>) -> Result<
    Seq<ChunkView>,
    PngError,
> {
    match rest {
        Ok(chunks) => Ok(done + chunks),
        Err(e) => Err(e),
    }
}

/// What decoding makes of a sequence of chunk records. Each record is as
/// long as its own length field says, twelve bytes of framing included; the
/// records are decoded in order and the first failure is the result. A
/// record that runs past the end of the bytes is malformed.
pub open spec fn decode_chunks(bytes: Seq<u8>) -> Result<Seq<ChunkView>, PngError>
    decreases bytes.len(),
{
    if bytes.len() == 0 {
        Ok(Seq::empty())
    } else if bytes.len() < 12 {
        Err(PngError::ChunkError)
    } else {
        let n = 12 + be_u32(bytes.subrange(0, 4));
        if bytes.len() < n {
            Err(PngError::ChunkError)
        } else {
            match ChunkView::decode(bytes.subrange(0, n)) {
                Err(e) => Err(e),
                Ok(chunk) => after(seq![chunk], decode_chunks(bytes.skip(n))),
            }
        }
    }
}

/// What decoding makes of a whole buffer: the signature must come first,
/// and the chunk records fill the rest.
pub open spec fn decode_png(bytes: Seq<u8>) -> Result<Seq<ChunkView>, PngError> {
    if bytes.len() < 8 || bytes.subrange(0, 8) != signature() {
        Err(PngError::InValidPngHeader)
    } else {
        decode_chunks(bytes.skip(8))
    }
}

/// The chunk's type code renders to `text`.
pub open spec fn has_type(chunk: ChunkView, text: Seq<char>) -> bool {
    ascii_text(chunk.chunk_type) == text
}

/// No chunk of the sequence has a type code that renders to `text`.
pub open spec fn has_no_type(chunks: Seq<ChunkView>, text: Seq<char>) -> bool {
    forall|j: int| 0 <= j < chunks.len() ==> !has_type(#[trigger] chunks[j], text)
}

/// `i` is the place of the first chunk whose type code renders to `text`.
pub open spec fn is_first_of_type(chunks: Seq<ChunkView>, text: Seq<char>, i: int) -> bool {
    &&& 0 <= i < chunks.len()
    &&& has_type(chunks[i], text)
    &&& has_no_type(chunks.take(i), text)
}

/// The place of the first chunk whose type code renders to `text`, if there
/// is such a chunk.
pub open spec fn first_of_type(chunks: Seq<ChunkView>, text: Seq<char>) -> Option<int> {
    if has_no_type(chunks, text) {
        None
    } else {
        Some(choose|i: int| is_first_of_type(chunks, text, i))
    }
}

/// The first place is unique: a place that is the first of its type is what
/// `first_of_type` gives.
pub proof fn lemma_first_of_type(chunks: Seq<ChunkView>, text: Seq<char>, i: int)
    requires
        is_first_of_type(chunks, text, i),
    ensures
        first_of_type(chunks, text) == Some(i),
{
    let k = choose|k: int| is_first_of_type(chunks, text, k);
    assert(has_type(chunks[i], text));
    if k < i {
        assert(chunks.take(i)[k] == chunks[k]);
    } else if i < k {
        assert(chunks.take(k)[i] == chunks[i]);
    }
}

/// The views of a sequence of chunks.
pub open spec fn views(chunks: Seq<Chunk>) -> Seq<ChunkView> {
    chunks.map_values(|c: Chunk| c@)
}

/// Every chunk of the sequence is well formed.
pub open spec fn all_wf(chunks: Seq<ChunkView>) -> bool {
    forall|i: int| 0 <= i < chunks.len() ==> (#[trigger] chunks[i]).wf()
}

/// A container: an ordered sequence of chunks behind the signature.
/// Its view is the sequence of the views of its chunks.
pub struct Png {
    chunks: Vec<Chunk>,
}

impl View for Png {
    type V = Seq<ChunkView>;

    closed spec fn view(&self) -> Seq<ChunkView> {
        views(self.chunks@)
    }
}

/// The result of an operation that yields a container, as a result over views.
pub open spec fn png_view_of(r: Result<Png, PngError>) -> Result<Seq<ChunkView>, PngError> {
    match r {
        Ok(png) => Ok(png@),
        Err(e) => Err(e),
    }
}

/// The result of removing a chunk, over views: the container that is left
/// and the chunk that was taken out.
pub open spec fn spec_remove(chunks: Seq<ChunkView>, text: Seq<char>) -> Result<
    (Seq<ChunkView>, ChunkView),
    PngError,
> {
    match first_of_type(chunks, text) {
        Some(i) => Ok((chunks.remove(i), chunks[i])),
        None => Err(PngError::NotFoundChunkType),
    }
}

impl Png {
    /// The signature bytes.
    pub const STANDARD_HEADER: [u8; 8] = [137, 80, 78, 71, 13, 10, 26, 10];

    /// The container that holds the given chunks, in their order.
    pub fn from_chunks(chunks: Vec<Chunk>) -> (png: Png)
        ensures
            png@ == views(chunks@),
    {
        Png { chunks }
    }

    /// Puts `chunk` at the end of the sequence.
    pub fn append_chunk(&mut self, chunk: Chunk)
        ensures
            final(self)@ == old(self)@.push(chunk@),
    {
        self.chunks.push(chunk);
        assert(views(self.chunks@) =~= views(old(self).chunks@).push(chunk@));
    }

    /// Takes out the first chunk whose type code renders to `chunk_type`
    /// and returns it; the other chunks keep their order. Where there is no
    /// such chunk the container is left as it was.
    pub fn remove_chunk(&mut self, chunk_type: &str) -> (r: Result<Chunk, PngError>)
        ensures
            match spec_remove(old(self)@, chunk_type@) {
                Ok((rest, chunk)) => r matches Ok(c) && c@ == chunk && final(self)@ == rest,
                Err(e) => r matches Err(f) && f == e && final(self)@ == old(self)@,
            },
    {
        match self.position(chunk_type) {
            Some(i) => {
                let chunk = self.chunks.remove(i);
                assert(views(self.chunks@) =~= views(old(self).chunks@).remove(i as int));
                Ok(chunk)
            },
            None => Err(PngError::NotFoundChunkType),
        }
    }

    /// The signature bytes.
    pub fn header(&self) -> (r: &[u8; 8])
        ensures
            r@ == signature(),
    {
        let r = &Png::STANDARD_HEADER;
        assert(r@ =~= signature());
        r
    }

    /// The chunks, in order.
    pub fn chunks(&self) -> (r: &[Chunk])
        ensures
            views(r@) == self@,
    {
        self.chunks.as_slice()
    }

    /// The place of the first chunk whose type code renders to `chunk_type`.
    fn position(&self, chunk_type: &str) -> (r: Option<usize>)
        ensures
            match r {
                Some(i) => first_of_type(self@, chunk_type@) == Some(i as int) && i
                    < self.chunks@.len(),
                None => first_of_type(self@, chunk_type@) is None,
            },
    {
        let mut i: usize = 0;
        while i < self.chunks.len()
            invariant
                i <= self.chunks@.len(),
                has_no_type(self@.take(i as int), chunk_type@),
            decreases self.chunks@.len() - i,
        {
            let chunk = &self.chunks[i];
            if chunk.chunk_type().spells(chunk_type) {
                proof {
                    lemma_first_of_type(self@, chunk_type@, i as int);
                }
                return Some(i);
            }
            proof {
                assert forall|j: int| 0 <= j < i + 1 implies !has_type(
                    #[trigger] self@.take(i + 1)[j],
                    chunk_type@,
                ) by {
                    if j < i {
                        assert(self@.take(i as int)[j] == self@.take(i + 1)[j]);
                    }
                }
            }
            i = i + 1;
        }
        assert(self@.take(i as int) =~= self@);
        None
    }

    /// The first chunk whose type code renders to `chunk_type`, if any.
    pub fn chunk_by_type(&self, chunk_type: &str) -> (r: Option<&Chunk>)
        ensures
            match first_of_type(self@, chunk_type@) {
                Some(i) => r matches Some(chunk) && chunk@ == self@[i],
                None => r is None,
            },
    {
        match self.position(chunk_type) {
            Some(i) => Some(&self.chunks[i]),
            None => None,
        }
    }

    /// The container as text for diagnostics.
    pub fn to_string(&self) -> (r: String)
        ensures
            r@ == ascii_text(png_text(self@)),
    {
        let mut out: Vec<u8> = Vec::new();
        let header = self.header();
        push_byte_list(&mut out, header.as_slice());
        let ghost a = out@;
        out.push(0x0a);
        proof {
            lemma_ascii_concat(a, seq![0x0au8]);
            assert(out@ =~= byte_list(signature()) + seq![0x0au8]);
            assert(out@ =~= png_text(self@.take(0)));
        }
        let mut i: usize = 0;
        while i < self.chunks.len()
            invariant
                i <= self.chunks@.len(),
                out@ == png_text(self@.take(i as int)),
                is_ascii_bytes(out@),
            decreases self.chunks@.len() - i,
        {
            let ghost before = out@;
            self.chunks[i].push_text(&mut out);
            let ghost b = out@;
            out.push(0x0a);
            proof {
                lemma_ascii_concat(b, seq![0x0au8]);
                let next = self@.take(i + 1);
                assert(next.drop_last() =~= self@.take(i as int));
                assert(next.last() == self@[i as int]);
                assert(out@ =~= png_text(next));
            }
            i = i + 1;
        }
        assert(self@.take(i as int) =~= self@);
        ascii_string(out)
    }

    /// The encoding of the container: the signature, then each chunk's
    /// encoding in order.
    pub fn as_bytes(&self) -> (r: Vec<u8>)
        ensures
            r@ == png_bytes(self@),
    {
        let mut r: Vec<u8> = Vec::new();
        let mut k: usize = 0;
        while k < 8
            invariant
                k <= 8,
                r@ == signature().take(k as int),
            decreases 8 - k,
        {
            r.push(Png::STANDARD_HEADER[k]);
            assert(r@ =~= signature().take(k + 1));
            k = k + 1;
        }
        assert(signature().take(8) =~= signature());
        assert(chunks_bytes(self@.take(0)) =~= Seq::<u8>::empty());
        assert(r@ =~= png_bytes(self@.take(0)));
        let mut i: usize = 0;
        while i < self.chunks.len()
            invariant
                i <= self.chunks@.len(),
                r@ == png_bytes(self@.take(i as int)),
            decreases self.chunks@.len() - i,
        {
            let mut bytes = self.chunks[i].as_bytes();
            proof {
                lemma_chunks_bytes_push(self@.take(i as int), self@[i as int]);
                assert(self@.take(i as int).push(self@[i as int]) =~= self@.take(i + 1));
                assert(r@ + bytes@ =~= png_bytes(self@.take(i + 1)));
            }
            r.append(&mut bytes);
            i = i + 1;
        }
        assert(self@.take(i as int) =~= self@);
        r
    }
}

/// The result of `try_from` holds vectors, which no ghost value can be built
/// to equal; what `try_from` returns is therefore stated on the function
/// itself, over views.
impl TryFromSpecImpl<&[u8]> for Png {
    open spec fn obeys_try_from_spec() -> bool {
        false
    }

    open spec fn try_from_spec(value: &[u8]) -> Result<Self, Self::Error> {
        Err(PngError::InValidPngHeader)
    }
}

impl TryFrom<&[u8]> for Png {
    type Error = PngError;

    /// The container that `value` encodes.
    fn try_from(value: &[u8]) -> (r: Result<Self, Self::Error>)
        ensures
            png_view_of(r) == decode_png(value@),
            r matches Ok(png) ==> all_wf(png@),
    {
        if value.len() < 8 {
            return Err(PngError::InValidPngHeader);
        }
        let mut k: usize = 0;
        while k < 8
            invariant
                k <= 8,
                value@.len() >= 8,
                value@.subrange(0, k as int) == signature().take(k as int),
            decreases 8 - k,
        {
            if value[k] != Png::STANDARD_HEADER[k] {
                assert(value@.subrange(0, 8)[k as int] != signature()[k as int]);
                return Err(PngError::InValidPngHeader);
            }
            assert(value@.subrange(0, k + 1) =~= signature().take(k + 1));
            k = k + 1;
        }
        assert(signature().take(8) =~= signature());
        let mut chunks: Vec<Chunk> = Vec::new();
        let mut pos: usize = 8;
        assert(after(views(chunks@), decode_chunks(value@.skip(8))) == decode_chunks(
            value@.skip(8),
        )) by {
            lemma_after_nothing(decode_chunks(value@.skip(8)));
        }
        while pos < value.len()
            invariant
                8 <= pos <= value@.len(),
                decode_png(value@) == after(views(chunks@), decode_chunks(value@.skip(pos as int))),
                all_wf(views(chunks@)),
            decreases value@.len() - pos,
        {
            let ghost rest = value@.skip(pos as int);
            let ghost done = views(chunks@);
            let left: usize = value.len() - pos;
            if left < CHUNK_OVERHEAD {
                return Err(PngError::ChunkError);
            }
            let field: [u8; 4] = [value[pos], value[pos + 1], value[pos + 2], value[pos + 3]];
            assert(field@ =~= rest.subrange(0, 4));
            let length = u32_from_be(field);
            if left - CHUNK_OVERHEAD < length as usize {
                return Err(PngError::ChunkError);
            }
            let end: usize = pos + CHUNK_OVERHEAD + length as usize;
            assert(value@.subrange(pos as int, end as int) =~= rest.subrange(0, 12 + length));
            assert(value@.skip(end as int) =~= rest.skip(12 + length));
            let chunk = match Chunk::try_from(&value[pos..end]) {
                Ok(chunk) => chunk,
                Err(e) => { return Err(e); },
            };
            proof {
                lemma_after_after(done, seq![chunk@], decode_chunks(value@.skip(end as int)));
                assert(views(chunks@.push(chunk)) =~= done + seq![chunk@]);
            }
            chunks.push(chunk);
            pos = end;
        }
        assert(views(chunks@) + Seq::<ChunkView>::empty() =~= views(chunks@));
        Ok(Png { chunks })
    }
}

/// Nothing, followed by a result, is that result.
pub proof fn lemma_after_nothing(rest: Result<Seq<ChunkView>, PngError>)
    ensures
        after(Seq::empty(), rest) == rest,
{
    if let Ok(chunks) = rest {
        assert(Seq::<ChunkView>::empty() + chunks =~= chunks);
    }
}

/// Putting two runs of chunks before a result, one after the other, is
/// putting their concatenation before it.
pub proof fn lemma_after_after(
    a: Seq<ChunkView>,
    b: Seq<ChunkView>,
    rest: Result<Seq<ChunkView>, PngError>,
)
    ensures
        after(a, after(b, rest)) == after(a + b, rest),
{
    if let Ok(chunks) = rest {
        assert(a + (b + chunks) =~= (a + b) + chunks);
    }
}

/// The encoding of a sequence with one more chunk at its end is the
/// encoding of the sequence followed by that of the chunk.
pub proof fn lemma_chunks_bytes_push(chunks: Seq<ChunkView>, chunk: ChunkView)
    ensures
        chunks_bytes(chunks.push(chunk)) == chunks_bytes(chunks) + chunk.bytes(),
    decreases chunks.len(),
{
    let all = chunks.push(chunk);
    if chunks.len() == 0 {
        assert(all.drop_first() =~= Seq::<ChunkView>::empty());
        assert(chunks_bytes(all.drop_first()) =~= Seq::<u8>::empty());
        assert(chunks_bytes(all) =~= chunks_bytes(chunks) + chunk.bytes());
    } else {
        assert(all.drop_first() =~= chunks.drop_first().push(chunk));
        lemma_chunks_bytes_push(chunks.drop_first(), chunk);
        assert(chunks_bytes(all) =~= chunks_bytes(chunks) + chunk.bytes());
    }
}

/// Every chunk of the sequence has a payload whose length fits the
/// thirty-two bits of the length field.
pub open spec fn all_fit(chunks: Seq<ChunkView>) -> bool {
    forall|i: int| 0 <= i < chunks.len() ==> (#[trigger] chunks[i]).data.len() <= u32::MAX
}

/// The encodings of well-formed chunks whose lengths fit their length
/// fields, one after the other, decode to those chunks.
pub proof fn lemma_chunks_round_trip(chunks: Seq<ChunkView>)
    requires
        all_wf(chunks),
        all_fit(chunks),
    ensures
        decode_chunks(chunks_bytes(chunks)) == Ok::<Seq<ChunkView>, PngError>(chunks),
    decreases chunks.len(),
{
    if chunks.len() == 0 {
        assert(chunks =~= Seq::<ChunkView>::empty());
    } else {
        let first = chunks[0];
        let rest = chunks.drop_first();
        let bytes = chunks_bytes(chunks);
        assert(first.wf() && first.data.len() <= u32::MAX);
        assert forall|i: int| 0 <= i < rest.len() implies (#[trigger] rest[i]).wf()
            && rest[i].data.len() <= u32::MAX by {
            assert(rest[i] == chunks[i + 1]);
        }
        lemma_chunks_round_trip(rest);
        lemma_bytes_layout(first);
        lemma_be_u32_of_bytes(first.length);
        let n = 12 + first.data.len();
        assert(bytes.subrange(0, 4) =~= first.bytes().subrange(0, 4));
        assert(bytes.subrange(0, n as int) =~= first.bytes());
        assert(bytes.skip(n as int) =~= chunks_bytes(rest));
        lemma_encode_decode(first.chunk_type, first.data);
        assert(seq![first] + rest =~= chunks);
    }
}

/// A container of well-formed chunks whose lengths fit their length fields,
/// encoded and decoded again, is the same sequence of chunks; and encoding
/// what was decoded gives the same bytes again.
pub proof fn lemma_png_round_trip(chunks: Seq<ChunkView>)
    requires
        all_wf(chunks),
        all_fit(chunks),
    ensures
        decode_png(png_bytes(chunks)) == Ok::<Seq<ChunkView>, PngError>(chunks),
        png_bytes(decode_png(png_bytes(chunks))->Ok_0) == png_bytes(chunks),
{
    let bytes = png_bytes(chunks);
    assert(bytes.subrange(0, 8) =~= signature());
    assert(bytes.skip(8) =~= chunks_bytes(chunks));
    lemma_chunks_round_trip(chunks);
}

/// Chunk records that decode are the encoding of what they decode to, and
/// the chunks are well formed with lengths that fit their length fields.
pub proof fn lemma_chunks_decode_encode(bytes: Seq<u8>)
    requires
        decode_chunks(bytes) is Ok,
    ensures
        chunks_bytes(decode_chunks(bytes)->Ok_0) == bytes,
        all_wf(decode_chunks(bytes)->Ok_0),
        all_fit(decode_chunks(bytes)->Ok_0),
    decreases bytes.len(),
{
    if bytes.len() == 0 {
        assert(chunks_bytes(Seq::<ChunkView>::empty()) =~= bytes);
    } else {
        let length = be_u32(bytes.subrange(0, 4));
        let n = 12 + length;
        let record = bytes.subrange(0, n);
        let first = ChunkView::decode(record)->Ok_0;
        let rest = decode_chunks(bytes.skip(n))->Ok_0;
        let chunks = decode_chunks(bytes)->Ok_0;
        assert(chunks == seq![first] + rest);
        lemma_chunks_decode_encode(bytes.skip(n));
        lemma_decode_wf(record);
        assert(first.data.len() == length);
        assert(first.length == length);
        lemma_be_bytes_of_u32(bytes.subrange(0, 4));
        assert(first.bytes() =~= record) by {
            assert(record.subrange(0, 4) =~= bytes.subrange(0, 4));
            lemma_be_bytes_of_u32(record.subrange(n - 4, n as int));
            assert(record =~= record.subrange(0, 4) + record.subrange(4, 8) + record.subrange(
                8,
                n - 4,
            ) + record.subrange(n - 4, n as int));
        }
        assert(chunks.drop_first() =~= rest);
        assert(chunks[0] == first);
        assert(record + bytes.skip(n) =~= bytes);
        assert forall|i: int| 0 <= i < chunks.len() implies (#[trigger] chunks[i]).wf()
            && chunks[i].data.len() <= u32::MAX by {
            if i > 0 {
                assert(chunks[i] == rest[i - 1]);
            }
        }
    }
}

/// A buffer that decodes is byte for byte the encoding of the container it
/// decodes to.
pub proof fn lemma_png_decode_encode(bytes: Seq<u8>)
    requires
        decode_png(bytes) is Ok,
    ensures
        png_bytes(decode_png(bytes)->Ok_0) == bytes,
        all_wf(decode_png(bytes)->Ok_0),
        all_fit(decode_png(bytes)->Ok_0),
{
    lemma_chunks_decode_encode(bytes.skip(8));
    assert(bytes.subrange(0, 8) + bytes.skip(8) =~= bytes);
}

/// A buffer that does not begin with the eight signature bytes decodes to
/// no container: the error is that of an invalid header.
pub proof fn lemma_decode_bad_signature(bytes: Seq<u8>)
    requires
        bytes.len() < 8 || bytes.subrange(0, 8) != signature(),
    ensures
        decode_png(bytes) == Err::<Seq<ChunkView>, PngError>(PngError::InValidPngHeader),
{
}

/// Appending a chunk and then removing by its type code gives back the
/// sequence as it was and the chunk that was appended, where no other chunk
/// of the sequence has that type code.
pub proof fn lemma_append_remove(chunks: Seq<ChunkView>, chunk: ChunkView, text: Seq<char>)
    requires
        has_type(chunk, text),
        has_no_type(chunks, text),
    ensures
        spec_remove(chunks.push(chunk), text) == Ok::<(Seq<ChunkView>, ChunkView), PngError>(
            (chunks, chunk),
        ),
{
    let all = chunks.push(chunk);
    let i = chunks.len() as int;
    assert(all.take(i) =~= chunks);
    lemma_first_of_type(all, text, i);
    assert(all.remove(i) =~= chunks);
}

/// Removing by a type code that no chunk of the sequence has fails, with
/// the error for a chunk that is not found.
pub proof fn lemma_remove_absent(chunks: Seq<ChunkView>, text: Seq<char>)
    requires
        has_no_type(chunks, text),
    ensures
        spec_remove(chunks, text) == Err::<(Seq<ChunkView>, ChunkView), PngError>(
            PngError::NotFoundChunkType,
        ),
{
}

/// Removing by a type code that some chunk of the sequence has takes out
/// the first such chunk and keeps the others in their order.
pub proof fn lemma_remove_present(chunks: Seq<ChunkView>, text: Seq<char>)
    requires
        !has_no_type(chunks, text),
    ensures
        first_of_type(chunks, text) matches Some(i) && is_first_of_type(chunks, text, i)
            && spec_remove(chunks, text) == Ok::<(Seq<ChunkView>, ChunkView), PngError>(
            (chunks.remove(i), chunks[i]),
        ),
{
    let j = choose|j: int| 0 <= j < chunks.len() && has_type(#[trigger] chunks[j], text);
    lemma_first_exists(chunks, text, j);
}

/// Where some chunk up to place `j` has the type, there is a first one.
proof fn lemma_first_exists(chunks: Seq<ChunkView>, text: Seq<char>, j: int)
    requires
        0 <= j < chunks.len(),
        has_type(chunks[j], text),
    ensures
        exists|i: int| is_first_of_type(chunks, text, i),
    decreases j,
{
    if has_no_type(chunks.take(j), text) {
        assert(is_first_of_type(chunks, text, j));
    } else {
        let k = choose|k: int|
            0 <= k < chunks.take(j).len() && has_type(#[trigger] chunks.take(j)[k], text);
        assert(chunks.take(j)[k] == chunks[k]);
        lemma_first_exists(chunks, text, k);
    }
}

} // verus!
