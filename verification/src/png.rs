//! The container: the signature and the chunks that follow it, in order.

use vstd::prelude::*;
use vstd::pervasive::unreached;
use vstd::slice::slice_subrange;
use crate::bytes::{extend_bytes, lemma_be_decode_encode, read_u32_be, u32_from_be, u32_to_be};
use crate::chunk::{lemma_bytes_of_parse, lemma_parse_of_bytes, parse_chunk, Chunk, ChunkView};
use crate::chunk_type::{is_letter, ChunkType};
use crate::error::PngError;

verus! {

/// The eight bytes that every container starts with.
pub const STANDARD_HEADER: [u8; 8] = [137, 80, 78, 71, 13, 10, 26, 10];

/// The eight signature bytes, as a sequence.
pub open spec fn signature() -> Seq<u8> {
    seq![137u8, 80u8, 78u8, 71u8, 13u8, 10u8, 26u8, 10u8]
}

/// What each of the chunks is, in the same order.
pub open spec fn views(chunks: Seq<Chunk>) -> Seq<ChunkView> {
    chunks.map_values(|c: Chunk| c@)
}

/// Every chunk of the sequence is well formed.
pub open spec fn all_wf(chunks: Seq<ChunkView>) -> bool {
    forall|i: int| 0 <= i < chunks.len() ==> (#[trigger] chunks[i]).wf()
}

/// The byte layouts of the chunks, one after the other.
pub open spec fn chunks_bytes(chunks: Seq<ChunkView>) -> Seq<u8>
    decreases chunks.len(),
{
    if chunks.len() == 0 {
        Seq::empty()
    } else {
        chunks[0].bytes() + chunks_bytes(chunks.drop_first())
    }
}

/// The byte layout of a container: the signature, then its chunks.
pub open spec fn png_bytes(chunks: Seq<ChunkView>) -> Seq<u8> {
    signature() + chunks_bytes(chunks)
}

/// The type code `IEND`, which marks the last chunk of a stream.
pub open spec fn end_code() -> Seq<u8> {
    seq![73u8, 69u8, 78u8, 68u8]
}

/// The index of the first chunk of type `code`, or the length of the
/// sequence where it has none.
pub open spec fn first_index(chunks: Seq<ChunkView>, code: Seq<u8>) -> int
    decreases chunks.len(),
{
    if chunks.len() == 0 {
        0
    } else if chunks[0].chunk_type == code {
        0
    } else {
        1 + first_index(chunks.drop_first(), code)
    }
}

/// The sequence after `chunk` was added: it stands just before the first
/// `IEND` chunk, or at the end where there is none.
pub open spec fn appended(chunks: Seq<ChunkView>, chunk: ChunkView) -> Seq<ChunkView> {
    chunks.insert(first_index(chunks, end_code()), chunk)
}

/// The sequence without its first chunk of type `code`.
pub open spec fn without_first(chunks: Seq<ChunkView>, code: Seq<u8>) -> Seq<ChunkView>
    recommends
        first_index(chunks, code) < chunks.len(),
{
    chunks.remove(first_index(chunks, code))
}

/// `first_index` lies within the sequence or just behind it, holds a chunk
/// of the type where it lies within, and has no chunk of the type before it.
pub proof fn lemma_first_index(chunks: Seq<ChunkView>, code: Seq<u8>)
    ensures
        0 <= first_index(chunks, code) <= chunks.len(),
        first_index(chunks, code) < chunks.len() ==> chunks[first_index(chunks, code)].chunk_type
            == code,
        forall|j: int|
            0 <= j < first_index(chunks, code) ==> (#[trigger] chunks[j]).chunk_type != code,
    decreases chunks.len(),
{
    if chunks.len() != 0 && chunks[0].chunk_type != code {
        let tail = chunks.drop_first();
        lemma_first_index(tail, code);
        assert forall|j: int| 0 <= j < first_index(chunks, code) implies (#[trigger] chunks[j])
            .chunk_type != code by {
            if j > 0 {
                assert(chunks[j] == tail[j - 1]);
            }
        }
    }
}

/// An index with the three properties of `first_index` is `first_index`.
pub proof fn lemma_first_index_unique(chunks: Seq<ChunkView>, code: Seq<u8>, k: int)
    requires
        0 <= k <= chunks.len(),
        k < chunks.len() ==> chunks[k].chunk_type == code,
        forall|j: int| 0 <= j < k ==> (#[trigger] chunks[j]).chunk_type != code,
    ensures
        k == first_index(chunks, code),
{
    lemma_first_index(chunks, code);
    let first = first_index(chunks, code);
    if k < first {
        assert(chunks[k].chunk_type != code);
    } else if first < k {
        assert(chunks[first].chunk_type != code);
    }
}

/// What `bytes` holds when read as chunks laid end to end. Each chunk is
/// found by its own length field; the first chunk that is cut short or does
/// not parse decides the error.
pub open spec fn parse_chunks(bytes: Seq<u8>) -> Result<Seq<ChunkView>, PngError>
    decreases bytes.len(),
{
    if bytes.len() == 0 {
        Ok(Seq::empty())
    } else if bytes.len() < 12 {
        Err(PngError::MalformedChunk)
    } else {
        let total = 12 + u32_from_be(bytes);
        if bytes.len() < total {
            Err(PngError::MalformedChunk)
        } else {
            match parse_chunk(bytes.take(total)) {
                Err(e) => Err(e),
                Ok(first) => with_first(first, parse_chunks(bytes.skip(total))),
            }
        }
    }
}

/// The outcome `rest` of reading further chunks, with `first` put in front
/// where it is a success.
pub open spec fn with_first(first: ChunkView, rest: Result<Seq<ChunkView>, PngError>) -> Result<
    Seq<ChunkView>,
    PngError,
> {
    match rest {
        Ok(chunks) => Ok(seq![first] + chunks),
        Err(e) => Err(e),
    }
}

/// The outcome `rest` of reading further chunks, with `done` put in front
/// where it is a success.
pub open spec fn with_done(done: Seq<ChunkView>, rest: Result<Seq<ChunkView>, PngError>) -> Result<
    Seq<ChunkView>,
    PngError,
> {
    match rest {
        Ok(chunks) => Ok(done + chunks),
        Err(e) => Err(e),
    }
}

/// What `bytes` holds when read as a container: the signature, then chunks
/// up to the last byte.
pub open spec fn parse_png(bytes: Seq<u8>) -> Result<Seq<ChunkView>, PngError> {
    if bytes.len() < 8 || bytes.take(8) != signature() {
        Err(PngError::InvalidSignature)
    } else {
        parse_chunks(bytes.skip(8))
    }
}

/// Tests whether `bytes` starts with the signature.
pub fn has_signature(bytes: &[u8]) -> (r: bool)
    ensures
        r == (bytes@.len() >= 8 && bytes@.take(8) == signature()),
{
    if bytes.len() < 8 {
        return false;
    }
    let mut i: usize = 0;
    while i < 8
        invariant
            i <= 8,
            bytes@.len() >= 8,
            forall|j: int| 0 <= j < i ==> bytes@[j] == signature()[j],
        decreases 8 - i,
    {
        assert(STANDARD_HEADER@ =~= signature());
        if bytes[i] != STANDARD_HEADER[i] {
            assert(bytes@.take(8)[i as int] != signature()[i as int]);
            return false;
        }
        i = i + 1;
    }
    assert(bytes@.take(8) =~= signature());
    true
}

/// The layout of a sequence with one more chunk at its end is the layout of
/// the sequence followed by the layout of that chunk.
pub proof fn lemma_chunks_bytes_push(chunks: Seq<ChunkView>, last: ChunkView)
    ensures
        chunks_bytes(chunks.push(last)) == chunks_bytes(chunks) + last.bytes(),
    decreases chunks.len(),
{
    let longer = chunks.push(last);
    if chunks.len() == 0 {
        assert(longer.drop_first() =~= Seq::<ChunkView>::empty());
        assert(chunks_bytes(longer.drop_first()) =~= Seq::<u8>::empty());
        assert(chunks_bytes(longer) =~= last.bytes());
        assert(chunks_bytes(chunks) + last.bytes() =~= last.bytes());
    } else {
        assert(longer.drop_first() =~= chunks.drop_first().push(last));
        lemma_chunks_bytes_push(chunks.drop_first(), last);
        assert(chunks_bytes(longer) =~= chunks_bytes(chunks) + last.bytes());
    }
}

/// Reading the chunks that were laid end to end gives them back.
pub proof fn lemma_parse_of_chunks_bytes(chunks: Seq<ChunkView>)
    requires
        all_wf(chunks),
    ensures
        parse_chunks(chunks_bytes(chunks)) == Ok::<Seq<ChunkView>, PngError>(chunks),
    decreases chunks.len(),
{
    let bytes = chunks_bytes(chunks);
    if chunks.len() == 0 {
        assert(chunks =~= Seq::<ChunkView>::empty());
    } else {
        let first = chunks[0];
        let tail = chunks.drop_first();
        let head = first.bytes();
        assert(first.wf());
        assert forall|i: int| 0 <= i < tail.len() implies (#[trigger] tail[i]).wf() by {
            assert(tail[i] == chunks[i + 1]);
        }
        lemma_be_decode_encode(first.length());
        assert(head.len() == 12 + first.data.len());
        assert(bytes.take(4) =~= u32_to_be(first.length()));
        assert(u32_from_be(bytes) == u32_from_be(bytes.take(4)));
        assert(bytes.take(12 + first.length()) =~= head);
        assert(bytes.skip(12 + first.length()) =~= chunks_bytes(tail));
        lemma_parse_of_bytes(first);
        lemma_parse_of_chunks_bytes(tail);
        assert(seq![first] + tail =~= chunks);
    }
}

/// Laying the chunks that were read end to end gives the bytes back, and
/// every chunk that was read is well formed.
pub proof fn lemma_chunks_bytes_of_parse(bytes: Seq<u8>)
    requires
        parse_chunks(bytes) is Ok,
    ensures
        all_wf(parse_chunks(bytes).unwrap()),
        chunks_bytes(parse_chunks(bytes).unwrap()) == bytes,
    decreases bytes.len(),
{
    lemma_parse_chunks_unfold(bytes);
    if bytes.len() == 0 {
        assert(chunks_bytes(Seq::<ChunkView>::empty()) =~= bytes);
    } else {
        let total = 12 + u32_from_be(bytes);
        let first = parse_chunk(bytes.take(total)).unwrap();
        let tail = parse_chunks(bytes.skip(total)).unwrap();
        lemma_bytes_of_parse(bytes.take(total));
        lemma_chunks_bytes_of_parse(bytes.skip(total));
        lemma_chunks_bytes_joined(bytes, total, first, tail);
        lemma_chunks_with_first(first, tail);
    }
}

/// What a successful reading of chunks laid end to end is made of: nothing
/// where there are no bytes, and else the reading of the first chunk, whose
/// extent its length field gives, and of the bytes behind it.
pub proof fn lemma_parse_chunks_unfold(bytes: Seq<u8>)
    requires
        parse_chunks(bytes) is Ok,
    ensures
        bytes.len() == 0 ==> parse_chunks(bytes).unwrap() == Seq::<ChunkView>::empty(),
        bytes.len() != 0 ==> {
            let total = 12 + u32_from_be(bytes);
            &&& 12 <= total <= bytes.len()
            &&& parse_chunk(bytes.take(total)) is Ok
            &&& parse_chunks(bytes.skip(total)) is Ok
            &&& parse_chunks(bytes).unwrap() == seq![parse_chunk(bytes.take(total)).unwrap()]
                + parse_chunks(bytes.skip(total)).unwrap()
        },
{
}

/// Chunks whose layouts are the two parts of `bytes`, cut at `total`, have
/// `bytes` as their layout.
proof fn lemma_chunks_bytes_joined(
    bytes: Seq<u8>,
    total: int,
    first: ChunkView,
    tail: Seq<ChunkView>,
)
    requires
        12 <= total <= bytes.len(),
        first.wf(),
        first.bytes() == bytes.take(total),
        chunks_bytes(tail) == bytes.skip(total),
        all_wf(tail),
    ensures
        chunks_bytes(seq![first] + tail) == bytes,
{
    lemma_chunks_with_first(first, tail);
    assert(bytes.take(total) + bytes.skip(total) =~= bytes);
}

/// Putting a well formed chunk in front of well formed chunks keeps them all
/// well formed, and puts its layout in front of theirs.
pub proof fn lemma_chunks_with_first(first: ChunkView, tail: Seq<ChunkView>)
    requires
        first.wf(),
        all_wf(tail),
    ensures
        all_wf(seq![first] + tail),
        chunks_bytes(seq![first] + tail) == first.bytes() + chunks_bytes(tail),
{
    let chunks = seq![first] + tail;
    assert(chunks[0] == first);
    assert(chunks.drop_first() =~= tail);
    assert forall|i: int| 0 <= i < chunks.len() implies (#[trigger] chunks[i]).wf() by {
        if i > 0 {
            assert(chunks[i] == tail[i - 1]);
        }
    }
}

/// Reading the byte layout of a container gives its chunks back: parsing is
/// the inverse of writing out.
pub proof fn lemma_parse_of_png_bytes(chunks: Seq<ChunkView>)
    requires
        all_wf(chunks),
    ensures
        parse_png(png_bytes(chunks)) == Ok::<Seq<ChunkView>, PngError>(chunks),
{
    let bytes = png_bytes(chunks);
    assert(bytes.take(8) =~= signature());
    assert(bytes.skip(8) =~= chunks_bytes(chunks));
    lemma_parse_of_chunks_bytes(chunks);
}

/// Writing out a container that was read and not changed gives the bytes
/// that were read: writing out is the inverse of parsing.
pub proof fn lemma_png_bytes_of_parse(bytes: Seq<u8>)
    requires
        parse_png(bytes) is Ok,
    ensures
        all_wf(parse_png(bytes).unwrap()),
        png_bytes(parse_png(bytes).unwrap()) == bytes,
{
    let chunks = parse_png(bytes).unwrap();
    assert(bytes.len() >= 8 && bytes.take(8) == signature());
    assert(parse_chunks(bytes.skip(8)) == Ok::<Seq<ChunkView>, PngError>(chunks));
    lemma_chunks_bytes_of_parse(bytes.skip(8));
    assert(chunks_bytes(chunks) == bytes.skip(8));
    assert(bytes.take(8) + bytes.skip(8) =~= bytes);
}

/// The byte layout depends on the chunks alone, so writing the same
/// container out twice gives the same bytes; and two containers of well
/// formed chunks with the same layout hold the same chunks.
pub proof fn lemma_layout_is_canonical(first: Seq<ChunkView>, second: Seq<ChunkView>)
    requires
        all_wf(first),
        all_wf(second),
    ensures
        first == second <==> png_bytes(first) == png_bytes(second),
{
    lemma_parse_of_png_bytes(first);
    lemma_parse_of_png_bytes(second);
}

/// Adding a chunk whose type the container did not hold, then removing the
/// first chunk of that type, gives the chunk sequence from before the two.
pub proof fn lemma_append_then_remove(chunks: Seq<ChunkView>, chunk: ChunkView)
    requires
        first_index(chunks, chunk.chunk_type) == chunks.len(),
    ensures
        first_index(appended(chunks, chunk), chunk.chunk_type) < appended(chunks, chunk).len(),
        appended(chunks, chunk)[first_index(appended(chunks, chunk), chunk.chunk_type)] == chunk,
        without_first(appended(chunks, chunk), chunk.chunk_type) == chunks,
{
    let code = chunk.chunk_type;
    let at = first_index(chunks, end_code());
    let after = appended(chunks, chunk);
    lemma_first_index(chunks, end_code());
    lemma_first_index(chunks, code);
    assert forall|j: int| 0 <= j < at implies (#[trigger] after[j]).chunk_type != code by {
        assert(after[j] == chunks[j]);
    }
    lemma_first_index_unique(after, code, at);
    assert(after.remove(at) =~= chunks);
}

/// A container: its chunks in file order. The signature is the same for all.
#[derive(Debug)]
pub struct Png {
    chunks: Vec<Chunk>,
}

impl View for Png {
    type V = Seq<ChunkView>;

    closed spec fn view(&self) -> Seq<ChunkView> {
        views(self.chunks@)
    }
}

impl Png {
    /// The container that holds the given chunks, in their order.
    pub fn from_chunks(chunks: Vec<Chunk>) -> (png: Png)
        ensures
            png@ == views(chunks@),
    {
        Png { chunks }
    }

    /// Reads `bytes` as a container: the signature, then chunks up to the last byte.
    pub fn try_from(bytes: &[u8]) -> (r: Result<Png, PngError>)
        ensures
            match r {
                Ok(png) => parse_png(bytes@) == Ok::<Seq<ChunkView>, PngError>(png@),
                Err(e) => parse_png(bytes@) == Err::<Seq<ChunkView>, PngError>(e),
            },
    {
        if !has_signature(bytes) {
            return Err(PngError::InvalidSignature);
        }
        let n = bytes.len();
        let mut chunks: Vec<Chunk> = Vec::new();
        let mut at: usize = 8;
        assert(bytes@.skip(8) =~= bytes@.skip(at as int));
        assert(views(chunks@) + Seq::<ChunkView>::empty() =~= Seq::<ChunkView>::empty());
        while at < n
            invariant
                8 <= at <= n,
                n == bytes@.len(),
                parse_png(bytes@) == with_done(views(chunks@), parse_chunks(bytes@.skip(at as int))),
            decreases n - at,
        {
            let ghost rest = bytes@.skip(at as int);
            let ghost done = views(chunks@);
            if n - at < 12 {
                return Err(PngError::MalformedChunk);
            }
            let declared = read_u32_be(bytes, at);
            assert(bytes@.subrange(at as int, at + 4) =~= rest.take(4));
            assert(u32_from_be(rest) == u32_from_be(rest.take(4)));
            if n - at - 12 < declared as usize {
                return Err(PngError::MalformedChunk);
            }
            let end: usize = at + 12 + declared as usize;
            assert(bytes@.subrange(at as int, end as int) =~= rest.take(12 + declared));
            assert(bytes@.skip(end as int) =~= rest.skip(12 + declared));
            match Chunk::try_from(slice_subrange(bytes, at, end)) {
                Err(e) => {
                    return Err(e);
                },
                Ok(chunk) => {
                    proof {
                        let after = parse_chunks(bytes@.skip(end as int));
                        let more = views(chunks@.push(chunk));
                        assert(more =~= done.push(chunk@));
                        if after is Ok {
                            let rest = after.unwrap();
                            assert(done + (seq![chunk@] + rest) =~= more + rest);
                        }
                    }
                    chunks.push(chunk);
                    at = end;
                },
            }
        }
        assert(views(chunks@) + Seq::<ChunkView>::empty() =~= views(chunks@));
        Ok(Png { chunks })
    }

    /// The index of the first chunk of the given type, if there is one.
    pub fn position(&self, chunk_type: &ChunkType) -> (r: Option<usize>)
        ensures
            match r {
                Some(i) => i == first_index(self@, chunk_type@) && i < self@.len(),
                None => first_index(self@, chunk_type@) == self@.len(),
            },
    {
        let mut i: usize = 0;
        while i < self.chunks.len()
            invariant
                i <= self.chunks@.len(),
                self@.len() == self.chunks@.len(),
                forall|j: int| 0 <= j < i ==> (#[trigger] self@[j]).chunk_type != chunk_type@,
            decreases self.chunks@.len() - i,
        {
            if self.chunks[i].chunk_type() == *chunk_type {
                proof {
                    assert(self@[i as int] == self.chunks@[i as int]@);
                    lemma_first_index_unique(self@, chunk_type@, i as int);
                }
                return Some(i);
            }
            assert(self@[i as int] == self.chunks@[i as int]@);
            i = i + 1;
        }
        proof {
            lemma_first_index_unique(self@, chunk_type@, i as int);
        }
        None
    }

    /// The first chunk of the given type, if there is one.
    pub fn find_first(&self, chunk_type: &ChunkType) -> (r: Option<&Chunk>)
        ensures
            match r {
                Some(chunk) => {
                    &&& first_index(self@, chunk_type@) < self@.len()
                    &&& chunk@ == self@[first_index(self@, chunk_type@)]
                },
                None => first_index(self@, chunk_type@) == self@.len(),
            },
    {
        match self.position(chunk_type) {
            Some(i) => Some(&self.chunks[i]),
            None => None,
        }
    }

    /// Adds a chunk: just before the first `IEND` chunk, or at the end where
    /// the container has none.
    pub fn append(&mut self, chunk: Chunk)
        ensures
            final(self)@ == appended(old(self)@, chunk@),
    {
        let code: [u8; 4] = [73, 69, 78, 68];
        assert(code@ =~= end_code());
        assert(is_letter(73) && is_letter(69) && is_letter(78) && is_letter(68));
        let end = match ChunkType::try_from(code) {
            Ok(t) => t,
            Err(_) => unreached(),
        };
        let at = match self.position(&end) {
            Some(i) => i,
            None => self.chunks.len(),
        };
        self.chunks.insert(at, chunk);
        assert(self@ =~= old(self)@.insert(at as int, chunk@));
    }

    /// Takes the first chunk of the given type out of the container and
    /// hands it back; leaves the container as it is where it has none.
    pub fn remove_first(&mut self, chunk_type: &ChunkType) -> (r: Result<Chunk, PngError>)
        ensures
            match r {
                Ok(chunk) => {
                    &&& first_index(old(self)@, chunk_type@) < old(self)@.len()
                    &&& chunk@ == old(self)@[first_index(old(self)@, chunk_type@)]
                    &&& final(self)@ == without_first(old(self)@, chunk_type@)
                },
                Err(e) => {
                    &&& e == PngError::ChunkNotFound
                    &&& first_index(old(self)@, chunk_type@) == old(self)@.len()
                    &&& final(self)@ == old(self)@
                },
            },
    {
        match self.position(chunk_type) {
            Some(i) => {
                let chunk = self.chunks.remove(i);
                assert(self@ =~= old(self)@.remove(i as int));
                Ok(chunk)
            },
            None => Err(PngError::ChunkNotFound),
        }
    }

    /// The signature bytes.
    pub fn header(&self) -> (h: &[u8; 8])
        ensures
            h@ == signature(),
    {
        assert(STANDARD_HEADER@ =~= signature());
        &STANDARD_HEADER
    }

    /// The chunks, in file order.
    pub fn chunks(&self) -> (all: &[Chunk])
        ensures
            views(all@) == self@,
    {
        self.chunks.as_slice()
    }

    /// The byte layout of the container: the signature, then every chunk in order.
    pub fn as_bytes(&self) -> (out: Vec<u8>)
        ensures
            out@ == png_bytes(self@),
            all_wf(self@),
    {
        let mut out: Vec<u8> = Vec::new();
        assert(STANDARD_HEADER@ =~= signature());
        extend_bytes(&mut out, STANDARD_HEADER.as_slice());
        let mut i: usize = 0;
        while i < self.chunks.len()
            invariant
                i <= self.chunks@.len(),
                self@.len() == self.chunks@.len(),
                out@ == signature() + chunks_bytes(self@.take(i as int)),
                all_wf(self@.take(i as int)),
            decreases self.chunks@.len() - i,
        {
            let piece = self.chunks[i].as_bytes();
            extend_bytes(&mut out, piece.as_slice());
            proof {
                let before = self@.take(i as int);
                assert(self@.take(i + 1) =~= before.push(self@[i as int]));
                lemma_chunks_bytes_push(before, self@[i as int]);
            }
            i = i + 1;
        }
        assert(self@.take(i as int) =~= self@);
        out
    }
}

} // verus!
