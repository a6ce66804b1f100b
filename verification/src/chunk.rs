//! One chunk of the stream: length, type, data and checksum, and its byte layout.

use vstd::prelude::*;
use vstd::pervasive::unreached;
use vstd::slice::{slice_subrange, slice_to_vec};
use vstd::utf8::{decode_utf8, valid_utf8};
use crate::bytes::{
    extend_bytes, lemma_be_decode_encode, lemma_be_encode_decode, push_u32_be, read_u32_be,
    u32_from_be, u32_to_be,
};
use crate::checksum::{checksum, crc32_iso_hdlc};
use crate::chunk_type::{byte_is_letter, valid_type, ChunkType};
use crate::error::PngError;
use crate::text::decode_text;

verus! {

/// What a chunk is: its type code and its data. The length and the checksum
/// that the byte layout carries follow from these two.
pub struct ChunkView {
    pub chunk_type: Seq<u8>,
    pub data: Seq<u8>,
}

impl ChunkView {
    /// The type code is legal and the data fits the 32-bit length field.
    pub open spec fn wf(self) -> bool {
        &&& valid_type(self.chunk_type)
        &&& self.data.len() <= u32::MAX
    }

    /// The value of the length field: the number of data bytes.
    pub open spec fn length(self) -> u32 {
        self.data.len() as u32
    }

    /// The bytes that the checksum covers: the type code, then the data.
    pub open spec fn guarded(self) -> Seq<u8> {
        self.chunk_type + self.data
    }

    /// The value of the checksum field.
    pub open spec fn crc(self) -> u32 {
        crc32_iso_hdlc(self.guarded())
    }

    /// The byte layout: length, type code, data, checksum.
    pub open spec fn bytes(self) -> Seq<u8> {
        u32_to_be(self.length()) + self.chunk_type + self.data + u32_to_be(self.crc())
    }
}

/// The verdict on `bytes` as the layout of one chunk, given the checksum
/// `computed` over everything between its length field and its last four
/// bytes. The tests are made in this order: the fixed fields are there; the
/// length field counts the data bytes that are there; the stored checksum is
/// `computed`; the type code is legal.
pub open spec fn check_chunk(bytes: Seq<u8>, computed: u32) -> Result<(), PngError> {
    if bytes.len() < 12 {
        Err(PngError::MalformedChunk)
    } else if u32_from_be(bytes) != bytes.len() - 12 {
        Err(PngError::MalformedChunk)
    } else if u32_from_be(bytes.subrange(bytes.len() - 4, bytes.len() as int)) != computed {
        Err(PngError::ChecksumMismatch)
    } else if !valid_type(bytes.subrange(4, 8)) {
        Err(PngError::InvalidChunkType)
    } else {
        Ok(())
    }
}

/// What `bytes` holds when read as the layout of exactly one chunk.
pub open spec fn parse_chunk(bytes: Seq<u8>) -> Result<ChunkView, PngError> {
    if bytes.len() < 12 {
        Err(PngError::MalformedChunk)
    } else {
        match check_chunk(bytes, crc32_iso_hdlc(bytes.subrange(4, bytes.len() - 4))) {
            Ok(_) => Ok(
                ChunkView {
                    chunk_type: bytes.subrange(4, 8),
                    data: bytes.subrange(8, bytes.len() - 4),
                },
            ),
            Err(e) => Err(e),
        }
    }
}

/// Reading the byte layout of a chunk gives the chunk back: for any legal
/// type code and any data that fits the length field, the layout parses, and
/// to the same type, data and checksum.
pub proof fn lemma_parse_of_bytes(chunk: ChunkView)
    requires
        chunk.wf(),
    ensures
        parse_chunk(chunk.bytes()) == Ok::<ChunkView, PngError>(chunk),
{
    let bytes = chunk.bytes();
    let n = bytes.len() as int;
    lemma_be_decode_encode(chunk.length());
    lemma_be_decode_encode(chunk.crc());
    assert(n == chunk.data.len() + 12);
    assert(bytes.take(4) =~= u32_to_be(chunk.length()));
    assert(u32_from_be(bytes) == u32_from_be(bytes.take(4)));
    assert(bytes.subrange(n - 4, n) =~= u32_to_be(chunk.crc()));
    assert(bytes.subrange(4, n - 4) =~= chunk.guarded());
    assert(bytes.subrange(4, 8) =~= chunk.chunk_type);
    assert(bytes.subrange(8, n - 4) =~= chunk.data);
}

/// Writing out what was read gives the bytes back: whatever parses as one
/// chunk is the byte layout of the chunk it parses to, and that chunk is
/// well formed.
pub proof fn lemma_bytes_of_parse(bytes: Seq<u8>)
    requires
        parse_chunk(bytes) is Ok,
    ensures
        parse_chunk(bytes).unwrap().wf(),
        parse_chunk(bytes).unwrap().bytes() == bytes,
{
    let chunk = parse_chunk(bytes).unwrap();
    let n = bytes.len() as int;
    lemma_be_encode_decode(bytes.take(4));
    lemma_be_encode_decode(bytes.subrange(n - 4, n));
    assert(u32_from_be(bytes) == u32_from_be(bytes.take(4)));
    assert(bytes.subrange(4, n - 4) =~= chunk.guarded());
    assert(chunk.bytes() =~= bytes);
}

/// What becomes of a chunk whose data bytes are altered while its length,
/// type and stored checksum stay: it is refused for its checksum exactly
/// when the checksum of the altered content differs from the stored one,
/// and otherwise it reads as the chunk with the altered data.
pub proof fn lemma_altered_data(chunk: ChunkView, altered: Seq<u8>)
    requires
        chunk.wf(),
        altered.len() == chunk.data.len(),
    ensures
        ({
            let changed = ChunkView { chunk_type: chunk.chunk_type, data: altered };
            let bytes = u32_to_be(chunk.length()) + chunk.chunk_type + altered + u32_to_be(
                chunk.crc(),
            );
            if changed.crc() != chunk.crc() {
                parse_chunk(bytes) == Err::<ChunkView, PngError>(PngError::ChecksumMismatch)
            } else {
                parse_chunk(bytes) == Ok::<ChunkView, PngError>(changed)
            }
        }),
{
    let changed = ChunkView { chunk_type: chunk.chunk_type, data: altered };
    let bytes = u32_to_be(chunk.length()) + chunk.chunk_type + altered + u32_to_be(chunk.crc());
    let n = bytes.len() as int;
    lemma_be_decode_encode(chunk.length());
    lemma_be_decode_encode(chunk.crc());
    assert(n == altered.len() + 12);
    assert(bytes.take(4) =~= u32_to_be(chunk.length()));
    assert(u32_from_be(bytes) == u32_from_be(bytes.take(4)));
    assert(bytes.subrange(n - 4, n) =~= u32_to_be(chunk.crc()));
    assert(bytes.subrange(4, n - 4) =~= changed.guarded());
    assert(bytes.subrange(4, 8) =~= chunk.chunk_type);
    assert(bytes.subrange(8, n - 4) =~= altered);
}

/// A chunk whose length and checksum fields agree with its type and data.
#[derive(Debug)]
pub struct Chunk {
    length: u32,
    chunk_type: ChunkType,
    data: Vec<u8>,
    crc: u32,
}

impl View for Chunk {
    type V = ChunkView;

    closed spec fn view(&self) -> ChunkView {
        ChunkView { chunk_type: self.chunk_type@, data: self.data@ }
    }
}

impl Chunk {
    #[verifier::type_invariant]
    closed spec fn consistent(self) -> bool {
        &&& self@.wf()
        &&& self.length == self@.length()
        &&& self.crc == self@.crc()
    }

    /// Builds the chunk of the given type and data, computing its length and checksum.
    pub fn new(chunk_type: ChunkType, data: Vec<u8>) -> (chunk: Chunk)
        requires
            data@.len() <= u32::MAX,
        ensures
            chunk@ == (ChunkView { chunk_type: chunk_type@, data: data@ }),
            chunk@.wf(),
    {
        let code = chunk_type.bytes();
        let mut guarded: Vec<u8> = Vec::new();
        extend_bytes(&mut guarded, code.as_slice());
        extend_bytes(&mut guarded, data.as_slice());
        assert(guarded@ =~= chunk_type@ + data@);
        let crc = checksum(guarded.as_slice());
        let length: u32 = data.len() as u32;
        Chunk { length, chunk_type, data, crc }
    }

    /// Builds the chunk of the given type and data, unless the data is too
    /// long for the 32-bit length field.
    pub fn try_new(chunk_type: ChunkType, data: Vec<u8>) -> (r: Result<Chunk, PngError>)
        ensures
            match r {
                Ok(chunk) => {
                    &&& data@.len() <= u32::MAX
                    &&& chunk@ == (ChunkView { chunk_type: chunk_type@, data: data@ })
                    &&& chunk@.wf()
                },
                Err(e) => data@.len() > u32::MAX && e == PngError::MalformedChunk,
            },
    {
        if data.len() > 0xFFFF_FFFF {
            Err(PngError::MalformedChunk)
        } else {
            Ok(Chunk::new(chunk_type, data))
        }
    }

    /// Judges `bytes` as the layout of one chunk, given the checksum
    /// `computed` over its type and data bytes.
    pub fn validate(bytes: &[u8], computed: u32) -> (r: Result<(), PngError>)
        ensures
            r == check_chunk(bytes@, computed),
    {
        let n = bytes.len();
        if n < 12 {
            return Err(PngError::MalformedChunk);
        }
        let declared = read_u32_be(bytes, 0);
        assert(bytes@.subrange(0, 4) =~= bytes@.take(4));
        assert(u32_from_be(bytes@.subrange(0, 4)) == u32_from_be(bytes@));
        if declared as usize != n - 12 {
            return Err(PngError::MalformedChunk);
        }
        let stored = read_u32_be(bytes, n - 4);
        if stored != computed {
            return Err(PngError::ChecksumMismatch);
        }
        let letters = byte_is_letter(bytes[4]) && byte_is_letter(bytes[5]) && byte_is_letter(
            bytes[6],
        ) && byte_is_letter(bytes[7]);
        proof {
            let code = bytes@.subrange(4, 8);
            assert(code[0] == bytes@[4] && code[1] == bytes@[5]);
            assert(code[2] == bytes@[6] && code[3] == bytes@[7]);
        }
        if !letters {
            return Err(PngError::InvalidChunkType);
        }
        Ok(())
    }

    /// Reads `bytes` as the layout of exactly one chunk.
    pub fn try_from(bytes: &[u8]) -> (r: Result<Chunk, PngError>)
        ensures
            match r {
                Ok(chunk) => {
                    &&& parse_chunk(bytes@) == Ok::<ChunkView, PngError>(chunk@)
                    &&& chunk@.wf()
                },
                Err(e) => parse_chunk(bytes@) == Err::<ChunkView, PngError>(e),
            },
    {
        let n = bytes.len();
        if n < 12 {
            return Err(PngError::MalformedChunk);
        }
        let crc = checksum(slice_subrange(bytes, 4, n - 4));
        match Chunk::validate(bytes, crc) {
            Err(e) => Err(e),
            Ok(_) => {
                let code: [u8; 4] = [bytes[4], bytes[5], bytes[6], bytes[7]];
                assert(code@ =~= bytes@.subrange(4, 8));
                let chunk_type = match ChunkType::try_from(code) {
                    Ok(t) => t,
                    Err(_) => unreached(),
                };
                let data = slice_to_vec(slice_subrange(bytes, 8, n - 4));
                let length: u32 = (n - 12) as u32;
                assert(chunk_type@ + data@ =~= bytes@.subrange(4, n - 4));
                Ok(Chunk { length, chunk_type, data, crc })
            },
        }
    }

    /// The data read as UTF-8 text.
    pub fn data_as_string(&self) -> (r: Result<String, PngError>)
        ensures
            match r {
                Ok(text) => valid_utf8(self@.data) && text@ == decode_utf8(self@.data),
                Err(e) => !valid_utf8(self@.data) && e == PngError::TextDecodeError,
            },
    {
        decode_text(self.data.as_slice())
    }

    /// The value of the length field.
    pub fn length(&self) -> (n: u32)
        ensures
            n == self@.length(),
            self@.wf(),
    {
        proof {
            use_type_invariant(self);
        }
        self.length
    }

    /// The type code.
    pub fn chunk_type(&self) -> (t: ChunkType)
        ensures
            t@ == self@.chunk_type,
            self@.wf(),
    {
        proof {
            use_type_invariant(self);
        }
        self.chunk_type
    }

    /// The data bytes.
    pub fn data(&self) -> (d: &[u8])
        ensures
            d@ == self@.data,
            self@.wf(),
    {
        proof {
            use_type_invariant(self);
        }
        self.data.as_slice()
    }

    /// The value of the checksum field.
    pub fn crc(&self) -> (sum: u32)
        ensures
            sum == self@.crc(),
            self@.wf(),
    {
        proof {
            use_type_invariant(self);
        }
        self.crc
    }

    /// The byte layout of the chunk: length, type code, data, checksum.
    pub fn as_bytes(&self) -> (out: Vec<u8>)
        ensures
            out@ == self@.bytes(),
            self@.wf(),
    {
        proof {
            use_type_invariant(self);
        }
        let code = self.chunk_type.bytes();
        let mut out: Vec<u8> = Vec::new();
        push_u32_be(&mut out, self.length);
        extend_bytes(&mut out, code.as_slice());
        extend_bytes(&mut out, self.data.as_slice());
        push_u32_be(&mut out, self.crc);
        assert(out@ =~= self@.bytes());
        out
    }
}

} // verus!
