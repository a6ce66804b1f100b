//! The four operations on a whole file buffer: encode, decode, remove, print.
//!
//! Each takes the bytes of a file and gives back bytes to write, text to
//! show, or the one error that stopped it. None of them touches a file.

use vstd::prelude::*;
use vstd::slice::slice_to_vec;
use vstd::utf8::{
    decode_utf8, encode_utf8, encode_utf8_decode_utf8, encode_utf8_valid_utf8, valid_utf8,
};
use crate::chunk::{Chunk, ChunkView};
use crate::chunk_type::{code_bytes, code_chars, lemma_spelling_round_trip, valid_code, ChunkType};
use crate::error::PngError;
use crate::png::{
    appended, end_code, first_index, lemma_append_then_remove, lemma_first_index,
    lemma_parse_of_png_bytes, lemma_png_bytes_of_parse, parse_png, png_bytes, views,
    without_first, Png,
};

verus! {

/// The chunk that carries `message` under the type spelled `code`.
pub open spec fn message_chunk(code: Seq<char>, message: Seq<char>) -> ChunkView {
    ChunkView { chunk_type: code_bytes(code), data: encode_utf8(message) }
}

/// The file that `encode` makes of the file `input`: the same container with
/// the message chunk added. The type spelling is judged first, then the
/// container, then the length of the message.
pub open spec fn encode_spec(input: Seq<u8>, code: Seq<char>, message: Seq<char>) -> Result<
    Seq<u8>,
    PngError,
> {
    if !valid_code(code) {
        Err(PngError::InvalidChunkType)
    } else {
        match parse_png(input) {
            Err(e) => Err(e),
            Ok(chunks) => if encode_utf8(message).len() > u32::MAX {
                Err(PngError::MalformedChunk)
            } else {
                Ok(png_bytes(appended(chunks, message_chunk(code, message))))
            },
        }
    }
}

/// The text that `decode` finds in the file `input`: the data of the first
/// chunk of the type spelled `code`, read as UTF-8.
pub open spec fn decode_spec(input: Seq<u8>, code: Seq<char>) -> Result<Seq<char>, PngError> {
    if !valid_code(code) {
        Err(PngError::InvalidChunkType)
    } else {
        match parse_png(input) {
            Err(e) => Err(e),
            Ok(chunks) => {
                let at = first_index(chunks, code_bytes(code));
                if at == chunks.len() {
                    Err(PngError::ChunkNotFound)
                } else if !valid_utf8(chunks[at].data) {
                    Err(PngError::TextDecodeError)
                } else {
                    Ok(decode_utf8(chunks[at].data))
                }
            },
        }
    }
}

/// The file that `remove` makes of the file `input`: the same container
/// without its first chunk of the type spelled `code`.
pub open spec fn remove_spec(input: Seq<u8>, code: Seq<char>) -> Result<Seq<u8>, PngError> {
    if !valid_code(code) {
        Err(PngError::InvalidChunkType)
    } else {
        match parse_png(input) {
            Err(e) => Err(e),
            Ok(chunks) => if first_index(chunks, code_bytes(code)) == chunks.len() {
                Err(PngError::ChunkNotFound)
            } else {
                Ok(png_bytes(without_first(chunks, code_bytes(code))))
            },
        }
    }
}

/// A message hidden under a type that the file did not hold is the message
/// that is found under that type, and taking its chunk out again gives the
/// bytes of the file from before.
pub proof fn lemma_encode_then_decode(input: Seq<u8>, code: Seq<char>, message: Seq<char>)
    requires
        encode_spec(input, code, message) is Ok,
        first_index(parse_png(input).unwrap(), code_bytes(code)) == parse_png(input).unwrap().len(),
    ensures
        decode_spec(encode_spec(input, code, message).unwrap(), code) == Ok::<Seq<char>, PngError>(
            message,
        ),
        remove_spec(encode_spec(input, code, message).unwrap(), code) == Ok::<Seq<u8>, PngError>(
            input,
        ),
{
    let chunks = parse_png(input).unwrap();
    let chunk = message_chunk(code, message);
    let after = appended(chunks, chunk);
    lemma_spelling_round_trip(code);
    lemma_png_bytes_of_parse(input);
    lemma_first_index(chunks, end_code());
    assert forall|i: int| 0 <= i < after.len() implies (#[trigger] after[i]).wf() by {
        let at = first_index(chunks, end_code());
        if i < at {
            assert(after[i] == chunks[i]);
        } else if i > at {
            assert(after[i] == chunks[i - 1]);
        }
    }
    lemma_parse_of_png_bytes(after);
    lemma_append_then_remove(chunks, chunk);
    encode_utf8_valid_utf8(message);
    encode_utf8_decode_utf8(message);
}

/// What `print` tells of one chunk.
#[derive(Debug, Clone, PartialEq, Eq)]
pub struct ChunkSummary {
    /// The type code, spelled out.
    pub chunk_type: String,
    /// The number of data bytes.
    pub length: u32,
    /// The stored checksum.
    pub crc: u32,
}

impl ChunkSummary {
    /// Whether this is the summary of `chunk`.
    pub open spec fn describes(&self, chunk: ChunkView) -> bool {
        &&& self.chunk_type@ == code_chars(chunk.chunk_type)
        &&& self.length == chunk.length()
        &&& self.crc == chunk.crc()
    }
}

/// Hides `message` in the file `input`, in a new chunk of the type spelled
/// `chunk_type`, and gives the bytes of the new file.
pub fn encode(input: &[u8], chunk_type: &str, message: &str) -> (r: Result<Vec<u8>, PngError>)
    ensures
        match r {
            Ok(out) => encode_spec(input@, chunk_type@, message@) == Ok::<Seq<u8>, PngError>(out@),
            Err(e) => encode_spec(input@, chunk_type@, message@) == Err::<Seq<u8>, PngError>(e),
        },
{
    let code = match ChunkType::from_str(chunk_type) {
        Ok(code) => code,
        Err(e) => {
            return Err(e);
        },
    };
    let mut png = match Png::try_from(input) {
        Ok(png) => png,
        Err(e) => {
            return Err(e);
        },
    };
    let data = slice_to_vec(message.as_bytes());
    let chunk = match Chunk::try_new(code, data) {
        Ok(chunk) => chunk,
        Err(e) => {
            return Err(e);
        },
    };
    png.append(chunk);
    Ok(png.as_bytes())
}

/// Finds the message that the file `input` holds in its first chunk of the
/// type spelled `chunk_type`.
pub fn decode(input: &[u8], chunk_type: &str) -> (r: Result<String, PngError>)
    ensures
        match r {
            Ok(text) => decode_spec(input@, chunk_type@) == Ok::<Seq<char>, PngError>(text@),
            Err(e) => decode_spec(input@, chunk_type@) == Err::<Seq<char>, PngError>(e),
        },
{
    let code = match ChunkType::from_str(chunk_type) {
        Ok(code) => code,
        Err(e) => {
            return Err(e);
        },
    };
    let png = match Png::try_from(input) {
        Ok(png) => png,
        Err(e) => {
            return Err(e);
        },
    };
    match png.find_first(&code) {
        Some(chunk) => chunk.data_as_string(),
        None => Err(PngError::ChunkNotFound),
    }
}

/// Takes the first chunk of the type spelled `chunk_type` out of the file
/// `input` and gives the bytes of the new file.
pub fn remove(input: &[u8], chunk_type: &str) -> (r: Result<Vec<u8>, PngError>)
    ensures
        match r {
            Ok(out) => remove_spec(input@, chunk_type@) == Ok::<Seq<u8>, PngError>(out@),
            Err(e) => remove_spec(input@, chunk_type@) == Err::<Seq<u8>, PngError>(e),
        },
{
    let code = match ChunkType::from_str(chunk_type) {
        Ok(code) => code,
        Err(e) => {
            return Err(e);
        },
    };
    let mut png = match Png::try_from(input) {
        Ok(png) => png,
        Err(e) => {
            return Err(e);
        },
    };
    match png.remove_first(&code) {
        Ok(_) => Ok(png.as_bytes()),
        Err(e) => Err(e),
    }
}

/// Lists the chunks of the file `input` in order: type, data length and checksum of each.
pub fn print(input: &[u8]) -> (r: Result<Vec<ChunkSummary>, PngError>)
    ensures
        match r {
            Ok(list) => {
                &&& parse_png(input@) is Ok
                &&& list@.len() == parse_png(input@).unwrap().len()
                &&& forall|i: int|
                    0 <= i < list@.len() ==> (#[trigger] list@[i]).describes(
                        parse_png(input@).unwrap()[i],
                    )
            },
            Err(e) => parse_png(input@) == Err::<Seq<ChunkView>, PngError>(e),
        },
{
    let png = match Png::try_from(input) {
        Ok(png) => png,
        Err(e) => {
            return Err(e);
        },
    };
    let chunks = png.chunks();
    let mut list: Vec<ChunkSummary> = Vec::new();
    let mut i: usize = 0;
    while i < chunks.len()
        invariant
            i <= chunks@.len(),
            views(chunks@) == png@,
            list@.len() == i,
            forall|j: int| 0 <= j < i ==> (#[trigger] list@[j]).describes(png@[j]),
        decreases chunks@.len() - i,
    {
        let chunk = &chunks[i];
        assert(png@[i as int] == chunks@[i as int]@);
        let summary = ChunkSummary {
            chunk_type: chunk.chunk_type().to_string(),
            length: chunk.length(),
            crc: chunk.crc(),
        };
        list.push(summary);
        i = i + 1;
    }
    Ok(list)
}

} // verus!
