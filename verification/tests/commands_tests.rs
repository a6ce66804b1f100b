use pngme::chunk::Chunk;
use pngme::chunk_type::ChunkType;
use pngme::commands::{decode, encode, print, remove, ChunkSummary};
use pngme::error::PngError;
use pngme::png::Png;

/// A one-pixel image file cut down to its header and end chunks.
fn minimal_file() -> Vec<u8> {
    vec![
        0x89, 0x50, 0x4E, 0x47, 0x0D, 0x0A, 0x1A, 0x0A, // signature
        0, 0, 0, 13, 0x49, 0x48, 0x44, 0x52, 0, 0, 0, 1, 0, 0, 0, 1, 8, 6, 0, 0, 0, 0x1F, 0x15,
        0xC4, 0x89, // IHDR
        0, 0, 0, 0, 0x49, 0x45, 0x4E, 0x44, 0xAE, 0x42, 0x60, 0x82, // IEND
    ]
}

#[test]
fn encode_then_decode_then_remove() {
    let input = minimal_file();
    let with_message = encode(&input, "ruSt", "hello").unwrap();
    assert_eq!(decode(&with_message, "ruSt"), Ok(String::from("hello")));

    let without = remove(&with_message, "ruSt").unwrap();
    assert_eq!(decode(&without, "ruSt"), Err(PngError::ChunkNotFound));
    assert_eq!(without, input);
}

#[test]
fn encode_puts_the_message_chunk_before_the_end_chunk() {
    let out = encode(&minimal_file(), "ruSt", "hello").unwrap();
    let crc = crc::Crc::<u32>::new(&crc::CRC_32_ISO_HDLC).checksum(b"ruSthello");
    let mut expected = minimal_file()[..8 + 25].to_vec();
    expected.extend_from_slice(&[0, 0, 0, 5]);
    expected.extend_from_slice(b"ruSthello");
    expected.extend_from_slice(&crc.to_be_bytes());
    expected.extend_from_slice(&minimal_file()[8 + 25..]);
    assert_eq!(out, expected);
}

#[test]
fn encode_keeps_text_outside_ascii() {
    let message = "gr\u{fc}\u{df}e \u{1f600}";
    let out = encode(&minimal_file(), "ruSt", message).unwrap();
    assert_eq!(decode(&out, "ruSt"), Ok(String::from(message)));
    let empty = encode(&minimal_file(), "ruSt", "").unwrap();
    assert_eq!(decode(&empty, "ruSt"), Ok(String::new()));
}

#[test]
fn decode_reads_the_first_chunk_of_the_type() {
    let first = encode(&minimal_file(), "ruSt", "first").unwrap();
    let both = encode(&first, "ruSt", "second").unwrap();
    assert_eq!(decode(&both, "ruSt"), Ok(String::from("first")));
    let rest = remove(&both, "ruSt").unwrap();
    assert_eq!(decode(&rest, "ruSt"), Ok(String::from("second")));
    assert_eq!(decode(&both, "ruSu"), Err(PngError::ChunkNotFound));
}

#[test]
fn type_spelling_is_judged_before_the_file() {
    let junk = b"this is no image file";
    assert_eq!(encode(junk, "ru1t", "m"), Err(PngError::InvalidChunkType));
    assert_eq!(decode(junk, "rust!"), Err(PngError::InvalidChunkType));
    assert_eq!(remove(junk, ""), Err(PngError::InvalidChunkType));
    assert_eq!(encode(&minimal_file(), "toolong", "m"), Err(PngError::InvalidChunkType));

    assert_eq!(encode(junk, "ruSt", "m"), Err(PngError::InvalidSignature));
    assert_eq!(decode(junk, "ruSt"), Err(PngError::InvalidSignature));
    assert_eq!(remove(junk, "ruSt"), Err(PngError::InvalidSignature));
    assert_eq!(print(junk), Err(PngError::InvalidSignature));
}

#[test]
fn errors_of_the_file_are_passed_on() {
    let mut cut = minimal_file();
    cut.pop();
    assert_eq!(encode(&cut, "ruSt", "m"), Err(PngError::MalformedChunk));
    assert_eq!(decode(&cut, "ruSt"), Err(PngError::MalformedChunk));
    assert_eq!(remove(&cut, "ruSt"), Err(PngError::MalformedChunk));
    assert_eq!(print(&cut), Err(PngError::MalformedChunk));

    let mut flipped = minimal_file();
    flipped[16] ^= 0x40;
    assert_eq!(encode(&flipped, "ruSt", "m"), Err(PngError::ChecksumMismatch));
    assert_eq!(decode(&flipped, "ruSt"), Err(PngError::ChecksumMismatch));
    assert_eq!(remove(&flipped, "ruSt"), Err(PngError::ChecksumMismatch));
    assert_eq!(print(&flipped), Err(PngError::ChecksumMismatch));
}

#[test]
fn missing_chunk_is_reported() {
    assert_eq!(decode(&minimal_file(), "ruSt"), Err(PngError::ChunkNotFound));
    assert_eq!(remove(&minimal_file(), "ruSt"), Err(PngError::ChunkNotFound));
}

#[test]
fn data_that_is_no_text_is_reported() {
    let mut png = Png::try_from(&minimal_file()).unwrap();
    png.append(Chunk::new(ChunkType::from_str("ruSt").unwrap(), vec![0xff, 0xfe]));
    assert_eq!(decode(&png.as_bytes(), "ruSt"), Err(PngError::TextDecodeError));
    let header_as_text = "\0\0\0\u{1}\0\0\0\u{1}\u{8}\u{6}\0\0\0";
    assert_eq!(decode(&minimal_file(), "IHDR"), Ok(String::from(header_as_text)));
}

#[test]
fn remove_can_take_out_any_chunk() {
    let out = remove(&minimal_file(), "IHDR").unwrap();
    assert_eq!(out.len(), 8 + 12);
    assert_eq!(&out[8..], &minimal_file()[8 + 25..]);
    let out = remove(&out, "IEND").unwrap();
    assert_eq!(out, minimal_file()[..8].to_vec());
}

#[test]
fn print_lists_every_chunk_in_order() {
    let file = encode(&minimal_file(), "ruSt", "hello").unwrap();
    let crc = crc::Crc::<u32>::new(&crc::CRC_32_ISO_HDLC).checksum(b"ruSthello");
    assert_eq!(
        print(&file),
        Ok(vec![
            ChunkSummary { chunk_type: String::from("IHDR"), length: 13, crc: 0x1F15_C489 },
            ChunkSummary { chunk_type: String::from("ruSt"), length: 5, crc },
            ChunkSummary { chunk_type: String::from("IEND"), length: 0, crc: 0xAE42_6082 },
        ])
    );
    assert_eq!(print(&minimal_file()[..8]), Ok(Vec::new()));
}
