use pngme::chunk::Chunk;
use pngme::chunk_type::ChunkType;
use pngme::error::PngError;
use pngme::png::{has_signature, Png, STANDARD_HEADER};

fn chunk(spelling: &str, data: &[u8]) -> Chunk {
    Chunk::new(ChunkType::from_str(spelling).unwrap(), data.to_vec())
}

fn code(spelling: &str) -> ChunkType {
    ChunkType::from_str(spelling).unwrap()
}

fn spellings(png: &Png) -> Vec<String> {
    png.chunks().iter().map(|c| c.chunk_type().to_string()).collect()
}

fn datas(png: &Png) -> Vec<Vec<u8>> {
    png.chunks().iter().map(|c| c.data().to_vec()).collect()
}

/// A one-pixel image file cut down to its header and end chunks.
fn minimal_file() -> Vec<u8> {
    vec![
        0x89, 0x50, 0x4E, 0x47, 0x0D, 0x0A, 0x1A, 0x0A, // signature
        0, 0, 0, 13, 0x49, 0x48, 0x44, 0x52, 0, 0, 0, 1, 0, 0, 0, 1, 8, 6, 0, 0, 0, 0x1F, 0x15,
        0xC4, 0x89, // IHDR
        0, 0, 0, 0, 0x49, 0x45, 0x4E, 0x44, 0xAE, 0x42, 0x60, 0x82, // IEND
    ]
}

fn sample() -> Png {
    Png::from_chunks(vec![
        chunk("IHDR", &[0, 0, 0, 1, 0, 0, 0, 1, 8, 6, 0, 0, 0]),
        chunk("miDl", b"first"),
        chunk("miDl", b"second"),
        chunk("IEND", b""),
    ])
}

#[test]
fn signature_is_the_png_magic() {
    assert_eq!(STANDARD_HEADER, [0x89, 0x50, 0x4E, 0x47, 0x0D, 0x0A, 0x1A, 0x0A]);
    assert_eq!(sample().header(), &[137, 80, 78, 71, 13, 10, 26, 10]);
    assert!(has_signature(&minimal_file()));
    assert!(has_signature(&STANDARD_HEADER));
    assert!(!has_signature(&STANDARD_HEADER[..7]));
    assert!(!has_signature(&[]));
    for at in 0..8 {
        let mut bytes = minimal_file();
        bytes[at] ^= 1;
        assert!(!has_signature(&bytes));
    }
}

#[test]
fn minimal_file_parses() {
    let png = Png::try_from(&minimal_file()).unwrap();
    assert_eq!(spellings(&png), vec!["IHDR", "IEND"]);
    assert_eq!(png.chunks()[0].length(), 13);
    assert_eq!(png.chunks()[0].crc(), 0x1F15_C489);
    assert_eq!(png.chunks()[1].length(), 0);
    assert_eq!(png.chunks()[1].crc(), 0xAE42_6082);
    assert_eq!(png.as_bytes(), minimal_file());
}

#[test]
fn signature_alone_is_an_empty_container() {
    let png = Png::try_from(&STANDARD_HEADER).unwrap();
    assert_eq!(png.chunks().len(), 0);
    assert_eq!(png.as_bytes(), STANDARD_HEADER.to_vec());
    assert_eq!(Png::from_chunks(Vec::new()).as_bytes(), STANDARD_HEADER.to_vec());
}

#[test]
fn wrong_signature_is_refused() {
    for at in 0..8 {
        let mut bytes = minimal_file();
        bytes[at] = bytes[at].wrapping_add(1);
        assert_eq!(Png::try_from(&bytes).err(), Some(PngError::InvalidSignature));
    }
    for n in 0..8 {
        assert_eq!(Png::try_from(&minimal_file()[..n]).err(), Some(PngError::InvalidSignature));
    }
}

#[test]
fn layout_is_signature_then_chunks_in_order() {
    let png = sample();
    let mut expected = STANDARD_HEADER.to_vec();
    for c in png.chunks() {
        expected.extend_from_slice(&c.as_bytes());
    }
    assert_eq!(png.as_bytes(), expected);
    assert_eq!(expected.len(), 8 + 25 + 17 + 18 + 12);
}

#[test]
fn writing_out_twice_gives_the_same_bytes() {
    let png = sample();
    let first = png.as_bytes();
    let second = png.as_bytes();
    assert_eq!(first, second);

    let parsed = Png::try_from(&minimal_file()).unwrap();
    assert_eq!(parsed.as_bytes(), parsed.as_bytes());
}

#[test]
fn parsing_the_layout_gives_the_chunks_back() {
    let png = sample();
    let bytes = png.as_bytes();
    let again = Png::try_from(&bytes).unwrap();
    assert_eq!(spellings(&again), spellings(&png));
    assert_eq!(datas(&again), datas(&png));
    assert_eq!(again.as_bytes(), bytes);
}

#[test]
fn chunk_cut_short_is_malformed() {
    let whole = minimal_file();
    for n in 9..whole.len() {
        if n == 8 + 25 {
            assert!(Png::try_from(&whole[..n]).is_ok());
        } else {
            assert_eq!(Png::try_from(&whole[..n]).err(), Some(PngError::MalformedChunk));
        }
    }
}

#[test]
fn bytes_behind_the_last_chunk_are_read_as_a_chunk() {
    let mut bytes = minimal_file();
    bytes.push(0);
    assert_eq!(Png::try_from(&bytes).err(), Some(PngError::MalformedChunk));

    let mut bytes = minimal_file();
    bytes.extend_from_slice(&chunk("ruSt", b"after the end").as_bytes());
    let png = Png::try_from(&bytes).unwrap();
    assert_eq!(spellings(&png), vec!["IHDR", "IEND", "ruSt"]);
}

#[test]
fn error_of_the_first_bad_chunk_is_reported() {
    let mut bytes = minimal_file();
    bytes[20] ^= 0x10; // a data byte of IHDR
    let last = bytes.len() - 1;
    bytes[last] ^= 1; // the checksum of IEND
    assert_eq!(Png::try_from(&bytes).err(), Some(PngError::ChecksumMismatch));

    let mut bytes = minimal_file();
    bytes[last] ^= 1;
    assert_eq!(Png::try_from(&bytes).err(), Some(PngError::ChecksumMismatch));

    let crc = crc::Crc::<u32>::new(&crc::CRC_32_ISO_HDLC).checksum(b"I3ND");
    let mut bytes = minimal_file();
    bytes.truncate(8 + 25);
    bytes.extend_from_slice(&[0, 0, 0, 0]);
    bytes.extend_from_slice(b"I3ND");
    bytes.extend_from_slice(&crc.to_be_bytes());
    assert_eq!(Png::try_from(&bytes).err(), Some(PngError::InvalidChunkType));

    let mut bytes = minimal_file();
    bytes[11] = 14; // IHDR now claims one byte of the next chunk
    assert_eq!(Png::try_from(&bytes).err(), Some(PngError::ChecksumMismatch));

    let mut bytes = minimal_file();
    bytes[8] = 0xff; // IHDR now claims more than the file holds
    assert_eq!(Png::try_from(&bytes).err(), Some(PngError::MalformedChunk));
}

#[test]
fn find_first_gives_the_first_match() {
    let png = sample();
    assert_eq!(png.find_first(&code("miDl")).unwrap().data(), b"first");
    assert_eq!(png.find_first(&code("IHDR")).unwrap().length(), 13);
    assert_eq!(png.find_first(&code("IEND")).unwrap().length(), 0);
    assert!(png.find_first(&code("ruSt")).is_none());
    assert!(png.find_first(&code("MiDl")).is_none());
    assert_eq!(png.position(&code("IHDR")), Some(0));
    assert_eq!(png.position(&code("miDl")), Some(1));
    assert_eq!(png.position(&code("IEND")), Some(3));
    assert_eq!(png.position(&code("ruSt")), None);
    assert_eq!(Png::from_chunks(Vec::new()).position(&code("IEND")), None);
}

#[test]
fn append_puts_the_chunk_before_the_end_chunk() {
    let mut png = sample();
    png.append(chunk("ruSt", b"hello"));
    assert_eq!(spellings(&png), vec!["IHDR", "miDl", "miDl", "ruSt", "IEND"]);
    png.append(chunk("ruSt", b"again"));
    assert_eq!(spellings(&png), vec!["IHDR", "miDl", "miDl", "ruSt", "ruSt", "IEND"]);
    assert_eq!(png.chunks()[3].data(), b"hello");
    assert_eq!(png.chunks()[4].data(), b"again");
}

#[test]
fn append_without_end_chunk_puts_the_chunk_last() {
    let mut png = Png::from_chunks(vec![chunk("IHDR", b""), chunk("miDl", b"x")]);
    png.append(chunk("ruSt", b"hello"));
    assert_eq!(spellings(&png), vec!["IHDR", "miDl", "ruSt"]);

    let mut empty = Png::from_chunks(Vec::new());
    empty.append(chunk("ruSt", b"hello"));
    assert_eq!(spellings(&empty), vec!["ruSt"]);
}

#[test]
fn append_goes_before_the_first_of_two_end_chunks() {
    let mut png = Png::from_chunks(vec![
        chunk("IHDR", b""),
        chunk("IEND", b""),
        chunk("miDl", b"x"),
        chunk("IEND", b""),
    ]);
    png.append(chunk("ruSt", b"hello"));
    assert_eq!(spellings(&png), vec!["IHDR", "ruSt", "IEND", "miDl", "IEND"]);

    let mut only_end = Png::from_chunks(vec![chunk("IEND", b"")]);
    only_end.append(chunk("IEND", b"x"));
    assert_eq!(datas(&only_end), vec![b"x".to_vec(), Vec::new()]);
}

#[test]
fn remove_first_takes_one_chunk_out() {
    let mut png = sample();
    let removed = png.remove_first(&code("miDl")).unwrap();
    assert_eq!(removed.data(), b"first");
    assert_eq!(spellings(&png), vec!["IHDR", "miDl", "IEND"]);
    assert_eq!(png.chunks()[1].data(), b"second");

    let removed = png.remove_first(&code("miDl")).unwrap();
    assert_eq!(removed.data(), b"second");
    assert_eq!(spellings(&png), vec!["IHDR", "IEND"]);
}

#[test]
fn remove_first_of_a_missing_type_changes_nothing() {
    let mut png = sample();
    let before = png.as_bytes();
    assert_eq!(png.remove_first(&code("ruSt")).err(), Some(PngError::ChunkNotFound));
    assert_eq!(png.as_bytes(), before);

    let mut empty = Png::from_chunks(Vec::new());
    assert_eq!(empty.remove_first(&code("IEND")).err(), Some(PngError::ChunkNotFound));
}

#[test]
fn append_then_remove_restores_the_chunks() {
    for chunks in [
        vec![],
        vec![chunk("IHDR", b"h")],
        vec![chunk("IHDR", b"h"), chunk("IEND", b"")],
        vec![chunk("IHDR", b"h"), chunk("miDl", b"m"), chunk("IEND", b""), chunk("miDl", b"n")],
    ] {
        let mut png = Png::from_chunks(chunks);
        let before = png.as_bytes();
        assert!(png.find_first(&code("ruSt")).is_none());
        png.append(chunk("ruSt", b"hello"));
        assert_ne!(png.as_bytes(), before);
        let removed = png.remove_first(&code("ruSt")).unwrap();
        assert_eq!(removed.data(), b"hello");
        assert_eq!(png.as_bytes(), before);
    }

    let mut no_end = Png::from_chunks(vec![chunk("IHDR", b"h")]);
    let before = no_end.as_bytes();
    no_end.append(chunk("IEND", b""));
    no_end.remove_first(&code("IEND")).unwrap();
    assert_eq!(no_end.as_bytes(), before);
}
