//! The four-letter type code of a chunk and the properties its letter case encodes.

use vstd::prelude::*;
use vstd::pervasive::unreached;
use vstd::std_specs::cmp::PartialEqSpecImpl;
use vstd::string::is_ascii_spec_bytes;
use vstd::utf8::{
    encode_utf8, encode_utf8_decode_utf8, encode_utf8_valid_utf8, is_ascii_chars,
    is_ascii_chars_encode_utf8,
};
use crate::error::PngError;
use crate::text::decode_text;

verus! {

/// Whether `b` is an ASCII upper-case letter.
pub open spec fn is_upper(b: u8) -> bool {
    65 <= b <= 90
}

/// Whether `b` is an ASCII lower-case letter.
pub open spec fn is_lower(b: u8) -> bool {
    97 <= b <= 122
}

/// Whether `b` is an ASCII letter.
pub open spec fn is_letter(b: u8) -> bool {
    is_upper(b) || is_lower(b)
}

/// Whether `t` is a legal type code: four bytes, each an ASCII letter.
pub open spec fn valid_type(t: Seq<u8>) -> bool {
    &&& t.len() == 4
    &&& forall|i: int| 0 <= i < 4 ==> is_letter(#[trigger] t[i])
}

/// Whether `c` is an ASCII letter.
pub open spec fn is_letter_char(c: char) -> bool {
    ('A' <= c && c <= 'Z') || ('a' <= c && c <= 'z')
}

/// Whether `s` spells a legal type code: four characters, each an ASCII letter.
pub open spec fn valid_code(s: Seq<char>) -> bool {
    &&& s.len() == 4
    &&& forall|i: int| 0 <= i < 4 ==> is_letter_char(#[trigger] s[i])
}

/// The bytes of a text of ASCII characters, one byte for each character.
pub open spec fn code_bytes(s: Seq<char>) -> Seq<u8> {
    Seq::new(s.len(), |i: int| s[i] as u8)
}

/// The text that ASCII bytes spell, one character for each byte.
pub open spec fn code_chars(b: Seq<u8>) -> Seq<char> {
    Seq::new(b.len(), |i: int| b[i] as char)
}

/// Four ASCII letters make a type code, and that code is spelled by the same
/// four letters: building a code from a spelling and rendering it gives the
/// spelling back.
pub proof fn lemma_spelling_round_trip(s: Seq<char>)
    requires
        valid_code(s),
    ensures
        valid_type(code_bytes(s)),
        code_chars(code_bytes(s)) == s,
{
    assert forall|i: int| 0 <= i < 4 implies is_letter(#[trigger] code_bytes(s)[i]) by {
        assert(is_letter_char(s[i]));
    }
    assert forall|i: int| 0 <= i < 4 implies code_chars(code_bytes(s))[i] == s[i] by {
        assert(is_letter_char(s[i]));
    }
    assert(code_chars(code_bytes(s)) =~= s);
}

/// The spelling of a type code is four ASCII letters, and they spell that code.
pub proof fn lemma_code_round_trip(t: Seq<u8>)
    requires
        valid_type(t),
    ensures
        valid_code(code_chars(t)),
        code_bytes(code_chars(t)) == t,
{
    assert forall|i: int| 0 <= i < 4 implies is_letter_char(#[trigger] code_chars(t)[i]) by {
        assert(is_letter(t[i]));
    }
    assert forall|i: int| 0 <= i < 4 implies code_bytes(code_chars(t))[i] == t[i] by {
        assert(is_letter(t[i]));
    }
    assert(code_bytes(code_chars(t)) =~= t);
}

/// Tests a byte for being an ASCII upper-case letter.
pub fn byte_is_upper(b: u8) -> (r: bool)
    ensures
        r == is_upper(b),
{
    65 <= b && b <= 90
}

/// Tests a byte for being an ASCII lower-case letter.
pub fn byte_is_lower(b: u8) -> (r: bool)
    ensures
        r == is_lower(b),
{
    97 <= b && b <= 122
}

/// Tests a byte for being an ASCII letter.
pub fn byte_is_letter(b: u8) -> (r: bool)
    ensures
        r == is_letter(b),
{
    byte_is_upper(b) || byte_is_lower(b)
}

/// A validated chunk type code.
#[derive(Debug, Clone, Copy, Eq)]
pub struct ChunkType {
    bytes: [u8; 4],
}

impl View for ChunkType {
    type V = Seq<u8>;

    closed spec fn view(&self) -> Seq<u8> {
        self.bytes@
    }
}

impl PartialEq for ChunkType {
    /// Two type codes are equal when their four bytes are.
    fn eq(&self, other: &ChunkType) -> (r: bool) {
        let same = self.bytes[0] == other.bytes[0] && self.bytes[1] == other.bytes[1]
            && self.bytes[2] == other.bytes[2] && self.bytes[3] == other.bytes[3];
        assert(same == (self.bytes@ =~= other.bytes@));
        same
    }
}

impl PartialEqSpecImpl for ChunkType {
    open spec fn obeys_eq_spec() -> bool {
        true
    }

    open spec fn eq_spec(&self, other: &ChunkType) -> bool {
        self@ == other@
    }
}

impl ChunkType {
    #[verifier::type_invariant]
    closed spec fn well_formed(self) -> bool {
        valid_type(self.bytes@)
    }

    /// Builds a type code from four bytes, refusing any byte that is not a letter.
    pub fn try_from(value: [u8; 4]) -> (r: Result<ChunkType, PngError>)
        ensures
            match r {
                Ok(t) => valid_type(value@) && t@ == value@,
                Err(e) => !valid_type(value@) && e == PngError::InvalidChunkType,
            },
    {
        if byte_is_letter(value[0]) && byte_is_letter(value[1]) && byte_is_letter(value[2])
            && byte_is_letter(value[3]) {
            Ok(ChunkType { bytes: value })
        } else {
            Err(PngError::InvalidChunkType)
        }
    }

    /// Builds a type code from its spelling, refusing anything but four ASCII letters.
    pub fn from_str(s: &str) -> (r: Result<ChunkType, PngError>)
        ensures
            match r {
                Ok(t) => valid_code(s@) && t@ == code_bytes(s@),
                Err(e) => !valid_code(s@) && e == PngError::InvalidChunkType,
            },
    {
        if !s.is_ascii() {
            return Err(PngError::InvalidChunkType);
        }
        let b = s.as_bytes();
        proof {
            is_ascii_spec_bytes(s);
        }
        if b.len() != 4 {
            return Err(PngError::InvalidChunkType);
        }
        let value: [u8; 4] = [b[0], b[1], b[2], b[3]];
        assert(value@ =~= code_bytes(s@));
        assert(forall|i: int|
            0 <= i < 4 ==> is_letter(#[trigger] value@[i]) == is_letter_char(s@[i]));
        ChunkType::try_from(value)
    }

    /// The code as text: its four letters.
    pub fn to_string(&self) -> (r: String)
        ensures
            r@ == code_chars(self@),
            valid_type(self@),
    {
        proof {
            use_type_invariant(self);
            let chars = code_chars(self.bytes@);
            assert(is_ascii_chars(chars));
            is_ascii_chars_encode_utf8(chars);
            assert(encode_utf8(chars) =~= self.bytes@);
            encode_utf8_valid_utf8(chars);
            encode_utf8_decode_utf8(chars);
        }
        match decode_text(self.bytes.as_slice()) {
            Ok(text) => text,
            Err(_) => unreached(),
        }
    }

    /// Whether the code is legal and its reserved bit is valid: four letters,
    /// the third of them upper-case.
    pub fn is_valid(&self) -> (r: bool)
        ensures
            r == (valid_type(self@) && is_upper(self@[2])),
            valid_type(self@),
    {
        proof {
            use_type_invariant(self);
        }
        byte_is_letter(self.bytes[0]) && byte_is_letter(self.bytes[1]) && byte_is_letter(
            self.bytes[2],
        ) && byte_is_letter(self.bytes[3]) && self.is_reserved_bit_valid()
    }

    /// Whether the chunk is critical: the first letter is upper-case.
    pub fn is_critical(&self) -> (r: bool)
        ensures
            r == is_upper(self@[0]),
    {
        byte_is_upper(self.bytes[0])
    }

    /// Whether the chunk is public: the second letter is upper-case.
    pub fn is_public(&self) -> (r: bool)
        ensures
            r == is_upper(self@[1]),
    {
        byte_is_upper(self.bytes[1])
    }

    /// Whether the reserved bit is valid: the third letter is upper-case.
    pub fn is_reserved_bit_valid(&self) -> (r: bool)
        ensures
            r == is_upper(self@[2]),
    {
        byte_is_upper(self.bytes[2])
    }

    /// Whether the chunk is safe to copy: the fourth letter is lower-case.
    pub fn is_safe_to_copy(&self) -> (r: bool)
        ensures
            r == is_lower(self@[3]),
    {
        byte_is_lower(self.bytes[3])
    }

    /// The four bytes of the code.
    pub fn bytes(&self) -> (r: [u8; 4])
        ensures
            r@ == self@,
            valid_type(self@),
    {
        proof {
            use_type_invariant(self);
        }
        self.bytes
    }
}

} // verus!
