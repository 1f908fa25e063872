use vstd::prelude::*;
use vstd::utf8::{
    decode_utf8, encode_utf8, encode_utf8_decode_utf8, encode_utf8_valid_utf8, is_ascii_chars,
    is_ascii_chars_encode_utf8, valid_utf8,
};

use crate::error::PngError;
use crate::text::bytes_as_str;

verus! {

/// A byte is an ASCII letter (`A`-`Z` or `a`-`z`).
pub open spec fn is_letter(b: u8) -> bool {
    (65 <= b <= 90) || (97 <= b <= 122)
}

/// Every byte of the sequence is an ASCII letter.
pub open spec fn all_letters(bytes: Seq<u8>) -> bool {
    forall|i: int| 0 <= i < bytes.len() ==> is_letter(#[trigger] bytes[i])
}

/// A character is an ASCII letter.
pub open spec fn is_letter_char(c: char) -> bool {
    ('A' <= c <= 'Z') || ('a' <= c <= 'z')
}

/// Every character of the sequence is an ASCII letter.
pub open spec fn all_letter_chars(q: Seq<char>) -> bool {
    forall|i: int| 0 <= i < q.len() ==> is_letter_char(#[trigger] q[i])
}

/// Each character truncated to its low byte.  On ASCII text this is the
/// text's byte encoding.
pub open spec fn char_bytes(q: Seq<char>) -> Seq<u8> {
    Seq::new(q.len(), |i: int| q[i] as u8)
}

/// The string `q` spells the chunk type whose bytes are `tb`.
pub open spec fn spells(q: Seq<char>, tb: Seq<u8>) -> bool {
    encode_utf8(q) == tb
}

/// A chunk type acceptable for a real chunk: four ASCII letters with the
/// reserved bit (bit 5 of the third byte) clear.
pub open spec fn is_valid_type(tb: Seq<u8>) -> bool {
    tb.len() == 4 && all_letters(tb) && !bit5(tb[2])
}

/// Bit 5 of a type byte.  For an ASCII letter it is set exactly when the
/// letter is lowercase, which is how PNG stores each type's property flags.
pub open spec fn bit5(b: u8) -> bool {
    b >> 5 & 1 == 1
}

/// An ASCII letter is in the lower half of the ASCII table.
proof fn lemma_letter_char_is_ascii(q: Seq<char>)
    requires
        all_letter_chars(q),
    ensures
        is_ascii_chars(q),
{
}

/// A validated 4-byte chunk-type code.  Each byte is an ASCII letter; case
/// carries the property flags, so it is meaningful, not cosmetic.
#[derive(Debug, Clone, Copy, PartialEq, Eq)]
pub struct ChunkType {
    bytes: [u8; 4],
}

impl View for ChunkType {
    type V = Seq<u8>;

    closed spec fn view(&self) -> Seq<u8> {
        self.bytes@
    }
}

/// Checks that all four bytes are ASCII letters.
fn is_valid_ascii_string(value: &[u8; 4]) -> (r: bool)
    ensures
        r == all_letters(value@),
{
    let r = letter(value[0]) && letter(value[1]) && letter(value[2]) && letter(value[3]);
    proof {
        if r {
            assert forall|i: int| 0 <= i < 4 implies is_letter(#[trigger] value@[i]) by {
                assert(value@[0] == value[0 as int]);
            }
        }
    }
    r
}

/// Checks that one byte is an ASCII letter.
fn letter(b: u8) -> (r: bool)
    ensures
        r == is_letter(b),
{
    (65 <= b && b <= 90) || (97 <= b && b <= 122)
}

impl ChunkType {
    /// Every `ChunkType` that exists holds four ASCII letters.
    #[verifier::type_invariant]
    pub(crate) open spec fn inv(self) -> bool {
        all_letters(self@)
    }

    /// Builds a type code from four raw bytes; rejects anything that is not
    /// four ASCII letters.
    pub fn parse_bytes(value: [u8; 4]) -> (r: Result<ChunkType, PngError>)
        ensures
            match r {
                Ok(t) => all_letters(value@) && t@ == value@,
                Err(e) => e == PngError::InvalidEncoding && !all_letters(value@),
            },
    {
        if is_valid_ascii_string(&value) {
            Ok(ChunkType { bytes: value })
        } else {
            Err(PngError::InvalidEncoding)
        }
    }

    /// Builds a type code from a string of exactly four ASCII letters.
    pub fn parse_str(s: &str) -> (r: Result<ChunkType, PngError>)
        ensures
            match r {
                Ok(t) => s@.len() == 4 && all_letter_chars(s@) && t@ == char_bytes(s@)
                    && spells(s@, t@),
                Err(e) => (e == PngError::InvalidLength && s@.len() != 4) || (
                e == PngError::InvalidEncoding && s@.len() == 4 && !all_letter_chars(s@)),
            },
    {
        if s.unicode_len() != 4 {
            return Err(PngError::InvalidLength);
        }
        let c0 = s.get_char(0);
        let c1 = s.get_char(1);
        let c2 = s.get_char(2);
        let c3 = s.get_char(3);
        if !(letter_char(c0) && letter_char(c1) && letter_char(c2) && letter_char(c3)) {
            return Err(PngError::InvalidEncoding);
        }
        let bytes: [u8; 4] = [
            #[verifier::truncate] (c0 as u8),
            #[verifier::truncate] (c1 as u8),
            #[verifier::truncate] (c2 as u8),
            #[verifier::truncate] (c3 as u8),
        ];
        proof {
            assert(all_letter_chars(s@));
            assert forall|i: int| 0 <= i < 4 implies is_letter(#[trigger] bytes@[i]) by {
                lemma_letter_byte(s@[i]);
                assert(bytes@[i] == s@[i] as u8);
            }
            assert(bytes@ =~= char_bytes(s@));
            lemma_letter_char_is_ascii(s@);
            is_ascii_chars_encode_utf8(s@);
            assert(encode_utf8(s@) =~= char_bytes(s@));
        }
        Ok(ChunkType { bytes })
    }

    /// The four raw bytes of the type code.
    pub fn bytes(&self) -> (r: [u8; 4])
        ensures
            r@ == self@,
    {
        self.bytes
    }

    /// True when the code is acceptable as a real chunk type: four ASCII
    /// letters with the reserved bit clear.
    pub fn is_valid(&self) -> (r: bool)
        ensures
            r == is_valid_type(self@),
    {
        proof {
            use_type_invariant(self);
        }
        is_valid_ascii_string(&self.bytes) && self.is_reserved_bit_valid()
    }

    /// True when the chunk is critical for displaying the image: bit 5 of
    /// the first byte is clear (the first letter is uppercase).
    pub fn is_critical(&self) -> (r: bool)
        ensures
            r == !bit5(self@[0]),
    {
        let first_byte = self.bytes[0];
        proof {
            assert((first_byte >> 5 & 1 == 0) <==> !(first_byte >> 5 & 1 == 1)) by (bit_vector);
        }
        (first_byte >> 5 & 1) == 0
    }

    /// True when the chunk type is public: bit 5 of the second byte is
    /// clear.
    pub fn is_public(&self) -> (r: bool)
        ensures
            r == !bit5(self@[1]),
    {
        let second_byte = self.bytes[1];
        proof {
            assert((second_byte >> 5 & 1 == 0) <==> !(second_byte >> 5 & 1 == 1)) by (bit_vector);
        }
        (second_byte >> 5 & 1) == 0
    }

    /// True when the reserved bit is valid: bit 5 of the third byte is
    /// clear.
    pub fn is_reserved_bit_valid(&self) -> (r: bool)
        ensures
            r == !bit5(self@[2]),
    {
        let third_byte = self.bytes[2];
        proof {
            assert((third_byte >> 5 & 1 == 0) <==> !(third_byte >> 5 & 1 == 1)) by (bit_vector);
        }
        (third_byte >> 5 & 1) == 0
    }

    /// True when the chunk is safe to copy by editors: bit 5 of the fourth
    /// byte is set.
    pub fn is_safe_to_copy(&self) -> (r: bool)
        ensures
            r == bit5(self@[3]),
    {
        let fourth_byte = self.bytes[3];
        (fourth_byte >> 5 & 1) == 1
    }

    /// Renders the four bytes as a string, preserving case.
    pub fn to_string(&self) -> (r: String)
        ensures
            r@ == decode_utf8(self@),
            spells(r@, self@),
            r@.len() == 4,
    {
        proof {
            use_type_invariant(self);
            lemma_letters_valid_utf8(self@);
        }
        match bytes_as_str(self.bytes.as_slice()) {
            Some(s) => s.to_owned(),
            None => vstd::pervasive::unreached(),
        }
    }

    /// True when `s` spells this type code.
    pub fn matches(&self, s: &str) -> (r: bool)
        ensures
            r == spells(s@, self@),
    {
        let b = s.as_bytes();
        if b.len() != 4 {
            return false;
        }
        let r = b[0] == self.bytes[0] && b[1] == self.bytes[1] && b[2] == self.bytes[2] && b[3]
            == self.bytes[3];
        proof {
            if r {
                assert(encode_utf8(s@) =~= self@);
            }
        }
        r
    }
}

/// The low byte of an ASCII letter character is the same letter as a byte.
proof fn lemma_letter_byte(c: char)
    requires
        is_letter_char(c),
    ensures
        is_letter(c as u8),
        c as u8 == c as u32 as u8,
{
    let u = c as u32;
    assert(65 <= u <= 122 ==> u as u8 == u) by (bit_vector);
}

/// Four ASCII letters form a valid UTF-8 sequence that decodes to the
/// corresponding letter characters, one per byte.
pub proof fn lemma_letters_valid_utf8(tb: Seq<u8>)
    requires
        all_letters(tb),
    ensures
        valid_utf8(tb),
        decode_utf8(tb).len() == tb.len(),
        encode_utf8(decode_utf8(tb)) == tb,
        all_letter_chars(decode_utf8(tb)),
{
    let q = Seq::new(tb.len(), |i: int| tb[i] as char);
    assert(is_ascii_chars(q));
    is_ascii_chars_encode_utf8(q);
    assert forall|i: int| 0 <= i < tb.len() implies #[trigger] encode_utf8(q)[i] == tb[i] by {
        assert(q[i] as u8 == encode_utf8(q)[i]);
        lemma_byte_char_round_trip(tb[i]);
    }
    assert(encode_utf8(q) =~= tb);
    encode_utf8_valid_utf8(q);
    encode_utf8_decode_utf8(q);
    assert forall|i: int| 0 <= i < tb.len() implies is_letter_char(#[trigger] decode_utf8(tb)[i]) by {
        assert(decode_utf8(tb)[i] == q[i]);
    }
}

/// A byte below 128 survives the round trip through `char`.
proof fn lemma_byte_char_round_trip(b: u8)
    requires
        b < 128,
    ensures
        (b as char) as u8 == b,
        (b as char) as u32 == b as u32,
{
    let u = b as u32;
    assert(u < 128 ==> u as u8 == u) by (bit_vector);
    vstd::utf8::char_u32_cast(b as char, u);
}

/// Checks that one character is an ASCII letter.
fn letter_char(c: char) -> (r: bool)
    ensures
        r == is_letter_char(c),
{
    ('A' <= c && c <= 'Z') || ('a' <= c && c <= 'z')
}

} // verus!
