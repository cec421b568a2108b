use crate::error::FormatError;
use crate::text::{lemma_ascii_valid_utf8, utf8_to_string};
use vstd::prelude::*;
use vstd::string::*;
use vstd::utf8::*;

verus! {

/// An ASCII upper-case letter.
pub open spec fn is_upper(b: u8) -> bool {
    65 <= b <= 90
}

/// An ASCII lower-case letter.
pub open spec fn is_lower(b: u8) -> bool {
    97 <= b <= 122
}

/// An ASCII letter.
pub open spec fn is_alpha(b: u8) -> bool {
    is_upper(b) || is_lower(b)
}

/// Four bytes, each an ASCII letter: the content of every chunk type tag.
pub open spec fn valid_type_bytes(b: Seq<u8>) -> bool {
    &&& b.len() == 4
    &&& is_alpha(b[0]) && is_alpha(b[1]) && is_alpha(b[2]) && is_alpha(b[3])
}

/// An ASCII letter, as a character.
pub open spec fn is_alpha_char(c: char) -> bool {
    ('A' <= c && c <= 'Z') || ('a' <= c && c <= 'z')
}

/// Four characters, each an ASCII letter: the text of every chunk type tag.
pub open spec fn valid_type_text(cs: Seq<char>) -> bool {
    &&& cs.len() == 4
    &&& is_alpha_char(cs[0]) && is_alpha_char(cs[1]) && is_alpha_char(cs[2]) && is_alpha_char(cs[3])
}

/// Text is four ASCII letters exactly when its UTF-8 bytes are.
pub proof fn lemma_type_text_bytes(cs: Seq<char>)
    ensures
        valid_type_text(cs) <==> valid_type_bytes(encode_utf8(cs)),
{
    let b = encode_utf8(cs);
    if valid_type_text(cs) {
        assert(is_ascii_chars(cs));
        is_ascii_chars_encode_utf8(cs);
        assert forall|i: int| 0 <= i < 4 implies is_alpha(#[trigger] b[i]) by {
            assert(cs[i] as u8 == b[i]);
            assert(is_alpha_char(cs[i]));
        }
    }
    if valid_type_bytes(b) {
        lemma_ascii_valid_utf8(b);
        encode_utf8_decode_utf8(cs);
        assert forall|i: int| 0 <= i < 4 implies is_alpha_char(#[trigger] cs[i]) by {
            assert(cs[i] == b[i] as char);
            assert(is_alpha(b[i]));
        }
    }
}

/// What reading a type tag out of four raw bytes gives.
pub open spec fn type_from_bytes(b: Seq<u8>) -> Result<Seq<u8>, FormatError> {
    if b.len() != 4 {
        Err(FormatError::WrongLength)
    } else if !valid_type_bytes(b) {
        Err(FormatError::NonAlphabetic)
    } else {
        Ok(b)
    }
}

/// The outcome of building a type tag, with the tag replaced by its bytes.
pub open spec fn type_result_view(r: Result<ChunkType, FormatError>) -> Result<Seq<u8>, FormatError> {
    match r {
        Ok(t) => Ok(t@),
        Err(e) => Err(e),
    }
}

/// A chunk type tag: four ASCII letters whose case carries four properties.
#[derive(Debug, Clone, Copy)]
pub struct ChunkType {
    bytes: [u8; 4],
}

impl View for ChunkType {
    type V = Seq<u8>;

    closed spec fn view(&self) -> Seq<u8> {
        self.bytes@
    }
}

fn ascii_alpha(b: u8) -> (r: bool)
    ensures
        r == is_alpha(b),
{
    (65 <= b && b <= 90) || (97 <= b && b <= 122)
}

fn ascii_upper(b: u8) -> (r: bool)
    ensures
        r == is_upper(b),
{
    65 <= b && b <= 90
}

impl ChunkType {
    #[verifier::type_invariant]
    spec fn inv(self) -> bool {
        valid_type_bytes(self.bytes@)
    }

    /// Builds a type tag out of a byte slice, which must hold four ASCII letters.
    pub fn from_slice(b: &[u8]) -> (r: Result<ChunkType, FormatError>)
        ensures
            r matches Ok(t) ==> t@ == b@,
            type_result_view(r) == type_from_bytes(b@),
    {
        if b.len() != 4 {
            return Err(FormatError::WrongLength);
        }
        let mut i: usize = 0;
        while i < 4
            invariant
                b@.len() == 4,
                0 <= i <= 4,
                forall|j: int| 0 <= j < i ==> is_alpha(#[trigger] b@[j]),
            decreases 4 - i,
        {
            if !ascii_alpha(b[i]) {
                return Err(FormatError::NonAlphabetic);
            }
            i = i + 1;
        }
        let t = ChunkType { bytes: [b[0], b[1], b[2], b[3]] };
        assert(t@ =~= b@);
        Ok(t)
    }

    /// Builds a type tag out of text, which must be four ASCII letters.
    pub fn from_text(s: &str) -> (r: Result<ChunkType, FormatError>)
        ensures
            type_result_view(r) == type_from_bytes(s.spec_bytes()),
            r is Ok <==> valid_type_text(s@),
    {
        proof {
            lemma_type_text_bytes(s@);
        }
        ChunkType::from_slice(s.as_bytes())
    }

    /// The four bytes of the tag.
    pub fn bytes(&self) -> (r: [u8; 4])
        ensures
            r@ == self@,
            valid_type_bytes(r@),
    {
        proof {
            use_type_invariant(self);
        }
        self.bytes
    }

    /// A valid tag is alphabetic and has its reserved bit (third byte) upper case.
    pub fn is_valid(&self) -> (r: bool)
        ensures
            r == (valid_type_bytes(self@) && is_upper(self@[2])),
    {
        proof {
            use_type_invariant(self);
        }
        let mut alphabetic = true;
        let mut i: usize = 0;
        while i < 4
            invariant
                0 <= i <= 4,
                alphabetic == forall|j: int| 0 <= j < i ==> is_alpha(#[trigger] self.bytes@[j]),
            decreases 4 - i,
        {
            alphabetic = alphabetic && ascii_alpha(self.bytes[i]);
            i = i + 1;
        }
        alphabetic && ascii_upper(self.bytes[2])
    }

    /// Critical: the first byte is upper case.
    pub fn is_critical(&self) -> (r: bool)
        ensures
            r == is_upper(self@[0]),
    {
        ascii_upper(self.bytes[0])
    }

    /// Public: the second byte is upper case.
    pub fn is_public(&self) -> (r: bool)
        ensures
            r == is_upper(self@[1]),
    {
        ascii_upper(self.bytes[1])
    }

    /// Reserved bit valid: the third byte is upper case.
    pub fn is_reserved_bit_valid(&self) -> (r: bool)
        ensures
            r == is_upper(self@[2]),
    {
        ascii_upper(self.bytes[2])
    }

    /// Safe to copy: the fourth byte is lower case.
    pub fn is_safe_to_copy(&self) -> (r: bool)
        ensures
            r == is_lower(self@[3]),
    {
        97 <= self.bytes[3] && self.bytes[3] <= 122
    }

    /// The tag as text.
    pub fn to_string(&self) -> (r: String)
        ensures
            r@ == decode_utf8(self@),
            r@ == Seq::new(4, |i: int| self@[i] as char),
    {
        proof {
            use_type_invariant(self);
            lemma_ascii_valid_utf8(self@);
        }
        match utf8_to_string(&self.bytes) {
            Some(s) => s,
            None => String::new(),
        }
    }

    /// Whether the tag, as text, equals `s`.
    pub fn matches_text(&self, s: &str) -> (r: bool)
        ensures
            r == (self@ == s.spec_bytes()),
    {
        let b = s.as_bytes();
        if b.len() != 4 {
            return false;
        }
        let eq = self.bytes[0] == b[0] && self.bytes[1] == b[1] && self.bytes[2] == b[2]
            && self.bytes[3] == b[3];
        proof {
            if eq {
                assert(self@ =~= s.spec_bytes());
            }
        }
        eq
    }
}

impl PartialEq for ChunkType {
    fn eq(&self, other: &ChunkType) -> (r: bool) {
        let r = self.bytes[0] == other.bytes[0] && self.bytes[1] == other.bytes[1]
            && self.bytes[2] == other.bytes[2] && self.bytes[3] == other.bytes[3];
        proof {
            if r {
                assert(self@ =~= other@);
            }
        }
        r
    }
}

impl vstd::std_specs::cmp::PartialEqSpecImpl for ChunkType {
    open spec fn obeys_eq_spec() -> bool {
        true
    }

    open spec fn eq_spec(&self, other: &ChunkType) -> bool {
        self@ == other@
    }
}

impl Eq for ChunkType {

}

impl TryFrom<[u8; 4]> for ChunkType {
    type Error = FormatError;

    fn try_from(b: [u8; 4]) -> (r: Result<ChunkType, FormatError>)
        ensures
            r matches Ok(t) ==> t@ == b@,
            type_result_view(r) == type_from_bytes(b@),
    {
        match ChunkType::from_slice(&b) {
            Ok(_) => Ok(ChunkType { bytes: b }),
            Err(e) => Err(e),
        }
    }
}

impl vstd::std_specs::convert::TryFromSpecImpl<[u8; 4]> for ChunkType {
    open spec fn obeys_try_from_spec() -> bool {
        true
    }

    closed spec fn try_from_spec(b: [u8; 4]) -> Result<ChunkType, FormatError> {
        if valid_type_bytes(b@) {
            Ok(ChunkType { bytes: b })
        } else {
            Err(FormatError::NonAlphabetic)
        }
    }
}

impl std::str::FromStr for ChunkType {
    type Err = FormatError;

    fn from_str(s: &str) -> (r: Result<ChunkType, FormatError>)
        ensures
            type_result_view(r) == type_from_bytes(s.spec_bytes()),
            r is Ok <==> valid_type_text(s@),
    {
        ChunkType::from_text(s)
    }
}

} // verus!
