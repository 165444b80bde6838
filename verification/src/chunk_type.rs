use crate::error::PngError;
use crate::text::try_str_from_bytes;
use vstd::prelude::*;
use vstd::utf8::{decode_utf8, encode_utf8, valid_utf8};

verus! {

/// A 4-byte chunk-type tag. Any 4 bytes are a representable tag: the
/// alphabetic constraint holds only for tags built from text, and the
/// bit-flag accessors are informational.
#[derive(Clone, Copy, Debug)]
pub struct ChunkType(pub [u8; 4]);

impl View for ChunkType {
    type V = Seq<u8>;

    open spec fn view(&self) -> Seq<u8> {
        self.0@
    }
}

/// An ASCII letter, upper or lower case.
pub open spec fn is_ascii_alphabetic(b: u8) -> bool {
    (65 <= b && b <= 90) || (97 <= b && b <= 122)
}

/// Exactly 4 bytes, each an ASCII letter: what a tag built from text must be.
pub open spec fn is_valid_tag_text(b: Seq<u8>) -> bool {
    b.len() == 4 && (forall|i: int| 0 <= i < b.len() ==> is_ascii_alphabetic(#[trigger] b[i]))
}

impl ChunkType {
    /// The 4 raw bytes of the tag.
    pub fn bytes(&self) -> (r: [u8; 4])
        ensures
            r@ == self@,
    {
        self.0
    }

    /// Builds a tag from 4 raw bytes. This path never rejects: when parsing a
    /// file, the 4 tag bytes may legally hold any value.
    pub fn try_from(value: [u8; 4]) -> (r: Result<ChunkType, PngError>)
        ensures
            r matches Ok(t) && t@ == value@,
    {
        Ok(ChunkType(value))
    }

    /// Builds a tag from text, which must be exactly 4 bytes, each an ASCII
    /// letter; anything else is an invalid tag.
    pub fn from_str(s: &str) -> (r: Result<ChunkType, PngError>)
        ensures
            match r {
                Ok(t) => is_valid_tag_text(encode_utf8(s@)) && t@ == encode_utf8(s@),
                Err(e) => e == PngError::InvalidTag && !is_valid_tag_text(encode_utf8(s@)),
            },
    {
        let b: &[u8] = s.as_bytes();
        if b.len() != 4 {
            return Err(PngError::InvalidTag);
        }
        let mut i: usize = 0;
        while i < 4
            invariant
                0 <= i <= 4,
                b@.len() == 4,
                b@ == encode_utf8(s@),
                forall|j: int| 0 <= j < i ==> is_ascii_alphabetic(#[trigger] b@[j]),
            decreases 4 - i,
        {
            let x = b[i];
            if !((65 <= x && x <= 90) || (97 <= x && x <= 122)) {
                return Err(PngError::InvalidTag);
            }
            i += 1;
        }
        let t = ChunkType([b[0], b[1], b[2], b[3]]);
        proof {
            assert(t@ =~= b@);
        }
        Ok(t)
    }

    /// The tag as a 4-character string; rejects tag bytes that are not valid
    /// UTF-8.
    pub fn to_text(&self) -> (r: Result<String, PngError>)
        ensures
            valid_utf8(self@) ==> (r matches Ok(s) && s@ == decode_utf8(self@)),
            !valid_utf8(self@) ==> r == Err::<String, PngError>(PngError::InvalidEncoding),
    {
        match try_str_from_bytes(self.0.as_slice()) {
            Some(s) => Ok(s.to_owned()),
            None => Err(PngError::InvalidEncoding),
        }
    }

    /// Critical chunk: bit 5 of byte 0 is clear (the byte is uppercase).
    pub fn is_critical(&self) -> (r: bool)
        ensures
            r == (self@[0] & 0x20 == 0),
    {
        self.0[0] & 0x20 == 0
    }

    /// Public chunk: bit 5 of byte 1 is clear (the byte is uppercase).
    pub fn is_public(&self) -> (r: bool)
        ensures
            r == (self@[1] & 0x20 == 0),
    {
        self.0[1] & 0x20 == 0
    }

    /// Reserved bit holds: bit 5 of byte 2 is clear (the byte is uppercase).
    pub fn is_reserved_valid(&self) -> (r: bool)
        ensures
            r == (self@[2] & 0x20 == 0),
    {
        self.0[2] & 0x20 == 0
    }

    /// Safe to copy: bit 5 of byte 3 is set (the byte is lowercase).
    pub fn is_safe_to_copy(&self) -> (r: bool)
        ensures
            r == (self@[3] & 0x20 != 0),
    {
        self.0[3] & 0x20 != 0
    }

    /// A conforming tag: the reserved-bit convention is the sole validity
    /// criterion this codec applies.
    pub fn is_valid(&self) -> (r: bool)
        ensures
            r == (self@[2] & 0x20 == 0),
    {
        self.is_reserved_valid()
    }
}

impl PartialEq for ChunkType {
    /// Tags are equal exactly when their 4 bytes are equal.
    fn eq(&self, other: &Self) -> (r: bool) {
        let r = self.0[0] == other.0[0] && self.0[1] == other.0[1] && self.0[2] == other.0[2]
            && self.0[3] == other.0[3];
        proof {
            if r {
                assert(self@ =~= other@);
            }
        }
        r
    }
}

impl vstd::std_specs::cmp::PartialEqSpecImpl for ChunkType {
    open spec fn obeys_eq_spec() -> bool {
        true
    }

    open spec fn eq_spec(&self, other: &Self) -> bool {
        self@ == other@
    }
}

} // verus!
