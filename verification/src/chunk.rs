use crate::checksum::{crc32_checksum, crc32_of};
use crate::chunk_type::ChunkType;
use crate::error::PngError;
use crate::text::try_str_from_bytes;
use crate::util::{
    lemma_u32_be_bytes_round_trip, slice_4_bytes, spec_u32_from_be_bytes, spec_u32_to_be_bytes,
    u32_from_be_bytes, u32_to_be_bytes,
};
use vstd::prelude::*;
use vstd::slice::{slice_subrange, slice_to_vec};
use vstd::utf8::{decode_utf8, valid_utf8};

verus! {

/// The mathematical content of one chunk record: the declared length, the
/// 4 tag bytes, the payload, and the stored checksum.
#[verifier::ext_equal]
pub ghost struct ChunkModel {
    pub length: u32,
    pub tag: Seq<u8>,
    pub data: Seq<u8>,
    pub crc: u32,
}

impl ChunkModel {
    /// Internal consistency: the length field counts the payload bytes and
    /// the checksum covers the tag followed by the payload.
    pub open spec fn wf(self) -> bool {
        &&& self.tag.len() == 4
        &&& self.length == self.data.len()
        &&& self.crc == crc32_of(self.tag + self.data)
    }

    /// The record's wire form:
    /// `length (4 bytes BE) ++ tag (4 bytes) ++ data ++ crc (4 bytes BE)`.
    pub open spec fn wire(self) -> Seq<u8> {
        spec_u32_to_be_bytes(self.length) + self.tag + self.data + spec_u32_to_be_bytes(self.crc)
    }
}

/// What parsing a full chunk buffer yields: the buffer is read as
/// `length (4 BE) ++ tag (4) ++ data ++ crc (4 BE)`, where the payload is
/// everything between the 8-byte header and the trailing checksum.
/// A buffer that cannot hold the declared payload is truncated; a declared
/// length below the true payload size is a length mismatch; a stored checksum
/// that is not the checksum of tag and payload is a checksum mismatch.
#[verifier::opaque]
pub open spec fn spec_parse_chunk(b: Seq<u8>) -> Result<ChunkModel, PngError> {
    if b.len() < 12 {
        Err(PngError::Truncated)
    } else {
        let length = spec_u32_from_be_bytes(b.subrange(0, 4));
        if b.len() - 12 < length {
            Err(PngError::Truncated)
        } else if length < b.len() - 12 {
            Err(PngError::LengthMismatch)
        } else {
            let tag = b.subrange(4, 8);
            let data = b.subrange(8, b.len() - 4);
            let crc = spec_u32_from_be_bytes(b.subrange(b.len() - 4, b.len() as int));
            if crc != crc32_of(tag + data) {
                Err(PngError::CrcMismatch)
            } else {
                Ok(ChunkModel { length, tag, data, crc })
            }
        }
    }
}

/// One length-prefixed, checksummed record of the container.
#[derive(Clone, Debug)]
pub struct Chunk {
    pub length: u32,
    pub chunk_type: ChunkType,
    pub data: Vec<u8>,
    pub crc: u32,
}

impl View for Chunk {
    type V = ChunkModel;

    open spec fn view(&self) -> ChunkModel {
        ChunkModel { length: self.length, tag: self.chunk_type@, data: self.data@, crc: self.crc }
    }
}

impl DeepView for Chunk {
    type V = ChunkModel;

    open spec fn deep_view(&self) -> ChunkModel {
        self.view()
    }
}

impl Chunk {
    /// Internal consistency of the record; see `ChunkModel::wf`.
    pub open spec fn wf(self) -> bool {
        self@.wf()
    }

    /// The checksum that a chunk of this type and data must carry: CRC-32
    /// (ISO-HDLC) over the 4 tag bytes followed by the payload.
    pub fn calculate_crc(chunk_type: &ChunkType, data: &[u8]) -> (r: u32)
        ensures
            r == crc32_of(chunk_type@ + data@),
    {
        let mut buf: Vec<u8> = Vec::new();
        let tag = chunk_type.bytes();
        buf.extend_from_slice(tag.as_slice());
        buf.extend_from_slice(data);
        proof {
            assert(buf@ =~= chunk_type@ + data@);
        }
        crc32_checksum(buf.as_slice())
    }

    /// Builds a fresh record from a tag and a payload; the length and the
    /// checksum are computed, never taken on faith.
    pub fn new(chunk_type: ChunkType, data: Vec<u8>) -> (c: Chunk)
        requires
            data@.len() <= u32::MAX,
        ensures
            c@ == (ChunkModel {
                length: data@.len() as u32,
                tag: chunk_type@,
                data: data@,
                crc: crc32_of(chunk_type@ + data@),
            }),
            c.wf(),
    {
        let crc = Chunk::calculate_crc(&chunk_type, data.as_slice());
        let length = data.len() as u32;
        Chunk { length, chunk_type, data, crc }
    }

    /// Parses one chunk from a buffer that must hold exactly this record;
    /// the result is pinned by `spec_parse_chunk`, and a parsed chunk is
    /// well formed with the buffer as its wire form.
    pub fn try_from(value: &[u8]) -> (r: Result<Chunk, PngError>)
        ensures
            match r {
                Ok(c) => spec_parse_chunk(value@) == Ok::<ChunkModel, PngError>(c@) && c.wf()
                    && c@.wire() == value@,
                Err(e) => spec_parse_chunk(value@) == Err::<ChunkModel, PngError>(e),
            },
    {
        proof {
            reveal(spec_parse_chunk);
        }
        let n = value.len();
        if n < 12 {
            return Err(PngError::Truncated);
        }
        let length = u32_from_be_bytes(slice_4_bytes(value, 0).as_slice());
        if (length as usize) > n - 12 {
            return Err(PngError::Truncated);
        }
        if (length as usize) < n - 12 {
            return Err(PngError::LengthMismatch);
        }
        let chunk_type = ChunkType(slice_4_bytes(value, 4));
        let data: Vec<u8> = slice_to_vec(slice_subrange(value, 8, n - 4));
        let crc = u32_from_be_bytes(slice_4_bytes(value, n - 4).as_slice());
        let computed = Chunk::calculate_crc(&chunk_type, data.as_slice());
        if crc != computed {
            return Err(PngError::CrcMismatch);
        }
        let c = Chunk { length, chunk_type, data, crc };
        proof {
            let m = spec_parse_chunk(value@)->Ok_0;
            assert(c@ =~= m);
            lemma_u32_be_bytes_round_trip();
            assert(c@.wire() =~= value@);
        }
        Ok(c)
    }

    /// The record's wire form, byte for byte the inverse of parsing.
    pub fn as_bytes(&self) -> (r: Vec<u8>)
        ensures
            r@ == self@.wire(),
    {
        let mut r: Vec<u8> = Vec::new();
        let len_be = u32_to_be_bytes(self.length);
        r.extend_from_slice(len_be.as_slice());
        let tag = self.chunk_type.bytes();
        r.extend_from_slice(tag.as_slice());
        r.extend_from_slice(self.data.as_slice());
        let crc_be = u32_to_be_bytes(self.crc);
        r.extend_from_slice(crc_be.as_slice());
        proof {
            assert(r@ =~= self@.wire());
        }
        r
    }

    /// The payload decoded as UTF-8 text; rejects payloads that are not
    /// valid UTF-8.
    pub fn data_as_string(&self) -> (r: Result<String, PngError>)
        ensures
            valid_utf8(self@.data) ==> (r matches Ok(s) && s@ == decode_utf8(self@.data)),
            !valid_utf8(self@.data) ==> r == Err::<String, PngError>(PngError::InvalidEncoding),
    {
        match try_str_from_bytes(self.data.as_slice()) {
            Some(s) => Ok(s.to_owned()),
            None => Err(PngError::InvalidEncoding),
        }
    }
}

/// Round trip: parsing the wire form of a well-formed chunk yields exactly
/// that chunk's model.
pub proof fn lemma_chunk_round_trip(m: ChunkModel)
    requires
        m.wf(),
    ensures
        spec_parse_chunk(m.wire()) == Ok::<ChunkModel, PngError>(m),
{
    reveal(spec_parse_chunk);
    lemma_u32_be_bytes_round_trip();
    let b = m.wire();
    assert(b.len() == 12 + m.data.len());
    assert(b.subrange(0, 4) =~= spec_u32_to_be_bytes(m.length));
    assert(b.subrange(4, 8) =~= m.tag);
    assert(b.subrange(8, b.len() - 4) =~= m.data);
    assert(b.subrange(b.len() - 4, b.len() as int) =~= spec_u32_to_be_bytes(m.crc));
    assert(spec_parse_chunk(b)->Ok_0 =~= m);
}

/// A buffer shorter than the minimal 12-byte record (empty payload) always
/// fails as truncated.
pub proof fn lemma_short_buffer_truncated(b: Seq<u8>)
    requires
        b.len() < 12,
    ensures
        spec_parse_chunk(b) == Err::<ChunkModel, PngError>(PngError::Truncated),
{
    reveal(spec_parse_chunk);
}

/// Length integrity: a chunk buffer whose leading length field differs from
/// the true payload size (the buffer's length minus the 12 bytes of header
/// and checksum) never parses. A field that is too large reads as truncation,
/// one that is too small as a length mismatch.
pub proof fn lemma_length_field_integrity(b: Seq<u8>)
    requires
        b.len() >= 12,
        spec_u32_from_be_bytes(b.subrange(0, 4)) != b.len() - 12,
    ensures
        spec_parse_chunk(b) is Err,
        spec_u32_from_be_bytes(b.subrange(0, 4)) > b.len() - 12 ==> spec_parse_chunk(b)
            == Err::<ChunkModel, PngError>(PngError::Truncated),
        spec_u32_from_be_bytes(b.subrange(0, 4)) < b.len() - 12 ==> spec_parse_chunk(b)
            == Err::<ChunkModel, PngError>(PngError::LengthMismatch),
{
    reveal(spec_parse_chunk);
}

/// Checksum guard: a chunk buffer of consistent size whose stored checksum
/// differs from the checksum of its tag and payload fails as a checksum
/// mismatch. (That corrupting a bit of tag or payload changes the checksum
/// is a property of CRC-32 itself, which the library does not restate.)
pub proof fn lemma_crc_mismatch_rejected(b: Seq<u8>)
    requires
        b.len() >= 12,
        spec_u32_from_be_bytes(b.subrange(0, 4)) == b.len() - 12,
        spec_u32_from_be_bytes(b.subrange(b.len() - 4, b.len() as int)) != crc32_of(
            b.subrange(4, 8) + b.subrange(8, b.len() - 4),
        ),
    ensures
        spec_parse_chunk(b) == Err::<ChunkModel, PngError>(PngError::CrcMismatch),
{
    reveal(spec_parse_chunk);
}

} // verus!
