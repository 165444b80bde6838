use crate::chunk::{lemma_chunk_round_trip, spec_parse_chunk, Chunk, ChunkModel};
use crate::chunk_type::ChunkType;
use crate::error::PngError;
use crate::util::{
    lemma_u32_be_bytes_round_trip, slice_4_bytes, spec_u32_from_be_bytes, spec_u32_to_be_bytes,
    u32_from_be_bytes,
};
use vstd::prelude::*;
use vstd::slice::slice_subrange;

verus! {

/// The canonical 8-byte signature that opens every container.
pub open spec fn spec_signature() -> Seq<u8> {
    seq![137u8, 80u8, 78u8, 71u8, 13u8, 10u8, 26u8, 10u8]
}

/// The canonical 8-byte signature, as bytes.
pub fn signature() -> (r: [u8; 8])
    ensures
        r@ == spec_signature(),
{
    let r: [u8; 8] = [137u8, 80u8, 78u8, 71u8, 13u8, 10u8, 26u8, 10u8];
    proof {
        assert(r@ =~= spec_signature());
    }
    r
}

/// The concatenation of the wire forms of a chunk sequence, in order.
pub open spec fn spec_chunks_wire(chunks: Seq<ChunkModel>) -> Seq<u8>
    decreases chunks.len(),
{
    if chunks.len() == 0 {
        Seq::empty()
    } else {
        chunks[0].wire() + spec_chunks_wire(chunks.skip(1))
    }
}

/// The whole file's wire form: the signature followed by every chunk's wire
/// form in sequence order, with no padding or trailing bytes.
pub open spec fn spec_png_wire(chunks: Seq<ChunkModel>) -> Seq<u8> {
    spec_signature() + spec_chunks_wire(chunks)
}

/// What parsing a stream of chunk records yields: records are consumed in
/// sequence, each occupying `12 + declared length` bytes, until the buffer
/// is exhausted; the first failing record aborts the whole parse.
#[verifier::opaque]
pub open spec fn spec_parse_chunks(b: Seq<u8>) -> Result<Seq<ChunkModel>, PngError>
    decreases b.len(),
{
    if b.len() == 0 {
        Ok(Seq::empty())
    } else if b.len() < 12 {
        Err(PngError::Truncated)
    } else {
        let length = spec_u32_from_be_bytes(b.subrange(0, 4));
        if b.len() - 12 < length {
            Err(PngError::Truncated)
        } else {
            let size = 12 + length;
            match spec_parse_chunk(b.subrange(0, size as int)) {
                Err(e) => Err(e),
                Ok(m) => match spec_parse_chunks(b.skip(size as int)) {
                    Err(e) => Err(e),
                    Ok(rest) => Ok(seq![m] + rest),
                },
            }
        }
    }
}

/// What parsing a whole file yields: the buffer must open with the canonical
/// signature; the rest is a stream of chunk records.
pub open spec fn spec_parse_png(b: Seq<u8>) -> Result<Seq<ChunkModel>, PngError> {
    if b.len() < 8 || b.subrange(0, 8) != spec_signature() {
        Err(PngError::BadSignature)
    } else {
        spec_parse_chunks(b.skip(8))
    }
}

/// Whether some chunk of the sequence carries the given tag.
pub open spec fn tag_present(chunks: Seq<ChunkModel>, tag: Seq<u8>) -> bool {
    exists|i: int| 0 <= i < chunks.len() && (#[trigger] chunks[i]).tag == tag
}

/// The index of the first chunk carrying the given tag, or the sequence
/// length when none does.
pub open spec fn first_match(chunks: Seq<ChunkModel>, tag: Seq<u8>) -> int
    decreases chunks.len(),
{
    if chunks.len() == 0 {
        0
    } else if chunks[0].tag == tag {
        0
    } else {
        1 + first_match(chunks.skip(1), tag)
    }
}

/// `first_match` finds the first matching index exactly when the tag is
/// present, and nothing before it matches.
pub proof fn lemma_first_match(chunks: Seq<ChunkModel>, tag: Seq<u8>)
    ensures
        0 <= first_match(chunks, tag) <= chunks.len(),
        tag_present(chunks, tag) <==> first_match(chunks, tag) < chunks.len(),
        tag_present(chunks, tag) ==> chunks[first_match(chunks, tag)].tag == tag,
        forall|j: int|
            0 <= j < first_match(chunks, tag) ==> (#[trigger] chunks[j]).tag != tag,
    decreases chunks.len(),
{
    if chunks.len() == 0 {
    } else if chunks[0].tag == tag {
    } else {
        let rest = chunks.skip(1);
        lemma_first_match(rest, tag);
        assert forall|j: int| 0 <= j < first_match(chunks, tag) implies (#[trigger] chunks[j]).tag
            != tag by {
            if j > 0 {
                assert(chunks[j] == rest[j - 1]);
            }
        }
        if tag_present(chunks, tag) {
            let i = choose|i: int| 0 <= i < chunks.len() && (#[trigger] chunks[i]).tag == tag;
            assert(i > 0);
            assert(rest[i - 1] == chunks[i]);
            assert(tag_present(rest, tag));
        }
        if tag_present(rest, tag) {
            let i = choose|i: int| 0 <= i < rest.len() && (#[trigger] rest[i]).tag == tag;
            assert(chunks[i + 1] == rest[i]);
            assert(tag_present(chunks, tag));
        }
    }
}

/// A parse already holding `done` chunks, continued by the parse of the
/// remaining stream: its errors are kept, its chunks follow `done`.
spec fn spec_parse_continued(
    done: Seq<ChunkModel>,
    rest: Result<Seq<ChunkModel>, PngError>,
) -> Result<Seq<ChunkModel>, PngError> {
    match rest {
        Ok(ms) => Ok(done + ms),
        Err(e) => Err(e),
    }
}

/// Unfolding `spec_parse_chunks` on the empty stream.
proof fn lemma_parse_chunks_empty(b: Seq<u8>)
    requires
        b.len() == 0,
    ensures
        spec_parse_chunks(b) == Ok::<Seq<ChunkModel>, PngError>(Seq::empty()),
{
    reveal(spec_parse_chunks);
}

/// Unfolding `spec_parse_chunks` on a non-empty buffer too short for one
/// record.
proof fn lemma_parse_chunks_short(b: Seq<u8>)
    requires
        0 < b.len() < 12,
    ensures
        spec_parse_chunks(b) == Err::<Seq<ChunkModel>, PngError>(PngError::Truncated),
{
    reveal(spec_parse_chunks);
}

/// Unfolding `spec_parse_chunks` on a buffer too short for its first
/// record's declared payload.
proof fn lemma_parse_chunks_truncated(b: Seq<u8>)
    requires
        b.len() >= 12,
        b.len() - 12 < spec_u32_from_be_bytes(b.subrange(0, 4)),
    ensures
        spec_parse_chunks(b) == Err::<Seq<ChunkModel>, PngError>(PngError::Truncated),
{
    reveal(spec_parse_chunks);
}

/// Unfolding `spec_parse_chunks` one record at a time: when the buffer can
/// hold the first record, the stream parse is that record's parse followed
/// by the parse of the remainder.
proof fn lemma_parse_chunks_step(b: Seq<u8>)
    requires
        b.len() >= 12,
        spec_u32_from_be_bytes(b.subrange(0, 4)) <= b.len() - 12,
    ensures
        ({
            let size = 12 + spec_u32_from_be_bytes(b.subrange(0, 4));
            spec_parse_chunks(b) == match spec_parse_chunk(b.subrange(0, size as int)) {
                Err(e) => Err::<Seq<ChunkModel>, PngError>(e),
                Ok(m) => match spec_parse_chunks(b.skip(size as int)) {
                    Err(e) => Err(e),
                    Ok(rest) => Ok(seq![m] + rest),
                },
            }
        }),
{
    reveal(spec_parse_chunks);
}

/// The whole file: the fixed signature followed by an ordered sequence of
/// chunks. The signature is not stored; it is emitted on serialization and
/// demanded on parsing.
#[derive(Debug)]
pub struct Png {
    pub chunks: Vec<Chunk>,
}

impl View for Png {
    type V = Seq<ChunkModel>;

    open spec fn view(&self) -> Seq<ChunkModel> {
        self.chunks.deep_view()
    }
}

impl Png {
    /// Every held chunk is internally consistent.
    pub open spec fn wf(self) -> bool {
        forall|i: int| 0 <= i < self@.len() ==> (#[trigger] self@[i]).wf()
    }

    /// A container holding nothing but the signature.
    pub fn new() -> (p: Png)
        ensures
            p@ == Seq::<ChunkModel>::empty(),
    {
        let p = Png { chunks: Vec::new() };
        proof {
            assert(p@ =~= Seq::<ChunkModel>::empty());
        }
        p
    }

    /// A container over the given chunk sequence, in the given order.
    pub fn from_chunks(chunks: Vec<Chunk>) -> (p: Png)
        ensures
            p@ == chunks.deep_view(),
    {
        Png { chunks }
    }

    /// Parses a whole file: the canonical signature, then chunk records back
    /// to back until the buffer ends. The result is pinned by
    /// `spec_parse_png`; any failing record aborts the parse with its error.
    pub fn try_from(buf: &[u8]) -> (r: Result<Png, PngError>)
        ensures
            match r {
                Ok(p) => spec_parse_png(buf@) == Ok::<Seq<ChunkModel>, PngError>(p@) && p.wf(),
                Err(e) => spec_parse_png(buf@) == Err::<Seq<ChunkModel>, PngError>(e),
            },
    {
        let n = buf.len();
        if n < 8 {
            return Err(PngError::BadSignature);
        }
        let sig = signature();
        let mut k: usize = 0;
        while k < 8
            invariant
                0 <= k <= 8,
                8 <= n == buf@.len(),
                sig@ == spec_signature(),
                forall|j: int| 0 <= j < k ==> buf@[j] == spec_signature()[j],
            decreases 8 - k,
        {
            if buf[k] != sig[k] {
                proof {
                    assert(buf@.subrange(0, 8)[k as int] != spec_signature()[k as int]);
                }
                return Err(PngError::BadSignature);
            }
            k += 1;
        }
        proof {
            assert(buf@.subrange(0, 8) =~= spec_signature());
        }
        let mut chunks: Vec<Chunk> = Vec::new();
        let mut pos: usize = 8;
        proof {
            assert(chunks.deep_view() =~= Seq::<ChunkModel>::empty());
            match spec_parse_chunks(buf@.skip(8)) {
                Ok(ms) => {
                    assert(Seq::<ChunkModel>::empty() + ms =~= ms);
                },
                Err(_) => {},
            }
        }
        while pos < n
            invariant
                8 <= pos <= n == buf@.len(),
                buf@.subrange(0, 8) == spec_signature(),
                forall|i: int|
                    0 <= i < chunks.deep_view().len() ==> (#[trigger] chunks.deep_view()[i]).wf(),
                spec_parse_chunks(buf@.skip(8)) == spec_parse_continued(
                    chunks.deep_view(),
                    spec_parse_chunks(buf@.skip(pos as int)),
                ),
            decreases n - pos,
        {
            let ghost t = buf@.skip(pos as int);
            proof {
                assert(t.len() == n - pos);
            }
            let rem = n - pos;
            if rem < 12 {
                proof {
                    lemma_parse_chunks_short(t);
                }
                return Err(PngError::Truncated);
            }
            let length = u32_from_be_bytes(slice_4_bytes(buf, pos).as_slice());
            proof {
                assert(t.subrange(0, 4) =~= buf@.subrange(pos as int, pos + 4));
                assert(spec_u32_from_be_bytes(t.subrange(0, 4)) == length);
            }
            if (length as usize) > rem - 12 {
                proof {
                    lemma_parse_chunks_truncated(t);
                }
                return Err(PngError::Truncated);
            }
            let size = 12 + length as usize;
            let chunk_buf = slice_subrange(buf, pos, pos + size);
            proof {
                assert(chunk_buf@ =~= t.subrange(0, size as int));
                lemma_parse_chunks_step(t);
            }
            let c = match Chunk::try_from(chunk_buf) {
                Ok(c) => c,
                Err(e) => {
                    return Err(e);
                },
            };
            let ghost old_dv = chunks.deep_view();
            chunks.push(c);
            proof {
                assert(chunks.deep_view() =~= old_dv.push(c@));
                assert(t.skip(size as int) =~= buf@.skip(pos + size));
                if spec_parse_chunks(buf@.skip(pos + size)) is Ok {
                    let rest = spec_parse_chunks(buf@.skip(pos + size))->Ok_0;
                    assert(old_dv + (seq![c@] + rest) =~= old_dv.push(c@) + rest);
                }
            }
            pos = pos + size;
        }
        let p = Png { chunks };
        proof {
            assert(buf@.skip(pos as int) =~= Seq::<u8>::empty());
            lemma_parse_chunks_empty(buf@.skip(pos as int));
            assert(p@ + Seq::<ChunkModel>::empty() =~= p@);
        }
        Ok(p)
    }

    /// The whole file's wire form: the signature, then every chunk's wire
    /// form in sequence order.
    pub fn as_bytes(&self) -> (r: Vec<u8>)
        ensures
            r@ == spec_png_wire(self@),
    {
        let mut r: Vec<u8> = Vec::new();
        let sig = signature();
        r.extend_from_slice(sig.as_slice());
        proof {
            assert(r@ =~= spec_signature());
            assert(self@.take(0) =~= Seq::<ChunkModel>::empty());
            assert(r@ =~= spec_signature() + spec_chunks_wire(self@.take(0)));
        }
        let mut i: usize = 0;
        while i < self.chunks.len()
            invariant
                0 <= i <= self.chunks@.len(),
                self@.len() == self.chunks@.len(),
                r@ == spec_signature() + spec_chunks_wire(self@.take(i as int)),
            decreases self.chunks@.len() - i,
        {
            let cb = self.chunks[i].as_bytes();
            r.extend_from_slice(cb.as_slice());
            proof {
                lemma_chunks_wire_snoc(self@.take(i as int), self@[i as int]);
                assert(self@.take(i + 1) =~= self@.take(i as int).push(self@[i as int]));
                assert(r@ =~= spec_signature() + spec_chunks_wire(self@.take(i + 1)));
            }
            i += 1;
        }
        proof {
            assert(self@.take(self@.len() as int) =~= self@);
        }
        r
    }

    /// Appends a chunk at the end of the sequence; no uniqueness or ordering
    /// constraint is enforced.
    pub fn append_chunk(&mut self, chunk: Chunk)
        ensures
            final(self)@ == old(self)@.push(chunk@),
    {
        self.chunks.push(chunk);
        proof {
            assert(self@ =~= old(self)@.push(chunk@));
        }
    }

    /// The first chunk (in sequence order) whose type equals the given tag;
    /// absence is a non-fatal signal, not an error.
    pub fn chunk_by_type(&self, tag: &ChunkType) -> (r: Option<&Chunk>)
        ensures
            tag_present(self@, tag@) ==> (r matches Some(c) && c@ == self@[first_match(
                self@,
                tag@,
            )]),
            !tag_present(self@, tag@) ==> r is None,
    {
        let mut i: usize = 0;
        while i < self.chunks.len()
            invariant
                0 <= i <= self.chunks@.len(),
                self@.len() == self.chunks@.len(),
                forall|j: int| 0 <= j < i ==> (#[trigger] self@[j]).tag != tag@,
            decreases self.chunks@.len() - i,
        {
            if self.chunks[i].chunk_type == *tag {
                proof {
                    lemma_first_match(self@, tag@);
                    assert(self@[i as int].tag == tag@);
                    assert(first_match(self@, tag@) == i);
                }
                return Some(&self.chunks[i]);
            }
            i += 1;
        }
        proof {
            if tag_present(self@, tag@) {
                let w = choose|w: int| 0 <= w < self@.len() && (#[trigger] self@[w]).tag == tag@;
                assert(self@[w].tag != tag@);
            }
        }
        None
    }

    /// Removes and returns the first chunk whose type equals the given tag,
    /// leaving every other chunk in place and in order; fails when no chunk
    /// has that type, leaving the sequence unchanged.
    pub fn remove_chunk(&mut self, tag: &ChunkType) -> (r: Result<Chunk, PngError>)
        ensures
            tag_present(old(self)@, tag@) ==> (r matches Ok(c) && c@ == old(self)@[first_match(
                old(self)@,
                tag@,
            )] && final(self)@ == old(self)@.remove(first_match(old(self)@, tag@))),
            !tag_present(old(self)@, tag@) ==> (r == Err::<Chunk, PngError>(PngError::ChunkNotFound)
                && final(self)@ == old(self)@),
    {
        let mut i: usize = 0;
        while i < self.chunks.len()
            invariant
                0 <= i <= self.chunks@.len(),
                self@.len() == self.chunks@.len(),
                *self == *old(self),
                forall|j: int| 0 <= j < i ==> (#[trigger] self@[j]).tag != tag@,
            decreases self.chunks@.len() - i,
        {
            if self.chunks[i].chunk_type == *tag {
                proof {
                    lemma_first_match(self@, tag@);
                    assert(self@[i as int].tag == tag@);
                    assert(first_match(self@, tag@) == i);
                }
                let c = self.chunks.remove(i);
                proof {
                    assert(self@ =~= old(self)@.remove(i as int));
                }
                return Ok(c);
            }
            i += 1;
        }
        proof {
            if tag_present(self@, tag@) {
                let w = choose|w: int| 0 <= w < self@.len() && (#[trigger] self@[w]).tag == tag@;
                assert(self@[w].tag != tag@);
            }
        }
        Err(PngError::ChunkNotFound)
    }
}

/// Appending one chunk to a sequence appends its wire form to the stream.
pub proof fn lemma_chunks_wire_snoc(chunks: Seq<ChunkModel>, m: ChunkModel)
    ensures
        spec_chunks_wire(chunks.push(m)) == spec_chunks_wire(chunks) + m.wire(),
    decreases chunks.len(),
{
    if chunks.len() == 0 {
        assert(chunks.push(m)[0] == m);
        assert(chunks.push(m).skip(1) =~= Seq::<ChunkModel>::empty());
        assert(spec_chunks_wire(Seq::<ChunkModel>::empty()) == Seq::<u8>::empty());
        assert(spec_chunks_wire(chunks.push(m)) == m.wire() + Seq::<u8>::empty());
        assert(spec_chunks_wire(chunks) == Seq::<u8>::empty());
        assert(m.wire() + Seq::<u8>::empty() =~= Seq::<u8>::empty() + m.wire());
    } else {
        assert(chunks.push(m).skip(1) =~= chunks.skip(1).push(m));
        lemma_chunks_wire_snoc(chunks.skip(1), m);
        assert(chunks.push(m)[0] == chunks[0]);
        assert(chunks.push(m).len() != 0);
        assert(spec_chunks_wire(chunks.push(m)) == chunks[0].wire() + spec_chunks_wire(
            chunks.push(m).skip(1),
        ));
        assert(spec_chunks_wire(chunks.push(m).skip(1)) == spec_chunks_wire(chunks.skip(1))
            + m.wire());
        assert(spec_chunks_wire(chunks) == chunks[0].wire() + spec_chunks_wire(chunks.skip(1)));
        assert(chunks[0].wire() + (spec_chunks_wire(chunks.skip(1)) + m.wire()) =~= (chunks[0].wire()
            + spec_chunks_wire(chunks.skip(1))) + m.wire());
    }
}

/// Round trip for a chunk stream: parsing the concatenated wire forms of
/// well-formed chunks yields exactly that sequence.
pub proof fn lemma_chunks_wire_round_trip(chunks: Seq<ChunkModel>)
    requires
        forall|i: int| 0 <= i < chunks.len() ==> (#[trigger] chunks[i]).wf(),
    ensures
        spec_parse_chunks(spec_chunks_wire(chunks)) == Ok::<Seq<ChunkModel>, PngError>(chunks),
    decreases chunks.len(),
{
    reveal(spec_parse_chunks);
    lemma_u32_be_bytes_round_trip();
    if chunks.len() == 0 {
        assert(spec_chunks_wire(chunks).len() == 0);
        assert(chunks =~= Seq::<ChunkModel>::empty());
    } else {
        let m = chunks[0];
        let b = spec_chunks_wire(chunks);
        let rest = spec_chunks_wire(chunks.skip(1));
        assert(b == m.wire() + rest);
        assert(m.wire().len() == 12 + m.data.len());
        assert(b.subrange(0, 4) =~= spec_u32_to_be_bytes(m.length));
        let size = 12 + m.length as int;
        assert(b.subrange(0, size) =~= m.wire());
        lemma_chunk_round_trip(m);
        assert(b.skip(size) =~= rest);
        lemma_chunks_wire_round_trip(chunks.skip(1));
        assert(seq![m] + chunks.skip(1) =~= chunks);
    }
}

/// Round trip for the whole file: parsing the wire form of a container of
/// well-formed chunks yields exactly that chunk sequence.
pub proof fn lemma_png_round_trip(chunks: Seq<ChunkModel>)
    requires
        forall|i: int| 0 <= i < chunks.len() ==> (#[trigger] chunks[i]).wf(),
    ensures
        spec_parse_png(spec_png_wire(chunks)) == Ok::<Seq<ChunkModel>, PngError>(chunks),
{
    let b = spec_png_wire(chunks);
    assert(b.subrange(0, 8) =~= spec_signature());
    assert(b.skip(8) =~= spec_chunks_wire(chunks));
    lemma_chunks_wire_round_trip(chunks);
}

} // verus!
