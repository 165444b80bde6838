use vstd::prelude::*;

verus! {

/// The 4-byte big-endian form of a 32-bit integer, most significant byte
/// first, as the wire format stores length and checksum fields.
pub open spec fn spec_u32_to_be_bytes(x: u32) -> Seq<u8> {
    seq![
        ((x >> 24) & 0xff) as u8,
        ((x >> 16) & 0xff) as u8,
        ((x >> 8) & 0xff) as u8,
        (x & 0xff) as u8,
    ]
}

/// The 32-bit integer read from 4 bytes in big-endian order.
pub open spec fn spec_u32_from_be_bytes(s: Seq<u8>) -> u32
    recommends
        s.len() == 4,
{
    ((s[0] as u32) << 24) | ((s[1] as u32) << 16) | ((s[2] as u32) << 8) | (s[3] as u32)
}

/// Big-endian encoding and decoding of a 32-bit integer invert each other.
pub proof fn lemma_u32_be_bytes_round_trip()
    ensures
        forall|x: u32|
            {
                &&& (#[trigger] spec_u32_to_be_bytes(x)).len() == 4
                &&& spec_u32_from_be_bytes(spec_u32_to_be_bytes(x)) == x
            },
        forall|s: Seq<u8>|
            s.len() == 4 ==> #[trigger] spec_u32_to_be_bytes(spec_u32_from_be_bytes(s)) == s,
{
    assert forall|x: u32|
        {
            &&& (#[trigger] spec_u32_to_be_bytes(x)).len() == 4
            &&& spec_u32_from_be_bytes(spec_u32_to_be_bytes(x)) == x
        } by {
        assert({
            &&& (x >> 24) & 0xff < 256
            &&& (x >> 16) & 0xff < 256
            &&& (x >> 8) & 0xff < 256
            &&& x & 0xff < 256
        }) by (bit_vector);
        assert(x == ((((x >> 24) & 0xff) << 24) | (((x >> 16) & 0xff) << 16) | (((x >> 8)
            & 0xff) << 8) | (x & 0xff))) by (bit_vector);
    }
    assert forall|s: Seq<u8>| s.len() == 4 implies #[trigger] spec_u32_to_be_bytes(
        spec_u32_from_be_bytes(s),
    ) == s by {
        let x = spec_u32_from_be_bytes(s);
        let s0 = s[0] as u32;
        let s1 = s[1] as u32;
        let s2 = s[2] as u32;
        let s3 = s[3] as u32;
        assert((x == (s0 << 24) | (s1 << 16) | (s2 << 8) | s3 && s0 < 256 && s1 < 256 && s2 < 256
            && s3 < 256) ==> s0 == (x >> 24) & 0xff && s1 == (x >> 16) & 0xff && s2 == (x >> 8)
            & 0xff && s3 == x & 0xff) by (bit_vector);
        assert(spec_u32_to_be_bytes(spec_u32_from_be_bytes(s)) =~= s);
    }
}

/// Writes a u32 as 4 big-endian bytes.
pub fn u32_to_be_bytes(x: u32) -> (r: [u8; 4])
    ensures
        r@ == spec_u32_to_be_bytes(x),
{
    proof {
        assert({
            &&& (x >> 24) & 0xff < 256
            &&& (x >> 16) & 0xff < 256
            &&& (x >> 8) & 0xff < 256
            &&& x & 0xff < 256
        }) by (bit_vector);
    }
    let r: [u8; 4] = [
        ((x >> 24) & 0xff) as u8,
        ((x >> 16) & 0xff) as u8,
        ((x >> 8) & 0xff) as u8,
        (x & 0xff) as u8,
    ];
    proof {
        assert(r@ =~= spec_u32_to_be_bytes(x));
    }
    r
}

/// Reads a u32 from 4 big-endian bytes.
pub fn u32_from_be_bytes(s: &[u8]) -> (x: u32)
    requires
        s@.len() == 4,
    ensures
        x == spec_u32_from_be_bytes(s@),
{
    ((s[0] as u32) << 24) | ((s[1] as u32) << 16) | ((s[2] as u32) << 8) | (s[3] as u32)
}

/// Copies the 4 bytes of `value` that start at `first_idx` into an array.
pub fn slice_4_bytes(value: &[u8], first_idx: usize) -> (r: [u8; 4])
    requires
        first_idx + 4 <= value@.len(),
    ensures
        r@ == value@.subrange(first_idx as int, first_idx + 4),
{
    let r: [u8; 4] = [value[first_idx], value[first_idx + 1], value[first_idx + 2], value[first_idx
        + 3]];
    proof {
        assert(r@ =~= value@.subrange(first_idx as int, first_idx + 4));
    }
    r
}

} // verus!
