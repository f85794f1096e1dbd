//! The canonical byte encoding of the identity-derivation entropy: a fixed
//! 16-byte domain tag, the member count in compact form, each member and the
//! threshold in little-endian form. The bytes are produced by the outside
//! encoder; the spec functions here state exactly which bytes it produces.

use vstd::prelude::*;

verus! {

/// The two little-endian bytes of `x`.
pub open spec fn u16_le(x: u16) -> Seq<u8> {
    seq![(x % 256) as u8, (x / 256) as u8]
}

/// The four little-endian bytes of `x`.
pub open spec fn u32_le(x: u32) -> Seq<u8> {
    seq![
        (x % 256) as u8,
        ((x / 256) % 256) as u8,
        ((x / 65536) % 256) as u8,
        ((x / 16777216) % 256) as u8,
    ]
}

/// The eight little-endian bytes of `x`.
pub open spec fn u64_le(x: u64) -> Seq<u8> {
    seq![
        (x % 256) as u8,
        ((x / 256) % 256) as u8,
        ((x / 65536) % 256) as u8,
        ((x / 16777216) % 256) as u8,
        ((x / 4294967296) % 256) as u8,
        ((x / 1099511627776) % 256) as u8,
        ((x / 281474976710656) % 256) as u8,
        ((x / 72057594037927936) % 256) as u8,
    ]
}

/// A collection length below `2^30` in compact form: two low mode bits, then
/// the length itself, in one, two or four little-endian bytes.
pub open spec fn compact_len(n: nat) -> Seq<u8> {
    if n <= 63 {
        seq![(n * 4) as u8]
    } else if n <= 16383 {
        u16_le((n * 4 + 1) as u16)
    } else {
        u32_le((n * 4 + 2) as u32)
    }
}

/// Each member in little-endian form, in list order.
pub open spec fn members_le(members: Seq<u64>) -> Seq<u8>
    decreases members.len(),
{
    if members.len() == 0 {
        Seq::empty()
    } else {
        u64_le(members[0]) + members_le(members.drop_first())
    }
}

/// The 16 bytes of the fixed domain tag, the ASCII of `modlpy/utilisuba`.
pub open spec fn entropy_tag() -> Seq<u8> {
    seq![109u8, 111, 100, 108, 112, 121, 47, 117, 116, 105, 108, 105, 115, 117, 98, 97]
}

/// The full entropy over which the identity digest is taken.
pub open spec fn entropy_bytes(members: Seq<u64>, threshold: u16) -> Seq<u8> {
    entropy_tag() + compact_len(members.len()) + members_le(members) + u16_le(threshold)
}

/// The fixed domain tag as a value.
pub fn entropy_tag_bytes() -> (r: [u8; 16])
    ensures
        r@ == entropy_tag(),
{
    let r: [u8; 16] = [109, 111, 100, 108, 112, 121, 47, 117, 116, 105, 108, 105, 115, 117, 98, 97];
    proof {
        assert(r@ =~= entropy_tag());
    }
    r
}

/// Relies on parity-scale-codec's `Encode` for `(&[u8; 16], &[u64], u16)`:
/// the 16 tag bytes unprefixed, then the member count in compact form, then
/// each member and the threshold as little-endian bytes. Lengths of `2^30`
/// and beyond would take the encoder's big-integer form, which is left out.
#[verifier::external_body]
pub(crate) fn encode_entropy(tag: &[u8; 16], members: &Vec<u64>, threshold: u16) -> (r: Vec<u8>)
    requires
        members@.len() < 0x40000000,
    ensures
        r@ == tag@ + compact_len(members@.len() as nat) + members_le(members@) + u16_le(threshold),
{
    parity_scale_codec::Encode::encode(&(tag, members.as_slice(), threshold))
}

} // verus!
