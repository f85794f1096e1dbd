//! The identity deriver: a domain-separated digest over the canonical
//! member list and the threshold, mapped onto the account-identifier width
//! by reading its leading bytes as a little-endian integer.

use vstd::prelude::*;

use crate::encode::entropy_bytes;
use crate::encode::entropy_tag_bytes;
use crate::encode::encode_entropy;

verus! {

/// The 32-byte blake2b digest of `data`, a function of the bytes alone.
pub uninterp spec fn blake2_of(data: Seq<u8>) -> Seq<u8>;

/// Relies on `sp_io::hashing::blake2_256`: the 32-byte blake2b-256 digest of
/// `data`, a function of the bytes alone, the same in every process.
#[verifier::external_body]
pub(crate) fn blake2_256(data: &Vec<u8>) -> (r: [u8; 32])
    ensures
        r@ == blake2_of(data@),
{
    sp_io::hashing::blake2_256(data.as_slice())
}

/// The byte of `s` at `i`, with zeroes past the end.
pub open spec fn byte_at(s: Seq<u8>, i: int) -> nat {
    if 0 <= i < s.len() {
        s[i] as nat
    } else {
        0
    }
}

/// The little-endian value of the bytes of `s` from `i` up to the eighth.
pub open spec fn le_value_from(s: Seq<u8>, i: int) -> nat
    decreases 8 - i,
{
    if i >= 8 {
        0
    } else {
        byte_at(s, i) + 256 * le_value_from(s, i + 1)
    }
}

/// The account identifier read from the leading eight digest bytes as a
/// little-endian integer, zero-padded when the input runs out first.
pub open spec fn digest_account_id(s: Seq<u8>) -> u64 {
    le_value_from(s, 0) as u64
}

/// The derived identity of a member list and a threshold: the leading bytes
/// of the digest over their canonical entropy encoding.
pub open spec fn id_of(members: Seq<u64>, threshold: u16) -> u64 {
    digest_account_id(blake2_of(entropy_bytes(members, threshold)))
}

/// Read the leading eight bytes of a digest as a little-endian integer.
pub fn decode_account_id(digest: &[u8; 32]) -> (r: u64)
    ensures
        r == digest_account_id(digest@),
{
    let ghost s = digest@;
    let mut acc: u64 = digest[7] as u64;
    acc = acc * 256 + digest[6] as u64;
    acc = acc * 256 + digest[5] as u64;
    acc = acc * 256 + digest[4] as u64;
    acc = acc * 256 + digest[3] as u64;
    acc = acc * 256 + digest[2] as u64;
    acc = acc * 256 + digest[1] as u64;
    acc = acc * 256 + digest[0] as u64;
    proof {
        assert(le_value_from(s, 8) == 0);
        assert(le_value_from(s, 7) == byte_at(s, 7) + 256 * le_value_from(s, 8));
        assert(le_value_from(s, 6) == byte_at(s, 6) + 256 * le_value_from(s, 7));
        assert(le_value_from(s, 5) == byte_at(s, 5) + 256 * le_value_from(s, 6));
        assert(le_value_from(s, 4) == byte_at(s, 4) + 256 * le_value_from(s, 5));
        assert(le_value_from(s, 3) == byte_at(s, 3) + 256 * le_value_from(s, 4));
        assert(le_value_from(s, 2) == byte_at(s, 2) + 256 * le_value_from(s, 3));
        assert(le_value_from(s, 1) == byte_at(s, 1) + 256 * le_value_from(s, 2));
        assert(le_value_from(s, 0) == byte_at(s, 0) + 256 * le_value_from(s, 1));
        assert(acc == le_value_from(s, 0));
    }
    acc
}

/// Derive the identity controlled by `members` at `threshold`. A pure
/// function of its arguments: permuting the members before canonicalization
/// cannot change it, and two runs on equal inputs agree.
pub fn derive_account_id(members: &Vec<u64>, threshold: u16) -> (r: u64)
    requires
        members@.len() < 0x40000000,
    ensures
        r == id_of(members@, threshold),
{
    let tag = entropy_tag_bytes();
    let entropy = encode_entropy(&tag, members, threshold);
    let digest = blake2_256(&entropy);
    decode_account_id(&digest)
}

} // verus!
