//! The one cryptographic digest the library builds on.
use vstd::prelude::*;

verus! {

/// The largest input, in bytes, handed to the digest.
pub const MAX_DIGEST_INPUT: usize = 0x1000_0000;

/// Tag of the digests that derive node keys.
pub const KEY_TAG: u8 = 1;

/// Tag of the digests of Merkle nodes.
pub const NODE_TAG: u8 = 2;

/// Tag of the digests that derive replica identities.
pub const REPLICA_TAG: u8 = 3;

/// Tag of the digests over all layers' roots.
pub const LAYERS_TAG: u8 = 4;

/// Tag of the digests of the Feistel round function.
pub const ROUND_TAG: u8 = 5;

/// Tag of the digests that draw challenges.
pub const CHALLENGE_TAG: u8 = 6;

/// What SHA-256 returns on the given bytes.
pub uninterp spec fn sha256_of(data: Seq<u8>) -> Seq<u8>;

/// Relies on `ring::digest::digest` with `ring::digest::SHA256`: the digest of
/// the bytes, which depends on them alone and is 32 bytes long.
#[verifier::external_body]
pub(crate) fn sha256(data: &Vec<u8>) -> (r: Vec<u8>)
    requires
        data@.len() <= MAX_DIGEST_INPUT,
    ensures
        r@ == sha256_of(data@),
        r@.len() == 32,
{
    ring::digest::digest(&ring::digest::SHA256, data.as_slice()).as_ref().to_vec()
}

/// The bytes of `data` after the one-byte domain tag `tag`.
pub fn tagged(tag: u8, data: &Vec<u8>) -> (r: Vec<u8>)
    ensures
        r@ == seq![tag] + data@,
{
    let mut out: Vec<u8> = Vec::new();
    out.push(tag);
    let mut i: usize = 0;
    while i < data.len()
        invariant
            i <= data@.len(),
            out@ == seq![tag] + data@.subrange(0, i as int),
        decreases data@.len() - i,
    {
        out.push(data[i]);
        i = i + 1;
        assert(out@ =~= seq![tag] + data@.subrange(0, i as int));
    }
    assert(data@.subrange(0, data@.len() as int) =~= data@);
    out
}

} // verus!
