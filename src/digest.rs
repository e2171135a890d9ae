use crate::model::{Data, Hash8, OUT_SIZE};
use sha3::{Digest, Sha3_256};
use vstd::prelude::*;

verus! {

/// The SHA3-256 digest of a byte string.
pub uninterp spec fn sha3_256(data: Seq<u8>) -> Seq<u8>;

/// The working digest of a work buffer: the first eight bytes of its
/// SHA3-256 digest.
pub open spec fn truncated_digest(data: Seq<u8>) -> Seq<u8> {
    Seq::new(OUT_SIZE as nat, |i: int| sha3_256(data)[i])
}

/// Relies on sha3's `Sha3_256` (`new`, `update`, `finalize`): the 32-byte
/// digest, which depends on the input bytes alone.
#[verifier::external_body]
fn sha3_256_of(data: &Data) -> (r: [u8; 32])
    ensures
        r@ == sha3_256(data@),
{
    let mut hasher = Sha3_256::new();
    hasher.update(data);
    hasher.finalize().into()
}

/// Writes the truncated digest of `data` into `hash`.
pub fn compute_hash(hash: &mut Hash8, data: &Data)
    ensures
        sha3_256(data@).len() == 32,
        final(hash)@ == truncated_digest(data@),
        final(hash)@ == sha3_256(data@).subrange(0, OUT_SIZE as int),
{
    let digest = sha3_256_of(data);
    let mut i: usize = 0;
    while i < OUT_SIZE
        invariant
            i <= OUT_SIZE,
            digest@ == sha3_256(data@),
            forall|j: int| 0 <= j < i ==> hash@[j] == digest@[j],
        decreases OUT_SIZE - i,
    {
        hash[i] = digest[i];
        i = i + 1;
    }
    assert(hash@ =~= truncated_digest(data@));
    assert(hash@ =~= sha3_256(data@).subrange(0, OUT_SIZE as int));
}

} // verus!
