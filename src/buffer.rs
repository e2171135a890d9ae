use crate::model::{digest_space, le_magnitude, Data, Hash8, InHash, DATA_SIZE, IN_SIZE, OUT_SIZE};
use vstd::prelude::*;

verus! {

/// The work buffer: the entropy seed followed by the challenge.
pub fn get_data(entropy: &Hash8, hash: &InHash) -> (r: Data)
    ensures
        r@ == entropy@ + hash@,
{
    let mut data: Data = [0u8; DATA_SIZE];
    let mut i: usize = 0;
    while i < OUT_SIZE
        invariant
            i <= OUT_SIZE,
            forall|j: int| 0 <= j < i ==> data@[j] == entropy@[j],
        decreases OUT_SIZE - i,
    {
        data[i] = entropy[i];
        i = i + 1;
    }
    let mut k: usize = 0;
    while k < IN_SIZE
        invariant
            k <= IN_SIZE,
            forall|j: int| 0 <= j < OUT_SIZE ==> data@[j] == entropy@[j],
            forall|j: int| 0 <= j < k ==> data@[j + OUT_SIZE] == hash@[j],
        decreases IN_SIZE - k,
    {
        data[k + OUT_SIZE] = hash[k];
        k = k + 1;
    }
    assert(data@ =~= entropy@ + hash@);
    data
}

/// Adds one to the first `max_size` bytes of `data`, read as a
/// little-endian counter; the bytes after them are left alone. Returns
/// false when the counter wrapped round to all zeros.
pub fn next_data(data: &mut Data, max_size: usize) -> (r: bool)
    requires
        max_size <= DATA_SIZE,
    ensures
        forall|j: int| max_size <= j < DATA_SIZE ==> final(data)@[j] == old(data)@[j],
        r == exists|k: int| 0 <= k < max_size && old(data)@[k] != 255,
        r ==> exists|k: int|
            0 <= k < max_size && old(data)@[k] != 255 && final(data)@[k] == old(data)@[k] + 1
                && (forall|j: int| 0 <= j < k ==> old(data)@[j] == 255 && final(data)@[j] == 0)
                && (forall|j: int| k < j < max_size ==> final(data)@[j] == old(data)@[j]),
        !r ==> forall|j: int| 0 <= j < max_size ==> final(data)@[j] == 0,
        max_size == OUT_SIZE ==> le_magnitude(final(data)@) == (le_magnitude(old(data)@) + 1)
            % digest_space(),
{
    let mut i: usize = 0;
    while i < max_size
        invariant
            i <= max_size <= DATA_SIZE,
            forall|j: int| 0 <= j < i ==> old(data)@[j] == 255 && data@[j] == 0,
            forall|j: int| i <= j < DATA_SIZE ==> data@[j] == old(data)@[j],
        decreases max_size - i,
    {
        data[i] = data[i].wrapping_add(1);
        if data[i] != 0 {
            assert(old(data)@[i as int] != 255);
            proof {
                if max_size == OUT_SIZE {
                    lemma_carry_stops(old(data)@, data@, i as int);
                }
            }
            return true;
        }
        i = i + 1;
    }
    proof {
        if max_size == OUT_SIZE {
            lemma_carry_wraps(old(data)@, data@);
        }
    }
    false
}

/// An increment whose carry stops at byte `k` adds one to the counter.
proof fn lemma_carry_stops(before: Seq<u8>, after: Seq<u8>, k: int)
    requires
        before.len() == DATA_SIZE,
        after.len() == DATA_SIZE,
        0 <= k < OUT_SIZE,
        before[k] != 255,
        after[k] == before[k] + 1,
        forall|j: int| 0 <= j < k ==> before[j] == 255 && after[j] == 0,
        forall|j: int| k < j < DATA_SIZE ==> after[j] == before[j],
    ensures
        le_magnitude(after) == (le_magnitude(before) + 1) % digest_space(),
{
    assert(after[7] == before[7] || k == 7);
    assert(after[6] == before[6] || k >= 6);
    assert(after[5] == before[5] || k >= 5);
    assert(after[4] == before[4] || k >= 4);
    assert(after[3] == before[3] || k >= 3);
    assert(after[2] == before[2] || k >= 2);
    assert(after[1] == before[1] || k >= 1);
    assert(k <= 0 || (before[0] == 255 && after[0] == 0));
    assert(k <= 1 || (before[1] == 255 && after[1] == 0));
    assert(k <= 2 || (before[2] == 255 && after[2] == 0));
    assert(k <= 3 || (before[3] == 255 && after[3] == 0));
    assert(k <= 4 || (before[4] == 255 && after[4] == 0));
    assert(k <= 5 || (before[5] == 255 && after[5] == 0));
    assert(k <= 6 || (before[6] == 255 && after[6] == 0));
    assert(le_magnitude(after) == le_magnitude(before) + 1);
}

/// An increment that carries out of the top byte wraps the counter to zero.
proof fn lemma_carry_wraps(before: Seq<u8>, after: Seq<u8>)
    requires
        before.len() == DATA_SIZE,
        after.len() == DATA_SIZE,
        forall|j: int| 0 <= j < OUT_SIZE ==> before[j] == 255 && after[j] == 0,
    ensures
        le_magnitude(after) == (le_magnitude(before) + 1) % digest_space(),
{
    assert(before[0] == 255 && after[0] == 0);
    assert(before[1] == 255 && after[1] == 0);
    assert(before[2] == 255 && after[2] == 0);
    assert(before[3] == 255 && after[3] == 0);
    assert(before[4] == 255 && after[4] == 0);
    assert(before[5] == 255 && after[5] == 0);
    assert(before[6] == 255 && after[6] == 0);
    assert(before[7] == 255 && after[7] == 0);
}

/// The nonce: the entropy bytes at the front of the work buffer.
pub fn data_to_nonce(data: &Data) -> (r: Hash8)
    ensures
        r@ == data@.subrange(0, OUT_SIZE as int),
{
    let mut nonce: Hash8 = [0u8; OUT_SIZE];
    let mut i: usize = 0;
    while i < OUT_SIZE
        invariant
            i <= OUT_SIZE,
            forall|j: int| 0 <= j < i ==> nonce@[j] == data@[j],
        decreases OUT_SIZE - i,
    {
        nonce[i] = data[i];
        i = i + 1;
    }
    assert(nonce@ =~= data@.subrange(0, OUT_SIZE as int));
    nonce
}

} // verus!
