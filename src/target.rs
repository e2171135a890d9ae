use crate::model::{
    digest_space, le_bytes, le_magnitude, lemma_le_bytes_magnitude, target_value, Hash8, OUT_SIZE,
};
use byteorder::{ByteOrder, LittleEndian};
use vstd::prelude::*;

verus! {

/// Relies on byteorder's `LittleEndian::write_u128`: it stores the sixteen
/// bytes of `n` into the buffer, least significant first.
#[verifier::external_body]
fn u128_to_le(n: u128) -> (r: [u8; 16])
    ensures
        r@ == le_bytes(n as int, 16),
{
    let mut buf = [0u8; 16];
    LittleEndian::write_u128(&mut buf, n);
    buf
}

/// The eight-byte target for `difficulty`, little-endian: a digest passes
/// when it is at least this large, about one in `difficulty` of them.
pub fn get_target(difficulty: u64) -> (r: Hash8)
    requires
        difficulty >= 1,
    ensures
        r@ == le_bytes(target_value(difficulty as int), 8),
        le_magnitude(r@) == target_value(difficulty as int),
{
    let big: u128 = 0x1_0000_0000_0000_0000;
    proof {
        let d = difficulty as int;
        assert(1 <= digest_space() / d <= digest_space()) by (nonlinear_arith)
            requires
                1 <= d < digest_space(),
        ;
    }
    let target: u128 = big - big / (difficulty as u128);
    let le = u128_to_le(target);
    let mut h: Hash8 = [0u8; OUT_SIZE];
    let mut i: usize = 0;
    while i < OUT_SIZE
        invariant
            i <= OUT_SIZE,
            le@ == le_bytes(target as int, 16),
            forall|j: int| 0 <= j < i ==> h@[j] == le@[j],
        decreases OUT_SIZE - i,
    {
        h[i] = le[i];
        i = i + 1;
    }
    assert(h@ =~= le_bytes(target as int, 8));
    proof {
        lemma_le_bytes_magnitude(target as int);
    }
    h
}

/// Where two eight-byte values agree above byte `i` and differ at it, that
/// byte decides their order.
proof fn lemma_first_difference(a: Seq<u8>, b: Seq<u8>, i: int)
    requires
        a.len() == 8,
        b.len() == 8,
        0 <= i < 8,
        a[i] != b[i],
        forall|j: int| i < j < 8 ==> a[j] == b[j],
    ensures
        (le_magnitude(a) >= le_magnitude(b)) == (a[i] > b[i]),
{
    assert(a[7] == b[7] || i == 7);
    assert(a[6] == b[6] || i >= 6);
    assert(a[5] == b[5] || i >= 5);
    assert(a[4] == b[4] || i >= 4);
    assert(a[3] == b[3] || i >= 3);
    assert(a[2] == b[2] || i >= 2);
    assert(a[1] == b[1] || i >= 1);
}

/// Whether `a` is at least `b`, both read as little-endian numbers; equal
/// values pass. The bytes are compared from the most significant down.
pub fn greater(a: &Hash8, b: &Hash8) -> (r: bool)
    ensures
        r == (le_magnitude(a@) >= le_magnitude(b@)),
{
    let mut i: usize = OUT_SIZE;
    while i > 0
        invariant
            i <= OUT_SIZE,
            forall|j: int| i <= j < OUT_SIZE ==> a@[j] == b@[j],
        decreases i,
    {
        i = i - 1;
        if a[i] != b[i] {
            proof {
                lemma_first_difference(a@, b@, i as int);
            }
            return a[i] > b[i];
        }
    }
    assert(a@ =~= b@);
    true
}

/// A higher difficulty never gives a lower target.
pub proof fn lemma_target_monotone(d1: int, d2: int)
    requires
        1 <= d1 <= d2 <= 0x10_0000,
    ensures
        target_value(d1) <= target_value(d2),
{
    assert(digest_space() / d2 <= digest_space() / d1) by (nonlinear_arith)
        requires
            1 <= d1 <= d2,
    ;
}

} // verus!
