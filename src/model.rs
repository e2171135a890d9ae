use vstd::prelude::*;

verus! {

/// Length of a digest, a target, an entropy seed and a nonce.
pub const OUT_SIZE: usize = 8;

/// Length of the challenge a proof is bound to.
pub const IN_SIZE: usize = 32;

/// Length of the work buffer: entropy followed by challenge.
pub const DATA_SIZE: usize = 40;

pub type Hash8 = [u8; OUT_SIZE];

pub type InHash = [u8; IN_SIZE];

pub type Data = [u8; DATA_SIZE];

/// 2^64: the number of distinct eight-byte digests.
pub open spec fn digest_space() -> int {
    0x1_0000_0000_0000_0000
}

/// The number held by eight bytes read least significant first.
pub open spec fn le_magnitude(b: Seq<u8>) -> int {
    b[0] + 0x100 * b[1] + 0x1_0000 * b[2] + 0x100_0000 * b[3] + 0x1_0000_0000 * b[4]
        + 0x100_0000_0000 * b[5] + 0x1_0000_0000_0000 * b[6] + 0x100_0000_0000_0000 * b[7]
}

/// The threshold for a difficulty: 2^64 - floor(2^64 / d).
pub open spec fn target_value(d: int) -> int {
    digest_space() - digest_space() / d
}

/// `n` divided by 256, `i` times over.
pub open spec fn shift_bytes(n: int, i: nat) -> int
    decreases i,
{
    if i == 0 {
        n
    } else {
        shift_bytes(n / 256, (i - 1) as nat)
    }
}

/// Byte `i` of `n`, counting from the least significant.
pub open spec fn le_byte(n: int, i: nat) -> u8 {
    (shift_bytes(n, i) % 256) as u8
}

/// The `len` least significant bytes of `n`, least significant first.
pub open spec fn le_bytes(n: int, len: nat) -> Seq<u8> {
    Seq::new(len, |i: int| le_byte(n, i as nat))
}

/// Eight little-endian bytes give back the number they were taken from.
pub proof fn lemma_le_bytes_magnitude(n: int)
    requires
        0 <= n < digest_space(),
    ensures
        le_magnitude(le_bytes(n, 8)) == n,
{
    reveal_with_fuel(shift_bytes, 9);
    let q1 = n / 256;
    let q2 = q1 / 256;
    let q3 = q2 / 256;
    let q4 = q3 / 256;
    let q5 = q4 / 256;
    let q6 = q5 / 256;
    let q7 = q6 / 256;
    assert(shift_bytes(n, 7) == q7);
    assert(0 <= q7 < 256);
    let b = le_bytes(n, 8);
    assert(b[0] == n % 256);
    assert(b[1] == q1 % 256);
    assert(b[2] == q2 % 256);
    assert(b[3] == q3 % 256);
    assert(b[4] == q4 % 256);
    assert(b[5] == q5 % 256);
    assert(b[6] == q6 % 256);
    assert(b[7] == q7 % 256);
}

/// The first eight bytes of a buffer are the little-endian bytes of the
/// number they hold.
pub proof fn lemma_magnitude_le_bytes(s: Seq<u8>)
    requires
        s.len() >= 8,
    ensures
        le_bytes(le_magnitude(s), 8) == s.subrange(0, 8),
        0 <= le_magnitude(s) < digest_space(),
{
    reveal_with_fuel(shift_bytes, 9);
    let n = le_magnitude(s);
    let q1 = n / 256;
    let q2 = q1 / 256;
    let q3 = q2 / 256;
    let q4 = q3 / 256;
    let q5 = q4 / 256;
    let q6 = q5 / 256;
    let q7 = q6 / 256;
    assert(n % 256 == s[0] && q1 == n / 256);
    assert(q1 == s[1] + 0x100 * s[2] + 0x1_0000 * s[3] + 0x100_0000 * s[4] + 0x1_0000_0000 * s[5]
        + 0x100_0000_0000 * s[6] + 0x1_0000_0000_0000 * s[7]);
    assert(q2 == s[2] + 0x100 * s[3] + 0x1_0000 * s[4] + 0x100_0000 * s[5] + 0x1_0000_0000 * s[6]
        + 0x100_0000_0000 * s[7]);
    assert(q3 == s[3] + 0x100 * s[4] + 0x1_0000 * s[5] + 0x100_0000 * s[6] + 0x1_0000_0000 * s[7]);
    assert(q4 == s[4] + 0x100 * s[5] + 0x1_0000 * s[6] + 0x100_0000 * s[7]);
    assert(q5 == s[5] + 0x100 * s[6] + 0x1_0000 * s[7]);
    assert(q6 == s[6] + 0x100 * s[7]);
    assert(q7 == s[7]);
    assert(le_bytes(n, 8) =~= s.subrange(0, 8));
}

} // verus!
