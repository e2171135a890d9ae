use crate::buffer::{data_to_nonce, get_data, next_data};
use crate::digest::{compute_hash, truncated_digest};
use crate::model::{
    digest_space, le_bytes, le_magnitude, lemma_le_bytes_magnitude, lemma_magnitude_le_bytes,
    target_value, Hash8, InHash, OUT_SIZE,
};
use crate::target::{get_target, greater};
use rand::Rng;
use vstd::prelude::*;

verus! {

/// The lowercase hexadecimal digits, by value.
pub open spec fn hex_digits() -> Seq<char> {
    seq!['0', '1', '2', '3', '4', '5', '6', '7', '8', '9', 'a', 'b', 'c', 'd', 'e', 'f']
}

/// Two lowercase hex digits for each byte, the high half first.
pub open spec fn hex_of(b: Seq<u8>) -> Seq<char> {
    Seq::new(
        2 * b.len(),
        |i: int|
            if i % 2 == 0 {
                hex_digits()[b[i / 2] as int / 16]
            } else {
                hex_digits()[b[i / 2] as int % 16]
            },
    )
}

/// A nonce passes for a challenge and a difficulty when the truncated digest
/// of nonce followed by challenge reaches the difficulty's target.
pub open spec fn nonce_accepted(challenge: Seq<u8>, difficulty: int, nonce: Seq<u8>) -> bool {
    le_magnitude(truncated_digest(nonce + challenge)) >= target_value(difficulty)
}

/// `text` is the hex text of an eight-byte nonce that passes.
pub open spec fn is_valid_proof(challenge: Seq<u8>, difficulty: int, text: Seq<char>) -> bool {
    exists|nonce: Seq<u8>|
        nonce.len() == OUT_SIZE && text == hex_of(nonce) && nonce_accepted(
            challenge,
            difficulty,
            nonce,
        )
}

/// Relies on `rand::thread_rng().gen::<u8>()`: a byte from the thread's
/// cryptographically secure generator, seeded by the operating system;
/// `thread_rng` panics only when that source cannot be read at all.
/// Nothing is known of its value.
#[verifier::external_body]
fn random_byte() -> (r: u8) {
    rand::thread_rng().gen()
}

/// Relies on `hex::encode`: two lowercase digits for each byte, the high
/// half first.
#[verifier::external_body]
fn encode_hex(b: &Hash8) -> (r: String)
    ensures
        r@ == hex_of(b@),
{
    hex::encode(b)
}

/// A fresh random eight-byte entropy seed.
pub fn get_random_seed() -> (r: Hash8) {
    let mut h: Hash8 = [0u8; OUT_SIZE];
    let mut i: usize = 0;
    while i < OUT_SIZE
        invariant
            i <= OUT_SIZE,
        decreases OUT_SIZE - i,
    {
        h[i] = random_byte();
        i = i + 1;
    }
    h
}

/// Counter value `i` steps after `entropy`, as eight little-endian bytes.
pub open spec fn candidate(entropy: Seq<u8>, i: int) -> Seq<u8> {
    le_bytes(le_magnitude(entropy) + i, OUT_SIZE as nat)
}

/// The truncated digest of `nonce` followed by `challenge` reaches `target`.
pub open spec fn passes(challenge: Seq<u8>, target: Seq<u8>, nonce: Seq<u8>) -> bool {
    le_magnitude(truncated_digest(nonce + challenge)) >= le_magnitude(target)
}

/// Counts up from `entropy`, hashing each counter value in front of `hash`,
/// until a digest reaches `target`, `max_attempts` values were tried, or the
/// counter would wrap round. Returns the passing nonce, if any, and the
/// number of values tried.
pub fn search_from(
    hash: &InHash,
    target: &Hash8,
    entropy: &Hash8,
    max_attempts: u64,
) -> (r: (Option<Hash8>, u64))
    ensures
        r.1 <= max_attempts,
        le_magnitude(entropy@) + r.1 <= digest_space(),
        forall|i: int|
            0 <= i < r.1 && !(r.0 is Some && i == r.1 - 1) ==> !passes(
                hash@,
                target@,
                #[trigger] candidate(entropy@, i),
            ),
        r.0 matches Some(n) ==> r.1 >= 1 && n@ == candidate(entropy@, r.1 - 1) && passes(
            hash@,
            target@,
            n@,
        ),
        r.0 is None ==> r.1 == max_attempts || le_magnitude(entropy@) + r.1 == digest_space(),
{
    let mut data = get_data(entropy, hash);
    let mut h: Hash8 = [0u8; OUT_SIZE];
    let mut used: u64 = 0;
    proof {
        lemma_magnitude_le_bytes(entropy@);
        assert(data@ =~= candidate(entropy@, 0) + hash@);
    }
    while used < max_attempts
        invariant
            used <= max_attempts,
            0 <= le_magnitude(entropy@),
            le_magnitude(entropy@) + used < digest_space(),
            data@ == candidate(entropy@, used as int) + hash@,
            forall|i: int|
                0 <= i < used ==> !passes(hash@, target@, #[trigger] candidate(entropy@, i)),
        decreases max_attempts - used,
    {
        let ghost before = data@;
        let ghost current = candidate(entropy@, used as int);
        assert(before.subrange(0, OUT_SIZE as int) =~= current);
        proof {
            lemma_le_bytes_magnitude(le_magnitude(entropy@) + used);
            assert(le_magnitude(before) == le_magnitude(current));
        }
        compute_hash(&mut h, &data);
        if greater(&h, target) {
            let nonce = data_to_nonce(&data);
            assert(nonce@ =~= current);
            return (Some(nonce), used + 1);
        }
        let more = next_data(&mut data, OUT_SIZE);
        used = used + 1;
        if !more {
            proof {
                assert(le_magnitude(data@) == 0);
            }
            return (None, used);
        }
        proof {
            lemma_magnitude_le_bytes(data@);
            assert(le_magnitude(before) + 1 < digest_space());
            assert(data@ =~= candidate(entropy@, used as int) + hash@);
        }
    }
    (None, used)
}

/// Searches for a nonce for `hash` at `difficulty`, hashing at most
/// `max_attempts` work buffers. The entropy starts at a random seed and
/// counts up by one after each miss; when the counter wraps round, a new
/// seed is drawn and the search goes on with the attempts left. Returns the
/// hex text of the first nonce that passes, or `None` when the attempts ran
/// out, together with the number of work buffers hashed.
pub fn generate_pow(
    hash: &InHash,
    difficulty: u64,
    max_attempts: u64,
) -> (r: (Option<String>, u64))
    requires
        difficulty >= 1,
    ensures
        r.1 <= max_attempts,
        r.0 matches Some(s) ==> r.1 >= 1 && is_valid_proof(hash@, difficulty as int, s@),
        r.0 is None ==> r.1 == max_attempts,
        max_attempts == 0 ==> r.0 is None,
        difficulty == 1 && max_attempts >= 1 ==> r.0 is Some && r.1 == 1,
{
    let target = get_target(difficulty);
    let mut used: u64 = 0;
    while used < max_attempts
        invariant
            used <= max_attempts,
            le_magnitude(target@) == target_value(difficulty as int),
            difficulty == 1 ==> used == 0,
        decreases max_attempts - used,
    {
        let entropy = get_random_seed();
        let (found, tried) = search_from(hash, &target, &entropy, max_attempts - used);
        proof {
            lemma_magnitude_le_bytes(entropy@);
            if difficulty == 1 {
                let first = candidate(entropy@, 0);
                lemma_difficulty_one_accepts_all(truncated_digest(first + hash@));
                assert(passes(hash@, target@, first));
            }
        }
        match found {
            Some(nonce) => {
                let s = encode_hex(&nonce);
                assert(nonce_accepted(hash@, difficulty as int, nonce@));
                return (Some(s), used + tried);
            },
            None => {
                used = used + tried;
            },
        }
    }
    (None, used)
}

/// Distinct values have distinct hex digits.
proof fn lemma_hex_digit_injective(x: int, y: int)
    requires
        0 <= x < 16,
        0 <= y < 16,
        hex_digits()[x] == hex_digits()[y],
    ensures
        x == y,
{
}

/// Hex text determines the bytes it was made from.
proof fn lemma_hex_injective(a: Seq<u8>, b: Seq<u8>)
    requires
        a.len() == b.len(),
        hex_of(a) == hex_of(b),
    ensures
        a == b,
{
    assert forall|i: int| 0 <= i < a.len() implies a[i] == b[i] by {
        assert((2 * i) % 2 == 0 && (2 * i) / 2 == i);
        assert((2 * i + 1) % 2 == 1 && (2 * i + 1) / 2 == i);
        assert(hex_of(a)[2 * i] == hex_digits()[a[i] as int / 16]);
        assert(hex_of(b)[2 * i] == hex_digits()[b[i] as int / 16]);
        assert(hex_of(a)[2 * i + 1] == hex_digits()[a[i] as int % 16]);
        assert(hex_of(b)[2 * i + 1] == hex_digits()[b[i] as int % 16]);
        lemma_hex_digit_injective(a[i] as int / 16, b[i] as int / 16);
        lemma_hex_digit_injective(a[i] as int % 16, b[i] as int % 16);
    }
    assert(a =~= b);
}

/// Round trip: decoding the hex text of a proof that `generate_pow`
/// returned, putting the nonce in front of the challenge, hashing the
/// buffer and comparing the truncated digest with the difficulty's target
/// accepts it.
pub proof fn lemma_round_trip(
    challenge: Seq<u8>,
    difficulty: int,
    text: Seq<char>,
    decoded: Seq<u8>,
)
    requires
        is_valid_proof(challenge, difficulty, text),
        decoded.len() == OUT_SIZE,
        hex_of(decoded) == text,
    ensures
        le_magnitude(truncated_digest(decoded + challenge)) >= target_value(difficulty),
{
    let nonce = choose|nonce: Seq<u8>|
        nonce.len() == OUT_SIZE && text == hex_of(nonce) && nonce_accepted(
            challenge,
            difficulty,
            nonce,
        );
    lemma_hex_injective(nonce, decoded);
}

/// Under difficulty one the target is zero, so every digest passes.
pub proof fn lemma_difficulty_one_accepts_all(digest: Seq<u8>)
    requires
        digest.len() == OUT_SIZE,
    ensures
        le_magnitude(digest) >= target_value(1),
{
    assert(digest_space() / 1 == digest_space()) by (nonlinear_arith);
}

} // verus!
