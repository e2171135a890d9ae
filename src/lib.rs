//! Client-side proof-of-work search: derive a target from a difficulty, hash
//! an eight-byte entropy counter together with a 32-byte challenge, and count
//! up until the truncated digest reaches the target.

mod buffer;
mod digest;
mod model;
mod search;
mod target;

pub use model::{
    digest_space, le_byte, le_bytes, le_magnitude, lemma_le_bytes_magnitude,
    lemma_magnitude_le_bytes, shift_bytes, target_value, Data, Hash8, InHash, DATA_SIZE, IN_SIZE,
    OUT_SIZE,
};
pub use buffer::{data_to_nonce, get_data, next_data};
pub use digest::{compute_hash, sha3_256, truncated_digest};
pub use search::{
    candidate, generate_pow, get_random_seed, hex_digits, hex_of, is_valid_proof,
    lemma_difficulty_one_accepts_all, lemma_round_trip, nonce_accepted, passes, search_from,
};
pub use target::{get_target, greater, lemma_target_monotone};
