use pow_search::{
    compute_hash, data_to_nonce, generate_pow, get_data, get_random_seed, get_target, greater,
    next_data, search_from, Data, Hash8, InHash, DATA_SIZE, IN_SIZE, OUT_SIZE,
};
use rand::Rng;
use sha3::{Digest, Sha3_256};
use std::time::Instant;

fn verify_nonce(challenge: &InHash, difficulty: u64, proof: &str) -> bool {
    let bytes = hex::decode(proof).expect("proof is hex");
    let nonce: Hash8 = bytes.try_into().expect("proof holds eight bytes");
    let data = get_data(&nonce, challenge);
    let mut digest: Hash8 = [0; OUT_SIZE];
    compute_hash(&mut digest, &data);
    greater(&digest, &get_target(difficulty))
}

#[test]
fn test_hash_workflow() {
    let in_hash: InHash = [0; IN_SIZE].map(|_| -> u8 { rand::thread_rng().gen() });
    let _target = get_target(3);
    let entropy = get_random_seed();

    let data = get_data(&entropy, &in_hash);
    assert_eq!(data.len(), DATA_SIZE);

    let mut hash: Hash8 = [0; OUT_SIZE];
    compute_hash(&mut hash, &data);
    println!("{:?}", &hash);

    let _nonce = data_to_nonce(&data);
}

#[test]
fn test_utils() {
    let mut next_data_test = [
        255, 255, 255, 0, 0, 0, 0, 0, 0, 0, 0, 0, 0, 0, 0, 0, 0, 0, 0, 0, 0, 0, 0, 0, 0, 0, 0, 0,
        0, 0, 0, 0, 0, 0, 0, 0, 0, 0, 0, 0,
    ];
    let mut next_data_test2 = [
        255, 255, 255, 255, 255, 255, 255, 255, 0, 0, 0, 0, 0, 0, 0, 0, 0, 0, 0, 0, 0, 0, 0, 0, 0,
        0, 0, 0, 0, 0, 0, 0, 0, 0, 0, 0, 0, 0, 0, 0,
    ];

    assert!(next_data(&mut next_data_test, 8));
    assert!(!next_data(&mut next_data_test2, 8));

    assert!(greater(&[0, 0, 0, 0, 0, 0, 0, 2], &[9, 0, 0, 0, 0, 0, 0, 1]));
}

#[test]
fn test_generate_pow() {
    let in_hash: InHash = [0; IN_SIZE].map(|_| -> u8 { rand::thread_rng().gen() });

    for i in 0..10 {
        let start = Instant::now();
        let x = generate_pow(&in_hash, 1 << i, u64::MAX).0.expect("a proof is found");
        let duration = start.elapsed();
        println!("Round number: {} - {} // Time: {}ns", i, &x, duration.as_nanos());
    }
}

#[test]
fn target_of_difficulty_one_is_zero() {
    assert_eq!(get_target(1), [0; OUT_SIZE]);
}

#[test]
fn target_values() {
    assert_eq!(get_target(2), [0, 0, 0, 0, 0, 0, 0, 0x80]);
    assert_eq!(u64::from_le_bytes(get_target(3)), 0xAAAA_AAAA_AAAA_AAAB);
    assert_eq!(u64::from_le_bytes(get_target(4)), 0xC000_0000_0000_0000);
    assert_eq!(u64::from_le_bytes(get_target(u64::MAX)), u64::MAX);
    assert_eq!(u64::from_le_bytes(get_target(1 << 63)), u64::MAX - 1);
}

#[test]
fn target_never_decreases_with_difficulty() {
    let mut previous = 0u64;
    let mut d: u64 = 1;
    while d <= 1 << 20 {
        let t = u64::from_le_bytes(get_target(d));
        assert!(t >= previous, "difficulty {}", d);
        previous = t;
        d += if d < 4096 { 1 } else { 97 };
    }
    assert!(u64::from_le_bytes(get_target(1 << 20)) >= previous);
}

#[test]
fn ties_are_accepted() {
    let values: [Hash8; 3] = [[0; 8], [255; 8], [1, 2, 3, 4, 5, 6, 7, 8]];
    for x in values.iter() {
        assert!(greater(x, x));
    }
}

#[test]
fn high_byte_dominates_low_bytes() {
    assert!(greater(&[2, 0, 0, 0, 0, 0, 0, 1], &[255, 255, 255, 255, 255, 255, 255, 0]));
    assert!(!greater(&[255, 255, 255, 255, 255, 255, 255, 0], &[2, 0, 0, 0, 0, 0, 0, 1]));
    assert!(!greater(&[2, 0, 0, 0, 0, 0, 0, 0], &[3, 0, 0, 0, 0, 0, 0, 0]));
    assert!(greater(&[0, 0, 0, 0, 0, 0, 0, 2], &[9, 0, 0, 0, 0, 0, 0, 1]));
}

#[test]
fn counter_wraps_when_exhausted() {
    let mut data: Data = [255; DATA_SIZE];
    assert!(!next_data(&mut data, 8));
    assert_eq!(&data[..8], &[0; 8]);
    assert_eq!(&data[8..], &[255; 32]);
}

#[test]
fn counter_carries_and_leaves_tail_alone() {
    let mut data: Data = [0; DATA_SIZE];
    data[0] = 255;
    data[1] = 255;
    data[2] = 7;
    data[3] = 255;
    assert!(next_data(&mut data, 3));
    assert_eq!(&data[..4], &[0, 0, 8, 255]);

    let mut short: Data = [0; DATA_SIZE];
    short[0] = 255;
    short[1] = 255;
    assert!(!next_data(&mut short, 2));
    assert_eq!(&short[..3], &[0, 0, 0]);

    let mut plain: Data = [0; DATA_SIZE];
    assert!(next_data(&mut plain, 8));
    assert_eq!(u64::from_le_bytes(data_to_nonce(&plain)), 1);
}

#[test]
fn work_buffer_layout() {
    let entropy: Hash8 = [1, 2, 3, 4, 5, 6, 7, 8];
    let mut challenge: InHash = [0; IN_SIZE];
    for (i, b) in challenge.iter_mut().enumerate() {
        *b = 100 + i as u8;
    }
    let data = get_data(&entropy, &challenge);
    assert_eq!(&data[..8], &entropy);
    assert_eq!(&data[8..], &challenge);
    assert_eq!(data_to_nonce(&data), entropy);
}

#[test]
fn digest_is_truncated_sha3() {
    let data = get_data(&[9, 8, 7, 6, 5, 4, 3, 2], &[0xAB; IN_SIZE]);
    let mut digest: Hash8 = [0; OUT_SIZE];
    compute_hash(&mut digest, &data);
    let full = Sha3_256::digest(data);
    assert_eq!(&digest[..], &full[..8]);
    assert_ne!(&digest[..], &data[..8]);
}

#[test]
fn proof_round_trips_through_verifier() {
    let challenge: InHash = [0x5A; IN_SIZE];
    for d in [1u64, 2, 3, 16, 100] {
        let proof = generate_pow(&challenge, d, u64::MAX).0.expect("a proof is found");
        assert_eq!(proof.len(), 16);
        assert!(proof.chars().all(|c| c.is_ascii_hexdigit() && !c.is_ascii_uppercase()));
        assert!(verify_nonce(&challenge, d, &proof));
    }
}

#[test]
fn difficulty_one_succeeds_at_once() {
    let challenge: InHash = [0; IN_SIZE];
    let (found, used) = generate_pow(&challenge, 1, 1);
    assert_eq!(used, 1);
    let proof = found.expect("first attempt passes");
    assert!(verify_nonce(&challenge, 1, &proof));
}

#[test]
fn difficulty_two_succeeds_within_bound() {
    let challenge: InHash = [0; IN_SIZE];
    let (found, used) = generate_pow(&challenge, 2, 10_000);
    assert!(used >= 1 && used <= 10_000);
    let proof = found.expect("a proof within the bound");
    assert!(verify_nonce(&challenge, 2, &proof));
}

#[test]
fn no_attempts_gives_none() {
    assert_eq!(generate_pow(&[0; IN_SIZE], 1, 0), (None, 0));
    assert_eq!(generate_pow(&[0; IN_SIZE], 7, 0), (None, 0));
}

#[test]
fn random_seeds_vary() {
    let first = get_random_seed();
    let differs = (0..8).any(|_| get_random_seed() != first);
    assert!(differs);
}

fn digest_of(nonce: &Hash8, challenge: &InHash) -> Hash8 {
    let mut digest: Hash8 = [0; OUT_SIZE];
    compute_hash(&mut digest, &get_data(nonce, challenge));
    digest
}

#[test]
fn search_from_zero_target_takes_the_seed() {
    let seed: Hash8 = [3, 1, 4, 1, 5, 9, 2, 6];
    assert_eq!(search_from(&[7; IN_SIZE], &[0; OUT_SIZE], &seed, 10), (Some(seed), 1));
}

#[test]
fn search_from_stops_when_counter_wraps() {
    let seed: Hash8 = [255; OUT_SIZE];
    let (found, used) = search_from(&[7; IN_SIZE], &[255; OUT_SIZE], &seed, 10);
    assert_eq!(used, 1);
    assert_eq!(found.is_some(), greater(&digest_of(&seed, &[7; IN_SIZE]), &[255; OUT_SIZE]));
}

#[test]
fn search_from_runs_out_of_attempts() {
    let (found, used) = search_from(&[7; IN_SIZE], &[255; OUT_SIZE], &[0; OUT_SIZE], 3);
    assert_eq!(found, None);
    assert_eq!(used, 3);
}

#[test]
fn search_from_returns_first_passing_counter() {
    let challenge: InHash = [0x11; IN_SIZE];
    let target = get_target(16);
    let seed: Hash8 = [250, 255, 0, 0, 0, 0, 0, 0];
    let (found, used) = search_from(&challenge, &target, &seed, 100_000);
    let nonce = found.expect("a nonce within the bound");
    let start = u64::from_le_bytes(seed);
    assert_eq!(u64::from_le_bytes(nonce), start + used - 1);
    assert!(greater(&digest_of(&nonce, &challenge), &target));
    for i in 0..used - 1 {
        let earlier = (start + i).to_le_bytes();
        assert!(!greater(&digest_of(&earlier, &challenge), &target));
    }
}

#[test]
fn generate_pow_uses_every_attempt_before_giving_up() {
    let (found, used) = generate_pow(&[0x33; IN_SIZE], u64::MAX, 50);
    if found.is_none() {
        assert_eq!(used, 50);
    } else {
        assert!(used >= 1 && used <= 50);
    }
}
