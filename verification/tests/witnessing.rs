use rand::SeedableRng;
use rand_chacha::ChaCha20Rng;

use matmul_r1cs::cli::parse_n;
use matmul_r1cs::errors::{exit_code, Failure};
use matmul_r1cs::r1cs::Entry;
use matmul_r1cs::witness::generate;
use matmul_r1cs::MAX_N;

fn value(e: Entry) -> i64 {
    match e {
        Entry::Assigned(v) => v,
        Entry::Unassigned => panic!("expected an assigned entry"),
    }
}

#[test]
fn generate_is_deterministic_for_a_fixed_seed() {
    let mut rng1 = ChaCha20Rng::seed_from_u64(7);
    let mut rng2 = ChaCha20Rng::seed_from_u64(7);
    let w1 = generate(4, &mut rng1);
    let w2 = generate(4, &mut rng2);
    assert_eq!(w1, w2);

    let mut rng3 = ChaCha20Rng::seed_from_u64(8);
    let w3 = generate(4, &mut rng3);
    assert_ne!(w1, w3);
}

#[test]
fn generate_samples_within_range_and_sizes() {
    let mut rng = ChaCha20Rng::seed_from_u64(1);
    let (a, b, c) = generate(5, &mut rng);
    assert_eq!(a.len(), 25);
    assert_eq!(b.len(), 25);
    assert_eq!(c.len(), 25);
    for e in a.iter().chain(b.iter()) {
        let v = value(*e);
        assert!((-100..100).contains(&v));
    }
}

#[test]
fn generate_satisfies_the_row_row_contraction() {
    let mut rng = ChaCha20Rng::seed_from_u64(3);
    let n = 3usize;
    let (a, b, c) = generate(n, &mut rng);
    for i in 0..n {
        for j in 0..n {
            let mut expect = 0i64;
            for k in 0..n {
                expect += value(a[i * n + k]) * value(b[j * n + k]);
            }
            assert_eq!(value(c[i * n + j]), expect);
        }
    }
}

#[test]
fn parse_n_accepts_decimal_side_lengths() {
    assert_eq!(parse_n(&b"16".to_vec()), Ok(16));
    assert_eq!(parse_n(&b"1".to_vec()), Ok(1));
    assert_eq!(parse_n(&b"007".to_vec()), Ok(7));
    assert_eq!(parse_n(&b"512".to_vec()), Ok(512));
    assert_eq!(MAX_N, 512);
}

#[test]
fn parse_n_rejects_everything_else() {
    assert_eq!(parse_n(&b"".to_vec()), Err(Failure::BadArguments));
    assert_eq!(parse_n(&b"12a".to_vec()), Err(Failure::BadArguments));
    assert_eq!(parse_n(&b"-4".to_vec()), Err(Failure::BadArguments));
    assert_eq!(parse_n(&b"0".to_vec()), Err(Failure::BadArguments));
    assert_eq!(parse_n(&b"513".to_vec()), Err(Failure::BadArguments));
    assert_eq!(parse_n(&b"99999999999999999999".to_vec()), Err(Failure::BadArguments));
    assert_eq!(parse_n(&b" 16".to_vec()), Err(Failure::BadArguments));
}

#[test]
fn exit_codes_are_distinct_and_non_zero() {
    let all = [
        Failure::BadArguments,
        Failure::DimensionMismatch,
        Failure::MissingWitness,
        Failure::SetupFailure,
        Failure::IndexFailure,
        Failure::ProveFailure,
        Failure::VerifyRejected,
    ];
    let mut codes: Vec<u8> = all.iter().map(|f| exit_code(*f)).collect();
    for c in &codes {
        assert_ne!(*c, 0);
    }
    codes.sort();
    codes.dedup();
    assert_eq!(codes.len(), all.len());
}
