use matmul_r1cs::indexing::{decode, encode};

#[test]
fn encode_matches_formula() {
    assert_eq!(encode(3, 2, 1, 0), 2 * 9 + 1 * 3 + 0);
    assert_eq!(encode(1, 0, 0, 0), 0);
    assert_eq!(encode(2, 1, 1, 1), 7);
    assert_eq!(encode(16, 15, 15, 15), 16 * 16 * 16 - 1);
}

#[test]
fn decode_matches_formula() {
    assert_eq!(decode(3, 21), (2, 1, 0));
    assert_eq!(decode(2, 7), (1, 1, 1));
    assert_eq!(decode(5, 0), (0, 0, 0));
}

#[test]
fn encode_decode_round_trip_exhaustive_small() {
    for n in 1usize..=5 {
        for i in 0..n {
            for j in 0..n {
                for k in 0..n {
                    let idx = encode(n, i, j, k);
                    assert!(idx < n * n * n);
                    assert_eq!(decode(n, idx), (i, j, k));
                }
            }
        }
        for idx in 0..n * n * n {
            let (i, j, k) = decode(n, idx);
            assert_eq!(encode(n, i, j, k), idx);
        }
    }
}
