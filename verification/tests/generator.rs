use matmul_r1cs::circuit::{shape, synthesize, Circuit, Mode};
use matmul_r1cs::errors::Failure;
use matmul_r1cs::r1cs::{check_satisfied, Entry};
use matmul_r1cs::laws::circuit_obeys_relation;
use matmul_r1cs::witness::row_row_product;

fn assigned(values: &[i64]) -> Vec<Entry> {
    values.iter().map(|&v| Entry::Assigned(v)).collect()
}

#[test]
fn shape_only_counts() {
    for n in 1usize..=3 {
        let sys = synthesize(&shape(n), Mode::ShapeOnly).unwrap();
        assert_eq!(sys.num_public, 1);
        assert_eq!(sys.vars.len(), 1 + 3 * n * n + n * n * n);
        assert_eq!(sys.constraints.len(), n * n * n + n * n);
        assert_eq!(sys.vars[0], Entry::Assigned(1));
        for v in sys.vars.iter().skip(1) {
            assert_eq!(*v, Entry::Unassigned);
        }
    }
}

#[test]
fn witness_counts_and_public_one() {
    let a = assigned(&[1, 2, 3, 4]);
    let b = assigned(&[5, 6, 7, 8]);
    let c = row_row_product(2, &a, &b).unwrap();
    let cir = Circuit { n: 2, a, b, c };
    let sys = synthesize(&cir, Mode::NeedsAssignment).unwrap();
    assert_eq!(sys.num_public, 1);
    assert_eq!(sys.vars.len(), 1 + 3 * 4 + 8);
    assert_eq!(sys.constraints.len(), 8 + 4);
    assert_eq!(sys.vars[0], Entry::Assigned(1));
}

#[test]
fn layout_is_pinned_for_n2() {
    let sys = synthesize(&shape(2), Mode::ShapeOnly).unwrap();
    // Multiplication constraint 0: A[0] * B[0] = mult[0].
    assert_eq!(sys.constraints[0].left, vec![1]);
    assert_eq!(sys.constraints[0].right, vec![5]);
    assert_eq!(sys.constraints[0].output, vec![13]);
    // Multiplication constraint 1: triple (0, 0, 1): A[1] * B[1] = mult[1].
    assert_eq!(sys.constraints[1].left, vec![2]);
    assert_eq!(sys.constraints[1].right, vec![6]);
    assert_eq!(sys.constraints[1].output, vec![14]);
    // First summation constraint: (mult[0] + mult[1]) * one = C[0].
    assert_eq!(sys.constraints[8].left, vec![13, 14]);
    assert_eq!(sys.constraints[8].right, vec![0]);
    assert_eq!(sys.constraints[8].output, vec![9]);
    // Last summation constraint: C[3] at variable 1 + 2*4 + 3 = 12.
    assert_eq!(sys.constraints[11].left, vec![19, 20]);
    assert_eq!(sys.constraints[11].right, vec![0]);
    assert_eq!(sys.constraints[11].output, vec![12]);
}

#[test]
fn scenario_n2_row_row_contraction() {
    // A = [[1,2],[3,4]], B = [[5,6],[7,8]]: the row/row contraction gives
    // C = [[17, 23], [39, 53]], not the conventional product.
    let a = assigned(&[1, 2, 3, 4]);
    let b = assigned(&[5, 6, 7, 8]);
    let c = row_row_product(2, &a, &b).unwrap();
    assert_eq!(c, assigned(&[17, 23, 39, 53]));

    let cir = Circuit { n: 2, a: a.clone(), b: b.clone(), c };
    let sys = synthesize(&cir, Mode::NeedsAssignment).unwrap();
    assert!(check_satisfied(&sys));
}

#[test]
fn scenario_n2_rejects_wrong_output() {
    let a = assigned(&[1, 2, 3, 4]);
    let b = assigned(&[5, 6, 7, 8]);
    let wrong = assigned(&[18, 23, 39, 53]);
    let cir = Circuit { n: 2, a, b, c: wrong };
    let sys = synthesize(&cir, Mode::NeedsAssignment).unwrap();
    assert!(!check_satisfied(&sys));
}

#[test]
fn mutating_any_single_output_entry_unsatisfies() {
    let a = assigned(&[1, 2, 3, 4]);
    let b = assigned(&[5, 6, 7, 8]);
    let c = row_row_product(2, &a, &b).unwrap();
    for p in 0..4 {
        let mut bad = c.clone();
        bad[p] = match bad[p] {
            Entry::Assigned(v) => Entry::Assigned(v + 1),
            Entry::Unassigned => unreachable!(),
        };
        let cir = Circuit { n: 2, a: a.clone(), b: b.clone(), c: bad };
        let sys = synthesize(&cir, Mode::NeedsAssignment).unwrap();
        assert!(!check_satisfied(&sys));
    }
}

#[test]
fn circuit_obeys_relation_decides_the_contraction() {
    let a = assigned(&[1, 2, 3, 4]);
    let b = assigned(&[5, 6, 7, 8]);
    let good = Circuit {
        n: 2,
        a: a.clone(),
        b: b.clone(),
        c: assigned(&[17, 23, 39, 53]),
    };
    assert_eq!(circuit_obeys_relation(&good), Ok(true));
    let bad = Circuit { n: 2, a, b, c: assigned(&[17, 23, 39, 54]) };
    assert_eq!(circuit_obeys_relation(&bad), Ok(false));
    let short = Circuit {
        n: 2,
        a: assigned(&[1]),
        b: assigned(&[1, 2, 3, 4]),
        c: assigned(&[0, 0, 0, 0]),
    };
    assert_eq!(circuit_obeys_relation(&short), Err(Failure::DimensionMismatch));
}

#[test]
fn dimension_mismatch_is_an_error_not_a_panic() {
    let cir = Circuit {
        n: 2,
        a: assigned(&[1, 2, 3]),
        b: assigned(&[5, 6, 7, 8]),
        c: assigned(&[0, 0, 0, 0]),
    };
    assert_eq!(synthesize(&cir, Mode::ShapeOnly), Err(Failure::DimensionMismatch));
    assert_eq!(synthesize(&cir, Mode::NeedsAssignment), Err(Failure::DimensionMismatch));

    let zero = Circuit { n: 0, a: vec![], b: vec![], c: vec![] };
    assert_eq!(synthesize(&zero, Mode::ShapeOnly), Err(Failure::DimensionMismatch));

    assert_eq!(
        row_row_product(2, &assigned(&[1, 2, 3]), &assigned(&[5, 6, 7, 8])),
        Err(Failure::DimensionMismatch)
    );
}

#[test]
fn missing_witness_only_on_the_proving_path() {
    let mut a = assigned(&[1, 2, 3, 4]);
    a[2] = Entry::Unassigned;
    let cir = Circuit {
        n: 2,
        a,
        b: assigned(&[5, 6, 7, 8]),
        c: assigned(&[17, 23, 39, 53]),
    };
    assert_eq!(synthesize(&cir, Mode::NeedsAssignment), Err(Failure::MissingWitness));
    let sys = synthesize(&cir, Mode::ShapeOnly).unwrap();
    assert_eq!(sys.vars.len(), 1 + 3 * 4 + 8);
}
