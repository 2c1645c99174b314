use ark_bn254::{Bn254, Fr};
use ark_marlin::Marlin;
use ark_poly::univariate::DensePolynomial;
use ark_poly_commit::marlin_pc::MarlinKZG10;
use ark_relations::r1cs::{
    ConstraintSynthesizer, ConstraintSystemRef, LinearCombination, SynthesisError, Variable,
};
use blake2::Blake2s;
use rand::SeedableRng;
use rand_chacha::ChaCha20Rng;

use matmul_r1cs::capacity::estimate;
use matmul_r1cs::circuit::{shape, synthesize, Circuit, Mode};
use matmul_r1cs::r1cs::{Entry, R1cs};
use matmul_r1cs::witness::generate;

type MultiPc = MarlinKZG10<Bn254, DensePolynomial<Fr>>;
type MarlinInst = Marlin<Fr, MultiPc, Blake2s>;

/// Feeds the library's verified constraint data to the backend unchanged:
/// the same variable order, the same constraint order.
struct Replay {
    sys: R1cs,
}

fn fr_of(v: i64) -> Fr {
    Fr::from(v)
}

fn lc_of(vars: &[Variable], ids: &[usize]) -> LinearCombination<Fr> {
    let mut acc = LinearCombination::<Fr>::zero();
    for &i in ids {
        acc = acc + vars[i];
    }
    acc
}

impl ConstraintSynthesizer<Fr> for Replay {
    fn generate_constraints(self, cs: ConstraintSystemRef<Fr>) -> Result<(), SynthesisError> {
        let mut vars: Vec<Variable> = Vec::new();
        vars.push(cs.new_input_variable(|| Ok(Fr::from(1u64)))?);
        for idx in 1..self.sys.vars.len() {
            let e = self.sys.vars[idx];
            vars.push(cs.new_witness_variable(move || match e {
                Entry::Assigned(v) => Ok(fr_of(v)),
                Entry::Unassigned => Err(SynthesisError::AssignmentMissing),
            })?);
        }
        for con in &self.sys.constraints {
            cs.enforce_constraint(
                lc_of(&vars, &con.left),
                lc_of(&vars, &con.right),
                lc_of(&vars, &con.output),
            )?;
        }
        Ok(())
    }
}

fn setup_and_index(n: usize) {
    let mut rng = ChaCha20Rng::seed_from_u64(1234);
    let cap = estimate(n);
    let srs = MarlinInst::universal_setup(
        cap.max_constraints,
        cap.max_variables,
        cap.max_non_zeros,
        &mut rng,
    )
    .expect("universal setup must fit the estimated bounds");
    let sys = synthesize(&shape(n), Mode::ShapeOnly).expect("shape synthesis");
    MarlinInst::index(&srs, Replay { sys }).expect("indexing must fit the estimated bounds");
}

#[test]
fn estimates_fit_n1() {
    setup_and_index(1);
}

#[test]
fn estimates_fit_n2() {
    setup_and_index(2);
}

#[test]
fn estimates_fit_n4() {
    setup_and_index(4);
}

#[test]
fn estimates_fit_n8() {
    setup_and_index(8);
}

#[test]
fn estimates_fit_n16() {
    setup_and_index(16);
}

fn run_pipeline(n: usize, seed: u64) -> bool {
    let mut rng = ChaCha20Rng::seed_from_u64(seed);
    let cap = estimate(n);
    let srs = MarlinInst::universal_setup(
        cap.max_constraints,
        cap.max_variables,
        cap.max_non_zeros,
        &mut rng,
    )
    .expect("setup");
    let shape_sys = synthesize(&shape(n), Mode::ShapeOnly).expect("shape synthesis");
    let (pk, vk) = MarlinInst::index(&srs, Replay { sys: shape_sys }).expect("index");
    let (a, b, c) = generate(n, &mut rng);
    let cir = Circuit { n, a, b, c };
    let sys = synthesize(&cir, Mode::NeedsAssignment).expect("witness synthesis");
    let proof = MarlinInst::prove(&pk, Replay { sys }, &mut rng).expect("prove");
    MarlinInst::verify(&vk, &[Fr::from(1u64)], &proof, &mut rng).expect("verify")
}

#[test]
fn pipeline_verifies_and_is_deterministic() {
    assert!(run_pipeline(2, 99));
    assert!(run_pipeline(2, 99));
}

#[test]
fn verify_rejects_wrong_public_input_and_corrupted_proof() {
    let n = 2usize;
    let mut rng = ChaCha20Rng::seed_from_u64(5);
    let cap = estimate(n);
    let srs = MarlinInst::universal_setup(
        cap.max_constraints,
        cap.max_variables,
        cap.max_non_zeros,
        &mut rng,
    )
    .expect("setup");
    let shape_sys = synthesize(&shape(n), Mode::ShapeOnly).expect("shape synthesis");
    let (pk, vk) = MarlinInst::index(&srs, Replay { sys: shape_sys }).expect("index");
    let (a, b, c) = generate(n, &mut rng);
    let cir = Circuit { n, a, b, c };
    let sys = synthesize(&cir, Mode::NeedsAssignment).expect("witness synthesis");
    let proof = MarlinInst::prove(&pk, Replay { sys }, &mut rng).expect("prove");

    assert!(MarlinInst::verify(&vk, &[Fr::from(1u64)], &proof, &mut rng).expect("verify"));

    // A wrong public input is rejected, not an error.
    let wrong = MarlinInst::verify(&vk, &[Fr::from(2u64)], &proof, &mut rng).expect("verify");
    assert!(!wrong);

    // Corrupting the proof makes the verifier answer `false`.
    let mut bad = proof;
    bad.evaluations[0] += Fr::from(1u64);
    let rejected = MarlinInst::verify(&vk, &[Fr::from(1u64)], &bad, &mut rng).expect("verify");
    assert!(!rejected);
}
