//! Commitments, proofs and refusals of the WHIR provers and verifiers.
use rand::rngs::StdRng;
use rand::{Rng, SeedableRng};
use zkm_pcs::ext::Ext;
use zkm_pcs::felt::Felt;
use zkm_pcs::merkle::Digest;
use zkm_pcs::multilinear::{eval_at, lift_felts};
use zkm_pcs::transcript::Transcript;
use zkm_pcs::whir::config::{RoundConfig, WhirConfig};
use zkm_pcs::whir::engine::WhirRound0Engine;
use zkm_pcs::whir::flat::coset_stir_value;
use zkm_pcs::whir::fold::prove_fold;
use zkm_pcs::whir::interleaved::{WhirInterleavedVerifier, WhirProver};
use zkm_pcs::whir::messages::{WhirProof, WhirVerifierError};
use zkm_pcs::whir::resident::ResidentEngine;
use zkm_pcs::whir::schedule::{core_whir_config, whir_config_for_fold_schedule, whir_config_for_stack};
use zkm_pcs::whir::stacked::{StackedWhirProver, StackedWhirProverData, StackedWhirVerifier};
use zkm_pcs::whir::sumcheck::{eq_table, fold_in_place, WhirFolder};
use zkm_pcs::whir::tower::WhirVerifier;

fn felt(r: &mut StdRng) -> Felt {
    Felt::new(r.gen::<u32>() & 0x3FFF_FFFF)
}

fn ef(r: &mut StdRng) -> Ext {
    Ext { c0: felt(r), c1: felt(r), c2: felt(r), c3: felt(r) }
}

fn felts(r: &mut StdRng, n: usize) -> Vec<Felt> {
    (0..n).map(|_| felt(r)).collect()
}

fn point(r: &mut StdRng, n: usize) -> Vec<Ext> {
    (0..n).map(|_| ef(r)).collect()
}

fn round(ff: usize, ood: usize, rate: usize) -> RoundConfig {
    RoundConfig {
        folding_factor: ff,
        evaluation_domain_log_size: 0,
        queries_pow_bits: 1,
        pow_bits: vec![1; ff],
        num_queries: 3,
        ood_samples: ood,
        log_inv_rate: rate,
    }
}

/// Six variables in folds of three and two, one left.
fn config(starting_ood: usize) -> WhirConfig {
    WhirConfig {
        starting_ood_samples: starting_ood,
        starting_log_inv_rate: 1,
        round_parameters: vec![round(3, 1, 2), round(2, 1, 3)],
        final_poly_log_degree: 1,
        final_queries: 2,
        final_pow_bits: 1,
    }
}

fn transcript(seed: u32) -> Transcript {
    let mut t = Transcript::new();
    t.observe(Felt::new(seed));
    t
}

struct Interleaved {
    proof: WhirProof,
    root: Digest,
    points: Vec<Vec<Ext>>,
    answers: Vec<Ext>,
    at: Vec<Ext>,
    eval: Ext,
}

fn interleaved(shift: Ext) -> Interleaved {
    let mut rng = StdRng::seed_from_u64(7);
    let values = felts(&mut rng, 64);
    let at = point(&mut rng, 6);
    let eval = eval_at(&lift_felts(&values), &at).plus(shift);
    let prover = WhirProver::new(config(1));
    let (root, points, answers) = prover.commit_interleaved_public(&mut transcript(5), &values);
    let proof = prover.prove_interleaved(&mut transcript(5), &values, &at, eval).unwrap();
    Interleaved { proof, root, points, answers, at, eval }
}

impl Interleaved {
    fn verify(&self, seed: u32) -> Result<(), WhirVerifierError> {
        let v = WhirInterleavedVerifier::new(
            config(1),
            self.root,
            self.points.clone(),
            self.answers.clone(),
        );
        v.verify(&mut transcript(seed), &self.at, self.eval, &self.proof)
    }
}

#[test]
fn interleaved_proofs_of_true_values_are_accepted() {
    assert!(interleaved(Ext::zero()).verify(5).is_ok());
}

#[test]
fn interleaved_proofs_of_false_values_are_refused() {
    let p = interleaved(Ext::one());
    assert!(matches!(p.verify(5), Err(WhirVerifierError::TerminalMismatch)));
}

#[test]
fn a_different_transcript_is_noticed_at_the_first_sample() {
    let p = interleaved(Ext::zero());
    assert!(matches!(p.verify(6), Err(WhirVerifierError::OodPointMismatch { round: 0, sample: 0 })));
}

#[test]
fn a_tampered_message_is_refused() {
    let mut p = interleaved(Ext::zero());
    let first = &mut p.proof.round_sumcheck_polys[0][0].0;
    first[0] = first[0].plus(Ext::one());
    assert!(matches!(p.verify(5), Err(WhirVerifierError::SumcheckMismatch { round: 0, var: 0 })));
}

#[test]
fn a_tampered_final_polynomial_is_refused() {
    let mut p = interleaved(Ext::zero());
    p.proof.final_poly[0] = p.proof.final_poly[0].plus(Ext::one());
    assert!(p.verify(5).is_err());
    p.proof.final_poly.push(Ext::zero());
    assert!(matches!(p.verify(5), Err(WhirVerifierError::IncorrectShape(_))));
}

/// Leaves nothing of a proof but the revealed polynomial and the messages of the last round.
fn stripped(p: &mut WhirProof) {
    p.round_sumcheck_polys.clear();
    p.round_ood_answers.clear();
    p.round_commitments.clear();
    p.round_query_openings.clear();
    p.folding_pow.clear();
}

#[test]
fn what_follows_a_refusal_is_not_looked_up() {
    let mut p = interleaved(Ext::zero());
    stripped(&mut p.proof);
    assert!(matches!(p.verify(6), Err(WhirVerifierError::OodPointMismatch { round: 0, sample: 0 })));
    p.proof.final_poly.push(Ext::zero());
    assert!(matches!(p.verify(5), Err(WhirVerifierError::IncorrectShape(_))));
    let mut p = interleaved(Ext::zero());
    p.proof.round_commitments.clear();
    p.proof.round_query_openings.clear();
    p.proof.folding_pow.clear();
    let first = &mut p.proof.round_sumcheck_polys[0][0].0;
    first[0] = first[0].plus(Ext::one());
    assert!(matches!(p.verify(5), Err(WhirVerifierError::SumcheckMismatch { round: 0, var: 0 })));
    // The carried points are compared in turn.
    let mut p = interleaved(Ext::zero());
    p.points[0][0] = p.points[0][0].plus(Ext::one());
    p.answers.push(Ext::zero());
    assert!(matches!(p.verify(5), Err(WhirVerifierError::OodPointMismatch { round: 0, sample: 0 })));
}

#[test]
fn what_follows_a_refusal_of_a_stack_is_not_looked_up() {
    let s = stack();
    let data = vec![&s.first, &s.second];
    let mut proof = s.prover.prove_trusted_evaluation(&s.at, &data, &mut transcript(8)).unwrap();
    stripped(&mut proof.whir_proof);
    let v = StackedWhirVerifier::new(config(0), 6);
    let roots = vec![s.first.commitment, s.second.commitment];
    match v.verify_trusted_evaluation(&roots, &vec![1, 1], &s.at, &proof, &mut transcript(8)) {
        Err(WhirVerifierError::IncorrectShape(m)) => assert_eq!(m, "stripe count"),
        _ => panic!("accepted"),
    }
    proof.whir_proof.final_poly.push(Ext::zero());
    match v.verify_trusted_evaluation(&roots, &vec![2, 1], &s.at, &proof, &mut transcript(8)) {
        Err(WhirVerifierError::IncorrectShape(m)) => assert_eq!(m, "final_poly"),
        _ => panic!("accepted"),
    }
}

#[test]
fn a_tampered_leaf_or_path_is_refused() {
    let mut p = interleaved(Ext::zero());
    let leaf = &mut p.proof.round_query_openings[0].leaves[0].values[0];
    leaf[0] = leaf[0].plus(Felt::one());
    assert!(matches!(p.verify(5), Err(WhirVerifierError::IncorrectShape(_))));
    let mut q = interleaved(Ext::zero());
    let path = &mut q.proof.round_query_openings[0].leaves[0].path;
    path[0][0] = path[0][0].plus(Felt::one());
    assert!(matches!(q.verify(5), Err(WhirVerifierError::IncorrectShape(_))));
}

#[test]
fn a_missing_proof_of_work_is_refused() {
    let mut seen = false;
    for k in 0..16u32 {
        let mut p = interleaved(Ext::zero());
        p.proof.folding_pow[0].0 = p.proof.folding_pow[0].0.plus(Felt::new(k));
        if matches!(p.verify(5), Err(WhirVerifierError::PowMismatch { round: 0, var: 0 })) {
            seen = true;
        }
    }
    assert!(seen);
}

#[test]
fn tower_proofs_are_accepted_and_bound_to_the_value() {
    let mut rng = StdRng::seed_from_u64(11);
    let values = felts(&mut rng, 64);
    let at = point(&mut rng, 6);
    let eval = eval_at(&lift_felts(&values), &at);
    let prover = WhirProver::new(config(2));
    let proof = prover.prove_rounds(&mut transcript(9), &values, &at, eval).unwrap();
    assert_eq!(proof.starting.ood_answers.len(), 2);
    for (p, a) in proof.starting.ood_points.iter().zip(&proof.starting.ood_answers) {
        assert_eq!(eval_at(&lift_felts(&values), p), *a);
    }
    let v = WhirVerifier::new(config(2));
    assert!(v.verify_rounds(&mut transcript(9), &at, eval, &proof).is_ok());
    assert!(v.verify_rounds(&mut transcript(9), &at, eval.plus(Ext::one()), &proof).is_err());
    let mut bad = proof;
    bad.final_poly[1] = bad.final_poly[1].plus(Ext::one());
    assert!(matches!(
        v.verify_rounds(&mut transcript(9), &at, eval, &bad),
        Err(WhirVerifierError::TerminalMismatch)
    ));
    // What follows a refusal is not looked up.
    bad.rounds.clear();
    bad.round_polys.truncate(1);
    assert!(matches!(
        v.verify_rounds(&mut transcript(9), &at, eval.plus(Ext::one()), &bad),
        Err(WhirVerifierError::SumcheckMismatch { round: 0, var: 0 })
    ));
    bad.final_poly.push(Ext::zero());
    bad.round_polys.clear();
    bad.starting.commitment.clear();
    assert!(matches!(
        v.verify_rounds(&mut transcript(9), &at, eval, &bad),
        Err(WhirVerifierError::IncorrectShape(_))
    ));
}

#[test]
fn committing_alone_gives_the_root_of_the_proof() {
    let mut rng = StdRng::seed_from_u64(12);
    let values = felts(&mut rng, 64);
    let at = point(&mut rng, 6);
    let prover = WhirProver::new(config(1));
    let c = prover.commit_with_ood(&mut transcript(4), &values);
    let eval = eval_at(&lift_felts(&values), &at);
    let p = prover.prove_rounds(&mut transcript(4), &values, &at, eval).unwrap();
    assert_eq!(c.parsed.commitment, p.starting.commitment);
    assert_eq!(c.parsed.ood_answers, p.starting.ood_answers);
}

#[test]
fn flat_proofs_have_the_shape_of_the_schedule() {
    let mut rng = StdRng::seed_from_u64(13);
    let values = felts(&mut rng, 64);
    let at = point(&mut rng, 6);
    let eval = eval_at(&lift_felts(&values), &at);
    let prover = WhirProver::new(config(1));
    let p = prover.prove(&mut transcript(2), &values, &at, eval).unwrap();
    assert_eq!(p.round_commitments.len(), 1);
    assert_eq!(p.round_sumcheck_polys[0].len(), 3);
    assert_eq!(p.final_sumcheck_polys.len(), 2);
    assert_eq!(p.round_query_openings.len(), 2);
    assert_eq!(p.round_query_openings[0].leaves.len(), 3);
    assert_eq!(p.round_query_openings[1].leaves.len(), 2);
    assert_eq!(p.final_poly.len(), 2);
    let first = &p.round_sumcheck_polys[0][0].0;
    let same = prover.prove_interleaved(&mut transcript(2), &values, &at, eval).unwrap();
    assert_eq!(first.len(), same.round_sumcheck_polys[0][0].0.len());
}

#[test]
fn a_coset_value_is_the_leaf_at_the_fold_point() {
    let leaf = vec![Felt::new(3), Felt::new(5)];
    let r = vec![Ext::from_base(Felt::new(10))];
    assert_eq!(coset_stir_value(&leaf, true, &r), Ext::from_base(Felt::new(23)));
}

#[test]
fn folding_everything_reduces_the_claim_to_one_product() {
    let mut rng = StdRng::seed_from_u64(3);
    let values = felts(&mut rng, 16);
    let at = point(&mut rng, 4);
    let ood = vec![point(&mut rng, 4)];
    let f = lift_felts(&values);
    let claim = eval_at(&f, &at);
    let answers = vec![eval_at(&f, &ood[0])];
    let r = prove_fold(&values, &at, &ood, &answers, claim, &mut transcript(1));
    assert_eq!(r.round_polys.len(), 4);
    assert_eq!(r.final_claim, r.folded_f.times(r.folded_weight));
    assert_eq!(r.folded_f, eval_at(&f, &r.folding_randomness));
}

#[test]
fn folding_a_pair_interpolates_it() {
    let mut f = vec![
        Ext::from_base(Felt::new(2)),
        Ext::from_base(Felt::new(5)),
        Ext::from_base(Felt::new(1)),
        Ext::from_base(Felt::new(9)),
    ];
    fold_in_place(&mut f, Ext::from_base(Felt::new(10)));
    assert_eq!(f, vec![Ext::from_base(Felt::new(32)), Ext::from_base(Felt::new(81))]);
}

#[test]
fn the_equality_table_is_one_at_its_own_corner() {
    let zero = Ext::zero();
    let one = Ext::one();
    assert_eq!(eq_table(2, &[one, zero]), vec![zero, one, zero, zero]);
}

#[test]
fn a_folder_batches_what_it_absorbs() {
    let two = Ext::from_base(Felt::new(2));
    let three = Ext::from_base(Felt::new(3));
    let mut folder = WhirFolder {
        f_vec: vec![two, three],
        weight: vec![Ext::zero(), Ext::zero()],
        claimed_sum: Ext::zero(),
    };
    folder.add_ood_constraints(&vec![vec![Ext::one()]], &vec![three], two);
    assert_eq!(folder.claimed_sum, Ext::from_base(Felt::new(6)));
    assert_eq!(folder.weight, vec![Ext::zero(), two]);
    let next = folder.add_monomial_constraints(&vec![vec![three]], &vec![two], two, Ext::one());
    assert_eq!(next, two);
    assert_eq!(folder.claimed_sum, Ext::from_base(Felt::new(8)));
    assert_eq!(folder.weight, vec![Ext::one(), Ext::from_base(Felt::new(5))]);
}

struct Stack {
    prover: StackedWhirProver,
    first: StackedWhirProverData,
    second: StackedWhirProverData,
    at: Vec<Ext>,
}

fn stack() -> Stack {
    let mut rng = StdRng::seed_from_u64(21);
    let prover = StackedWhirProver::new(config(0), 6);
    let first = prover.commit_stripes(vec![felts(&mut rng, 64), felts(&mut rng, 64)]);
    let second = prover.commit_stripes(vec![felts(&mut rng, 64)]);
    let at = point(&mut rng, 6);
    Stack { prover, first, second, at }
}

#[test]
fn stacked_proofs_carry_the_stripes_values_and_are_accepted() {
    let s = stack();
    let data = vec![&s.first, &s.second];
    let proof = s.prover.prove_trusted_evaluation(&s.at, &data, &mut transcript(8)).unwrap();
    assert_eq!(proof.batch_evaluations[0].len(), 2);
    assert_eq!(
        proof.batch_evaluations[0][1],
        eval_at(&lift_felts(&s.first.stripes[1]), &s.at)
    );
    let v = StackedWhirVerifier::new(config(0), 6);
    let roots = vec![s.first.commitment, s.second.commitment];
    let counts = vec![2, 1];
    assert!(v
        .verify_trusted_evaluation(&roots, &counts, &s.at, &proof, &mut transcript(8))
        .is_ok());
    let swapped = vec![s.second.commitment, s.first.commitment];
    assert!(v
        .verify_trusted_evaluation(&swapped, &counts, &s.at, &proof, &mut transcript(8))
        .is_err());
    assert!(matches!(
        v.verify_trusted_evaluation(&roots, &vec![1, 1], &s.at, &proof, &mut transcript(8)),
        Err(WhirVerifierError::IncorrectShape(_))
    ));
    let mut bad = proof;
    bad.batch_evaluations[0][0] = bad.batch_evaluations[0][0].plus(Ext::one());
    assert!(matches!(
        v.verify_trusted_evaluation(&roots, &counts, &s.at, &bad, &mut transcript(8)),
        Err(WhirVerifierError::SumcheckMismatch { round: 0, var: 0 })
    ));
}

#[test]
fn a_stacked_verifier_refuses_starting_samples() {
    let s = stack();
    let data = vec![&s.first];
    let proof = s.prover.prove_trusted_evaluation(&s.at, &data, &mut transcript(8)).unwrap();
    let v = StackedWhirVerifier::new(config(1), 6);
    match v.verify_trusted_evaluation(
        &vec![s.first.commitment],
        &vec![2],
        &s.at,
        &proof,
        &mut transcript(8),
    ) {
        Err(WhirVerifierError::IncorrectShape(m)) => assert_eq!(
            m,
            "stacked WHIR carries its OOD in round constraints; set starting_ood_samples=0"
        ),
        _ => panic!("accepted"),
    }
}

#[test]
fn an_engine_gives_the_proof_of_the_host() {
    let s = stack();
    let data = vec![&s.first, &s.second];
    let host = s.prover.prove_trusted_evaluation(&s.at, &data, &mut transcript(8)).unwrap();
    for keep_above in [0usize, 4, 16, 1000] {
        let engine = ResidentEngine::new(&s.prover, &data, keep_above);
        let with = s
            .prover
            .prove_trusted_evaluation_with_engine(&s.at, &data, &mut transcript(8), Some(engine))
            .unwrap();
        assert_eq!(format!("{:?}", with), format!("{:?}", host));
    }
    let none: Option<ResidentEngine> = None;
    let without = s
        .prover
        .prove_trusted_evaluation_with_engine(&s.at, &data, &mut transcript(8), none)
        .unwrap();
    assert_eq!(format!("{:?}", without), format!("{:?}", host));
}

#[test]
fn an_engine_keeps_long_vectors_and_commits_to_what_it_has() {
    let s = stack();
    let data = vec![&s.first, &s.second];
    let mut engine = ResidentEngine::new(&s.prover, &data, 16);
    assert!(engine.keep_resident(17));
    assert!(!engine.keep_resident(16));
    // Nothing was handed out yet.
    assert!(engine.commit_folded(1, 1, 6).is_none());
    engine.init(Ext::one(), &s.at);
    assert!(engine.commit_folded(1, 1, 5).is_none());
    let root = engine.commit_folded(1, 1, 6).unwrap();
    // The vector that is handed out has the same codeword.
    engine.extract();
    assert_eq!(engine.commit_folded(1, 1, 6), Some(root));
}

#[test]
fn the_core_schedule_folds_three_then_sixes() {
    let c = core_whir_config(21);
    let folds: Vec<usize> = c.round_parameters.iter().map(|r| r.folding_factor).collect();
    assert_eq!(folds, vec![3, 6, 6]);
    let queries: Vec<usize> = c.round_parameters.iter().map(|r| r.num_queries).collect();
    assert_eq!(queries, vec![71, 51, 49]);
    let rates: Vec<usize> = c.round_parameters.iter().map(|r| r.log_inv_rate).collect();
    assert_eq!(rates, vec![5, 8, 11]);
    assert_eq!(c.final_poly_log_degree, 6);
    assert_eq!(c.final_queries, 49);
    assert_eq!(c.final_pow_bits, 16);
    assert_eq!(c.starting_log_inv_rate, 2);
    assert_eq!(c.starting_ood_samples, 0);
}

#[test]
fn schedules_fold_as_they_are_told() {
    let c = whir_config_for_fold_schedule(12, &[4, 3, 2], 3);
    let folds: Vec<usize> = c.round_parameters.iter().map(|r| r.folding_factor).collect();
    assert_eq!(folds, vec![4, 3, 2]);
    assert_eq!(c.final_poly_log_degree, 3);
    let d = whir_config_for_stack(12, 4, 4);
    let folds: Vec<usize> = d.round_parameters.iter().map(|r| r.folding_factor).collect();
    assert_eq!(folds, vec![4, 4]);
    assert_eq!(d.final_poly_log_degree, 4);
}
