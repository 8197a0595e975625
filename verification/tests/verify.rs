//! A whole shard proof of a one-column chip, and the ways in which it is refused.
use zkm_pcs::ext::Ext;
use zkm_pcs::felt::Felt;
use zkm_pcs::jagged::bundle::{EvaluationProof, JaggedBasefoldBundleGeneric};
use zkm_pcs::jagged::claims::{OpeningClaim, ReductionClaim};
use zkm_pcs::jagged::hash_bind::jagged_hash_bind_modified;
use zkm_pcs::jagged::packing::{JaggedChipInfo, JaggedPacking, PackingMeta};
use zkm_pcs::septic::curve::SepticCurve;
use zkm_pcs::shard::error::BasefoldVerifyError;
use zkm_pcs::shard::gkr::{beta_seed_dim, machine_has_pv_buses, sample_logup_challenges, GkrWalk};
use zkm_pcs::shard::gkr_prove::{draw_logup_challenges, evaluate_trace_columns_at_point, finish_logup_gkr_rows,
    LayerWalk};
use zkm_pcs::multilinear::eval_at;
use zkm_pcs::shard::gkr::LogupChallenges;
use zkm_pcs::shard::host::{build_jagged_inputs, verify_jagged_pcs_host};
use zkm_pcs::shard::lookup::{generate_first_layer, ChipLookups, Lookup, LookupKind, PairCol, Trace, VirtualPairCol};
use zkm_pcs::shard::outer::verify_jagged_pcs_outer;
use zkm_pcs::shard::openings::{observe_length_prefixed_ext, observe_logup_gkr_openings, raw_chip_height, PaddedMle};
use zkm_pcs::shard::places::stands_for_map;
use zkm_pcs::shard::prove::{assemble_basefold_shard_proof, begin_shard, build_chip_cumulative_sums,
    close_constraints, open_heights, order_traces, preprocessed_round, prove_trusted_evaluations,
    CommittedSide};
use zkm_pcs::air::machine::LookupScope;
use zkm_pcs::shard::rebuild::check_last_layer;
use zkm_pcs::shard::residual::{build_chip_heights, build_opened_values, compute_residual_y_openings,
    observe_zerocheck_openings_from_residual};
use zkm_pcs::shard::sumcheck::{verify_sumcheck_host, PartialSumcheckProof, UnivariatePolynomial};
use zkm_pcs::shard::types::{ChipEvaluation, ChipOpenedValues, FoldOrientation, LogUpEvaluations,
    LogUpGkrOutput, LogupGkrProof, ShardChip};
use zkm_pcs::shard::verify::{BasefoldShardProof, BasefoldShardVerifier};
use zkm_pcs::shard::zerocheck::{sample_zerocheck_challenges, ConstraintValues};
use zkm_pcs::transcript::Transcript;
use zkm_pcs::whir::jagged::JaggedCommit;
use zkm_pcs::whir::schedule::core_whir_config;

type Proof = BasefoldShardProof<u8, u8, u8>;

fn ext(x: u32) -> Ext {
    Ext::from_base(Felt::new(x))
}

fn chip(name: &str) -> ShardChip {
    ShardChip {
        name: name.to_string(),
        width: 1,
        preprocessed_width: 0,
        lookups: ChipLookups { sends: vec![], receives: vec![] },
    }
}

fn zeros() -> [Felt; 8] {
    [Felt::zero(); 8]
}

fn counts(_: &Vec<usize>, _: &Vec<usize>, _: usize) -> (Vec<usize>, usize) {
    (vec![2, 6], 5)
}

fn skeleton() -> Proof {
    assemble_basefold_shard_proof(
        vec![Felt::new(9)],
        zeros(),
        LogupGkrProof {
            circuit_output: LogUpGkrOutput {
                numerator: vec![Ext::zero(), Ext::zero()],
                denominator: vec![Ext::one(), Ext::one()],
            },
            round_proofs: vec![],
            logup_evaluations: LogUpEvaluations {
                point: vec![],
                chip_openings: vec![(
                    "Tiny".to_string(),
                    ChipEvaluation {
                        log_degree: 0,
                        main_trace_evaluations_full: Some(vec![Ext::zero()]),
                        preprocessed_trace_evaluations_full: None,
                    },
                )],
            },
            witness: Felt::zero(),
        },
        PartialSumcheckProof {
            univariate_polys: vec![UnivariatePolynomial {
                coefficients: vec![Ext::zero(); 5],
            }],
            claimed_sum: Ext::zero(),
            point_and_eval: (vec![], Ext::zero()),
        },
        vec![ChipOpenedValues {
            preprocessed: vec![],
            main: vec![ext(3)],
            quotient: vec![vec![Ext::one(), Ext::zero()]],
            log_degree: 1,
        }],
        vec![("Tiny".to_string(), 2)],
        vec![],
        EvaluationProof::Empty,
        FoldOrientation::Msb,
        counts,
    )
}

/// The constraint that a cell is zero or one, or that it is zero or two.
fn boolean(top: u32) -> impl Fn(&ShardChip, &ChipOpenedValues, Ext, &Vec<Felt>) -> ConstraintValues {
    move |_: &ShardChip, o: &ChipOpenedValues, alpha: Ext, pv: &Vec<Felt>| {
        assert_eq!(pv.len(), 1);
        let x = o.main[0];
        ConstraintValues {
            at_openings: alpha.times(x).times(x.minus(ext(top))),
            at_padding: Ext::zero(),
        }
    }
}

/// An accepted proof for the column of a zero and a one.
fn honest() -> Proof {
    let mut p = skeleton();
    let chips = vec![chip("Tiny")];
    let v = BasefoldShardVerifier::with_params(1);
    let mut t = Transcript::new();
    v.open_moves(&chips, &p, 1, &mut t).unwrap();
    sample_logup_challenges(&p.logup_gkr_proof, 0, 0, &mut t).unwrap();
    let walk = GkrWalk::start(&p.logup_gkr_proof.circuit_output, &mut t);
    // The column is its own variable.
    let zeta = walk.eval_point[0];
    p.logup_gkr_proof.logup_evaluations.point = walk.eval_point;
    p.logup_gkr_proof.logup_evaluations.chip_openings[0].1.main_trace_evaluations_full =
        Some(vec![zeta]);
    observe_logup_gkr_openings(&mut t, 1, &p.logup_gkr_proof.logup_evaluations);
    let drawn = sample_zerocheck_challenges(&mut t);
    let beta = drawn.gkr_batch_open;
    // (1 - z - x + 2zx) (alpha x (x - 1) + beta x)
    let low = Ext::one().minus(zeta);
    let high = zeta.minus(low);
    let linear = beta.minus(drawn.alpha);
    let poly = vec![
        Ext::zero(),
        low.times(linear),
        low.times(drawn.alpha).plus(high.times(linear)),
        high.times(drawn.alpha),
        Ext::zero(),
    ];
    t.observe_algebra_slice(&poly);
    let r = t.sample_algebra_element();
    let mut value = Ext::zero();
    for c in poly.iter().rev() {
        value = value.times(r).plus(*c);
    }
    p.zerocheck_proof = PartialSumcheckProof {
        univariate_polys: vec![UnivariatePolynomial { coefficients: poly }],
        claimed_sum: zeta.times(beta),
        point_and_eval: (vec![r], value),
    };
    p.opened_values[0].main = vec![r];
    p
}

fn verify_in(v: &BasefoldShardVerifier, p: &Proof, top: u32, rev: bool) -> Result<(), BasefoldVerifyError> {
    v.verify_shard(
        &vec![chip("Tiny")],
        &vec![],
        &zeros(),
        p,
        &mut Transcript::new(),
        1,
        0,
        rev,
        core_whir_config(3),
        |_: Ext, _: &Vec<Ext>, _: &Vec<Felt>| -> Ext { panic!("no lookup is closed so") },
        boolean(top),
        |i: &Vec<JaggedChipInfo>| vec![(0..i.len()).collect()],
        |_: &Vec<Ext>| vec![Ext::one(), Ext::one()],
        |_: &u8, _: &ReductionClaim, t: Transcript| (None, t),
        |_: &u8, t: Transcript| t,
        |_: &OpeningClaim, _: &u8, t: Transcript| (true, t),
    )
}

fn verify(p: &Proof, rev: bool) -> Result<(), BasefoldVerifyError> {
    verify_in(&BasefoldShardVerifier::with_params(1), p, 1, rev)
}

fn refusal(p: &Proof) -> String {
    verify(p, false).unwrap_err().message()
}

#[test]
fn an_honest_shard_is_accepted() {
    for rev in [false, true] {
        assert!(verify(&honest(), rev).is_ok());
    }
}

#[test]
fn shapes_are_checked_first() {
    let mut p = honest();
    p.public_values.push(Felt::zero());
    assert!(matches!(
        verify(&p, false),
        Err(BasefoldVerifyError::PublicValuesLengthMismatch { expected: 1, got: 2 })
    ));
    let mut p = honest();
    p.logup_gkr_proof.logup_evaluations.chip_openings.clear();
    assert!(matches!(
        verify(&p, false),
        Err(BasefoldVerifyError::ChipCountMismatch { expected: 1, got: 0 })
    ));
    let mut p = honest();
    p.logup_gkr_proof.circuit_output.numerator.push(Ext::zero());
    assert_eq!(
        refusal(&p),
        "LogUp-GKR: circuit_output numerator/denominator length mismatch: 3 vs 2"
    );
    p.logup_gkr_proof.circuit_output.denominator.push(Ext::one());
    assert_eq!(refusal(&p), "LogUp-GKR: circuit_output length 3 is not a power of two");
}

#[test]
fn the_lookup_argument_is_checked() {
    let mut p = honest();
    p.logup_gkr_proof.circuit_output.numerator[0] = Ext::one();
    assert_eq!(
        refusal(&p),
        "LogUp-GKR: public-values balance failed (sum circuit_output num/den != -PV_digest)"
    );
    let mut p = honest();
    p.logup_gkr_proof.logup_evaluations.point[0] = ext(1);
    assert_eq!(
        refusal(&p),
        "LogUp-GKR: reconstruction: logup_evaluations.point != reduced trace_point"
    );
    let mut p = honest();
    p.opened_values[0].quotient[0].pop();
    assert_eq!(
        refusal(&p),
        "LogUp-GKR: reconstruction: chip 'Tiny' degree dim 1 != point_extended dim 2"
    );
    let mut p = honest();
    p.logup_gkr_proof.logup_evaluations.chip_openings[0].0 = "Other".to_string();
    assert_eq!(
        refusal(&p),
        "LogUp-GKR: reconstruction: no chip_opening for chip 'Tiny'"
    );
}

#[test]
fn the_constraint_argument_is_checked() {
    let p = honest();
    let v = BasefoldShardVerifier::with_params(1);
    assert_eq!(
        verify_in(&v, &p, 2, false).unwrap_err().message(),
        "zerocheck: zerocheck rlc_eval != point_and_eval.1 (item-12 constraint-RLC binding)"
    );
    let mut p = honest();
    p.zerocheck_proof.claimed_sum = Ext::one();
    assert_eq!(
        refusal(&p),
        "zerocheck: GKR sum-modification identity failed (claimed_sum != lambda-RLC(GKR openings))"
    );
}

#[test]
fn a_proof_is_bound_to_the_row_count() {
    let p = honest();
    let v = BasefoldShardVerifier::with_params(2);
    let e = verify_in(&v, &p, 1, false).unwrap_err();
    assert_eq!(
        e.message(),
        "LogUp-GKR: GKR round count 0 + 1 != max_log_row_count 2 (proof must be padded to the fixed round count)"
    );
}

#[test]
fn undecodable_openings_are_refused() {
    let mut p = honest();
    p.evaluation_proof = EvaluationProof::Bytes { len: 7, decoded: None };
    assert_eq!(refusal(&p), "jagged-PCS: rmp-serde deserialize failed (7 bytes)");
}

fn bundle() -> JaggedBasefoldBundleGeneric<u8, u8, u8> {
    JaggedBasefoldBundleGeneric {
        reduction: 0,
        basefold_proof: 0,
        whir_proof: None,
        y_per_chip: vec![vec![ext(3)], vec![Ext::zero()]],
        commit: JaggedCommit {
            original_commitment: [Felt::new(4); 8],
            chip_dims: vec![],
            area: 8,
            log_stacking_height: 3,
        },
        packing: PackingMeta {
            offsets: vec![0, 1, 8],
            total_values: 8,
            log_dense_size: 3,
            column_counts: vec![1, 1],
            round_counts: vec![vec![(1, 1)]],
            padding_heights: vec![vec![7]],
        },
        jagged_eval: 0,
        preceding_commits: vec![],
        extra_reduction: vec![],
        extra_basefold_proof: vec![],
        extra_commit: vec![],
        extra_packing: vec![],
        extra_jagged_eval: vec![],
        groups: vec![],
    }
}

#[test]
fn layouts_are_bound_to_the_commitment() {
    let v = BasefoldShardVerifier::with_params(1);
    let mut p = skeleton();
    p.main_commitment = jagged_hash_bind_modified([Felt::new(4); 8], &[1], &[1]);
    p.evaluation_proof = EvaluationProof::Bundle(bundle());
    assert!(v.check_layout(&p).is_ok());
    p.main_commitment = zeros();
    assert!(matches!(v.check_layout(&p), Err(BasefoldVerifyError::JaggedPcs(_))));
}

#[test]
fn inputs_are_laid_out() {
    let b = bundle();
    let opened = skeleton().opened_values;
    let inputs = build_jagged_inputs(
        &vec![chip("Tiny")],
        &vec![],
        &[ext(6)],
        &b.packing,
        3,
        &opened,
        &vec![],
        &zeros(),
    )
    .unwrap();
    assert_eq!(inputs.n_prep, 0);
    let dims: Vec<(usize, usize)> =
        inputs.chip_infos.iter().map(|i| (i.row_count, i.column_count)).collect();
    assert_eq!(dims, vec![(1, 1), (7, 1)]);
    assert_eq!(inputs.chip_infos[1].name, "<stacking-pad:1>");
    assert_eq!(inputs.opened_main, vec![vec![ext(3)], vec![Ext::zero()]]);
    assert!(inputs.preceding_rounds.is_empty());
}

#[test]
fn counts_are_derived_from_the_layout() {
    let p = assemble_basefold_shard_proof(
        vec![],
        zeros(),
        skeleton().logup_gkr_proof,
        skeleton().zerocheck_proof,
        vec![],
        vec![],
        vec![],
        EvaluationProof::Bundle(bundle()),
        FoldOrientation::Lsb,
        |c: &Vec<usize>, o: &Vec<usize>, total: usize| {
            assert_eq!(*c, vec![1, 1]);
            assert_eq!(*o, vec![0, 1, 8]);
            (vec![total, 2], 3)
        },
    );
    assert_eq!(p.row_counts, vec![vec![8, 2]]);
    assert_eq!(p.padding_column_counts, vec![3]);
    assert_eq!(p.padding_row_heights, vec![vec![Felt::new(7)]]);
    assert!(skeleton().row_counts.is_empty());
    assert!(skeleton().padding_column_counts.is_empty());
}

/// A bundle for a machine with one preprocessed chip.
fn with_preprocessed(rounds: Vec<Vec<(usize, usize)>>) -> String {
    let mut b = bundle();
    b.packing.round_counts = rounds;
    let mut c = chip("Tiny");
    c.preprocessed_width = 2;
    verify_jagged_pcs_host(
        &zeros(),
        &vec![c],
        &vec![("Tiny".to_string(), 2)],
        &[ext(6)],
        &EvaluationProof::Bundle(b),
        &skeleton().opened_values,
        core_whir_config(3),
        &mut Transcript::new(),
        |i: &Vec<JaggedChipInfo>| vec![(0..i.len()).collect()],
        |_: &Vec<Ext>| vec![Ext::one(), Ext::one()],
        |_: &u8, _: &ReductionClaim, t: Transcript| (None, t),
        |_: &u8, t: Transcript| t,
        |_: &OpeningClaim, _: &u8, t: Transcript| (true, t),
    )
    .unwrap_err()
    .message()
}

#[test]
fn other_preprocessed_columns_are_refused() {
    assert_eq!(
        with_preprocessed(vec![]),
        "jagged-PCS: preprocessed round: the proof carries no geometry for it"
    );
    assert_eq!(
        with_preprocessed(vec![vec![(1, 2), (1, 2)]]),
        "jagged-PCS: preprocessed round: the proof claims 2 chips, the machine has 1"
    );
    assert_eq!(
        with_preprocessed(vec![vec![(1, 3)]]),
        "jagged-PCS: preprocessed round: chip Tiny is 3 columns in the proof but 2 in the machine"
    );
}

#[test]
fn a_wrong_round_count_is_refused_before_a_short_output() {
    // An output of one entry, and openings without columns.
    let mut p = honest();
    p.logup_gkr_proof.circuit_output =
        LogUpGkrOutput { numerator: vec![Ext::zero()], denominator: vec![Ext::one()] };
    p.logup_gkr_proof.logup_evaluations.chip_openings[0].1.main_trace_evaluations_full = None;
    let v = BasefoldShardVerifier::with_params(4);
    assert_eq!(
        verify_in(&v, &p, 1, false).unwrap_err().message(),
        "LogUp-GKR: GKR round count 0 + 1 != max_log_row_count 4 (proof must be padded to the fixed round count)"
    );
}

#[test]
fn refused_shapes_leave_the_transcript() {
    let mut p = honest();
    p.public_values.clear();
    let mut t = Transcript::new();
    let v = BasefoldShardVerifier::with_params(1);
    assert!(v.open_moves(&vec![chip("Tiny")], &p, 1, &mut t).is_err());
    assert_eq!(t.sample(), Transcript::new().sample());
}

fn outer(e: EvaluationProof<u8, u8, u8>, good: bool) -> Result<(), BasefoldVerifyError> {
    verify_jagged_pcs_outer(
        &vec![chip("Tiny")],
        &[ext(6)],
        &e,
        &mut Transcript::new(),
        |_: &u8, c: &ReductionClaim, t: Transcript| {
            assert_eq!(c.offsets, vec![0, 1, 8]);
            assert_eq!(c.total_values, 8);
            assert_eq!(c.chip_infos[0].name, "chip0");
            assert_eq!(c.chip_infos[1].row_count, 7);
            assert_eq!(c.r_row_per_chip, vec![vec![], vec![ext(6)]]);
            assert_eq!(c.y_per_chip, vec![vec![ext(3)], vec![Ext::zero()]]);
            assert_eq!(c.z_row, vec![ext(6)]);
            (Some((vec![], ext(3))), t)
        },
        |_: &u8, t: Transcript| t,
        |c: &OpeningClaim, _: &u8, t: Transcript| {
            // One real cell and seven of padding, before the eight of the last commitment.
            assert_eq!(c.areas, vec![8, 8]);
            assert_eq!(c.commitments, vec![[Felt::new(2); 8], [Felt::new(4); 8]]);
            assert_eq!(c.point.len(), 4);
            (good, t)
        },
    )
}

#[test]
fn serialized_openings_are_verified_by_their_own_layout() {
    let read = || {
        let mut b = bundle();
        b.preceding_commits = vec![[Felt::new(2); 8]];
        EvaluationProof::Bytes { len: 9, decoded: Some(b) }
    };
    assert!(outer(EvaluationProof::Empty, false).is_ok());
    assert!(outer(read(), true).is_ok());
    let said = |e, good| outer(e, good).unwrap_err().message();
    assert_eq!(said(read(), false), "jagged-PCS: outer BaseFold bundle rejected");
    assert_eq!(
        said(EvaluationProof::Bundle(bundle()), true),
        "jagged-PCS: outer ring expects a serialized (Bytes) BaseFold bundle, got Bundle"
    );
    assert_eq!(
        said(EvaluationProof::Bytes { len: 9, decoded: None }, true),
        "jagged-PCS: outer BaseFold bundle deserialize failed (9 bytes)"
    );
}

#[test]
fn sumchecks_are_refused_by_round() {
    let poly = |c: [u32; 2]| UnivariatePolynomial { coefficients: c.map(ext).to_vec() };
    // One plus x has the ends one and two.
    let mut s = PartialSumcheckProof {
        univariate_polys: vec![poly([1, 1])],
        claimed_sum: ext(3),
        point_and_eval: (vec![], Ext::zero()),
    };
    let check = |s: &PartialSumcheckProof, vars: usize| {
        verify_sumcheck_host(s, &mut Transcript::new(), vars, 1)
    };
    let said = |r: Result<(), BasefoldVerifyError>| r.unwrap_err().message();
    assert_eq!(said(check(&s, 2)), "LogUp-GKR: sumcheck proof has 1 rounds, expected 2");
    assert_eq!(
        said(check(&s, 1)),
        "LogUp-GKR: sumcheck point_and_eval.0 has dim 0, expected 1"
    );
    s.point_and_eval.0 = vec![Ext::zero()];
    assert_eq!(
        said(check(&s, 1)),
        "LogUp-GKR: sumcheck reduced point doesn't match sampled challenges"
    );
    let mut t = Transcript::new();
    t.observe_algebra_slice(&s.univariate_polys[0].coefficients);
    let r = t.sample_algebra_element();
    s.point_and_eval = (vec![r], Ext::one());
    assert_eq!(
        said(check(&s, 1)),
        "LogUp-GKR: sumcheck final eval doesn't match recomputed value"
    );
    s.point_and_eval = (vec![r], Ext::one().plus(r));
    assert!(check(&s, 1).is_ok());
    s.claimed_sum = ext(4);
    assert_eq!(
        said(check(&s, 1)),
        "LogUp-GKR: sumcheck first-round inconsistency with claimed_sum"
    );
    s.univariate_polys[0].coefficients.push(Ext::zero());
    assert_eq!(
        said(check(&s, 1)),
        "LogUp-GKR: sumcheck round 0 poly has 3 coefficients, expected 2"
    );
}

fn column(i: usize) -> VirtualPairCol {
    VirtualPairCol { column_weights: vec![(PairCol::Main(i), Felt::one())], constant: Felt::zero() }
}

#[test]
fn seeds_cover_the_largest_arity() {
    let mut c = chip("Wide");
    assert_eq!(beta_seed_dim(&vec![chip("Tiny")]), 0);
    c.lookups.sends.push(Lookup {
        values: vec![column(0), column(0), column(0), column(0)],
        multiplicity: column(0),
        kind: LookupKind { argument_index: 1, closed_by_public_values: true },
    });
    assert_eq!(beta_seed_dim(&vec![chip("Tiny"), c]), 3);
}

#[test]
fn public_value_lookups_are_noticed() {
    let mut c = chip("Wide");
    c.lookups.receives.push(Lookup {
        values: vec![],
        multiplicity: column(0),
        kind: LookupKind { argument_index: 1, closed_by_public_values: true },
    });
    assert!(machine_has_pv_buses(&vec![chip("Tiny"), c]));
    assert!(!machine_has_pv_buses(&vec![chip("Tiny")]));
}

fn padded(values: &[u32], width: usize) -> PaddedMle {
    let values = values.iter().map(|x| Felt::new(*x)).collect();
    PaddedMle { inner: Some(Trace { values, width }), metadata_height: None }
}

fn elsewhere(h: Option<usize>) -> PaddedMle {
    PaddedMle { inner: None, metadata_height: h }
}

#[test]
fn heights_count_real_rows() {
    assert_eq!(raw_chip_height(&padded(&[1, 2, 3, 4], 2)), 2);
    assert_eq!(raw_chip_height(&padded(&[], 0)), 0);
    assert_eq!(raw_chip_height(&elsewhere(Some(5))), 5);
    assert_eq!(raw_chip_height(&elsewhere(Some(0))), 1);
    assert_eq!(raw_chip_height(&elsewhere(None)), 1);
    assert_eq!(
        open_heights(&vec![padded(&[1], 1), elsewhere(Some(5))]),
        vec![None, Some(5)]
    );
}

#[test]
fn traces_follow_the_chips() {
    let traces = vec![("B".to_string(), padded(&[2], 1)), ("A".to_string(), padded(&[1], 1))];
    let chips = vec![chip("A"), chip("B")];
    let r = order_traces(&chips, &traces);
    assert_eq!(r[0].inner.as_ref().unwrap().values[0], Felt::new(1));
    assert_eq!(r[1].inner.as_ref().unwrap().values[0], Felt::new(2));
}

#[test]
fn columns_are_evaluated_at_the_point() {
    let t = Trace { values: [1, 10, 2, 20].map(Felt::new).to_vec(), width: 2 };
    // (1 - 5) * 1 + 5 * 2 and ten times as much.
    assert_eq!(evaluate_trace_columns_at_point(&t, &[ext(5)]), vec![ext(6), ext(60)]);
}

#[test]
fn openings_come_in_the_order_of_the_names() {
    let chips = vec![chip("b"), chip("a")];
    let at_z = vec![("a".to_string(), vec![ext(1)]), ("b".to_string(), vec![ext(2)])];
    let traces = vec![padded(&[7, 8, 9], 1), padded(&[1], 1)];
    let heights = build_chip_heights(&chips, &traces);
    assert_eq!(heights, vec![("a".to_string(), 1), ("b".to_string(), 3)]);
    let opened = build_opened_values(&chips, &at_z, &heights, 2);
    assert_eq!(opened[0].main, vec![ext(1)]);
    assert_eq!(opened[1].main, vec![ext(2)]);
    assert_eq!(opened[1].log_degree, 2);
    assert_eq!(opened[1].quotient[0], vec![Ext::zero(), Ext::one(), Ext::one()]);
    let mut t = Transcript::new();
    observe_zerocheck_openings_from_residual(&mut t, &chips, &at_z);
    let mut u = Transcript::new();
    u.observe(Felt::new(2));
    for x in [1, 2] {
        observe_length_prefixed_ext(&mut u, &[]);
        observe_length_prefixed_ext(&mut u, &[ext(x)]);
    }
    assert_eq!(t.sample(), u.sample());
}

#[test]
fn the_last_chip_of_a_name_stands_in_a_map_by_name() {
    let chips = vec![chip("b"), chip("a"), chip("b")];
    let traces = vec![padded(&[7, 8, 9], 1), padded(&[1], 1), padded(&[5, 6], 1)];
    let heights = build_chip_heights(&chips, &traces);
    assert_eq!(heights, vec![("a".to_string(), 1), ("b".to_string(), 2)]);
    assert!(stands_for_map(&heights));
    assert!(!stands_for_map(&vec![("b".to_string(), 1), ("a".to_string(), 1)]));
    assert!(!stands_for_map(&vec![("a".to_string(), 1), ("a".to_string(), 1)]));
    assert!(stands_for_map(&vec![("a".to_string(), 1), ("aa".to_string(), 1)]));
    let mut p = honest();
    assert!(p.is_well_formed());
    p.chip_heights.push(("Tiny".to_string(), 2));
    assert!(!p.is_well_formed());
}

#[test]
fn closing_the_constraints_gives_heights_and_openings() {
    let chips = vec![chip("Tiny")];
    let traces = vec![padded(&[7, 8], 1)];
    let at_z = vec![("Tiny".to_string(), vec![ext(4)])];
    let (heights, opened) = close_constraints(&mut Transcript::new(), &chips, &traces, &at_z, 1);
    assert_eq!(heights, vec![("Tiny".to_string(), 2)]);
    assert_eq!(opened[0].main, vec![ext(4)]);
    assert_eq!(opened[0].quotient[0], vec![Ext::one(), Ext::zero()]);
}

#[test]
fn residuals_are_the_column_claims() {
    let chips = vec![chip("Tiny")];
    let evals = LogUpEvaluations {
        point: vec![],
        chip_openings: vec![(
            "Tiny".to_string(),
            ChipEvaluation {
                log_degree: 1,
                main_trace_evaluations_full: Some(vec![ext(1)]),
                preprocessed_trace_evaluations_full: None,
            },
        )],
    };
    let at_z = vec![("Tiny".to_string(), vec![ext(4)])];
    let none = vec![PaddedMle { inner: None, metadata_height: None }];
    let y = compute_residual_y_openings(
        &chips,
        &vec![padded(&[7, 8], 1)],
        &none,
        &at_z,
        &evals,
        &vec![None],
        true,
    );
    assert_eq!(y, vec![vec![ext(4)]]);
}

#[test]
fn prover_and_verifier_share_the_transcript() {
    let chips = vec![chip("Tiny")];
    let traces = vec![padded(&[7, 0], 1)];
    let mut t = Transcript::new();
    let (witness, c) =
        begin_shard(&mut t, &vec![Felt::new(9)], &zeros(), &chips, &traces, 2).unwrap();
    let mut p = skeleton();
    p.logup_gkr_proof.witness = witness;
    let mut u = Transcript::new();
    let v = BasefoldShardVerifier::with_params(1);
    v.open_moves(&chips, &p, 1, &mut u).unwrap();
    let d = sample_logup_challenges(&p.logup_gkr_proof, 2, 0, &mut u).unwrap();
    assert_eq!(c.alpha, d.alpha);
    assert_eq!(c.betas, d.betas);
    let out = LogUpGkrOutput {
        numerator: vec![Ext::zero(), Ext::zero()],
        denominator: vec![Ext::one(), Ext::one()],
    };
    let walk = LayerWalk::begin(out, &mut t);
    let theirs = GkrWalk::start(&p.logup_gkr_proof.circuit_output, &mut u);
    assert_eq!(walk.walk.eval_point, theirs.eval_point);
    let prep = vec![PaddedMle { inner: None, metadata_height: None }];
    let done = finish_logup_gkr_rows(walk, witness, &chips, &prep, &traces, 1, &mut t);
    assert_eq!(done.logup_evaluations.point, theirs.eval_point);
    // The trace has one real row, the other one is zero.
    let want = Ext::one().minus(theirs.eval_point[0]).times(ext(7));
    assert_eq!(
        done.logup_evaluations.chip_openings[0].1.main_trace_evaluations_full,
        Some(vec![want])
    );
}

#[test]
fn a_wrong_grinding_witness_is_refused() {
    let chips = vec![chip("Tiny")];
    let (w, _) = draw_logup_challenges(&chips, 8, &mut Transcript::new()).unwrap();
    let mut p = skeleton();
    let mut refused = 0;
    for k in 1..9u32 {
        p.logup_gkr_proof.witness = w.plus(Felt::new(k));
        match sample_logup_challenges(&p.logup_gkr_proof, 8, 0, &mut Transcript::new()) {
            Err(e) => {
                assert_eq!(e.message(), "LogUp-GKR: GKR grinding witness check failed");
                refused += 1;
            },
            Ok(_) => {},
        }
    }
    assert!(refused > 0);
}

#[test]
fn global_sums_are_read_off_the_last_cells() {
    let zero = SepticCurve::dummy();
    let cells: Vec<u32> = (0..20).collect();
    let chips = vec![chip("A"), chip("B"), chip("C"), chip("D")];
    let scopes =
        vec![LookupScope::Global, LookupScope::Local, LookupScope::Global, LookupScope::Global];
    let traces = vec![
        padded(&cells, 2),
        padded(&cells, 2),
        padded(&cells[..4], 2),
        elsewhere(Some(10)),
    ];
    let tail: Vec<Felt> = (100..114).map(Felt::new).collect();
    let sums = build_chip_cumulative_sums(
        &chips,
        &scopes,
        &traces,
        &vec![None, None, None, Some(tail)],
        zero,
    );
    assert_eq!(sums[0].1.global.x.0[0], Felt::new(6));
    assert_eq!(sums[0].1.global.y.0[6], Felt::new(19));
    assert_eq!(sums[1].1.global.x.0, zero.x.0);
    assert_eq!(sums[2].1.global.y.0, zero.y.0);
    assert_eq!(sums[3].1.global.x.0[0], Felt::new(100));
    assert_eq!(sums[0].1.local, Ext::zero());
}

/// Three real rows of a chip that sends the second column, weighted by the first.
#[test]
fn the_rebuilt_layer_is_the_generated_one() {
    let mut c = chip("Sender");
    c.width = 2;
    c.lookups.sends.push(Lookup {
        values: vec![column(1)],
        multiplicity: column(0),
        kind: LookupKind { argument_index: 6, closed_by_public_values: false },
    });
    let cells = [1, 10, 2, 20, 3, 30].map(Felt::new).to_vec();
    let alpha = ext(1000);
    let betas = vec![ext(7), ext(11)];
    let lookups = ChipLookups {
        sends: vec![Lookup {
            values: vec![column(1)],
            multiplicity: column(0),
            kind: LookupKind { argument_index: 6, closed_by_public_values: false },
        }],
        receives: vec![],
    };
    let layer = generate_first_layer(
        &vec![lookups],
        &vec![None],
        &vec![Trace { values: cells.clone(), width: 2 }],
        alpha,
        &betas,
        2,
    );
    assert_eq!(layer.num_row_variables, 1);
    assert_eq!(layer.numerator_0[0].cells, vec![Felt::new(1), Felt::new(3)]);
    assert_eq!(layer.numerator_1[0].cells, vec![Felt::new(2)]);
    // alpha + 7 * 6 + 11 * value
    assert_eq!(layer.denominator_0[0].cells, vec![ext(1152), ext(1372)]);
    assert_eq!(layer.denominator_1[0].cells, vec![ext(1262)]);
    let point = vec![ext(5), ext(9)];
    let num = eval_at(&[ext(1), ext(2), ext(3), Ext::zero()], &point);
    let den = eval_at(&[ext(1152), ext(1262), ext(1372), Ext::one()], &point);
    let trace = Trace { values: cells, width: 2 };
    let evaluations = LogUpEvaluations {
        point: point.clone(),
        chip_openings: vec![(
            "Sender".to_string(),
            ChipEvaluation {
                log_degree: 2,
                main_trace_evaluations_full: Some(evaluate_trace_columns_at_point(&trace, &point)),
                preprocessed_trace_evaluations_full: None,
            },
        )],
    };
    let opened = vec![ChipOpenedValues {
        preprocessed: vec![],
        main: vec![],
        quotient: vec![vec![Ext::zero(), Ext::one(), Ext::one()]],
        log_degree: 2,
    }];
    let chips = vec![c];
    let challenges = LogupChallenges { alpha, betas };
    let check = |num: Ext, den: Ext| {
        check_last_layer(&chips, &opened, &evaluations, &point, num, den, &challenges, 0)
    };
    assert!(check(num, den).is_ok());
    assert_eq!(
        check(num.plus(Ext::one()), den).unwrap_err().message(),
        "LogUp-GKR: last-layer reconstruction: numerator mismatch (degree-masked height-soundness assert)"
    );
    assert_eq!(
        check(num, den.plus(Ext::one())).unwrap_err().message(),
        "LogUp-GKR: last-layer reconstruction: denominator mismatch (degree-masked height-soundness assert)"
    );
}

fn side(name: &str, rows: usize, cols: usize, area: usize) -> CommittedSide {
    let offsets: Vec<usize> = (0..=cols).map(|c| c * rows).collect();
    CommittedSide {
        packing: JaggedPacking {
            chip_infos: vec![JaggedChipInfo {
                name: name.to_string(),
                row_count: rows,
                column_count: cols,
            }],
            offsets,
            total_values: rows * cols,
            dense_len: area,
        },
        area,
    }
}

#[test]
fn openings_begin_with_the_preprocessed_round() {
    let z = vec![ext(1), ext(2)];
    let prep = side("P", 2, 1, 8);
    let main = side("M", 4, 1, 8);
    let rounds = prove_trusted_evaluations(
        &vec![padded(&[1], 1), padded(&[1, 2], 1)],
        &vec![1],
        vec![vec![ext(5)]],
        &prep,
        &vec![padded(&[1, 2, 3, 4], 1)],
        &main,
        &z,
        vec![vec![ext(6)]],
        &vec![],
    );
    assert_eq!(rounds.len(), 2);
    assert_eq!(rounds[0].chip_infos[0].name, "P");
    assert_eq!(rounds[0].r_row_per_chip, vec![vec![ext(2)]]);
    assert_eq!(rounds[1].r_row_per_chip, vec![z.clone()]);
    assert_eq!(rounds[1].claims, vec![vec![ext(6)]]);
    let alone = prove_trusted_evaluations(
        &vec![],
        &vec![],
        vec![],
        &prep,
        &vec![elsewhere(Some(2))],
        &main,
        &z,
        vec![vec![ext(6)]],
        &vec![Some(2)],
    );
    assert_eq!(alone.len(), 1);
    assert_eq!(alone[0].r_row_per_chip, vec![vec![ext(2)]]);
}

#[test]
fn preprocessed_claims_are_the_first_columns() {
    let chips = vec![chip("A"), chip("B")];
    let infos =
        vec![JaggedChipInfo { name: "B".to_string(), row_count: 2, column_count: 1 }];
    let at_z = vec![("B".to_string(), vec![ext(8), ext(9)])];
    let (found, claims) = preprocessed_round(&chips, &infos, &at_z);
    assert_eq!(found, vec![1]);
    assert_eq!(claims, vec![vec![ext(8)]]);
}
