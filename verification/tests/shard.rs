//! The shard verifier's pieces.
use zkm_pcs::ext::Ext;
use zkm_pcs::felt::Felt;
use zkm_pcs::shard::error::BasefoldVerifyError;
use zkm_pcs::shard::lookup::{
    generate_interaction_vals, split_real_parity, Lookup, LookupKind, PairCol, VirtualPairCol,
};
use zkm_pcs::shard::points::{
    degree_stub_host, eq_eval_host, eval_coeffs_host, evaluate_mle_host, full_geq_host,
};
use zkm_pcs::shard::verify::{BasefoldShardVerifier, CORE_MAX_LOG_ROW_COUNT};

fn ext(x: u32) -> Ext {
    Ext::from_base(Felt::new(x))
}

#[test]
fn split_real_parity_deinterleaves_rows() {
    let values: Vec<u32> = vec![10, 11, 20, 21, 30, 31];
    let (even, odd) = split_real_parity(&values, 2, 3);
    assert_eq!(even, vec![10, 11, 30, 31]);
    assert_eq!(odd, vec![20, 21]);
    let values: Vec<u32> = vec![1, 2];
    let (even, odd) = split_real_parity(&values, 2, 1);
    assert_eq!(even, vec![1, 2]);
    assert!(odd.is_empty());
    let (even, odd) = split_real_parity::<u32>(&[], 2, 0);
    assert!(even.is_empty() && odd.is_empty());
}

fn main_column(i: usize) -> VirtualPairCol {
    VirtualPairCol { column_weights: vec![(PairCol::Main(i), Felt::one())], constant: Felt::zero() }
}

fn bare_lookup(kind: LookupKind) -> Lookup {
    Lookup { values: vec![], multiplicity: main_column(0), kind }
}

#[test]
fn generate_interaction_vals_signs_multiplicity_for_receives() {
    let interaction = bare_lookup(LookupKind::byte());
    let main_row = vec![Felt::new(7)];
    let alpha = ext(11);
    let betas = vec![ext(13)];
    let (n_send, _) = generate_interaction_vals(&interaction, &[], &main_row, true, alpha, &betas);
    let (n_recv, _) = generate_interaction_vals(&interaction, &[], &main_row, false, alpha, &betas);
    assert_eq!(n_send, Felt::new(7));
    assert_eq!(n_recv, Felt::zero().minus(Felt::new(7)));
}

#[test]
fn generate_interaction_vals_denominator_includes_argument_index() {
    let interaction_byte = bare_lookup(LookupKind::byte());
    let interaction_range = bare_lookup(LookupKind::range());
    let main_row = vec![Felt::one()];
    let alpha = Ext::zero();
    let betas = vec![ext(2)];
    let (_, d_byte) =
        generate_interaction_vals(&interaction_byte, &[], &main_row, true, alpha, &betas);
    let (_, d_range) =
        generate_interaction_vals(&interaction_range, &[], &main_row, true, alpha, &betas);
    assert_eq!(d_byte, ext(2 * 4));
    assert_eq!(d_range, ext(2 * 5));
}

#[test]
fn lookup_values_enter_the_denominator() {
    let interaction = Lookup {
        values: vec![main_column(0), main_column(1)],
        multiplicity: main_column(2),
        kind: LookupKind::byte(),
    };
    let row = vec![Felt::new(3), Felt::new(5), Felt::new(9)];
    let betas = vec![ext(2), ext(10), ext(100)];
    let (n, d) = generate_interaction_vals(&interaction, &[], &row, true, ext(1000), &betas);
    assert_eq!(n, Felt::new(9));
    assert_eq!(d, ext(1000 + 2 * 4 + 10 * 3 + 100 * 5));
}

#[test]
fn verifier_constructs_with_defaults() {
    let v = BasefoldShardVerifier::production_default();
    assert_eq!(v.max_log_row_count, 22);
}

#[test]
fn verifier_with_params_honors_custom_row_count() {
    let v = BasefoldShardVerifier::with_params(3);
    assert_eq!(v.max_log_row_count, 3);
}

#[test]
fn fixed_cube_sourced_from_the_core_constant() {
    let base = BasefoldShardVerifier::production_default().max_log_row_count;
    assert_eq!(base, CORE_MAX_LOG_ROW_COUNT);
    assert_eq!(base, 22);
}

#[test]
fn unimplemented_error_displays_phase_hint() {
    let e = BasefoldVerifyError::Unimplemented("Phase 2 (LogUp-GKR verification)");
    let s = e.message();
    assert!(s.contains("Phase 2"));
    assert!(s.contains(""));
    assert_eq!(
        s,
        "host-side BasefoldShardVerifier: Phase 2 (LogUp-GKR verification) not yet implemented"
    );
}

#[test]
fn shape_errors_display_expected_and_got() {
    let e = BasefoldVerifyError::PublicValuesLengthMismatch { expected: 100, got: 50 };
    let s = e.message();
    assert!(s.contains("100"));
    assert!(s.contains("50"));
    let e = BasefoldVerifyError::ChipCountMismatch { expected: 10, got: 7 };
    let s = e.message();
    assert!(s.contains("10"));
    assert!(s.contains("7"));
}

#[test]
fn errors_name_their_phase() {
    let text = |e: BasefoldVerifyError| e.message();
    assert_eq!(text(BasefoldVerifyError::LogupGkr("a".to_string())), "LogUp-GKR: a");
    assert_eq!(text(BasefoldVerifyError::Zerocheck("b".to_string())), "zerocheck: b");
    assert_eq!(text(BasefoldVerifyError::JaggedPcs("c".to_string())), "jagged-PCS: c");
}

#[test]
fn full_geq_host_zero_threshold_is_one() {
    let threshold = vec![Ext::zero(); 4];
    let eval_point = vec![ext(3), ext(7), ext(11), ext(13)];
    assert_eq!(full_geq_host(&threshold, &eval_point), Ext::one());
}

#[test]
fn full_geq_host_equal_boolean_threshold_is_one() {
    let point = vec![Ext::one(), Ext::zero(), Ext::one()];
    assert_eq!(full_geq_host(&point, &point), Ext::one());
}

#[test]
fn full_geq_host_boolean_strict_greater() {
    let threshold = vec![Ext::zero(), Ext::zero()];
    let eval_point = vec![Ext::one(), Ext::zero()];
    assert_eq!(full_geq_host(&threshold, &eval_point), Ext::one());
}

#[test]
fn full_geq_host_below_the_threshold_is_zero() {
    let threshold = vec![Ext::one(), Ext::zero()];
    let eval_point = vec![Ext::zero(), Ext::one()];
    assert_eq!(full_geq_host(&threshold, &eval_point), Ext::zero());
}

#[test]
fn degree_stub_host_is_zero_filled_with_extra_bit() {
    for max_log in [0usize, 1, 5, 22] {
        let v: Vec<Ext> = degree_stub_host(max_log);
        assert_eq!(v.len(), max_log + 1);
        assert!(v.iter().all(|x| *x == Ext::zero()));
    }
}

#[test]
fn eq_eval_host_indicator() {
    let a = vec![ext(3), ext(5)];
    let b = vec![ext(3), ext(5)];
    let v = eq_eval_host(&a, &b);
    let c = vec![ext(3), ext(7)];
    let u = eq_eval_host(&a, &c);
    assert_ne!(v, u, "eq_eval differs when points differ");
    assert_eq!(v, ext((2 * 2 + 3 * 3) * (4 * 4 + 5 * 5)));
}

#[test]
fn evaluate_mle_host_endpoints() {
    let evals: Vec<Ext> = (10..14).map(ext).collect();
    let at_origin = evaluate_mle_host(&evals, &[Ext::zero(), Ext::zero()]);
    assert_eq!(at_origin, ext(10));
    let at_all_ones = evaluate_mle_host(&evals, &[Ext::one(), Ext::one()]);
    assert_eq!(at_all_ones, ext(13));
    let at_10 = evaluate_mle_host(&evals, &[Ext::one(), Ext::zero()]);
    assert_eq!(at_10, ext(11));
    let at_01 = evaluate_mle_host(&evals, &[Ext::zero(), Ext::one()]);
    assert_eq!(at_01, ext(12));
}

#[test]
fn eval_coeffs_host_horner_correctness() {
    let coeffs: Vec<Ext> = vec![ext(3), ext(5), ext(7)];
    assert_eq!(eval_coeffs_host(&coeffs, Ext::zero()), ext(3));
    assert_eq!(eval_coeffs_host(&coeffs, Ext::one()), ext(15));
    assert_eq!(eval_coeffs_host(&coeffs, ext(2)), ext(41));
}
