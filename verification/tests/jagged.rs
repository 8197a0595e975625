//! Jagged layouts, their openings, and the bundles that carry them.
use rand::rngs::StdRng;
use rand::{Rng, SeedableRng};
use zkm_pcs::ext::Ext;
use zkm_pcs::felt::Felt;
use zkm_pcs::jagged::bundle::{main_round_counts, JaggedBasefoldBundleGeneric};
use zkm_pcs::jagged::commit::{commit_interleaved_traces, commit_jagged_pcs_generic};
use zkm_pcs::jagged::claims::{OpeningClaim, ReductionClaim};
use zkm_pcs::jagged::groups::{verify_jagged_basefold_inner, verify_one_jagged_group};
use zkm_pcs::jagged::layout::{concatenate_rounds, heights_of_pads, JaggedOpenRound};
use zkm_pcs::jagged::linear::{prove_jagged_basefold_linear_core, prove_jagged_basefold_rounds, DenseLayout};
use zkm_pcs::jagged::opening::{adjust_claim, cross_bind, effective_area, extend_point, opening_dim,
    open_reduced_point, sample_z_col, verify_reduced_opening};
use zkm_pcs::jagged::outer::verify_jagged_basefold_inner_generic;
use zkm_pcs::jagged::packing::{build_jagged_verify_inputs, row_coords, JaggedChipInfo, PackingMeta};
use zkm_pcs::jagged::prove::{assemble_bundle, build_packing_meta, concatenate_dense, stripes_at_hand};
use zkm_pcs::jagged::rounds::{prove_jagged_basefold_rounds_generic, KeptRound};
use zkm_pcs::multilinear::{eval_at, lift_felts};
use zkm_pcs::shard::lookup::Trace;
use zkm_pcs::transcript::Transcript;
use zkm_pcs::whir::jagged::{chips_to_mles_owned, collect_cells, commit_cells,
    open_jagged_whir_rounds_generic, pick_log_stacking_height, split_stripes_to_polys,
    verify_jagged_whir_rounds, JaggedCommit, JaggedWhirProverData};
use zkm_pcs::whir::messages::WhirVerifierError;
use zkm_pcs::whir::schedule::{core_whir_config, whir_config_for_stack};
use zkm_pcs::whir::stacked::{StackedWhirProver, StackedWhirVerifier};
use zkm_pcs::whir::sumcheck::eq_table;

fn felt(r: &mut StdRng) -> Felt {
    Felt::new(r.gen::<u32>() & 0x3FFF_FFFF)
}

fn ef(r: &mut StdRng) -> Ext {
    Ext { c0: felt(r), c1: felt(r), c2: felt(r), c3: felt(r) }
}

fn ext(x: u32) -> Ext {
    Ext::from_base(Felt::new(x))
}

fn transcript(seed: u32) -> Transcript {
    let mut t = Transcript::new();
    t.observe(Felt::new(seed));
    t
}

fn info(name: &str, row_count: usize, column_count: usize) -> JaggedChipInfo {
    JaggedChipInfo { name: name.to_string(), row_count, column_count }
}

/// Two groups: two columns of three cells, one column of two, then padding to `area`.
fn open_round(area: usize) -> JaggedOpenRound {
    JaggedOpenRound {
        chip_infos: vec![info("a", 3, 2), info("b", 2, 1)],
        offsets: vec![0, 3, 6, 8],
        total_values: 8,
        r_row_per_chip: vec![vec![ext(1)], vec![ext(2)]],
        claims: vec![vec![ext(10), ext(11)], vec![ext(12)]],
        area,
    }
}

#[test]
fn rounds_are_laid_end_to_end_with_their_padding() {
    let z_row = vec![ext(5), ext(6)];
    let l = concatenate_rounds(&vec![open_round(16), open_round(8)], &z_row);
    let heights: Vec<usize> = l.chip_infos.iter().map(|i| i.row_count).collect();
    assert_eq!(heights, vec![3, 2, 4, 4, 3, 2, 0]);
    assert_eq!(l.chip_infos[2].name, "<stacking-pad:2>");
    assert_eq!(l.offsets, vec![0, 3, 6, 8, 12, 16, 19, 22, 24, 24]);
    assert_eq!(l.total_values, 24);
    assert_eq!(l.padding_heights, vec![vec![4, 4], vec![0]]);
    assert_eq!(l.y_per_chip[2], vec![Ext::zero()]);
    let meta = build_packing_meta(&l, &vec![open_round(16), open_round(8)]);
    assert_eq!(meta.column_counts, vec![2, 1, 1, 1, 2, 1, 1]);
    assert_eq!(meta.round_counts, vec![vec![(3, 2), (2, 1)], vec![(3, 2), (2, 1)]]);
    assert_eq!(meta.log_dense_size, 5);
    assert_eq!(main_round_counts(&meta), (vec![3, 2], vec![2, 1]));
}

#[test]
fn padding_columns_cover_the_padding_cells() {
    assert_eq!(heights_of_pads(10, 4), vec![4, 4, 2]);
    assert_eq!(heights_of_pads(8, 4), vec![4, 4]);
    assert_eq!(heights_of_pads(0, 4), vec![0]);
}

#[test]
fn row_coordinates_are_the_last_ones() {
    let z = vec![ext(1), ext(2), ext(3)];
    assert_eq!(row_coords(&z, 4), vec![ext(2), ext(3)]);
    assert_eq!(row_coords(&z, 3), vec![ext(2), ext(3)]);
    assert_eq!(row_coords(&z, 1), vec![]);
}

#[test]
fn verify_inputs_name_the_padding_columns() {
    let packing = PackingMeta {
        offsets: vec![0, 4, 8, 10, 16],
        total_values: 16,
        log_dense_size: 4,
        column_counts: vec![2, 1, 1],
        round_counts: vec![vec![(4, 2), (2, 1)]],
        padding_heights: vec![vec![6]],
    };
    let z = vec![ext(7), ext(8), ext(9)];
    let (infos, rows, all) = build_jagged_verify_inputs(&packing, &vec![2, 1], &z);
    let dims: Vec<(usize, usize)> = infos.iter().map(|i| (i.row_count, i.column_count)).collect();
    assert_eq!(dims, vec![(4, 2), (2, 1), (6, 1)]);
    assert_eq!(rows[0], vec![ext(8), ext(9)]);
    assert_eq!(rows[1], vec![ext(9)]);
    assert_eq!(all, z);
}

fn committed(seed: u64, stripes: usize, lsh: u32) -> (JaggedCommit, JaggedWhirProverData, Vec<Felt>) {
    let mut rng = StdRng::seed_from_u64(seed);
    let cells: Vec<Felt> = (0..stripes << lsh).map(|_| felt(&mut rng)).collect();
    let prover = StackedWhirProver::new(whir_config_for_stack(lsh as usize, 2, 0), lsh);
    let (c, d) = commit_cells(&cells, vec![(1, lsh)], &prover);
    (c, d, cells)
}

#[test]
fn long_openings_are_accepted_at_the_true_value_only() {
    let (ca, da, mut cells) = committed(1, 2, 4);
    let (cb, db, more) = committed(2, 1, 4);
    assert_eq!(ca.area, 32);
    cells.extend(more);
    cells.extend(vec![Felt::zero(); 16]);
    let mut rng = StdRng::seed_from_u64(3);
    let point: Vec<Ext> = (0..6).map(|_| ef(&mut rng)).collect();
    let value = eval_at(&lift_felts(&cells), &point);
    let prover = StackedWhirProver::new(whir_config_for_stack(4, 2, 0), 4);
    let rounds = vec![&da, &db];
    let proof =
        open_jagged_whir_rounds_generic(&rounds, &point, &mut transcript(1), &prover).unwrap();
    let v = StackedWhirVerifier::new(whir_config_for_stack(4, 2, 0), 4);
    let roots = vec![ca.original_commitment, cb.original_commitment];
    let areas = vec![32, 16];
    assert!(verify_jagged_whir_rounds(
        &v, &roots, &areas, &point, &proof, value, &mut transcript(1)
    )
    .is_ok());
    assert!(verify_jagged_whir_rounds(
        &v, &roots, &areas, &point, &proof, value.plus(Ext::one()), &mut transcript(1)
    )
    .is_err());
    assert!(matches!(
        verify_jagged_whir_rounds(&v, &roots, &vec![32, 32], &point, &proof, value, &mut transcript(1)),
        Err(WhirVerifierError::IncorrectShape(_))
    ));
}

#[test]
fn committed_cells_come_back_in_order() {
    let (_, da, mut cells) = committed(4, 2, 4);
    let (_, db, more) = committed(5, 1, 4);
    cells.extend(more);
    assert_eq!(collect_cells(&vec![&da, &db]), cells);
    let dense = concatenate_dense(&vec![&da, &db], 6);
    assert_eq!(dense.len(), 64);
    assert_eq!(dense[..48].to_vec(), cells);
    assert_eq!(dense[63], Felt::zero());
}

#[test]
fn stripes_split_into_their_columns() {
    let t = Trace { values: (1..=6).map(Felt::new).collect(), width: 2 };
    let polys = split_stripes_to_polys(&vec![t]);
    let want: Vec<Vec<Felt>> =
        vec![[1, 3, 5].map(Felt::new).to_vec(), [2, 4, 6].map(Felt::new).to_vec()];
    assert_eq!(polys, want);
}

#[test]
fn traces_are_rounded_out_to_whole_stripes() {
    let t = Trace { values: (1..=3).map(Felt::new).collect(), width: 1 };
    let (mles, dims) = chips_to_mles_owned(vec![("a".to_string(), t)]);
    assert_eq!(dims, vec![(1, 21)]);
    assert_eq!(mles[0].values.len(), 1 << 21);
    assert_eq!(mles[0].values[..4].to_vec(), [1, 2, 3, 0].map(Felt::new).to_vec());
}

#[test]
fn stacks_are_two_to_the_twenty_one_high() {
    assert_eq!(pick_log_stacking_height(0), 21);
    assert_eq!(pick_log_stacking_height(1 << 23), 21);
}

/// A commitment under the production schedule of a small stripe.
fn core_committed(seed: u64, stripes: usize) -> (JaggedCommit, JaggedWhirProverData, Vec<Felt>) {
    let mut rng = StdRng::seed_from_u64(seed);
    let cells: Vec<Felt> = (0..stripes * 8).map(|_| felt(&mut rng)).collect();
    let prover = StackedWhirProver::new(core_whir_config(3), 3);
    let (c, d) = commit_cells(&cells, vec![(1, 3)], &prover);
    (c, d, cells)
}

#[test]
fn reduced_openings_are_accepted_at_the_true_value_only() {
    let (ca, da, mut cells) = core_committed(6, 1);
    let (cb, db, more) = core_committed(7, 2);
    cells.extend(more);
    cells.extend(vec![Felt::zero(); 8]);
    let mut rng = StdRng::seed_from_u64(8);
    let z: Vec<Ext> = (0..5).map(|_| ef(&mut rng)).collect();
    let value = eval_at(&lift_felts(&cells), &z);
    let prover = StackedWhirProver::new(core_whir_config(3), 3);
    let proof = open_reduced_point(&vec![&da, &db], &z, &prover, &mut transcript(2)).unwrap();
    let before = vec![(ca.original_commitment, ca.area)];
    for (claim, good) in [(value, true), (value.plus(Ext::one()), false)] {
        assert_eq!(
            verify_reduced_opening(
                &before,
                &cb,
                &z,
                claim,
                &proof,
                core_whir_config(3),
                &mut transcript(2),
            ),
            good
        );
    }
}

#[test]
fn the_bind_weighs_columns_and_wants_every_one() {
    let weights = vec![ext(2), ext(3), ext(5), ext(7)];
    let claims = vec![vec![ext(1), ext(1)], vec![ext(4)]];
    assert!(cross_bind(&weights, &claims, &vec![vec![ext(1), ext(1)], vec![ext(4)]]));
    // 2 * 4 + 3 * 2 + 5 * 2.2 would differ; 2 * 4 + 3 * (-1) + 5 * 4 agrees.
    let minus = Ext::zero().minus(Ext::one());
    assert!(cross_bind(&weights, &claims, &vec![vec![ext(4), minus], vec![ext(4)]]));
    assert!(!cross_bind(&weights, &claims, &vec![vec![ext(1), ext(1)]]));
    assert!(!cross_bind(&weights, &claims, &vec![vec![ext(1)], vec![ext(4)]]));
    // One other column is noticed under a weight that is not zero.
    let other = vec![vec![ext(1), ext(6)], vec![ext(4)]];
    assert!(!cross_bind(&weights, &claims, &other));
    let unweighted = vec![ext(2), Ext::zero(), ext(5), ext(7)];
    assert!(cross_bind(&unweighted, &claims, &other));
}

#[test]
fn opening_dimensions_address_every_stripe() {
    assert_eq!(opening_dim(&vec![16, 32], 4), 6);
    assert_eq!(opening_dim(&vec![16], 4), 4);
    assert_eq!(effective_area(&vec![16, 32], 4), 64);
}

#[test]
fn short_points_are_extended_and_damp_the_claim() {
    let mut t = transcript(4);
    let mut u = transcript(4);
    let p = extend_point(&[ext(3)], 3, &mut t);
    assert_eq!(p.len(), 3);
    assert_eq!(p[0], ext(3));
    assert_eq!(p[1..].to_vec(), u.sample_point(2));
    let q = vec![ext(3), ext(5), ext(7)];
    // 10 * (1 - 5) * (1 - 7)
    assert_eq!(adjust_claim(ext(10), &q, 1, 3), ext(240));
    assert_eq!(adjust_claim(ext(10), &q, 3, 3), ext(10));
    assert_eq!(sample_z_col(&vec![0, 1, 2, 3, 4, 5], &mut transcript(4)).len(), 3);
}

#[test]
fn a_lone_group_is_the_identity() {
    let layout = concatenate_rounds(&vec![open_round(8)], &[ext(5), ext(6)]);
    let (commit, data, _) = core_committed(9, 1);
    let prover = StackedWhirProver::new(core_whir_config(3), 3);
    let proof =
        open_reduced_point(&vec![&data], &[ext(1), ext(2), ext(3)], &prover, &mut transcript(5));
    let rounds = vec![open_round(8)];
    let b: JaggedBasefoldBundleGeneric<u8, u8, u8> =
        assemble_bundle(1u8, 2u8, proof, 3u8, layout, &rounds, commit, vec![]);
    assert_eq!(b.num_groups(), 1);
    assert!(b.groups.is_empty());
    assert!(b.extra_commit.is_empty());
    assert_eq!(*b.reduction_g(0), 1);
    assert_eq!(*b.basefold_proof_g(0), 2);
    assert_eq!(*b.jagged_eval_g(0), 3);
    assert_eq!(b.commit_g(0).area, 8);
    assert_eq!(b.packing_g(0).total_values, 8);
    assert_eq!(b.groups_or_identity(3), vec![vec![0, 1, 2]]);
    assert!(b.covers(&vec![vec![0, 1, 2]], 3));
    assert!(!b.covers(&vec![vec![0, 1], vec![2]], 3));
}

#[test]
fn all_stripes_or_none_are_at_hand() {
    assert!(stripes_at_hand(&vec![true, true]));
    assert!(!stripes_at_hand(&vec![true, false]));
    assert!(!stripes_at_hand(&vec![]));
}

/// A round of one column of eight cells, committed as one stripe.
fn stripe_round() -> JaggedOpenRound {
    JaggedOpenRound {
        chip_infos: vec![info("a", 4, 2)],
        offsets: vec![0, 4, 8],
        total_values: 8,
        r_row_per_chip: vec![vec![ext(1), ext(2)]],
        claims: vec![vec![ext(10), ext(11)]],
        area: 8,
    }
}

/// Draws a point and evaluates the cells there.
fn drawn_reduction(c: &DenseLayout, z_col: &Vec<Ext>, t: Transcript) -> (Ext, Vec<Ext>, Transcript) {
    let mut t = t;
    assert_eq!(z_col.len(), 2);
    assert_eq!(c.dense.len(), 8);
    let point = t.sample_point(3);
    (eval_at(&lift_felts(&c.dense), &point), point, t)
}

fn replayed(
    offsets: &Vec<usize>,
    z_row: &Vec<Ext>,
    _: &Vec<Ext>,
    point: &Vec<Ext>,
    t: Transcript,
) -> (u8, Transcript) {
    assert_eq!(offsets.len(), 4);
    assert_eq!(z_row.len(), 2);
    assert_eq!(point.len(), 3);
    (7, t)
}

#[test]
fn other_groups_open_under_the_other_scheme() {
    let (commit, data, _) = core_committed(32, 1);
    let z_row = vec![ext(1), ext(2)];
    let prover = StackedWhirProver::new(core_whir_config(3), 3);
    let mut bundle: JaggedBasefoldBundleGeneric<Ext, u8, u8> = prove_jagged_basefold_rounds(
        &vec![stripe_round()],
        &vec![&data],
        &prover,
        commit,
        &z_row,
        &mut transcript(6),
        0u8,
        drawn_reduction,
        replayed,
    )
    .unwrap();
    assert_eq!(bundle.packing.offsets, vec![0, 4, 8, 8]);
    assert_eq!(bundle.packing.padding_heights, vec![vec![0]]);
    bundle.whir_proof = None;
    let infos = vec![info("a", 4, 2), info("<stacking-pad:1>", 0, 1)];
    let rows = vec![vec![ext(1), ext(2)], vec![]];
    for (good, weight) in [(true, 1), (false, 1), (true, 2)] {
        let reduce = |r: &Ext, c: &ReductionClaim, t: Transcript| {
            assert_eq!(*r, bundle.reduction);
            assert_eq!(c.chip_infos.len(), 2);
            assert_eq!(c.chip_infos[0].name, "a");
            assert_eq!(c.r_row_per_chip, rows);
            assert_eq!(c.y_per_chip, vec![vec![ext(10), ext(11)], vec![Ext::zero()]]);
            assert_eq!(c.z_row, z_row);
            assert_eq!(c.z_col.len(), 2);
            (Some((vec![ext(4)], ext(10))), t)
        };
        let other = |c: &OpeningClaim, _: &u8, t: Transcript| {
            assert_eq!(c.commitments, vec![bundle.commit.original_commitment]);
            assert_eq!(c.areas, vec![8]);
            assert_eq!(c.point.len(), 3);
            // The reduced point has one coordinate, a stripe three.
            let one = Ext::one();
            assert_eq!(
                c.value,
                ext(10).times(one.minus(c.point[1])).times(one.minus(c.point[2]))
            );
            (good, t)
        };
        // Under equal weights only the sum of the opened columns counts.
        let opened = Some(vec![vec![ext(9), ext(12)], vec![Ext::zero()]]);
        let weights = |_: &Vec<Ext>| vec![ext(1), ext(weight), ext(1), ext(1)];
        let r = verify_jagged_basefold_inner(
            &infos,
            &rows,
            &z_row,
            &vec![],
            &bundle,
            &opened,
            core_whir_config(3),
            &mut transcript(6),
            true,
            |i: &Vec<JaggedChipInfo>| vec![(0..i.len()).collect()],
            weights,
            reduce,
            |e: &u8, t: Transcript| {
                assert_eq!(*e, 7);
                // Nothing is replayed where the claims and the opened columns differ.
                assert_eq!(weight, 1);
                t
            },
            other,
        );
        assert_eq!(r, good && weight == 1);
    }
}

/// A reduction whose only message is the claimed value, absorbed.
fn absorbed(r: &Ext, _: &ReductionClaim, t: Transcript) -> (Option<(Vec<Ext>, Ext)>, Transcript) {
    let mut t = t;
    t.observe_algebra_element(*r);
    (Some((vec![ext(4)], *r)), t)
}

/// An evaluation of a layout whose only message is a number, absorbed.
fn absorbed_layout(e: &u8, t: Transcript) -> Transcript {
    let mut t = t;
    t.observe(Felt::new(*e as u32));
    t
}

#[test]
fn a_group_is_refused_before_its_layout_is_replayed() {
    let (commit, _, _) = core_committed(32, 1);
    let packing = PackingMeta {
        offsets: vec![0, 4, 8, 8],
        total_values: 8,
        log_dense_size: 3,
        column_counts: vec![2, 1],
        round_counts: vec![],
        padding_heights: vec![],
    };
    for opened in [ext(12), ext(13)] {
        let mut t = transcript(6);
        let r = verify_one_jagged_group(
            &packing,
            vec![info("a", 4, 2)],
            vec![vec![ext(1), ext(2)]],
            &[ext(1), ext(2)],
            vec![vec![ext(10), ext(11)]],
            &Some(vec![vec![ext(9), opened]]),
            &ext(5),
            &7u8,
            &commit,
            &0u8,
            None,
            &mut t,
            &vec![],
            |_: &Vec<Ext>| vec![ext(1), ext(1), ext(1), ext(1)],
            absorbed,
            absorbed_layout,
            |_: &OpeningClaim, _: &u8, t: Transcript| (true, t),
        );
        let accepted = opened == ext(12);
        assert_eq!(r, accepted);
        let mut u = transcript(6);
        u.sample_point(2);
        u.observe_algebra_element(ext(5));
        if accepted {
            u.observe(Felt::new(7));
            u.sample_point(2);
        }
        assert_eq!(t.sample(), u.sample());
    }
}

#[test]
fn the_core_extends_the_reduced_point_before_it_opens() {
    let offsets = vec![0, 1, 2, 3];
    let mut t = transcript(9);
    let (reduction, eval, opened) = prove_jagged_basefold_linear_core(
        &5u8,
        &offsets,
        &vec![],
        16,
        &mut t,
        |c: &u8, z_col: &Vec<Ext>, t: Transcript| (*c as usize + z_col.len(), vec![ext(8)], t),
        |_: &Vec<usize>, _: &Vec<Ext>, _: &Vec<Ext>, p: &Vec<Ext>, t: Transcript| (p.len(), t),
        |p: Vec<Ext>, t: Transcript| (p, t),
    );
    assert_eq!(reduction, 7);
    assert_eq!(eval, 1);
    let mut u = transcript(9);
    u.sample_point(2);
    assert_eq!(opened[0], ext(8));
    assert_eq!(opened[1..].to_vec(), u.sample_point(3));
}

#[test]
fn a_scheme_commits_to_whole_stripes() {
    let a = Trace { values: (1..=6).map(Felt::new).collect(), width: 2 };
    let b = Trace { values: (7..=9).map(Felt::new).collect(), width: 1 };
    let traces = vec![("a".to_string(), a), ("b".to_string(), b)];
    let (commit, data) = commit_jagged_pcs_generic(traces, |mles: Vec<Trace>, log: u32| {
        let cells: Vec<usize> = mles.iter().map(|m| m.values.len()).collect();
        ([mles[1].values[2]; 8], (cells, log))
    });
    assert_eq!(commit.original_commitment, [Felt::new(9); 8]);
    assert_eq!(commit.chip_dims, vec![(2, 21), (1, 21)]);
    assert_eq!(commit.area, 3 << 21);
    assert_eq!(commit.log_stacking_height, 21);
    assert_eq!(data.stacked_data, (vec![2 << 21, 1 << 21], 21));
    assert_eq!(data.chip_dims, commit.chip_dims);
    assert_eq!(data.area, commit.area);
    assert_eq!(data.log_stacking_height, 21);
}

#[test]
fn interleaved_traces_are_committed_by_columns() {
    let a = Trace { values: (1..=6).map(Felt::new).collect(), width: 2 };
    let config = whir_config_for_stack(21, 6, 3);
    let (commit, data) = commit_interleaved_traces(
        vec![("a".to_string(), a)],
        |mles: Vec<Trace>, _log: u32| mles,
        config,
    );
    assert_eq!(commit.area, 2 << 21);
    assert_eq!(commit.chip_dims, vec![(2, 21)]);
    let stripes = &data.stacked_data.stripes;
    assert_eq!(stripes.len(), 2);
    assert_eq!(stripes[0][..4].to_vec(), [1, 3, 5, 0].map(Felt::new).to_vec());
    assert_eq!(stripes[1][..4].to_vec(), [2, 4, 6, 0].map(Felt::new).to_vec());
    assert_eq!(commit.original_commitment, data.stacked_data.commitment);
}

/// Proves one round, with or without its stripes at hand.
fn prove_either(seed: u64, stripes: bool) -> (JaggedBasefoldBundleGeneric<Ext, u8, Ext>, Transcript) {
    let (commit, data, cells) = core_committed(seed, 1);
    let prover = StackedWhirProver::new(core_whir_config(3), 3);
    let values = lift_felts(&cells);
    let kept = KeptRound {
        root: data.stacked_data.commitment,
        cells: &cells,
        log_stacking_height: 3,
        whir_data: if stripes { Some(&data) } else { None },
    };
    let mut t = transcript(6);
    let bundle = prove_jagged_basefold_rounds_generic(
        &vec![stripe_round()],
        &vec![kept],
        &prover,
        commit,
        &vec![ext(1), ext(2)],
        &mut t,
        Ext::zero(),
        drawn_reduction,
        replayed,
        |point: Vec<Ext>, t: Transcript| {
            let mut t = t;
            let value = eval_at(&values, &point);
            t.observe_algebra_element(value);
            (value, t)
        },
    );
    (bundle.unwrap(), t)
}

#[test]
fn missing_stripes_send_an_opening_to_the_other_scheme() {
    let (with, _) = prove_either(41, true);
    assert!(with.whir_proof.is_some());
    assert_eq!(with.basefold_proof, Ext::zero());
    let (without, _) = prove_either(41, false);
    assert!(without.whir_proof.is_none());
    // The reduced point addresses every cell, so that both values are the cells' value.
    assert_eq!(without.basefold_proof, without.reduction);
    assert_eq!(without.packing.offsets, with.packing.offsets);
    assert_eq!(without.preceding_commits.len(), 0);
}

#[test]
fn a_lone_group_is_verified_under_any_scheme() {
    let (bundle, end) = prove_either(42, false);
    let mut reached = end;
    let next = reached.sample();
    let check = |claimed: Ext, accept: bool| {
        let mut t = transcript(6);
        let ok = verify_jagged_basefold_inner_generic(
            vec![info("a", 4, 2), info("b", 0, 1)],
            vec![vec![ext(1), ext(2)], vec![]],
            &[ext(1), ext(2)],
            &bundle,
            &mut t,
            true,
            &vec![],
            |_: &Ext, c: &ReductionClaim, t: Transcript| {
                let mut t = t;
                assert_eq!(c.z_col.len(), 2);
                assert_eq!(c.offsets, vec![0, 4, 8, 8]);
                assert_eq!(c.y_per_chip, bundle.y_per_chip);
                let point = t.sample_point(3);
                (if accept { Some((point, claimed)) } else { None }, t)
            },
            |eval: &u8, t: Transcript| {
                assert_eq!(*eval, 7);
                assert!(accept);
                t
            },
            |c: &OpeningClaim, opening: &Ext, t: Transcript| {
                let mut t = t;
                assert_eq!(c.commitments, vec![bundle.commit.original_commitment]);
                assert_eq!(c.areas, vec![8]);
                assert_eq!(c.log_stacking_height, 3);
                assert_eq!(c.point.len(), 3);
                t.observe_algebra_element(*opening);
                (c.value == *opening, t)
            },
        );
        (ok, t)
    };
    let (ok, mut t) = check(bundle.reduction, true);
    assert!(ok);
    assert_eq!(t.sample(), next);
    assert!(!check(ext(5), true).0);
    assert!(!check(bundle.reduction, false).0);
}

#[test]
fn a_root_is_absorbed_unless_it_was_before() {
    let (bundle, _) = prove_either(43, false);
    let run = |skip: bool, before: bool| {
        let mut t = transcript(6);
        if before {
            for f in bundle.commit.original_commitment {
                t.observe(f);
            }
        }
        verify_jagged_basefold_inner_generic(
            vec![],
            vec![],
            &[],
            &bundle,
            &mut t,
            skip,
            &vec![],
            |_: &Ext, _: &ReductionClaim, t: Transcript| (None, t),
            |_: &u8, t: Transcript| t,
            |_: &OpeningClaim, _: &Ext, t: Transcript| (true, t),
        );
        t.sample()
    };
    assert_eq!(run(false, false), run(true, true));
    assert_ne!(run(false, false), run(true, false));
}
