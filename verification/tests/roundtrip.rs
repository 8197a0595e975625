//! Proofs that are made and verified from end to end. The reduction of jagged columns to one
//! point is played here by a sumcheck over the product of cells and weights.
use rand::rngs::StdRng;
use rand::{Rng, SeedableRng};
use zkm_pcs::air::machine::LookupScope;
use zkm_pcs::ext::Ext;
use zkm_pcs::felt::Felt;
use zkm_pcs::jagged::bundle::{EvaluationProof, JaggedBasefoldBundleGeneric};
use zkm_pcs::jagged::claims::{OpeningClaim, ReductionClaim};
use zkm_pcs::jagged::groups::verify_jagged_basefold_no_observe;
use zkm_pcs::jagged::hash_bind::jagged_hash_bind_modified;
use zkm_pcs::jagged::layout::JaggedOpenRound;
use zkm_pcs::jagged::linear::{prove_jagged_basefold_rounds, DenseLayout};
use zkm_pcs::jagged::packing::{build_jagged_verify_inputs, row_coords, JaggedChipInfo, JaggedPacking,
    PackingMeta};
use zkm_pcs::multilinear::{eval_at, lift_felts};
use zkm_pcs::septic::curve::SepticCurve;
use zkm_pcs::shard::error::BasefoldVerifyError;
use zkm_pcs::shard::gkr_rows::CircuitLayer;
use zkm_pcs::shard::lookup::{ChipLookups, Trace};
use zkm_pcs::shard::openings::PaddedMle;
use zkm_pcs::shard::prove::CommittedSide;
use zkm_pcs::shard::prove_shard::{prove_shard_with_data, MainCommit, ShardData};
use zkm_pcs::shard::sumcheck::{PartialSumcheckProof, UnivariatePolynomial};
use zkm_pcs::shard::types::{ChipOpenedValues, LogUpEvaluations, LogUpGkrOutput, LogupGkrRoundProof,
    ShardChip};
use zkm_pcs::shard::verify::{BasefoldShardProof, BasefoldShardVerifier};
use zkm_pcs::shard::zerocheck::ConstraintValues;
use zkm_pcs::transcript::Transcript;
use zkm_pcs::whir::jagged::{commit_cells, JaggedCommit, JaggedWhirProverData};
use zkm_pcs::whir::messages::{LeafOpening, MerkleOpening, ProofOfWork, SumcheckPoly, WhirProof};
use zkm_pcs::whir::schedule::core_whir_config;
use zkm_pcs::whir::stacked::{StackedWhirProof, StackedWhirProver};
use zkm_pcs::whir::sumcheck::eq_table;

fn felt(r: &mut StdRng) -> Felt {
    Felt::new(r.gen::<u32>() & 0x3FFF_FFFF)
}

fn ef(r: &mut StdRng) -> Ext {
    Ext { c0: felt(r), c1: felt(r), c2: felt(r), c3: felt(r) }
}

/// The messages of the sumcheck, and the value of the cells at its point.
struct Reduction {
    messages: Vec<[Ext; 3]>,
    q_at_z: Ext,
}

type Bundle = JaggedBasefoldBundleGeneric<Reduction, u8, u8>;

/// The weight of every cell: that of its column, times that of its row.
fn weight_table(
    infos: &[JaggedChipInfo],
    offsets: &[usize],
    rows: &[Vec<Ext>],
    z_col: &[Ext],
    size: usize,
) -> Vec<Ext> {
    let columns = eq_table(z_col.len(), z_col);
    let mut table = vec![Ext::zero(); size];
    let mut k = 0;
    for (info, row) in infos.iter().zip(rows) {
        let eq = eq_table(row.len(), row);
        for _ in 0..info.column_count {
            for j in 0..info.row_count {
                table[offsets[k] + j] = columns[k].times(eq[j]);
            }
            k += 1;
        }
    }
    table
}

fn weigh(claims: &[Vec<Ext>], z_col: &[Ext]) -> Ext {
    let columns = eq_table(z_col.len(), z_col);
    let mut sum = Ext::zero();
    for (k, y) in claims.iter().flatten().enumerate() {
        sum = sum.plus(columns[k].times(*y));
    }
    sum
}

fn fold(v: &[Ext], r: Ext) -> Vec<Ext> {
    v.chunks(2).map(|p| p[0].plus(p[1].minus(p[0]).times(r))).collect()
}

fn reduce(c: &DenseLayout, z_col: &Vec<Ext>, t: Transcript) -> (Reduction, Vec<Ext>, Transcript) {
    let mut t = t;
    let l = &c.layout;
    let mut f = lift_felts(&c.dense);
    let mut w = weight_table(&l.chip_infos, &l.offsets, &l.r_row_per_chip, z_col, f.len());
    let mut claim = weigh(&l.y_per_chip, z_col);
    let mut messages = vec![];
    let mut point = vec![];
    while f.len() > 1 {
        let (mut c0, mut c2) = (Ext::zero(), Ext::zero());
        for (p, q) in f.chunks(2).zip(w.chunks(2)) {
            c0 = c0.plus(p[0].times(q[0]));
            c2 = c2.plus(p[1].minus(p[0]).times(q[1].minus(q[0])));
        }
        let m = [c0, claim.minus(c0).minus(c0).minus(c2), c2];
        t.observe_algebra_slice(&m);
        let r = t.sample_algebra_element();
        claim = m[0].plus(m[1].plus(m[2].times(r)).times(r));
        messages.push(m);
        point.push(r);
        f = fold(&f, r);
        w = fold(&w, r);
    }
    (Reduction { messages, q_at_z: f[0] }, point, t)
}

fn check_reduction(
    p: &Reduction,
    c: &ReductionClaim,
    t: Transcript,
) -> (Option<(Vec<Ext>, Ext)>, Transcript) {
    let mut t = t;
    let mut claim = weigh(&c.y_per_chip, &c.z_col);
    let mut point = vec![];
    for m in &p.messages {
        if m[0].plus(m[0]).plus(m[1]).plus(m[2]) != claim {
            return (None, t);
        }
        t.observe_algebra_slice(m);
        let r = t.sample_algebra_element();
        claim = m[0].plus(m[1].plus(m[2].times(r)).times(r));
        point.push(r);
    }
    let size = c.total_values.next_power_of_two();
    if 1 << point.len() != size {
        return (None, t);
    }
    let w = weight_table(&c.chip_infos, &c.offsets, &c.r_row_per_chip, &c.z_col, size);
    if p.q_at_z.times(eval_at(&w, &point)) != claim {
        return (None, t);
    }
    (Some((point, p.q_at_z)), t)
}

fn replay(eval: &u8, t: Transcript) -> Transcript {
    assert_eq!(*eval, 7);
    t
}

fn evaluate(
    _: &Vec<usize>,
    _: &Vec<Ext>,
    _: &Vec<Ext>,
    _: &Vec<Ext>,
    t: Transcript,
) -> (u8, Transcript) {
    (7, t)
}

fn one_group(infos: &Vec<JaggedChipInfo>) -> Vec<Vec<usize>> {
    vec![(0..infos.len()).collect()]
}

fn column_weights(z_col: &Vec<Ext>) -> Vec<Ext> {
    eq_table(z_col.len(), z_col)
}

fn no_other(_: &OpeningClaim, _: &u8, _: Transcript) -> (bool, Transcript) {
    panic!("the first group has a stacked proof")
}

/// Proves the columns of chips of the given widths and heights, in one commitment of 128
/// cells, at a point of 21 coordinates.
fn prove(shapes: &[(usize, usize)], seed: u64) -> (Bundle, Vec<usize>, Vec<Ext>) {
    let mut rng = StdRng::seed_from_u64(seed);
    let mut cells: Vec<Felt> = vec![];
    let mut offsets: Vec<usize> = vec![];
    let mut chip_infos = vec![];
    for (i, (width, height)) in shapes.iter().enumerate() {
        for _ in 0..*width {
            offsets.push(cells.len());
            cells.extend((0..*height).map(|_| felt(&mut rng)));
        }
        chip_infos.push(JaggedChipInfo {
            name: format!("chip{i:03}"),
            row_count: *height,
            column_count: *width,
        });
    }
    let z_row: Vec<Ext> = (0..21).map(|_| ef(&mut rng)).collect();
    let total_values = cells.len();
    offsets.push(total_values);
    let mut claims = vec![];
    let mut r_row_per_chip = vec![];
    let mut k = 0;
    for (width, height) in shapes {
        let row = row_coords(&z_row, *height);
        let columns = (k..k + width).map(|c| {
            eval_at(&lift_felts(&cells[offsets[c]..offsets[c] + height].to_vec()), &row)
        });
        claims.push(columns.collect());
        r_row_per_chip.push(row);
        k += width;
    }
    cells.resize(128, Felt::zero());
    let prover = StackedWhirProver::new(core_whir_config(7), 7);
    let (commit, data) = commit_cells(&cells, vec![(1, 7)], &prover);
    let mut t = Transcript::new();
    for f in commit.original_commitment {
        t.observe(f);
    }
    let round =
        JaggedOpenRound { chip_infos, offsets, total_values, r_row_per_chip, claims, area: 128 };
    let bundle = prove_jagged_basefold_rounds(
        &vec![round],
        &vec![&data],
        &prover,
        commit,
        &z_row,
        &mut t,
        0,
        reduce,
        evaluate,
    )
    .unwrap();
    (bundle, shapes.iter().map(|s| s.0).collect(), z_row)
}

fn verify_main_round(
    bundle: &Bundle,
    chip_widths: &Vec<usize>,
    z_row: &Vec<Ext>,
    opened_main: Option<Vec<Vec<Ext>>>,
) -> bool {
    let (chip_infos, r_row_per_chip, z) =
        build_jagged_verify_inputs(&bundle.packing, chip_widths, z_row);
    let mut t = Transcript::new();
    for f in bundle.commit.original_commitment {
        t.observe(f);
    }
    verify_jagged_basefold_no_observe(
        &chip_infos,
        &r_row_per_chip,
        &z,
        &vec![],
        bundle,
        &opened_main,
        core_whir_config(7),
        &mut t,
        one_group,
        column_weights,
        check_reduction,
        replay,
        no_other,
    )
}

#[test]
fn test_jagged_basefold_roundtrip() {
    let (bundle, widths, z_row) = prove(&[(4, 16), (2, 8)], 0xC0DE_BA5E);
    assert!(verify_main_round(&bundle, &widths, &z_row, None));
}

#[test]
fn test_jagged_basefold_rejects_tampered_proof() {
    let honest = || prove(&[(4, 16)], 0xDEAD_BEEF);
    let (bundle, widths, z_row) = honest();
    assert!(verify_main_round(&bundle, &widths, &z_row, None), "the untampered bundle must verify");
    let (mut tampered, _, _) = honest();
    tampered.reduction.q_at_z = tampered.reduction.q_at_z.plus(Ext::one());
    assert!(!verify_main_round(&tampered, &widths, &z_row, None), "must reject q_at_z tampering");
    let (mut tampered, _, _) = honest();
    tampered.y_per_chip[0][0] = tampered.y_per_chip[0][0].plus(Ext::one());
    assert!(!verify_main_round(&tampered, &widths, &z_row, None), "must reject y_per_chip tampering");
    let (mut tampered, _, _) = honest();
    let proof = &mut tampered.whir_proof.as_mut().unwrap().whir_proof;
    proof.final_poly[0] = proof.final_poly[0].plus(Ext::one());
    assert!(!verify_main_round(&tampered, &widths, &z_row, None), "must reject final_poly tampering");
}

#[test]
fn a_proof_that_lacks_an_entry_is_refused() {
    let honest = || prove(&[(4, 16)], 0xDEAD_BEEF);
    let (_, widths, z_row) = honest();
    for part in 0..3 {
        let (mut short, _, _) = honest();
        let p = &mut short.whir_proof.as_mut().unwrap().whir_proof;
        match part {
            0 => {
                p.folding_pow.pop();
            },
            1 => p.round_query_openings.clear(),
            _ => {
                p.folding_pow.clear();
                p.round_query_openings.clear();
                p.round_commitments.clear();
            },
        }
        assert!(!verify_main_round(&short, &widths, &z_row, None));
    }
}

#[test]
fn crossbind_rejects_divergent_openings() {
    let (bundle, widths, z_row) = prove(&[(4, 16), (2, 8)], 0x0121_0BAD);
    let opened_ok = bundle.y_per_chip.clone();
    assert!(verify_main_round(&bundle, &widths, &z_row, Some(opened_ok.clone())));
    let mut opened_bad = opened_ok;
    opened_bad[0][0] = opened_bad[0][0].plus(Ext::one());
    assert!(!verify_main_round(&bundle, &widths, &z_row, Some(opened_bad)));
    assert!(verify_main_round(&bundle, &widths, &z_row, None));
}

type WireExt = [u32; 4];
type WireDigest = [u32; 8];
type WireReduction = (Vec<[WireExt; 3]>, WireExt);
type WireCommit = (WireDigest, Vec<(usize, u32)>, usize, u32);
type WirePacking =
    (Vec<usize>, usize, usize, Vec<usize>, Vec<Vec<(usize, usize)>>, Vec<Vec<usize>>);
type WireLeaf = (Vec<Vec<u32>>, Vec<WireDigest>);
type WireWhir = (
    Vec<Vec<Vec<WireExt>>>,
    Vec<Vec<WireExt>>,
    Vec<WireDigest>,
    Vec<Vec<WireLeaf>>,
    Vec<WireExt>,
    Vec<Vec<WireExt>>,
    Vec<u32>,
    u32,
);
type WireBundle = (
    (WireReduction, u8, Vec<Vec<WireExt>>, WireCommit, WirePacking, u8, Vec<WireDigest>),
    (Vec<WireReduction>, Vec<u8>, Vec<WireCommit>, Vec<WirePacking>, Vec<u8>, Vec<Vec<usize>>),
    Option<(WireWhir, Vec<Vec<WireExt>>)>,
);

fn ext_out(e: &Ext) -> WireExt {
    [e.c0, e.c1, e.c2, e.c3].map(|f| f.value())
}

fn ext_in(w: WireExt) -> Ext {
    let [c0, c1, c2, c3] = w.map(Felt::new);
    Ext { c0, c1, c2, c3 }
}

fn exts_out(v: &[Ext]) -> Vec<WireExt> {
    v.iter().map(ext_out).collect()
}

fn exts_in(v: Vec<WireExt>) -> Vec<Ext> {
    v.into_iter().map(ext_in).collect()
}

fn digest_out(d: &[Felt; 8]) -> WireDigest {
    d.map(|f| f.value())
}

fn digest_in(d: WireDigest) -> [Felt; 8] {
    d.map(Felt::new)
}

fn reduction_out(r: &Reduction) -> WireReduction {
    (r.messages.iter().map(|m| [0, 1, 2].map(|i| ext_out(&m[i]))).collect(), ext_out(&r.q_at_z))
}

fn reduction_in(w: WireReduction) -> Reduction {
    Reduction { messages: w.0.into_iter().map(|m| m.map(ext_in)).collect(), q_at_z: ext_in(w.1) }
}

fn commit_out(c: &JaggedCommit) -> WireCommit {
    (digest_out(&c.original_commitment), c.chip_dims.clone(), c.area, c.log_stacking_height)
}

fn commit_in(w: WireCommit) -> JaggedCommit {
    JaggedCommit {
        original_commitment: digest_in(w.0),
        chip_dims: w.1,
        area: w.2,
        log_stacking_height: w.3,
    }
}

fn packing_out(p: &PackingMeta) -> WirePacking {
    (
        p.offsets.clone(),
        p.total_values,
        p.log_dense_size,
        p.column_counts.clone(),
        p.round_counts.clone(),
        p.padding_heights.clone(),
    )
}

fn packing_in(w: WirePacking) -> PackingMeta {
    PackingMeta {
        offsets: w.0,
        total_values: w.1,
        log_dense_size: w.2,
        column_counts: w.3,
        round_counts: w.4,
        padding_heights: w.5,
    }
}

fn polys_out(v: &Vec<SumcheckPoly>) -> Vec<Vec<WireExt>> {
    v.iter().map(|p| exts_out(&p.0)).collect()
}

fn polys_in(v: Vec<Vec<WireExt>>) -> Vec<SumcheckPoly> {
    v.into_iter().map(|p| SumcheckPoly(exts_in(p))).collect()
}

fn leaf_out(l: &LeafOpening) -> WireLeaf {
    let rows = l.values.iter().map(|r| r.iter().map(|f| f.value()).collect()).collect();
    (rows, l.path.iter().map(digest_out).collect())
}

fn leaf_in(w: WireLeaf) -> LeafOpening {
    LeafOpening {
        values: w.0.into_iter().map(|r| r.into_iter().map(Felt::new).collect()).collect(),
        path: w.1.into_iter().map(digest_in).collect(),
    }
}

fn stacked_out(p: &StackedWhirProof) -> (WireWhir, Vec<Vec<WireExt>>) {
    let w = &p.whir_proof;
    let openings = &w.round_query_openings;
    (
        (
            w.round_sumcheck_polys.iter().map(polys_out).collect(),
            w.round_ood_answers.iter().map(|v| exts_out(v)).collect(),
            w.round_commitments.iter().map(digest_out).collect(),
            openings.iter().map(|o| o.leaves.iter().map(leaf_out).collect()).collect(),
            exts_out(&w.final_poly),
            polys_out(&w.final_sumcheck_polys),
            w.folding_pow.iter().map(|x| x.0.value()).collect(),
            w.final_pow.0.value(),
        ),
        p.batch_evaluations.iter().map(|v| exts_out(v)).collect(),
    )
}

fn stacked_in(w: (WireWhir, Vec<Vec<WireExt>>)) -> StackedWhirProof {
    let (polys, answers, roots, openings, final_poly, last, pows, final_pow) = w.0;
    StackedWhirProof {
        whir_proof: WhirProof {
            round_sumcheck_polys: polys.into_iter().map(polys_in).collect(),
            round_ood_answers: answers.into_iter().map(exts_in).collect(),
            round_commitments: roots.into_iter().map(digest_in).collect(),
            round_query_openings: openings
                .into_iter()
                .map(|o| MerkleOpening { leaves: o.into_iter().map(leaf_in).collect() })
                .collect(),
            final_poly: exts_in(final_poly),
            final_sumcheck_polys: polys_in(last),
            folding_pow: pows.into_iter().map(|x| ProofOfWork(Felt::new(x))).collect(),
            final_pow: ProofOfWork(Felt::new(final_pow)),
        },
        batch_evaluations: w.1.into_iter().map(exts_in).collect(),
    }
}

fn to_bytes(b: &Bundle) -> Vec<u8> {
    let wire: WireBundle = (
        (
            reduction_out(&b.reduction),
            b.basefold_proof,
            b.y_per_chip.iter().map(|v| exts_out(v)).collect(),
            commit_out(&b.commit),
            packing_out(&b.packing),
            b.jagged_eval,
            b.preceding_commits.iter().map(digest_out).collect(),
        ),
        (
            b.extra_reduction.iter().map(reduction_out).collect(),
            b.extra_basefold_proof.clone(),
            b.extra_commit.iter().map(commit_out).collect(),
            b.extra_packing.iter().map(packing_out).collect(),
            b.extra_jagged_eval.clone(),
            b.groups.clone(),
        ),
        b.whir_proof.as_ref().map(stacked_out),
    );
    rmp_serde::to_vec(&wire).unwrap()
}

fn from_bytes(bytes: &[u8]) -> Option<Bundle> {
    let (first, extra, whir): WireBundle = rmp_serde::from_slice(bytes).ok()?;
    Some(JaggedBasefoldBundleGeneric {
        reduction: reduction_in(first.0),
        basefold_proof: first.1,
        whir_proof: whir.map(stacked_in),
        y_per_chip: first.2.into_iter().map(exts_in).collect(),
        commit: commit_in(first.3),
        packing: packing_in(first.4),
        jagged_eval: first.5,
        preceding_commits: first.6.into_iter().map(digest_in).collect(),
        extra_reduction: extra.0.into_iter().map(reduction_in).collect(),
        extra_basefold_proof: extra.1,
        extra_commit: extra.2.into_iter().map(commit_in).collect(),
        extra_packing: extra.3.into_iter().map(packing_in).collect(),
        extra_jagged_eval: extra.4,
        groups: extra.5,
    })
}

/// One group of all columns has no parts beside those of the first group, and its bytes
/// stand for the same bundle.
#[test]
fn test_cp_a_g1_noop_byte_identity() {
    let (bundle, widths, z_row) = prove(&[(4, 16), (2, 8), (6, 4)], 0xA11CE);
    assert_eq!(bundle.num_groups(), 1);
    assert!(bundle.groups.is_empty());
    assert!(bundle.extra_reduction.is_empty());
    assert!(bundle.extra_basefold_proof.is_empty());
    assert!(bundle.extra_commit.is_empty());
    assert!(bundle.extra_packing.is_empty());
    assert!(bundle.extra_jagged_eval.is_empty());
    let bytes = to_bytes(&bundle);
    let bundle2 = from_bytes(&bytes).expect("the bytes stand for a bundle");
    let bytes2 = to_bytes(&bundle2);
    assert_eq!(bytes, bytes2, "the bytes come back");
    assert_eq!(format!("{:?}", bundle.whir_proof), format!("{:?}", bundle2.whir_proof));
    assert_eq!(bundle.y_per_chip, bundle2.y_per_chip);
    assert!(verify_main_round(&bundle, &widths, &z_row, None));
    assert!(verify_main_round(&bundle2, &widths, &z_row, None));
    assert!(from_bytes(&bytes[..bytes.len() - 1]).is_none());
}

#[test]
fn other_partitions_are_refused() {
    let (mut bundle, widths, z_row) = prove(&[(4, 16)], 5);
    bundle.groups = vec![vec![0]];
    assert!(!verify_main_round(&bundle, &widths, &z_row, None));
    // The group of all is the one that is meant where none is named.
    bundle.groups = vec![vec![0, 1]];
    assert!(verify_main_round(&bundle, &widths, &z_row, None));
}

type Proof = BasefoldShardProof<Reduction, u8, u8>;

fn chip() -> ShardChip {
    ShardChip {
        name: "Tiny".to_string(),
        width: 1,
        preprocessed_width: 0,
        lookups: ChipLookups { sends: vec![], receives: vec![] },
    }
}

fn none() -> PaddedMle {
    PaddedMle { inner: None, metadata_height: None }
}

fn side(chip_infos: Vec<JaggedChipInfo>, total_values: usize, area: usize) -> CommittedSide {
    let mut offsets = vec![0];
    if total_values > 0 {
        offsets.push(total_values);
    }
    CommittedSide {
        packing: JaggedPacking { chip_infos, offsets, total_values, dense_len: area },
        area,
    }
}

fn committed() -> (JaggedCommit, JaggedWhirProverData, StackedWhirProver) {
    let mut cells = vec![Felt::zero(); 8];
    cells[1] = Felt::one();
    let prover = StackedWhirProver::new(core_whir_config(3), 3);
    let (commit, data) = commit_cells(&cells, vec![(1, 3)], &prover);
    (commit, data, prover)
}

/// Proves a shard of one column, of a zero and a one, under the constraint that a cell is
/// zero or one.
fn prove_shard(retained: bool) -> (Proof, Transcript) {
    let (commit, data, prover) = committed();
    let digest = jagged_hash_bind_modified(commit.original_commitment, &[2], &[1]);
    let main = || MainCommit {
        main_commitment: digest,
        side: side(
            vec![JaggedChipInfo { name: "Tiny".to_string(), row_count: 2, column_count: 1 }],
            2,
            8,
        ),
    };
    let shard = ShardData {
        chips: vec![chip()],
        scopes: vec![LookupScope::Local],
        preprocessed_traces: vec![none()],
        main_traces: vec![PaddedMle {
            inner: Some(Trace { values: vec![Felt::zero(), Felt::one()], width: 1 }),
            metadata_height: None,
        }],
        chip_cum_tails: vec![None],
        preprocessed: side(vec![], 0, 0),
        commit_data: if retained { Some(main()) } else { None },
    };
    let build = |_: &Vec<ShardChip>,
                 _: &Vec<PaddedMle>,
                 _: &Vec<PaddedMle>,
                 _: Ext,
                 _: &Vec<Ext>,
                 _: usize| {
        let layers: Vec<CircuitLayer<()>> = vec![CircuitLayer { num_row_variables: 0, layer: () }];
        let output = LogUpGkrOutput {
            numerator: vec![Ext::zero(), Ext::zero()],
            denominator: vec![Ext::one(), Ext::one()],
        };
        (output, layers)
    };
    let prove_round = |_: &(),
                       _: &Vec<Ext>,
                       _: Ext,
                       _: Ext,
                       _: Ext,
                       _: Transcript|
     -> (LogupGkrRoundProof, Transcript) { panic!("there is no layer with rows") };
    let zerocheck = |d: &ShardData,
                     pv: &Vec<Felt>,
                     e: &LogUpEvaluations,
                     alpha: Ext,
                     beta: Ext,
                     vars: usize,
                     _: bool,
                     t: Transcript| {
        let mut t = t;
        assert_eq!(d.chips.len(), 1);
        assert_eq!(pv.len(), 1);
        assert_eq!(vars, 1);
        let _lambda = t.sample_algebra_element();
        let zeta = e.point[0];
        // (1 - z - x + 2zx) (alpha x (x - 1) + beta x)
        let low = Ext::one().minus(zeta);
        let high = zeta.minus(low);
        let linear = beta.minus(alpha);
        let poly = vec![
            Ext::zero(),
            low.times(linear),
            low.times(alpha).plus(high.times(linear)),
            high.times(alpha),
            Ext::zero(),
        ];
        t.observe_algebra_slice(&poly);
        let r = t.sample_algebra_element();
        let mut value = Ext::zero();
        for c in poly.iter().rev() {
            value = value.times(r).plus(*c);
        }
        let proof = PartialSumcheckProof {
            univariate_polys: vec![UnivariatePolynomial { coefficients: poly }],
            claimed_sum: zeta.times(beta),
            point_and_eval: (vec![r], value),
        };
        (proof, vec![("Tiny".to_string(), vec![r])], t)
    };
    let open = |rounds: Vec<JaggedOpenRound>, point: &Vec<Ext>, t: Transcript| {
        let mut t = t;
        assert_eq!(rounds.len(), 1);
        assert_eq!(rounds[0].claims, vec![point.clone()]);
        let again = JaggedCommit {
            original_commitment: commit.original_commitment,
            chip_dims: vec![],
            area: 8,
            log_stacking_height: 3,
        };
        let bundle = prove_jagged_basefold_rounds(
            &rounds,
            &vec![&data],
            &prover,
            again,
            point,
            &mut t,
            0,
            reduce,
            evaluate,
        )
        .unwrap();
        (EvaluationProof::Bundle(bundle), t)
    };
    let mut t = Transcript::new();
    let proof = prove_shard_with_data(
        &shard,
        vec![Felt::new(9)],
        1,
        2,
        false,
        SepticCurve::dummy(),
        &mut t,
        |_: &Vec<ShardChip>, _: &Vec<PaddedMle>, _: bool| {
            assert!(!retained);
            main()
        },
        build,
        prove_round,
        zerocheck,
        open,
        |_: &Vec<usize>, _: &Vec<usize>, total: usize| (vec![total], 3),
    )
    .unwrap();
    (proof, t)
}

fn verify_shard(p: &Proof, top: u32, t: &mut Transcript) -> Result<(), BasefoldVerifyError> {
    BasefoldShardVerifier::with_params(1).verify_shard(
        &vec![chip()],
        &vec![],
        &[Felt::zero(); 8],
        p,
        t,
        1,
        2,
        false,
        core_whir_config(3),
        |_: Ext, _: &Vec<Ext>, _: &Vec<Felt>| -> Ext { panic!("no lookup is closed so") },
        |_: &ShardChip, o: &ChipOpenedValues, alpha: Ext, pv: &Vec<Felt>| {
            assert_eq!(*pv, vec![Felt::new(9)]);
            let x = o.main[0];
            ConstraintValues {
                at_openings: alpha.times(x).times(x.minus(Ext::from_base(Felt::new(top)))),
                at_padding: Ext::zero(),
            }
        },
        one_group,
        column_weights,
        check_reduction,
        replay,
        no_other,
    )
}

fn refusal(p: &Proof) -> String {
    verify_shard(p, 1, &mut Transcript::new()).unwrap_err().message()
}

fn bundle_of(p: &mut Proof) -> &mut Bundle {
    match &mut p.evaluation_proof {
        EvaluationProof::Bundle(b) => b,
        _ => panic!("there is a bundle"),
    }
}

#[test]
fn a_proved_shard_is_verified() {
    for retained in [true, false] {
        let (p, mut mine) = prove_shard(retained);
        assert_eq!(p.row_counts, vec![vec![8]]);
        let mut theirs = Transcript::new();
        verify_shard(&p, 1, &mut theirs).unwrap();
        assert_eq!(mine.sample(), theirs.sample());
    }
}

#[test]
fn a_shard_is_refused_for_every_part() {
    let rejected = "jagged-PCS: verify_jagged_basefold_no_observe rejected the bundle";
    // Another constraint.
    let (p, _) = prove_shard(true);
    assert_eq!(
        verify_shard(&p, 2, &mut Transcript::new()).unwrap_err().message(),
        "zerocheck: zerocheck rlc_eval != point_and_eval.1 (item-12 constraint-RLC binding)"
    );
    // Another lookup argument.
    let (mut p, _) = prove_shard(true);
    p.logup_gkr_proof.circuit_output.numerator[0] = Ext::one();
    assert!(matches!(
        verify_shard(&p, 1, &mut Transcript::new()),
        Err(BasefoldVerifyError::LogupGkr(_))
    ));
    // A forged reduction.
    let (mut p, _) = prove_shard(true);
    let b = bundle_of(&mut p);
    b.reduction.q_at_z = b.reduction.q_at_z.plus(Ext::one());
    assert_eq!(refusal(&p), rejected);
    // Claims that are not the opened columns.
    let (mut p, _) = prove_shard(true);
    let b = bundle_of(&mut p);
    b.y_per_chip[0][0] = b.y_per_chip[0][0].plus(Ext::one());
    assert_eq!(refusal(&p), rejected);
    // A forged opening.
    let (mut p, _) = prove_shard(true);
    let proof = &mut bundle_of(&mut p).whir_proof.as_mut().unwrap().whir_proof;
    proof.final_poly[0] = proof.final_poly[0].plus(Ext::one());
    assert_eq!(refusal(&p), rejected);
    // Another layout.
    let (mut p, _) = prove_shard(true);
    bundle_of(&mut p).packing.round_counts[0][0].0 = 1;
    assert!(refusal(&p).starts_with("jagged-PCS: jagged hash-bind mismatch"));
}
