//! The steps of a shard prover between its arguments.
use vstd::prelude::*;
use vstd::arithmetic::power2::pow2;
use crate::air::machine::LookupScope;
use crate::ext::{e_zero, epoints, evals, fvals, Ext, E4};
use crate::felt::{reduce, Felt};
use crate::jagged::bundle::EvaluationProof;
use crate::jagged::bundle::JaggedBasefoldBundleGeneric;
use crate::jagged::hash_bind::{bound_digest, jagged_hash_bind_from_jagged_packing};
use crate::jagged::layout::{copy_infos, info_vals, JaggedOpenRound, RoundVal};
use crate::jagged::packing::{columns_before, copy_counts, group_heights, nats, row_coords,
    row_point, widths_of, JaggedChipInfo, JaggedPacking};
use crate::merkle::Digest;
use crate::multilinear::copy_exts;
use crate::septic::curve::SepticCurve;
use crate::septic::digest::{chip_global_sum, global_sum};
use crate::shard::host::{chip_index, find_chip};
use crate::shard::lookup::{table_height, Trace};
use crate::shard::names::{as_ints, entry_value, find_entry, has_entry, sorted_chips};
use crate::shard::places::{find_name_places, is_name_map, name_lt, name_places, name_places_hold};
use crate::shard::gkr::{challenge_weights, challenges_sponge, walk_end, LogupChallenges};
use crate::shard::gkr_prove::draw_logup_challenges;
use crate::shard::openings::{gkr_pairs, observe_openings, observe_transcript_prologue, prologue,
    raw_heights, PaddedMle};
use crate::shard::residual::{build_chip_heights, build_opened_values, distinct_names, height_of,
    heights_agree, holds_heights, observe_zerocheck_openings_from_residual,
    observed_openings_agree, opened_at, opened_matches, residual_of, residual_pairs, trace_width};
use crate::shard::sumcheck::PartialSumcheckProof;
use crate::shard::types::{ChipOpenedValues, FoldOrientation, LogupGkrProof, ShardChip};
use crate::shard::verify::{arities_fit, heights_by_name, seed_dim, shard_sponge, proof_prologue, BasefoldShardProof,
    ChipCumulativeSums};
use crate::transcript::{Sponge, Transcript};
use crate::whir::config::WhirConfig;
use crate::whir::jagged::{commit_jagged_whir_generic, commits_to, narrow, padded_cells,
    padded_total, JaggedCommit, JaggedWhirProverData};
use crate::whir::stacked::StackedWhirProver;
use crate::whir::sumcheck::{is_grind, no_grind};

verus! {

/// Commits to the cells of a layout, and binds the root to the layout. The first result is
/// what the transcript absorbs.
pub fn commit_traces(
    dense: Vec<(String, Trace)>,
    packing: &JaggedPacking,
    config: WhirConfig,
) -> (r: (Digest, JaggedCommit, JaggedWhirProverData))
    requires
        narrow(dense@),
        0 < padded_total(dense@, dense@.len() as int) <= usize::MAX,
        (StackedWhirProver { config, log_stacking_height: 21 }).can_commit(),
        columns_before(widths_of(packing.chip_infos@), packing.chip_infos@.len() as int)
            <= usize::MAX,
    ensures
        commits_to(
            (StackedWhirProver { config, log_stacking_height: 21 }),
            padded_cells(dense@, dense@.len() as int),
            r.1,
            r.2,
        ),
        fvals(r.0@) == bound_digest(
            fvals(r.1.original_commitment@),
            group_heights(
                packing.offsets@,
                packing.total_values as nat,
                widths_of(packing.chip_infos@),
            ),
            nats(widths_of(packing.chip_infos@)),
        ),
{
    let (commit, data) = commit_jagged_whir_generic(dense, config);
    let bound = jagged_hash_bind_from_jagged_packing(commit.original_commitment, packing);
    (bound, commit, data)
}

/// The traces by name, in the order of the chips.
pub fn order_traces<'a>(chips: &Vec<ShardChip>, main_traces: &'a Vec<(String, PaddedMle)>) -> (r:
    Vec<&'a PaddedMle>)
    requires
        forall|i: int|
            0 <= i < chips@.len() ==> has_entry(main_traces@, (#[trigger] chips@[i]).name@),
    ensures
        r@.len() == chips@.len(),
        forall|i: int|
            0 <= i < r@.len() ==> *(#[trigger] r@[i]) == entry_value(
                main_traces@,
                chips@[i].name@,
            ),
{
    let mut r: Vec<&'a PaddedMle> = Vec::new();
    let mut i: usize = 0;
    while i < chips.len()
        invariant
            i <= chips@.len(),
            forall|i: int|
                0 <= i < chips@.len() ==> has_entry(main_traces@, (#[trigger] chips@[i]).name@),
            r@.len() == i,
            forall|j: int|
                0 <= j < i ==> *(#[trigger] r@[j]) == entry_value(
                    main_traces@,
                    chips@[j].name@,
                ),
        decreases chips@.len() - i,
    {
        proof {
            assert(has_entry(main_traces@, chips@[i as int].name@));
        }
        let at: usize = match find_entry(main_traces, &chips[i].name) {
            Some(at) => at,
            None => 0,
        };
        r.push(&main_traces[at].1);
        i = i + 1;
    }
    r
}

/// The heights of the traces whose rows are held elsewhere, none for the others.
pub fn open_heights(traces: &Vec<PaddedMle>) -> (r: Vec<Option<usize>>)
    ensures
        r@.len() == traces@.len(),
        forall|i: int|
            0 <= i < r@.len() ==> #[trigger] r@[i] == (if traces@[i].inner is None {
                traces@[i].metadata_height
            } else {
                None
            }),
{
    let mut r: Vec<Option<usize>> = Vec::new();
    let mut i: usize = 0;
    while i < traces.len()
        invariant
            i <= traces@.len(),
            r@.len() == i,
            forall|j: int|
                0 <= j < i ==> #[trigger] r@[j] == (if traces@[j].inner is None {
                    traces@[j].metadata_height
                } else {
                    None
                }),
        decreases traces@.len() - i,
    {
        let h: Option<usize> = match &traces[i].inner {
            None => traces[i].metadata_height,
            Some(_) => None,
        };
        r.push(h);
        i = i + 1;
    }
    r
}

/// Whether every committed preprocessed group is a chip of the shard that has at least as
/// many columns at the reduced point.
pub open spec fn prep_round_fits(
    chips: Seq<ShardChip>,
    infos: Seq<JaggedChipInfo>,
    trace_at_z: Seq<(String, Vec<Ext>)>,
) -> bool {
    forall|i: int|
        0 <= i < infos.len() ==> {
            &&& chip_index(chips, (#[trigger] infos[i]).name@, 0) < chips.len()
            &&& has_entry(trace_at_z, infos[i].name@)
            &&& residual_of(trace_at_z, infos[i].name@).len() >= infos[i].column_count
        }
}

/// The chips of the preprocessed commitment, and the claims for their columns: the first
/// columns at the reduced point.
pub fn preprocessed_round(
    chips: &Vec<ShardChip>,
    infos: &Vec<JaggedChipInfo>,
    trace_at_z: &Vec<(String, Vec<Ext>)>,
) -> (r: (Vec<usize>, Vec<Vec<Ext>>))
    requires
        prep_round_fits(chips@, infos@, trace_at_z@),
    ensures
        r.0@.len() == infos@.len(),
        r.1@.len() == infos@.len(),
        forall|i: int|
            0 <= i < infos@.len() ==> #[trigger] r.0@[i] == chip_index(
                chips@,
                infos@[i].name@,
                0,
            ),
        forall|i: int|
            0 <= i < infos@.len() ==> evals((#[trigger] r.1@[i])@) == residual_of(
                trace_at_z@,
                infos@[i].name@,
            ).take(infos@[i].column_count as int),
{
    let mut found: Vec<usize> = Vec::new();
    let mut claims: Vec<Vec<Ext>> = Vec::new();
    let mut i: usize = 0;
    while i < infos.len()
        invariant
            i <= infos@.len(),
            prep_round_fits(chips@, infos@, trace_at_z@),
            found@.len() == i,
            claims@.len() == i,
            forall|j: int|
                0 <= j < i ==> #[trigger] found@[j] == chip_index(chips@, infos@[j].name@, 0),
            forall|j: int|
                0 <= j < i ==> evals((#[trigger] claims@[j])@) == residual_of(
                    trace_at_z@,
                    infos@[j].name@,
                ).take(infos@[j].column_count as int),
        decreases infos@.len() - i,
    {
        proof {
            assert(chip_index(chips@, infos@[i as int].name@, 0) < chips@.len());
        }
        let c: usize = match find_chip(chips, &infos[i].name) {
            Some(c) => c,
            None => 0,
        };
        let at: usize = match find_entry(trace_at_z, &infos[i].name) {
            Some(at) => at,
            None => 0,
        };
        let columns = &trace_at_z[at].1;
        let ghost all = residual_of(trace_at_z@, infos@[i as int].name@);
        proof {
            assert(evals(columns@) == all);
            assert(all.len() == columns@.len());
        }
        let first = copy_exts(
            vstd::slice::slice_subrange(columns.as_slice(), 0, infos[i].column_count),
        );
        proof {
            assert(evals(first@) =~= all.take(infos@[i as int].column_count as int));
        }
        found.push(c);
        claims.push(first);
        i = i + 1;
    }
    (found, claims)
}

/// The height by which a trace's rows are addressed: its own, or the given one where its
/// rows are held elsewhere, one where none is given.
pub open spec fn addressed_height(pm: PaddedMle, given: Option<usize>) -> nat {
    if trace_width(pm) == 0 {
        match given {
            Some(h) => h as nat,
            None => 1,
        }
    } else {
        table_height(pm.inner->0.values@.len(), trace_width(pm))
    }
}

/// The entry of a list of heights, none past its end.
pub open spec fn given_at(heights: Seq<Option<usize>>, i: int) -> Option<usize> {
    if i < heights.len() {
        heights[i]
    } else {
        None
    }
}

fn row_points(traces: &Vec<PaddedMle>, heights: &Vec<Option<usize>>, point: &[Ext]) -> (r: Vec<
    Vec<Ext>,
>)
    ensures
        epoints(r@) == Seq::new(
            traces@.len(),
            |i: int|
                row_point(evals(point@), addressed_height(traces@[i], given_at(heights@, i))),
        ),
{
    let mut r: Vec<Vec<Ext>> = Vec::new();
    let mut i: usize = 0;
    while i < traces.len()
        invariant
            i <= traces@.len(),
            r@.len() == i,
            forall|j: int|
                0 <= j < i ==> evals((#[trigger] r@[j])@) == row_point(
                    evals(point@),
                    addressed_height(traces@[j], given_at(heights@, j)),
                ),
        decreases traces@.len() - i,
    {
        let given: Option<usize> = if i < heights.len() {
            heights[i]
        } else {
            None
        };
        let fallback: usize = match given {
            Some(h) => h,
            None => 1,
        };
        let h: usize = match &traces[i].inner {
            None => fallback,
            Some(t) => if t.width == 0 {
                fallback
            } else {
                t.values.len() / t.width
            },
        };
        proof {
            assert(h == addressed_height(traces@[i as int], given_at(heights@, i as int)));
        }
        r.push(row_coords(point, h));
        i = i + 1;
    }
    proof {
        assert(epoints(r@) =~= Seq::new(
            traces@.len(),
            |i: int|
                row_point(evals(point@), addressed_height(traces@[i], given_at(heights@, i))),
        ));
    }
    r
}

/// The traces at the given places.
pub open spec fn picked(traces: Seq<PaddedMle>, picks: Seq<usize>) -> Seq<PaddedMle> {
    Seq::new(picks.len(), |i: int| traces[picks[i] as int])
}

fn picked_points(traces: &Vec<PaddedMle>, picks: &Vec<usize>, point: &[Ext]) -> (r: Vec<Vec<Ext>>)
    requires
        forall|i: int| 0 <= i < picks@.len() ==> (#[trigger] picks@[i]) < traces@.len(),
    ensures
        epoints(r@) == Seq::new(
            picks@.len(),
            |i: int|
                row_point(evals(point@), addressed_height(picked(traces@, picks@)[i], None)),
        ),
{
    let mut r: Vec<Vec<Ext>> = Vec::new();
    let mut i: usize = 0;
    while i < picks.len()
        invariant
            i <= picks@.len(),
            forall|i: int| 0 <= i < picks@.len() ==> (#[trigger] picks@[i]) < traces@.len(),
            r@.len() == i,
            forall|j: int|
                0 <= j < i ==> evals((#[trigger] r@[j])@) == row_point(
                    evals(point@),
                    addressed_height(traces@[picks@[j] as int], None),
                ),
        decreases picks@.len() - i,
    {
        let h: usize = match &traces[picks[i]].inner {
            None => 1,
            Some(t) => if t.width == 0 {
                1
            } else {
                t.values.len() / t.width
            },
        };
        proof {
            assert(h == addressed_height(traces@[picks@[i as int] as int], None));
        }
        r.push(row_coords(point, h));
        i = i + 1;
    }
    proof {
        assert(epoints(r@) =~= Seq::new(
            picks@.len(),
            |i: int|
                row_point(evals(point@), addressed_height(picked(traces@, picks@)[i], None)),
        ));
    }
    r
}

/// What a prover keeps of the layout of a commitment.
pub struct CommittedSide {
    /// The layout.
    pub packing: JaggedPacking,
    /// The number of committed cells.
    pub area: usize,
}

/// The columns, claims and row coordinates that a commitment is opened with.
pub open spec fn side_round(
    side: CommittedSide,
    traces: Seq<PaddedMle>,
    heights: Seq<Option<usize>>,
    claims: Seq<Seq<E4>>,
    point: Seq<E4>,
) -> RoundVal {
    RoundVal {
        infos: info_vals(side.packing.chip_infos@),
        offsets: nats(side.packing.offsets@),
        total: side.packing.total_values as nat,
        claims,
        rows: Seq::new(
            traces.len(),
            |i: int| row_point(point, addressed_height(traces[i], given_at(heights, i))),
        ),
        area: side.area as nat,
    }
}

fn open_side(
    side: &CommittedSide,
    traces: &Vec<PaddedMle>,
    heights: &Vec<Option<usize>>,
    claims: Vec<Vec<Ext>>,
    point: &[Ext],
) -> (r: JaggedOpenRound)
    ensures
        r@ == side_round(*side, traces@, heights@, epoints(claims@), evals(point@)),
{
    JaggedOpenRound {
        chip_infos: copy_infos(&side.packing.chip_infos),
        offsets: copy_counts(&side.packing.offsets),
        total_values: side.packing.total_values,
        r_row_per_chip: row_points(traces, heights, point),
        claims,
        area: side.area,
    }
}

/// Whether `rounds` are those of an opening: the preprocessed commitment, where it holds any
/// trace, then the main one.
pub open spec fn are_rounds(
    rounds: Seq<JaggedOpenRound>,
    preprocessed_traces: Seq<PaddedMle>,
    preprocessed_claims: Seq<Seq<E4>>,
    preprocessed: CommittedSide,
    main_traces: Seq<PaddedMle>,
    main: CommittedSide,
    point: Seq<E4>,
    main_claims: Seq<Seq<E4>>,
    heights: Seq<Option<usize>>,
) -> bool {
    let first = side_round(
        preprocessed,
        preprocessed_traces,
        Seq::empty(),
        preprocessed_claims,
        point,
    );
    let last = side_round(main, main_traces, heights, main_claims, point);
    if preprocessed_traces.len() == 0 {
        rounds.len() == 1 && rounds[0]@ == last
    } else {
        rounds.len() == 2 && rounds[0]@ == first && rounds[1]@ == last
    }
}

/// The rounds of an opening: the preprocessed commitment, where it holds any trace, then
/// the main one. The preprocessed commitment holds the traces of the given chips.
pub fn prove_trusted_evaluations(
    preprocessed_traces: &Vec<PaddedMle>,
    preprocessed_chips: &Vec<usize>,
    preprocessed_claims: Vec<Vec<Ext>>,
    preprocessed: &CommittedSide,
    main_traces: &Vec<PaddedMle>,
    main: &CommittedSide,
    shared_eval_point: &[Ext],
    pre_y_per_chip: Vec<Vec<Ext>>,
    heights: &Vec<Option<usize>>,
) -> (r: Vec<JaggedOpenRound>)
    requires
        forall|i: int|
            0 <= i < preprocessed_chips@.len() ==> (#[trigger] preprocessed_chips@[i])
                < preprocessed_traces@.len(),
    ensures
        are_rounds(
            r@,
            picked(preprocessed_traces@, preprocessed_chips@),
            epoints(preprocessed_claims@),
            *preprocessed,
            main_traces@,
            *main,
            evals(shared_eval_point@),
            epoints(pre_y_per_chip@),
            heights@,
        ),
{
    let mut r: Vec<JaggedOpenRound> = Vec::new();
    if preprocessed_chips.len() > 0 {
        let first = JaggedOpenRound {
            chip_infos: copy_infos(&preprocessed.packing.chip_infos),
            offsets: copy_counts(&preprocessed.packing.offsets),
            total_values: preprocessed.packing.total_values,
            r_row_per_chip: picked_points(
                preprocessed_traces,
                preprocessed_chips,
                shared_eval_point,
            ),
            claims: preprocessed_claims,
            area: preprocessed.area,
        };
        proof {
            let traces = picked(preprocessed_traces@, preprocessed_chips@);
            let point = evals(shared_eval_point@);
            let want = side_round(
                *preprocessed,
                traces,
                Seq::empty(),
                epoints(preprocessed_claims@),
                point,
            );
            assert(first@.rows =~= want.rows);
            assert(first@ == want);
        }
        r.push(first);
    }
    r.push(open_side(main, main_traces, heights, pre_y_per_chip, shared_eval_point));
    r
}

/// The cells that a chip's sum between shards is read from: the captured tail of a trace
/// that is held elsewhere, or the trace itself.
pub open spec fn sum_cells(trace: PaddedMle, tail: Option<Vec<Felt>>) -> Seq<int> {
    match (tail, trace.inner) {
        (Some(t), _) => fvals(t@),
        (None, Some(t)) => fvals(t.values@),
        (None, None) => Seq::empty(),
    }
}

/// The cumulative sums of every chip, by name: nothing within the shard, and the sum in the
/// last cells of the trace between shards.
pub fn build_chip_cumulative_sums(
    chips: &Vec<ShardChip>,
    scopes: &Vec<LookupScope>,
    shared_trace_mles: &Vec<PaddedMle>,
    chip_cum_tails: &Vec<Option<Vec<Felt>>>,
    zero: SepticCurve<Felt>,
) -> (r: Vec<(String, ChipCumulativeSums)>)
    requires
        chips@.len() == scopes@.len(),
        chips@.len() == shared_trace_mles@.len(),
        chips@.len() == chip_cum_tails@.len(),
    ensures
        is_name_map(r@),
        r@.len() == name_places(chips@).len(),
        forall|i: int|
            0 <= i < r@.len() ==> {
                let c = name_places(chips@)[i];
                &&& (#[trigger] r@[i]).0@ == chips@[c].name@
                &&& r@[i].1.local@ == e_zero()
                &&& r@[i].1.global@ == global_sum(
                    scopes@[c],
                    sum_cells(shared_trace_mles@[c], chip_cum_tails@[c]),
                    zero@,
                )
            },
{
    let none: Vec<Felt> = Vec::new();
    let mut r: Vec<(String, ChipCumulativeSums)> = Vec::new();
    let places = find_name_places(chips);
    let ghost p = name_places(chips@);
    let mut i: usize = 0;
    proof {
        name_places_hold(chips@);
        assert(fvals(none@) =~= Seq::<int>::empty());
    }
    while i < places.len()
        invariant
            i <= places@.len(),
            p == as_ints(places@),
            p == name_places(chips@),
            forall|j: int| 0 <= j < places@.len() ==> (#[trigger] places@[j]) < chips@.len(),
            chips@.len() == scopes@.len(),
            chips@.len() == shared_trace_mles@.len(),
            chips@.len() == chip_cum_tails@.len(),
            fvals(none@) == Seq::<int>::empty(),
            r@.len() == i,
            forall|j: int|
                0 <= j < i ==> {
                    &&& (#[trigger] r@[j]).0@ == chips@[p[j]].name@
                    &&& r@[j].1.local@ == e_zero()
                    &&& r@[j].1.global@ == global_sum(
                        scopes@[p[j]],
                        sum_cells(shared_trace_mles@[p[j]], chip_cum_tails@[p[j]]),
                        zero@,
                    )
                },
        decreases places@.len() - i,
    {
        let at: usize = places[i];
        proof {
            assert(p[i as int] == at);
        }
        let cells: &Vec<Felt> = match &chip_cum_tails[at] {
            Some(tail) => tail,
            None => match &shared_trace_mles[at].inner {
                Some(t) => &t.values,
                None => &none,
            },
        };
        let global = chip_global_sum(scopes[at], cells, zero);
        r.push((chips[at].name.clone(), ChipCumulativeSums { local: Ext::zero(), global }));
        i = i + 1;
    }
    proof {
        assert forall|a: int, b: int| 0 <= a < b < r@.len() implies name_lt(
            (#[trigger] r@[a]).0@,
            (#[trigger] r@[b]).0@,
        ) by {
            assert(name_lt(chips@[p[a]].name@, chips@[p[b]].name@));
        }
    }
    r
}

/// Counts as field elements.
pub open spec fn count_felts(s: Seq<usize>) -> Seq<int> {
    Seq::new(s.len(), |i: int| reduce(s[i] as int))
}

fn felts_of(s: &Vec<usize>) -> (r: Vec<Felt>)
    ensures
        fvals(r@) == count_felts(s@),
{
    let mut r: Vec<Felt> = Vec::new();
    let mut i: usize = 0;
    while i < s.len()
        invariant
            i <= s@.len(),
            r@.len() == i,
            forall|j: int| 0 <= j < i ==> (#[trigger] r@[j])@ == reduce(s@[j] as int),
        decreases s@.len() - i,
    {
        r.push(Felt::from_usize(s[i]));
        i = i + 1;
    }
    proof {
        assert(fvals(r@) =~= count_felts(s@));
    }
    r
}

fn first_heights(s: &Vec<(usize, usize)>) -> (r: Vec<Felt>)
    ensures
        fvals(r@) == Seq::new(s@.len(), |i: int| reduce(s@[i].0 as int)),
{
    let mut r: Vec<Felt> = Vec::new();
    let mut i: usize = 0;
    while i < s.len()
        invariant
            i <= s@.len(),
            r@.len() == i,
            forall|j: int| 0 <= j < i ==> (#[trigger] r@[j])@ == reduce(s@[j].0 as int),
        decreases s@.len() - i,
    {
        r.push(Felt::from_usize(s[i].0));
        i = i + 1;
    }
    proof {
        assert(fvals(r@) =~= Seq::new(s@.len(), |i: int| reduce(s@[i].0 as int)));
    }
    r
}

/// Whether a bundle opens a preprocessed commitment.
pub open spec fn opens_preprocessed<R, E, B>(b: JaggedBasefoldBundleGeneric<R, E, B>) -> bool {
    b.preceding_commits@.len() > 0 && b.packing.round_counts@.len() >= 2
}

/// Whether the roots, heights and padding heights of a proof are those of its bundle: the
/// main root, the preprocessed root and heights where the bundle opens a preprocessed
/// commitment, and the padding heights. Without a bundle the main root is the commitment
/// and the rest is empty.
pub open spec fn derived_parts<R, E, B>(p: BasefoldShardProof<R, E, B>) -> bool {
    match p.evaluation_proof {
        EvaluationProof::Bundle(b) => {
            &&& p.jagged_original_commitment == b.commit.original_commitment
            &&& if opens_preprocessed(b) {
                let first = b.packing.round_counts@[0]@;
                &&& p.preprocessed_original_commitment == b.preceding_commits@[0]
                &&& fvals(p.preprocessed_row_counts@) == Seq::new(
                    first.len(),
                    |i: int| reduce(first[i].0 as int),
                )
            } else {
                &&& forall|i: int|
                    0 <= i < 8 ==> (#[trigger] p.preprocessed_original_commitment@[i])@ == 0
                &&& p.preprocessed_row_counts@.len() == 0
            }
            &&& p.padding_row_heights@.len() == b.packing.padding_heights@.len()
            &&& forall|i: int|
                0 <= i < p.padding_row_heights@.len() ==> fvals(
                    (#[trigger] p.padding_row_heights@[i])@,
                ) == count_felts(b.packing.padding_heights@[i]@)
        },
        _ => {
            &&& p.jagged_original_commitment == p.main_commitment
            &&& forall|i: int|
                0 <= i < 8 ==> (#[trigger] p.preprocessed_original_commitment@[i])@ == 0
            &&& p.preprocessed_row_counts@.len() == 0
            &&& p.padding_row_heights@.len() == 0
        },
    }
}

/// Whether heights and numbers of padding columns are those that `derive` gives for the
/// layout of a bundle. Without a bundle there are none.
pub open spec fn counts_derived<
    R,
    E,
    B,
    N: Fn(&Vec<usize>, &Vec<usize>, usize) -> (Vec<usize>, usize),
>(derive: N, p: BasefoldShardProof<R, E, B>) -> bool {
    match p.evaluation_proof {
        EvaluationProof::Bundle(b) => {
            &&& p.row_counts@.len() == 1
            &&& p.padding_column_counts@.len() == 1
            &&& derive.ensures(
                (&b.packing.column_counts, &b.packing.offsets, b.packing.total_values),
                (p.row_counts@[0], p.padding_column_counts@[0]),
            )
        },
        _ => p.row_counts@.len() == 0 && p.padding_column_counts@.len() == 0,
    }
}

/// Assembles a shard proof, with the roots and heights that follow from its opening, and
/// the heights and numbers of padding columns that `derive` gives for its layout.
pub fn assemble_basefold_shard_proof<R, E, B, N>(
    public_values: Vec<Felt>,
    main_commitment: Digest,
    logup_gkr_proof: LogupGkrProof,
    zerocheck_proof: PartialSumcheckProof,
    opened_values: Vec<ChipOpenedValues>,
    chip_heights: Vec<(String, usize)>,
    chip_cumulative_sums: Vec<(String, ChipCumulativeSums)>,
    evaluation_proof: EvaluationProof<R, E, B>,
    orientation: FoldOrientation,
    derive: N,
) -> (r: BasefoldShardProof<R, E, B>) where
    N: Fn(&Vec<usize>, &Vec<usize>, usize) -> (Vec<usize>, usize),

    requires
        forall|c: &Vec<usize>, o: &Vec<usize>, t: usize| #[trigger] derive.requires((c, o, t)),
    ensures
        r.public_values == public_values,
        r.main_commitment == main_commitment,
        r.logup_gkr_proof == logup_gkr_proof,
        r.zerocheck_proof == zerocheck_proof,
        r.opened_values == opened_values,
        r.chip_heights == chip_heights,
        r.chip_cumulative_sums == chip_cumulative_sums,
        r.evaluation_proof == evaluation_proof,
        r.fold_orientation == orientation,
        counts_derived(derive, r),
        derived_parts(r),
{
    let zero = Felt::zero();
    let zeros: Digest = [zero; 8];
    let mut padding_row_heights: Vec<Vec<Felt>> = Vec::new();
    let mut preprocessed_row_counts: Vec<Felt> = Vec::new();
    let mut jagged_original_commitment: Digest = main_commitment;
    let mut preprocessed_original_commitment: Digest = zeros;
    let mut row_counts: Vec<Vec<usize>> = Vec::new();
    let mut padding_column_counts: Vec<usize> = Vec::new();
    match &evaluation_proof {
        EvaluationProof::Bundle(b) => {
            let (rows, pads) = derive(
                &b.packing.column_counts,
                &b.packing.offsets,
                b.packing.total_values,
            );
            row_counts.push(rows);
            padding_column_counts.push(pads);
            jagged_original_commitment = b.commit.original_commitment;
            if b.preceding_commits.len() > 0 && b.packing.round_counts.len() >= 2 {
                preprocessed_original_commitment = b.preceding_commits[0];
                preprocessed_row_counts = first_heights(&b.packing.round_counts[0]);
            }
            let mut i: usize = 0;
            while i < b.packing.padding_heights.len()
                invariant
                    i <= b.packing.padding_heights@.len(),
                    padding_row_heights@.len() == i,
                    forall|j: int|
                        0 <= j < i ==> fvals((#[trigger] padding_row_heights@[j])@) == count_felts(
                            b.packing.padding_heights@[j]@,
                        ),
                decreases b.packing.padding_heights@.len() - i,
            {
                padding_row_heights.push(felts_of(&b.packing.padding_heights[i]));
                i = i + 1;
            }
        },
        _ => {},
    }
    BasefoldShardProof {
        public_values,
        main_commitment,
        logup_gkr_proof,
        zerocheck_proof,
        opened_values,
        chip_heights,
        evaluation_proof,
        fold_orientation: orientation,
        chip_cumulative_sums,
        row_counts,
        padding_column_counts,
        padding_row_heights,
        jagged_original_commitment,
        preprocessed_original_commitment,
        preprocessed_row_counts,
    }
}

/// Prover and verifier absorb the same prologue: the prover from its traces, the verifier
/// from the heights that the proof carries by name.
pub proof fn prologues_agree<R, E, B>(
    s: Sponge,
    chips: Seq<ShardChip>,
    traces: Seq<PaddedMle>,
    p: BasefoldShardProof<R, E, B>,
)
    requires
        chips.len() == traces.len(),
        distinct_names(chips),
        holds_heights(p.chip_heights@, chips, raw_heights(traces), chips.len()),
    ensures
        prologue(
            s,
            fvals(p.public_values@),
            fvals(p.main_commitment@),
            chips,
            raw_heights(traces),
        ) == proof_prologue(s, chips, p),
{
    let a = raw_heights(traces);
    let b = heights_by_name(chips, p.chip_heights@);
    assert forall|i: int| 0 <= i < a.len() implies a[i] == b[i] by {
        heights_agree(p.chip_heights@, chips, a, i);
    }
    assert(a =~= b);
}

/// Opens a shard's transcript: absorbs the prologue, finds the proof of work, and draws the
/// challenges of the lookup argument. `None` where no proof of work exists.
pub fn begin_shard(
    challenger: &mut Transcript,
    public_values: &Vec<Felt>,
    main_commitment: &Digest,
    chips: &Vec<ShardChip>,
    shared_trace_mles: &Vec<PaddedMle>,
    grinding_bits: usize,
) -> (r: Option<(Felt, LogupChallenges)>)
    requires
        old(challenger).wf(),
        chips@.len() == shared_trace_mles@.len(),
        grinding_bits <= 30,
        arities_fit(chips@),
    ensures
        final(challenger).wf(),
        ({
            let s = prologue(
                old(challenger)@,
                fvals(public_values@),
                fvals(main_commitment@),
                chips@,
                raw_heights(shared_trace_mles@),
            );
            let bits = grinding_bits as nat;
            let dim = seed_dim(chips@);
            match r {
                Some((witness, c)) => {
                    &&& is_grind(s, bits, witness@)
                    &&& c.alpha@ == s.after_pow(bits, witness@).drawn_ext()
                    &&& evals(c.betas@) == challenge_weights(s, bits, witness@, dim)
                    &&& c.betas@.len() == pow2(dim)
                    &&& final(challenger)@ == challenges_sponge(s, bits, witness@, dim)
                },
                None => no_grind(s, bits),
            }
        }),
{
    observe_transcript_prologue(
        challenger,
        public_values,
        main_commitment,
        chips,
        shared_trace_mles,
    );
    draw_logup_challenges(chips, grinding_bits, challenger)
}

/// Closes the constraint argument: absorbs every chip's columns at the reduced point, and
/// builds the heights and the opened values that the proof carries.
pub fn close_constraints(
    challenger: &mut Transcript,
    chips: &Vec<ShardChip>,
    shared_trace_mles: &Vec<PaddedMle>,
    trace_at_z: &Vec<(String, Vec<Ext>)>,
    max_log_row_count: usize,
) -> (r: (Vec<(String, usize)>, Vec<ChipOpenedValues>))
    requires
        old(challenger).wf(),
        chips@.len() == shared_trace_mles@.len(),
        max_log_row_count < usize::MAX,
    ensures
        final(challenger).wf(),
        final(challenger)@ == observe_openings(
            old(challenger)@,
            chips@.len(),
            residual_pairs(chips@, trace_at_z@),
        ),
        is_name_map(r.0@),
        holds_heights(r.0@, chips@, raw_heights(shared_trace_mles@), chips@.len()),
        r.1@.len() == chips@.len(),
        forall|i: int|
            0 <= i < r.1@.len() ==> opened_matches(
                #[trigger] r.1@[i],
                opened_at(chips@, trace_at_z@, i),
                height_of(r.0@, chips@[sorted_chips(chips@)[i]].name@),
                max_log_row_count as nat,
            ),
{
    observe_zerocheck_openings_from_residual(challenger, chips, trace_at_z);
    let heights = build_chip_heights(chips, shared_trace_mles);
    let opened = build_opened_values(chips, trace_at_z, &heights, max_log_row_count);
    (heights, opened)
}

/// The transcript that a shard prover leaves: the prologue from its traces, the lookup
/// argument with its openings, the constraint argument, and the columns at the reduced
/// point.
pub open spec fn prover_sponge<R, E, B>(
    s: Sponge,
    chips: Seq<ShardChip>,
    traces: Seq<PaddedMle>,
    trace_at_z: Seq<(String, Vec<Ext>)>,
    p: BasefoldShardProof<R, E, B>,
    bits: nat,
) -> Sponge {
    let gkr = p.logup_gkr_proof;
    let a = prologue(
        s,
        fvals(p.public_values@),
        fvals(p.main_commitment@),
        chips,
        raw_heights(traces),
    );
    let b = challenges_sponge(a, bits, gkr.witness@, seed_dim(chips));
    let c = observe_openings(
        walk_end(gkr, b).sponge,
        chips.len(),
        gkr_pairs(gkr.logup_evaluations.chip_openings@),
    );
    observe_openings(
        p.zerocheck_proof@.after(c.after_draw_ext().after_draw_ext().after_draw_ext()),
        chips.len(),
        residual_pairs(chips, trace_at_z),
    )
}

/// Prover and verifier leave the same transcript: what the prover absorbs and draws from
/// its traces and columns is what the verifier absorbs and draws from the proof.
pub proof fn transcripts_agree<R, E, B>(
    s: Sponge,
    chips: Seq<ShardChip>,
    traces: Seq<PaddedMle>,
    trace_at_z: Seq<(String, Vec<Ext>)>,
    p: BasefoldShardProof<R, E, B>,
    bits: nat,
)
    requires
        chips.len() == traces.len(),
        distinct_names(chips),
        holds_heights(p.chip_heights@, chips, raw_heights(traces), chips.len()),
        p.opened_values@.len() == chips.len(),
        forall|i: int|
            #![trigger p.opened_values@[i]]
            0 <= i < p.opened_values@.len() ==> (
            evals(p.opened_values@[i].preprocessed@),
            evals(p.opened_values@[i].main@),
        ) == opened_at(chips, trace_at_z, i),
    ensures
        prover_sponge(s, chips, traces, trace_at_z, p, bits) == shard_sponge(s, chips, p, bits),
{
    prologues_agree(s, chips, traces, p);
    assert(p.opened_values@.len() == p.opened_values.len());
    observed_openings_agree(chips, trace_at_z, p.opened_values@);
}

/// The rows that a trace addresses are its own rows where it is at hand: one for each of its
/// widths of cells. Where it is not, they are the rows that are given for it, or one.
pub proof fn addressed_rows_are_the_traces(pm: PaddedMle, given: Option<usize>)
    ensures
        pm.inner matches Some(t) ==> t.width > 0 ==> addressed_height(pm, given)
            == t.values@.len() / (t.width as nat),
        pm.inner is None && given is Some ==> addressed_height(pm, given) == given->0,
        pm.inner is None && given is None ==> addressed_height(pm, given) == 1,
{
}

} // verus!
