//! Committing to traces of any width.
//!
//! The traces are rounded out to whole stripes and handed over to be interleaved or
//! committed to. The area that is published counts their cells, in whole stripes.
use vstd::prelude::*;
use vstd::arithmetic::power2::{lemma2_to64, pow2};
use crate::shard::lookup::Trace;
use crate::whir::config::WhirConfig;
use crate::whir::jagged::{all_columns, are_dims, are_padded, chips_to_mles_owned, copy_dims,
    next_multiple_of, padded_height, padded_width, pick_log_stacking_height, round_up,
    round_up_bounds, split_stripes_to_polys, JaggedCommit, JaggedCommitGeneric,
    JaggedWhirProverData};
use crate::whir::stacked::{stripes_val, StackedWhirProver};

verus! {

/// What a prover keeps of a commitment, around what its commitment scheme keeps.
pub struct JaggedProverDataGeneric<D> {
    /// What the commitment scheme keeps.
    pub stacked_data: D,
    /// The width and the logarithm of the height of each trace.
    pub chip_dims: Vec<(usize, u32)>,
    /// The number of cells of all stripes.
    pub area: usize,
    /// The logarithm of the height of a stripe.
    pub log_stacking_height: u32,
}

/// The number of cells of a trace that is rounded out to whole stripes.
pub open spec fn cells_of(t: Trace) -> nat {
    if t.values@.len() / padded_width(t) == padded_height(t) {
        t.values@.len()
    } else {
        padded_height(t) * padded_width(t)
    }
}

/// The number of cells of the first `k` traces, each rounded out to whole stripes.
pub open spec fn entries(s: Seq<(String, Trace)>, k: int) -> nat
    decreases k,
{
    if k <= 0 {
        0
    } else {
        entries(s, k - 1) + cells_of(s[k - 1].1)
    }
}

/// The number of cells of all traces, in whole stripes.
pub open spec fn area_of(s: Seq<(String, Trace)>) -> nat {
    round_up(entries(s, s.len() as int), 0x200000)
}

proof fn entries_monotone(s: Seq<(String, Trace)>, i: int, k: int)
    requires
        0 <= i <= k,
    ensures
        entries(s, i) <= entries(s, k),
    decreases k,
{
    if i < k {
        entries_monotone(s, i, k - 1);
    }
}

proof fn padded_fits(s: Seq<(String, Trace)>)
    requires
        area_of(s) <= usize::MAX,
    ensures
        entries(s, s.len() as int) <= usize::MAX,
        forall|i: int|
            #![trigger s[i]]
            0 <= i < s.len() ==> padded_height(s[i].1) * padded_width(s[i].1) <= usize::MAX,
{
    round_up_bounds(entries(s, s.len() as int), 0x200000);
    assert forall|i: int| #![trigger s[i]] 0 <= i < s.len() implies padded_height(s[i].1)
        * padded_width(s[i].1) <= usize::MAX by {
        entries_monotone(s, i + 1, s.len() as int);
        let t = s[i].1;
        let w = padded_width(t);
        vstd::arithmetic::div_mod::lemma_fundamental_div_mod(t.values@.len() as int, w as int);
        assert((t.values@.len() / w) * w <= t.values@.len()) by (nonlinear_arith)
            requires
                t.values@.len() as int == w as int * (t.values@.len() / w) + t.values@.len() % w,
                t.values@.len() % w >= 0,
        ;
    }
}

fn count_entries(mles: &Vec<Trace>, Ghost(traces): Ghost<Seq<(String, Trace)>>) -> (r: usize)
    requires
        are_padded(mles@, traces),
        entries(traces, traces.len() as int) <= usize::MAX,
    ensures
        r == entries(traces, traces.len() as int),
{
    let mut total: usize = 0;
    let mut i: usize = 0;
    while i < mles.len()
        invariant
            i <= mles@.len(),
            are_padded(mles@, traces),
            entries(traces, traces.len() as int) <= usize::MAX,
            total == entries(traces, i as int),
        decreases mles@.len() - i,
    {
        proof {
            entries_monotone(traces, i + 1, traces.len() as int);
            assert(crate::whir::jagged::is_padded(mles@[i as int], traces[i as int].1));
        }
        total = total + mles[i].values.len();
        i = i + 1;
    }
    total
}

/// Whether the commitment scheme answers these padded traces with this commitment and
/// keeps this.
pub open spec fn committed<C, D, F: Fn(Vec<Trace>, u32) -> (C, D)>(
    commit_multilinears: F,
    padded: Vec<Trace>,
    traces: Seq<(String, Trace)>,
    commitment: C,
    kept: D,
) -> bool {
    &&& are_padded(padded@, traces)
    &&& commit_multilinears.ensures((padded, 21u32), (commitment, kept))
}

/// Commits to traces by a commitment scheme for stripes of `2^21` cells. The scheme gets
/// the traces, each rounded out to whole stripes, and the logarithm of a stripe's height.
/// The commitment is not observed.
pub fn commit_jagged_pcs_generic<C, D, F: Fn(Vec<Trace>, u32) -> (C, D)>(
    chip_traces: Vec<(String, Trace)>,
    commit_multilinears: F,
) -> (r: (JaggedCommitGeneric<C>, JaggedProverDataGeneric<D>))
    requires
        area_of(chip_traces@) <= usize::MAX,
        forall|padded: Vec<Trace>|
            #[trigger] are_padded(padded@, chip_traces@) ==> commit_multilinears.requires(
                (padded, 21u32),
            ),
    ensures
        exists|padded: Vec<Trace>|
            #[trigger] committed(
                commit_multilinears,
                padded,
                chip_traces@,
                r.0.original_commitment,
                r.1.stacked_data,
            ),
        are_dims(r.0.chip_dims@, chip_traces@),
        r.1.chip_dims@ == r.0.chip_dims@,
        r.0.area == area_of(chip_traces@),
        r.1.area == r.0.area,
        r.0.log_stacking_height == 21,
        r.1.log_stacking_height == 21,
{
    let ghost traces = chip_traces@;
    proof {
        padded_fits(traces);
    }
    let (mles, chip_dims) = chips_to_mles_owned(chip_traces);
    let total_entries: usize = count_entries(&mles, Ghost(traces));
    let log_stacking_height: u32 = pick_log_stacking_height(total_entries);
    let area: usize = next_multiple_of(total_entries, 0x200000);
    let ghost padded = mles;
    let (commitment, stacked_data) = commit_multilinears(mles, log_stacking_height);
    let commit = JaggedCommitGeneric {
        original_commitment: commitment,
        chip_dims: copy_dims(&chip_dims),
        area,
        log_stacking_height,
    };
    let data = JaggedProverDataGeneric { stacked_data, chip_dims, area, log_stacking_height };
    let out = (commit, data);
    proof {
        assert(committed(
            commit_multilinears,
            padded,
            traces,
            out.0.original_commitment,
            out.1.stacked_data,
        ));
    }
    out
}

/// Whether the columns of these rows are stripes of `2^21` cells, at least one.
pub open spec fn are_stripes(rows: Seq<Trace>) -> bool {
    let columns = all_columns(rows, rows.len() as int);
    &&& columns.len() > 0
    &&& forall|i: int| 0 <= i < columns.len() ==> (#[trigger] columns[i]).len() == 0x200000
}

/// Whether the committed stripes are the columns of what the padded traces were
/// interleaved to.
pub open spec fn interleaved_to<F: Fn(Vec<Trace>, u32) -> Vec<Trace>>(
    interleave: F,
    padded: Vec<Trace>,
    rows: Vec<Trace>,
    traces: Seq<(String, Trace)>,
    data: JaggedWhirProverData,
) -> bool {
    &&& are_padded(padded@, traces)
    &&& interleave.ensures((padded, 21u32), rows)
    &&& stripes_val(data.stacked_data.stripes@) == all_columns(rows@, rows@.len() as int)
}

/// Commits to traces of any width: the traces, each rounded out to whole stripes, are
/// interleaved to rows, whose columns are the stripes. The commitment is not observed.
pub fn commit_interleaved_traces<F: Fn(Vec<Trace>, u32) -> Vec<Trace>>(
    chip_traces: Vec<(String, Trace)>,
    interleave: F,
    config: WhirConfig,
) -> (r: (JaggedCommit, JaggedWhirProverData))
    requires
        area_of(chip_traces@) <= usize::MAX,
        (StackedWhirProver { config, log_stacking_height: 21 }).can_commit(),
        forall|padded: Vec<Trace>|
            #[trigger] are_padded(padded@, chip_traces@) ==> interleave.requires((padded, 21u32)),
        forall|padded: Vec<Trace>, rows: Vec<Trace>|
            are_padded(padded@, chip_traces@) && #[trigger] interleave.ensures(
                (padded, 21u32),
                rows,
            ) ==> are_stripes(rows@),
    ensures
        (StackedWhirProver { config, log_stacking_height: 21 }).holds(r.1.stacked_data),
        exists|padded: Vec<Trace>, rows: Vec<Trace>|
            #[trigger] interleaved_to(interleave, padded, rows, chip_traces@, r.1),
        r.0.original_commitment == r.1.stacked_data.commitment,
        are_dims(r.0.chip_dims@, chip_traces@),
        r.1.chip_dims@ == r.0.chip_dims@,
        r.0.area == area_of(chip_traces@),
        r.1.area == r.0.area,
        r.0.log_stacking_height == 21,
        r.1.log_stacking_height == 21,
{
    let ghost traces = chip_traces@;
    proof {
        padded_fits(traces);
        lemma2_to64();
    }
    let (mles, chip_dims) = chips_to_mles_owned(chip_traces);
    let total_entries: usize = count_entries(&mles, Ghost(traces));
    let log_stacking_height: u32 = pick_log_stacking_height(total_entries);
    let area: usize = next_multiple_of(total_entries, 0x200000);
    let ghost padded = mles;
    let stripes = interleave(mles, log_stacking_height);
    let polys = split_stripes_to_polys(&stripes);
    proof {
        assert(are_stripes(stripes@));
        let columns = all_columns(stripes@, stripes@.len() as int);
        assert(polys@.len() == columns.len());
        assert forall|i: int| 0 <= i < polys@.len() implies (#[trigger] polys@[i])@.len()
            == pow2(21) by {
            assert(columns[i] == stripes_val(polys@)[i]);
        }
    }
    let prover = StackedWhirProver::new(config, log_stacking_height);
    let stacked_data = prover.commit_stripes(polys);
    let commit = JaggedCommit {
        original_commitment: stacked_data.commitment,
        chip_dims: copy_dims(&chip_dims),
        area,
        log_stacking_height,
    };
    let data = JaggedWhirProverData { stacked_data, chip_dims, area, log_stacking_height };
    proof {
        assert(interleaved_to(interleave, padded, stripes, traces, data));
    }
    (commit, data)
}

/// The cells that are counted of traces are the cells of the padded traces.
pub proof fn padded_cells_are_counted(
    padded: Seq<Trace>,
    traces: Seq<(String, Trace)>,
    k: int,
)
    requires
        are_padded(padded, traces),
        0 <= k <= traces.len(),
    ensures
        entries(traces, k) == crate::jagged::layout::total(
            Seq::new(k as nat, |i: int| padded[i].values@.len()),
        ),
    decreases k,
{
    let all = Seq::new(k as nat, |i: int| padded[i].values@.len());
    if k > 0 {
        padded_cells_are_counted(padded, traces, k - 1);
        assert(all.drop_last() =~= Seq::new((k - 1) as nat, |i: int| padded[i].values@.len()));
        assert(crate::whir::jagged::is_padded(padded[k - 1], traces[k - 1].1));
    }
}

} // verus!
