//! What the prover of a jagged opening hands out besides the arguments themselves: the
//! layout, the cells, and the bundle.
use vstd::prelude::*;
use vstd::arithmetic::power2::pow2;
use crate::arith::{ceil_log2, ceil_log2_of, pow2_usize};
use crate::ext::fvals;
use crate::felt::Felt;
use crate::jagged::bundle::JaggedBasefoldBundleGeneric;
use crate::jagged::layout::{info_vals, pads_val, round_vals, ColumnLayout, InfoVal, LayoutVal,
    JaggedOpenRound, RoundVal};
use crate::jagged::packing::{copy_counts, nats, JaggedChipInfo, PackingMeta};
use crate::merkle::Digest;
use crate::whir::jagged::{stripes_flat, JaggedCommit, JaggedWhirProverData};
use crate::whir::stacked::StackedWhirProof;

verus! {

/// The heights and numbers of columns of several groups.
pub open spec fn dims_of(s: Seq<InfoVal>) -> Seq<(nat, nat)> {
    Seq::new(s.len(), |i: int| (s[i].row_count, s[i].column_count))
}

/// The heights and numbers of columns of a list.
pub open spec fn dims_val(s: Seq<(usize, usize)>) -> Seq<(nat, nat)> {
    Seq::new(s.len(), |i: int| (s[i].0 as nat, s[i].1 as nat))
}

/// The numbers of columns of several groups.
pub open spec fn info_widths(s: Seq<InfoVal>) -> Seq<nat> {
    Seq::new(s.len(), |i: int| s[i].column_count)
}

/// Whether a layout's description is that of columns laid end to end over several
/// commitments.
pub open spec fn describes(meta: PackingMeta, l: LayoutVal, rounds: Seq<RoundVal>) -> bool {
    &&& nats(meta.offsets@) == l.offsets
    &&& meta.total_values == l.base
    &&& meta.log_dense_size == ceil_log2_of(l.base)
    &&& nats(meta.column_counts@) == info_widths(l.infos)
    &&& meta.round_counts@.len() == rounds.len()
    &&& forall|i: int|
        0 <= i < rounds.len() ==> dims_val((#[trigger] meta.round_counts@[i])@) == dims_of(
            rounds[i].infos,
        )
    &&& pads_val(meta.padding_heights@) == l.pads
}

fn copy_pads(s: &Vec<Vec<usize>>) -> (r: Vec<Vec<usize>>)
    ensures
        pads_val(r@) == pads_val(s@),
{
    let mut r: Vec<Vec<usize>> = Vec::new();
    let mut i: usize = 0;
    while i < s.len()
        invariant
            i <= s@.len(),
            r@.len() == i,
            forall|j: int| 0 <= j < i ==> (#[trigger] r@[j])@ == s@[j]@,
        decreases s@.len() - i,
    {
        r.push(copy_counts(&s[i]));
        i = i + 1;
    }
    proof {
        assert(pads_val(r@) =~= pads_val(s@));
    }
    r
}

fn collect_dims(s: &Vec<JaggedChipInfo>) -> (r: Vec<(usize, usize)>)
    ensures
        dims_val(r@) == dims_of(info_vals(s@)),
{
    let mut r: Vec<(usize, usize)> = Vec::new();
    let mut i: usize = 0;
    while i < s.len()
        invariant
            i <= s@.len(),
            r@.len() == i,
            forall|j: int|
                0 <= j < i ==> #[trigger] r@[j] == (s@[j].row_count, s@[j].column_count),
        decreases s@.len() - i,
    {
        r.push((s[i].row_count, s[i].column_count));
        i = i + 1;
    }
    proof {
        assert(dims_val(r@) =~= dims_of(info_vals(s@)));
    }
    r
}

/// The description of a layout, as a proof carries it.
pub fn build_packing_meta(layout: &ColumnLayout, rounds: &Vec<JaggedOpenRound>) -> (r: PackingMeta)
    ensures
        describes(r, layout@, round_vals(rounds@)),
{
    let mut column_counts: Vec<usize> = Vec::new();
    let mut i: usize = 0;
    while i < layout.chip_infos.len()
        invariant
            i <= layout.chip_infos@.len(),
            column_counts@.len() == i,
            forall|j: int|
                0 <= j < i ==> #[trigger] column_counts@[j] == layout.chip_infos@[j].column_count,
        decreases layout.chip_infos@.len() - i,
    {
        column_counts.push(layout.chip_infos[i].column_count);
        i = i + 1;
    }
    let mut round_counts: Vec<Vec<(usize, usize)>> = Vec::new();
    let mut k: usize = 0;
    while k < rounds.len()
        invariant
            k <= rounds@.len(),
            round_counts@.len() == k,
            forall|j: int|
                0 <= j < k ==> dims_val((#[trigger] round_counts@[j])@) == dims_of(
                    info_vals(rounds@[j].chip_infos@),
                ),
        decreases rounds@.len() - k,
    {
        round_counts.push(collect_dims(&rounds[k].chip_infos));
        k = k + 1;
    }
    let meta = PackingMeta {
        offsets: copy_counts(&layout.offsets),
        total_values: layout.total_values,
        log_dense_size: ceil_log2(layout.total_values),
        column_counts,
        round_counts,
        padding_heights: copy_pads(&layout.padding_heights),
    };
    proof {
        assert(nats(meta.column_counts@) =~= info_widths(layout@.infos));
        assert forall|i: int| 0 <= i < rounds@.len() implies dims_val(
            (#[trigger] meta.round_counts@[i])@,
        ) == dims_of(round_vals(rounds@)[i].infos) by {}
    }
    meta
}

/// The cells of all commitments, one after the other, then zeros.
pub open spec fn dense_cells(s: Seq<&JaggedWhirProverData>, log: nat) -> Seq<int> {
    let all = stripes_flat(s, s.len() as int);
    all + Seq::new((pow2(log) - all.len()) as nat, |i: int| 0int)
}

/// Lays the cells of all commitments end to end, and pads them with zeros to `2^log`.
pub fn concatenate_dense(rounds: &Vec<&JaggedWhirProverData>, log: usize) -> (r: Vec<Felt>)
    requires
        pow2(log as nat) <= usize::MAX,
        stripes_flat(rounds@, rounds@.len() as int).len() <= pow2(log as nat),
    ensures
        fvals(r@) == dense_cells(rounds@, log as nat),
{
    let size: usize = pow2_usize(log);
    let ghost all = stripes_flat(rounds@, rounds@.len() as int);
    let mut r = crate::whir::jagged::collect_cells(rounds);
    let zero = Felt::zero();
    let n: usize = r.len();
    proof {
        assert(fvals(r@).len() == r@.len());
    }
    let ghost first = r@;
    let mut i: usize = n;
    while i < size
        invariant
            n <= i <= size,
            first.len() == n,
            zero@ == 0,
            r@.len() == i,
            forall|j: int| 0 <= j < n ==> #[trigger] r@[j] == first[j],
            forall|j: int| n <= j < i ==> (#[trigger] r@[j])@ == 0,
        decreases size - i,
    {
        r.push(zero);
        i = i + 1;
    }
    proof {
        assert(fvals(r@) =~= dense_cells(rounds@, log as nat));
    }
    r
}

/// Whether there are flags, and all of them are set.
pub open spec fn all_of(flags: Seq<bool>) -> bool {
    flags.len() > 0 && forall|i: int| 0 <= i < flags.len() ==> #[trigger] flags[i]
}

/// Whether the stripes of every commitment are at hand; with some missing, the other scheme
/// opens them all.
pub fn stripes_at_hand(flags: &Vec<bool>) -> (r: bool)
    ensures
        r == all_of(flags@),
{
    let mut i: usize = 0;
    while i < flags.len()
        invariant
            i <= flags@.len(),
            forall|j: int| 0 <= j < i ==> #[trigger] flags@[j],
        decreases flags@.len() - i,
    {
        if !flags[i] {
            return false;
        }
        i = i + 1;
    }
    flags.len() > 0
}

/// Assembles the bundle of an opening over several commitments, the last of which is the
/// main one.
pub fn assemble_bundle<R, E, B>(
    reduction: R,
    basefold_proof: B,
    whir_proof: Option<StackedWhirProof>,
    jagged_eval: E,
    layout: ColumnLayout,
    rounds: &Vec<JaggedOpenRound>,
    commit: JaggedCommit,
    preceding_commits: Vec<Digest>,
) -> (r: JaggedBasefoldBundleGeneric<R, E, B>)
    ensures
        r.reduction == reduction,
        r.basefold_proof == basefold_proof,
        r.whir_proof == whir_proof,
        r.jagged_eval == jagged_eval,
        r.y_per_chip == layout.y_per_chip,
        r.commit == commit,
        r.preceding_commits == preceding_commits,
        describes(r.packing, layout@, round_vals(rounds@)),
        r.single(),
{
    let packing = build_packing_meta(&layout, rounds);
    JaggedBasefoldBundleGeneric {
        reduction,
        basefold_proof,
        whir_proof,
        y_per_chip: layout.y_per_chip,
        commit,
        packing,
        jagged_eval,
        preceding_commits,
        extra_reduction: Vec::new(),
        extra_basefold_proof: Vec::new(),
        extra_commit: Vec::new(),
        extra_packing: Vec::new(),
        extra_jagged_eval: Vec::new(),
        groups: Vec::new(),
    }
}

} // verus!
