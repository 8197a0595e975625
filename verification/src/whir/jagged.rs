//! Committing to, opening and verifying one long polynomial that is cut into stripes.
//!
//! The cells of all traces, each rounded out to whole stripes, form one polynomial. Its
//! stripes are committed to and opened together. The low coordinates of an evaluation
//! point address a cell of a stripe, the high ones a stripe.
use vstd::prelude::*;
use vstd::arithmetic::div_mod::lemma_fundamental_div_mod;
use vstd::arithmetic::mul::lemma_mul_is_distributive_add;
use vstd::arithmetic::power2::{lemma2_to64, lemma_pow2_pos, lemma_pow2_unfold, pow2};
use crate::arith::{ceil_log2, ceil_log2_of, pow2_usize};
use crate::ext::{add_zero, all_canon, e_zero, epoints, evals, fvals, lift, mul_zero, sub_self, Ext, E4};
use crate::felt::{felt_canonical, Felt};
use crate::merkle::{committed_matrices, merkle_root, path_val, Digest};
use crate::mle::{fold, fold_all, mle_eval};
use crate::multilinear::{copy_exts, eval_at};
use crate::shard::lookup::Trace;
use crate::shard::rebuild::zeros;
use crate::transcript::{Sponge, Transcript};
use crate::whir::config::WhirConfig;
use crate::whir::completeness::tree_encodes;
use crate::whir::engine::WhirRound0Engine;
use crate::whir::honest::TreeVal;
use crate::whir::messages::{shape_error, ProofVal, WhirRefusal, WhirVerifierError};
use crate::whir::queries::counts_val;
use crate::whir::resident::ResidentEngine;
use crate::whir::rounds::schedule_fits;
use crate::whir::stacked::{data_roots, data_stripes, data_trees, flat, stacked_proof_is_accepted,
    stripe_counts, stripe_powers, stripe_values, stripes_val, StackedWhirProof, StackedWhirProver,
    StackedWhirProverData, StackedWhirVerifier};

verus! {

/// The logarithm of the height of a stripe.
pub const DEFAULT_LOG_STACKING_HEIGHT: u32 = 21;

/// The number of stripes that are handled together.
pub const DEFAULT_BATCH_SIZE: usize = 32;

/// A commitment to the stripes of several traces, by what a commitment scheme publishes.
#[derive(Debug)]
pub struct JaggedCommitGeneric<C> {
    /// What the commitment scheme publishes.
    pub original_commitment: C,
    /// The width and the logarithm of the height of each trace.
    pub chip_dims: Vec<(usize, u32)>,
    /// The number of cells of all stripes.
    pub area: usize,
    /// The logarithm of the height of a stripe.
    pub log_stacking_height: u32,
}

/// A commitment by the root of a tree.
pub type JaggedCommit = JaggedCommitGeneric<Digest>;

/// What a prover keeps of a commitment, around what it keeps of the stripes.
pub struct JaggedWhirProverDataGeneric<D> {
    /// The stripes and what they were committed with.
    pub stacked_data: D,
    /// The width and the logarithm of the height of each trace.
    pub chip_dims: Vec<(usize, u32)>,
    /// The number of cells of all stripes.
    pub area: usize,
    /// The logarithm of the height of a stripe.
    pub log_stacking_height: u32,
}

/// What a prover keeps of a commitment by the root of a tree.
pub type JaggedWhirProverData = JaggedWhirProverDataGeneric<StackedWhirProverData>;

/// The digest of a commitment: the root of its tree.
pub fn basefold_commit_digest(commit: &JaggedCommit) -> (r: Digest)
    ensures
        r == commit.original_commitment,
{
    commit.original_commitment
}

/// The logarithm of the height of a stripe, whatever the number of cells.
pub fn pick_log_stacking_height(total_entries: usize) -> (r: u32)
    ensures
        r == 21,
{
    DEFAULT_LOG_STACKING_HEIGHT
}

/// The smallest multiple of `block` that is at least `n`.
pub open spec fn round_up(n: nat, block: nat) -> nat {
    if n % block == 0 {
        n
    } else {
        (n / block + 1) * block
    }
}

/// The rounded number is a multiple of the block, and the next one below is too small.
pub proof fn round_up_bounds(n: nat, block: nat)
    requires
        block > 0,
    ensures
        n <= round_up(n, block) < n + block,
        round_up(n, block) % block == 0,
{
    lemma_fundamental_div_mod(n as int, block as int);
    let q = n / block;
    lemma_mul_is_distributive_add(block as int, q as int, 1);
    assert((q + 1) * block == block * (q + 1)) by (nonlinear_arith);
    if n % block != 0 {
        vstd::arithmetic::div_mod::lemma_mod_multiples_basic((q + 1) as int, block as int);
    }
}

/// Rounds a number up to a multiple of a block.
pub fn next_multiple_of(n: usize, block: usize) -> (r: usize)
    requires
        block > 0,
        round_up(n as nat, block as nat) <= usize::MAX,
    ensures
        r == round_up(n as nat, block as nat),
{
    if n % block == 0 {
        n
    } else {
        proof {
            let q = n as nat / block as nat;
            assert(q + 1 <= (q + 1) * block) by (nonlinear_arith)
                requires
                    block >= 1,
            ;
        }
        (n / block + 1) * block
    }
}

/// The width of a trace, at least one.
pub open spec fn padded_width(t: Trace) -> nat {
    if t.width == 0 {
        1
    } else {
        t.width as nat
    }
}

/// The height of a trace rounded out to whole stripes.
pub open spec fn padded_height(t: Trace) -> nat {
    round_up(t.values@.len() / padded_width(t), 0x200000)
}

/// A padded trace has the least number of whole stripes of `2^21` rows that hold its rows, and
/// at least one column.
pub proof fn padded_trace_is_whole_stripes(t: Trace)
    ensures
        padded_width(t) >= 1,
        t.width > 0 ==> padded_width(t) == t.width,
        padded_height(t) % pow2(21) == 0,
        t.values@.len() / padded_width(t) <= padded_height(t) < t.values@.len() / padded_width(t)
            + pow2(21),
{
    vstd::arithmetic::power2::lemma2_to64();
    vstd::arithmetic::power2::lemma_pow2_adds(20, 1);
    round_up_bounds(t.values@.len() / padded_width(t), 0x200000);
}

/// Whether the padded trace holds the cells of the trace, then zeros.
pub open spec fn is_padded(p: Trace, t: Trace) -> bool {
    let w = padded_width(t);
    let h = padded_height(t);
    &&& p.width == w
    &&& if t.values@.len() / w == h {
        p.values@ == t.values@
    } else {
        &&& p.values@.len() == h * w
        &&& forall|i: int|
            0 <= i < p.values@.len() ==> (#[trigger] p.values@[i])@ == (if i < t.values@.len() {
                t.values@[i]@
            } else {
                0
            })
    }
}

/// Whether `dims` are the widths of the traces and the logarithms of their padded heights.
pub open spec fn are_dims(dims: Seq<(usize, u32)>, traces: Seq<(String, Trace)>) -> bool {
    &&& dims.len() == traces.len()
    &&& forall|i: int|
        0 <= i < dims.len() ==> {
            &&& (#[trigger] dims[i]).0 == padded_width(traces[i].1)
            &&& dims[i].1 == ceil_log2_of(padded_height(traces[i].1))
        }
}

/// Whether `padded` are the traces, each rounded out to whole stripes.
pub open spec fn are_padded(padded: Seq<Trace>, traces: Seq<(String, Trace)>) -> bool {
    &&& padded.len() == traces.len()
    &&& forall|i: int| 0 <= i < padded.len() ==> is_padded(#[trigger] padded[i], traces[i].1)
}

/// Rounds every trace out to whole stripes, with zeros. The second result is each trace's
/// width and the logarithm of its padded height.
pub fn chips_to_mles_owned(chip_traces: Vec<(String, Trace)>) -> (r: (Vec<Trace>, Vec<(usize, u32)>))
    requires
        forall|i: int|
            #![trigger chip_traces@[i]]
            0 <= i < chip_traces@.len() ==> padded_height(chip_traces@[i].1) * padded_width(
                chip_traces@[i].1,
            ) <= usize::MAX,
    ensures
        are_padded(r.0@, chip_traces@),
        are_dims(r.1@, chip_traces@),
{
    let mut mles: Vec<Trace> = Vec::new();
    let mut dims: Vec<(usize, u32)> = Vec::new();
    let mut i: usize = 0;
    while i < chip_traces.len()
        invariant
            i <= chip_traces@.len(),
            forall|i: int|
                #![trigger chip_traces@[i]]
                0 <= i < chip_traces@.len() ==> padded_height(chip_traces@[i].1) * padded_width(
                    chip_traces@[i].1,
                ) <= usize::MAX,
            mles@.len() == i,
            dims@.len() == i,
            forall|j: int| 0 <= j < i ==> is_padded(#[trigger] mles@[j], chip_traces@[j].1),
            forall|j: int|
                0 <= j < i ==> {
                    &&& (#[trigger] dims@[j]).0 == padded_width(chip_traces@[j].1)
                    &&& dims@[j].1 == ceil_log2_of(padded_height(chip_traces@[j].1))
                },
        decreases chip_traces@.len() - i,
    {
        let t = &chip_traces[i].1;
        let width: usize = if t.width == 0 {
            1
        } else {
            t.width
        };
        let raw_height: usize = t.values.len() / width;
        let ghost h = padded_height(*t);
        proof {
            assert(chip_traces@[i as int].1 == *t);
            assert(h * width <= usize::MAX);
            assert(h <= h * width) by (nonlinear_arith)
                requires
                    width >= 1,
            ;
        }
        let padded: usize = next_multiple_of(raw_height, 0x200000);
        let log_h: usize = ceil_log2(padded);
        let mut values = crate::transcript::copy_felts(&t.values);
        if raw_height != padded {
            proof {
                round_up_bounds(raw_height as nat, 0x200000);
                lemma_fundamental_div_mod(t.values@.len() as int, width as int);
                assert(t.values@.len() <= h * width) by (nonlinear_arith)
                    requires
                        t.values@.len() == width as int * (raw_height as int)
                            + t.values@.len() % width as nat,
                        t.values@.len() % width as nat <= width,
                        raw_height + 1 <= h,
                        width >= 1,
                ;
            }
            let target: usize = padded * width;
            let zero = Felt::zero();
            let n: usize = values.len();
            let mut k: usize = n;
            while k < target
                invariant
                    n <= k <= target,
                    n == t.values@.len(),
                    zero@ == 0,
                    values@.len() == k,
                    forall|j: int| 0 <= j < n ==> #[trigger] values@[j] == t.values@[j],
                    forall|j: int| n <= j < k ==> (#[trigger] values@[j])@ == 0,
                decreases target - k,
            {
                values.push(zero);
                k = k + 1;
            }
        }
        let m = Trace { values, width };
        proof {
            assert(is_padded(m, chip_traces@[i as int].1));
        }
        mles.push(m);
        dims.push((width, log_h as u32));
        i = i + 1;
    }
    (mles, dims)
}

/// The columns of a stripe's rows. A stripe of at most one column is its own column.
pub open spec fn stripe_columns(t: Trace) -> Seq<Seq<int>> {
    if t.width <= 1 {
        seq![fvals(t.values@)]
    } else {
        Seq::new(t.width as nat, |c: int| stripe_column(t, c))
    }
}

/// Column `c` of a stripe's rows.
pub open spec fn stripe_column(t: Trace, c: int) -> Seq<int> {
    Seq::new(t.values@.len() / t.width as nat, |r: int| t.values@[r * t.width + c]@)
}

/// The columns of the first `k` stripes, stripe by stripe.
pub open spec fn all_columns(s: Seq<Trace>, k: int) -> Seq<Seq<int>>
    decreases k,
{
    if k <= 0 {
        Seq::empty()
    } else {
        all_columns(s, k - 1) + stripe_columns(s[k - 1])
    }
}

fn take_column(t: &Trace, c: usize) -> (r: Vec<Felt>)
    requires
        c < t.width,
    ensures
        fvals(r@) == stripe_column(*t, c as int),
{
    let height: usize = t.values.len() / t.width;
    let w: usize = t.width;
    let mut r: Vec<Felt> = Vec::new();
    let mut i: usize = 0;
    proof {
        lemma_fundamental_div_mod(t.values@.len() as int, w as int);
        assert(height * w <= t.values@.len()) by (nonlinear_arith)
            requires
                t.values@.len() == w as int * (height as int) + t.values@.len() % w as nat,
        ;
    }
    let len: usize = t.values.len();
    while i < height
        invariant
            i <= height,
            w == t.width,
            c < w,
            height * w <= t.values@.len(),
            t.values@.len() == len,
            r@.len() == i,
            forall|j: int| 0 <= j < i ==> (#[trigger] r@[j])@ == t.values@[j * w + c]@,
        decreases height - i,
    {
        proof {
            assert(i * w + c < height * w) by (nonlinear_arith)
                requires
                    i < height,
                    c < w,
            ;
            assert(0 <= i * w) by (nonlinear_arith);
        }
        r.push(t.values[i * w + c]);
        i = i + 1;
    }
    proof {
        assert(fvals(r@) =~= stripe_column(*t, c as int));
    }
    r
}

/// Splits stripes of several columns into polynomials, stripe by stripe, column by
/// column.
pub fn split_stripes_to_polys(stripes: &Vec<Trace>) -> (r: Vec<Vec<Felt>>)
    ensures
        stripes_val(r@) == all_columns(stripes@, stripes@.len() as int),
{
    let mut polys: Vec<Vec<Felt>> = Vec::new();
    let mut k: usize = 0;
    proof {
        assert(stripes_val(polys@) =~= Seq::<Seq<int>>::empty());
    }
    while k < stripes.len()
        invariant
            k <= stripes@.len(),
            stripes_val(polys@) == all_columns(stripes@, k as int),
        decreases stripes@.len() - k,
    {
        let t = &stripes[k];
        let ghost before = stripes_val(polys@);
        if t.width <= 1 {
            polys.push(crate::transcript::copy_felts(&t.values));
            proof {
                assert(stripes_val(polys@) =~= before + stripe_columns(*t));
            }
        } else {
            let mut c: usize = 0;
            proof {
                assert(stripe_columns(*t).take(0) =~= Seq::<Seq<int>>::empty());
                assert(before + stripe_columns(*t).take(0) =~= before);
            }
            while c < t.width
                invariant
                    c <= t.width,
                    t.width > 1,
                    stripes_val(polys@) == before + stripe_columns(*t).take(c as int),
                decreases t.width - c,
            {
                let ghost was = polys@;
                polys.push(take_column(t, c));
                proof {
                    let all = stripe_columns(*t);
                    assert(all.take(c + 1) =~= all.take(c as int).push(all[c as int]));
                    assert(stripes_val(polys@) =~= stripes_val(was).push(all[c as int]));
                    assert(stripes_val(polys@) =~= before + all.take(c + 1));
                }
                c = c + 1;
            }
            proof {
                assert(stripe_columns(*t).take(t.width as int) =~= stripe_columns(*t));
            }
        }
        k = k + 1;
    }
    polys
}

/// Block `i` of a polynomial that is cut into blocks of `n` cells.
pub open spec fn block<T>(f: Seq<T>, n: nat, i: int) -> Seq<T> {
    f.subrange(i * n, (i + 1) * n)
}

/// The blocks of a polynomial.
pub open spec fn blocks<T>(f: Seq<T>, n: nat) -> Seq<Seq<T>> {
    Seq::new(f.len() / n, |i: int| block(f, n, i))
}

/// Cuts a polynomial into blocks of `n` cells.
pub fn cut_blocks(cells: &Vec<Felt>, n: usize) -> (r: Vec<Vec<Felt>>)
    requires
        n > 0,
        cells@.len() % n as nat == 0,
    ensures
        stripes_val(r@) == blocks(fvals(cells@), n as nat),
        r@.len() == cells@.len() / n as nat,
        forall|i: int| 0 <= i < r@.len() ==> (#[trigger] r@[i])@.len() == n,
{
    let count: usize = cells.len() / n;
    let ghost all = fvals(cells@);
    proof {
        lemma_fundamental_div_mod(cells@.len() as int, n as int);
        assert(count * n == cells@.len()) by (nonlinear_arith)
            requires
                cells@.len() == n as int * (count as int) + 0,
        ;
    }
    let mut r: Vec<Vec<Felt>> = Vec::new();
    let mut i: usize = 0;
    while i < count
        invariant
            i <= count,
            n > 0,
            count * n == cells@.len(),
            cells@.len() <= usize::MAX,
            all == fvals(cells@),
            r@.len() == i,
            forall|j: int| 0 <= j < i ==> (#[trigger] r@[j])@.len() == n,
            forall|j: int| 0 <= j < i ==> fvals((#[trigger] r@[j])@) == block(all, n as nat, j),
        decreases count - i,
    {
        proof {
            assert(i * n + n <= count * n) by (nonlinear_arith)
                requires
                    i + 1 <= count,
            ;
            assert((i + 1) * n == i * n + n) by (nonlinear_arith);
            assert(0 <= i * n) by (nonlinear_arith);
        }
        let start: usize = i * n;
        let mut b: Vec<Felt> = Vec::new();
        let mut k: usize = 0;
        while k < n
            invariant
                k <= n,
                start + n <= cells@.len(),
                cells@.len() <= usize::MAX,
                b@.len() == k,
                forall|j: int| 0 <= j < k ==> #[trigger] b@[j] == cells@[start + j],
            decreases n - k,
        {
            b.push(cells[start + k]);
            k = k + 1;
        }
        proof {
            assert(fvals(b@) =~= block(all, n as nat, i as int));
        }
        r.push(b);
        i = i + 1;
    }
    proof {
        assert(stripes_val(r@) =~= blocks(all, n as nat));
    }
    r
}

/// Whether `area` and `data` are what a prover keeps of a commitment to the cells `all`,
/// and `commit` what it publishes.
pub open spec fn commits_to(
    prover: StackedWhirProver,
    all: Seq<int>,
    commit: JaggedCommit,
    data: JaggedWhirProverData,
) -> bool {
    &&& prover.holds(data.stacked_data)
    &&& stripes_val(data.stacked_data.stripes@) == blocks(
        all,
        pow2(prover.log_stacking_height as nat),
    )
    &&& commit.original_commitment == data.stacked_data.commitment
    &&& commit.area == all.len()
    &&& data.area == all.len()
    &&& commit.log_stacking_height == prover.log_stacking_height
    &&& data.log_stacking_height == prover.log_stacking_height
    &&& commit.chip_dims@ == data.chip_dims@
}

/// A copy of a list of dimensions.
pub(crate) fn copy_dims(s: &Vec<(usize, u32)>) -> (r: Vec<(usize, u32)>)
    ensures
        r@ == s@,
{
    let mut r: Vec<(usize, u32)> = Vec::new();
    let mut i: usize = 0;
    while i < s.len()
        invariant
            i <= s@.len(),
            r@ == s@.take(i as int),
        decreases s@.len() - i,
    {
        r.push(s[i]);
        i = i + 1;
        proof {
            assert(s@.take(i as int) =~= s@.take(i - 1).push(s@[i - 1]));
        }
    }
    proof {
        assert(s@.take(i as int) =~= s@);
    }
    r
}

/// Commits to a polynomial that is a whole number of stripes.
pub fn commit_cells(
    cells: &Vec<Felt>,
    chip_dims: Vec<(usize, u32)>,
    prover: &StackedWhirProver,
) -> (r: (JaggedCommit, JaggedWhirProverData))
    requires
        prover.can_commit(),
        cells@.len() > 0,
        cells@.len() % pow2(prover.log_stacking_height as nat) == 0,
    ensures
        commits_to(*prover, fvals(cells@), r.0, r.1),
        r.1.chip_dims == chip_dims,
{
    let lsh: usize = prover.log_stacking_height as usize;
    proof {
        lemma_pow2_pos(lsh as nat);
        crate::arith::pow2_le(
            lsh as nat,
            lsh as nat + prover.config.starting_log_inv_rate as nat,
        );
    }
    let n: usize = pow2_usize(lsh);
    proof {
        lemma_fundamental_div_mod(cells@.len() as int, n as int);
    }
    let polys = cut_blocks(cells, n);
    proof {
        if polys@.len() == 0 {
            assert(cells@.len() == 0) by (nonlinear_arith)
                requires
                    cells@.len() == n as int * 0 + 0,
            ;
        }
    }
    let stacked_data = prover.commit_stripes(polys);
    let commit = JaggedCommit {
        original_commitment: stacked_data.commitment,
        chip_dims: copy_dims(&chip_dims),
        area: cells.len(),
        log_stacking_height: prover.log_stacking_height,
    };
    let data = JaggedWhirProverData {
        stacked_data,
        chip_dims,
        area: cells.len(),
        log_stacking_height: prover.log_stacking_height,
    };
    (commit, data)
}

/// The width of a trace of at most one column.
pub open spec fn narrow(s: Seq<(String, Trace)>) -> bool {
    forall|i: int| 0 <= i < s.len() ==> (#[trigger] s[i]).1.width <= 1
}

/// The number of cells of the first `k` traces, each rounded out to whole stripes.
pub open spec fn padded_total(s: Seq<(String, Trace)>, k: int) -> nat
    decreases k,
{
    if k <= 0 {
        0
    } else {
        padded_total(s, k - 1) + padded_height(s[k - 1].1)
    }
}

/// The padded cells of the first `k` traces of one column each, one trace after the
/// other.
pub open spec fn padded_cells(s: Seq<(String, Trace)>, k: int) -> Seq<int>
    decreases k,
{
    if k <= 0 {
        Seq::empty()
    } else {
        let t = s[k - 1].1;
        padded_cells(s, k - 1) + (fvals(t.values@) + Seq::new(
            (padded_height(t) - t.values@.len()) as nat,
            |i: int| 0int,
        ))
    }
}

proof fn padded_cells_len(s: Seq<(String, Trace)>, k: int)
    requires
        0 <= k <= s.len(),
        narrow(s),
    ensures
        padded_cells(s, k).len() == padded_total(s, k),
        padded_total(s, k) % 0x200000 == 0,
    decreases k,
{
    if k > 0 {
        padded_cells_len(s, k - 1);
        let t = s[k - 1].1;
        assert(s[k - 1].1.width <= 1);
        vstd::arithmetic::div_mod::lemma_div_basics_2(t.values@.len() as int);
        round_up_bounds(t.values@.len(), 0x200000);
        vstd::arithmetic::div_mod::lemma_add_mod_noop(
            padded_total(s, k - 1) as int,
            padded_height(t) as int,
            0x200000,
        );
    }
}

proof fn padded_total_monotone(s: Seq<(String, Trace)>, i: int, k: int)
    requires
        0 <= i < k,
    ensures
        padded_height(s[i].1) <= padded_total(s, k),
    decreases k,
{
    if i < k - 1 {
        padded_total_monotone(s, i, k - 1);
    }
}

/// Commits to traces of one column each: the cells, every trace rounded out to whole
/// stripes, are cut into stripes.
pub fn commit_jagged_whir_generic(chip_traces: Vec<(String, Trace)>, config: WhirConfig) -> (r: (
    JaggedCommit,
    JaggedWhirProverData,
))
    requires
        narrow(chip_traces@),
        0 < padded_total(chip_traces@, chip_traces@.len() as int) <= usize::MAX,
        (StackedWhirProver { config, log_stacking_height: 21 }).can_commit(),
    ensures
        commits_to(
            (StackedWhirProver { config, log_stacking_height: 21 }),
            padded_cells(chip_traces@, chip_traces@.len() as int),
            r.0,
            r.1,
        ),
        are_dims(r.1.chip_dims@, chip_traces@),
{
    let ghost traces = chip_traces@;
    proof {
        assert forall|i: int| #![trigger traces[i]] 0 <= i < traces.len() implies padded_height(
            traces[i].1,
        ) * padded_width(traces[i].1) <= usize::MAX by {
            padded_total_monotone(traces, i, traces.len() as int);
            assert(padded_width(traces[i].1) == 1);
        }
    }
    let count: usize = chip_traces.len();
    let (mles, dims) = chips_to_mles_owned(chip_traces);
    let mut cells: Vec<Felt> = Vec::new();
    let mut i: usize = 0;
    proof {
        assert(fvals(cells@) =~= Seq::<int>::empty());
    }
    while i < count
        invariant
            i <= count,
            count == traces.len(),
            mles@.len() == count,
            narrow(traces),
            forall|j: int| 0 <= j < count ==> is_padded(#[trigger] mles@[j], traces[j].1),
            fvals(cells@) == padded_cells(traces, i as int),
        decreases count - i,
    {
        let ghost before = cells@;
        let mut part = crate::transcript::copy_felts(&mles[i].values);
        let ghost added = part@;
        cells.append(&mut part);
        proof {
            let t = traces[i as int].1;
            assert(is_padded(mles@[i as int], t));
            assert(t.width <= 1);
            vstd::arithmetic::div_mod::lemma_div_basics_2(t.values@.len() as int);
            round_up_bounds(t.values@.len(), 0x200000);
            let rest = Seq::new((padded_height(t) - t.values@.len()) as nat, |i: int| 0int);
            assert(padded_height(t) * padded_width(t) == padded_height(t)) by (nonlinear_arith)
                requires
                    padded_width(t) == 1,
            ;
            assert(fvals(added) =~= fvals(t.values@) + rest);
            assert(fvals(cells@) =~= fvals(before) + fvals(added));
        }
        i = i + 1;
    }
    proof {
        padded_cells_len(traces, count as int);
        assert(fvals(cells@).len() == cells@.len());
        lemma2_to64();
    }
    let lsh: u32 = pick_log_stacking_height(cells.len());
    let prover = StackedWhirProver::new(config, lsh);
    commit_cells(&cells, dims, &prover)
}

/// Opens the stripes of every commitment at the low coordinates of a point. `None` where
/// some proof of work does not exist.
pub fn open_jagged_whir_rounds_generic(
    rounds: &Vec<&JaggedWhirProverData>,
    eval_point: &[Ext],
    challenger: &mut Transcript,
    prover: &StackedWhirProver,
) -> (r: Option<StackedWhirProof>)
    requires
        old(challenger).wf(),
        rounds@.len() > 0,
        prover.log_stacking_height == rounds@[0].log_stacking_height,
        prover.log_stacking_height <= eval_point@.len(),
        prover.fits(rounds@.len()),
        forall|i: int|
            0 <= i < rounds@.len() ==> prover.holds((#[trigger] rounds@[i]).stacked_data),
    ensures
        final(challenger).wf(),
        ({
            let point = evals(eval_point@).take(prover.log_stacking_height as int);
            let stripes = rounds_stripes(rounds@);
            let values = stripe_values(stripes, point);
            let (lambda, start) = prover.start(old(challenger)@, stripes, point);
            let pr = prover.prover(
                rounds_trees(rounds@),
                rounds_roots(rounds@),
                stripe_counts(stripes),
                stripe_powers(values, lambda),
            );
            match r {
                Some(out) => {
                    let p = out.whir_proof@;
                    &&& epoints(out.batch_evaluations@) == values
                    &&& pr.honest(start, p)
                    &&& final(challenger)@ == pr.end(start, pr.all_data(p)).sponge.after_pow(
                        pr.final_pow_bits,
                        p.final_pow,
                    ).after_draws(pr.final_queries)
                },
                None => pr.stuck(start),
            }
        }),
{
    let none: Option<ResidentEngine> = None;
    open_jagged_whir_rounds_generic_with_engine(rounds, eval_point, challenger, prover, none)
}

/// Whether an engine, if there is one, holds the stripes and trees of the commitments, and
/// the schedule is one that an engine can serve.
pub open spec fn rounds_engine_fits<E: WhirRound0Engine>(
    prover: StackedWhirProver,
    rounds: Seq<&JaggedWhirProverData>,
    engine: Option<E>,
) -> bool {
    match engine {
        None => true,
        Some(e) => {
            &&& e.ready()
            &&& e.stack_vars() == prover.log_stacking_height
            &&& e.stripes() == rounds_stripes(rounds)
            &&& e.trees() == rounds_trees(rounds)
            &&& e.pending().len() == 0
            &&& prover.config.starting_ood_samples == 0
            &&& prover.config.round_parameters@.len() >= 2
        },
    }
}

/// Opens the stripes of every commitment at the low coordinates of a point. `None` where
/// some proof of work does not exist. An engine that holds the stripes may serve them.
pub fn open_jagged_whir_rounds_generic_with_engine<E: WhirRound0Engine>(
    rounds: &Vec<&JaggedWhirProverData>,
    eval_point: &[Ext],
    challenger: &mut Transcript,
    prover: &StackedWhirProver,
    engine: Option<E>,
) -> (r: Option<StackedWhirProof>)
    requires
        old(challenger).wf(),
        rounds@.len() > 0,
        prover.log_stacking_height == rounds@[0].log_stacking_height,
        prover.log_stacking_height <= eval_point@.len(),
        prover.fits(rounds@.len()),
        forall|i: int|
            0 <= i < rounds@.len() ==> prover.holds((#[trigger] rounds@[i]).stacked_data),
        rounds_engine_fits(*prover, rounds@, engine),
    ensures
        final(challenger).wf(),
        ({
            let point = evals(eval_point@).take(prover.log_stacking_height as int);
            let stripes = rounds_stripes(rounds@);
            let values = stripe_values(stripes, point);
            let (lambda, start) = prover.start(old(challenger)@, stripes, point);
            let pr = prover.prover(
                rounds_trees(rounds@),
                rounds_roots(rounds@),
                stripe_counts(stripes),
                stripe_powers(values, lambda),
            );
            match r {
                Some(out) => {
                    let p = out.whir_proof@;
                    &&& epoints(out.batch_evaluations@) == values
                    &&& pr.honest(start, p)
                    &&& final(challenger)@ == pr.end(start, pr.all_data(p)).sponge.after_pow(
                        pr.final_pow_bits,
                        p.final_pow,
                    ).after_draws(pr.final_queries)
                },
                None => pr.stuck(start),
            }
        }),
{
    let lsh: usize = rounds[0].log_stacking_height as usize;
    let stack_point = copy_exts(vstd::slice::slice_subrange(eval_point, 0, lsh));
    proof {
        assert(evals(stack_point@) =~= evals(eval_point@).take(lsh as int));
    }
    let mut stacked: Vec<&StackedWhirProverData> = Vec::new();
    let mut i: usize = 0;
    while i < rounds.len()
        invariant
            i <= rounds@.len(),
            stacked@.len() == i,
            forall|j: int| 0 <= j < i ==> *(#[trigger] stacked@[j]) == rounds@[j].stacked_data,
        decreases rounds@.len() - i,
    {
        stacked.push(&rounds[i].stacked_data);
        i = i + 1;
    }
    proof {
        assert forall|i: int| 0 <= i < stacked@.len() implies prover.holds(*#[trigger] stacked@[i]) by {
            assert(prover.holds(rounds@[i].stacked_data));
        }
        assert(data_stripes(stacked@) =~= rounds_stripes(rounds@));
        assert(data_trees(stacked@) =~= rounds_trees(rounds@));
        assert(data_roots(stacked@) =~= rounds_roots(rounds@));
    }
    prover.prove_trusted_evaluation_with_engine(&stack_point, &stacked, challenger, engine)
}

/// The stripes of several commitments.
pub open spec fn rounds_stripes(s: Seq<&JaggedWhirProverData>) -> Seq<Seq<Seq<int>>> {
    Seq::new(s.len(), |i: int| stripes_val(s[i].stacked_data.stripes@))
}

/// The trees of several commitments.
pub open spec fn rounds_trees(s: Seq<&JaggedWhirProverData>) -> Seq<TreeVal> {
    Seq::new(s.len(), |i: int| committed_matrices(s[i].stacked_data.tree))
}

/// The roots of several commitments.
pub open spec fn rounds_roots(s: Seq<&JaggedWhirProverData>) -> Seq<Seq<int>> {
    Seq::new(s.len(), |i: int| fvals(s[i].stacked_data.commitment@))
}

/// The cells of the first `k` stripes, one stripe after the other.
pub open spec fn cells_flat(s: Seq<Seq<int>>, k: int) -> Seq<int>
    decreases k,
{
    if k <= 0 {
        Seq::empty()
    } else {
        cells_flat(s, k - 1) + s[k - 1]
    }
}

/// The cells of the first `k` commitments, stripe by stripe.
pub open spec fn stripes_flat(s: Seq<&JaggedWhirProverData>, k: int) -> Seq<int>
    decreases k,
{
    if k <= 0 {
        Seq::empty()
    } else {
        let t = stripes_val(s[k - 1].stacked_data.stripes@);
        stripes_flat(s, k - 1) + cells_flat(t, t.len() as int)
    }
}

/// The cells of all commitments, stripe by stripe.
pub fn collect_cells(rounds: &Vec<&JaggedWhirProverData>) -> (r: Vec<Felt>)
    ensures
        fvals(r@) == stripes_flat(rounds@, rounds@.len() as int),
{
    let mut r: Vec<Felt> = Vec::new();
    let mut i: usize = 0;
    proof {
        assert(fvals(r@) =~= Seq::<int>::empty());
    }
    while i < rounds.len()
        invariant
            i <= rounds@.len(),
            fvals(r@) == stripes_flat(rounds@, i as int),
        decreases rounds@.len() - i,
    {
        let stripes = &rounds[i].stacked_data.stripes;
        let ghost before = fvals(r@);
        let ghost t = stripes_val(stripes@);
        let mut k: usize = 0;
        proof {
            assert(before + cells_flat(t, 0) =~= before);
        }
        while k < stripes.len()
            invariant
                k <= stripes@.len(),
                t == stripes_val(stripes@),
                fvals(r@) == before + cells_flat(t, k as int),
            decreases stripes@.len() - k,
        {
            let ghost was = r@;
            let mut part = crate::transcript::copy_felts(&stripes[k]);
            let ghost added = part@;
            r.append(&mut part);
            proof {
                assert(t[k as int] == fvals(added));
                assert(fvals(r@) =~= fvals(was) + fvals(added));
                assert(fvals(r@) =~= before + cells_flat(t, k + 1));
            }
            k = k + 1;
        }
        i = i + 1;
    }
    r
}

/// The first `n` values, with zeros past the end.
pub open spec fn resized(s: Seq<E4>, n: nat) -> Seq<E4> {
    Seq::new(
        n,
        |i: int|
            if i < s.len() {
                s[i]
            } else {
                e_zero()
            },
    )
}

/// The value that the stripes' values give at the high coordinates of a point.
pub open spec fn stacked_value(values: Seq<Seq<E4>>, batch_point: Seq<E4>) -> E4 {
    mle_eval(resized(flat(values, values.len() as int), pow2(batch_point.len())), batch_point)
}

/// The numbers of stripes of several areas.
pub open spec fn area_stripes(areas: Seq<usize>, lsh: nat) -> Seq<nat> {
    Seq::new(areas.len(), |i: int| areas[i] as nat / pow2(lsh))
}

/// Why an opening of one long polynomial is refused before its stripes are opened, if it is:
/// the dimension of the point, the areas, then the claim.
pub open spec fn claim_refusal(
    lsh: nat,
    areas: Seq<usize>,
    point: Seq<E4>,
    values: Seq<Seq<E4>>,
    claim: E4,
) -> Option<WhirRefusal> {
    if point.len() < lsh {
        Some(WhirRefusal::IncorrectShape("point too short"@))
    } else if exists|i: int| 0 <= i < areas.len() && (#[trigger] areas[i]) as nat % pow2(lsh) != 0 {
        Some(WhirRefusal::IncorrectShape("area alignment"@))
    } else if stacked_value(values, point.skip(lsh as int)) != claim {
        Some(WhirRefusal::IncorrectShape("stacking mismatch"@))
    } else {
        None
    }
}

/// Why an opening of one long polynomial is refused, if it is: the dimension of the
/// point, the areas, the claim, then the stripes.
pub open spec fn jagged_refusal(
    verifier: StackedWhirVerifier,
    s: Sponge,
    roots: Seq<Seq<int>>,
    areas: Seq<usize>,
    point: Seq<E4>,
    values: Seq<Seq<E4>>,
    p: ProofVal,
    claim: E4,
) -> Option<WhirRefusal> {
    let lsh = verifier.log_stacking_height as nat;
    match claim_refusal(lsh, areas, point, values, claim) {
        Some(e) => Some(e),
        None => verifier.refusal(
            s,
            roots,
            area_stripes(areas, lsh),
            point.take(lsh as int),
            values,
            p,
        ),
    }
}

/// All values, one list after the other.
fn flatten(values: &Vec<Vec<Ext>>) -> (r: Vec<Ext>)
    ensures
        evals(r@) == flat(epoints(values@), values@.len() as int),
{
    let mut r: Vec<Ext> = Vec::new();
    let mut i: usize = 0;
    proof {
        assert(evals(r@) =~= Seq::<E4>::empty());
    }
    while i < values.len()
        invariant
            i <= values@.len(),
            evals(r@) == flat(epoints(values@), i as int),
        decreases values@.len() - i,
    {
        let ghost before = r@;
        let mut part = copy_exts(values[i].as_slice());
        let ghost added = part@;
        r.append(&mut part);
        proof {
            assert(evals(r@) =~= evals(before) + evals(added));
        }
        i = i + 1;
    }
    r
}

/// The first `n` values, with zeros past the end.
fn resize(s: &Vec<Ext>, n: usize) -> (r: Vec<Ext>)
    ensures
        evals(r@) == resized(evals(s@), n as nat),
        r@.len() == n,
{
    let zero = Ext::zero();
    let mut r: Vec<Ext> = Vec::new();
    let mut i: usize = 0;
    while i < n
        invariant
            i <= n,
            zero@ == e_zero(),
            r@.len() == i,
            forall|j: int|
                0 <= j < i ==> (#[trigger] r@[j])@ == resized(evals(s@), n as nat)[j],
        decreases n - i,
    {
        r.push(
            if i < s.len() {
                s[i]
            } else {
                zero
            },
        );
        i = i + 1;
    }
    proof {
        assert(evals(r@) =~= resized(evals(s@), n as nat));
    }
    r
}

/// Verifies an opening of one long polynomial: the claim is what the stripes' values give
/// at the high coordinates, and the stripes have these values at the low ones.
pub fn verify_jagged_whir_rounds(
    verifier: &StackedWhirVerifier,
    commitments: &Vec<Digest>,
    round_areas: &Vec<usize>,
    point: &[Ext],
    stacked: &StackedWhirProof,
    evaluation_claim: Ext,
    challenger: &mut Transcript,
) -> (r: Result<(), WhirVerifierError>)
    requires
        old(challenger).wf(),
        pow2(verifier.log_stacking_height as nat) <= usize::MAX,
        pow2(point@.len()) <= usize::MAX,
        schedule_fits(
            verifier.log_stacking_height as nat,
            verifier.config.round_parameters@,
            verifier.config.starting_log_inv_rate as nat,
            verifier.config.final_queries as nat,
            verifier.config.final_pow_bits as nat,
            commitments@.len(),
        ),
        ({
            let lsh = verifier.log_stacking_height as nat;
            let values = epoints(stacked.batch_evaluations@);
            let counts = area_stripes(round_areas@, lsh);
            let low = evals(point@).take(lsh as int);
            claim_refusal(lsh, round_areas@, evals(point@), values, evaluation_claim@) is None
                ==> verifier.entries_found(
                old(challenger)@,
                path_val(commitments@),
                counts,
                low,
                values,
                stacked.whir_proof@,
            )
        }),
    ensures
        final(challenger).wf(),
        ({
            let roots = path_val(commitments@);
            let values = epoints(stacked.batch_evaluations@);
            let p = stacked.whir_proof@;
            let why = jagged_refusal(
                *verifier,
                old(challenger)@,
                roots,
                round_areas@,
                evals(point@),
                values,
                p,
                evaluation_claim@,
            );
            match r {
                Ok(_) => {
                    let low = evals(point@).take(verifier.log_stacking_height as int);
                    let counts = area_stripes(
                        round_areas@,
                        verifier.log_stacking_height as nat,
                    );
                    let (st, lambda) = verifier.start(old(challenger)@, low, values);
                    let inst = verifier.instance(roots, counts, stripe_powers(values, lambda), p);
                    &&& why is None
                    &&& final(challenger)@ == inst.final_sponge(inst.end(st)).after_draws(
                        inst.final_queries,
                    )
                },
                Err(e) => why == Some(e@),
            }
        }),
{
    let lsh: usize = verifier.log_stacking_height as usize;
    let n: usize = point.len();
    let ghost gp = evals(point@);
    proof {
        assert(gp.len() == n);
        lemma_pow2_pos(lsh as nat);
    }
    if n < lsh {
        return Err(shape_error("point too short"));
    }
    let stack_point = vstd::slice::slice_subrange(point, 0, lsh);
    let batch_point = vstd::slice::slice_subrange(point, lsh, n);
    proof {
        assert(evals(stack_point@) =~= gp.take(lsh as int));
        assert(evals(batch_point@) =~= gp.skip(lsh as int));
        crate::arith::pow2_le((n - lsh) as nat, n as nat);
    }
    let height: usize = pow2_usize(lsh);
    let mut counts: Vec<usize> = Vec::new();
    let mut i: usize = 0;
    while i < round_areas.len()
        invariant
            i <= round_areas@.len(),
            height == pow2(lsh as nat),
            height > 0,
            lsh == verifier.log_stacking_height,
            lsh <= n,
            gp.len() == n,
            gp == evals(point@),
            challenger.wf(),
            counts@.len() == i,
            forall|j: int|
                0 <= j < i ==> {
                    &&& (#[trigger] round_areas@[j]) as nat % pow2(lsh as nat) == 0
                    &&& counts@[j] == round_areas@[j] as nat / pow2(lsh as nat)
                },
        decreases round_areas@.len() - i,
    {
        if round_areas[i] % height != 0 {
            return Err(shape_error("area alignment"));
        }
        counts.push(round_areas[i] / height);
        i = i + 1;
    }
    proof {
        assert(counts_val(counts@) =~= area_stripes(round_areas@, lsh as nat));
    }
    let all = flatten(&stacked.batch_evaluations);
    let size: usize = pow2_usize(n - lsh);
    let padded = resize(&all, size);
    let claim = eval_at(padded.as_slice(), batch_point);
    proof {
        assert(epoints(stacked.batch_evaluations@).len() == stacked.batch_evaluations@.len());
    }
    if !claim.same(&evaluation_claim) {
        return Err(shape_error("stacking mismatch"));
    }
    verifier.verify_trusted_evaluation(commitments, &counts, stack_point, stacked, challenger)
}

proof fn fold_block(f: Seq<E4>, n: nat, k: nat, r: E4, i: int)
    requires
        f.len() == 2 * n * k,
        0 <= i < k,
    ensures
        fold(f, r).len() == n * k,
        block(fold(f, r), n, i) == fold(block(f, 2 * n, i), r),
{
    assert(2 * n * k == 2 * (n * k)) by (nonlinear_arith);
    let a = block(fold(f, r), n, i);
    let b = fold(block(f, 2 * n, i), r);
    assert((i + 1) * n == i * n + n) by (nonlinear_arith);
    assert((i + 1) * (2 * n) == i * (2 * n) + 2 * n) by (nonlinear_arith);
    assert(i * (2 * n) == 2 * (i * n)) by (nonlinear_arith);
    assert(0 <= i * n) by (nonlinear_arith)
        requires
            0 <= i,
    ;
    assert((i + 1) * n <= k * n) by (nonlinear_arith)
        requires
            i + 1 <= k,
    ;
    assert(k * n == n * k) by (nonlinear_arith);
    assert(a.len() == n);
    assert(b.len() == n);
    assert forall|j: int| 0 <= j < n implies a[j] == b[j] by {
        assert(a[j] == fold(f, r)[i * n + j]);
        assert(b[j] == crate::ring::lerp(
            block(f, 2 * n, i)[2 * j],
            block(f, 2 * n, i)[2 * j + 1],
            r,
        ));
    }
    assert(a =~= b);
}

/// Fixing the low variables of a polynomial fixes them in every block.
pub proof fn fold_all_blocks(f: Seq<E4>, k: nat, p: Seq<E4>, i: int)
    requires
        f.len() == pow2(p.len()) * k,
        0 <= i < k,
    ensures
        fold_all(f, p).len() == k,
        fold_all(f, p)[i] == mle_eval(block(f, pow2(p.len()), i), p),
    decreases p.len(),
{
    lemma2_to64();
    if p.len() == 0 {
        assert(f.len() == k) by (nonlinear_arith)
            requires
                f.len() == pow2(p.len()) * k,
                pow2(p.len()) == 1,
        ;
        assert(i * 1 == i && (i + 1) * 1 == i + 1);
        assert(block(f, 1, i)[0] == f[i]);
    } else {
        let n = pow2((p.len() - 1) as nat);
        lemma_pow2_unfold(p.len());
        assert(pow2(p.len()) * k == 2 * n * k);
        fold_block(f, n, k, p[0], i);
        fold_all_blocks(fold(f, p[0]), k, p.skip(1), i);
    }
}

/// Fixing variables in two steps fixes them all.
pub proof fn fold_all_split(f: Seq<E4>, p: Seq<E4>, q: Seq<E4>)
    ensures
        fold_all(f, p + q) == fold_all(fold_all(f, p), q),
    decreases p.len(),
{
    if p.len() == 0 {
        assert(p + q =~= q);
    } else {
        fold_all_split(fold(f, p[0]), p.skip(1), q);
        assert((p + q).skip(1) =~= p.skip(1) + q);
    }
}

/// The value of a long polynomial at a point is the value, at the high coordinates, of
/// its blocks' values at the low coordinates.
pub proof fn long_value_from_blocks(f: Seq<E4>, low: Seq<E4>, high: Seq<E4>)
    requires
        f.len() == pow2(low.len()) * pow2(high.len()),
    ensures
        mle_eval(f, low + high) == mle_eval(
            Seq::new(
                pow2(high.len()),
                |i: int| mle_eval(block(f, pow2(low.len()), i), low),
            ),
            high,
        ),
{
    let k = pow2(high.len());
    let values = Seq::new(k, |i: int| mle_eval(block(f, pow2(low.len()), i), low));
    lemma_pow2_pos(high.len());
    fold_all_blocks(f, k, low, 0);
    assert forall|i: int| 0 <= i < k implies fold_all(f, low)[i] == values[i] by {
        fold_all_blocks(f, k, low, i);
    }
    assert(fold_all(f, low) =~= values);
    fold_all_split(f, low, high);
}

proof fn zeros_value(p: Seq<E4>)
    ensures
        mle_eval(zeros(pow2(p.len())), p) == e_zero(),
    decreases p.len(),
{
    lemma2_to64();
    if p.len() > 0 {
        lemma_pow2_unfold(p.len());
        let f = zeros(pow2(p.len()));
        sub_self(e_zero());
        mul_zero(p[0]);
        add_zero(e_zero());
        assert(fold(f, p[0]) =~= zeros(pow2((p.len() - 1) as nat)));
        zeros_value(p.skip(1));
    }
}

/// The polynomial whose blocks are the given stripes, with blocks of zeros past them.
pub open spec fn stacked_poly(stripes: Seq<Seq<E4>>, n: nat, count: nat) -> Seq<E4> {
    Seq::new(
        n * count,
        |x: int|
            if x / (n as int) < stripes.len() {
                stripes[x / n as int][x % n as int]
            } else {
                e_zero()
            },
    )
}

/// The value that the stripes' values give is the value of the polynomial that the
/// stripes are cut from.
pub proof fn stacked_value_is_long_value(stripes: Seq<Seq<E4>>, low: Seq<E4>, high: Seq<E4>)
    requires
        stripes.len() <= pow2(high.len()),
        forall|i: int|
            0 <= i < stripes.len() ==> (#[trigger] stripes[i]).len() == pow2(low.len()),
    ensures
        mle_eval(stacked_poly(stripes, pow2(low.len()), pow2(high.len())), low + high) == mle_eval(
            resized(
                Seq::new(stripes.len(), |i: int| mle_eval(stripes[i], low)),
                pow2(high.len()),
            ),
            high,
        ),
{
    let n = pow2(low.len());
    let k = pow2(high.len());
    let f = stacked_poly(stripes, n, k);
    lemma_pow2_pos(low.len());
    long_value_from_blocks(f, low, high);
    let a = Seq::new(k, |i: int| mle_eval(block(f, n, i), low));
    let b = resized(Seq::new(stripes.len(), |i: int| mle_eval(stripes[i], low)), k);
    assert forall|i: int| 0 <= i < k implies a[i] == b[i] by {
        assert((i + 1) * n == i * n + n) by (nonlinear_arith);
        assert(0 <= i * n && (i + 1) * n <= n * k) by (nonlinear_arith)
            requires
                0 <= i,
                i + 1 <= k,
        ;
        assert forall|j: int| 0 <= j < n implies (#[trigger] block(f, n, i)[j]) == (if i
            < stripes.len() {
            stripes[i][j]
        } else {
            e_zero()
        }) by {
            assert(block(f, n, i)[j] == f[i * n + j]);
            vstd::arithmetic::div_mod::lemma_fundamental_div_mod_converse(
                i * n + j,
                n as int,
                i,
                j,
            );
        }
        if i < stripes.len() {
            assert(block(f, n, i) =~= stripes[i]);
        } else {
            assert(block(f, n, i) =~= zeros(n));
            zeros_value(low);
        }
    }
    assert(a =~= b);
}

/// What is opened is verified: an opening of one long polynomial is accepted for the
/// value that its stripes' values give at the high coordinates, where both sides start
/// from one transcript.
pub proof fn jagged_opening_is_accepted(
    prover: StackedWhirProver,
    verifier: StackedWhirVerifier,
    s: Sponge,
    rounds: Seq<&JaggedWhirProverData>,
    areas: Seq<usize>,
    point: Seq<E4>,
    p: ProofVal,
)
    requires
        verifier.config == prover.config,
        verifier.log_stacking_height == prover.log_stacking_height,
        prover.config.starting_ood_samples == 0,
        point.len() >= prover.log_stacking_height,
        prover.fits(rounds.len()),
        forall|i: int|
            0 <= i < rounds.len() ==> prover.holds((#[trigger] rounds[i]).stacked_data),
        areas.len() == rounds.len(),
        forall|i: int|
            0 <= i < rounds.len() ==> (#[trigger] areas[i]) as nat == rounds[i].stacked_data.stripes@.len()
                * pow2(prover.log_stacking_height as nat),
        ({
            let low = point.take(prover.log_stacking_height as int);
            let stripes = rounds_stripes(rounds);
            let (lambda, start) = prover.start(s, stripes, low);
            prover.prover(
                rounds_trees(rounds),
                rounds_roots(rounds),
                stripe_counts(stripes),
                stripe_powers(stripe_values(stripes, low), lambda),
            ).honest(start, p)
        }),
    ensures
        ({
            let low = point.take(prover.log_stacking_height as int);
            let values = stripe_values(rounds_stripes(rounds), low);
            jagged_refusal(
                verifier,
                s,
                rounds_roots(rounds),
                areas,
                point,
                values,
                p,
                stacked_value(values, point.skip(prover.log_stacking_height as int)),
            ) is None
        }),
{
    let lsh = prover.log_stacking_height as nat;
    let low = point.take(lsh as int);
    let stripes = rounds_stripes(rounds);
    let trees = rounds_trees(rounds);
    let roots = rounds_roots(rounds);
    lemma_pow2_pos(lsh);
    assert forall|i: int| 0 <= i < areas.len() implies {
        &&& (#[trigger] areas[i]) as nat % pow2(lsh) == 0
        &&& areas[i] as nat / pow2(lsh) == stripes[i].len()
    } by {
        let k = rounds[i].stacked_data.stripes@.len();
        vstd::arithmetic::div_mod::lemma_mod_multiples_basic(k as int, pow2(lsh) as int);
        vstd::arithmetic::div_mod::lemma_div_multiples_vanish(k as int, pow2(lsh) as int);
        assert(k * pow2(lsh) == pow2(lsh) * k) by (nonlinear_arith);
    }
    assert(area_stripes(areas, lsh) =~= stripe_counts(stripes));
    assert forall|i: int| 0 <= i < stripes.len() implies {
        &&& (#[trigger] roots[i]) == merkle_root(trees[i])
        &&& tree_encodes(trees[i], stripes[i], prover.first_fold(), lsh, prover.start_log())
    } by {
        assert(prover.holds(rounds[i].stacked_data));
    }
    assert forall|i: int, j: int|
        0 <= i < stripes.len() && 0 <= j < stripes[i].len() implies all_canon(
        lift(#[trigger] stripes[i][j]),
    ) by {
        cells_canon(rounds[i].stacked_data.stripes@[j]@);
    }
    stacked_proof_is_accepted(prover, verifier, s, stripes, trees, roots, low, p);
}

/// Base-field values are canonical as extension elements.
pub proof fn cells_canon(s: Seq<Felt>)
    ensures
        all_canon(lift(fvals(s))),
{
    broadcast use felt_canonical;

    assert forall|i: int| 0 <= i < s.len() implies (#[trigger] lift(fvals(s))[i]).canon() by {
        assert(crate::felt::canonical(s[i]@));
    }
}

/// The traces of a commitment lie one after the other: the cells of a trace start where the
/// padded traces before it end, and zeros follow them.
pub proof fn traces_lie_end_to_end(s: Seq<(String, Trace)>, k: int, i: int, j: int)
    requires
        narrow(s),
        0 <= i < k <= s.len(),
        0 <= j < padded_height(s[i].1),
    ensures
        padded_total(s, i) + j < padded_cells(s, k).len(),
        padded_cells(s, k).len() == padded_total(s, k),
        padded_cells(s, k)[padded_total(s, i) + j] == (if j < s[i].1.values@.len() {
            s[i].1.values@[j]@
        } else {
            0
        }),
        padded_total(s, 0) == 0,
        padded_total(s, i + 1) == padded_total(s, i) + padded_height(s[i].1),
    decreases k,
{
    trace_cells_fit(s, k);
    if i < k - 1 {
        traces_lie_end_to_end(s, k - 1, i, j);
        trace_cells_fit(s, k - 1);
    } else {
        trace_cells_fit(s, i);
        round_up_bounds(s[i].1.values@.len() / padded_width(s[i].1), 0x200000);
    }
}

proof fn trace_cells_fit(s: Seq<(String, Trace)>, k: int)
    requires
        narrow(s),
        0 <= k <= s.len(),
    ensures
        padded_cells(s, k).len() == padded_total(s, k),
    decreases k,
{
    if k > 0 {
        trace_cells_fit(s, k - 1);
        let t = s[k - 1].1;
        assert(padded_width(t) == 1);
        assert(t.values@.len() / 1 == t.values@.len());
        round_up_bounds(t.values@.len() / padded_width(t), 0x200000);
    }
}

/// The stripes of several matrices are their columns, those of the first matrix first: cell
/// `r` of column `c` stands in row `r` of the matrix.
pub proof fn stripes_are_columns(s: Seq<Trace>, k: int, i: int, c: int, r: int)
    requires
        0 <= i < k <= s.len(),
        0 <= c < s[i].width,
        0 <= r < s[i].values@.len() / s[i].width as nat,
    ensures
        all_columns(s, i).len() + c < all_columns(s, k).len(),
        all_columns(s, k)[all_columns(s, i).len() + c].len() == s[i].values@.len()
            / s[i].width as nat,
        all_columns(s, k)[all_columns(s, i).len() + c][r] == s[i].values@[r * s[i].width + c]@,
        all_columns(s, 0).len() == 0,
        all_columns(s, i + 1).len() == all_columns(s, i).len() + s[i].width,
    decreases k,
{
    if i < k - 1 {
        stripes_are_columns(s, k - 1, i, c, r);
    } else if s[i].width == 1 {
        assert(s[i].values@.len() / 1 == s[i].values@.len());
        assert(r * 1 + 0 == r);
    }
}

/// Blocks of one size cut a sequence: its element at `j` is in block `j / n`, at `j % n`.
pub proof fn blocks_cut_in_order<T>(f: Seq<T>, n: nat, j: int)
    requires
        n > 0,
        f.len() % n == 0,
        0 <= j < f.len(),
    ensures
        blocks(f, n).len() * n == f.len(),
        (j / n as int) < blocks(f, n).len(),
        blocks(f, n)[j / n as int].len() == n,
        blocks(f, n)[j / n as int][j % n as int] == f[j],
{
    let i = j / n as int;
    let m = f.len() / n;
    vstd::arithmetic::div_mod::lemma_fundamental_div_mod(f.len() as int, n as int);
    vstd::arithmetic::div_mod::lemma_fundamental_div_mod(j, n as int);
    vstd::arithmetic::div_mod::lemma_div_pos_is_pos(j, n as int);
    vstd::arithmetic::div_mod::lemma_mod_bound(j, n as int);
    vstd::arithmetic::mul::lemma_mul_is_commutative(n as int, m as int);
    vstd::arithmetic::mul::lemma_mul_is_commutative(n as int, i);
    assert(i < m) by (nonlinear_arith)
        requires
            i * n <= j,
            j < m * n,
            n > 0,
    ;
    assert((i + 1) * n <= m * n && (i + 1) * n == i * n + n && i * n >= 0) by (nonlinear_arith)
        requires
            i + 1 <= m,
            i >= 0,
            n > 0,
    ;
}

} // verus!
