//! The steps of a jagged opening around the reduction: the column challenges, the bind of
//! the claims to the opened columns, and the opening of the committed stripes.
use vstd::prelude::*;
use vstd::arithmetic::power2::{lemma2_to64, lemma_pow2_pos, lemma_pow2_unfold, pow2};
use crate::arith::{ceil_log2, ceil_log2_of, pow2_le, pow2_usize};
use crate::ext::{add_canon, add_sub_assoc, add_zero, all_canon, e_one, e_zero, epoints, evals,
    fvals, mul_comm, mul_one, mul_sub, mul_zero, sub_self, Ext, E4};
use crate::jagged::layout::total;
use crate::jagged::packing::{monus, nats};
use crate::merkle::{path_val, Digest};
use crate::mle::{fold, fold_all, fold_canon, mle_eval};
use crate::multilinear::copy_exts;
use crate::ring::lerp;
use crate::transcript::{Sponge, Transcript};
use crate::whir::config::{folded_vars, WhirConfig};
use crate::whir::jagged::{area_stripes, fold_all_blocks, jagged_opening_is_accepted, jagged_refusal,
    open_jagged_whir_rounds_generic, resized, rounds_roots, rounds_stripes, rounds_trees,
    stacked_poly, stacked_value, stacked_value_is_long_value, verify_jagged_whir_rounds,
    JaggedCommit, JaggedWhirProverData};
use crate::whir::interleaved::total_folds;
use crate::whir::messages::{ProofVal, WhirProof};
use crate::whir::proving::prover_fits;
use crate::whir::rounds::{all_entries_are_found, has_all_entries, left_of, schedule_fits};
use crate::whir::schedule::{core_folded, core_schedule_fits, is_core_schedule};
use crate::whir::stacked::{stripe_counts, stripe_powers, stripe_values, StackedWhirProof, StackedWhirProver, StackedWhirVerifier};

verus! {

/// The number of coordinates that address a column: the layout has one offset more than
/// it has columns.
pub open spec fn column_vars(offsets: nat) -> nat {
    ceil_log2_of(monus(offsets, 1))
}

/// Draws the point that addresses a column.
pub fn sample_z_col(offsets: &Vec<usize>, challenger: &mut Transcript) -> (r: Vec<Ext>)
    requires
        old(challenger).wf(),
    ensures
        final(challenger).wf(),
        evals(r@) == old(challenger)@.drawn_exts(column_vars(offsets@.len())),
        final(challenger)@ == old(challenger)@.after_draw_exts(column_vars(offsets@.len())),
{
    let n: usize = offsets.len();
    let cols: usize = if n == 0 {
        0
    } else {
        n - 1
    };
    let vars: usize = ceil_log2(cols);
    challenger.sample_point(vars)
}

/// The sum of values weighted by a table.
pub open spec fn weighted(table: Seq<E4>, values: Seq<E4>, k: nat) -> E4
    decreases k,
{
    if k == 0 {
        e_zero()
    } else {
        weighted(table, values, (k - 1) as nat) + table[k - 1] * values[k - 1]
    }
}

/// The claims of the first `k` groups, one group after the other.
pub open spec fn claims_flat(claims: Seq<Seq<E4>>, k: int) -> Seq<E4>
    decreases k,
{
    if k <= 0 {
        Seq::empty()
    } else {
        claims_flat(claims, k - 1) + claims[k - 1]
    }
}

/// The opened columns of the first `k` groups, of each group as many as it has claims.
pub open spec fn opened_flat(claims: Seq<Seq<E4>>, opened: Seq<Seq<E4>>, k: int) -> Seq<E4>
    decreases k,
{
    if k <= 0 {
        Seq::empty()
    } else {
        opened_flat(claims, opened, k - 1) + opened[k - 1].take(claims[k - 1].len() as int)
    }
}

/// Whether the claims agree with the opened columns under the column weights: every group
/// opens at least the claimed columns, there is a weight for each, and the weighted sums
/// are equal.
pub open spec fn bound_to_openings(
    table: Seq<E4>,
    claims: Seq<Seq<E4>>,
    opened: Seq<Seq<E4>>,
) -> bool {
    let n = claims.len() as int;
    let all = claims_flat(claims, n);
    &&& opened.len() == claims.len()
    &&& forall|i: int| 0 <= i < n ==> (#[trigger] opened[i]).len() >= claims[i].len()
    &&& all.len() <= table.len()
    &&& weighted(table, all, all.len()) == weighted(
        table,
        opened_flat(claims, opened, n),
        all.len(),
    )
}

proof fn own_openings(claims: Seq<Seq<E4>>, k: int)
    requires
        0 <= k <= claims.len(),
    ensures
        opened_flat(claims, claims, k) == claims_flat(claims, k),
    decreases k,
{
    if k > 0 {
        own_openings(claims, k - 1);
        assert(claims[k - 1].take(claims[k - 1].len() as int) =~= claims[k - 1]);
    }
}

/// Openings that are the claims agree with them, whatever the weights, where there is a
/// weight for each.
pub proof fn own_openings_are_bound(table: Seq<E4>, claims: Seq<Seq<E4>>)
    requires
        claims_flat(claims, claims.len() as int).len() <= table.len(),
    ensures
        bound_to_openings(table, claims, claims),
{
    own_openings(claims, claims.len() as int);
}

proof fn weighted_prefix(table: Seq<E4>, a: Seq<E4>, b: Seq<E4>, k: nat)
    requires
        k <= a.len(),
        k <= b.len(),
        forall|i: int| 0 <= i < k ==> #[trigger] a[i] == b[i],
    ensures
        weighted(table, a, k) == weighted(table, b, k),
    decreases k,
{
    if k > 0 {
        weighted_prefix(table, a, b, (k - 1) as nat);
        assert(a[k - 1] == b[k - 1]);
    }
}

proof fn flat_grows(claims: Seq<Seq<E4>>, a: int, b: int)
    requires
        0 <= a <= b <= claims.len(),
    ensures
        claims_flat(claims, a).len() <= claims_flat(claims, b).len(),
    decreases b - a,
{
    if a < b {
        flat_grows(claims, a, b - 1);
    }
}

/// Compares the claims with the opened columns under the column weights.
pub fn cross_bind(
    z_col_lagrange: &Vec<Ext>,
    y_per_chip: &Vec<Vec<Ext>>,
    opened_main: &Vec<Vec<Ext>>,
) -> (r: bool)
    ensures
        r == bound_to_openings(
            evals(z_col_lagrange@),
            epoints(y_per_chip@),
            epoints(opened_main@),
        ),
{
    let ghost table = evals(z_col_lagrange@);
    let ghost claims = epoints(y_per_chip@);
    let ghost opened = epoints(opened_main@);
    let n: usize = y_per_chip.len();
    let weights: usize = z_col_lagrange.len();
    proof {
        assert(claims.len() == n);
        assert(opened.len() == opened_main@.len());
        assert(table.len() == weights);
    }
    if opened_main.len() != n {
        return false;
    }
    let mut sum_y = Ext::zero();
    let mut sum_open = Ext::zero();
    let mut k: usize = 0;
    let mut i: usize = 0;
    while i < n
        invariant
            i <= n,
            n == y_per_chip@.len(),
            n == opened_main@.len(),
            table == evals(z_col_lagrange@),
            claims == epoints(y_per_chip@),
            opened == epoints(opened_main@),
            claims.len() == n,
            opened.len() == n,
            weights == table.len(),
            weights == z_col_lagrange@.len(),
            k <= weights,
            k == claims_flat(claims, i as int).len(),
            k == opened_flat(claims, opened, i as int).len(),
            forall|j: int| 0 <= j < i ==> (#[trigger] opened[j]).len() >= claims[j].len(),
            sum_y@ == weighted(table, claims_flat(claims, i as int), k as nat),
            sum_open@ == weighted(table, opened_flat(claims, opened, i as int), k as nat),
        decreases n - i,
    {
        let yc = &y_per_chip[i];
        let mc = &opened_main[i];
        let w: usize = yc.len();
        let ghost fc = claims_flat(claims, i as int);
        let ghost fo = opened_flat(claims, opened, i as int);
        let ghost nc = claims_flat(claims, i + 1);
        let ghost no = opened_flat(claims, opened, i + 1);
        proof {
            assert(claims[i as int] == evals(yc@));
            assert(opened[i as int] == evals(mc@));
        }
        if mc.len() < w {
            proof {
                assert(opened[i as int].len() < claims[i as int].len());
            }
            return false;
        }
        let start: usize = k;
        proof {
            assert(nc.len() == start + w);
            assert(no.len() == start + w);
            weighted_prefix(table, fc, nc, start as nat);
            weighted_prefix(table, fo, no, start as nat);
        }
        let mut j: usize = 0;
        while j < w
            invariant
                j <= w,
                w == yc@.len(),
                w <= mc@.len(),
                i < n,
                claims.len() == n,
                nc == fc + evals(yc@),
                no == fo + evals(mc@).take(w as int),
                nc == claims_flat(claims, i + 1),
                fc.len() == start,
                fo.len() == start,
                k == start + j,
                k <= weights,
                weights == table.len(),
                weights == z_col_lagrange@.len(),
                table == evals(z_col_lagrange@),
                claims == epoints(y_per_chip@),
                opened == epoints(opened_main@),
                sum_y@ == weighted(table, nc, k as nat),
                sum_open@ == weighted(table, no, k as nat),
            decreases w - j,
        {
            if k >= weights {
                proof {
                    flat_grows(claims, i + 1, n as int);
                }
                return false;
            }
            let weight = z_col_lagrange[k];
            proof {
                assert(nc[k as int] == yc@[j as int]@);
                assert(no[k as int] == mc@[j as int]@);
            }
            sum_y = sum_y.plus(weight.times(yc[j]));
            sum_open = sum_open.plus(weight.times(mc[j]));
            k = k + 1;
            j = j + 1;
        }
        i = i + 1;
    }
    sum_open.same(&sum_y)
}

/// The number of stripes of several areas.
pub open spec fn stripes_of(areas: Seq<nat>, lsh: nat) -> nat
    decreases areas.len(),
{
    if areas.len() == 0 {
        0
    } else {
        stripes_of(areas.drop_last(), lsh) + areas.last() / pow2(lsh)
    }
}

/// The number of coordinates that address a cell of all stripes.
pub open spec fn open_dim(areas: Seq<nat>, lsh: nat) -> nat {
    lsh + ceil_log2_of(stripes_of(areas, lsh))
}

proof fn stripes_bound(areas: Seq<nat>, lsh: nat)
    ensures
        stripes_of(areas, lsh) <= total(areas),
    decreases areas.len(),
{
    if areas.len() > 0 {
        stripes_bound(areas.drop_last(), lsh);
        lemma_pow2_pos(lsh);
        vstd::arithmetic::div_mod::lemma_div_is_ordered_by_denominator(
            areas.last() as int,
            1,
            pow2(lsh) as int,
        );
    }
}

proof fn stripes_prefix(areas: Seq<nat>, lsh: nat, i: int)
    requires
        0 <= i < areas.len(),
    ensures
        stripes_of(areas.take(i + 1), lsh) == stripes_of(areas.take(i), lsh) + areas[i] / pow2(lsh),
        total(areas.take(i + 1)) == total(areas.take(i)) + areas[i],
{
    assert(areas.take(i + 1).drop_last() =~= areas.take(i));
}

proof fn total_prefix(areas: Seq<nat>, i: int)
    requires
        0 <= i <= areas.len(),
    ensures
        total(areas.take(i)) <= total(areas),
    decreases areas.len() - i,
{
    if i < areas.len() {
        total_prefix(areas, i + 1);
        assert(areas.take(i + 1).drop_last() =~= areas.take(i));
    } else {
        assert(areas.take(i) =~= areas);
    }
}

/// The number of coordinates that address a cell of all stripes.
pub fn opening_dim(areas: &Vec<usize>, log_stacking_height: u32) -> (r: usize)
    requires
        pow2(log_stacking_height as nat) <= usize::MAX,
        total(nats(areas@)) <= usize::MAX,
    ensures
        r == open_dim(nats(areas@), log_stacking_height as nat),
{
    let lsh: usize = log_stacking_height as usize;
    let height: usize = pow2_usize(lsh);
    let ghost all = nats(areas@);
    let mut stripes: usize = 0;
    let mut i: usize = 0;
    proof {
        lemma_pow2_pos(lsh as nat);
        assert(all.take(0) =~= Seq::<nat>::empty());
        lsh_bound(lsh as nat);
    }
    while i < areas.len()
        invariant
            i <= areas@.len(),
            all == nats(areas@),
            total(all) <= usize::MAX,
            height == pow2(lsh as nat),
            height > 0,
            stripes == stripes_of(all.take(i as int), lsh as nat),
        decreases areas@.len() - i,
    {
        proof {
            stripes_prefix(all, lsh as nat, i as int);
            stripes_bound(all.take(i + 1), lsh as nat);
            total_prefix(all, i + 1);
        }
        stripes = stripes + areas[i] / height;
        i = i + 1;
    }
    proof {
        assert(all.take(i as int) =~= all);
    }
    let batch: usize = ceil_log2(stripes);
    lsh + batch
}

proof fn lsh_bound(lsh: nat)
    requires
        pow2(lsh) <= usize::MAX,
    ensures
        lsh < 64,
{
    if lsh >= 64 {
        vstd::arithmetic::power2::lemma2_to64_rest();
        pow2_le(64, lsh);
    }
}

/// The number of cells that an opening of all commitments addresses: the stripes rounded
/// up to a power of two.
pub fn effective_area(areas: &Vec<usize>, log_stacking_height: u32) -> (r: usize)
    requires
        total(nats(areas@)) <= usize::MAX,
        pow2(open_dim(nats(areas@), log_stacking_height as nat)) <= usize::MAX,
    ensures
        r == pow2(open_dim(nats(areas@), log_stacking_height as nat)),
{
    proof {
        pow2_le(
            log_stacking_height as nat,
            open_dim(nats(areas@), log_stacking_height as nat),
        );
    }
    let dim: usize = opening_dim(areas, log_stacking_height);
    pow2_usize(dim)
}

/// The number of coordinates drawn to extend a point of `from` coordinates to `to`.
pub open spec fn missing(from: nat, to: nat) -> nat {
    monus(to, from)
}

/// Extends a point with drawn coordinates up to a dimension.
pub fn extend_point(point: &[Ext], dim: usize, challenger: &mut Transcript) -> (r: Vec<Ext>)
    requires
        old(challenger).wf(),
    ensures
        final(challenger).wf(),
        evals(r@) == evals(point@) + old(challenger)@.drawn_exts(
            missing(point@.len(), dim as nat),
        ),
        final(challenger)@ == old(challenger)@.after_draw_exts(
            missing(point@.len(), dim as nat),
        ),
{
    let n: usize = point.len();
    let count: usize = if dim < n {
        0
    } else {
        dim - n
    };
    let mut r = copy_exts(point);
    let mut more = challenger.sample_point(count);
    let ghost added = more@;
    r.append(&mut more);
    proof {
        assert(evals(r@) =~= evals(point@) + evals(added));
    }
    r
}

/// A claim times one minus each of the coordinates `from..to` of a point.
pub open spec fn damped(claim: E4, point: Seq<E4>, from: int, to: int) -> E4
    decreases to - from,
{
    if to <= from {
        claim
    } else {
        damped(claim, point, from, to - 1) * (e_one() - point[to - 1])
    }
}

/// The claim on the committed stripes: where the reduced point does not reach the height
/// of a stripe, the stripe is zero past it, and the claim shrinks accordingly.
pub open spec fn stripe_adjusted(claim: E4, point: Seq<E4>, reduced: nat, lsh: nat) -> E4 {
    damped(claim, point, reduced as int, lsh as int)
}

/// The claim on the committed stripes.
pub fn adjust_claim(claim: Ext, point: &Vec<Ext>, reduced: usize, lsh: usize) -> (r: Ext)
    requires
        lsh <= point@.len(),
    ensures
        r@ == stripe_adjusted(claim@, evals(point@), reduced as nat, lsh as nat),
{
    let one = Ext::one();
    let mut r = claim;
    let mut i: usize = reduced;
    while i < lsh
        invariant
            reduced <= i,
            i <= lsh || i == reduced,
            lsh <= point@.len(),
            one@ == e_one(),
            r@ == damped(claim@, evals(point@), reduced as int, i as int),
        decreases lsh - i,
    {
        r = r.times(one.minus(point[i]));
        i = i + 1;
    }
    r
}

proof fn core_verifier_fits(c: WhirConfig, lsh: u32, commitments: nat)
    requires
        3 <= lsh <= 25,
        is_core_schedule(c, lsh as nat),
        71 * commitments <= usize::MAX,
    ensures
        schedule_fits(
            lsh as nat,
            c.round_parameters@,
            c.starting_log_inv_rate as nat,
            c.final_queries as nat,
            c.final_pow_bits as nat,
            commitments,
        ),
        folded_vars(c.round_parameters@, c.round_parameters@.len() as int) <= lsh,
{
    let prover = StackedWhirProver { config: c, log_stacking_height: lsh };
    core_schedule_fits(prover, commitments);
    let m = c.round_parameters@.len();
    core_folded(c, lsh as nat, m as int);
    lemma2_to64();
    pow2_le(left_of(lsh as nat, c.round_parameters@, m as int), 25);
    reveal(prover_fits);
    reveal(schedule_fits);
}

/// The roots of several commitments, and the one more.
pub open spec fn roots_with(preceding: Seq<(Digest, usize)>, last: Digest) -> Seq<Seq<int>> {
    Seq::new(preceding.len(), |i: int| fvals(preceding[i].0@)).push(fvals(last@))
}

/// The areas of several commitments, and the one more.
pub open spec fn areas_with(preceding: Seq<(Digest, usize)>, last: usize) -> Seq<usize> {
    Seq::new(preceding.len(), |i: int| preceding[i].1).push(last)
}

/// The dimension that a point is extended to.
pub open spec fn group_dim(preceding: Seq<(Digest, usize)>, commit: JaggedCommit) -> nat {
    open_dim(nats(areas_with(preceding, commit.area)), commit.log_stacking_height as nat)
}

/// Whether an opening of the reduced point is refused. One whose proof lacks an entry is.
pub open spec fn open_refused(
    c: WhirConfig,
    s: Sponge,
    preceding: Seq<(Digest, usize)>,
    commit: JaggedCommit,
    z_star: Seq<E4>,
    q_at_z: E4,
    values: Seq<Seq<E4>>,
    p: ProofVal,
) -> bool {
    let lsh = commit.log_stacking_height as nat;
    let more = missing(z_star.len(), group_dim(preceding, commit));
    let point = z_star + s.drawn_exts(more);
    !has_all_entries(c.round_parameters@, p) || jagged_refusal(
        StackedWhirVerifier { config: c, log_stacking_height: commit.log_stacking_height },
        s.after_draw_exts(more),
        roots_with(preceding, commit.original_commitment),
        areas_with(preceding, commit.area),
        point,
        values,
        p,
        stripe_adjusted(q_at_z, point, z_star.len(), lsh),
    ) is Some
}

/// The transcript after an accepted opening of the reduced point.
pub open spec fn reduced_end(
    c: WhirConfig,
    s: Sponge,
    preceding: Seq<(Digest, usize)>,
    commit: JaggedCommit,
    z_star: Seq<E4>,
    values: Seq<Seq<E4>>,
    p: ProofVal,
) -> Sponge {
    let lsh = commit.log_stacking_height as nat;
    let more = missing(z_star.len(), group_dim(preceding, commit));
    let low = (z_star + s.drawn_exts(more)).take(lsh as int);
    let verifier = StackedWhirVerifier {
        config: c,
        log_stacking_height: commit.log_stacking_height,
    };
    let (st, lambda) = verifier.start(s.after_draw_exts(more), low, values);
    let inst = verifier.instance(
        roots_with(preceding, commit.original_commitment),
        area_stripes(areas_with(preceding, commit.area), lsh),
        stripe_powers(values, lambda),
        p,
    );
    inst.final_sponge(inst.end(st)).after_draws(inst.final_queries)
}

/// Whether a proof has an entry for everything that a schedule over `n` variables asks of it.
fn holds_all_entries(config: &WhirConfig, n: usize, whir: &WhirProof) -> (r: bool)
    requires
        config.round_parameters@.len() > 0,
        n <= 25,
        folded_vars(config.round_parameters@, config.round_parameters@.len() as int) <= n,
    ensures
        r == has_all_entries(config.round_parameters@, whir@),
{
    let m: usize = config.round_parameters.len();
    let folds: usize = total_folds(config, n);
    let pows: usize = whir.folding_pow.len();
    proof {
        assert(whir@.polys.len() == whir.round_sumcheck_polys@.len());
        assert(whir@.roots.len() == whir.round_commitments@.len());
        assert(whir@.ood_answers.len() == whir.round_ood_answers@.len());
        assert(whir@.openings.len() == whir.round_query_openings@.len());
        assert(whir@.pows.len() == pows);
    }
    whir.round_sumcheck_polys.len() >= m - 1 && whir.round_commitments.len() >= m - 1
        && whir.round_ood_answers.len() >= m - 1 && whir.round_query_openings.len() >= m - 1
        && whir.round_query_openings.len() > 0 && pows >= m - 1 && pows - (m - 1) >= folds
}

/// Verifies that the committed polynomial of all rounds has the claimed value at the
/// reduced point, extended by drawn coordinates to address every stripe. The schedule is
/// the production schedule of the commitment's stripe height.
pub fn verify_reduced_opening(
    preceding_rounds: &Vec<(Digest, usize)>,
    commit: &JaggedCommit,
    z_star: &[Ext],
    q_at_z: Ext,
    whir_proof: &StackedWhirProof,
    config: WhirConfig,
    challenger: &mut Transcript,
) -> (r: bool)
    requires
        old(challenger).wf(),
        is_core_schedule(config, commit.log_stacking_height as nat),
        3 <= commit.log_stacking_height <= 25,
        71 * (preceding_rounds@.len() + 1) <= usize::MAX,
        total(nats(areas_with(preceding_rounds@, commit.area))) <= usize::MAX,
        pow2(group_dim(preceding_rounds@, *commit)) <= usize::MAX,
        pow2(z_star@.len()) <= usize::MAX,
    ensures
        final(challenger).wf(),
        r == !open_refused(
            config,
            old(challenger)@,
            preceding_rounds@,
            *commit,
            evals(z_star@),
            q_at_z@,
            epoints(whir_proof.batch_evaluations@),
            whir_proof.whir_proof@,
        ),
        r ==> final(challenger)@ == reduced_end(
            config,
            old(challenger)@,
            preceding_rounds@,
            *commit,
            evals(z_star@),
            epoints(whir_proof.batch_evaluations@),
            whir_proof.whir_proof@,
        ),
{
    let lsh: usize = commit.log_stacking_height as usize;
    let reduced: usize = z_star.len();
    let ghost s0 = challenger@;
    let mut commitments: Vec<Digest> = Vec::new();
    let mut areas: Vec<usize> = Vec::new();
    let mut i: usize = 0;
    while i < preceding_rounds.len()
        invariant
            i <= preceding_rounds@.len(),
            commitments@.len() == i,
            areas@.len() == i,
            forall|j: int| 0 <= j < i ==> #[trigger] commitments@[j] == preceding_rounds@[j].0,
            forall|j: int| 0 <= j < i ==> #[trigger] areas@[j] == preceding_rounds@[j].1,
        decreases preceding_rounds@.len() - i,
    {
        commitments.push(preceding_rounds[i].0);
        areas.push(preceding_rounds[i].1);
        i = i + 1;
    }
    commitments.push(commit.original_commitment);
    areas.push(commit.area);
    proof {
        assert(areas@ =~= areas_with(preceding_rounds@, commit.area));
        assert(path_val(commitments@) =~= roots_with(
            preceding_rounds@,
            commit.original_commitment,
        ));
        pow2_le(lsh as nat, group_dim(preceding_rounds@, *commit));
    }
    let dim: usize = opening_dim(&areas, commit.log_stacking_height);
    let point = extend_point(z_star, dim, challenger);
    let ghost gp = evals(point@);
    proof {
        assert(gp.len() == point@.len());
        assert(point@.len() == if dim < reduced {
            reduced
        } else {
            dim
        });
    }
    let claim = adjust_claim(q_at_z, &point, reduced, lsh);
    proof {
        core_verifier_fits(config, commit.log_stacking_height, commitments@.len());
    }
    if !holds_all_entries(&config, lsh, &whir_proof.whir_proof) {
        return false;
    }
    let verifier = StackedWhirVerifier::new(config, commit.log_stacking_height);
    proof {
        let values = epoints(whir_proof.batch_evaluations@);
        let (st, lambda) = verifier.start(challenger@, gp.take(lsh as int), values);
        all_entries_are_found(
            verifier.instance(
                path_val(commitments@),
                area_stripes(areas@, lsh as nat),
                stripe_powers(values, lambda),
                whir_proof.whir_proof@,
            ),
            st,
        );
    }
    let res = verify_jagged_whir_rounds(
        &verifier,
        &commitments,
        &areas,
        point.as_slice(),
        whir_proof,
        claim,
        challenger,
    );
    res.is_ok()
}

/// The content of optional lists.
pub open spec fn lists_val(v: Option<Vec<Vec<Ext>>>) -> Option<Seq<Seq<E4>>> {
    match v {
        None => None,
        Some(x) => Some(epoints(x@)),
    }
}

/// The areas of several commitments.
pub open spec fn data_areas(rounds: Seq<&JaggedWhirProverData>) -> Seq<usize> {
    Seq::new(rounds.len(), |i: int| rounds[i].area)
}

/// The point at which commitments are opened: the reduced point and drawn coordinates.
pub open spec fn open_point(s: Sponge, rounds: Seq<&JaggedWhirProverData>, lsh: nat, z: Seq<E4>) -> Seq<
    E4,
> {
    z + s.drawn_exts(missing(z.len(), open_dim(nats(data_areas(rounds)), lsh)))
}

/// Opens the commitments of all rounds at the reduced point, extended by drawn coordinates.
/// `None` where some proof of work does not exist.
pub fn open_reduced_point(
    rounds: &Vec<&JaggedWhirProverData>,
    z_star: &[Ext],
    prover: &StackedWhirProver,
    challenger: &mut Transcript,
) -> (r: Option<StackedWhirProof>)
    requires
        old(challenger).wf(),
        rounds@.len() > 0,
        prover.log_stacking_height == rounds@[0].log_stacking_height,
        prover.fits(rounds@.len()),
        forall|i: int|
            0 <= i < rounds@.len() ==> prover.holds((#[trigger] rounds@[i]).stacked_data),
        total(nats(data_areas(rounds@))) <= usize::MAX,
    ensures
        final(challenger).wf(),
        ({
            let lsh = prover.log_stacking_height as nat;
            let z = evals(z_star@);
            let s = old(challenger)@;
            let more = missing(z.len(), open_dim(nats(data_areas(rounds@)), lsh));
            let point = open_point(s, rounds@, lsh, z).take(lsh as int);
            let stripes = rounds_stripes(rounds@);
            let values = stripe_values(stripes, point);
            let (lambda, start) = prover.start(s.after_draw_exts(more), stripes, point);
            let pr = prover.prover(
                rounds_trees(rounds@),
                rounds_roots(rounds@),
                stripe_counts(stripes),
                stripe_powers(values, lambda),
            );
            match r {
                Some(out) => {
                    let p = out.whir_proof@;
                    &&& epoints(out.batch_evaluations@) == values
                    &&& pr.honest(start, p)
                    &&& final(challenger)@ == pr.end(start, pr.all_data(p)).sponge.after_pow(
                        pr.final_pow_bits,
                        p.final_pow,
                    ).after_draws(pr.final_queries)
                },
                None => pr.stuck(start),
            }
        }),
{
    let mut areas: Vec<usize> = Vec::new();
    let mut i: usize = 0;
    while i < rounds.len()
        invariant
            i <= rounds@.len(),
            areas@.len() == i,
            forall|j: int| 0 <= j < i ==> #[trigger] areas@[j] == rounds@[j].area,
        decreases rounds@.len() - i,
    {
        areas.push(rounds[i].area);
        i = i + 1;
    }
    proof {
        assert(areas@ =~= data_areas(rounds@));
        pow2_le(
            prover.log_stacking_height as nat,
            prover.log_stacking_height as nat + prover.config.starting_log_inv_rate as nat,
        );
    }
    let dim: usize = opening_dim(&areas, prover.log_stacking_height);
    let point = extend_point(z_star, dim, challenger);
    proof {
        assert(evals(point@).len() == point@.len());
        assert(evals(z_star@).len() == z_star@.len());
    }
    open_jagged_whir_rounds_generic(rounds, point.as_slice(), challenger, prover)
}

/// What is opened is verified: for the prover's commitments, the verifier of the same
/// schedule accepts the opening of a reduced point, where both sides start from one
/// transcript and the value, shrunk where the point does not reach the height of a stripe,
/// is the one that the stripes' values give.
pub proof fn reduced_opening_is_accepted(
    prover: StackedWhirProver,
    s: Sponge,
    rounds: Seq<&JaggedWhirProverData>,
    preceding: Seq<(Digest, usize)>,
    commit: JaggedCommit,
    z_star: Seq<E4>,
    q_at_z: E4,
    p: ProofVal,
)
    requires
        rounds.len() > 0,
        prover.config.starting_ood_samples == 0,
        prover.fits(rounds.len()),
        forall|i: int|
            0 <= i < rounds.len() ==> prover.holds((#[trigger] rounds[i]).stacked_data),
        forall|i: int|
            0 <= i < rounds.len() ==> (#[trigger] rounds[i]).area as nat
                == rounds[i].stacked_data.stripes@.len() * pow2(
                prover.log_stacking_height as nat,
            ),
        commit.log_stacking_height == prover.log_stacking_height,
        roots_with(preceding, commit.original_commitment) == rounds_roots(rounds),
        areas_with(preceding, commit.area) == data_areas(rounds),
        ({
            let lsh = prover.log_stacking_height as nat;
            let more = missing(z_star.len(), open_dim(nats(data_areas(rounds)), lsh));
            let point = open_point(s, rounds, lsh, z_star);
            let low = point.take(lsh as int);
            let stripes = rounds_stripes(rounds);
            let values = stripe_values(stripes, low);
            let (lambda, start) = prover.start(s.after_draw_exts(more), stripes, low);
            &&& prover.prover(
                rounds_trees(rounds),
                rounds_roots(rounds),
                stripe_counts(stripes),
                stripe_powers(values, lambda),
            ).honest(start, p)
            &&& stripe_adjusted(q_at_z, point, z_star.len(), lsh) == stacked_value(
                values,
                point.skip(lsh as int),
            )
        }),
    ensures
        ({
            let lsh = prover.log_stacking_height as nat;
            let low = open_point(s, rounds, lsh, z_star).take(lsh as int);
            !open_refused(
                prover.config,
                s,
                preceding,
                commit,
                z_star,
                q_at_z,
                stripe_values(rounds_stripes(rounds), low),
                p,
            )
        }),
{
    let lsh = prover.log_stacking_height as nat;
    let more = missing(z_star.len(), open_dim(nats(data_areas(rounds)), lsh));
    let point = open_point(s, rounds, lsh, z_star);
    assert(point.len() >= lsh);
    assert forall|i: int| 0 <= i < rounds.len() implies (#[trigger] data_areas(rounds)[i]) as nat
        == rounds[i].stacked_data.stripes@.len() * pow2(lsh) by {
        assert(rounds[i].area as nat == rounds[i].stacked_data.stripes@.len() * pow2(lsh));
    }
    jagged_opening_is_accepted(
        prover,
        StackedWhirVerifier {
            config: prover.config,
            log_stacking_height: prover.log_stacking_height,
        },
        s.after_draw_exts(more),
        rounds,
        data_areas(rounds),
        point,
        p,
    );
}

/// Padding a polynomial with zeros damps its value: each further coordinate multiplies it
/// by one minus the coordinate.
pub proof fn padding_damps(f: Seq<E4>, n: nat, point: Seq<E4>)
    requires
        f.len() == pow2(n),
        n <= point.len(),
        all_canon(f),
    ensures
        mle_eval(resized(f, pow2(point.len())), point) == damped(
            mle_eval(f, point.take(n as int)),
            point,
            n as int,
            point.len() as int,
        ),
{
    let m = point.len();
    let low = point.take(n as int);
    let high = point.skip(n as int);
    let k = pow2(high.len());
    let g = resized(f, pow2(m));
    vstd::arithmetic::power2::lemma_pow2_adds(n, (m - n) as nat);
    lemma_pow2_pos((m - n) as nat);
    lemma_pow2_pos(n);
    let stripes = seq![f];
    assert(point =~= low + high);
    assert(stacked_poly(stripes, pow2(n), k) =~= g) by {
        assert forall|x: int| 0 <= x < pow2(m) implies stacked_poly(stripes, pow2(n), k)[x]
            == g[x] by {
            if x < pow2(n) {
                vstd::arithmetic::div_mod::lemma_basic_div(x, pow2(n) as int);
                vstd::arithmetic::div_mod::lemma_small_mod(x as nat, pow2(n));
            } else {
                vstd::arithmetic::div_mod::lemma_div_non_zero(x, pow2(n) as int);
            }
        }
    }
    stacked_value_is_long_value(stripes, low, high);
    let values = Seq::new(1, |i: int| mle_eval(stripes[i], low));
    let v = mle_eval(f, low);
    fold_all_canon(f, low);
    fold_all_blocks(f, 1, low, 0);
    assert(v.canon());
    assert(resized(values, k) =~= lone(v, k));
    lone_value(v, high);
    damp_shift(v, point, n as int, high.len() as int);
}

/// One value followed by zeros.
spec fn lone(v: E4, k: nat) -> Seq<E4> {
    Seq::new(
        k,
        |i: int|
            if i == 0 {
                v
            } else {
                e_zero()
            },
    )
}

proof fn lone_value(v: E4, p: Seq<E4>)
    requires
        v.canon(),
    ensures
        mle_eval(lone(v, pow2(p.len())), p) == damped(v, p, 0, p.len() as int),
    decreases p.len(),
{
    lemma2_to64();
    if p.len() > 0 {
        lemma_pow2_unfold(p.len());
        let k = pow2((p.len() - 1) as nat);
        let f = lone(v, pow2(p.len()));
        let r = p[0];
        sub_self(e_zero());
        mul_zero(r);
        add_zero(e_zero());
        assert(fold(f, r) =~= lone(lerp(v, e_zero(), r), k)) by {
            assert forall|i: int| 0 <= i < k implies fold(f, r)[i] == lone(
                lerp(v, e_zero(), r),
                k,
            )[i] by {
                assert(fold(f, r)[i] == lerp(f[2 * i], f[2 * i + 1], r));
            }
        }
        let w = lerp(v, e_zero(), r);
        add_canon(v, r * (e_zero() - v));
        lone_value(w, p.skip(1));
        damp_first(v, p, p.len() as int);
    }
}

proof fn damp_first(v: E4, p: Seq<E4>, to: int)
    requires
        1 <= to <= p.len(),
        v.canon(),
    ensures
        damped(lerp(v, e_zero(), p[0]), p.skip(1), 0, to - 1) == damped(v, p, 0, to),
    decreases to,
{
    if to == 1 {
        assert(damped(v, p, 0, 0) == v);
        lerp_to_zero(v, p[0]);
    } else {
        damp_first(v, p, to - 1);
        assert(p.skip(1)[to - 2] == p[to - 1]);
    }
}

proof fn damp_shift(v: E4, p: Seq<E4>, n: int, k: int)
    requires
        0 <= n,
        0 <= k,
        n + k <= p.len(),
    ensures
        damped(v, p.skip(n), 0, k) == damped(v, p, n, n + k),
    decreases k,
{
    if k > 0 {
        damp_shift(v, p, n, k - 1);
        assert(p.skip(n)[k - 1] == p[n + k - 1]);
    }
}

proof fn lerp_to_zero(v: E4, r: E4)
    requires
        v.canon(),
    ensures
        lerp(v, e_zero(), r) == v * (e_one() - r),
{
    mul_sub(v, e_one(), r);
    mul_comm(v, r);
    mul_sub(r, e_zero(), v);
    mul_zero(r);
    mul_one(v);
    add_sub_assoc(v, e_zero(), r * v);
    add_zero(v);
}

proof fn fold_all_canon(f: Seq<E4>, p: Seq<E4>)
    requires
        all_canon(f),
    ensures
        all_canon(fold_all(f, p)),
    decreases p.len(),
{
    if p.len() > 0 {
        fold_canon(f, p[0]);
        fold_all_canon(fold(f, p[0]), p.skip(1));
    }
}

} // verus!
