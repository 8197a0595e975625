//! The verifier of the constraint argument.
//!
//! The argument ties three things together: the trace openings of the lookup argument,
//! which its claimed sum batches, the constraints of every chip, and the trace openings
//! at the reduced point, which its final value batches.
use vstd::prelude::*;
use crate::ext::{e_one, e_pow, e_zero, evals, Ext, E4};
use crate::felt::Felt;
use crate::mle::eq_prod;
use crate::multilinear::copy_exts;
use crate::shard::error::{answer_val, message2, text2, zerocheck_error, BasefoldVerifyError, ShardRefusal};
use crate::shard::gkr::reversed;
use crate::shard::openings::{observe_opened_values, observe_openings, zerocheck_pairs};
use crate::shard::points::{eq_eval_host, full_geq, full_geq_host};
use crate::shard::sumcheck::{verify_sumcheck_host, PartialSumcheckProof, SumcheckVal};
use crate::shard::types::{opt_evals, ChipEvaluation, ChipOpenedValues, LogUpEvaluations,
    ShardChip};
use crate::transcript::{Sponge, Transcript};

verus! {

/// The challenges of the constraint argument.
#[derive(Clone, Copy, Debug)]
pub struct ZerocheckChallenges {
    /// Batches the constraints of a chip.
    pub alpha: Ext,
    /// Batches the openings of a chip.
    pub gkr_batch_open: Ext,
    /// Batches the chips.
    pub lambda: Ext,
}

/// The batched constraints of one chip.
#[derive(Clone, Copy, Debug)]
pub struct ConstraintValues {
    /// At the opened columns.
    pub at_openings: Ext,
    /// On a row of zeros.
    pub at_padding: Ext,
}

/// Draws the challenges of the constraint argument.
pub fn sample_zerocheck_challenges(challenger: &mut Transcript) -> (r: ZerocheckChallenges)
    requires
        old(challenger).wf(),
    ensures
        final(challenger).wf(),
        r.alpha@ == old(challenger)@.drawn_ext(),
        r.gkr_batch_open@ == old(challenger)@.after_draw_ext().drawn_ext(),
        r.lambda@ == old(challenger)@.after_draw_ext().after_draw_ext().drawn_ext(),
        final(challenger)@
            == old(challenger)@.after_draw_ext().after_draw_ext().after_draw_ext(),
{
    let alpha = challenger.sample_algebra_element();
    let gkr_batch_open = challenger.sample_algebra_element();
    let lambda = challenger.sample_algebra_element();
    ZerocheckChallenges { alpha, gkr_batch_open, lambda }
}

/// The number of columns of the widest of the first `k` chips.
pub open spec fn max_columns(chips: Seq<ShardChip>, k: nat) -> nat
    decreases k,
{
    if k == 0 {
        0
    } else {
        let prev = max_columns(chips, (k - 1) as nat);
        let w = chips[k - 1].width + chips[k - 1].preprocessed_width;
        if w > prev {
            w as nat
        } else {
            prev
        }
    }
}

/// The first `k` values weighted by the powers of a challenge, the first power first.
pub open spec fn batch_sum(values: Seq<E4>, beta: E4, k: nat) -> E4
    decreases k,
{
    if k == 0 {
        e_zero()
    } else {
        batch_sum(values, beta, (k - 1) as nat) + values[k - 1] * e_pow(beta, k)
    }
}

/// The values weighted by the powers of a challenge, at most `limit` of them.
pub open spec fn batch_open(values: Seq<E4>, beta: E4, limit: nat) -> E4 {
    batch_sum(
        values,
        beta,
        if values.len() < limit {
            values.len()
        } else {
            limit
        },
    )
}

/// The equality polynomial over the coordinates that both points have.
pub open spec fn common_eq(a: Seq<E4>, b: Seq<E4>) -> E4 {
    let m = if a.len() < b.len() {
        a.len()
    } else {
        b.len()
    };
    eq_prod(a.take(m as int), b.take(m as int))
}

/// The mask of the padding rows: one where the height has another number of bits than
/// the point has coordinates.
pub open spec fn padding_mask(degree: Seq<E4>, point: Seq<E4>) -> E4 {
    if degree.len() == point.len() {
        full_geq(degree, point)
    } else {
        e_one()
    }
}

/// One chip's contribution to the final value: its constraints without those of the
/// padding rows, and its openings.
pub open spec fn chip_value(
    opening: ChipOpenedValues,
    at_openings: E4,
    at_padding: E4,
    point: Seq<E4>,
    beta: E4,
    limit: nat,
) -> E4 {
    (at_openings - at_padding * padding_mask(opening.degree(), point)) + batch_open(
        evals(opening.main@) + evals(opening.preprocessed@),
        beta,
        limit,
    )
}

/// The batched contributions of the first `k` chips.
pub open spec fn rlc(
    opened: Seq<ChipOpenedValues>,
    constraints: Seq<ConstraintValues>,
    eq: E4,
    point: Seq<E4>,
    beta: E4,
    lambda: E4,
    limit: nat,
    k: nat,
) -> E4
    decreases k,
{
    if k == 0 {
        e_zero()
    } else {
        rlc(opened, constraints, eq, point, beta, lambda, limit, (k - 1) as nat) * lambda + eq
            * chip_value(
            opened[k - 1],
            constraints[k - 1].at_openings@,
            constraints[k - 1].at_padding@,
            point,
            beta,
            limit,
        )
    }
}

/// The point of the lookup argument as the constraint argument is anchored on it.
pub open spec fn anchor(z_gkr: Seq<E4>, core_rev: bool) -> Seq<E4> {
    if core_rev {
        z_gkr.reverse()
    } else {
        z_gkr
    }
}

/// The number of chips that have openings.
pub open spec fn paired(chips: nat, opened: nat) -> nat {
    if chips < opened {
        chips
    } else {
        opened
    }
}

/// The final value that the openings at the reduced point give.
pub open spec fn rlc_value(
    chips: Seq<ShardChip>,
    opened: Seq<ChipOpenedValues>,
    constraints: Seq<ConstraintValues>,
    z_star: Seq<E4>,
    z_gkr: Seq<E4>,
    beta: E4,
    lambda: E4,
    core_rev: bool,
) -> E4 {
    rlc(
        opened,
        constraints,
        common_eq(anchor(z_gkr, core_rev), z_star),
        seq![e_zero()] + z_star,
        beta,
        lambda,
        max_columns(chips, chips.len()),
        paired(chips.len(), opened.len()),
    )
}

/// The batched openings of the first `k` chips at the point of the lookup argument.
pub open spec fn sum_modification(
    openings: Seq<(String, ChipEvaluation)>,
    beta: E4,
    lambda: E4,
    limit: nat,
    k: nat,
) -> E4
    decreases k,
{
    if k == 0 {
        e_zero()
    } else {
        let e = openings[k - 1].1;
        sum_modification(openings, beta, lambda, limit, (k - 1) as nat) * lambda + batch_open(
            opt_evals(e.main_trace_evaluations_full) + opt_evals(
                e.preprocessed_trace_evaluations_full,
            ),
            beta,
            limit,
        )
    }
}

/// Why a proof of the constraint argument is refused, if it is: the final value, the
/// dimensions, the claimed sum, then the sumcheck.
pub open spec fn zerocheck_refusal(
    chips: Seq<ShardChip>,
    sumcheck: SumcheckVal,
    gkr: LogUpEvaluations,
    opened: Seq<ChipOpenedValues>,
    constraints: Seq<ConstraintValues>,
    max_log_row_count: nat,
    core_rev: bool,
    beta: E4,
    lambda: E4,
    s: Sponge,
) -> Option<Seq<char>> {
    let dim = sumcheck.point.len();
    let z_gkr = evals(gkr.point@);
    if rlc_value(chips, opened, constraints, sumcheck.point, z_gkr, beta, lambda, core_rev)
        != sumcheck.eval {
        Some("zerocheck rlc_eval != point_and_eval.1 (item-12 constraint-RLC binding)"@)
    } else if dim != max_log_row_count {
        Some(
            text2("zerocheck point dim "@, dim, " != max_log_row_count "@, max_log_row_count, ""@),
        )
    } else if z_gkr.len() != dim {
        Some(
            text2("gkr_evaluations.point dim "@, z_gkr.len(), " != zerocheck point dim "@, dim, ""@),
        )
    } else if sumcheck.claimed != sum_modification(
        gkr.chip_openings@,
        beta,
        lambda,
        max_columns(chips, chips.len()),
        gkr.chip_openings@.len(),
    ) {
        Some("GKR sum-modification identity failed (claimed_sum != lambda-RLC(GKR openings))"@)
    } else {
        sumcheck.refusal(s, max_log_row_count, 4)
    }
}

/// Whether the numbers of columns of every chip add up to a machine number.
pub open spec fn widths_fit(chips: Seq<ShardChip>) -> bool {
    forall|i: int|
        #![trigger chips[i]]
        0 <= i < chips.len() ==> chips[i].width + chips[i].preprocessed_width <= usize::MAX
}

fn widest(chips: &Vec<ShardChip>) -> (r: usize)
    requires
        widths_fit(chips@),
    ensures
        r == max_columns(chips@, chips@.len()),
{
    let mut best: usize = 0;
    let mut i: usize = 0;
    while i < chips.len()
        invariant
            i <= chips@.len(),
            widths_fit(chips@),
            best == max_columns(chips@, i as nat),
        decreases chips@.len() - i,
    {
        proof {
            assert(chips@[i as int].width + chips@[i as int].preprocessed_width <= usize::MAX);
        }
        let w: usize = chips[i].width + chips[i].preprocessed_width;
        if w > best {
            best = w;
        }
        i = i + 1;
    }
    best
}

fn batch_values(first: &Vec<Ext>, second: &Vec<Ext>, beta: Ext, limit: usize) -> (r: Ext)
    ensures
        r@ == batch_open(evals(first@) + evals(second@), beta@, limit as nat),
{
    let ghost all = evals(first@) + evals(second@);
    let mut acc = Ext::zero();
    let mut power = Ext::one();
    let mut k: usize = 0;
    let n: usize = first.len();
    let m: usize = second.len();
    while k < limit && (k < n || k - n < m)
        invariant
            k <= limit,
            n == first@.len(),
            m == second@.len(),
            k <= n + m,
            all == evals(first@) + evals(second@),
            acc@ == batch_sum(all, beta@, k as nat),
            power@ == e_pow(beta@, k as nat),
        decreases limit - k,
    {
        let v = if k < n {
            first[k]
        } else {
            second[k - n]
        };
        proof {
            assert(v@ == all[k as int]);
        }
        power = power.times(beta);
        acc = acc.plus(v.times(power));
        k = k + 1;
    }
    acc
}

/// The final value that the openings at the reduced point give: per chip the constraints
/// without those of the padding rows, and the openings, batched and anchored on the point
/// of the lookup argument.
pub fn recompute_zerocheck_rlc_eval_host(
    chips: &Vec<ShardChip>,
    z_star: &Vec<Ext>,
    z_gkr: &Vec<Ext>,
    opened_values: &Vec<ChipOpenedValues>,
    constraints: &Vec<ConstraintValues>,
    gkr_batch_open: Ext,
    lambda: Ext,
    core_rev: bool,
) -> (r: Ext)
    requires
        widths_fit(chips@),
        constraints@.len() >= paired(chips@.len(), opened_values@.len()),
    ensures
        r@ == rlc_value(
            chips@,
            opened_values@,
            constraints@,
            evals(z_star@),
            evals(z_gkr@),
            gkr_batch_open@,
            lambda@,
            core_rev,
        ),
{
    let ghost zs = evals(z_star@);
    let ghost zg = evals(z_gkr@);
    let anchored = if core_rev {
        reversed(z_gkr.as_slice())
    } else {
        copy_exts(z_gkr.as_slice())
    };
    let a: usize = anchored.len();
    let b: usize = z_star.len();
    let m: usize = if a < b {
        a
    } else {
        b
    };
    proof {
        assert(evals(anchored@) =~= anchor(zg, core_rev));
        assert(evals(anchored@).len() == a);
    }
    let left = vstd::slice::slice_subrange(anchored.as_slice(), 0, m);
    let right = vstd::slice::slice_subrange(z_star.as_slice(), 0, m);
    let eq = eq_eval_host(left, right);
    proof {
        assert(evals(left@) =~= anchor(zg, core_rev).take(m as int));
        assert(evals(right@) =~= zs.take(m as int));
        assert(eq@ == common_eq(anchor(zg, core_rev), zs));
    }
    let limit: usize = widest(chips);
    let mut point: Vec<Ext> = Vec::new();
    point.push(Ext::zero());
    let mut rest = copy_exts(z_star.as_slice());
    point.append(&mut rest);
    let ghost p = seq![e_zero()] + zs;
    proof {
        assert(evals(point@) =~= p);
        assert(point@.len() == p.len());
    }
    let mut acc = Ext::zero();
    let mut k: usize = 0;
    while k < chips.len() && k < opened_values.len()
        invariant
            k <= paired(chips@.len(), opened_values@.len()),
            constraints@.len() >= paired(chips@.len(), opened_values@.len()),
            evals(point@) == p,
            point@.len() == p.len(),
            acc@ == rlc(
                opened_values@,
                constraints@,
                eq@,
                p,
                gkr_batch_open@,
                lambda@,
                limit as nat,
                k as nat,
            ),
        decreases chips@.len() - k,
    {
        let opening = &opened_values[k];
        let degree: Vec<Ext> = if opening.quotient.len() > 0 {
            copy_exts(opening.quotient[0].as_slice())
        } else {
            Vec::new()
        };
        proof {
            assert(evals(degree@) =~= opening.degree());
            assert(evals(degree@).len() == degree@.len());
        }
        let geq = if degree.len() == point.len() {
            full_geq_host(degree.as_slice(), point.as_slice())
        } else {
            Ext::one()
        };
        let c = constraints[k];
        let constraint_eval = c.at_openings.minus(c.at_padding.times(geq));
        let batch = batch_values(&opening.main, &opening.preprocessed, gkr_batch_open, limit);
        acc = acc.times(lambda).plus(eq.times(constraint_eval.plus(batch)));
        k = k + 1;
    }
    acc
}

fn opt_list(v: &Option<Vec<Ext>>) -> (r: Vec<Ext>)
    ensures
        evals(r@) == opt_evals(*v),
{
    match v {
        Some(x) => copy_exts(x.as_slice()),
        None => {
            let r: Vec<Ext> = Vec::new();
            proof {
                assert(evals(r@) =~= Seq::<E4>::empty());
            }
            r
        },
    }
}

fn batch_gkr_openings(
    openings: &Vec<(String, ChipEvaluation)>,
    beta: Ext,
    lambda: Ext,
    limit: usize,
) -> (r: Ext)
    ensures
        r@ == sum_modification(openings@, beta@, lambda@, limit as nat, openings@.len()),
{
    let mut acc = Ext::zero();
    let mut k: usize = 0;
    while k < openings.len()
        invariant
            k <= openings@.len(),
            acc@ == sum_modification(openings@, beta@, lambda@, limit as nat, k as nat),
        decreases openings@.len() - k,
    {
        let e = &openings[k].1;
        let main = opt_list(&e.main_trace_evaluations_full);
        let prep = opt_list(&e.preprocessed_trace_evaluations_full);
        acc = acc.times(lambda).plus(batch_values(&main, &prep, beta, limit));
        k = k + 1;
    }
    acc
}

/// Whether constraints can be asked for.
pub open spec fn folds_constraints<
    C: Fn(&ShardChip, &ChipOpenedValues, Ext, &Vec<Felt>) -> ConstraintValues,
>(fold: C) -> bool {
    forall|c: &ShardChip, o: &ChipOpenedValues, a: Ext, p: &Vec<Felt>| #[trigger]
        fold.requires((c, o, a, p))
}

/// Whether `x` are the batched constraints of a chip at its opened columns.
pub open spec fn constraint_given<
    C: Fn(&ShardChip, &ChipOpenedValues, Ext, &Vec<Felt>) -> ConstraintValues,
>(
    fold: C,
    chip: ShardChip,
    opening: ChipOpenedValues,
    alpha: E4,
    public_values: Vec<Felt>,
    x: ConstraintValues,
) -> bool {
    exists|a: Ext|
        a@ == alpha && #[trigger] fold.ensures((&chip, &opening, a, &public_values), x)
}

/// Whether `c` are the batched constraints of the chips that have openings.
pub open spec fn folded<
    C: Fn(&ShardChip, &ChipOpenedValues, Ext, &Vec<Felt>) -> ConstraintValues,
>(
    fold: C,
    chips: Seq<ShardChip>,
    opened: Seq<ChipOpenedValues>,
    alpha: E4,
    public_values: Vec<Felt>,
    c: Seq<ConstraintValues>,
) -> bool {
    &&& c.len() == paired(chips.len(), opened.len())
    &&& forall|i: int|
        0 <= i < c.len() ==> constraint_given(
            fold,
            chips[i],
            opened[i],
            alpha,
            public_values,
            #[trigger] c[i],
        )
}

fn fold_constraints<C: Fn(&ShardChip, &ChipOpenedValues, Ext, &Vec<Felt>) -> ConstraintValues>(
    fold: C,
    chips: &Vec<ShardChip>,
    opened: &Vec<ChipOpenedValues>,
    alpha: Ext,
    public_values: &Vec<Felt>,
) -> (r: Vec<ConstraintValues>)
    requires
        folds_constraints(fold),
    ensures
        folded(fold, chips@, opened@, alpha@, *public_values, r@),
{
    let mut r: Vec<ConstraintValues> = Vec::new();
    let mut i: usize = 0;
    while i < chips.len() && i < opened.len()
        invariant
            i <= paired(chips@.len(), opened@.len()),
            folds_constraints(fold),
            r@.len() == i,
            forall|j: int|
                0 <= j < i ==> constraint_given(
                    fold,
                    chips@[j],
                    opened@[j],
                    alpha@,
                    *public_values,
                    #[trigger] r@[j],
                ),
        decreases chips@.len() - i,
    {
        let x = fold(&chips[i], &opened[i], alpha, public_values);
        proof {
            assert(fold.ensures((&chips@[i as int], &opened@[i as int], alpha, public_values), x));
            assert(constraint_given(
                fold,
                chips@[i as int],
                opened@[i as int],
                alpha@,
                *public_values,
                x,
            ));
        }
        r.push(x);
        i = i + 1;
    }
    r
}

/// Whether the verification of the constraint argument may end so: the challenges are drawn,
/// the constraints of every chip are batched by the first of them, the argument is checked,
/// and the openings are absorbed.
pub open spec fn zerocheck_answer<
    C: Fn(&ShardChip, &ChipOpenedValues, Ext, &Vec<Felt>) -> ConstraintValues,
>(
    chips: Seq<ShardChip>,
    sumcheck: SumcheckVal,
    gkr: LogUpEvaluations,
    public_values: Vec<Felt>,
    max_log_row_count: nat,
    core_rev: bool,
    opened: Seq<ChipOpenedValues>,
    fold: C,
    s: Sponge,
    r: Result<(), ShardRefusal>,
    end: Sponge,
) -> bool {
    let s1 = s.after_draw_ext();
    let s2 = s1.after_draw_ext();
    let s3 = s2.after_draw_ext();
    exists|c: Seq<ConstraintValues>|
        {
            &&& #[trigger] folded(fold, chips, opened, s.drawn_ext(), public_values, c)
            &&& match zerocheck_refusal(
                chips,
                sumcheck,
                gkr,
                opened,
                c,
                max_log_row_count,
                core_rev,
                s1.drawn_ext(),
                s2.drawn_ext(),
                s3,
            ) {
                Some(e) => r == Result::<(), ShardRefusal>::Err(ShardRefusal::Zerocheck(e)),
                None => {
                    &&& r is Ok
                    &&& end == observe_openings(
                        sumcheck.after(s3),
                        chips.len(),
                        zerocheck_pairs(opened),
                    )
                },
            }
        }
}

/// Verifies a proof of the constraint argument, where `fold` batches the constraints of a
/// chip by a challenge, and absorbs the openings at the reduced point.
pub fn verify_zerocheck_host<
    C: Fn(&ShardChip, &ChipOpenedValues, Ext, &Vec<Felt>) -> ConstraintValues,
>(
    chips: &Vec<ShardChip>,
    zerocheck_proof: &PartialSumcheckProof,
    gkr_evaluations: &LogUpEvaluations,
    public_values: &Vec<Felt>,
    max_log_row_count: usize,
    core_rev: bool,
    challenger: &mut Transcript,
    opened_values: &Vec<ChipOpenedValues>,
    fold: C,
) -> (r: Result<(), BasefoldVerifyError>)
    requires
        old(challenger).wf(),
        gkr_evaluations.wf(),
        widths_fit(chips@),
        folds_constraints(fold),
    ensures
        final(challenger).wf(),
        zerocheck_answer(
            chips@,
            zerocheck_proof@,
            *gkr_evaluations,
            *public_values,
            max_log_row_count as nat,
            core_rev,
            opened_values@,
            fold,
            old(challenger)@,
            answer_val(r),
            final(challenger)@,
        ),
{
    let drawn = sample_zerocheck_challenges(challenger);
    let constraints = fold_constraints(fold, chips, opened_values, drawn.alpha, public_values);
    let ghost c = constraints@;
    proof {
        assert(folded(
            fold,
            chips@,
            opened_values@,
            old(challenger)@.drawn_ext(),
            *public_values,
            c,
        ));
    }
    verify_folded_zerocheck(
        chips,
        zerocheck_proof,
        gkr_evaluations,
        &constraints,
        max_log_row_count,
        core_rev,
        drawn,
        opened_values,
        challenger,
    )
}

/// Verifies a proof of the constraint argument under drawn challenges, given every chip's
/// batched constraints, and absorbs the openings at the reduced point.
pub fn verify_folded_zerocheck(
    chips: &Vec<ShardChip>,
    zerocheck_proof: &PartialSumcheckProof,
    gkr_evaluations: &LogUpEvaluations,
    constraints: &Vec<ConstraintValues>,
    max_log_row_count: usize,
    core_rev: bool,
    challenges: ZerocheckChallenges,
    opened_values: &Vec<ChipOpenedValues>,
    challenger: &mut Transcript,
) -> (r: Result<(), BasefoldVerifyError>)
    requires
        old(challenger).wf(),
        widths_fit(chips@),
        constraints@.len() >= paired(chips@.len(), opened_values@.len()),
    ensures
        final(challenger).wf(),
        ({
            let why = zerocheck_refusal(
                chips@,
                zerocheck_proof@,
                *gkr_evaluations,
                opened_values@,
                constraints@,
                max_log_row_count as nat,
                core_rev,
                challenges.gkr_batch_open@,
                challenges.lambda@,
                old(challenger)@,
            );
            match r {
                Ok(_) => {
                    &&& why is None
                    &&& final(challenger)@ == observe_openings(
                        zerocheck_proof@.after(old(challenger)@),
                        chips@.len(),
                        zerocheck_pairs(opened_values@),
                    )
                },
                Err(e) => why is Some && e@ == ShardRefusal::Zerocheck(why->0),
            }
        }),
{
    let z_star = &zerocheck_proof.point_and_eval.0;
    let beta = challenges.gkr_batch_open;
    let lambda = challenges.lambda;
    proof {
        assert(evals(z_star@).len() == z_star@.len());
        assert(evals(gkr_evaluations.point@).len() == gkr_evaluations.point@.len());
    }
    let rlc_eval = recompute_zerocheck_rlc_eval_host(
        chips,
        z_star,
        &gkr_evaluations.point,
        opened_values,
        constraints,
        beta,
        lambda,
        core_rev,
    );
    if !rlc_eval.same(&zerocheck_proof.point_and_eval.1) {
        return Err(
            zerocheck_error(
                "zerocheck rlc_eval != point_and_eval.1 (item-12 constraint-RLC binding)",
            ),
        );
    }
    let dim: usize = z_star.len();
    if dim != max_log_row_count {
        return Err(
            BasefoldVerifyError::Zerocheck(
                message2(
                    "zerocheck point dim ",
                    dim,
                    " != max_log_row_count ",
                    max_log_row_count,
                    "",
                ),
            ),
        );
    }
    if gkr_evaluations.point.len() != dim {
        return Err(
            BasefoldVerifyError::Zerocheck(
                message2(
                    "gkr_evaluations.point dim ",
                    gkr_evaluations.point.len(),
                    " != zerocheck point dim ",
                    dim,
                    "",
                ),
            ),
        );
    }
    let limit: usize = widest(chips);
    let sum_mod = batch_gkr_openings(&gkr_evaluations.chip_openings, beta, lambda, limit);
    if !zerocheck_proof.claimed_sum.same(&sum_mod) {
        return Err(
            zerocheck_error(
                "GKR sum-modification identity failed (claimed_sum != lambda-RLC(GKR openings))",
            ),
        );
    }
    match verify_sumcheck_host(zerocheck_proof, challenger, max_log_row_count, 4) {
        Err(e) => {
            let e = match e {
                BasefoldVerifyError::LogupGkr(msg) => BasefoldVerifyError::Zerocheck(msg),
                other => other,
            };
            return Err(e);
        },
        Ok(_) => {},
    }
    observe_opened_values(challenger, chips.len(), opened_values);
    Ok(())
}

} // verus!
