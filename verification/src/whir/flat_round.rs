//! What the prover of consecutive positions opens and claims in a round.
use vstd::prelude::*;
use vstd::arithmetic::div_mod::{lemma_fundamental_div_mod, lemma_mod_bound};
use vstd::arithmetic::power2::{lemma_pow2_adds, lemma_pow2_pos, pow2};
use crate::ext::{add_assoc, add_zero, e_pow, lift, mul_comm, E4};
use crate::merkle::matrix_row;
use crate::mle::{eq_weight, esum, mle_eval};
use crate::whir::accepted::{batched_canon, batched_is_sum};
use crate::whir::encode::codeword;
use crate::whir::flat::Flat;
use crate::whir::honest::{PState, RoundData};
use crate::whir::replay::leaf_elements;
use crate::whir::sumcheck::{absorbed, batch_coeffs, batched_claim, eq_tables};

verus! {

/// A drawn position is in the leaf that is opened for it: element `p % 2^ff` of the leaf at
/// `p / 2^ff` is position `p` of the codeword of the whole polynomial.
pub proof fn drawn_position_is_in_its_leaf(fl: Flat, f: Seq<E4>, r: int, drawn: Seq<int>, q: int)
    requires
        fl.ff <= fl.log(r),
        0 <= q < drawn.len(),
        0 <= drawn[q] < pow2(fl.log(r)),
    ensures
        ({
            let p = drawn[q];
            let at = p % pow2(fl.ff) as int;
            let row = matrix_row(fl.tree(f, r)[0], fl.leaf_indices(drawn)[q]);
            &&& fl.leaf_indices(drawn).len() == drawn.len()
            &&& leaf_elements(row, r == 0).len() == pow2(fl.ff)
            &&& r == 0 ==> row[at] == codeword(lift(fl.values), 0, fl.log(0))[p].c0
            &&& r != 0 ==> leaf_elements(row, false)[at] == codeword(f, 0, fl.log(r))[p]
        }),
{
    let p = drawn[q];
    let w = pow2(fl.ff) as int;
    let i = p / w;
    let at = p % w;
    let log = fl.log(r);
    lemma_pow2_pos(fl.ff);
    lemma_pow2_pos(0);
    lemma_pow2_pos((log - fl.ff) as nat);
    vstd::arithmetic::power2::lemma2_to64();
    lemma_pow2_adds(fl.ff, (log - fl.ff) as nat);
    lemma_fundamental_div_mod(p, w);
    lemma_mod_bound(p, w);
    vstd::arithmetic::div_mod::lemma_div_pos_is_pos(p, w);
    let n = pow2((log - fl.ff) as nat) as int;
    assert(i < n) by (nonlinear_arith)
        requires
            w * i <= p,
            p < w * n,
            w > 0,
    ;
    assert((i + 1) * w <= n * w && i * w + w == (i + 1) * w && 0 <= i * w && w * i == i * w && n * w
        == w * n) by (nonlinear_arith)
        requires
            0 <= i,
            i + 1 <= n,
            w > 0,
    ;
    assert(pow2(log) * pow2(0) == pow2(log));
    let m = fl.tree(f, r)[0];
    let row = matrix_row(m, i);
    if r == 0 {
        assert(codeword(lift(fl.values), 0, log).len() == pow2(log));
        assert(row.len() == w);
        assert(row[at] == m.0[i * w + at]);
    } else {
        assert(codeword(f, 0, log).len() == pow2(log));
        assert(i * (4 * w) == 4 * (i * w) && (i + 1) * (4 * w) == 4 * (i * w + w))
            by (nonlinear_arith);
        assert(row.len() == 4 * w);
        assert forall|c: int| 0 <= c < 4 implies #[trigger] row[4 * at + c] == m.0[4 * p + c] by {}
        assert((4 * p) / 4 == p && (4 * p) % 4 == 0);
        assert((4 * p + 1) / 4 == p && (4 * p + 1) % 4 == 1);
        assert((4 * p + 2) / 4 == p && (4 * p + 2) % 4 == 2);
        assert((4 * p + 3) / 4 == p && (4 * p + 3) % 4 == 3);
        assert(row[4 * at + 0] == m.0[4 * p + 0]);
        assert(row[4 * at + 1] == m.0[4 * p + 1]);
        assert(row[4 * at + 2] == m.0[4 * p + 2]);
        assert(row[4 * at + 3] == m.0[4 * p + 3]);
    }
}

/// After its queries a round claims the sum so far, plus the out-of-domain answers, plus the
/// opened leaves folded at the round's own challenges, each weighted by the powers of the
/// challenge that is drawn last, from the first power on. The polynomial stays; the weight
/// gains one equality table for each answer.
pub proof fn queries_join_the_claim(fl: Flat, ps: PState, d: RoundData, r: int)
    requires
        ps.folder.claim.canon(),
        forall|x: int| 0 <= x < ps.folder.w.len() ==> (#[trigger] ps.folder.w[x]).canon(),
        ps.folder.w.len() == pow2(fl.pr.left(r + 1)),
    ensures
        ({
            let nq = fl.pr.rounds[r].num_queries as nat;
            let s = fl.pr.index_sponge(ps.sponge, d, r).after_draws(nq);
            let batch = s.drawn_ext();
            let a = d.answers.len();
            let mine = fl.pr.own_challenges(ps, r);
            let next = fl.queried(ps, d, r);
            &&& next.folder.f == ps.folder.f
            &&& next.folder.claim == (ps.folder.claim + esum(
                a,
                |j: int| e_pow(batch, (j + 1) as nat) * d.answers[j],
            )) + esum(
                nq,
                |q: int|
                    e_pow(batch, (q + 1) as nat) * mle_eval(
                        leaf_elements(d.leaves[q].rows[0], r == 0),
                        mine,
                    ),
            )
            &&& next.sponge == s.after_draw_ext()
            &&& next.challenges == ps.challenges
            &&& forall|x: int|
                0 <= x < ps.folder.w.len() ==> #[trigger] next.folder.w[x] == ps.folder.w[x] + esum(
                    a,
                    |j: int|
                        e_pow(batch, (j + 1) as nat) * eq_weight(
                            fl.pr.ood_points(ps.sponge, d, r)[j],
                            x,
                        ),
                )
        }),
{
    let nq = fl.pr.rounds[r].num_queries as nat;
    let s = fl.pr.index_sponge(ps.sponge, d, r).after_draws(nq);
    let batch = s.drawn_ext();
    let a = d.answers.len();
    let mine = fl.pr.own_challenges(ps, r);
    let c1 = batch_coeffs(batch, batch, a);
    let c2 = batch_coeffs(batch, batch, nq);
    let values = fl.stir_values(ps, d, r);
    let f1 = |j: int| e_pow(batch, (j + 1) as nat) * d.answers[j];
    let f2 = |q: int|
        e_pow(batch, (q + 1) as nat) * mle_eval(
            leaf_elements(d.leaves[q].rows[0], r == 0),
            mine,
        );
    assert forall|j: int| 0 <= j < a implies #[trigger] (c1[j] * d.answers[j]) == f1(j) by {
        mul_comm(batch, e_pow(batch, j as nat));
    }
    batched_is_sum(ps.folder.claim, d.answers, c1, a, f1);
    batched_canon(ps.folder.claim, d.answers, c1, a as int);
    let mid = batched_claim(ps.folder.claim, d.answers, c1, a as int);
    assert forall|q: int| 0 <= q < nq implies #[trigger] (c2[q] * values[q]) == f2(q) by {
        mul_comm(batch, e_pow(batch, q as nat));
    }
    batched_is_sum(mid, values, c2, nq, f2);
    let points = fl.pr.ood_points(ps.sponge, d, r);
    assert forall|x: int| 0 <= x < ps.folder.w.len() implies #[trigger] fl.queried(
        ps,
        d,
        r,
    ).folder.w[x] == ps.folder.w[x] + esum(
        a,
        |j: int| e_pow(batch, (j + 1) as nat) * eq_weight(points[j], x),
    ) by {
        weight_gains(ps.folder.w, points, batch, a, x, a);
    }
}

proof fn weight_gains(w: Seq<E4>, points: Seq<Seq<E4>>, batch: E4, a: nat, x: int, k: nat)
    requires
        k <= a,
        a == points.len(),
        0 <= x < w.len(),
        w[x].canon(),
        forall|j: int| 0 <= j < a ==> pow2((#[trigger] points[j]).len()) == w.len(),
    ensures
        absorbed(w, eq_tables(points), batch_coeffs(batch, batch, a), k as int).len() == w.len(),
        absorbed(w, eq_tables(points), batch_coeffs(batch, batch, a), k as int)[x] == w[x] + esum(
            k,
            |j: int| e_pow(batch, (j + 1) as nat) * eq_weight(points[j], x),
        ),
    decreases k,
{
    let c = batch_coeffs(batch, batch, a);
    let f = |j: int| e_pow(batch, (j + 1) as nat) * eq_weight(points[j], x);
    if k == 0 {
        add_zero(w[x]);
    } else {
        weight_gains(w, points, batch, a, x, (k - 1) as nat);
        assert(pow2(points[k - 1].len()) == w.len());
        mul_comm(batch, e_pow(batch, (k - 1) as nat));
        assert(c[k - 1] * eq_tables(points)[k - 1][x] == f(k - 1));
        add_assoc(w[x], esum((k - 1) as nat, f), f(k - 1));
    }
}

} // verus!
