//! The folding sumcheck.
//!
//! A folder holds a polynomial, a weight and a claim. The claim is meant to be the
//! inner product of the two; every operation here keeps it so. Each round sends a
//! quadratic, grinds a proof of work, draws a challenge, and fixes variable 0 of
//! polynomial and weight at the challenge.
use vstd::prelude::*;
use vstd::arithmetic::power2::{lemma_pow2_unfold, pow2};
use crate::arith::{ceil_log2, ceil_log2_is_least, ceil_log2_of, log2_of_pow2, pow2_usize};
use crate::ext::{add_canon, all_canon, e_pow, epoints, evals, ext_canon, mul_assoc, mul_canon,
    mul_one, Ext, E4};
use crate::felt::order;
use crate::mle::{dot, eq_tab, eq_weight, eq_weight_canon, esum, fold, mono_tab, quadratic,
    round_c0, round_c1, round_c2, vadd, vscale};
use crate::transcript::{Sponge, Transcript};
use crate::whir::config::{pow_bits_at, pow_bits_get, pow_feasible};
use crate::whir::messages::{ProofOfWork, SumcheckPoly};
use crate::whir::monomial::mono_table_lsb;

verus! {

/// The equality table of a point over the hypercube of `n` variables: entry `x` is
/// the Lagrange weight of index `x`.
pub fn eq_table(n: usize, point: &[Ext]) -> (r: Vec<Ext>)
    requires
        pow2(n as nat) <= usize::MAX,
    ensures
        r@.len() == pow2(n as nat),
        forall|x: int| 0 <= x < r@.len() ==> (#[trigger] r@[x])@ == eq_weight(evals(point@), x),
        n == point@.len() ==> evals(r@) == eq_tab(evals(point@)),
{
    let ghost p = evals(point@);
    let size: usize = pow2_usize(n);
    let mut v: Vec<Ext> = Vec::new();
    let mut x: usize = 0;
    while x < size
        invariant
            x <= size,
            p == evals(point@),
            v@.len() == x,
            forall|y: int| 0 <= y < x ==> (#[trigger] v@[y])@ == eq_weight(p, y),
        decreases size - x,
    {
        let mut prod = Ext::one();
        let mut rest: usize = x;
        let mut j: usize = 0;
        proof {
            assert(p.skip(0) =~= p);
            eq_weight_canon(p, x as int);
            mul_one(eq_weight(p, x as int));
        }
        while j < point.len()
            invariant
                j <= point@.len(),
                p == evals(point@),
                prod@ * eq_weight(p.skip(j as int), rest as int) == eq_weight(p, x as int),
                prod@.canon(),
            decreases point@.len() - j,
        {
            let z = point[j];
            let factor = if rest % 2 == 1 {
                z
            } else {
                Ext::one().minus(z)
            };
            proof {
                let s = p.skip(j as int);
                assert(s[0] == z@);
                assert(s.skip(1) =~= p.skip(j + 1));
                mul_assoc(prod@, factor@, eq_weight(p.skip(j + 1), rest as int / 2));
                mul_canon(prod@, factor@);
            }
            prod = prod.times(factor);
            rest = rest / 2;
            j = j + 1;
        }
        proof {
            mul_one(prod@);
        }
        v.push(prod);
        x = x + 1;
    }
    proof {
        if n == point@.len() {
            assert(evals(v@) =~= eq_tab(p));
        }
    }
    v
}

/// A weight with the first `k` of several tables added, each scaled by its
/// coefficient.
pub open spec fn absorbed(w: Seq<E4>, tables: Seq<Seq<E4>>, coeffs: Seq<E4>, k: int) -> Seq<E4>
    decreases k,
{
    if k <= 0 {
        w
    } else {
        vadd(absorbed(w, tables, coeffs, k - 1), vscale(coeffs[k - 1], tables[k - 1]))
    }
}

/// The equality tables of several points.
pub open spec fn eq_tables(points: Seq<Seq<E4>>) -> Seq<Seq<E4>> {
    Seq::new(points.len(), |i: int| eq_tab(points[i]))
}

/// The monomial tables of several points.
pub open spec fn mono_tables(points: Seq<Seq<E4>>) -> Seq<Seq<E4>> {
    Seq::new(points.len(), |i: int| mono_tab(points[i]))
}

/// The batching coefficients `start, start * batch, start * batch^2, ..`.
pub open spec fn batch_coeffs(start: E4, batch: E4, n: nat) -> Seq<E4> {
    Seq::new(n, |i: int| start * e_pow(batch, i as nat))
}

/// A claim with the first `k` of several values added, each scaled by its coefficient.
pub open spec fn batched_claim(claim: E4, values: Seq<E4>, coeffs: Seq<E4>, k: int) -> E4
    decreases k,
{
    if k <= 0 {
        claim
    } else {
        batched_claim(claim, values, coeffs, k - 1) + coeffs[k - 1] * values[k - 1]
    }
}

/// Absorbing tables keeps the length of the weight.
pub proof fn absorbed_len(w: Seq<E4>, tables: Seq<Seq<E4>>, coeffs: Seq<E4>, k: int)
    ensures
        absorbed(w, tables, coeffs, k).len() == w.len(),
    decreases k,
{
    if k > 0 {
        absorbed_len(w, tables, coeffs, k - 1);
    }
}

/// Absorbing tables keeps the weight canonical.
pub proof fn absorbed_canon(w: Seq<E4>, tables: Seq<Seq<E4>>, coeffs: Seq<E4>, k: int)
    requires
        all_canon(w),
    ensures
        all_canon(absorbed(w, tables, coeffs, k)),
    decreases k,
{
    if k > 0 {
        absorbed_canon(w, tables, coeffs, k - 1);
        let a = absorbed(w, tables, coeffs, k - 1);
        let b = vscale(coeffs[k - 1], tables[k - 1]);
        assert forall|i: int| 0 <= i < a.len() implies (#[trigger] vadd(a, b)[i]).canon() by {
            add_canon(a[i], b[i]);
        }
    }
}

/// Adds a scaled table to a weight, entry by entry.
fn add_scaled(weight: &mut Vec<Ext>, coeff: Ext, table: &Vec<Ext>)
    requires
        old(weight)@.len() == table@.len(),
    ensures
        evals(final(weight)@) == vadd(evals(old(weight)@), vscale(coeff@, evals(table@))),
{
    let ghost before = weight@;
    let n: usize = weight.len();
    let mut i: usize = 0;
    while i < n
        invariant
            i <= n,
            weight@.len() == n,
            table@.len() == n,
            before.len() == n,
            forall|j: int| i <= j < n ==> #[trigger] weight@[j] == before[j],
            forall|j: int|
                0 <= j < i ==> (#[trigger] weight@[j])@ == before[j]@ + coeff@ * table@[j]@,
        decreases n - i,
    {
        let w = weight[i].plus(coeff.times(table[i]));
        weight.set(i, w);
        i = i + 1;
    }
    proof {
        assert(evals(weight@) =~= vadd(evals(before), vscale(coeff@, evals(table@))));
    }
}

/// The batched equality weight: the table of the query point, plus the tables of
/// the out-of-domain points scaled by `batch, batch^2, ..`.
pub fn batched_eq_weight(
    n: usize,
    query_point: &Vec<Ext>,
    ood_points: &Vec<Vec<Ext>>,
    batch: Ext,
) -> (r: Vec<Ext>)
    requires
        pow2(n as nat) <= usize::MAX,
        query_point@.len() == n,
        forall|i: int| 0 <= i < ood_points@.len() ==> (#[trigger] ood_points@[i])@.len() == n,
    ensures
        evals(r@) == absorbed(
            eq_tab(evals(query_point@)),
            eq_tables(epoints(ood_points@)),
            batch_coeffs(batch@, batch@, ood_points@.len()),
            ood_points@.len() as int,
        ),
{
    let mut weight = eq_table(n, query_point.as_slice());
    let coeffs = powers_from(batch, batch, ood_points.len());
    proof {
        assert(coeffs@.len() == evals(coeffs@).len());
    }
    absorb_eq(n, &mut weight, ood_points, &coeffs);
    weight
}

/// `start, start * batch, ..`: the first `n` batching coefficients.
pub fn powers_from(start: Ext, batch: Ext, n: usize) -> (r: Vec<Ext>)
    ensures
        evals(r@) == batch_coeffs(start@, batch@, n as nat),
{
    let mut r: Vec<Ext> = Vec::new();
    let mut coeff = start;
    let mut i: usize = 0;
    proof {
        ext_canon(start);
        mul_one(start@);
    }
    while i < n
        invariant
            i <= n,
            coeff@ == start@ * e_pow(batch@, i as nat),
            r@.len() == i,
            forall|j: int| 0 <= j < i ==> (#[trigger] r@[j])@ == start@ * e_pow(batch@, j as nat),
        decreases n - i,
    {
        r.push(coeff);
        proof {
            mul_assoc(start@, e_pow(batch@, i as nat), batch@);
        }
        coeff = coeff.times(batch);
        i = i + 1;
    }
    proof {
        assert(evals(r@) =~= batch_coeffs(start@, batch@, n as nat));
    }
    r
}

/// Adds values to a claim, each scaled by its coefficient.
pub fn add_batched(claim: Ext, values: &Vec<Ext>, coeffs: &Vec<Ext>) -> (r: Ext)
    requires
        values@.len() == coeffs@.len(),
    ensures
        r@ == batched_claim(claim@, evals(values@), evals(coeffs@), values@.len() as int),
{
    let mut acc = claim;
    let mut i: usize = 0;
    while i < values.len()
        invariant
            i <= values@.len(),
            values@.len() == coeffs@.len(),
            acc@ == batched_claim(claim@, evals(values@), evals(coeffs@), i as int),
        decreases values@.len() - i,
    {
        acc = acc.plus(coeffs[i].times(values[i]));
        i = i + 1;
    }
    acc
}

/// Adds the equality tables of several points to a weight.
fn absorb_eq(n: usize, weight: &mut Vec<Ext>, points: &Vec<Vec<Ext>>, coeffs: &Vec<Ext>)
    requires
        pow2(n as nat) <= usize::MAX,
        old(weight)@.len() == pow2(n as nat),
        forall|i: int| 0 <= i < points@.len() ==> (#[trigger] points@[i])@.len() == n,
    ensures
        evals(final(weight)@) == absorbed(
            evals(old(weight)@),
            eq_tables(epoints(points@)),
            evals(coeffs@),
            if points@.len() <= coeffs@.len() {
                points@.len() as int
            } else {
                coeffs@.len() as int
            },
        ),
{
    let ghost w0 = evals(weight@);
    let ghost tabs = eq_tables(epoints(points@));
    let ghost cs = evals(coeffs@);
    let mut k: usize = 0;
    while k < points.len() && k < coeffs.len()
        invariant
            k <= points@.len(),
            k <= coeffs@.len(),
            pow2(n as nat) <= usize::MAX,
            weight@.len() == pow2(n as nat),
            forall|i: int| 0 <= i < points@.len() ==> (#[trigger] points@[i])@.len() == n,
            tabs == eq_tables(epoints(points@)),
            cs == evals(coeffs@),
            evals(weight@) == absorbed(w0, tabs, cs, k as int),
        decreases points@.len() - k,
    {
        let e = eq_table(n, points[k].as_slice());
        proof {
            assert(evals(e@) == tabs[k as int]);
            assert(weight@.len() == evals(weight@).len());
        }
        add_scaled(weight, coeffs[k], &e);
        k = k + 1;
        proof {
            assert(weight@.len() == evals(weight@).len());
        }
    }
}

/// The mathematical content of a folder.
pub struct FolderVal {
    pub f: Seq<E4>,
    pub w: Seq<E4>,
    pub claim: E4,
}

/// A polynomial, a weight, and the running claim on their inner product.
#[derive(Debug)]
pub struct WhirFolder {
    /// The polynomial over the remaining variables.
    pub f_vec: Vec<Ext>,
    /// The batched weight over the remaining variables.
    pub weight: Vec<Ext>,
    /// The running claim.
    pub claimed_sum: Ext,
}

impl View for WhirFolder {
    type V = FolderVal;

    open spec fn view(&self) -> FolderVal {
        FolderVal { f: evals(self.f_vec@), w: evals(self.weight@), claim: self.claimed_sum@ }
    }
}

impl FolderVal {
    /// Whether the claim is the inner product of weight and polynomial.
    pub open spec fn honest(self) -> bool {
        self.claim == dot(self.w, self.f)
    }

    /// The message of the next round.
    pub open spec fn message(self) -> Seq<E4> {
        let c0 = round_c0(self.f, self.w);
        let c2 = round_c2(self.f, self.w);
        seq![c0, round_c1(c0, c2, self.claim), c2]
    }

    /// The folder after variable 0 is fixed at `r`.
    pub open spec fn folded(self, r: E4) -> FolderVal {
        let m = self.message();
        FolderVal {
            f: fold(self.f, r),
            w: fold(self.w, r),
            claim: quadratic(m[0], m[1], m[2], r),
        }
    }
}

/// The state of an honest run of folding rounds.
pub struct FoldRun {
    pub folder: FolderVal,
    pub sponge: Sponge,
    pub challenges: Seq<E4>,
}

/// The transcript after a message of three coefficients.
pub open spec fn after_message(s: Sponge, m: Seq<E4>) -> Sponge {
    s.observe_ext(m[0]).observe_ext(m[1]).observe_ext(m[2])
}

/// The state after `k` folding rounds from `start`, where round `i` carries the
/// proof of work `pows[i]`.
pub open spec fn fold_run(
    start: FoldRun,
    bits: Seq<usize>,
    pows: Seq<int>,
    k: nat,
) -> FoldRun
    decreases k,
{
    if k == 0 {
        start
    } else {
        let prev = fold_run(start, bits, pows, (k - 1) as nat);
        let s = after_message(prev.sponge, prev.folder.message()).after_pow(
            pow_bits_at(bits, k - 1),
            pows[k - 1],
        );
        let r = s.drawn_ext();
        FoldRun {
            folder: prev.folder.folded(r),
            sponge: s.after_draw_ext(),
            challenges: prev.challenges.push(r),
        }
    }
}

/// The transcript at which the proof of work of round `i` is sought.
pub open spec fn pow_sponge(start: FoldRun, bits: Seq<usize>, pows: Seq<int>, i: nat) -> Sponge {
    let at = fold_run(start, bits, pows, i);
    after_message(at.sponge, at.folder.message())
}

/// Whether `w` is the least witness of a proof of work.
pub open spec fn is_grind(s: Sponge, bits: nat, w: int) -> bool {
    &&& 0 <= w < order()
    &&& s.pow_ok(bits, w)
    &&& forall|u: int| 0 <= u < w ==> !#[trigger] s.pow_ok(bits, u)
}

/// Whether no field element is a witness.
pub open spec fn no_grind(s: Sponge, bits: nat) -> bool {
    forall|u: int| 0 <= u < order() ==> !#[trigger] s.pow_ok(bits, u)
}

/// Whether the first `k` proofs of work of a run are the ones a search finds.
pub open spec fn fold_pows_found(
    start: FoldRun,
    bits: Seq<usize>,
    pows: Seq<int>,
    k: nat,
) -> bool {
    forall|i: int|
        0 <= i < k ==> is_grind(
            pow_sponge(start, bits, pows, i as nat),
            pow_bits_at(bits, i),
            #[trigger] pows[i],
        )
}

/// A run depends on the proofs of work of its own rounds only.
pub proof fn fold_run_ext(start: FoldRun, bits: Seq<usize>, p: Seq<int>, q: Seq<int>, k: nat)
    requires
        forall|i: int| 0 <= i < k ==> #[trigger] p[i] == q[i],
    ensures
        fold_run(start, bits, p, k) == fold_run(start, bits, q, k),
    decreases k,
{
    if k > 0 {
        fold_run_ext(start, bits, p, q, (k - 1) as nat);
        assert(p[k - 1] == q[k - 1]);
    }
}

/// The number of challenges of a run.
pub proof fn fold_run_challenges(start: FoldRun, bits: Seq<usize>, pows: Seq<int>, k: nat)
    ensures
        fold_run(start, bits, pows, k).challenges.len() == start.challenges.len() + k,
        forall|i: int|
            0 <= i < start.challenges.len() ==> fold_run(start, bits, pows, k).challenges[i]
                == #[trigger] start.challenges[i],
    decreases k,
{
    if k > 0 {
        fold_run_challenges(start, bits, pows, (k - 1) as nat);
    }
}

impl WhirFolder {
    /// The number of remaining variables.
    pub open spec fn vars(&self) -> nat {
        ceil_log2_of(self.f_vec@.len())
    }

    /// Polynomial and weight run over the same hypercube.
    pub open spec fn wf(&self) -> bool {
        &&& self.f_vec@.len() == pow2(self.vars())
        &&& self.weight@.len() == pow2(self.vars())
    }

    /// Folds out-of-domain constraints into weight and claim, with the batching
    /// coefficients `batch, batch^2, ..`.
    pub fn add_ood_constraints(
        &mut self,
        ood_points: &Vec<Vec<Ext>>,
        ood_answers: &Vec<Ext>,
        batch: Ext,
    )
        requires
            old(self).wf(),
            ood_points@.len() == ood_answers@.len(),
            forall|i: int|
                0 <= i < ood_points@.len() ==> (#[trigger] ood_points@[i])@.len() == old(self).vars(),
        ensures
            final(self)@.f == old(self)@.f,
            final(self)@.claim == batched_claim(
                old(self)@.claim,
                evals(ood_answers@),
                batch_coeffs(batch@, batch@, ood_answers@.len()),
                ood_answers@.len() as int,
            ),
            final(self)@.w == absorbed(
                old(self)@.w,
                eq_tables(epoints(ood_points@)),
                batch_coeffs(batch@, batch@, ood_answers@.len()),
                ood_points@.len() as int,
            ),
            final(self).wf(),
            final(self).vars() == old(self).vars(),
    {
        let coeffs = self.ood_coeffs(ood_answers, batch);
        proof {
            assert(coeffs@.len() == evals(coeffs@).len());
        }
        self.absorb_eq_tables(ood_points, &coeffs);
    }

    /// Adds the answers to the claim, and returns the batching coefficients
    /// `batch, batch^2, ..`.
    pub fn ood_coeffs(&mut self, ood_answers: &Vec<Ext>, batch: Ext) -> (r: Vec<Ext>)
        ensures
            evals(r@) == batch_coeffs(batch@, batch@, ood_answers@.len()),
            final(self)@.f == old(self)@.f,
            final(self)@.w == old(self)@.w,
            final(self).f_vec == old(self).f_vec,
            final(self).weight == old(self).weight,
            final(self)@.claim == batched_claim(
                old(self)@.claim,
                evals(ood_answers@),
                batch_coeffs(batch@, batch@, ood_answers@.len()),
                ood_answers@.len() as int,
            ),
    {
        let (coeffs, _next) = self.monomial_coeffs(ood_answers, batch, batch);
        coeffs
    }

    /// Adds the equality tables of the points to the weight, each scaled by its
    /// coefficient.
    pub fn absorb_eq_tables(
        &mut self,
        points: &Vec<Vec<Ext>>,
        coeffs: &Vec<Ext>,
    )
        requires
            old(self).wf(),
            forall|i: int|
                0 <= i < points@.len() ==> (#[trigger] points@[i])@.len() == old(self).vars(),
        ensures
            final(self)@.f == old(self)@.f,
            final(self)@.claim == old(self)@.claim,
            final(self)@.w == absorbed(
                old(self)@.w,
                eq_tables(epoints(points@)),
                evals(coeffs@),
                if points@.len() <= coeffs@.len() {
                    points@.len() as int
                } else {
                    coeffs@.len() as int
                },
            ),
            final(self).wf(),
            final(self).vars() == old(self).vars(),
    {
        let len: usize = self.f_vec.len();
        let log: usize = ceil_log2(len);
        absorb_eq(log, &mut self.weight, points, coeffs);
        proof {
            absorbed_len(
                old(self)@.w,
                eq_tables(epoints(points@)),
                evals(coeffs@),
                if points@.len() <= coeffs@.len() {
                    points@.len() as int
                } else {
                    coeffs@.len() as int
                },
            );
            assert(self.weight@.len() == evals(self.weight@).len());
        }
    }

    /// Folds monomial constraints into weight and claim, with the batching
    /// coefficients `start, start * batch, ..`, and returns the next coefficient.
    pub fn add_monomial_constraints(
        &mut self,
        points_lsb: &Vec<Vec<Ext>>,
        values: &Vec<Ext>,
        batch: Ext,
        start_coeff: Ext,
    ) -> (r: Ext)
        requires
            old(self).wf(),
            points_lsb@.len() == values@.len(),
            forall|i: int|
                0 <= i < points_lsb@.len() ==> (#[trigger] points_lsb@[i])@.len() == old(self).vars(),
        ensures
            r@ == start_coeff@ * e_pow(batch@, values@.len()),
            final(self)@.f == old(self)@.f,
            final(self)@.claim == batched_claim(
                old(self)@.claim,
                evals(values@),
                batch_coeffs(start_coeff@, batch@, values@.len()),
                values@.len() as int,
            ),
            final(self)@.w == absorbed(
                old(self)@.w,
                mono_tables(epoints(points_lsb@)),
                batch_coeffs(start_coeff@, batch@, values@.len()),
                values@.len() as int,
            ),
            final(self).wf(),
            final(self).vars() == old(self).vars(),
    {
        let (coeffs, next) = self.monomial_coeffs(values, batch, start_coeff);
        proof {
            assert(coeffs@.len() == evals(coeffs@).len());
        }
        self.absorb_monomial_tables(points_lsb, &coeffs);
        next
    }

    /// Adds the values to the claim, and returns the batching coefficients
    /// `start, start * batch, ..` with the next one.
    pub fn monomial_coeffs(&mut self, values: &Vec<Ext>, batch: Ext, start_coeff: Ext) -> (r: (
        Vec<Ext>,
        Ext,
    ))
        ensures
            evals(r.0@) == batch_coeffs(start_coeff@, batch@, values@.len()),
            r.1@ == start_coeff@ * e_pow(batch@, values@.len()),
            final(self)@.f == old(self)@.f,
            final(self)@.w == old(self)@.w,
            final(self).f_vec == old(self).f_vec,
            final(self).weight == old(self).weight,
            final(self)@.claim == batched_claim(
                old(self)@.claim,
                evals(values@),
                batch_coeffs(start_coeff@, batch@, values@.len()),
                values@.len() as int,
            ),
    {
        let ghost claim0 = self.claimed_sum@;
        let ghost vals = evals(values@);
        let ghost cs = batch_coeffs(start_coeff@, batch@, values@.len());
        let mut coeffs: Vec<Ext> = Vec::new();
        let mut coeff = start_coeff;
        let mut i: usize = 0;
        proof {
            ext_canon(start_coeff);
            mul_one(start_coeff@);
        }
        while i < values.len()
            invariant
                i <= values@.len(),
                vals == evals(values@),
                cs == batch_coeffs(start_coeff@, batch@, values@.len()),
                coeff@ == start_coeff@ * e_pow(batch@, i as nat),
                coeffs@.len() == i,
                forall|j: int| 0 <= j < i ==> (#[trigger] coeffs@[j])@ == cs[j],
                self.f_vec == old(self).f_vec,
                self.weight == old(self).weight,
                self.claimed_sum@ == batched_claim(claim0, vals, cs, i as int),
            decreases values@.len() - i,
        {
            let val = values[i];
            coeffs.push(coeff);
            self.claimed_sum = self.claimed_sum.plus(coeff.times(val));
            proof {
                mul_assoc(start_coeff@, e_pow(batch@, i as nat), batch@);
            }
            coeff = coeff.times(batch);
            i = i + 1;
        }
        proof {
            assert(evals(coeffs@) =~= cs);
        }
        (coeffs, coeff)
    }

    /// Adds the monomial tables of the points to the weight, each scaled by its
    /// coefficient.
    pub fn absorb_monomial_tables(
        &mut self,
        points_lsb: &Vec<Vec<Ext>>,
        coeffs: &Vec<Ext>,
    )
        requires
            old(self).wf(),
            forall|i: int|
                0 <= i < points_lsb@.len() ==> (#[trigger] points_lsb@[i])@.len() == old(self).vars(),
        ensures
            final(self)@.f == old(self)@.f,
            final(self)@.claim == old(self)@.claim,
            final(self)@.w == absorbed(
                old(self)@.w,
                mono_tables(epoints(points_lsb@)),
                evals(coeffs@),
                if points_lsb@.len() <= coeffs@.len() {
                    points_lsb@.len() as int
                } else {
                    coeffs@.len() as int
                },
            ),
            final(self).wf(),
            final(self).vars() == old(self).vars(),
    {
        let ghost n = self.vars();
        let ghost w0 = evals(self.weight@);
        let ghost tabs = mono_tables(epoints(points_lsb@));
        let ghost cs = evals(coeffs@);
        let len: usize = self.f_vec.len();
        let mut k: usize = 0;
        while k < points_lsb.len() && k < coeffs.len()
            invariant
                k <= points_lsb@.len(),
                k <= coeffs@.len(),
                len == pow2(n),
                n == old(self).vars(),
                self.weight@.len() == pow2(n),
                self.f_vec == old(self).f_vec,
                self.claimed_sum == old(self).claimed_sum,
                forall|i: int|
                    0 <= i < points_lsb@.len() ==> (#[trigger] points_lsb@[i])@.len() == n,
                tabs == mono_tables(epoints(points_lsb@)),
                cs == evals(coeffs@),
                evals(self.weight@) == absorbed(w0, tabs, cs, k as int),
            decreases points_lsb@.len() - k,
        {
            let t = mono_table_lsb(points_lsb[k].as_slice());
            proof {
                assert(evals(t@) == tabs[k as int]);
                assert(t@.len() == evals(t@).len());
            }
            add_scaled(&mut self.weight, coeffs[k], &t);
            k = k + 1;
            proof {
                assert(self.weight@.len() == evals(self.weight@).len());
            }
        }
    }

    /// The constant and quadratic coefficients of the next round.
    pub(crate) fn round_coefficients(&self) -> (r: (Ext, Ext))
        requires
            self.f_vec@.len() == self.weight@.len(),
        ensures
            r.0@ == round_c0(self@.f, self@.w),
            r.1@ == round_c2(self@.f, self@.w),
    {
        let ghost f = self@.f;
        let ghost w = self@.w;
        let half: usize = self.f_vec.len() / 2;
        let mut c0 = Ext::zero();
        let mut c2 = Ext::zero();
        let mut i: usize = 0;
        while i < half
            invariant
                i <= half,
                2 * half <= usize::MAX,
                half == self.f_vec@.len() / 2,
                self.f_vec@.len() == self.weight@.len(),
                f == evals(self.f_vec@),
                w == evals(self.weight@),
                c0@ == esum(i as nat, |j: int| w[2 * j] * f[2 * j]),
                c2@ == esum(
                    i as nat,
                    |j: int| (f[2 * j + 1] - f[2 * j]) * (w[2 * j + 1] - w[2 * j]),
                ),
            decreases half - i,
        {
            let (flo, fhi) = (self.f_vec[2 * i], self.f_vec[2 * i + 1]);
            let (wlo, whi) = (self.weight[2 * i], self.weight[2 * i + 1]);
            c0 = c0.plus(wlo.times(flo));
            c2 = c2.plus(fhi.minus(flo).times(whi.minus(wlo)));
            i = i + 1;
        }
        (c0, c2)
    }

    /// Folds one variable: the message, the proof of work and the challenge, or
    /// `None` where no proof of work exists.
    fn fold_one(&mut self, bits: usize, challenger: &mut Transcript) -> (r: Option<
        (SumcheckPoly, ProofOfWork, Ext),
    >)
        requires
            old(self).wf(),
            old(self).vars() > 0,
            old(challenger).wf(),
            bits <= 30,
        ensures
            final(challenger).wf(),
            ({
                let seek = after_message(old(challenger)@, old(self)@.message());
                match r {
                    Some((g, pow, c)) => {
                        let s = seek.after_pow(bits as nat, pow.0@);
                        &&& evals(g.0@) == old(self)@.message()
                        &&& is_grind(seek, bits as nat, pow.0@)
                        &&& c@ == s.drawn_ext()
                        &&& final(challenger)@ == s.after_draw_ext()
                        &&& final(self)@ == old(self)@.folded(c@)
                        &&& final(self).wf()
                        &&& final(self).vars() == old(self).vars() - 1
                    },
                    None => no_grind(seek, bits as nat),
                }
            }),
    {
        let ghost n = self.vars();
        let ghost at = self@;
        let (c0, c2) = self.round_coefficients();
        let c1 = self.claimed_sum.minus(c0.double()).minus(c2);
        let mut g: Vec<Ext> = Vec::new();
        g.push(c0);
        g.push(c1);
        g.push(c2);
        proof {
            assert(evals(g@) =~= at.message());
        }
        challenger.observe_algebra_element(c0);
        challenger.observe_algebra_element(c1);
        challenger.observe_algebra_element(c2);
        let found = challenger.grind(bits);
        let pow = match found {
            None => {
                return None;
            },
            Some(w) => w,
        };
        let r = challenger.sample_algebra_element();
        self.claimed_sum = c0.plus(c1.times(r)).plus(c2.times(r).times(r));
        proof {
            lemma_pow2_unfold(n);
            crate::felt::felt_canonical(pow);
        }
        fold_in_place(&mut self.f_vec, r);
        fold_in_place(&mut self.weight, r);
        proof {
            ceil_log2_is_least(pow2((n - 1) as nat));
            log2_of_pow2(pow2((n - 1) as nat), ceil_log2_of(pow2((n - 1) as nat)), (n - 1) as nat);
        }
        Some((SumcheckPoly(g), ProofOfWork(pow), r))
    }

    /// Folds `k` variables. Each round appends its message with a proof of work,
    /// and its challenge to `randomness_out`. `None` where some proof of work does
    /// not exist.
    pub fn fold_variables(
        &mut self,
        k: usize,
        pow_bits: &Vec<usize>,
        challenger: &mut Transcript,
        randomness_out: &mut Vec<Ext>,
    ) -> (r: Option<Vec<(SumcheckPoly, ProofOfWork)>>)
        requires
            old(self).wf(),
            k <= old(self).vars(),
            old(challenger).wf(),
            pow_feasible(pow_bits@),
        ensures
            final(challenger).wf(),
            ({
                let start = FoldRun {
                    folder: old(self)@,
                    sponge: old(challenger)@,
                    challenges: evals(old(randomness_out)@),
                };
                match r {
                    Some(out) => {
                        let pows = out_pows(out@);
                        let end = fold_run(start, pow_bits@, pows, k as nat);
                        &&& out@.len() == k
                        &&& fold_pows_found(start, pow_bits@, pows, k as nat)
                        &&& fold_messages(start, pow_bits@, pows, out@)
                        &&& final(self)@ == end.folder
                        &&& final(self).wf()
                        &&& final(self).vars() == old(self).vars() - k
                        &&& final(challenger)@ == end.sponge
                        &&& evals(final(randomness_out)@) == end.challenges
                    },
                    None => fold_stuck(start, pow_bits@, k as nat),
                }
            }),
    {
        let ghost start = FoldRun {
            folder: self@,
            sponge: challenger@,
            challenges: evals(randomness_out@),
        };
        let ghost n = self.vars();
        let mut out: Vec<(SumcheckPoly, ProofOfWork)> = Vec::new();
        let mut round: usize = 0;
        while round < k
            invariant
                round <= k,
                k <= n,
                n == old(self).vars(),
                challenger.wf(),
                pow_feasible(pow_bits@),
                self.wf(),
                self.vars() == n - round,
                start == (FoldRun {
                    folder: old(self)@,
                    sponge: old(challenger)@,
                    challenges: evals(old(randomness_out)@),
                }),
                out@.len() == round,
                fold_pows_found(start, pow_bits@, out_pows(out@), round as nat),
                fold_messages(start, pow_bits@, out_pows(out@), out@),
                ({
                    let at = fold_run(start, pow_bits@, out_pows(out@), round as nat);
                    &&& self@ == at.folder
                    &&& challenger@ == at.sponge
                    &&& evals(randomness_out@) == at.challenges
                }),
            decreases k - round,
        {
            let bits: usize = pow_bits_get(pow_bits, round);
            let ghost before = out_pows(out@);
            proof {
                if round < pow_bits@.len() {
                    assert(pow_bits@[round as int] <= 30);
                }
            }
            let step = self.fold_one(bits, challenger);
            let (g, pow, c) = match step {
                None => {
                    proof {
                        assert(before.len() < k);
                        assert(fold_stuck(start, pow_bits@, k as nat));
                    }
                    return None;
                },
                Some(t) => t,
            };
            let ghost out0 = out@;
            out.push((g, pow));
            randomness_out.push(c);
            proof {
                let after = out_pows(out@);
                assert(after =~= before.push(pow.0@));
                lemma_extend_run(start, pow_bits@, before, pow.0@);
                let end = fold_run(start, pow_bits@, after, (round + 1) as nat);
                assert(evals(randomness_out@) =~= end.challenges);
                assert forall|i: int| 0 <= i < out@.len() implies evals((#[trigger] out@[i]).0.0@)
                    == fold_run(start, pow_bits@, after, i as nat).folder.message() by {
                    fold_run_ext(start, pow_bits@, before, after, i as nat);
                    if i < round {
                        assert(out@[i] == out0[i]);
                    }
                }
            }
            round = round + 1;
        }
        Some(out)
    }
}

/// The witnesses of a list of messages.
pub open spec fn out_pows(out: Seq<(SumcheckPoly, ProofOfWork)>) -> Seq<int> {
    Seq::new(out.len(), |i: int| out[i].1.0@)
}

/// Whether every message is that of the run at its round.
pub open spec fn fold_messages(
    start: FoldRun,
    bits: Seq<usize>,
    pows: Seq<int>,
    out: Seq<(SumcheckPoly, ProofOfWork)>,
) -> bool {
    forall|i: int|
        0 <= i < out.len() ==> evals((#[trigger] out[i]).0.0@) == fold_run(
            start,
            bits,
            pows,
            i as nat,
        ).folder.message()
}

/// Whether an honest run stops before `k` rounds for want of a proof of work.
pub open spec fn fold_stuck(start: FoldRun, bits: Seq<usize>, k: nat) -> bool {
    exists|pows: Seq<int>|
        {
            &&& (#[trigger] pows.len()) < k
            &&& fold_pows_found(start, bits, pows, pows.len())
            &&& no_grind(
                pow_sponge(start, bits, pows, pows.len()),
                pow_bits_at(bits, pows.len() as int),
            )
        }
}

pub(crate) proof fn lemma_extend_run(start: FoldRun, bits: Seq<usize>, pows: Seq<int>, w: int)
    requires
        fold_pows_found(start, bits, pows, pows.len()),
        is_grind(
            pow_sponge(start, bits, pows, pows.len()),
            pow_bits_at(bits, pows.len() as int),
            w,
        ),
    ensures
        fold_pows_found(start, bits, pows.push(w), pows.len() + 1),
        fold_run(start, bits, pows, pows.len()) == fold_run(start, bits, pows.push(w), pows.len()),
{
    let after = pows.push(w);
    fold_run_ext(start, bits, pows, after, pows.len());
    assert forall|i: int| 0 <= i < pows.len() + 1 implies is_grind(
        pow_sponge(start, bits, after, i as nat),
        pow_bits_at(bits, i),
        #[trigger] after[i],
    ) by {
        fold_run_ext(start, bits, pows, after, i as nat);
        if i < pows.len() {
            assert(after[i] == pows[i]);
        }
    }
}

/// Fixes variable 0 of a polynomial at `r`, in place.
pub fn fold_in_place(f: &mut Vec<Ext>, r: Ext)
    ensures
        evals(final(f)@) == fold(evals(old(f)@), r@),
        final(f)@.len() == old(f)@.len() / 2,
{
    let ghost before = f@;
    let half: usize = f.len() / 2;
    let mut i: usize = 0;
    while i < half
        invariant
            i <= half,
            2 * half <= usize::MAX,
            half == before.len() / 2,
            f@.len() == before.len(),
            forall|j: int| i <= j < before.len() ==> #[trigger] f@[j] == before[j],
            forall|j: int| 0 <= j < i ==> (#[trigger] f@[j])@ == fold(evals(before), r@)[j],
        decreases half - i,
    {
        let lo = f[2 * i];
        let hi = f[2 * i + 1];
        f.set(i, lo.plus(r.times(hi.minus(lo))));
        i = i + 1;
    }
    f.truncate(half);
    proof {
        assert(evals(f@) =~= fold(evals(before), r@));
    }
}

} // verus!
