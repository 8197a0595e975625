//! Multilinear polynomials over the Boolean hypercube.
//!
//! A polynomial in `n` variables is the sequence of its `2^n` values; bit `j` of
//! an index is variable `j`, so variable 0 pairs adjacent entries. Folding fixes
//! variable 0, and the weight tables below are the two bases that evaluation
//! claims are stated in.
use vstd::prelude::*;
use vstd::arithmetic::power2::{lemma2_to64, lemma_pow2_unfold, pow2};
use crate::ext::{add_assoc, add_canon, add_comm, add_sub_assoc, add_sub_cancel, add_zero,
    all_canon, e_one, e_pow, e_zero, mul_add, mul_assoc, mul_canon, mul_comm, mul_one, mul_zero,
    pow_canon, pow_square, sub_add_assoc, sub_add_cancel, sub_canon, E4};
use crate::ring::{add_swap, end_products, eq1, lerp, lerp_add, lerp_eq1, lerp_mono1, lerp_product,
    lerp_scale, mono1};

verus! {

/// The sum `f(0) + f(1) + ... + f(n - 1)`.
pub open spec fn esum(n: nat, f: spec_fn(int) -> E4) -> E4
    decreases n,
{
    if n == 0 {
        e_zero()
    } else {
        esum((n - 1) as nat, f) + f(n - 1)
    }
}

/// The inner product of two sequences.
pub open spec fn dot(a: Seq<E4>, b: Seq<E4>) -> E4 {
    esum(a.len(), |i: int| a[i] * b[i])
}

/// A sum is canonical.
pub proof fn esum_canon(n: nat, f: spec_fn(int) -> E4)
    ensures
        esum(n, f).canon(),
{
    if n > 0 {
        add_canon(esum((n - 1) as nat, f), f(n - 1));
    }
}

/// Sums of pointwise equal functions are equal.
pub proof fn esum_ext(n: nat, f: spec_fn(int) -> E4, g: spec_fn(int) -> E4)
    requires
        forall|i: int| 0 <= i < n ==> #[trigger] f(i) == g(i),
    ensures
        esum(n, f) == esum(n, g),
    decreases n,
{
    if n > 0 {
        esum_ext((n - 1) as nat, f, g);
        assert(f(n - 1) == g(n - 1));
    }
}

/// The sum of sums.
pub proof fn esum_add(n: nat, f: spec_fn(int) -> E4, g: spec_fn(int) -> E4)
    ensures
        esum(n, |i: int| f(i) + g(i)) == esum(n, f) + esum(n, g),
    decreases n,
{
    if n > 0 {
        esum_add((n - 1) as nat, f, g);
        add_swap(esum((n - 1) as nat, f), esum((n - 1) as nat, g), f(n - 1), g(n - 1));
    } else {
        add_zero(e_zero());
    }
}

/// A common factor moves out of a sum.
pub proof fn esum_scale(n: nat, k: E4, f: spec_fn(int) -> E4)
    ensures
        esum(n, |i: int| k * f(i)) == k * esum(n, f),
    decreases n,
{
    if n > 0 {
        esum_scale((n - 1) as nat, k, f);
        mul_add(k, esum((n - 1) as nat, f), f(n - 1));
    } else {
        mul_zero(k);
    }
}

/// A sum of zeros is zero.
pub proof fn esum_zero(n: nat, f: spec_fn(int) -> E4)
    requires
        forall|i: int| 0 <= i < n ==> #[trigger] f(i) == e_zero(),
    ensures
        esum(n, f) == e_zero(),
    decreases n,
{
    if n > 0 {
        esum_zero((n - 1) as nat, f);
        assert(f(n - 1) == e_zero());
        add_zero(e_zero());
    }
}

/// A sum splits at any index.
pub proof fn esum_split(m: nat, n: nat, f: spec_fn(int) -> E4)
    ensures
        esum(m + n, f) == esum(m, f) + esum(n, |i: int| f(m + i)),
    decreases n,
{
    let g = |i: int| f(m + i);
    if n > 0 {
        esum_split(m, (n - 1) as nat, f);
        assert((m + n - 1) as nat == m + (n - 1) as nat);
        add_assoc(esum(m, f), esum((n - 1) as nat, g), g(n - 1));
    } else {
        esum_canon(m, f);
        add_zero(esum(m, f));
    }
}

/// A sum over pairs.
pub proof fn esum_pairs(n: nat, f: spec_fn(int) -> E4)
    ensures
        esum(2 * n, f) == esum(n, |i: int| f(2 * i) + f(2 * i + 1)),
    decreases n,
{
    if n > 0 {
        esum_pairs((n - 1) as nat, f);
        let m = (2 * n - 2) as nat;
        assert((2 * n - 1) as nat == m + 1);
        assert(esum(m + 1, f) == esum(m, f) + f(2 * n - 2));
        assert(esum(2 * n, f) == esum(m + 1, f) + f(2 * n - 1));
        add_assoc(esum(m, f), f(2 * n - 2), f(2 * n - 1));
    }
}

/// Variable 0 of a polynomial fixed at `r`.
pub open spec fn fold(f: Seq<E4>, r: E4) -> Seq<E4> {
    Seq::new(f.len() / 2, |i: int| lerp(f[2 * i], f[2 * i + 1], r))
}

/// Variables `0, 1, ..` of a polynomial fixed at the coordinates of `rs`.
pub open spec fn fold_all(f: Seq<E4>, rs: Seq<E4>) -> Seq<E4>
    decreases rs.len(),
{
    if rs.len() == 0 {
        f
    } else {
        fold_all(fold(f, rs[0]), rs.skip(1))
    }
}

/// The multilinear extension of `f` at a point, variable 0 first.
pub open spec fn mle_eval(f: Seq<E4>, point: Seq<E4>) -> E4 {
    fold_all(f, point)[0]
}

/// The Lagrange weight of hypercube index `x` at a point: the product over the
/// variables of `p` where the bit of `x` is set and of `1 - p` elsewhere.
pub open spec fn eq_weight(point: Seq<E4>, x: int) -> E4
    decreases point.len(),
{
    if point.len() == 0 {
        e_one()
    } else {
        (if x % 2 == 1 {
            point[0]
        } else {
            e_one() - point[0]
        }) * eq_weight(point.skip(1), x / 2)
    }
}

/// The monomial weight of index `x` at a point: the product of the coordinates
/// whose bit of `x` is set.
pub open spec fn mono_weight(point: Seq<E4>, x: int) -> E4
    decreases point.len(),
{
    if point.len() == 0 {
        e_one()
    } else {
        (if x % 2 == 1 {
            point[0]
        } else {
            e_one()
        }) * mono_weight(point.skip(1), x / 2)
    }
}

/// The Lagrange weights of every index.
pub open spec fn eq_tab(point: Seq<E4>) -> Seq<E4> {
    Seq::new(pow2(point.len()), |x: int| eq_weight(point, x))
}

/// The monomial weights of every index.
pub open spec fn mono_tab(point: Seq<E4>) -> Seq<E4> {
    Seq::new(pow2(point.len()), |x: int| mono_weight(point, x))
}

/// The value at a point of the polynomial whose monomial coefficients are `f`.
pub open spec fn mono_value(f: Seq<E4>, point: Seq<E4>) -> E4 {
    dot(mono_tab(point), f)
}

/// The pointwise sum of two sequences.
pub open spec fn vadd(a: Seq<E4>, b: Seq<E4>) -> Seq<E4> {
    Seq::new(a.len(), |i: int| a[i] + b[i])
}

/// A sequence scaled by a constant.
pub open spec fn vscale(k: E4, a: Seq<E4>) -> Seq<E4> {
    Seq::new(a.len(), |i: int| k * a[i])
}

/// The product of the one-variable equality polynomials of two points.
pub open spec fn eq_prod(a: Seq<E4>, b: Seq<E4>) -> E4
    decreases a.len(),
{
    if a.len() == 0 {
        e_one()
    } else {
        eq1(a[0], b[0]) * eq_prod(a.skip(1), b.skip(1))
    }
}

/// The product of the one-variable monomial factors of two points.
pub open spec fn mono_prod(a: Seq<E4>, b: Seq<E4>) -> E4
    decreases a.len(),
{
    if a.len() == 0 {
        e_one()
    } else {
        mono1(a[0], b[0]) * mono_prod(a.skip(1), b.skip(1))
    }
}

/// `[x, x^2, x^4, ..]`: the point at which monomial weights are powers of `x`.
pub open spec fn pow_point(x: E4, n: nat) -> Seq<E4>
    decreases n,
{
    if n == 0 {
        Seq::empty()
    } else {
        seq![x] + pow_point(x * x, (n - 1) as nat)
    }
}

/// The value at `x` of the polynomial with coefficients `c`, lowest first.
pub open spec fn univariate(c: Seq<E4>, x: E4) -> E4 {
    esum(c.len(), |i: int| c[i] * e_pow(x, i as nat))
}

/// The constant coefficient of a folding round.
pub open spec fn round_c0(f: Seq<E4>, w: Seq<E4>) -> E4 {
    esum(f.len() / 2, |i: int| w[2 * i] * f[2 * i])
}

/// The quadratic coefficient of a folding round.
pub open spec fn round_c2(f: Seq<E4>, w: Seq<E4>) -> E4 {
    esum(f.len() / 2, |i: int| (f[2 * i + 1] - f[2 * i]) * (w[2 * i + 1] - w[2 * i]))
}

/// The linear coefficient that makes the two ends of a round add up to the claim.
pub open spec fn round_c1(c0: E4, c2: E4, claim: E4) -> E4 {
    (claim - (c0 + c0)) - c2
}

/// A quadratic at a point.
pub open spec fn quadratic(c0: E4, c1: E4, c2: E4, r: E4) -> E4 {
    (c0 + c1 * r) + (c2 * r) * r
}

/// The sum of a quadratic over zero and one.
pub open spec fn ends_sum(c0: E4, c1: E4, c2: E4) -> E4 {
    c0 + ((c0 + c1) + c2)
}

/// The messages of an honest round add up to the claim at zero and one.
pub proof fn round_ends(c0: E4, c2: E4, claim: E4)
    requires
        claim.canon(),
        c0.canon(),
        c2.canon(),
    ensures
        ends_sum(c0, round_c1(c0, c2, claim), c2) == claim,
{
    let c1 = round_c1(c0, c2, claim);
    add_assoc(c0, c0 + c1, c2);
    add_assoc(c0, c0, c1);
    add_assoc(c0 + c0, c1, c2);
    sub_canon(claim, c0 + c0);
    sub_add_cancel(claim - (c0 + c0), c2);
    add_comm(c0 + c0, claim - (c0 + c0));
    sub_add_cancel(claim, c0 + c0);
}

/// One folding round keeps the claim equal to the inner product of weight and
/// polynomial.
pub proof fn round_keeps_claim(f: Seq<E4>, w: Seq<E4>, r: E4)
    requires
        f.len() == w.len(),
        f.len() % 2 == 0,
        all_canon(f),
        all_canon(w),
    ensures
        dot(fold(w, r), fold(f, r)) == quadratic(
            round_c0(f, w),
            round_c1(round_c0(f, w), round_c2(f, w), dot(w, f)),
            round_c2(f, w),
            r,
        ),
{
    let h = f.len() / 2;
    let c0 = round_c0(f, w);
    let c2 = round_c2(f, w);
    let lo = |i: int| w[2 * i] * f[2 * i];
    let cross = |i: int|
        w[2 * i] * (f[2 * i + 1] - f[2 * i]) + (w[2 * i + 1] - w[2 * i]) * f[2 * i];
    let quad = |i: int| (w[2 * i + 1] - w[2 * i]) * (f[2 * i + 1] - f[2 * i]);
    let quad2 = |i: int| (f[2 * i + 1] - f[2 * i]) * (w[2 * i + 1] - w[2 * i]);
    assert forall|i: int| 0 <= i < h implies #[trigger] quad(i) == quad2(i) by {
        mul_comm(w[2 * i + 1] - w[2 * i], f[2 * i + 1] - f[2 * i]);
    }
    esum_ext(h, quad, quad2);
    assert(c2 == esum(h, quad));
    let m = esum(h, cross);
    // The claim, by pairs.
    let wf = |i: int| w[i] * f[i];
    esum_pairs(h, wf);
    let pairs = |i: int| wf(2 * i) + wf(2 * i + 1);
    let lo2 = |i: int| lo(i) + lo(i);
    let part = |i: int| lo2(i) + cross(i);
    let full = |i: int| part(i) + quad(i);
    assert forall|i: int| 0 <= i < h implies #[trigger] pairs(i) == full(i) by {
        end_products(w[2 * i], w[2 * i + 1], f[2 * i], f[2 * i + 1]);
    }
    esum_ext(h, pairs, full);
    esum_add(h, part, quad);
    esum_add(h, lo2, cross);
    esum_add(h, lo, lo);
    let claim = dot(w, f);
    assert(claim == ((c0 + c0) + m) + c2);
    esum_canon(h, cross);
    add_canon(c0 + c0, m);
    add_comm(c0 + c0, m);
    sub_add_assoc(claim, c0 + c0, c2);
    add_comm(c0 + c0, c2);
    sub_add_assoc(claim, c2, c0 + c0);
    add_sub_cancel((c0 + c0) + m, c2);
    add_sub_cancel(m, c0 + c0);
    assert(round_c1(c0, c2, claim) == m);
    // The folded inner product, by powers of the challenge.
    let wr = fold(w, r);
    let fr = fold(f, r);
    let prod = |i: int| wr[i] * fr[i];
    let rcross = |i: int| r * cross(i);
    let rquad = |i: int| (r * r) * quad(i);
    let linear = |i: int| lo(i) + rcross(i);
    let all = |i: int| linear(i) + rquad(i);
    assert forall|i: int| 0 <= i < h implies #[trigger] prod(i) == all(i) by {
        lerp_product(w[2 * i], w[2 * i + 1], f[2 * i], f[2 * i + 1], r);
    }
    esum_ext(h, prod, all);
    esum_add(h, linear, rquad);
    esum_add(h, lo, rcross);
    esum_scale(h, r, cross);
    esum_scale(h, r * r, quad);
    mul_comm(r, m);
    mul_comm(r * r, c2);
    mul_assoc(c2, r, r);
}

/// Folding is additive.
pub proof fn fold_add(a: Seq<E4>, b: Seq<E4>, r: E4)
    requires
        a.len() == b.len(),
    ensures
        fold(vadd(a, b), r) == vadd(fold(a, r), fold(b, r)),
{
    assert forall|i: int| 0 <= i < a.len() / 2 implies fold(vadd(a, b), r)[i] == vadd(
        fold(a, r),
        fold(b, r),
    )[i] by {
        lerp_add(a[2 * i], a[2 * i + 1], b[2 * i], b[2 * i + 1], r);
    }
    assert(fold(vadd(a, b), r) =~= vadd(fold(a, r), fold(b, r)));
}

/// Folding commutes with scaling.
pub proof fn fold_scale(k: E4, a: Seq<E4>, r: E4)
    ensures
        fold(vscale(k, a), r) == vscale(k, fold(a, r)),
{
    assert forall|i: int| 0 <= i < a.len() / 2 implies fold(vscale(k, a), r)[i] == vscale(
        k,
        fold(a, r),
    )[i] by {
        lerp_scale(k, a[2 * i], a[2 * i + 1], r);
    }
    assert(fold(vscale(k, a), r) =~= vscale(k, fold(a, r)));
}

/// Folded values are canonical.
pub proof fn fold_canon(f: Seq<E4>, r: E4)
    ensures
        all_canon(fold(f, r)),
{
    assert forall|i: int| 0 <= i < f.len() / 2 implies (#[trigger] fold(f, r)[i]).canon() by {
        add_canon(f[2 * i], r * (f[2 * i + 1] - f[2 * i]));
    }
}

/// A product with a conditional left factor is canonical.
pub proof fn eq_weight_canon(point: Seq<E4>, x: int)
    ensures
        eq_weight(point, x).canon(),
{
    if point.len() > 0 {
        mul_canon(
            if x % 2 == 1 {
                point[0]
            } else {
                e_one() - point[0]
            },
            eq_weight(point.skip(1), x / 2),
        );
    }
}

/// A monomial weight is canonical.
pub proof fn mono_weight_canon(point: Seq<E4>, x: int)
    ensures
        mono_weight(point, x).canon(),
{
    if point.len() > 0 {
        mul_canon(
            if x % 2 == 1 {
                point[0]
            } else {
                e_one()
            },
            mono_weight(point.skip(1), x / 2),
        );
    }
}

/// Folding the Lagrange table of a point leaves the table of its remaining
/// coordinates, scaled by the equality polynomial of the folded one.
pub proof fn fold_eq_tab(point: Seq<E4>, r: E4)
    requires
        point.len() > 0,
    ensures
        fold(eq_tab(point), r) == vscale(eq1(point[0], r), eq_tab(point.skip(1))),
{
    let p = point[0];
    let rest = point.skip(1);
    lemma_pow2_unfold(point.len());
    assert forall|i: int| 0 <= i < pow2(rest.len()) implies fold(eq_tab(point), r)[i] == vscale(
        eq1(p, r),
        eq_tab(rest),
    )[i] by {
        let e = eq_weight(rest, i);
        assert((2 * i) / 2 == i && (2 * i) % 2 == 0);
        assert((2 * i + 1) / 2 == i && (2 * i + 1) % 2 == 1);
        assert(eq_tab(point)[2 * i] == (e_one() - p) * e);
        assert(eq_tab(point)[2 * i + 1] == p * e);
        mul_comm(e_one() - p, e);
        mul_comm(p, e);
        lerp_scale(e, e_one() - p, p, r);
        lerp_eq1(p, r);
        mul_comm(e, eq1(p, r));
    }
    assert(fold(eq_tab(point), r) =~= vscale(eq1(p, r), eq_tab(rest)));
}

/// Folding the monomial table of a point leaves the table of its remaining
/// coordinates, scaled by the monomial factor of the folded one.
pub proof fn fold_mono_tab(point: Seq<E4>, r: E4)
    requires
        point.len() > 0,
    ensures
        fold(mono_tab(point), r) == vscale(mono1(point[0], r), mono_tab(point.skip(1))),
{
    let p = point[0];
    let rest = point.skip(1);
    lemma_pow2_unfold(point.len());
    assert forall|i: int| 0 <= i < pow2(rest.len()) implies fold(mono_tab(point), r)[i] == vscale(
        mono1(p, r),
        mono_tab(rest),
    )[i] by {
        let e = mono_weight(rest, i);
        assert((2 * i) / 2 == i && (2 * i) % 2 == 0);
        assert((2 * i + 1) / 2 == i && (2 * i + 1) % 2 == 1);
        assert(mono_tab(point)[2 * i] == e_one() * e);
        assert(mono_tab(point)[2 * i + 1] == p * e);
        mul_comm(e_one(), e);
        mul_comm(p, e);
        lerp_scale(e, e_one(), p, r);
        lerp_mono1(p, r);
        mul_comm(e, mono1(p, r));
    }
    assert(fold(mono_tab(point), r) =~= vscale(mono1(p, r), mono_tab(rest)));
}

/// The weight of an index with a known low bit.
pub proof fn weight_step(point: Seq<E4>, i: int)
    requires
        point.len() > 0,
    ensures
        eq_weight(point, 2 * i) == (e_one() - point[0]) * eq_weight(point.skip(1), i),
        eq_weight(point, 2 * i + 1) == point[0] * eq_weight(point.skip(1), i),
        mono_weight(point, 2 * i) == e_one() * mono_weight(point.skip(1), i),
        mono_weight(point, 2 * i + 1) == point[0] * mono_weight(point.skip(1), i),
{
    assert((2 * i) / 2 == i && (2 * i) % 2 == 0);
    assert((2 * i + 1) / 2 == i && (2 * i + 1) % 2 == 1);
}

/// The multilinear extension at a point is the Lagrange-weighted sum of the values.
pub proof fn mle_eval_is_weighted_sum(f: Seq<E4>, point: Seq<E4>)
    requires
        f.len() == pow2(point.len()),
        all_canon(f),
    ensures
        mle_eval(f, point) == dot(eq_tab(point), f),
    decreases point.len(),
{
    if point.len() == 0 {
        lemma2_to64();
        let t = eq_tab(point);
        assert(t.len() == 1);
        assert(dot(t, f) == esum(0, |i: int| t[i] * f[i]) + t[0] * f[0]);
        assert(t[0] == e_one());
        mul_one(f[0]);
        add_zero(f[0]);
    } else {
        let p = point[0];
        let rest = point.skip(1);
        lemma_pow2_unfold(point.len());
        let h = pow2(rest.len());
        let g = fold(f, p);
        fold_canon(f, p);
        mle_eval_is_weighted_sum(g, rest);
        let t = eq_tab(point);
        let tr = eq_tab(rest);
        let full = |i: int| t[i] * f[i];
        esum_pairs(h, full);
        let pairs = |i: int| full(2 * i) + full(2 * i + 1);
        let one = |i: int| tr[i] * g[i];
        assert forall|i: int| 0 <= i < h implies #[trigger] pairs(i) == one(i) by {
            weight_step(point, i);
            let e = eq_weight(rest, i);
            let (lo, hi) = (f[2 * i], f[2 * i + 1]);
            // ((1 - p) e) lo + (p e) hi == e (lo + p (hi - lo))
            lemma_weighted_pair(e, p, lo, hi);
        }
        esum_ext(h, pairs, one);
    }
}

proof fn lemma_weighted_pair(e: E4, p: E4, lo: E4, hi: E4)
    requires
        lo.canon(),
    ensures
        ((e_one() - p) * e) * lo + (p * e) * hi == e * lerp(lo, hi, p),
{
    mul_comm(e_one() - p, e);
    mul_comm(p, e);
    mul_assoc(e, e_one() - p, lo);
    mul_assoc(e, p, hi);
    mul_add(e, (e_one() - p) * lo, p * hi);
    crate::ext::mul_sub(lo, e_one(), p);
    mul_one(lo);
    mul_comm(lo, p);
    crate::ring::sub_add_comm(lo, p * lo, p * hi);
    add_sub_assoc(lo, p * hi, p * lo);
    crate::ext::mul_sub(p, hi, lo);
}

/// The monomial weights of `[x, x^2, x^4, ..]` are the powers of `x`.
pub proof fn mono_weight_of_pow_point(x: E4, n: nat, i: nat)
    requires
        i < pow2(n),
        x.canon(),
    ensures
        mono_weight(pow_point(x, n), i as int) == e_pow(x, i),
    decreases n,
{
    if n == 0 {
        lemma2_to64();
    } else {
        lemma_pow2_unfold(n);
        let pt = pow_point(x, n);
        assert(pt.skip(1) =~= pow_point(x * x, (n - 1) as nat));
        mul_canon(x, x);
        let h = i / 2;
        mono_weight_of_pow_point(x * x, (n - 1) as nat, h);
        pow_square(x, h);
        pow_canon(x, 2 * h);
        if i % 2 == 1 {
            assert(i == 2 * h + 1);
            mul_comm(x, e_pow(x, 2 * h));
        } else {
            assert(i == 2 * h);
            mul_one(e_pow(x, 2 * h));
        }
    }
}

/// The number of coordinates of `[x, x^2, x^4, ..]`.
pub proof fn pow_point_len(x: E4, n: nat)
    ensures
        pow_point(x, n).len() == n,
    decreases n,
{
    if n > 0 {
        pow_point_len(x * x, (n - 1) as nat);
    }
}

/// A monomial evaluation at `[x, x^2, x^4, ..]` is the univariate value at `x`.
pub proof fn mono_value_is_univariate(f: Seq<E4>, x: E4, n: nat)
    requires
        f.len() == pow2(n),
        x.canon(),
    ensures
        mono_value(f, pow_point(x, n)) == univariate(f, x),
{
    let pt = pow_point(x, n);
    pow_point_len(x, n);
    let t = mono_tab(pt);
    let a = |i: int| t[i] * f[i];
    let b = |i: int| f[i] * e_pow(x, i as nat);
    assert forall|i: int| 0 <= i < f.len() implies #[trigger] a(i) == b(i) by {
        mono_weight_of_pow_point(x, n, i as nat);
        mul_comm(t[i], f[i]);
    }
    esum_ext(f.len(), a, b);
}

} // verus!
