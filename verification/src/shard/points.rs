//! Functions of evaluation points.
use vstd::prelude::*;
use vstd::arithmetic::power2::{lemma2_to64, lemma_pow2_unfold, pow2};
use crate::arith::pow2_le;
use crate::ext::{add_comm, add_zero, all_canon, e_one, e_pow, e_zero, evals, evals_canon, ext_canon,
    mul_add, mul_assoc, mul_comm, mul_one, mul_sub, mul_zero, sub_canon, sub_self, Ext, E4};
use crate::mle::{eq_prod, eq_tab, eq_weight, esum, esum_ext, esum_scale, esum_split, mle_eval,
    mle_eval_is_weighted_sum, univariate};
use crate::whir::replay::{eq_prod_canon, lagrange_eq};

verus! {

/// The multilinear extension of "`point` is at least `threshold`" for numbers written
/// most significant bit first.
pub open spec fn full_geq(threshold: Seq<E4>, point: Seq<E4>) -> E4
    decreases threshold.len(),
{
    if threshold.len() == 0 {
        e_one()
    } else {
        let x = threshold[0];
        let y = point[0];
        ((e_one() - y) * (e_one() - x) + y * x) * full_geq(threshold.skip(1), point.skip(1)) + y * (
        e_one() - x)
    }
}

/// The comparison of a point with a threshold: the mask of the rows at or past the
/// threshold.
pub fn full_geq_host(threshold: &[Ext], eval_point: &[Ext]) -> (r: Ext)
    requires
        threshold@.len() == eval_point@.len(),
    ensures
        r@ == full_geq(evals(threshold@), evals(eval_point@)),
{
    let n: usize = threshold.len();
    let ghost t = evals(threshold@);
    let ghost p = evals(eval_point@);
    let one = Ext::one();
    let mut acc = one;
    let mut k: usize = 0;
    proof {
        assert(t.skip(n as int) =~= Seq::<E4>::empty());
    }
    while k < n
        invariant
            k <= n,
            n == threshold@.len(),
            threshold@.len() == eval_point@.len(),
            t == evals(threshold@),
            p == evals(eval_point@),
            one@ == e_one(),
            acc@ == full_geq(t.skip(n - k), p.skip(n - k)),
        decreases n - k,
    {
        let i: usize = n - 1 - k;
        let x = threshold[i];
        let y = eval_point[i];
        proof {
            let ts = t.skip(i as int);
            let ps = p.skip(i as int);
            assert(ts[0] == x@ && ps[0] == y@);
            assert(ts.skip(1) =~= t.skip(n - k));
            assert(ps.skip(1) =~= p.skip(n - k));
        }
        acc = one.minus(y).times(one.minus(x)).plus(y.times(x)).times(acc).plus(
            y.times(one.minus(x)),
        );
        k = k + 1;
    }
    proof {
        assert(t.skip(0) =~= t);
        assert(p.skip(0) =~= p);
    }
    acc
}

/// The number that bits write, most significant first.
pub open spec fn big_endian(bits: Seq<bool>) -> nat
    decreases bits.len(),
{
    if bits.len() == 0 {
        0
    } else {
        (if bits[0] {
            pow2((bits.len() - 1) as nat)
        } else {
            0
        }) + big_endian(bits.skip(1))
    }
}

/// Bits as field elements.
pub open spec fn bit_point(bits: Seq<bool>) -> Seq<E4> {
    Seq::new(
        bits.len(),
        |i: int|
            if bits[i] {
                e_one()
            } else {
                e_zero()
            },
    )
}

proof fn big_endian_bound(bits: Seq<bool>)
    ensures
        big_endian(bits) < pow2(bits.len()),
    decreases bits.len(),
{
    if bits.len() == 0 {
        lemma2_to64();
    } else {
        big_endian_bound(bits.skip(1));
        lemma_pow2_unfold(bits.len());
    }
}

/// Sums and products of zero and one.
pub proof fn one_minus_bits()
    ensures
        e_one() - e_one() == e_zero(),
        e_one() - e_zero() == e_one(),
        e_one() * e_one() == e_one(),
        e_zero() * e_zero() == e_zero(),
        e_one() * e_zero() == e_zero(),
        e_zero() * e_one() == e_zero(),
        e_zero() + e_zero() == e_zero(),
        e_one() + e_zero() == e_one(),
        e_zero() + e_one() == e_one(),
{
    sub_self(e_one());
    crate::ext::add_sub_cancel(e_one(), e_zero());
    add_zero(e_one());
    add_zero(e_zero());
    mul_one(e_one());
    mul_zero(e_zero());
    mul_zero(e_one());
}

/// On bits, the comparison is one where the point's number is at least the threshold's,
/// and zero elsewhere.
pub proof fn full_geq_compares(threshold: Seq<bool>, point: Seq<bool>)
    requires
        threshold.len() == point.len(),
    ensures
        full_geq(bit_point(threshold), bit_point(point)) == (if big_endian(point) >= big_endian(
            threshold,
        ) {
            e_one()
        } else {
            e_zero()
        }),
    decreases threshold.len(),
{
    one_minus_bits();
    if threshold.len() > 0 {
        let ts = threshold.skip(1);
        let ps = point.skip(1);
        full_geq_compares(ts, ps);
        assert(bit_point(threshold).skip(1) =~= bit_point(ts));
        assert(bit_point(point).skip(1) =~= bit_point(ps));
        big_endian_bound(ts);
        big_endian_bound(ps);
    }
}

/// With a threshold of zeros, the comparison is one at every point: no row is masked.
pub proof fn full_geq_of_zero(point: Seq<E4>)
    ensures
        full_geq(Seq::new(point.len(), |i: int| e_zero()), point) == e_one(),
    decreases point.len(),
{
    let z = Seq::new(point.len(), |i: int| e_zero());
    if point.len() > 0 {
        let y = point[0];
        full_geq_of_zero(point.skip(1));
        assert(z.skip(1) =~= Seq::new(point.skip(1).len(), |i: int| e_zero()));
        one_minus_bits();
        mul_zero(y);
        sub_canon(e_one(), y);
        mul_one(e_one() - y);
        add_zero(e_one() - y);
        mul_sub(y, e_one(), e_zero());
        // (1 - y) + y * 1 == 1
        mul_comm(y, e_one());
        crate::ring::lerp_ends(e_one(), e_one());
        lemma_one_minus_plus(y);
    }
}

proof fn lemma_one_minus_plus(y: E4)
    ensures
        (e_one() - y) + y * e_one() == e_one(),
{
    // (1 - y) * 1 + y * 1 == ((1 - y) + y) * 1
    sub_canon(e_one(), y);
    mul_one(e_one() - y);
    mul_add(e_one(), e_one() - y, y);
    crate::ext::sub_add_cancel(e_one(), y);
    mul_one(e_one());
}

/// A threshold of `max_log_row_count + 1` zeros.
pub fn degree_stub_host(max_log_row_count: usize) -> (r: Vec<Ext>)
    requires
        max_log_row_count < usize::MAX,
    ensures
        r@.len() == max_log_row_count + 1,
        forall|i: int| 0 <= i < r@.len() ==> (#[trigger] r@[i])@ == e_zero(),
{
    crate::whir::queries::zero_exts(max_log_row_count + 1)
}

/// The equality polynomial of two points.
pub fn eq_eval_host(a: &[Ext], b: &[Ext]) -> (r: Ext)
    requires
        a@.len() == b@.len(),
    ensures
        r@ == eq_prod(evals(a@), evals(b@)),
{
    lagrange_eq(a, b)
}

/// On bits, the equality polynomial is one for equal points and zero otherwise.
pub proof fn eq_prod_indicates(a: Seq<bool>, b: Seq<bool>)
    requires
        a.len() == b.len(),
    ensures
        eq_prod(bit_point(a), bit_point(b)) == (if a == b {
            e_one()
        } else {
            e_zero()
        }),
    decreases a.len(),
{
    one_minus_bits();
    if a.len() > 0 {
        eq_prod_indicates(a.skip(1), b.skip(1));
        assert(bit_point(a).skip(1) =~= bit_point(a.skip(1)));
        assert(bit_point(b).skip(1) =~= bit_point(b.skip(1)));
        if a == b {
        } else if a[0] == b[0] {
            assert(a.skip(1) != b.skip(1)) by {
                if a.skip(1) == b.skip(1) {
                    assert forall|i: int| 0 <= i < a.len() implies a[i] == b[i] by {
                        if i > 0 {
                            assert(a.skip(1)[i - 1] == b.skip(1)[i - 1]);
                        }
                    }
                    assert(a =~= b);
                }
            }
        }
        let rest = eq_prod(bit_point(a.skip(1)), bit_point(b.skip(1)));
        eq_prod_canon(bit_point(a.skip(1)), bit_point(b.skip(1)));
        mul_one(rest);
        mul_zero(rest);
    } else {
        assert(a =~= b);
    }
}

/// The weight of an index with a coordinate appended for its highest bit.
pub proof fn eq_weight_push(p: Seq<E4>, r: E4, x: int)
    requires
        0 <= x < pow2(p.len()),
    ensures
        eq_weight(p.push(r), x) == eq_weight(p, x) * (e_one() - r),
        eq_weight(p.push(r), x + pow2(p.len())) == eq_weight(p, x) * r,
    decreases p.len(),
{
    let q = p.push(r);
    let n = p.len();
    if n == 0 {
        lemma2_to64();
        assert(q.skip(1) =~= Seq::<E4>::empty());
        reveal_with_fuel(eq_weight, 2);
        sub_canon(e_one(), r);
        mul_comm(e_one(), r);
        mul_comm(e_one(), e_one() - r);
        assert((x + 1) % 2 == 1);
    } else {
        lemma_pow2_unfold(n);
        let h = pow2((n - 1) as nat);
        assert(q.skip(1) =~= p.skip(1).push(r));
        eq_weight_push(p.skip(1), r, x / 2);
        let y = x + pow2(n);
        assert(y % 2 == x % 2 && y / 2 == x / 2 + h) by {
            assert(y == x + 2 * h);
        }
        let factor = if x % 2 == 1 {
            p[0]
        } else {
            e_one() - p[0]
        };
        assert(q[0] == p[0]);
        mul_assoc(factor, eq_weight(p.skip(1), x / 2), e_one() - r);
        mul_assoc(factor, eq_weight(p.skip(1), x / 2), r);
    }
}

/// The multilinear extension of `mle_evals` at `point`, variable 0 first, through the
/// table of Lagrange weights.
pub fn evaluate_mle_host(mle_evals: &[Ext], point: &[Ext]) -> (r: Ext)
    requires
        mle_evals@.len() == pow2(point@.len()),
    ensures
        r@ == mle_eval(evals(mle_evals@), evals(point@)),
{
    let size: usize = mle_evals.len();
    let ghost p = evals(point@);
    let ghost f = evals(mle_evals@);
    let mut weights: Vec<Ext> = Vec::new();
    weights.push(Ext::one());
    let mut k: usize = 0;
    proof {
        lemma2_to64();
        assert(p.take(0) =~= Seq::<E4>::empty());
        assert(evals(weights@) =~= eq_tab(p.take(0)));
    }
    while k < point.len()
        invariant
            k <= point@.len(),
            p == evals(point@),
            pow2(point@.len()) <= usize::MAX,
            evals(weights@) == eq_tab(p.take(k as int)),
        decreases point@.len() - k,
    {
        let r = point[k];
        let ghost q = p.take(k as int);
        let ghost q2 = p.take(k + 1);
        let ghost table = eq_tab(q);
        let old_len: usize = weights.len();
        let mut next: Vec<Ext> = Vec::new();
        let mut high: Vec<Ext> = Vec::new();
        let mut j: usize = 0;
        proof {
            assert(q2 =~= q.push(r@));
            assert(evals(weights@).len() == weights@.len());
            pow2_le((k + 1) as nat, point@.len());
            lemma_pow2_unfold((k + 1) as nat);
        }
        while j < old_len
            invariant
                j <= old_len,
                old_len == weights@.len(),
                old_len == pow2(q.len()),
                evals(weights@) == eq_tab(q),
                q2 == q.push(r@),
                next@.len() == j,
                high@.len() == j,
                forall|i: int| 0 <= i < j ==> (#[trigger] next@[i])@ == eq_weight(q2, i),
                forall|i: int|
                    0 <= i < j ==> (#[trigger] high@[i])@ == eq_weight(q2, i + pow2(q.len())),
            decreases old_len - j,
        {
            let w = weights[j];
            let prod = w.times(r);
            proof {
                assert(evals(weights@)[j as int] == w@);
                eq_weight_push(q, r@, j as int);
                ext_canon(w);
                mul_sub(w@, e_one(), r@);
                mul_one(w@);
            }
            next.push(w.minus(prod));
            high.push(prod);
            j = j + 1;
        }
        let mut i: usize = 0;
        while i < old_len
            invariant
                i <= old_len,
                old_len == pow2(q.len()),
                high@.len() == old_len,
                next@.len() == old_len + i,
                forall|t: int| 0 <= t < next@.len() ==> (#[trigger] next@[t])@ == eq_weight(q2, t),
                forall|t: int|
                    0 <= t < old_len ==> (#[trigger] high@[t])@ == eq_weight(q2, t + pow2(q.len())),
            decreases old_len - i,
        {
            next.push(high[i]);
            i = i + 1;
        }
        proof {
            assert(evals(next@) =~= eq_tab(q2));
        }
        weights = next;
        k = k + 1;
    }
    let mut acc = Ext::zero();
    let mut i: usize = 0;
    let ghost t = eq_tab(p);
    proof {
        assert(p.take(k as int) =~= p);
        assert(evals(weights@).len() == weights@.len());
    }
    while i < size
        invariant
            i <= size,
            size == mle_evals@.len(),
            weights@.len() == size,
            evals(weights@) == t,
            f == evals(mle_evals@),
            acc@ == esum(i as nat, |j: int| t[j] * f[j]),
        decreases size - i,
    {
        proof {
            assert(evals(weights@)[i as int] == weights@[i as int]@);
            mul_comm(mle_evals@[i as int]@, weights@[i as int]@);
        }
        acc = acc.plus(mle_evals[i].times(weights[i]));
        i = i + 1;
    }
    proof {
        evals_canon(mle_evals@);
        mle_eval_is_weighted_sum(f, p);
    }
    acc
}

/// The number that bits write, variable 0 least significant.
pub open spec fn little_endian(bits: Seq<bool>) -> nat
    decreases bits.len(),
{
    if bits.len() == 0 {
        0
    } else {
        (if bits[0] {
            1
        } else {
            0nat
        }) + 2 * little_endian(bits.skip(1))
    }
}

/// At a point of bits, the multilinear extension is the entry that the bits index.
pub proof fn mle_eval_at_bits(f: Seq<E4>, bits: Seq<bool>)
    requires
        f.len() == pow2(bits.len()),
        all_canon(f),
    ensures
        little_endian(bits) < f.len(),
        mle_eval(f, bit_point(bits)) == f[little_endian(bits) as int],
    decreases bits.len(),
{
    if bits.len() == 0 {
        lemma2_to64();
    } else {
        lemma_pow2_unfold(bits.len());
        let b = bit_point(bits);
        let g = crate::mle::fold(f, b[0]);
        crate::mle::fold_canon(f, b[0]);
        mle_eval_at_bits(g, bits.skip(1));
        assert(b.skip(1) =~= bit_point(bits.skip(1)));
        let i = little_endian(bits.skip(1)) as int;
        crate::ring::lerp_ends(f[2 * i], f[2 * i + 1]);
    }
}

/// Splitting off the constant coefficient.
pub proof fn univariate_step(c: Seq<E4>, x: E4)
    requires
        c.len() > 0,
        all_canon(c),
    ensures
        univariate(c, x) == univariate(c.skip(1), x) * x + c[0],
{
    let n = (c.len() - 1) as nat;
    let f = |i: int| c[i] * e_pow(x, i as nat);
    let rest = c.skip(1);
    let g = |i: int| rest[i] * e_pow(x, i as nat);
    let shifted = |i: int| f(1 + i);
    let scaled = |i: int| x * g(i);
    esum_split(1, n, f);
    assert forall|i: int| 0 <= i < n implies #[trigger] shifted(i) == scaled(i) by {
        assert(e_pow(x, (1 + i) as nat) == e_pow(x, i as nat) * x);
        mul_assoc(c[1 + i], e_pow(x, i as nat), x);
        mul_comm(c[1 + i] * e_pow(x, i as nat), x);
    }
    esum_ext(n, shifted, scaled);
    esum_scale(n, x, g);
    mul_comm(x, esum(n, g));
    assert(esum(1, f) == c[0]) by {
        assert(esum(0, f) == e_zero());
        assert(esum(1, f) == esum(0, f) + f(0));
        assert(c[0].canon());
        mul_one(c[0]);
        add_zero(c[0]);
    }
    add_comm(esum(1, f), esum(n, scaled));
    assert((1 + n) as nat == c.len());
}

/// The value at `x` of a polynomial with the given coefficients, lowest first, by
/// Horner's rule.
pub fn eval_coeffs_host(coeffs: &[Ext], x: Ext) -> (r: Ext)
    ensures
        r@ == univariate(evals(coeffs@), x@),
{
    let n: usize = coeffs.len();
    let ghost c = evals(coeffs@);
    let mut acc = Ext::zero();
    let mut k: usize = 0;
    proof {
        assert(c.skip(n as int) =~= Seq::<E4>::empty());
    }
    while k < n
        invariant
            k <= n,
            n == coeffs@.len(),
            c == evals(coeffs@),
            acc@ == univariate(c.skip(n - k), x@),
        decreases n - k,
    {
        let i: usize = n - 1 - k;
        proof {
            evals_canon(coeffs@);
            let s = c.skip(i as int);
            assert forall|j: int| 0 <= j < s.len() implies (#[trigger] s[j]).canon() by {
                assert(c[i + j].canon());
            }
            univariate_step(s, x@);
            assert(s.skip(1) =~= c.skip(n - k));
            assert(s[0] == coeffs@[i as int]@);
        }
        acc = acc.times(x).plus(coeffs[i]);
        k = k + 1;
    }
    proof {
        assert(c.skip(0) =~= c);
    }
    acc
}

} // verus!
