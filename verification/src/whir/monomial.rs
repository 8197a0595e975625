//! Monomial-basis primitives.
//!
//! A codeword is the transform of monomial coefficients, so a query into it is a
//! monomial evaluation. The functions here come in two orders: the plain ones
//! take points most significant coordinate first, those in `_lsb` least
//! significant first, which is the order of [`crate::mle`].
use vstd::prelude::*;
use vstd::arithmetic::power2::{lemma2_to64, lemma_pow2_unfold, pow2};
use crate::arith::pow2_le;
use crate::ext::{add_comm, add_sub_assoc, all_canon, e_one, evals, ext_canon, fvals, lift,
    mul_assoc, mul_canon, mul_comm, mul_one, Ext, E4};
use crate::felt::Felt;
use crate::mle::{dot, eq_tab, esum, fold_mono_tab, fold_scale, mle_eval, mle_eval_is_weighted_sum,
    mono_prod, mono_tab, mono_value, mono_value_is_univariate, mono_weight, mono_weight_canon,
    pow_point, pow_point_len, univariate, vscale, weight_step};
use crate::ring::mono1;

verus! {

/// The monomial table of a point, most significant coordinate first: entry `i` is
/// the product of the coordinates whose bit of `i` is set.
pub fn monomial_partial_eq(point: &[Ext]) -> (r: Vec<Ext>)
    requires
        pow2(point@.len()) <= usize::MAX,
    ensures
        evals(r@) == mono_tab(evals(point@).reverse()),
{
    let ghost p = evals(point@);
    let mut table: Vec<Ext> = Vec::new();
    table.push(Ext::one());
    let mut k: usize = 0;
    proof {
        lemma2_to64();
        assert(p.take(0).reverse() =~= Seq::<E4>::empty());
        assert(evals(table@) =~= mono_tab(p.take(0).reverse()));
    }
    while k < point.len()
        invariant
            k <= point@.len(),
            p == evals(point@),
            pow2(point@.len()) <= usize::MAX,
            evals(table@) == mono_tab(p.take(k as int).reverse()),
        decreases point@.len() - k,
    {
        let coord = point[k];
        let ghost q = p.take(k as int).reverse();
        let ghost q2 = p.take(k + 1).reverse();
        let mut next: Vec<Ext> = Vec::new();
        let mut i: usize = 0;
        proof {
            pow2_le((k + 1) as nat, point@.len());
            lemma_pow2_unfold((k + 1) as nat);
            assert(q2[0] == p[k as int]);
            assert(q2.skip(1) =~= q);
            assert(table@.len() == evals(table@).len());
        }
        while i < table.len()
            invariant
                i <= table@.len(),
                table@.len() == pow2(q.len()),
                pow2(q2.len()) == 2 * pow2(q.len()),
                pow2(q2.len()) <= usize::MAX,
                evals(table@) == mono_tab(q),
                q2.len() > 0,
                q2[0] == coord@,
                q2.skip(1) == q,
                next@.len() == 2 * i,
                forall|j: int| 0 <= j < 2 * i ==> (#[trigger] next@[j])@ == mono_weight(q2, j),
            decreases table@.len() - i,
        {
            let v = table[i];
            let ghost before = next@;
            next.push(v);
            next.push(v.times(coord));
            proof {
                assert(evals(table@)[i as int] == v@);
                weight_step(q2, i as int);
                ext_canon(v);
                mul_one(v@);
                mul_comm(v@, coord@);
                assert forall|j: int| 0 <= j < 2 * i + 2 implies (#[trigger] next@[j])@
                    == mono_weight(q2, j) by {
                    if j < 2 * i {
                        assert(next@[j] == before[j]);
                    }
                }
            }
            i = i + 1;
        }
        proof {
            assert(evals(next@) =~= mono_tab(q2));
        }
        table = next;
        k = k + 1;
    }
    proof {
        assert(p.take(k as int) =~= p);
    }
    table
}

/// The value at `point`, most significant coordinate first, of the polynomial with
/// the given monomial coefficients.
pub fn mono_eval(coeffs: &[Felt], point: &[Ext]) -> (r: Ext)
    requires
        coeffs@.len() == pow2(point@.len()),
    ensures
        r@ == mono_value(lift(fvals(coeffs@)), evals(point@).reverse()),
{
    let n: usize = coeffs.len();
    let w = monomial_partial_eq(point);
    let ghost t = mono_tab(evals(point@).reverse());
    let ghost c = lift(fvals(coeffs@));
    let mut acc = Ext::zero();
    let mut i: usize = 0;
    proof {
        assert(w@.len() == evals(w@).len());
    }
    while i < n
        invariant
            i <= n,
            n == coeffs@.len(),
            w@.len() == coeffs@.len(),
            evals(w@) == t,
            c == lift(fvals(coeffs@)),
            acc@ == esum(i as nat, |j: int| t[j] * c[j]),
        decreases coeffs@.len() - i,
    {
        proof {
            assert(evals(w@)[i as int] == w@[i as int]@);
        }
        acc = acc.plus(w[i].times(Ext::from_base(coeffs[i])));
        i = i + 1;
    }
    acc
}

/// `[x^(2^(len - 1)), .., x^2, x]`: the point at which a monomial evaluation is the
/// univariate one.
pub fn map_to_pow(x: Ext, len: usize) -> (r: Vec<Ext>)
    ensures
        evals(r@) == pow_point(x@, len as nat).reverse(),
{
    let lsb = map_to_pow_lsb(x, len);
    let ghost p = pow_point(x@, len as nat);
    let mut r: Vec<Ext> = Vec::new();
    let mut i: usize = 0;
    proof {
        assert(lsb@.len() == evals(lsb@).len());
        pow_point_len(x@, len as nat);
    }
    while i < len
        invariant
            i <= len,
            lsb@.len() == len,
            p.len() == len,
            evals(lsb@) == p,
            r@.len() == i,
            forall|j: int| 0 <= j < i ==> (#[trigger] r@[j])@ == p.reverse()[j],
        decreases len - i,
    {
        proof {
            assert(evals(lsb@)[len - 1 - i] == lsb@[len - 1 - i]@);
        }
        r.push(lsb[len - 1 - i]);
        i = i + 1;
    }
    proof {
        assert(evals(r@) =~= p.reverse());
    }
    r
}

/// The product over the coordinates of `a * b + 1 - b`.
pub fn full_monomial_basis_eq(a: &[Ext], b: &[Ext]) -> (r: Ext)
    requires
        a@.len() == b@.len(),
    ensures
        r@ == mono_prod(evals(a@), evals(b@)),
{
    let ghost pa = evals(a@);
    let ghost pb = evals(b@);
    let mut acc = Ext::one();
    let mut i: usize = 0;
    proof {
        assert(pa.skip(0) =~= pa);
        assert(pb.skip(0) =~= pb);
        mono_prod_canon(pa, pb);
        mul_one(mono_prod(pa, pb));
    }
    while i < a.len()
        invariant
            i <= a@.len(),
            a@.len() == b@.len(),
            pa == evals(a@),
            pb == evals(b@),
            acc@ * mono_prod(pa.skip(i as int), pb.skip(i as int)) == mono_prod(pa, pb),
            acc@.canon(),
        decreases a@.len() - i,
    {
        let (x, y) = (a[i], b[i]);
        let ghost before = acc@;
        let factor = x.times(y).plus(Ext::one()).minus(y);
        acc = acc.times(factor);
        proof {
            let sa = pa.skip(i as int);
            let sb = pb.skip(i as int);
            assert(sa.skip(1) =~= pa.skip(i + 1));
            assert(sb.skip(1) =~= pb.skip(i + 1));
            assert(sa[0] == x@ && sb[0] == y@);
            add_sub_assoc(x@ * y@, e_one(), y@);
            add_comm(x@ * y@, e_one() - y@);
            mul_comm(x@, y@);
            assert(factor@ == mono1(x@, y@));
            mul_assoc(before, factor@, mono_prod(pa.skip(i + 1), pb.skip(i + 1)));
            mul_canon(before, factor@);
        }
        i = i + 1;
    }
    proof {
        mul_one(acc@);
    }
    acc
}

/// A product of monomial factors is canonical.
pub proof fn mono_prod_canon(a: Seq<E4>, b: Seq<E4>)
    ensures
        mono_prod(a, b).canon(),
{
    if a.len() > 0 {
        mul_canon(mono1(a[0], b[0]), mono_prod(a.skip(1), b.skip(1)));
    }
}

/// `[x, x^2, x^4, ..]`, one coordinate for each variable.
pub fn map_to_pow_lsb(x: Ext, len: usize) -> (r: Vec<Ext>)
    ensures
        evals(r@) == pow_point(x@, len as nat),
{
    let mut r: Vec<Ext> = Vec::new();
    let mut e = x;
    let ghost p = pow_point(x@, len as nat);
    let mut i: usize = 0;
    proof {
        pow_point_len(x@, len as nat);
        assert(p.skip(0) =~= p);
    }
    while i < len
        invariant
            i <= len,
            p.len() == len,
            p.skip(i as int) == pow_point(e@, (len - i) as nat),
            r@.len() == i,
            forall|j: int| 0 <= j < i ==> (#[trigger] r@[j])@ == p[j],
        decreases len - i,
    {
        proof {
            let t = pow_point(e@, (len - i) as nat);
            assert(t[0] == e@);
            assert(p.skip(i as int)[0] == p[i as int]);
            assert(t.skip(1) =~= pow_point(e@ * e@, (len - i - 1) as nat));
            assert(p.skip(i as int).skip(1) =~= p.skip(i + 1));
        }
        r.push(e);
        e = e.square();
        i = i + 1;
    }
    proof {
        assert(evals(r@) =~= p);
    }
    r
}

/// The monomial table of a point, least significant coordinate first.
pub fn mono_table_lsb(point_lsb: &[Ext]) -> (r: Vec<Ext>)
    requires
        pow2(point_lsb@.len()) <= usize::MAX,
    ensures
        evals(r@) == mono_tab(evals(point_lsb@)),
{
    let n: usize = point_lsb.len();
    let mut rev: Vec<Ext> = Vec::new();
    let mut i: usize = 0;
    while i < n
        invariant
            i <= n,
            n == point_lsb@.len(),
            rev@.len() == i,
            forall|j: int| 0 <= j < i ==> #[trigger] rev@[j] == point_lsb@[n - 1 - j],
        decreases n - i,
    {
        rev.push(point_lsb[n - 1 - i]);
        i = i + 1;
    }
    proof {
        assert(evals(rev@).reverse() =~= evals(point_lsb@));
    }
    monomial_partial_eq(rev.as_slice())
}

/// The monomial evaluation of a value vector at a point, least significant
/// coordinate first.
pub fn mono_eval_lsb(values: &[Ext], point_lsb: &[Ext]) -> (r: Ext)
    requires
        values@.len() == pow2(point_lsb@.len()),
    ensures
        r@ == mono_value(evals(values@), evals(point_lsb@)),
{
    let n: usize = values.len();
    let t = mono_table_lsb(point_lsb);
    let ghost gt = mono_tab(evals(point_lsb@));
    let ghost gv = evals(values@);
    let mut acc = Ext::zero();
    let mut i: usize = 0;
    proof {
        assert(t@.len() == evals(t@).len());
    }
    while i < n
        invariant
            i <= n,
            n == values@.len(),
            t@.len() == values@.len(),
            evals(t@) == gt,
            gv == evals(values@),
            acc@ == esum(i as nat, |j: int| gt[j] * gv[j]),
        decreases values@.len() - i,
    {
        proof {
            assert(evals(t@)[i as int] == t@[i as int]@);
            mul_comm(values@[i as int]@, t@[i as int]@);
        }
        acc = acc.plus(values[i].times(t[i]));
        i = i + 1;
    }
    acc
}

/// Evaluating coefficients at `map_to_pow(x)` in the monomial basis is evaluating
/// the univariate polynomial with those coefficients at `x`.
pub proof fn monomial_evaluation_is_univariate(coeffs: Seq<E4>, x: E4, n: nat)
    requires
        coeffs.len() == pow2(n),
        x.canon(),
    ensures
        mono_value(coeffs, pow_point(x, n).reverse().reverse()) == univariate(coeffs, x),
{
    assert(pow_point(x, n).reverse().reverse() =~= pow_point(x, n));
    mono_value_is_univariate(coeffs, x, n);
}

proof fn lemma_eval_mono_tab(a: Seq<E4>, b: Seq<E4>, k: E4)
    requires
        a.len() == b.len(),
        k.canon(),
    ensures
        mle_eval(vscale(k, mono_tab(a)), b) == k * mono_prod(a, b),
    decreases a.len(),
{
    lemma2_to64();
    if a.len() == 0 {
        assert(mono_tab(a)[0] == e_one());
    } else {
        fold_scale(k, mono_tab(a), b[0]);
        fold_mono_tab(a, b[0]);
        let m = mono1(a[0], b[0]);
        let rest = mono_tab(a.skip(1));
        assert(vscale(k, vscale(m, rest)) =~= vscale(k * m, rest)) by {
            assert forall|i: int| 0 <= i < rest.len() implies k * (m * (#[trigger] rest[i])) == (k
                * m) * rest[i] by {
                mul_assoc(k, m, rest[i]);
            }
        }
        mul_canon(k, m);
        lemma_eval_mono_tab(a.skip(1), b.skip(1), k * m);
        mul_assoc(k, m, mono_prod(a.skip(1), b.skip(1)));
    }
}

proof fn lemma_mono_tab_canon(a: Seq<E4>)
    ensures
        all_canon(mono_tab(a)),
{
    assert forall|i: int| 0 <= i < mono_tab(a).len() implies (#[trigger] mono_tab(a)[i]).canon() by {
        mono_weight_canon(a, i);
    }
}

/// The closed form of the monomial equality polynomial is the inner product of the
/// monomial table of `a` with the Lagrange table of `b`.
pub proof fn closed_form_matches_tables(a: Seq<E4>, b: Seq<E4>)
    requires
        a.len() == b.len(),
    ensures
        mono_prod(a, b) == dot(eq_tab(b), mono_tab(a)),
        mono_prod(a, b) == mle_eval(mono_tab(a), b),
{
    lemma_mono_tab_canon(a);
    lemma_eval_mono_tab(a, b, e_one());
    assert(vscale(e_one(), mono_tab(a)) =~= mono_tab(a)) by {
        assert forall|i: int| 0 <= i < mono_tab(a).len() implies e_one() * (#[trigger] mono_tab(
            a,
        )[i]) == mono_tab(a)[i] by {
            mul_one(mono_tab(a)[i]);
        }
    }
    mono_prod_canon(a, b);
    mul_one(mono_prod(a, b));
    mle_eval_is_weighted_sum(mono_tab(a), b);
}

} // verus!
