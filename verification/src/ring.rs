//! Identities of the extension field that follow from the ring laws alone.
use vstd::prelude::*;
use crate::ext::{add_assoc, add_comm, add_sub_assoc, add_zero, e_one, e_zero, mul_add, mul_assoc,
    mul_comm, mul_one, mul_sub, mul_zero, sub_add_assoc, sub_add_cancel, sub_canon, sub_self, E4};

verus! {

/// The middle terms of a sum of two sums trade places.
pub proof fn add_swap(a: E4, b: E4, c: E4, d: E4)
    ensures
        (a + b) + (c + d) == (a + c) + (b + d),
{
    add_assoc(a, b, c + d);
    add_assoc(b, c, d);
    add_comm(b, c);
    add_assoc(c, b, d);
    add_assoc(a, c, b + d);
}

/// The middle factors of a product of two products trade places.
pub proof fn mul_swap(a: E4, b: E4, c: E4, d: E4)
    ensures
        (a * b) * (c * d) == (a * c) * (b * d),
{
    mul_assoc(a, b, c * d);
    mul_assoc(b, c, d);
    mul_comm(b, c);
    mul_assoc(c, b, d);
    mul_assoc(a, c, b * d);
}

/// The first two factors of a right-nested product trade places.
pub proof fn mul_left_comm(a: E4, b: E4, c: E4)
    ensures
        a * (b * c) == b * (a * c),
{
    mul_assoc(a, b, c);
    mul_comm(a, b);
    mul_assoc(b, a, c);
}

/// The product of two sums.
pub proof fn mul_foil(a: E4, b: E4, c: E4, d: E4)
    ensures
        (a + b) * (c + d) == (a * c + a * d) + (b * c + b * d),
{
    mul_add(c + d, a, b);
    mul_add(a, c, d);
    mul_add(b, c, d);
}

/// A sum with a difference regroups.
pub proof fn sub_add_comm(a: E4, b: E4, c: E4)
    ensures
        (a - b) + c == (a + c) - b,
{
    add_comm(a - b, c);
    add_sub_assoc(c, a, b);
    add_comm(c, a);
}

/// The difference of two sums is the sum of the differences.
pub proof fn sub_swap(a: E4, b: E4, c: E4, d: E4)
    ensures
        (a + b) - (c + d) == (a - c) + (b - d),
{
    sub_add_assoc(a + b, c, d);
    sub_add_comm(a, c, b);
    add_sub_assoc(a - c, b, d);
}

/// Linear interpolation between `lo` and `hi`.
pub open spec fn lerp(lo: E4, hi: E4, r: E4) -> E4 {
    lo + r * (hi - lo)
}

/// Interpolation is additive.
pub proof fn lerp_add(a: E4, b: E4, c: E4, d: E4, r: E4)
    ensures
        lerp(a + c, b + d, r) == lerp(a, b, r) + lerp(c, d, r),
{
    sub_swap(b, d, a, c);
    mul_add(r, b - a, d - c);
    add_swap(a, c, r * (b - a), r * (d - c));
}

/// Interpolation commutes with scaling.
pub proof fn lerp_scale(k: E4, a: E4, b: E4, r: E4)
    ensures
        lerp(k * a, k * b, r) == k * lerp(a, b, r),
{
    mul_sub(k, b, a);
    mul_left_comm(r, k, b - a);
    mul_add(k, a, r * (b - a));
}

/// Interpolation between equal ends is constant.
pub proof fn lerp_const(a: E4, r: E4)
    requires
        a.canon(),
    ensures
        lerp(a, a, r) == a,
{
    sub_self(a);
    mul_zero(r);
    add_zero(a);
}

/// Interpolation at zero and at one gives the two ends.
pub proof fn lerp_ends(lo: E4, hi: E4)
    requires
        lo.canon(),
        hi.canon(),
    ensures
        lerp(lo, hi, e_zero()) == lo,
        lerp(lo, hi, e_one()) == hi,
{
    mul_zero(hi - lo);
    add_zero(lo);
    sub_canon(hi, lo);
    mul_one(hi - lo);
    add_comm(lo, hi - lo);
    sub_add_cancel(hi, lo);
}

/// The product of two interpolations, by powers of the challenge.
pub proof fn lerp_product(wl: E4, wh: E4, fl: E4, fh: E4, r: E4)
    ensures
        lerp(wl, wh, r) * lerp(fl, fh, r) == (wl * fl + r * (wl * (fh - fl) + (wh - wl) * fl)) + (r
            * r) * ((wh - wl) * (fh - fl)),
{
    let dw = wh - wl;
    let df = fh - fl;
    mul_foil(wl, r * dw, fl, r * df);
    mul_left_comm(wl, r, df);
    mul_assoc(r, dw, fl);
    mul_swap(r, dw, r, df);
    let a = wl * fl;
    let b = r * (wl * df);
    let c = r * (dw * fl);
    let d = (r * r) * (dw * df);
    add_assoc(a + b, c, d);
    add_assoc(a, b, c);
    mul_add(r, wl * df, dw * fl);
}

/// The sum of the two end products, around the low product.
pub proof fn end_products(wl: E4, wh: E4, fl: E4, fh: E4)
    requires
        wh.canon(),
        fh.canon(),
    ensures
        wl * fl + wh * fh == ((wl * fl + wl * fl) + (wl * (fh - fl) + (wh - wl) * fl)) + (wh - wl)
            * (fh - fl),
{
    let dw = wh - wl;
    let df = fh - fl;
    sub_add_cancel(wh, wl);
    sub_add_cancel(fh, fl);
    add_comm(dw, wl);
    add_comm(df, fl);
    mul_foil(wl, dw, fl, df);
    let a = wl * fl;
    let b = wl * df;
    let c = dw * fl;
    let d = dw * df;
    add_assoc(a + b, c, d);
    add_assoc(a, b, c);
    add_assoc(a, a + (b + c), d);
    add_assoc(a, a, b + c);
}

/// The one-variable equality polynomial.
pub open spec fn eq1(x: E4, y: E4) -> E4 {
    x * y + (e_one() - x) * (e_one() - y)
}

/// The one-variable factor of a monomial weight folded at `y`.
pub open spec fn mono1(x: E4, y: E4) -> E4 {
    (e_one() - y) + y * x
}

/// Folding the pair `[1 - p, p]` gives the equality polynomial.
pub proof fn lerp_eq1(p: E4, r: E4)
    ensures
        lerp(e_one() - p, p, r) == eq1(p, r),
{
    let q = e_one() - p;
    // q + r * (p - q) == (q - r * q) + r * p
    mul_sub(r, p, q);
    add_sub_assoc(q, r * p, r * q);
    sub_add_comm(q, r * q, r * p);
    // q - r * q == q * (1 - r)
    sub_canon(e_one(), p);
    mul_one(q);
    mul_sub(q, e_one(), r);
    mul_comm(r, q);
    mul_comm(r, p);
    add_comm(q * (e_one() - r), p * r);
}

/// Folding the pair `[1, p]` gives the monomial factor.
pub proof fn lerp_mono1(p: E4, r: E4)
    ensures
        lerp(e_one(), p, r) == mono1(p, r),
{
    mul_sub(r, p, e_one());
    add_sub_assoc(e_one(), r * p, r * e_one());
    sub_add_comm(e_one(), r * e_one(), r * p);
    mul_sub(e_one(), e_one(), r);
    lemma_one_minus(r);
}

proof fn lemma_one_minus(r: E4)
    ensures
        e_one() - r * e_one() == e_one() - r,
{
    // Both sides are `1 * (1 - r)`.
    mul_sub(e_one(), e_one(), r);
    mul_comm(r, e_one());
    mul_one(e_one());
    sub_canon(e_one(), r);
    mul_one(e_one() - r);
}

} // verus!
