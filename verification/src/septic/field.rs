//! The septic extension of the KoalaBear field, `F[z] / (z^7 + 2z - 8)`.
//!
//! [`S7`] is the mathematical model of an element: seven residues, lowest degree first.
//! Its `+`, `-` and `*` are the operations of the extension, and the proof functions
//! below are laws of a commutative ring.
use vstd::prelude::*;
use vstd::arithmetic::div_mod::{lemma_fundamental_div_mod, lemma_mod_multiples_vanish,
    lemma_small_mod};
use crate::felt::{canonical, order, reduce};

verus! {

/// An element of the extension: the residues of `1, z, .., z^6`.
pub struct S7 {
    pub c0: int,
    pub c1: int,
    pub c2: int,
    pub c3: int,
    pub c4: int,
    pub c5: int,
    pub c6: int,
}

/// The sum of two integer polynomials of degree below seven.
pub open spec fn poly_add(a: S7, b: S7) -> S7 {
    S7 {
        c0: a.c0 + b.c0,
        c1: a.c1 + b.c1,
        c2: a.c2 + b.c2,
        c3: a.c3 + b.c3,
        c4: a.c4 + b.c4,
        c5: a.c5 + b.c5,
        c6: a.c6 + b.c6,
    }
}

/// The difference of two integer polynomials of degree below seven.
pub open spec fn poly_sub(a: S7, b: S7) -> S7 {
    S7 {
        c0: a.c0 - b.c0,
        c1: a.c1 - b.c1,
        c2: a.c2 - b.c2,
        c3: a.c3 - b.c3,
        c4: a.c4 - b.c4,
        c5: a.c5 - b.c5,
        c6: a.c6 - b.c6,
    }
}

/// An integer polynomial times a number.
pub open spec fn poly_scale(k: int, a: S7) -> S7 {
    S7 {
        c0: k * a.c0,
        c1: k * a.c1,
        c2: k * a.c2,
        c3: k * a.c3,
        c4: k * a.c4,
        c5: k * a.c5,
        c6: k * a.c6,
    }
}

/// An integer polynomial times `z`, modulo `z^7 + 2z - 8`.
pub open spec fn poly_shift(a: S7) -> S7 {
    S7 {
        c0: 8 * a.c6,
        c1: a.c0 - 2 * a.c6,
        c2: a.c1,
        c3: a.c2,
        c4: a.c3,
        c5: a.c4,
        c6: a.c5,
    }
}

/// An integer polynomial times `z^k`, modulo `z^7 + 2z - 8`.
pub open spec fn poly_shifts(a: S7, k: nat) -> S7
    decreases k,
{
    if k == 0 {
        a
    } else {
        poly_shift(poly_shifts(a, (k - 1) as nat))
    }
}

/// The sum of `x0, .., x6` weighted by the coefficients of `a`.
pub open spec fn poly_comb(a: S7, x0: S7, x1: S7, x2: S7, x3: S7, x4: S7, x5: S7, x6: S7) -> S7 {
    let t6 = poly_scale(a.c6, x6);
    let t5 = poly_add(poly_scale(a.c5, x5), t6);
    let t4 = poly_add(poly_scale(a.c4, x4), t5);
    let t3 = poly_add(poly_scale(a.c3, x3), t4);
    let t2 = poly_add(poly_scale(a.c2, x2), t3);
    let t1 = poly_add(poly_scale(a.c1, x1), t2);
    let t0 = poly_add(poly_scale(a.c0, x0), t1);
    t0
}

/// The product of two integer polynomials modulo `z^7 + 2z - 8`: the coefficients of `a`
/// weight `b, z * b, .., z^6 * b`.
pub open spec fn poly_mul(a: S7, b: S7) -> S7 {
    poly_comb(
        a,
        b,
        poly_shifts(b, 1),
        poly_shifts(b, 2),
        poly_shifts(b, 3),
        poly_shifts(b, 4),
        poly_shifts(b, 5),
        poly_shifts(b, 6),
    )
}

/// Every coefficient reduced modulo the field order.
pub open spec fn poly_reduce(a: S7) -> S7 {
    S7 {
        c0: reduce(a.c0),
        c1: reduce(a.c1),
        c2: reduce(a.c2),
        c3: reduce(a.c3),
        c4: reduce(a.c4),
        c5: reduce(a.c5),
        c6: reduce(a.c6),
    }
}

impl S7 {
    /// Whether every coefficient is a canonical residue.
    pub open spec fn canon(self) -> bool {
        &&& canonical(self.c0)
        &&& canonical(self.c1)
        &&& canonical(self.c2)
        &&& canonical(self.c3)
        &&& canonical(self.c4)
        &&& canonical(self.c5)
        &&& canonical(self.c6)
    }

    /// Addition in the extension.
    #[verifier::opaque]
    pub open spec fn spec_add(self, other: S7) -> S7 {
        poly_reduce(poly_add(self, other))
    }

    /// Subtraction in the extension.
    #[verifier::opaque]
    pub open spec fn spec_sub(self, other: S7) -> S7 {
        poly_reduce(poly_sub(self, other))
    }

    /// Multiplication in the extension.
    #[verifier::opaque]
    pub open spec fn spec_mul(self, other: S7) -> S7 {
        poly_reduce(poly_mul(self, other))
    }
}

/// The embedding of a residue of the base field.
pub open spec fn s_embed(x: int) -> S7 {
    S7 { c0: x, c1: 0, c2: 0, c3: 0, c4: 0, c5: 0, c6: 0 }
}

/// The additive identity.
pub open spec fn s_zero() -> S7 {
    s_embed(0)
}

/// The multiplicative identity.
pub open spec fn s_one() -> S7 {
    s_embed(1)
}

/// The generator `z`.
pub open spec fn s_gen() -> S7 {
    S7 { c0: 0, c1: 1, c2: 0, c3: 0, c4: 0, c5: 0, c6: 0 }
}

/// The `n`-th power of an element.
pub open spec fn s_pow(x: S7, n: nat) -> S7
    decreases n,
{
    if n == 0 {
        s_one()
    } else {
        s_pow(x, (n - 1) as nat) * x
    }
}

/// The coefficients of a product, written out.
pub open spec fn poly_product(a: S7, b: S7) -> S7 {
    S7 {
        c0: (a.c0 * b.c0) + 8 * (a.c1 * b.c6 + a.c2 * b.c5 + a.c3 * b.c4 + a.c4 * b.c3 + a.c5 * b.c2 + a.c6 * b.c1),
        c1: (a.c0 * b.c1 + a.c1 * b.c0) + 8 * (a.c2 * b.c6 + a.c3 * b.c5 + a.c4 * b.c4 + a.c5 * b.c3 + a.c6 * b.c2) - 2 * (a.c1 * b.c6 + a.c2 * b.c5 + a.c3 * b.c4 + a.c4 * b.c3 + a.c5 * b.c2 + a.c6 * b.c1),
        c2: (a.c0 * b.c2 + a.c1 * b.c1 + a.c2 * b.c0) + 8 * (a.c3 * b.c6 + a.c4 * b.c5 + a.c5 * b.c4 + a.c6 * b.c3) - 2 * (a.c2 * b.c6 + a.c3 * b.c5 + a.c4 * b.c4 + a.c5 * b.c3 + a.c6 * b.c2),
        c3: (a.c0 * b.c3 + a.c1 * b.c2 + a.c2 * b.c1 + a.c3 * b.c0) + 8 * (a.c4 * b.c6 + a.c5 * b.c5 + a.c6 * b.c4) - 2 * (a.c3 * b.c6 + a.c4 * b.c5 + a.c5 * b.c4 + a.c6 * b.c3),
        c4: (a.c0 * b.c4 + a.c1 * b.c3 + a.c2 * b.c2 + a.c3 * b.c1 + a.c4 * b.c0) + 8 * (a.c5 * b.c6 + a.c6 * b.c5) - 2 * (a.c4 * b.c6 + a.c5 * b.c5 + a.c6 * b.c4),
        c5: (a.c0 * b.c5 + a.c1 * b.c4 + a.c2 * b.c3 + a.c3 * b.c2 + a.c4 * b.c1 + a.c5 * b.c0) + 8 * (a.c6 * b.c6) - 2 * (a.c5 * b.c6 + a.c6 * b.c5),
        c6: (a.c0 * b.c6 + a.c1 * b.c5 + a.c2 * b.c4 + a.c3 * b.c3 + a.c4 * b.c2 + a.c5 * b.c1 + a.c6 * b.c0) - 2 * (a.c6 * b.c6),
    }
}

proof fn lemma_d1(a: int, x: int)
    ensures
        a * (8 * x) == 8 * (a * x),
{
    assert(a * (8 * x) == 8 * (a * x)) by (nonlinear_arith);
}

proof fn lemma_d2(a: int, x: int, y: int)
    ensures
        a * (8 * x - 2 * y) == 8 * (a * x) - 2 * (a * y),
{
    assert(a * (8 * x - 2 * y) == 8 * (a * x) - 2 * (a * y)) by (nonlinear_arith);
}

proof fn lemma_d3(a: int, x: int, y: int)
    ensures
        a * (x - 2 * y) == a * x - 2 * (a * y),
{
    assert(a * (x - 2 * y) == a * x - 2 * (a * y)) by (nonlinear_arith);
}

proof fn lemma_shifts(b: S7)
    ensures
        poly_shifts(b, 1) == (S7 { c0: 8 * b.c6, c1: b.c0 - 2 * b.c6, c2: b.c1, c3: b.c2, c4: b.c3, c5: b.c4, c6: b.c5 }),
        poly_shifts(b, 2) == (S7 { c0: 8 * b.c5, c1: 8 * b.c6 - 2 * b.c5, c2: b.c0 - 2 * b.c6, c3: b.c1, c4: b.c2, c5: b.c3, c6: b.c4 }),
        poly_shifts(b, 3) == (S7 { c0: 8 * b.c4, c1: 8 * b.c5 - 2 * b.c4, c2: 8 * b.c6 - 2 * b.c5, c3: b.c0 - 2 * b.c6, c4: b.c1, c5: b.c2, c6: b.c3 }),
        poly_shifts(b, 4) == (S7 { c0: 8 * b.c3, c1: 8 * b.c4 - 2 * b.c3, c2: 8 * b.c5 - 2 * b.c4, c3: 8 * b.c6 - 2 * b.c5, c4: b.c0 - 2 * b.c6, c5: b.c1, c6: b.c2 }),
        poly_shifts(b, 5) == (S7 { c0: 8 * b.c2, c1: 8 * b.c3 - 2 * b.c2, c2: 8 * b.c4 - 2 * b.c3, c3: 8 * b.c5 - 2 * b.c4, c4: 8 * b.c6 - 2 * b.c5, c5: b.c0 - 2 * b.c6, c6: b.c1 }),
        poly_shifts(b, 6) == (S7 { c0: 8 * b.c1, c1: 8 * b.c2 - 2 * b.c1, c2: 8 * b.c3 - 2 * b.c2, c3: 8 * b.c4 - 2 * b.c3, c4: 8 * b.c5 - 2 * b.c4, c5: 8 * b.c6 - 2 * b.c5, c6: b.c0 - 2 * b.c6 }),
{
    reveal_with_fuel(poly_shifts, 7);
}

/// The product of two integer polynomials has the coefficients written out.
pub proof fn lemma_mul_formula(a: S7, b: S7)
    ensures
        poly_mul(a, b) == poly_product(a, b),
{
    lemma_shifts(b);
    lemma_d1(a.c1, b.c6);
    lemma_d3(a.c1, b.c0, b.c6);
    lemma_d1(a.c2, b.c5);
    lemma_d2(a.c2, b.c6, b.c5);
    lemma_d3(a.c2, b.c0, b.c6);
    lemma_d1(a.c3, b.c4);
    lemma_d2(a.c3, b.c5, b.c4);
    lemma_d2(a.c3, b.c6, b.c5);
    lemma_d3(a.c3, b.c0, b.c6);
    lemma_d1(a.c4, b.c3);
    lemma_d2(a.c4, b.c4, b.c3);
    lemma_d2(a.c4, b.c5, b.c4);
    lemma_d2(a.c4, b.c6, b.c5);
    lemma_d3(a.c4, b.c0, b.c6);
    lemma_d1(a.c5, b.c2);
    lemma_d2(a.c5, b.c3, b.c2);
    lemma_d2(a.c5, b.c4, b.c3);
    lemma_d2(a.c5, b.c5, b.c4);
    lemma_d2(a.c5, b.c6, b.c5);
    lemma_d3(a.c5, b.c0, b.c6);
    lemma_d1(a.c6, b.c1);
    lemma_d2(a.c6, b.c2, b.c1);
    lemma_d2(a.c6, b.c3, b.c2);
    lemma_d2(a.c6, b.c4, b.c3);
    lemma_d2(a.c6, b.c5, b.c4);
    lemma_d2(a.c6, b.c6, b.c5);
    lemma_d3(a.c6, b.c0, b.c6);
}

proof fn lemma_poly_mul_comm(a: S7, b: S7)
    ensures
        poly_mul(a, b) == poly_mul(b, a),
{
    lemma_mul_formula(a, b);
    lemma_mul_formula(b, a);
    broadcast use vstd::arithmetic::mul::lemma_mul_is_commutative;
}

proof fn lemma_scale_dist(k: int, q: int, a: int, x: S7)
    ensures
        poly_scale(k * q + a, x) == poly_add(poly_scale(k, poly_scale(q, x)), poly_scale(a, x)),
{
    lemma_dist1(k, q, a, x.c0);
    lemma_dist1(k, q, a, x.c1);
    lemma_dist1(k, q, a, x.c2);
    lemma_dist1(k, q, a, x.c3);
    lemma_dist1(k, q, a, x.c4);
    lemma_dist1(k, q, a, x.c5);
    lemma_dist1(k, q, a, x.c6);
}

proof fn lemma_dist1(k: int, q: int, a: int, x: int)
    ensures
        (k * q + a) * x == k * (q * x) + a * x,
{
    assert((k * q + a) * x == k * (q * x) + a * x) by (nonlinear_arith);
}

proof fn lemma_scale_add(k: int, x: S7, y: S7)
    ensures
        poly_scale(k, poly_add(x, y)) == poly_add(poly_scale(k, x), poly_scale(k, y)),
{
    lemma_dist2(k, x.c0, y.c0);
    lemma_dist2(k, x.c1, y.c1);
    lemma_dist2(k, x.c2, y.c2);
    lemma_dist2(k, x.c3, y.c3);
    lemma_dist2(k, x.c4, y.c4);
    lemma_dist2(k, x.c5, y.c5);
    lemma_dist2(k, x.c6, y.c6);
}

proof fn lemma_dist2(k: int, x: int, y: int)
    ensures
        k * (x + y) == k * x + k * y,
{
    assert(k * (x + y) == k * x + k * y) by (nonlinear_arith);
}

proof fn lemma_add_swap(a: S7, b: S7, c: S7, d: S7)
    ensures
        poly_add(poly_add(a, b), poly_add(c, d)) == poly_add(poly_add(a, c), poly_add(b, d)),
{
}

proof fn lemma_comb_linear(k: int, q: S7, a: S7, x0: S7, x1: S7, x2: S7, x3: S7, x4: S7, x5: S7, x6: S7)
    ensures
        poly_comb(poly_add(poly_scale(k, q), a), x0, x1, x2, x3, x4, x5, x6) == poly_add(
            poly_scale(k, poly_comb(q, x0, x1, x2, x3, x4, x5, x6)),
            poly_comb(a, x0, x1, x2, x3, x4, x5, x6),
        ),
{
    let p6 = poly_scale(q.c6, x6);
    let r6 = poly_scale(a.c6, x6);
    lemma_scale_dist(k, q.c6, a.c6, x6);
    let u5 = poly_scale(q.c5, x5);
    let v5 = poly_scale(a.c5, x5);
    let p5 = poly_add(u5, p6);
    let r5 = poly_add(v5, r6);
    lemma_scale_dist(k, q.c5, a.c5, x5);
    lemma_scale_add(k, u5, p6);
    lemma_add_swap(poly_scale(k, u5), v5, poly_scale(k, p6), r6);
    let u4 = poly_scale(q.c4, x4);
    let v4 = poly_scale(a.c4, x4);
    let p4 = poly_add(u4, p5);
    let r4 = poly_add(v4, r5);
    lemma_scale_dist(k, q.c4, a.c4, x4);
    lemma_scale_add(k, u4, p5);
    lemma_add_swap(poly_scale(k, u4), v4, poly_scale(k, p5), r5);
    let u3 = poly_scale(q.c3, x3);
    let v3 = poly_scale(a.c3, x3);
    let p3 = poly_add(u3, p4);
    let r3 = poly_add(v3, r4);
    lemma_scale_dist(k, q.c3, a.c3, x3);
    lemma_scale_add(k, u3, p4);
    lemma_add_swap(poly_scale(k, u3), v3, poly_scale(k, p4), r4);
    let u2 = poly_scale(q.c2, x2);
    let v2 = poly_scale(a.c2, x2);
    let p2 = poly_add(u2, p3);
    let r2 = poly_add(v2, r3);
    lemma_scale_dist(k, q.c2, a.c2, x2);
    lemma_scale_add(k, u2, p3);
    lemma_add_swap(poly_scale(k, u2), v2, poly_scale(k, p3), r3);
    let u1 = poly_scale(q.c1, x1);
    let v1 = poly_scale(a.c1, x1);
    let p1 = poly_add(u1, p2);
    let r1 = poly_add(v1, r2);
    lemma_scale_dist(k, q.c1, a.c1, x1);
    lemma_scale_add(k, u1, p2);
    lemma_add_swap(poly_scale(k, u1), v1, poly_scale(k, p2), r2);
    let u0 = poly_scale(q.c0, x0);
    let v0 = poly_scale(a.c0, x0);
    let p0 = poly_add(u0, p1);
    let r0 = poly_add(v0, r1);
    lemma_scale_dist(k, q.c0, a.c0, x0);
    lemma_scale_add(k, u0, p1);
    lemma_add_swap(poly_scale(k, u0), v0, poly_scale(k, p1), r1);
}

proof fn lemma_mul_shift(k: int, q: S7, a: S7, b: S7)
    ensures
        poly_mul(poly_add(poly_scale(k, q), a), b) == poly_add(
            poly_scale(k, poly_mul(q, b)),
            poly_mul(a, b),
        ),
{
    lemma_comb_linear(
        k,
        q,
        a,
        b,
        poly_shifts(b, 1),
        poly_shifts(b, 2),
        poly_shifts(b, 3),
        poly_shifts(b, 4),
        poly_shifts(b, 5),
        poly_shifts(b, 6),
    );
}

proof fn lemma_shift_add(x: S7, y: S7)
    ensures
        poly_shift(poly_add(x, y)) == poly_add(poly_shift(x), poly_shift(y)),
{
}

proof fn lemma_shift_scale(k: int, x: S7)
    ensures
        poly_shift(poly_scale(k, x)) == poly_scale(k, poly_shift(x)),
{
    lemma_d1(k, x.c6);
    lemma_d3(k, x.c0, x.c6);
}

proof fn lemma_shift_comb(a: S7, x0: S7, x1: S7, x2: S7, x3: S7, x4: S7, x5: S7, x6: S7)
    ensures
        poly_shift(poly_comb(a, x0, x1, x2, x3, x4, x5, x6)) == poly_comb(
            a,
            poly_shift(x0),
            poly_shift(x1),
            poly_shift(x2),
            poly_shift(x3),
            poly_shift(x4),
            poly_shift(x5),
            poly_shift(x6),
        ),
{
    let t6 = poly_scale(a.c6, x6);
    lemma_shift_scale(a.c6, x6);
    let t5 = poly_add(poly_scale(a.c5, x5), t6);
    lemma_shift_scale(a.c5, x5);
    lemma_shift_add(poly_scale(a.c5, x5), t6);
    let t4 = poly_add(poly_scale(a.c4, x4), t5);
    lemma_shift_scale(a.c4, x4);
    lemma_shift_add(poly_scale(a.c4, x4), t5);
    let t3 = poly_add(poly_scale(a.c3, x3), t4);
    lemma_shift_scale(a.c3, x3);
    lemma_shift_add(poly_scale(a.c3, x3), t4);
    let t2 = poly_add(poly_scale(a.c2, x2), t3);
    lemma_shift_scale(a.c2, x2);
    lemma_shift_add(poly_scale(a.c2, x2), t3);
    let t1 = poly_add(poly_scale(a.c1, x1), t2);
    lemma_shift_scale(a.c1, x1);
    lemma_shift_add(poly_scale(a.c1, x1), t2);
    let t0 = poly_add(poly_scale(a.c0, x0), t1);
    lemma_shift_scale(a.c0, x0);
    lemma_shift_add(poly_scale(a.c0, x0), t1);
}

proof fn lemma_shifts_step(b: S7, k: nat)
    ensures
        poly_shifts(poly_shift(b), k) == poly_shift(poly_shifts(b, k)),
    decreases k,
{
    if k > 0 {
        lemma_shifts_step(b, (k - 1) as nat);
    }
}

proof fn lemma_shift_mul(a: S7, b: S7)
    ensures
        poly_shift(poly_mul(a, b)) == poly_mul(poly_shift(a), b),
{
    lemma_poly_mul_comm(a, b);
    lemma_poly_mul_comm(poly_shift(a), b);
    lemma_shift_comb(
        b,
        a,
        poly_shifts(a, 1),
        poly_shifts(a, 2),
        poly_shifts(a, 3),
        poly_shifts(a, 4),
        poly_shifts(a, 5),
        poly_shifts(a, 6),
    );
    lemma_shifts_step(a, 0);
    lemma_shifts_step(a, 1);
    lemma_shifts_step(a, 2);
    lemma_shifts_step(a, 3);
    lemma_shifts_step(a, 4);
    lemma_shifts_step(a, 5);
    lemma_shifts_step(a, 6);
}

proof fn lemma_shifts_mul(a: S7, b: S7, k: nat)
    ensures
        poly_shifts(poly_mul(a, b), k) == poly_mul(poly_shifts(a, k), b),
    decreases k,
{
    if k > 0 {
        lemma_shifts_mul(a, b, (k - 1) as nat);
        lemma_shift_mul(poly_shifts(a, (k - 1) as nat), b);
    }
}

proof fn lemma_comb_mul(a: S7, x0: S7, x1: S7, x2: S7, x3: S7, x4: S7, x5: S7, x6: S7, c: S7)
    ensures
        poly_mul(poly_comb(a, x0, x1, x2, x3, x4, x5, x6), c) == poly_comb(
            a,
            poly_mul(x0, c),
            poly_mul(x1, c),
            poly_mul(x2, c),
            poly_mul(x3, c),
            poly_mul(x4, c),
            poly_mul(x5, c),
            poly_mul(x6, c),
        ),
{
    let z = s_embed(0);
    let t6 = poly_scale(a.c6, x6);
    assert(poly_add(t6, z) == t6);
    lemma_mul_shift(a.c6, x6, z, c);
    lemma_mul_formula(z, c);
    assert(poly_mul(z, c) == z) by {
        broadcast use vstd::arithmetic::mul::group_mul_basics;
    }
    let t5 = poly_add(poly_scale(a.c5, x5), t6);
    lemma_mul_shift(a.c5, x5, t6, c);
    let t4 = poly_add(poly_scale(a.c4, x4), t5);
    lemma_mul_shift(a.c4, x4, t5, c);
    let t3 = poly_add(poly_scale(a.c3, x3), t4);
    lemma_mul_shift(a.c3, x3, t4, c);
    let t2 = poly_add(poly_scale(a.c2, x2), t3);
    lemma_mul_shift(a.c2, x2, t3, c);
    let t1 = poly_add(poly_scale(a.c1, x1), t2);
    lemma_mul_shift(a.c1, x1, t2, c);
    let t0 = poly_add(poly_scale(a.c0, x0), t1);
    lemma_mul_shift(a.c0, x0, t1, c);
}

proof fn lemma_poly_mul_assoc(a: S7, b: S7, c: S7)
    ensures
        poly_mul(poly_mul(a, b), c) == poly_mul(a, poly_mul(b, c)),
{
    lemma_comb_mul(
        a,
        b,
        poly_shifts(b, 1),
        poly_shifts(b, 2),
        poly_shifts(b, 3),
        poly_shifts(b, 4),
        poly_shifts(b, 5),
        poly_shifts(b, 6),
        c,
    );
    lemma_shifts_mul(b, c, 1);
    lemma_shifts_mul(b, c, 2);
    lemma_shifts_mul(b, c, 3);
    lemma_shifts_mul(b, c, 4);
    lemma_shifts_mul(b, c, 5);
    lemma_shifts_mul(b, c, 6);
}

spec fn poly_quot(a: S7) -> S7 {
    S7 {
        c0: a.c0 / order(),
        c1: a.c1 / order(),
        c2: a.c2 / order(),
        c3: a.c3 / order(),
        c4: a.c4 / order(),
        c5: a.c5 / order(),
        c6: a.c6 / order(),
    }
}

proof fn lemma_split(a: S7)
    ensures
        a == poly_add(poly_scale(order(), poly_quot(a)), poly_reduce(a)),
{
    lemma_fundamental_div_mod(a.c0, order());
    lemma_fundamental_div_mod(a.c1, order());
    lemma_fundamental_div_mod(a.c2, order());
    lemma_fundamental_div_mod(a.c3, order());
    lemma_fundamental_div_mod(a.c4, order());
    lemma_fundamental_div_mod(a.c5, order());
    lemma_fundamental_div_mod(a.c6, order());
}

proof fn lemma_reduce_multiple(q: S7, a: S7)
    ensures
        poly_reduce(poly_add(poly_scale(order(), q), a)) == poly_reduce(a),
{
    lemma_mod_multiples_vanish(q.c0, a.c0, order());
    lemma_mod_multiples_vanish(q.c1, a.c1, order());
    lemma_mod_multiples_vanish(q.c2, a.c2, order());
    lemma_mod_multiples_vanish(q.c3, a.c3, order());
    lemma_mod_multiples_vanish(q.c4, a.c4, order());
    lemma_mod_multiples_vanish(q.c5, a.c5, order());
    lemma_mod_multiples_vanish(q.c6, a.c6, order());
}

proof fn lemma_mul_congruent(a: S7, b: S7)
    ensures
        poly_reduce(poly_mul(poly_reduce(a), b)) == poly_reduce(poly_mul(a, b)),
        poly_reduce(poly_mul(b, poly_reduce(a))) == poly_reduce(poly_mul(b, a)),
{
    lemma_split(a);
    lemma_mul_shift(order(), poly_quot(a), poly_reduce(a), b);
    lemma_reduce_multiple(poly_mul(poly_quot(a), b), poly_mul(poly_reduce(a), b));
    lemma_poly_mul_comm(b, poly_reduce(a));
    lemma_poly_mul_comm(b, a);
}

proof fn lemma_add_congruent(a: S7, b: S7)
    ensures
        poly_reduce(poly_add(poly_reduce(a), b)) == poly_reduce(poly_add(a, b)),
        poly_reduce(poly_add(b, poly_reduce(a))) == poly_reduce(poly_add(b, a)),
        poly_reduce(poly_sub(poly_reduce(a), b)) == poly_reduce(poly_sub(a, b)),
        poly_reduce(poly_sub(b, poly_reduce(a))) == poly_reduce(poly_sub(b, a)),
{
    lemma_split(a);
    let q = poly_quot(a);
    let ra = poly_reduce(a);
    lemma_reduce_multiple(q, poly_add(ra, b));
    assert(poly_add(a, b) == poly_add(poly_scale(order(), q), poly_add(ra, b)));
    assert(poly_add(b, a) == poly_add(a, b));
    assert(poly_add(b, ra) == poly_add(ra, b));
    lemma_reduce_multiple(q, poly_sub(ra, b));
    assert(poly_sub(a, b) == poly_add(poly_scale(order(), q), poly_sub(ra, b)));
    let nq = poly_scale(-1, q);
    lemma_reduce_multiple(nq, poly_sub(b, ra));
    lemma_negated(q.c0);
    lemma_negated(q.c1);
    lemma_negated(q.c2);
    lemma_negated(q.c3);
    lemma_negated(q.c4);
    lemma_negated(q.c5);
    lemma_negated(q.c6);
    assert(poly_sub(b, a) == poly_add(poly_scale(order(), nq), poly_sub(b, ra)));
}

proof fn lemma_negated(q: int)
    ensures
        order() * (-1 * q) == -(order() * q),
{
    assert(order() * (-1 * q) == -(order() * q)) by (nonlinear_arith);
}

pub proof fn lemma_reduce_canon(a: S7)
    ensures
        poly_reduce(a).canon(),
        a.canon() ==> poly_reduce(a) == a,
{
    if a.canon() {
        lemma_small_mod(a.c0 as nat, order() as nat);
        lemma_small_mod(a.c1 as nat, order() as nat);
        lemma_small_mod(a.c2 as nat, order() as nat);
        lemma_small_mod(a.c3 as nat, order() as nat);
        lemma_small_mod(a.c4 as nat, order() as nat);
        lemma_small_mod(a.c5 as nat, order() as nat);
        lemma_small_mod(a.c6 as nat, order() as nat);
    }
}

/// A sum is canonical.
pub broadcast proof fn add_canon(a: S7, b: S7)
    ensures
        (#[trigger] (a + b)).canon(),
{
    reveal(S7::spec_add);
    lemma_reduce_canon(poly_add(a, b));
}

/// A difference is canonical.
pub broadcast proof fn sub_canon(a: S7, b: S7)
    ensures
        (#[trigger] (a - b)).canon(),
{
    reveal(S7::spec_sub);
    lemma_reduce_canon(poly_sub(a, b));
}

/// A product is canonical.
pub broadcast proof fn mul_canon(a: S7, b: S7)
    ensures
        (#[trigger] (a * b)).canon(),
{
    reveal(S7::spec_mul);
    lemma_reduce_canon(poly_mul(a, b));
}

/// Addition is commutative.
pub proof fn add_comm(a: S7, b: S7)
    ensures
        a + b == b + a,
{
    reveal(S7::spec_add);
    assert(poly_add(a, b) == poly_add(b, a));
}

/// Addition is associative.
pub proof fn add_assoc(a: S7, b: S7, c: S7)
    ensures
        (a + b) + c == a + (b + c),
{
    reveal(S7::spec_add);
    lemma_add_congruent(poly_add(a, b), c);
    lemma_add_congruent(poly_add(b, c), a);
    assert(poly_add(poly_add(a, b), c) == poly_add(a, poly_add(b, c)));
}

/// Zero is the additive identity.
pub proof fn add_zero(a: S7)
    requires
        a.canon(),
    ensures
        a + s_zero() == a,
        s_zero() + a == a,
{
    reveal(S7::spec_add);
    lemma_reduce_canon(a);
    assert(poly_add(a, s_zero()) == a);
    assert(poly_add(s_zero(), a) == a);
}

/// Subtraction undoes addition.
pub proof fn add_sub_cancel(a: S7, b: S7)
    requires
        a.canon(),
    ensures
        (a + b) - b == a,
{
    reveal(S7::spec_add);
    reveal(S7::spec_sub);
    lemma_add_congruent(poly_add(a, b), b);
    lemma_reduce_canon(a);
    assert(poly_sub(poly_add(a, b), b) == a);
}

/// Addition undoes subtraction.
pub proof fn sub_add_cancel(a: S7, b: S7)
    requires
        a.canon(),
    ensures
        (a - b) + b == a,
{
    reveal(S7::spec_add);
    reveal(S7::spec_sub);
    lemma_add_congruent(poly_sub(a, b), b);
    lemma_reduce_canon(a);
    assert(poly_add(poly_sub(a, b), b) == a);
}

/// A difference regroups with a sum.
pub proof fn sub_assoc(a: S7, b: S7, c: S7)
    ensures
        (a - b) - c == a - (b + c),
{
    reveal(S7::spec_add);
    reveal(S7::spec_sub);
    lemma_add_congruent(poly_sub(a, b), c);
    lemma_add_congruent(poly_add(b, c), a);
    assert(poly_sub(poly_sub(a, b), c) == poly_sub(a, poly_add(b, c)));
}

/// An element minus itself is zero.
pub proof fn sub_self(a: S7)
    ensures
        a - a == s_zero(),
{
    reveal(S7::spec_sub);
    assert(poly_sub(a, a) == s_zero());
    lemma_reduce_canon(s_zero());
}

/// Two differences that meet telescope.
pub proof fn sub_telescopes(a: S7, b: S7, c: S7)
    ensures
        (a - b) + (b - c) == a - c,
{
    reveal(S7::spec_add);
    reveal(S7::spec_sub);
    lemma_add_congruent(poly_sub(a, b), b - c);
    lemma_add_congruent(poly_sub(b, c), poly_sub(a, b));
    assert(poly_add(poly_sub(a, b), poly_sub(b, c)) == poly_sub(a, c));
}

/// The difference of two sums is the sum of the differences.
pub proof fn sub_of_sums(a: S7, b: S7, c: S7, d: S7)
    ensures
        (a + b) - (c + d) == (a - c) + (b - d),
{
    reveal(S7::spec_add);
    reveal(S7::spec_sub);
    lemma_add_congruent(poly_add(a, b), c + d);
    lemma_add_congruent(poly_add(c, d), poly_add(a, b));
    lemma_add_congruent(poly_sub(a, c), b - d);
    lemma_add_congruent(poly_sub(b, d), poly_sub(a, c));
    assert(poly_sub(poly_add(a, b), poly_add(c, d)) == poly_add(poly_sub(a, c), poly_sub(b, d)));
}

/// The difference of two differences is the difference of the differences.
pub proof fn sub_of_subs(a: S7, b: S7, c: S7, d: S7)
    ensures
        (a - b) - (c - d) == (a - c) - (b - d),
{
    reveal(S7::spec_sub);
    lemma_add_congruent(poly_sub(a, b), c - d);
    lemma_add_congruent(poly_sub(c, d), poly_sub(a, b));
    lemma_add_congruent(poly_sub(a, c), b - d);
    lemma_add_congruent(poly_sub(b, d), poly_sub(a, c));
    assert(poly_sub(poly_sub(a, b), poly_sub(c, d)) == poly_sub(poly_sub(a, c), poly_sub(b, d)));
}

/// Taking away zero changes nothing.
pub proof fn sub_zero(a: S7)
    requires
        a.canon(),
    ensures
        a - s_zero() == a,
{
    reveal(S7::spec_sub);
    lemma_reduce_canon(a);
    assert(poly_sub(a, s_zero()) == a);
}

/// A difference the other way round is negated.
pub proof fn sub_negated(a: S7, b: S7)
    ensures
        s_zero() - (a - b) == b - a,
{
    reveal(S7::spec_sub);
    lemma_add_congruent(poly_sub(a, b), s_zero());
    assert(poly_sub(s_zero(), poly_sub(a, b)) == poly_sub(b, a));
}

/// Multiplication is commutative.
pub proof fn mul_comm(a: S7, b: S7)
    ensures
        a * b == b * a,
{
    reveal(S7::spec_mul);
    lemma_poly_mul_comm(a, b);
}

/// Multiplication is associative.
pub proof fn mul_assoc(a: S7, b: S7, c: S7)
    ensures
        (a * b) * c == a * (b * c),
{
    reveal(S7::spec_mul);
    lemma_mul_congruent(poly_mul(a, b), c);
    lemma_mul_congruent(poly_mul(b, c), a);
    lemma_poly_mul_assoc(a, b, c);
}

/// Multiplication distributes over addition.
pub proof fn mul_add(a: S7, b: S7, c: S7)
    ensures
        a * (b + c) == a * b + a * c,
{
    reveal(S7::spec_mul);
    reveal(S7::spec_add);
    lemma_mul_congruent(poly_add(b, c), a);
    lemma_poly_mul_comm(a, poly_add(b, c));
    assert(poly_scale(1, b) == b);
    lemma_mul_shift(1, b, c, a);
    assert(poly_scale(1, poly_mul(b, a)) == poly_mul(b, a));
    lemma_poly_mul_comm(a, b);
    lemma_poly_mul_comm(a, c);
    lemma_add_congruent(poly_mul(a, b), poly_reduce(poly_mul(a, c)));
    lemma_add_congruent(poly_mul(a, c), poly_mul(a, b));
}

/// Multiplication distributes over subtraction.
pub proof fn mul_sub(a: S7, b: S7, c: S7)
    ensures
        a * (b - c) == a * b - a * c,
{
    let d = b - c;
    reveal(S7::spec_mul);
    reveal(S7::spec_sub);
    lemma_mul_congruent(poly_sub(b, c), a);
    lemma_poly_mul_comm(a, poly_sub(b, c));
    assert(poly_sub(b, c) == poly_add(poly_scale(-1, c), b));
    lemma_mul_shift(-1, c, b, a);
    assert(poly_add(poly_scale(-1, poly_mul(c, a)), poly_mul(b, a)) == poly_sub(
        poly_mul(b, a),
        poly_mul(c, a),
    ));
    lemma_poly_mul_comm(a, b);
    lemma_poly_mul_comm(a, c);
    lemma_add_congruent(poly_mul(a, b), poly_reduce(poly_mul(a, c)));
    lemma_add_congruent(poly_mul(a, c), poly_mul(a, b));
}

/// One is the multiplicative identity.
pub proof fn mul_one(a: S7)
    requires
        a.canon(),
    ensures
        a * s_one() == a,
        s_one() * a == a,
{
    reveal(S7::spec_mul);
    lemma_poly_mul_comm(a, s_one());
    lemma_mul_formula(s_one(), a);
    lemma_reduce_canon(a);
    broadcast use vstd::arithmetic::mul::group_mul_basics;

    assert(poly_product(s_one(), a) == a);
}

/// A product with zero is zero.
pub proof fn mul_zero(a: S7)
    ensures
        a * s_zero() == s_zero(),
        s_zero() * a == s_zero(),
{
    reveal(S7::spec_mul);
    lemma_poly_mul_comm(a, s_zero());
    lemma_mul_formula(s_zero(), a);
    lemma_reduce_canon(s_zero());
    broadcast use vstd::arithmetic::mul::group_mul_basics;

    assert(poly_product(s_zero(), a) == s_zero());
}

} // verus!
