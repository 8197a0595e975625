//! The quartic extension is a field.
//!
//! Three has no square root among the residues, so `X^2` generates a field of two
//! coefficients, and `X^2` has no square root there. The norm of a nonzero element is then
//! a nonzero residue, and the element has an inverse.
use vstd::prelude::*;
use vstd::arithmetic::div_mod::{lemma_fundamental_div_mod, lemma_mod_bound,
    lemma_mod_multiples_basic, lemma_mod_multiples_vanish, lemma_mul_mod_noop,
    lemma_mul_mod_noop_left, lemma_small_mod};
use crate::ext::{e_one, e_zero, embed, mul_assoc, mul_canon, mul_comm, mul_one, mul_reduce, mul_zero,
    poly_mul, poly_reduce, E4};
use crate::felt::{canonical, order};
use crate::prime::{divides_a_factor, mpow, mpow_mul, mpow_range, power_of_three,
    residues_are_invertible};
use crate::septic::element::embed_product;
use crate::septic::field::{s_embed, s_pow};
use crate::septic::power::power_of_residue;

verus! {

/// Whether the field order divides `x`.
spec fn vanishes(x: int) -> bool {
    x % order() == 0
}

proof fn vanishing_multiple(x: int, k: int)
    requires
        vanishes(x),
    ensures
        vanishes(x * k),
{
    let p = order();
    lemma_fundamental_div_mod(x, p);
    let q = x / p;
    assert(x * k == (q * k) * p) by (nonlinear_arith)
        requires
            x == p * q,
    ;
    lemma_mod_multiples_basic(q * k, p);
}

proof fn vanishing_sum(x: int, y: int)
    requires
        vanishes(x),
        vanishes(y),
    ensures
        vanishes(x + y),
        vanishes(x - y),
{
    let p = order();
    lemma_fundamental_div_mod(x, p);
    lemma_fundamental_div_mod(y, p);
    let a = x / p;
    let b = y / p;
    assert(x + y == (a + b) * p) by (nonlinear_arith)
        requires
            x == p * a,
            y == p * b,
    ;
    assert(x - y == (a - b) * p) by (nonlinear_arith)
        requires
            x == p * a,
            y == p * b,
    ;
    lemma_mod_multiples_basic(a + b, p);
    lemma_mod_multiples_basic(a - b, p);
}

proof fn vanishing_factor(x: int, y: int)
    requires
        vanishes(x * y),
    ensures
        vanishes(x) || vanishes(y),
{
    let p = order();
    if !vanishes(x) {
        lemma_mod_bound(x, p);
        lemma_mul_mod_noop_left(x, y, p);
        divides_a_factor(x % p, y);
    }
}

proof fn powers_of_residues(c: int, n: nat)
    requires
        canonical(c),
    ensures
        s_pow(s_embed(c), n) == s_embed(mpow(c, n, order())),
    decreases n,
{
    if n == 0 {
        lemma_small_mod(1, order() as nat);
    } else {
        powers_of_residues(c, (n - 1) as nat);
        embed_product(mpow(c, (n - 1) as nat, order()), c);
    }
}

/// A nonzero residue to the number of nonzero residues is one.
proof fn power_by_group_order(c: int)
    requires
        0 < c < order(),
    ensures
        mpow(c, 2130706432, order()) == 1,
{
    let p = order();
    power_of_residue(c);
    powers_of_residues(c, p as nat);
    let t = mpow(c, 2130706432, p);
    mpow_range(c, 2130706432, p);
    assert(mpow(c, 2130706433, p) == (t * c) % p);
    assert((t * c) % p == c);
    lemma_fundamental_div_mod(t * c, p);
    let q = (t * c) / p;
    assert(c * (t - 1) == q * p) by (nonlinear_arith)
        requires
            t * c == p * q + c,
    ;
    lemma_mod_multiples_basic(q, p);
    divides_a_factor(c, t - 1);
    if t >= 1 {
        lemma_small_mod((t - 1) as nat, p as nat);
    } else {
        lemma_mod_multiples_vanish(-1, p - 1, p);
        lemma_small_mod((p - 1) as nat, p as nat);
    }
}

/// Three has no square root.
proof fn three_has_no_root(t: int)
    requires
        canonical(t),
    ensures
        (t * t) % order() != 3,
{
    let p = order();
    if (t * t) % p == 3 {
        if t == 0 {
            assert(t * t == 0) by (nonlinear_arith)
                requires
                    t == 0,
            ;
            lemma_small_mod(0, p as nat);
        }
        power_by_group_order(t);
        lemma_small_mod(t as nat, p as nat);
        lemma_small_mod(1, p as nat);
        assert(mpow(t, 0, p) == 1);
        assert(mpow(t, 1, p) == (1 * t) % p);
        assert(mpow(t, 2, p) == (mpow(t, 1, p) * t) % p);
        mpow_mul(t, 2, 1065353216, p);
        assert(mpow(t, 2, p) == 3);
        assert(2nat * 1065353216nat == 2130706432);
        power_of_three();
    }
}

/// No nonzero square is three times a square.
proof fn norm_vanishes(m: int, n: int)
    requires
        vanishes(m * m - 3 * (n * n)),
    ensures
        vanishes(m),
        vanishes(n),
{
    let p = order();
    if !vanishes(n) {
        lemma_mod_bound(n, p);
        let b = residues_are_invertible(n % p);
        let mb = m * b;
        let nb = n * b;
        lemma_mod_bound(mb, p);
        lemma_mul_mod_noop_left(n, b, p);
        let v = nb / p;
        lemma_fundamental_div_mod(nb, p);
        let c = (m * m - 3 * (n * n)) * (b * b);
        vanishing_multiple(m * m - 3 * (n * n), b * b);
        let w = c / p;
        lemma_fundamental_div_mod(c, p);
        assert(c == mb * mb - 3 * (nb * nb)) by (nonlinear_arith)
            requires
                c == (m * m - 3 * (n * n)) * (b * b),
                nb == n * b,
                mb == m * b,
        ;
        let k = w + 3 * (p * v * v + 2 * v);
        assert(mb * mb == p * k + 3) by (nonlinear_arith)
            requires
                mb * mb - 3 * (nb * nb) == p * w,
                nb == p * v + 1,
                k == w + 3 * (p * v * v + 2 * v),
        ;
        lemma_mul_mod_noop(mb, mb, p);
        lemma_mod_multiples_vanish(k, 3, p);
        lemma_small_mod(3, p as nat);
        three_has_no_root(mb % p);
    }
    vanishing_multiple(n, 3 * n);
    assert(n * (3 * n) == 3 * (n * n)) by (nonlinear_arith);
    vanishing_sum(m * m - 3 * (n * n), 3 * (n * n));
    vanishing_factor(m, m);
}

/// No nonzero square is minus three times a square.
proof fn sum_vanishes(m: int, n: int)
    requires
        vanishes(m * m + 3 * (n * n)),
    ensures
        vanishes(m),
        vanishes(n),
{
    let p = order();
    let i: int = 2113994754;
    let q: int = 2097414149;
    assert(i * i == p * q - 1);
    let x = i * m;
    vanishing_multiple(m * m + 3 * (n * n), -1);
    lemma_mod_multiples_basic(q * (m * m), p);
    assert((q * (m * m)) * p - m * m == x * x) by (nonlinear_arith)
        requires
            x == i * m,
            i * i == p * q - 1,
    ;
    vanishing_sum((q * (m * m)) * p, (m * m + 3 * (n * n)) * -1);
    assert((q * (m * m)) * p + (m * m + 3 * (n * n)) * -1 == x * x - 3 * (n * n));
    norm_vanishes(x, n);
    lemma_small_mod(i as nat, p as nat);
    vanishing_factor(i, m);
}

/// The coefficients of `1` and `X^2` of the product of an element and its conjugate, in
/// which the sign of `X` is turned.
spec fn half_norm(x: E4) -> (int, int) {
    (
        x.c0 * x.c0 + 3 * (x.c2 * x.c2) - 6 * (x.c1 * x.c3),
        2 * (x.c0 * x.c2) - x.c1 * x.c1 - 3 * (x.c3 * x.c3),
    )
}

proof fn regroup(x: int, y: int, z: int, w: int)
    ensures
        (x * y) * (z * w) == (x * z) * (y * w),
{
    assert((x * y) * (z * w) == (x * z) * (y * w)) by (nonlinear_arith);
}

proof fn difference_product(x: int, y: int, u: int, v: int)
    ensures
        (x - 3 * y) * (u - v) == x * u - x * v - 3 * (y * u) + 3 * (y * v),
        (x - 3 * y) * (x - 3 * y) == x * x - 6 * (x * y) + 9 * (y * y),
        (u - v) * (u - v) == u * u - 2 * (u * v) + v * v,
{
    assert((x - 3 * y) * (u - v) == x * u - x * v - 3 * (y * u) + 3 * (y * v)) by (nonlinear_arith);
    assert((x - 3 * y) * (x - 3 * y) == x * x - 6 * (x * y) + 9 * (y * y)) by (nonlinear_arith);
    assert((u - v) * (u - v) == u * u - 2 * (u * v) + v * v) by (nonlinear_arith);
}

proof fn sum_product(x: int, y: int, z: int, u: int, v: int)
    ensures
        (x + 3 * y - 6 * z) * (u + 3 * v) == x * u + 3 * (x * v) + 3 * (y * u) + 9 * (y * v) - 6 * (z
            * u) - 18 * (z * v),
        (2 * x - u - 3 * v) * (u + 3 * v) == 2 * (x * u) + 6 * (x * v) - u * u - 6 * (u * v) - 9 * (v
            * v),
        (x + 3 * y - 6 * z) * (2 * z) == 2 * (x * z) + 6 * (y * z) - 12 * (z * z),
        (2 * x - u - 3 * v) * (3 * (2 * z)) == 12 * (x * z) - 6 * (z * u) - 18 * (z * v),
{
    assert((x + 3 * y - 6 * z) * (u + 3 * v) == x * u + 3 * (x * v) + 3 * (y * u) + 9 * (y * v) - 6
        * (z * u) - 18 * (z * v)) by (nonlinear_arith);
    assert((2 * x - u - 3 * v) * (u + 3 * v) == 2 * (x * u) + 6 * (x * v) - u * u - 6 * (u * v) - 9
        * (v * v)) by (nonlinear_arith);
    assert((x + 3 * y - 6 * z) * (2 * z) == 2 * (x * z) + 6 * (y * z) - 12 * (z * z))
        by (nonlinear_arith);
    assert((2 * x - u - 3 * v) * (3 * (2 * z)) == 12 * (x * z) - 6 * (z * u) - 18 * (z * v))
        by (nonlinear_arith);
}

/// For an element with the coefficients `a + c X^2` and `(b + d X^2) X`, the square of the
/// product of the first with the conjugate of the second.
proof fn square_of_ratio(a: int, b: int, c: int, d: int)
    ensures
        ({
            let e = a * b - 3 * (c * d);
            let f = c * b - a * d;
            let k = b * b - 3 * (d * d);
            let s = b * b + 3 * (d * d);
            let r = 2 * (b * d);
            let m = a * a + 3 * (c * c) - 6 * (b * d);
            let n = 2 * (a * c) - b * b - 3 * (d * d);
            &&& e * e + 3 * (f * f) == m * s - n * (3 * r)
            &&& 2 * (e * f) == n * s - m * r + k * k
        }),
{
    difference_product(a * b, c * d, c * b, a * d);
    difference_product(b * b, d * d, 0, 0);
    sum_product(a * a, c * c, b * d, b * b, d * d);
    sum_product(a * c, c * c, b * d, b * b, d * d);
    regroup(a, b, a, b);
    regroup(c, d, c, d);
    regroup(c, b, c, b);
    regroup(a, d, a, d);
    regroup(a, b, c, d);
    assert((c * b) * (a * d) == (a * c) * (b * d)) by (nonlinear_arith);
    regroup(a, b, c, b);
    regroup(a, b, a, d);
    regroup(c, d, c, b);
    assert(d * b == b * d) by (nonlinear_arith);
    assert((c * d) * (a * d) == (a * c) * (d * d)) by (nonlinear_arith);
    regroup(b, d, b, d);
}

proof fn half_norm_vanishes(x: E4)
    requires
        vanishes(half_norm(x).0),
        vanishes(half_norm(x).1),
    ensures
        vanishes(x.c0),
        vanishes(x.c1),
        vanishes(x.c2),
        vanishes(x.c3),
{
    let (a, b, c, d) = (x.c0, x.c1, x.c2, x.c3);
    let (m, n) = half_norm(x);
    let e = a * b - 3 * (c * d);
    let f = c * b - a * d;
    let k = b * b - 3 * (d * d);
    let s = b * b + 3 * (d * d);
    let r = 2 * (b * d);
    square_of_ratio(a, b, c, d);
    vanishing_multiple(m, s);
    vanishing_multiple(n, 3 * r);
    vanishing_sum(m * s, n * (3 * r));
    sum_vanishes(e, f);
    vanishing_multiple(e, 2 * f);
    assert(e * (2 * f) == 2 * (e * f)) by (nonlinear_arith);
    vanishing_multiple(n, s);
    vanishing_multiple(m, r);
    vanishing_sum(n * s, m * r);
    vanishing_sum(2 * (e * f), n * s - m * r);
    assert(vanishes(k * k));
    vanishing_factor(k, k);
    norm_vanishes(b, d);
    vanishing_multiple(b, 6 * d);
    assert(b * (6 * d) == 6 * (b * d)) by (nonlinear_arith);
    vanishing_sum(m, 6 * (b * d));
    sum_vanishes(a, c);
}

spec fn conjugate(x: E4) -> E4 {
    E4 { c0: x.c0, c1: -x.c1, c2: x.c2, c3: -x.c3 }
}

proof fn product_with_conjugate(x: E4)
    ensures
        ({
            let (m, n) = half_norm(x);
            x * conjugate(x) == poly_reduce(E4 { c0: m, c1: 0, c2: n, c3: 0 })
        }),
{
    reveal(E4::spec_mul);
    let (a, b, c, d) = (x.c0, x.c1, x.c2, x.c3);
    let t = poly_mul(x, conjugate(x));
    assert(t.c0 == half_norm(x).0) by (nonlinear_arith)
        requires
            t.c0 == a * a + 3 * (b * -d + c * c + d * -b),
            half_norm(x).0 == a * a + 3 * (c * c) - 6 * (b * d),
    ;
    assert(t.c1 == 0) by (nonlinear_arith)
        requires
            t.c1 == a * -b + b * a + 3 * (c * -d + d * c),
    ;
    assert(t.c2 == half_norm(x).1) by (nonlinear_arith)
        requires
            t.c2 == a * c + b * -b + c * a + 3 * (d * -d),
            half_norm(x).1 == 2 * (a * c) - b * b - 3 * (d * d),
    ;
    assert(t.c3 == 0) by (nonlinear_arith)
        requires
            t.c3 == a * -d + b * c + c * -b + d * a,
    ;
}

proof fn product_of_halves(m: int, n: int)
    ensures
        (E4 { c0: m, c1: 0, c2: n, c3: 0 }) * (E4 { c0: m, c1: 0, c2: -n, c3: 0 }) == poly_reduce(
            embed(m * m - 3 * (n * n)),
        ),
{
    reveal(E4::spec_mul);
    let t = poly_mul(E4 { c0: m, c1: 0, c2: n, c3: 0 }, E4 { c0: m, c1: 0, c2: -n, c3: 0 });
    assert(n * -n == -(n * n)) by (nonlinear_arith);
    assert(m * -n + n * m == 0) by (nonlinear_arith);
    broadcast use vstd::arithmetic::mul::group_mul_basics;

    assert(t.c0 == m * m - 3 * (n * n));
    assert(t.c2 == 0);
}

/// Every nonzero element has an inverse.
pub proof fn nonzero_is_invertible(x: E4) -> (y: E4)
    requires
        x.canon(),
        x != e_zero(),
    ensures
        y.canon(),
        x * y == e_one(),
{
    let p = order();
    let (m, n) = half_norm(x);
    let k = m * m - 3 * (n * n);
    if vanishes(k) {
        norm_vanishes(m, n);
        half_norm_vanishes(x);
        lemma_small_mod(x.c0 as nat, p as nat);
        lemma_small_mod(x.c1 as nat, p as nat);
        lemma_small_mod(x.c2 as nat, p as nat);
        lemma_small_mod(x.c3 as nat, p as nat);
    }
    lemma_mod_bound(k, p);
    let b = residues_are_invertible(k % p);
    let half = E4 { c0: m, c1: 0, c2: n, c3: 0 };
    let other = E4 { c0: m, c1: 0, c2: -n, c3: 0 };
    let rest = other * embed(b);
    let y = conjugate(x) * rest;
    mul_canon(conjugate(x), rest);
    product_with_conjugate(x);
    product_of_halves(m, n);
    mul_assoc(x, conjugate(x), rest);
    mul_comm(poly_reduce(half), rest);
    mul_reduce(rest, half);
    mul_comm(rest, half);
    mul_assoc(half, other, embed(b));
    assert(x * y == poly_reduce(embed(k)) * embed(b));
    assert(poly_reduce(embed(k)) * embed(b) == e_one()) by {
        reveal(E4::spec_mul);
        lemma_small_mod(0, p as nat);
        lemma_small_mod(1, p as nat);
        broadcast use vstd::arithmetic::mul::group_mul_basics;

    }
    y
}

/// A product with a nonzero element is zero only for zero.
pub proof fn no_zero_divisors(x: E4, y: E4)
    requires
        x.canon(),
        y.canon(),
        x != e_zero(),
        x * y == e_zero(),
    ensures
        y == e_zero(),
{
    let z = nonzero_is_invertible(x);
    mul_comm(x, z);
    mul_assoc(z, x, y);
    mul_one(y);
    mul_zero(z);
}

} // verus!
