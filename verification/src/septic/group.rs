//! The sum of two points of the curve is on the curve.
use vstd::prelude::*;
use crate::septic::curve::{difference_is_invertible, doubled, formula, line_slope, negated,
    negated_square, nonzero_is_invertible, on_curve, quotient_times, sum, tangent_slope, three_z,
    twice_is_nonzero, Point};
use crate::septic::element::{inverse_unique, s_inv};
use crate::septic::field::{add_assoc, add_canon, add_comm, add_sub_cancel, add_zero,
    lemma_reduce_canon, mul_add, mul_assoc, mul_canon, mul_comm, mul_one, mul_sub, mul_zero,
    s_embed, s_one, s_zero, sub_add_cancel, sub_assoc, sub_canon, sub_negated,
    sub_of_subs, sub_of_sums, sub_self, sub_telescopes, sub_zero, S7};

verus! {

/// `(a - b) * (a + b) == a^2 - b^2`.
pub proof fn difference_of_squares(a: S7, b: S7)
    ensures
        (a - b) * (a + b) == a * a - b * b,
{
    let u = a - b;
    mul_add(u, a, b);
    mul_comm(u, a);
    mul_sub(a, a, b);
    mul_comm(u, b);
    mul_sub(b, a, b);
    mul_comm(a, b);
    sub_telescopes(a * a, a * b, b * b);
}

/// `x^2 + x * p + p^2`.
spec fn quadratic(x: S7, p: S7) -> S7 {
    (x * x + x * p) + p * p
}

/// `(x - p) * (x^2 + x * p + p^2) == x^3 - p^3`.
proof fn difference_of_cubes(x: S7, p: S7)
    ensures
        (x - p) * quadratic(x, p) == (x * x) * x - (p * p) * p,
{
    let u = x - p;
    mul_add(u, x * x + x * p, p * p);
    mul_add(x, x, p);
    mul_assoc(u, x, x + p);
    mul_comm(u, x);
    mul_assoc(x, u, x + p);
    difference_of_squares(x, p);
    assert(u * (x * x + x * p) == x * (x * x - p * p));
    mul_sub(x, x * x, p * p);
    mul_comm(x, x * x);
    mul_comm(u, p * p);
    mul_sub(p * p, x, p);
    mul_comm(x, p * p);
    sub_telescopes((x * x) * x, (p * p) * x, (p * p) * p);
}

/// The slope of the chord between the values of the cubic at `x` and `p`.
spec fn steepness(x: S7, p: S7) -> S7 {
    quadratic(x, p) + three_z()
}

proof fn difference_of_formulas(x: S7, p: S7)
    ensures
        formula(x) - formula(p) == (x - p) * steepness(x, p),
{
    let a = three_z();
    let u = x - p;
    let cx = (x * x) * x;
    let cp = (p * p) * p;
    let b = s_embed(3);
    sub_of_subs(cx + x * a, b, cp + p * a, b);
    sub_self(b);
    sub_canon(cx + x * a, cp + p * a);
    sub_zero((cx + x * a) - (cp + p * a));
    sub_of_sums(cx, x * a, cp, p * a);
    mul_add(u, quadratic(x, p), a);
    difference_of_cubes(x, p);
    mul_comm(u, a);
    mul_sub(a, x, p);
    mul_comm(a, x);
    mul_comm(a, p);
}

/// The line of a slope through a point.
spec fn line(p: Point, slope: S7, x: S7) -> S7 {
    p.y + slope * (x - p.x)
}

/// How far the curve is from the line through one of its points.
proof fn curve_minus_line(p: Point, slope: S7, x: S7)
    requires
        on_curve(p),
    ensures
        formula(x) - line(p, slope, x) * line(p, slope, x) == (x - p.x) * (steepness(x, p.x)
            - slope * (line(p, slope, x) + p.y)),
{
    let u = x - p.x;
    let l = line(p, slope, x);
    let su = slope * u;
    let r = slope * (l + p.y);
    difference_of_formulas(x, p.x);
    difference_of_squares(l, p.y);
    add_comm(p.y, su);
    mul_canon(slope, u);
    add_sub_cancel(su, p.y);
    assert(l - p.y == su);
    mul_comm(slope, u);
    mul_assoc(u, slope, l + p.y);
    assert(l * l - p.y * p.y == u * r);
    let f = formula(p.x);
    sub_of_subs(formula(x), f, l * l, f);
    sub_self(f);
    sub_canon(formula(x), l * l);
    sub_zero(formula(x) - l * l);
    mul_sub(u, steepness(x, p.x), r);
}

/// A point of the line that meets the slope condition of a second point, and whose first
/// coordinate completes the square of the slope, is on the curve.
proof fn third_point(p: Point, q: Point, slope: S7, x: S7)
    requires
        on_curve(p),
        steepness(q.x, p.x) == slope * (q.y + p.y),
        q.y == line(p, slope, q.x),
        (x + q.x) + p.x == slope * slope,
    ensures
        formula(x) == line(p, slope, x) * line(p, slope, x),
{
    let e = x - q.x;
    let l = line(p, slope, x);
    let s1 = steepness(x, p.x);
    let s0 = steepness(q.x, p.x);
    let r1 = slope * (l + p.y);
    let r0 = slope * (q.y + p.y);
    curve_minus_line(p, slope, x);
    // s1 - s0 == e * ((x + q.x) + p.x)
    let pp = p.x * p.x;
    sub_of_sums(quadratic(x, p.x), three_z(), quadratic(q.x, p.x), three_z());
    sub_self(three_z());
    let dq = quadratic(x, p.x) - quadratic(q.x, p.x);
    sub_canon(quadratic(x, p.x), quadratic(q.x, p.x));
    add_zero(dq);
    assert(s1 - s0 == dq);
    sub_of_sums(x * x + x * p.x, pp, q.x * q.x + q.x * p.x, pp);
    sub_self(pp);
    let dr = (x * x + x * p.x) - (q.x * q.x + q.x * p.x);
    sub_canon(x * x + x * p.x, q.x * q.x + q.x * p.x);
    add_zero(dr);
    assert(dq == dr);
    sub_of_sums(x * x, x * p.x, q.x * q.x, q.x * p.x);
    difference_of_squares(x, q.x);
    mul_comm(e, p.x);
    mul_sub(p.x, x, q.x);
    mul_comm(p.x, x);
    mul_comm(p.x, q.x);
    mul_add(e, x + q.x, p.x);
    assert(s1 - s0 == e * (slope * slope));
    // r1 - r0 == e * (slope * slope)
    mul_sub(slope, l + p.y, q.y + p.y);
    sub_of_sums(l, p.y, q.y, p.y);
    sub_self(p.y);
    sub_canon(l, q.y);
    add_zero(l - q.y);
    assert(r1 - r0 == slope * (l - q.y));
    let a1 = slope * (x - p.x);
    let a0 = slope * (q.x - p.x);
    sub_of_sums(p.y, a1, p.y, a0);
    sub_canon(a1, a0);
    add_zero(a1 - a0);
    mul_sub(slope, x - p.x, q.x - p.x);
    sub_of_subs(x, p.x, q.x, p.x);
    sub_self(p.x);
    sub_canon(x, q.x);
    sub_zero(e);
    assert(l - q.y == slope * e);
    mul_assoc(slope, slope, e);
    mul_comm(slope * slope, e);
    assert(r1 - r0 == e * (slope * slope));
    // s1 - r1 == s0 - r0
    sub_of_subs(s1, s0, r1, r0);
    sub_self(e * (slope * slope));
    add_canon(quadratic(x, p.x), three_z());
    mul_canon(slope, l + p.y);
    sub_self(s0);
    sub_canon(s1, r1);
    sub_zero(s1 - r1);
    assert(s1 - r1 == s_zero());
    mul_zero(x - p.x);
    let f = formula(x);
    sub_canon((x * x) * x + x * three_z(), s_embed(3));
    mul_canon(l, l);
    sub_add_cancel(f, l * l);
    add_zero(l * l);
}

/// The second coordinate that the sum takes is that of the line, negated.
proof fn negated_line(p: Point, slope: S7, x: S7)
    ensures
        slope * (p.x - x) - p.y == s_zero() - line(p, slope, x),
{
    let a = slope * (p.x - x);
    let b = slope * (x - p.x);
    mul_sub(slope, p.x, x);
    mul_sub(slope, x, p.x);
    sub_negated(slope * x, slope * p.x);
    assert(a == s_zero() - b);
    sub_assoc(s_zero(), b, p.y);
    add_comm(b, p.y);
}

/// The sum of two points of the curve whose first coordinates differ is on the curve.
pub proof fn sum_stays_on_curve(p: Point, q: Point)
    requires
        on_curve(p),
        on_curve(q),
        q.y.canon(),
        p.x.canon(),
        q.x.canon(),
        p.x != q.x,
    ensures
        on_curve(sum(p, q)),
{
    difference_is_invertible(q.x, p.x);
    let d = q.x - p.x;
    let dy = q.y - p.y;
    let slope = line_slope(p, q);
    let r = sum(p, q);
    // The line passes through the second point.
    sub_canon(q.y, p.y);
    quotient_times(dy, d);
    assert(slope * d == dy);
    sub_add_cancel(q.y, p.y);
    add_comm(dy, p.y);
    assert(line(p, slope, q.x) == q.y);
    // The second point's condition on the slope.
    curve_minus_line(p, slope, q.x);
    sub_self(q.y * q.y);
    let st = steepness(q.x, p.x);
    let sl = slope * (q.y + p.y);
    let w = st - sl;
    assert(d * w == s_zero());
    sub_canon(st, sl);
    quotient_times(w, d);
    mul_comm(w, d);
    mul_zero(s_inv(d));
    assert(w == s_zero());
    add_canon(quadratic(q.x, p.x), three_z());
    mul_canon(slope, q.y + p.y);
    sub_add_cancel(st, sl);
    add_zero(sl);
    // The first coordinate completes the square.
    let ss = slope * slope;
    mul_canon(slope, slope);
    sub_canon(ss, p.x);
    sub_add_cancel(ss - p.x, q.x);
    sub_add_cancel(ss, p.x);
    third_point(p, q, slope, r.x);
    negated_line(p, slope, r.x);
    negated_square(line(p, slope, r.x));
}

/// Twice an element is its sum with itself, and three times an element that of three.
pub proof fn small_multiples(a: S7)
    requires
        a.canon(),
    ensures
        s_embed(2) * a == a + a,
        s_embed(3) * a == (a + a) + a,
{
    let one = s_one();
    assert(one + one == s_embed(2) && s_embed(2) + one == s_embed(3)) by {
        reveal(S7::spec_add);
        lemma_reduce_canon(s_embed(2));
        lemma_reduce_canon(s_embed(3));
    }
    mul_comm(s_embed(2), a);
    mul_comm(s_embed(3), a);
    mul_add(a, one, one);
    mul_add(a, s_embed(2), one);
    mul_one(a);
}

/// The sum of a point of the curve with itself is on the curve, where its second coordinate
/// is not zero.
pub proof fn double_stays_on_curve(p: Point)
    requires
        on_curve(p),
        p.x.canon(),
        p.y.canon(),
        p.y != s_zero(),
    ensures
        on_curve(doubled(p)),
{
    twice_is_nonzero(p.y);
    nonzero_is_invertible(s_embed(2) * p.y);
    let slope = tangent_slope(p);
    let r = doubled(p);
    let pp = p.x * p.x;
    let num = s_embed(3) * pp + three_z();
    let two_y = s_embed(2) * p.y;
    mul_canon(p.x, p.x);
    small_multiples(p.y);
    small_multiples(p.x);
    small_multiples(pp);
    add_canon(s_embed(3) * pp, three_z());
    quotient_times(num, two_y);
    assert(slope * (p.y + p.y) == num);
    assert(steepness(p.x, p.x) == num);
    // The line passes through the point.
    sub_self(p.x);
    mul_zero(slope);
    add_zero(p.y);
    assert(line(p, slope, p.x) == p.y);
    // The first coordinate completes the square.
    let ss = slope * slope;
    mul_canon(slope, slope);
    sub_add_cancel(ss, p.x + p.x);
    add_assoc(r.x, p.x, p.x);
    third_point(p, p, slope, r.x);
    negated_line(p, slope, r.x);
    negated_square(line(p, slope, r.x));
}

/// The product of two negated elements is the product of the elements.
proof fn negated_product(a: S7, b: S7)
    ensures
        (s_zero() - a) * (s_zero() - b) == a * b,
{
    let n = s_zero() - a;
    mul_sub(n, s_zero(), b);
    mul_zero(n);
    mul_comm(n, b);
    mul_sub(b, s_zero(), a);
    mul_zero(b);
    mul_comm(a, b);
    let q = a * b;
    mul_canon(a, b);
    sub_negated(s_zero(), q);
    sub_zero(q);
}

/// The sum does not depend on the order of the points.
pub proof fn sum_commutes(p: Point, q: Point)
    requires
        p.x.canon(),
        q.x.canon(),
        p.x != q.x,
    ensures
        sum(p, q) == sum(q, p),
{
    difference_is_invertible(q.x, p.x);
    let d = q.x - p.x;
    let e = p.x - q.x;
    let dy = q.y - p.y;
    let i = s_inv(d);
    let j = s_zero() - i;
    sub_negated(q.x, p.x);
    sub_negated(q.y, p.y);
    sub_canon(s_zero(), i);
    negated_product(d, i);
    inverse_unique(e, j);
    negated_product(dy, i);
    let slope = line_slope(p, q);
    assert(line_slope(q, p) == slope);
    let ss = slope * slope;
    sub_assoc(ss, p.x, q.x);
    sub_assoc(ss, q.x, p.x);
    add_comm(p.x, q.x);
    let x = sum(p, q).x;
    // slope * (q.x - x) - slope * (p.x - x) == dy
    let a = slope * (p.x - x);
    let b = slope * (q.x - x);
    mul_sub(slope, q.x - x, p.x - x);
    sub_of_subs(q.x, x, p.x, x);
    sub_self(x);
    sub_canon(q.x, p.x);
    sub_zero(d);
    sub_canon(q.y, p.y);
    quotient_times(dy, d);
    assert(b - a == dy);
    // b - q.y == a - p.y
    sub_of_subs(b, a, q.y, p.y);
    sub_self(dy);
    sub_canon(b, q.y);
    sub_canon(a, p.y);
    sub_add_cancel(b - q.y, a - p.y);
    add_zero(a - p.y);
}

/// Subtracting a point undoes adding it, where the sum has another first coordinate than the
/// point.
pub proof fn subtraction_undoes_addition(p: Point, q: Point)
    requires
        p.x.canon(),
        p.y.canon(),
        q.x.canon(),
        q.y.canon(),
        p.x != q.x,
        sum(p, q).x != q.x,
    ensures
        sum(sum(p, q), negated(q)) == p,
{
    difference_is_invertible(q.x, p.x);
    let slope = line_slope(p, q);
    let r = sum(p, q);
    let x = r.x;
    let ss = slope * slope;
    mul_canon(slope, slope);
    sub_canon(ss, p.x);
    sub_canon(ss - p.x, q.x);
    difference_is_invertible(q.x, x);
    let d = q.x - p.x;
    let dy = q.y - p.y;
    sub_canon(q.y, p.y);
    quotient_times(dy, d);
    // r.y == slope * (q.x - x) - q.y, as for the sum in the other order.
    sum_commutes(p, q);
    let v = q.x - x;
    let b = slope * v;
    difference_is_invertible(p.x, q.x);
    slope_commutes(p, q);
    assert(r.y == b - q.y);
    // The second coordinates of the sum and of the negated point differ by minus b.
    let n = s_zero() - q.y;
    assert(n - r.y == s_zero() - b) by {
        sub_of_subs(s_zero(), q.y, b, q.y);
        sub_self(q.y);
        sub_canon(s_zero(), b);
        sub_zero(s_zero() - b);
    }
    // So the slope is negated.
    let m = s_zero() - slope;
    mul_comm(s_zero() - slope, v);
    mul_sub(v, s_zero(), slope);
    mul_zero(v);
    mul_comm(v, slope);
    assert(m * v == s_zero() - b);
    sub_canon(s_zero(), slope);
    quotient_times(m, v);
    let back = sum(r, negated(q));
    assert(line_slope(r, negated(q)) == m);
    negated_square(slope);
    assert(m * m == ss);
    // (ss - x) - q.x == p.x
    sub_assoc(ss, p.x, q.x);
    sub_assoc(ss, x, q.x);
    let pq = p.x + q.x;
    add_canon(p.x, q.x);
    // x == ss - pq, so ss == x + pq
    sub_add_cancel(ss, pq);
    add_assoc(x, p.x, q.x);
    add_comm(x, p.x);
    add_assoc(p.x, x, q.x);
    add_sub_cancel(p.x, x + q.x);
    assert(back.x == p.x);
    // m * (x - p.x) - r.y == p.y
    let a = slope * (p.x - x);
    mul_comm(m, x - p.x);
    mul_sub(x - p.x, s_zero(), slope);
    mul_zero(x - p.x);
    mul_comm(x - p.x, slope);
    mul_sub(slope, x, p.x);
    mul_sub(slope, p.x, x);
    sub_negated(slope * x, slope * p.x);
    assert(m * (x - p.x) == a);
    // a - (a - p.y) == p.y
    assert(r.y == a - p.y);
    mul_canon(slope, p.x - x);
    sub_of_subs(a, s_zero(), a, p.y);
    sub_zero(a);
    sub_self(a);
    sub_negated(s_zero(), p.y);
    sub_zero(p.y);
    sub_canon(s_zero(), p.y);
}

/// The slope of the line does not depend on the order of the points.
proof fn slope_commutes(p: Point, q: Point)
    requires
        p.x.canon(),
        q.x.canon(),
        p.x != q.x,
    ensures
        line_slope(q, p) == line_slope(p, q),
{
    difference_is_invertible(q.x, p.x);
    let d = q.x - p.x;
    let i = s_inv(d);
    let j = s_zero() - i;
    sub_negated(q.x, p.x);
    sub_negated(q.y, p.y);
    sub_canon(s_zero(), i);
    negated_product(d, i);
    inverse_unique(p.x - q.x, j);
    negated_product(q.y - p.y, i);
}

} // verus!
