//! The sum of points with the point at infinity, as an operation on the whole curve.
use vstd::prelude::*;
use crate::septic::curve::{complete_sum, difference_is_invertible, doubled, negated,
    negated_square, nonzero_is_invertible, quotient_times, sum, tangent_slope, twice_is_nonzero,
    Point};
use crate::septic::field::{add_assoc, add_canon, add_comm, add_sub_cancel, mul_canon, mul_comm,
    mul_sub, mul_zero, s_embed, s_zero, sub_add_cancel, sub_assoc, sub_canon, sub_negated,
    sub_of_subs, sub_self, sub_zero};
use crate::septic::group::{small_multiples, sum_commutes};

verus! {

/// Subtracting a point undoes doubling it, where the double has another first coordinate than
/// the point.
pub proof fn subtraction_undoes_doubling(p: Point)
    requires
        p.x.canon(),
        p.y.canon(),
        p.y != s_zero(),
        doubled(p).x != p.x,
    ensures
        sum(doubled(p), negated(p)) == p,
{
    twice_is_nonzero(p.y);
    nonzero_is_invertible(s_embed(2) * p.y);
    let slope = tangent_slope(p);
    let r = doubled(p);
    let x = r.x;
    let ss = slope * slope;
    mul_canon(slope, slope);
    small_multiples(p.x);
    sub_canon(ss, p.x + p.x);
    assert(x == ss - (p.x + p.x));
    difference_is_invertible(p.x, x);
    let v = p.x - x;
    let b = slope * v;
    assert(r.y == b - p.y);
    // The second coordinates of the double and of the negated point differ by minus b.
    let n = s_zero() - p.y;
    assert(n - r.y == s_zero() - b) by {
        sub_of_subs(s_zero(), p.y, b, p.y);
        sub_self(p.y);
        sub_canon(s_zero(), b);
        sub_zero(s_zero() - b);
    }
    // So the slope is negated.
    let m = s_zero() - slope;
    mul_comm(m, v);
    mul_sub(v, s_zero(), slope);
    mul_zero(v);
    mul_comm(v, slope);
    assert(m * v == s_zero() - b);
    sub_canon(s_zero(), slope);
    quotient_times(m, v);
    let back = sum(r, negated(p));
    negated_square(slope);
    assert(m * m == ss);
    sub_assoc(ss, x, p.x);
    add_canon(p.x, p.x);
    sub_add_cancel(ss, p.x + p.x);
    add_assoc(x, p.x, p.x);
    add_comm(x, p.x);
    add_assoc(p.x, x, p.x);
    add_sub_cancel(p.x, x + p.x);
    assert(back.x == p.x);
    // m * (x - p.x) - r.y == p.y
    mul_comm(m, x - p.x);
    mul_sub(x - p.x, s_zero(), slope);
    mul_zero(x - p.x);
    mul_comm(x - p.x, slope);
    mul_sub(slope, x, p.x);
    mul_sub(slope, p.x, x);
    sub_negated(slope * x, slope * p.x);
    assert(m * (x - p.x) == b);
    mul_canon(slope, v);
    sub_of_subs(b, s_zero(), b, p.y);
    sub_zero(b);
    sub_self(b);
    sub_negated(s_zero(), p.y);
    sub_zero(p.y);
}

/// The point at infinity is neutral, and the sum does not depend on the order of the points.
pub proof fn infinity_is_neutral(a: Option<Point>, b: Option<Point>)
    requires
        a matches Some(p) ==> p.x.canon(),
        b matches Some(q) ==> q.x.canon(),
    ensures
        complete_sum(a, None) == a,
        complete_sum(None, b) == b,
        complete_sum(a, b) == complete_sum(b, a),
{
    if let (Some(p), Some(q)) = (a, b) {
        if p.x != q.x {
            sum_commutes(p, q);
        }
    }
}

/// A point and its negation cancel, and a point added to itself is its double.
pub proof fn negation_cancels(p: Point)
    requires
        p.x.canon(),
        p.y.canon(),
        p.y != s_zero(),
    ensures
        complete_sum(Some(p), Some(negated(p))) is None,
        complete_sum(Some(p), Some(p)) == Some(doubled(p)),
{
    if p.y == s_zero() - p.y {
        // p.y + p.y == 0
        twice_is_nonzero(p.y);
        small_multiples(p.y);
        sub_add_cancel(s_zero(), p.y);
    }
}

} // verus!
