//! Points of the curve `y^2 = x^3 + 3z * x - 3` over the septic extension.
use vstd::prelude::*;
use vstd::arithmetic::div_mod::lemma_small_mod;
use crate::felt::{fadd, fmul, order, reduce, Felt};
use crate::septic::element::{has_root, inverse_unique, s_inv, septic_canon, Frobenius,
    SepticExtension};
use crate::septic::group::{difference_of_squares, double_stays_on_curve, sum_stays_on_curve};
use crate::septic::norm::{no_zero_divisors, nonzero_has_inverse};
use crate::septic::field::{add_canon, add_comm, add_sub_cancel, add_zero, mul_assoc, mul_canon,
    mul_comm, mul_one, mul_sub, mul_zero, s_embed, s_one, s_zero, sub_add_cancel, sub_assoc,
    sub_canon, sub_self, S7};

verus! {

/// A point of the curve, without the point at infinity.
#[derive(Clone, Copy, Debug)]
pub struct SepticCurve<T> {
    /// The first coordinate.
    pub x: SepticExtension<T>,
    /// The second coordinate.
    pub y: SepticExtension<T>,
}

/// The content of a point.
pub struct Point {
    pub x: S7,
    pub y: S7,
}

impl View for SepticCurve<Felt> {
    type V = Point;

    open spec fn view(&self) -> Point {
        Point { x: self.x@, y: self.y@ }
    }
}

/// The first coordinate of the point that stands for no lookup.
pub const CURVE_WITNESS_DUMMY_POINT_X: [u32; 7] = [
    1706420302,
    1319108093,
    148224806,
    26874985,
    1766171812,
    1645633948,
    2028659224,
];

/// The second coordinate of the point that stands for no lookup.
pub const CURVE_WITNESS_DUMMY_POINT_Y: [u32; 7] = [
    942390502,
    1239997438,
    458866455,
    1843332012,
    1309764648,
    572807436,
    74267719,
];

/// `3z`.
pub open spec fn three_z() -> S7 {
    S7 { c0: 0, c1: 3, c2: 0, c3: 0, c4: 0, c5: 0, c6: 0 }
}

/// `x^3 + 3z * x - 3`.
pub open spec fn formula(x: S7) -> S7 {
    (((x * x) * x) + x * three_z()) - s_embed(3)
}

/// Whether a point is on the curve.
pub open spec fn on_curve(p: Point) -> bool {
    p.y * p.y == formula(p.x)
}

/// The negated point.
pub open spec fn negated(p: Point) -> Point {
    Point { x: p.x, y: s_zero() - p.y }
}

/// The third point on a line of a given slope through a point, negated: the sum of the two
/// points on the line whose first coordinates are `p.x` and `other`.
pub open spec fn chord(p: Point, other: S7, slope: S7) -> Point {
    let x = (slope * slope - p.x) - other;
    Point { x, y: slope * (p.x - x) - p.y }
}

/// The slope of the line through two points.
pub open spec fn line_slope(p: Point, q: Point) -> S7 {
    (q.y - p.y) * s_inv(q.x - p.x)
}

/// The sum of two points with different first coordinates.
pub open spec fn sum(p: Point, q: Point) -> Point {
    chord(p, q.x, line_slope(p, q))
}

/// The slope of the tangent at a point.
pub open spec fn tangent_slope(p: Point) -> S7 {
    (s_embed(3) * (p.x * p.x) + three_z()) * s_inv(s_embed(2) * p.y)
}

/// The sum of a point with itself.
pub open spec fn doubled(p: Point) -> Point {
    let slope = tangent_slope(p);
    let x = slope * slope - s_embed(2) * p.x;
    Point { x, y: slope * (p.x - x) - p.y }
}

/// The first coordinate that is tried for a message and an offset.
pub open spec fn trial(m: S7, offset: int) -> S7 {
    S7 { c6: fadd(fmul(m.c6, 256), offset), ..m }
}

/// Whether an offset gives a point of the curve whose second coordinate has a nonzero
/// highest coefficient.
pub open spec fn offset_works(m: S7, offset: int) -> bool {
    exists|y: S7|
        y.canon() && #[trigger] (y * y) == formula(trial(m, offset)) && y.c6 != 0
}

/// The roots of an element are one of them and its negation.
pub proof fn two_roots(y: S7, w: S7)
    requires
        y.canon(),
        w.canon(),
        y * y == w * w,
    ensures
        w == y || w == s_zero() - y,
{
    difference_of_squares(y, w);
    sub_self(y * y);
    sub_canon(y, w);
    add_canon(y, w);
    no_zero_divisors(y - w, y + w);
    if y - w == s_zero() {
        difference_zero(y, w);
    } else {
        add_comm(y, w);
        add_sub_cancel(w, y);
        sub_canon(s_zero(), y);
    }
}

/// The roots of an element agree on whether their highest coefficient is zero.
proof fn roots_agree(y: S7, w: S7)
    requires
        y.canon(),
        w.canon(),
        y * y == w * w,
    ensures
        y.c6 == 0 <==> w.c6 == 0,
{
    two_roots(y, w);
    reveal(S7::spec_sub);
    if y.c6 == 0 {
        lemma_small_mod(0, order() as nat);
    } else if w.c6 == 0 && w == s_zero() - y {
        lemma_small_mod((order() - y.c6) as nat, order() as nat);
        vstd::arithmetic::div_mod::lemma_mod_add_multiples_vanish(0 - y.c6, order());
    }
}

/// Different elements differ by an invertible element.
pub proof fn difference_is_invertible(a: S7, b: S7)
    requires
        a.canon(),
        b.canon(),
        a != b,
    ensures
        a - b != s_zero(),
        invertible(a - b),
{
    sub_canon(a, b);
    difference_zero(a, b);
    nonzero_is_invertible(a - b);
}

/// A nonzero element is invertible.
pub proof fn nonzero_is_invertible(x: S7)
    requires
        x.canon(),
        x != s_zero(),
    ensures
        invertible(x),
{
    let y = nonzero_has_inverse(x);
    inverse_unique(x, y);
}

/// Twice a nonzero element is not zero.
pub proof fn twice_is_nonzero(y: S7)
    requires
        y.canon(),
        y != s_zero(),
    ensures
        s_embed(2) * y != s_zero(),
        (s_embed(2) * y).canon(),
{
    mul_canon(s_embed(2), y);
    if s_embed(2) * y == s_zero() {
        no_zero_divisors(s_embed(2), y);
    }
}

/// The polynomial that is zero where `p3.x` is the first coordinate of `p1 + p2`.
pub open spec fn checker_x(p1: Point, p2: Point, p3: Point) -> S7 {
    ((p1.x + p2.x) + p3.x) * ((p2.x - p1.x) * (p2.x - p1.x)) - (p2.y - p1.y) * (p2.y - p1.y)
}

/// The polynomial that is zero where `p3.y` is the second coordinate of `p1 + p2`.
pub open spec fn checker_y(p1: Point, p2: Point, p3: Point) -> S7 {
    (p1.y + p3.y) * (p2.x - p1.x) - (p2.y - p1.y) * (p1.x - p3.x)
}

fn felts(c: [u32; 7]) -> (r: [Felt; 7])
    ensures
        forall|i: int| 0 <= i < 7 ==> (#[trigger] r@[i])@ == reduce(c@[i] as int),
{
    [
        Felt::new(c[0]),
        Felt::new(c[1]),
        Felt::new(c[2]),
        Felt::new(c[3]),
        Felt::new(c[4]),
        Felt::new(c[5]),
        Felt::new(c[6]),
    ]
}

impl SepticCurve<Felt> {
    /// The point that stands for no lookup.
    pub fn dummy() -> (r: Self)
        ensures
            forall|i: int|
                0 <= i < 7 ==> (#[trigger] r.x.0@[i])@
                    == CURVE_WITNESS_DUMMY_POINT_X@[i] as int,
            forall|i: int|
                0 <= i < 7 ==> (#[trigger] r.y.0@[i])@
                    == CURVE_WITNESS_DUMMY_POINT_Y@[i] as int,
    {
        SepticCurve {
            x: SepticExtension(felts(CURVE_WITNESS_DUMMY_POINT_X)),
            y: SepticExtension(felts(CURVE_WITNESS_DUMMY_POINT_Y)),
        }
    }

    /// `x^3 + 3z * x - 3`.
    pub fn curve_formula(x: SepticExtension<Felt>) -> (r: SepticExtension<Felt>)
        ensures
            r@ == formula(x@),
    {
        let zero = Felt::zero();
        let three = Felt::new(3);
        let tz = SepticExtension([zero, three, zero, zero, zero, zero, zero]);
        x.cube().plus(x.times(tz)).minus(SepticExtension::<Felt>::from_base(three))
    }

    /// Whether the point is on the curve.
    pub fn check_on_point(&self) -> (r: bool)
        ensures
            r == on_curve(self@),
    {
        self.y.square().same(&Self::curve_formula(self.x))
    }

    /// The negated point.
    pub fn neg(&self) -> (r: Self)
        ensures
            r@ == negated(self@),
    {
        SepticCurve { x: self.x, y: self.y.neg() }
    }

    /// The sum of two points whose first coordinates differ.
    pub fn add_incomplete(&self, other: SepticCurve<Felt>) -> (r: Self)
        requires
            other.x@ != self.x@,
        ensures
            r@ == sum(self@, other@),
            on_curve(self@) && on_curve(other@) ==> on_curve(r@),
    {
        let f = Frobenius::new();
        let dx = other.x.minus(self.x);
        let dy = other.y.minus(self.y);
        proof {
            septic_canon(other.x);
            septic_canon(self.x);
            difference_is_invertible(other.x@, self.x@);
        }
        match dx.try_inverse(&f) {
            None => *self,
            Some(i) => {
                let slope = dy.times(i);
                proof {
                    septic_canon(other.y);
                    septic_canon(i);
                    if on_curve(self@) && on_curve(other@) {
                        sum_stays_on_curve(self@, other@);
                    }
                }
                let x = slope.square().minus(self.x).minus(other.x);
                let y = slope.times(self.x.minus(x)).minus(self.y);
                SepticCurve { x, y }
            },
        }
    }

    /// The sum of two points, or none where their first coordinates are the same.
    pub fn try_add(&self, other: SepticCurve<Felt>) -> (r: Option<Self>)
        ensures
            r is Some <==> other.x@ != self.x@,
            r matches Some(p) ==> p@ == sum(self@, other@),
            r matches Some(p) ==> on_curve(self@) && on_curve(other@) ==> on_curve(p@),
    {
        if !other.x.same(&self.x) {
            Some(self.add_incomplete(other))
        } else {
            None
        }
    }

    /// The sum of the point with itself, or none where its second coordinate is zero.
    pub fn try_double(&self) -> (r: Option<Self>)
        ensures
            r is Some <==> self.y@ != s_zero(),
            r matches Some(p) ==> p@ == doubled(self@),
            r matches Some(p) ==> on_curve(self@) ==> on_curve(p@),
    {
        if !self.y.same(&SepticExtension::<Felt>::zero()) {
            Some(self.double())
        } else {
            None
        }
    }

    /// Adds a point.
    pub fn add_assign(&mut self, other: SepticCurve<Felt>)
        requires
            other.x@ != old(self).x@,
        ensures
            final(self)@ == sum(old(self)@, other@),
            on_curve(old(self)@) && on_curve(other@) ==> on_curve(final(self)@),
    {
        let r = self.add_incomplete(other);
        self.x = r.x;
        self.y = r.y;
    }

    /// The sum of the point with itself, where its second coordinate is not zero.
    pub fn double(&self) -> (r: Self)
        requires
            self.y@ != s_zero(),
        ensures
            r@ == doubled(self@),
            on_curve(self@) ==> on_curve(r@),
    {
        let f = Frobenius::new();
        let zero = Felt::zero();
        let three = Felt::new(3);
        let two = Felt::new(2);
        let tz = SepticExtension([zero, three, zero, zero, zero, zero, zero]);
        let num = self.x.times(self.x).scaled(three).plus(tz);
        proof {
            septic_canon(self.y);
            twice_is_nonzero(self.y@);
        }
        match self.y.scaled(two).try_inverse(&f) {
            None => *self,
            Some(i) => {
                let slope = num.times(i);
                proof {
                    septic_canon(self.x);
                    septic_canon(self.y);
                    septic_canon(i);
                    if on_curve(self@) {
                        double_stays_on_curve(self@);
                    }
                }
                let x = slope.square().minus(self.x.scaled(two));
                let y = slope.times(self.x.minus(x)).minus(self.y);
                SepticCurve { x, y }
            },
        }
    }

    /// The difference of two points whose first coordinates differ.
    pub fn sub_incomplete(&self, other: SepticCurve<Felt>) -> (r: Self)
        requires
            other.x@ != self.x@,
        ensures
            r@ == sum(self@, negated(other@)),
            on_curve(self@) && on_curve(other@) ==> on_curve(r@),
    {
        proof {
            septic_canon(other.y);
            negation_stays_on_curve(other@);
        }
        self.add_incomplete(other.neg())
    }

    /// Subtracts a point.
    pub fn sub_assign(&mut self, other: SepticCurve<Felt>)
        requires
            other.x@ != old(self).x@,
        ensures
            final(self)@ == sum(old(self)@, negated(other@)),
            on_curve(old(self)@) && on_curve(other@) ==> on_curve(final(self)@),
    {
        let r = self.sub_incomplete(other);
        self.x = r.x;
        self.y = r.y;
    }

    /// Tries the offsets `0..=255` for a point over a message. The second coordinate's
    /// highest coefficient is in `1..=(p-1)/2`.
    pub fn try_lift_x(m: SepticExtension<Felt>) -> (r: Option<(Self, u8)>)
        ensures
            match r {
                Some((point, offset)) => {
                    &&& point.x@ == trial(m@, offset as int)
                    &&& on_curve(point@)
                    &&& 1 <= point.y@.c6 <= 1065353216
                    &&& offset_works(m@, offset as int)
                    &&& forall|k: int| 0 <= k < offset ==> !#[trigger] offset_works(m@, k)
                },
                None => forall|k: int| 0 <= k < 256 ==> !#[trigger] offset_works(m@, k),
            },
    {
        let f = Frobenius::new();
        let c = m.0;
        let base = c[6].times(Felt::new(256));
        let mut offset: u32 = 0;
        while offset < 256
            invariant
                offset <= 256,
                c == m.0,
                base@ == fmul(m@.c6, 256),
                forall|k: int| 0 <= k < offset ==> !#[trigger] offset_works(m@, k),
            decreases 256 - offset,
        {
            let top = base.plus(Felt::new(offset));
            let x = SepticExtension([c[0], c[1], c[2], c[3], c[4], c[5], top]);
            proof {
                lemma_small_mod(offset as nat, order() as nat);
                assert(x@ == trial(m@, offset as int));
            }
            let y_sq = Self::curve_formula(x);
            proof {
                septic_canon(x);
            }
            match y_sq.sqrt(&f) {
                None => {
                    proof {
                        if offset_works(m@, offset as int) {
                            let w = choose|w: S7|
                                w.canon() && #[trigger] (w * w) == formula(x@) && w.c6 != 0;
                            assert(has_root(y_sq@)) by {
                                assert(w.canon() && w * w == y_sq@);
                            }
                        }
                    }
                },
                Some(y) => {
                    proof {
                        septic_canon(y);
                        if y@.c6 == 0 && offset_works(m@, offset as int) {
                            let w = choose|w: S7|
                                w.canon() && #[trigger] (w * w) == formula(x@) && w.c6 != 0;
                            roots_agree(y@, w);
                        }
                        if y@.c6 != 0 {
                            assert(y@.canon() && y@ * y@ == formula(x@) && y@.c6 != 0);
                            assert(offset_works(m@, offset as int));
                        }
                    }
                    if !y.is_exception() {
                        if y.is_send() {
                            let ny = y.neg();
                            proof {
                                septic_canon(y);
                                negated_square(y@);
                                reveal(S7::spec_sub);
                                lemma_small_mod((order() - y@.c6) as nat, order() as nat);
                                vstd::arithmetic::div_mod::lemma_mod_add_multiples_vanish(
                                    0 - y@.c6,
                                    order(),
                                );
                            }
                            return Some((SepticCurve { x, y: ny }, offset as u8));
                        }
                        proof {
                            septic_canon(y);
                        }
                        return Some((SepticCurve { x, y }, offset as u8));
                    }
                },
            }
            offset = offset + 1;
        }
        None
    }

    /// The point over a message at the first offset that gives one, and the offset.
    pub fn lift_x(m: SepticExtension<Felt>) -> (r: (Self, u8))
        requires
            exists|k: int| 0 <= k < 256 && #[trigger] offset_works(m@, k),
        ensures
            r.0.x@ == trial(m@, r.1 as int),
            on_curve(r.0@),
            1 <= r.0.y@.c6 <= 1065353216,
            offset_works(m@, r.1 as int),
            forall|k: int| 0 <= k < r.1 ==> !#[trigger] offset_works(m@, k),
    {
        match Self::try_lift_x(m) {
            Some(r) => r,
            None => (Self::dummy(), 0),
        }
    }

    /// Zero where `p3.x` is the first coordinate of `p1 + p2`.
    pub fn sum_checker_x(
        p1: SepticCurve<Felt>,
        p2: SepticCurve<Felt>,
        p3: SepticCurve<Felt>,
    ) -> (r: SepticExtension<Felt>)
        ensures
            r@ == checker_x(p1@, p2@, p3@),
    {
        let dx = p2.x.minus(p1.x);
        let dy = p2.y.minus(p1.y);
        p1.x.plus(p2.x).plus(p3.x).times(dx.square()).minus(dy.square())
    }

    /// Zero where `p3.y` is the second coordinate of `p1 + p2`.
    pub fn sum_checker_y(
        p1: SepticCurve<Felt>,
        p2: SepticCurve<Felt>,
        p3: SepticCurve<Felt>,
    ) -> (r: SepticExtension<Felt>)
        ensures
            r@ == checker_y(p1@, p2@, p3@),
    {
        let dx = p2.x.minus(p1.x);
        let dy = p2.y.minus(p1.y);
        p1.y.plus(p3.y).times(dx).minus(dy.times(p1.x.minus(p3.x)))
    }
}

impl<T> SepticCurve<T> {
    /// Every coefficient of a point mapped by `f`.
    pub fn convert<S: Copy, G: Fn(S) -> T>(point: SepticCurve<S>, f: G) -> (r: Self)
        requires
            forall|s: S| #[trigger] f.requires((s,)),
        ensures
            forall|i: int| 0 <= i < 7 ==> f.ensures((point.x.0@[i],), #[trigger] r.x.0@[i]),
            forall|i: int| 0 <= i < 7 ==> f.ensures((point.y.0@[i],), #[trigger] r.y.0@[i]),
    {
        let a = point.x.0;
        let b = point.y.0;
        let x = [f(a[0]), f(a[1]), f(a[2]), f(a[3]), f(a[4]), f(a[5]), f(a[6])];
        let y = [f(b[0]), f(b[1]), f(b[2]), f(b[3]), f(b[4]), f(b[5]), f(b[6])];
        SepticCurve { x: SepticExtension(x), y: SepticExtension(y) }
    }
}

/// A negated element has the same square.
pub proof fn negated_square(y: S7)
    ensures
        (s_zero() - y) * (s_zero() - y) == y * y,
{
    let n = s_zero() - y;
    mul_sub(n, s_zero(), y);
    mul_zero(n);
    mul_comm(n, y);
    mul_sub(y, s_zero(), y);
    mul_zero(y);
    let q = y * y;
    mul_canon(y, y);
    // zero minus (zero minus q) is q
    sub_canon(s_zero(), q);
    sub_add_cancel(s_zero(), q);
    add_comm(s_zero() - q, q);
    add_sub_cancel(q, s_zero() - q);
}

/// A point of the curve, or the point at infinity.
#[derive(Clone, Copy, Debug)]
pub enum SepticCurveComplete<T> {
    /// The point at infinity.
    Infinity,
    /// Another point.
    Affine(SepticCurve<T>),
}

/// The content of a point or the point at infinity.
pub open spec fn complete_val(p: SepticCurveComplete<Felt>) -> Option<Point> {
    match p {
        SepticCurveComplete::Infinity => None,
        SepticCurveComplete::Affine(p) => Some(p@),
    }
}

/// The sum of two points, one of which may be the point at infinity.
pub open spec fn complete_sum(a: Option<Point>, b: Option<Point>) -> Option<Point> {
    match (a, b) {
        (None, _) => b,
        (_, None) => a,
        (Some(p), Some(q)) => if p.x != q.x {
            Some(sum(p, q))
        } else if p.y == q.y {
            Some(doubled(p))
        } else {
            None
        },
    }
}

/// Whether a point is on the curve; the point at infinity is.
pub open spec fn is_on_curve(p: Option<Point>) -> bool {
    match p {
        Some(q) => on_curve(q),
        None => true,
    }
}

/// Whether the slope of the line through two points can be computed: the tangent at a point
/// whose second coordinate is zero has none.
pub open spec fn slope_exists(a: Option<Point>, b: Option<Point>) -> bool {
    match (a, b) {
        (Some(p), Some(q)) => p == q ==> p.y != s_zero(),
        _ => true,
    }
}

impl SepticCurveComplete<Felt> {
    /// Whether this is the point at infinity.
    pub fn is_infinity(&self) -> (r: bool)
        ensures
            r == (complete_val(*self) is None),
    {
        match self {
            SepticCurveComplete::Infinity => true,
            SepticCurveComplete::Affine(_) => false,
        }
    }

    /// The point, which is not the point at infinity.
    pub fn point(&self) -> (r: SepticCurve<Felt>)
        requires
            complete_val(*self) is Some,
        ensures
            complete_val(*self) == Some(r@),
    {
        match self {
            SepticCurveComplete::Infinity => SepticCurve::<Felt>::dummy(),
            SepticCurveComplete::Affine(p) => *p,
        }
    }

    /// The sum of two points.
    pub fn plus(self, rhs: Self) -> (r: Self)
        requires
            slope_exists(complete_val(self), complete_val(rhs)),
        ensures
            complete_val(r) == complete_sum(complete_val(self), complete_val(rhs)),
            is_on_curve(complete_val(self)) && is_on_curve(complete_val(rhs)) ==> is_on_curve(
                complete_val(r),
            ),
    {
        if self.is_infinity() {
            return rhs;
        }
        if rhs.is_infinity() {
            return self;
        }
        let p = self.point();
        let q = rhs.point();
        if !p.x.same(&q.x) {
            return SepticCurveComplete::Affine(p.add_incomplete(q));
        }
        if p.y.same(&q.y) {
            return SepticCurveComplete::Affine(p.double());
        }
        SepticCurveComplete::Infinity
    }
}

/// Whether an element has an inverse.
pub open spec fn invertible(d: S7) -> bool {
    s_inv(d).canon() && d * s_inv(d) == s_one()
}

/// An element times the inverse of `d`, times `d`, is the element.
pub proof fn quotient_times(a: S7, d: S7)
    requires
        invertible(d),
        a.canon(),
    ensures
        (a * s_inv(d)) * d == a,
        (a * d) * s_inv(d) == a,
{
    let i = s_inv(d);
    mul_assoc(a, i, d);
    mul_comm(i, d);
    mul_assoc(a, d, i);
    mul_one(a);
}

/// The square of a product is the product of the squares.
proof fn square_of_product(a: S7, b: S7)
    ensures
        (a * b) * (a * b) == (a * a) * (b * b),
{
    mul_assoc(a, b, a * b);
    mul_comm(a, b);
    mul_assoc(b, b, a);
    mul_comm(b * b, a);
    mul_assoc(a, a, b * b);
}

/// Equal elements have difference zero, and only they.
pub proof fn difference_zero(a: S7, b: S7)
    requires
        a.canon(),
        b.canon(),
    ensures
        a - b == s_zero() <==> a == b,
{
    sub_self(a);
    if a - b == s_zero() {
        sub_add_cancel(a, b);
        add_zero(b);
    }
}

/// For points of different first coordinates, the first checker is zero if and only if the
/// third point's first coordinate is that of the sum of the first two.
pub proof fn checker_x_decides(p1: Point, p2: Point, p3: Point)
    requires
        p1.x.canon(),
        p2.x.canon(),
        p1.x != p2.x,
        p3.x.canon(),
    ensures
        checker_x(p1, p2, p3) == s_zero() <==> p3.x == sum(p1, p2).x,
{
    difference_is_invertible(p2.x, p1.x);
    let d = p2.x - p1.x;
    let dy = p2.y - p1.y;
    let i = s_inv(d);
    let s = dy * i;
    let t = (p1.x + p2.x) + p3.x;
    sub_canon(p2.y, p1.y);
    mul_canon(t, d * d);
    mul_canon(dy, dy);
    add_canon(p1.x + p2.x, p3.x);
    difference_zero(t * (d * d), dy * dy);
    // s * s * d * d == dy * dy
    quotient_times(dy, d);
    square_of_product(s, d);
    mul_canon(s, s);
    // t * (d * d) == dy * dy iff t == s * s
    if t * (d * d) == dy * dy {
        square_of_product(dy, i);
        mul_assoc(t, d * d, i * i);
        square_of_product(d, i);
        mul_one(s_one());
        mul_one(t);
    }
    // t == s * s iff p3.x == (s * s - p1.x) - p2.x
    sub_assoc(s * s, p1.x, p2.x);
    let u = p1.x + p2.x;
    if t == s * s {
        add_comm(u, p3.x);
        add_sub_cancel(p3.x, u);
    }
    if p3.x == s * s - u {
        sub_add_cancel(s * s, u);
        add_comm(u, p3.x);
    }
}

/// The second checker is zero if and only if the third point's second coordinate is where
/// the line through the first two meets its first coordinate, negated.
pub proof fn checker_y_decides(p1: Point, p2: Point, p3: Point)
    requires
        p1.x.canon(),
        p2.x.canon(),
        p1.x != p2.x,
        p3.y.canon(),
    ensures
        checker_y(p1, p2, p3) == s_zero() <==> p3.y == line_slope(p1, p2) * (p1.x - p3.x) - p1.y,
{
    difference_is_invertible(p2.x, p1.x);
    let d = p2.x - p1.x;
    let dy = p2.y - p1.y;
    let i = s_inv(d);
    let s = dy * i;
    let w = p1.x - p3.x;
    let t = p1.y + p3.y;
    sub_canon(p2.y, p1.y);
    sub_canon(p1.x, p3.x);
    mul_canon(t, d);
    mul_canon(dy, w);
    add_canon(p1.y, p3.y);
    difference_zero(t * d, dy * w);
    // (s * w) * d == dy * w
    quotient_times(dy, d);
    mul_assoc(s, w, d);
    mul_comm(w, d);
    mul_assoc(s, d, w);
    mul_canon(s, w);
    if t * d == dy * w {
        quotient_times(t, d);
        quotient_times(s * w, d);
    }
    if t == s * w {
        add_comm(p1.y, p3.y);
        add_sub_cancel(p3.y, p1.y);
    }
    if p3.y == s * w - p1.y {
        sub_add_cancel(s * w, p1.y);
        add_comm(p1.y, p3.y);
    }
}

/// Both checkers are zero if and only if the third point is the sum of the first two.
pub proof fn checkers_decide_sum(p1: Point, p2: Point, p3: Point)
    requires
        p1.x.canon(),
        p2.x.canon(),
        p1.x != p2.x,
        p3.x.canon(),
        p3.y.canon(),
    ensures
        (checker_x(p1, p2, p3) == s_zero() && checker_y(p1, p2, p3) == s_zero()) <==> p3 == sum(
            p1,
            p2,
        ),
{
    checker_x_decides(p1, p2, p3);
    checker_y_decides(p1, p2, p3);
}

/// The negated point of a point of the curve is on the curve, and negating twice gives the
/// point back.
pub proof fn negation_stays_on_curve(p: Point)
    requires
        p.y.canon(),
    ensures
        on_curve(negated(p)) == on_curve(p),
        negated(negated(p)) == p,
{
    negated_square(p.y);
    let n = s_zero() - p.y;
    sub_canon(s_zero(), p.y);
    sub_add_cancel(s_zero(), p.y);
    add_comm(n, p.y);
    add_sub_cancel(p.y, n);
}

/// The coordinate that is tried tells the message and the offset apart: the last coefficient
/// of the message stands above the low eight bits, and the offset in them.
pub proof fn trial_tells_message_and_offset(m: S7, offset: int)
    requires
        0 <= m.c6 < 0x400000,
        0 <= offset < 256,
    ensures
        trial(m, offset).c6 / 256 == m.c6,
        trial(m, offset).c6 % 256 == offset,
        ({
            let t = trial(m, offset);
            &&& t.c0 == m.c0
            &&& t.c1 == m.c1
            &&& t.c2 == m.c2
            &&& t.c3 == m.c3
            &&& t.c4 == m.c4
            &&& t.c5 == m.c5
        }),
{
    assert(0 <= m.c6 * 256 < 0x40000000);
}

} // verus!
