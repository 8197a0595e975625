//! The quartic extension of the KoalaBear field, `F[X] / (X^4 - 3)`.
//!
//! [`E4`] is the mathematical model of an element: four residues, lowest degree
//! first. Its `+`, `-` and `*` are the operations of the extension, and the
//! proof functions below are the laws of a commutative ring.
use vstd::prelude::*;
use vstd::arithmetic::div_mod::{lemma_fundamental_div_mod, lemma_mod_multiples_vanish,
    lemma_small_mod};
use vstd::arithmetic::mul::{lemma_mul_nonnegative, lemma_mul_upper_bound};
use p3_field::extension::BinomialExtensionField;
use p3_field::{BasedVectorSpace, Field, PrimeCharacteristicRing, PrimeField32};
use p3_koala_bear::KoalaBear;
use crate::felt::{canonical, fadd, felt_canonical, fmul, fsub, order, reduce, Felt};

verus! {

/// An element of the extension: the residues of `1, X, X^2, X^3`.
pub struct E4 {
    pub c0: int,
    pub c1: int,
    pub c2: int,
    pub c3: int,
}

/// The sum of two integer polynomials of degree below four.
pub open spec fn poly_add(a: E4, b: E4) -> E4 {
    E4 { c0: a.c0 + b.c0, c1: a.c1 + b.c1, c2: a.c2 + b.c2, c3: a.c3 + b.c3 }
}

/// The difference of two integer polynomials of degree below four.
pub open spec fn poly_sub(a: E4, b: E4) -> E4 {
    E4 { c0: a.c0 - b.c0, c1: a.c1 - b.c1, c2: a.c2 - b.c2, c3: a.c3 - b.c3 }
}

/// The product of two integer polynomials modulo `X^4 - 3`.
pub open spec fn poly_mul(a: E4, b: E4) -> E4 {
    E4 {
        c0: a.c0 * b.c0 + 3 * (a.c1 * b.c3 + a.c2 * b.c2 + a.c3 * b.c1),
        c1: a.c0 * b.c1 + a.c1 * b.c0 + 3 * (a.c2 * b.c3 + a.c3 * b.c2),
        c2: a.c0 * b.c2 + a.c1 * b.c1 + a.c2 * b.c0 + 3 * (a.c3 * b.c3),
        c3: a.c0 * b.c3 + a.c1 * b.c2 + a.c2 * b.c1 + a.c3 * b.c0,
    }
}

/// Every coefficient reduced modulo the field order.
pub open spec fn poly_reduce(a: E4) -> E4 {
    E4 { c0: reduce(a.c0), c1: reduce(a.c1), c2: reduce(a.c2), c3: reduce(a.c3) }
}

impl E4 {
    /// Whether every coefficient is a canonical residue.
    pub open spec fn canon(self) -> bool {
        &&& canonical(self.c0)
        &&& canonical(self.c1)
        &&& canonical(self.c2)
        &&& canonical(self.c3)
    }

    /// Addition in the extension.
    #[verifier::opaque]
    pub open spec fn spec_add(self, other: E4) -> E4 {
        poly_reduce(poly_add(self, other))
    }

    /// Subtraction in the extension.
    #[verifier::opaque]
    pub open spec fn spec_sub(self, other: E4) -> E4 {
        poly_reduce(poly_sub(self, other))
    }

    /// Multiplication in the extension.
    #[verifier::opaque]
    pub open spec fn spec_mul(self, other: E4) -> E4 {
        poly_reduce(poly_mul(self, other))
    }
}

/// The embedding of a residue of the base field.
pub open spec fn embed(x: int) -> E4 {
    E4 { c0: x, c1: 0, c2: 0, c3: 0 }
}

/// The additive identity.
pub open spec fn e_zero() -> E4 {
    embed(0)
}

/// The multiplicative identity.
pub open spec fn e_one() -> E4 {
    embed(1)
}

/// The `n`-th power of an element.
pub open spec fn e_pow(x: E4, n: nat) -> E4
    decreases n,
{
    if n == 0 {
        e_one()
    } else {
        e_pow(x, (n - 1) as nat) * x
    }
}

spec fn poly_scale(k: int, a: E4) -> E4 {
    E4 { c0: k * a.c0, c1: k * a.c1, c2: k * a.c2, c3: k * a.c3 }
}

spec fn poly_quot(a: E4) -> E4 {
    E4 { c0: a.c0 / order(), c1: a.c1 / order(), c2: a.c2 / order(), c3: a.c3 / order() }
}

proof fn lemma_split(a: E4)
    ensures
        a == poly_add(poly_scale(order(), poly_quot(a)), poly_reduce(a)),
{
    lemma_fundamental_div_mod(a.c0, order());
    lemma_fundamental_div_mod(a.c1, order());
    lemma_fundamental_div_mod(a.c2, order());
    lemma_fundamental_div_mod(a.c3, order());
}

proof fn lemma_reduce_multiple(q: E4, a: E4)
    ensures
        poly_reduce(poly_add(poly_scale(order(), q), a)) == poly_reduce(a),
{
    lemma_mod_multiples_vanish(q.c0, a.c0, order());
    lemma_mod_multiples_vanish(q.c1, a.c1, order());
    lemma_mod_multiples_vanish(q.c2, a.c2, order());
    lemma_mod_multiples_vanish(q.c3, a.c3, order());
}

proof fn lemma_mul_shift(k: int, q: E4, a: E4, b: E4)
    ensures
        poly_mul(poly_add(poly_scale(k, q), a), b) == poly_add(
            poly_scale(k, poly_mul(q, b)),
            poly_mul(a, b),
        ),
{
    let x = poly_mul(poly_add(poly_scale(k, q), a), b);
    let y = poly_add(poly_scale(k, poly_mul(q, b)), poly_mul(a, b));
    let (a0, a1, a2, a3) = (a.c0, a.c1, a.c2, a.c3);
    let (b0, b1, b2, b3) = (b.c0, b.c1, b.c2, b.c3);
    let (q0, q1, q2, q3) = (q.c0, q.c1, q.c2, q.c3);
    lemma_dist4(k, q0, a0, b0, q1, a1, b3, q2, a2, b2, q3, a3, b1, 1, 3, 3, 3);
    lemma_dist4(k, q0, a0, b1, q1, a1, b0, q2, a2, b3, q3, a3, b2, 1, 1, 3, 3);
    lemma_dist4(k, q0, a0, b2, q1, a1, b1, q2, a2, b0, q3, a3, b3, 1, 1, 1, 3);
    lemma_dist4(k, q0, a0, b3, q1, a1, b2, q2, a2, b1, q3, a3, b0, 1, 1, 1, 1);
}

proof fn lemma_dist4(
    k: int,
    q0: int, a0: int, b0: int,
    q1: int, a1: int, b1: int,
    q2: int, a2: int, b2: int,
    q3: int, a3: int, b3: int,
    m0: int, m1: int, m2: int, m3: int,
)
    ensures
        m0 * ((k * q0 + a0) * b0) + m1 * ((k * q1 + a1) * b1) + m2 * ((k * q2 + a2) * b2) + m3 * ((
        k * q3 + a3) * b3) == k * (m0 * (q0 * b0) + m1 * (q1 * b1) + m2 * (q2 * b2) + m3 * (q3
            * b3)) + (m0 * (a0 * b0) + m1 * (a1 * b1) + m2 * (a2 * b2) + m3 * (a3 * b3)),
{
    lemma_dist1(k, q0, a0, b0, m0);
    lemma_dist1(k, q1, a1, b1, m1);
    lemma_dist1(k, q2, a2, b2, m2);
    lemma_dist1(k, q3, a3, b3, m3);
    let (x0, x1, x2, x3) = (m0 * (q0 * b0), m1 * (q1 * b1), m2 * (q2 * b2), m3 * (q3 * b3));
    assert(k * (x0 + x1 + x2 + x3) == k * x0 + k * x1 + k * x2 + k * x3) by (nonlinear_arith);
}

proof fn lemma_dist1(k: int, q: int, a: int, b: int, m: int)
    ensures
        m * ((k * q + a) * b) == k * (m * (q * b)) + m * (a * b),
{
    assert(m * ((k * q + a) * b) == k * (m * (q * b)) + m * (a * b)) by (nonlinear_arith);
}

proof fn lemma_poly_mul_comm(a: E4, b: E4)
    ensures
        poly_mul(a, b) == poly_mul(b, a),
{
    broadcast use vstd::arithmetic::mul::lemma_mul_is_commutative;
}

spec fn poly_shift(a: E4) -> E4 {
    E4 { c0: 3 * a.c3, c1: a.c0, c2: a.c1, c3: a.c2 }
}

spec fn poly_comb(a: E4, x0: E4, x1: E4, x2: E4, x3: E4) -> E4 {
    poly_add(
        poly_scale(a.c0, x0),
        poly_add(poly_scale(a.c1, x1), poly_add(poly_scale(a.c2, x2), poly_scale(a.c3, x3))),
    )
}

proof fn lemma_mul3(x: int, y: int)
    ensures
        (3 * x) * y == 3 * (x * y),
        x * (3 * y) == 3 * (x * y),
{
    assert((3 * x) * y == 3 * (x * y)) by (nonlinear_arith);
    assert(x * (3 * y) == 3 * (x * y)) by (nonlinear_arith);
}

proof fn lemma_mul_as_comb(a: E4, b: E4)
    ensures
        poly_mul(a, b) == poly_comb(
            a,
            b,
            poly_shift(b),
            poly_shift(poly_shift(b)),
            poly_shift(poly_shift(poly_shift(b))),
        ),
{
    lemma_mul3(a.c1, b.c3);
    lemma_mul3(a.c2, b.c2);
    lemma_mul3(a.c3, b.c1);
    lemma_mul3(a.c2, b.c3);
    lemma_mul3(a.c3, b.c2);
    lemma_mul3(a.c3, b.c3);
}

proof fn lemma_shift_mul(a: E4, b: E4)
    ensures
        poly_shift(poly_mul(a, b)) == poly_mul(poly_shift(a), b),
{
    lemma_mul3(a.c3, b.c0);
    lemma_mul3(a.c3, b.c1);
    lemma_mul3(a.c3, b.c2);
    lemma_mul3(a.c3, b.c3);
}

proof fn lemma_comb_mul(a: E4, x0: E4, x1: E4, x2: E4, x3: E4, c: E4)
    ensures
        poly_mul(poly_comb(a, x0, x1, x2, x3), c) == poly_comb(
            a,
            poly_mul(x0, c),
            poly_mul(x1, c),
            poly_mul(x2, c),
            poly_mul(x3, c),
        ),
{
    let t3 = poly_scale(a.c3, x3);
    let t2 = poly_add(poly_scale(a.c2, x2), t3);
    let t1 = poly_add(poly_scale(a.c1, x1), t2);
    lemma_mul_shift(a.c0, x0, t1, c);
    lemma_mul_shift(a.c1, x1, t2, c);
    lemma_mul_shift(a.c2, x2, t3, c);
    let z = embed(0);
    assert(poly_add(t3, z) == t3);
    lemma_mul_shift(a.c3, x3, z, c);
    assert(poly_mul(z, c) == z) by {
        broadcast use vstd::arithmetic::mul::group_mul_basics;
    }
}

proof fn lemma_poly_mul_assoc(a: E4, b: E4, c: E4)
    ensures
        poly_mul(poly_mul(a, b), c) == poly_mul(a, poly_mul(b, c)),
{
    let s1 = poly_shift(b);
    let s2 = poly_shift(s1);
    let s3 = poly_shift(s2);
    lemma_mul_as_comb(a, b);
    lemma_comb_mul(a, b, s1, s2, s3, c);
    lemma_shift_mul(b, c);
    lemma_shift_mul(s1, c);
    lemma_shift_mul(s2, c);
    lemma_mul_as_comb(a, poly_mul(b, c));
}

proof fn lemma_mul_congruent(a: E4, b: E4)
    ensures
        poly_reduce(poly_mul(poly_reduce(a), b)) == poly_reduce(poly_mul(a, b)),
        poly_reduce(poly_mul(b, poly_reduce(a))) == poly_reduce(poly_mul(b, a)),
{
    lemma_split(a);
    lemma_mul_shift(order(), poly_quot(a), poly_reduce(a), b);
    lemma_reduce_multiple(poly_mul(poly_quot(a), b), poly_mul(poly_reduce(a), b));
    lemma_poly_mul_comm(b, poly_reduce(a));
    lemma_poly_mul_comm(b, a);
}

proof fn lemma_add_congruent(a: E4, b: E4)
    ensures
        poly_reduce(poly_add(poly_reduce(a), b)) == poly_reduce(poly_add(a, b)),
        poly_reduce(poly_add(b, poly_reduce(a))) == poly_reduce(poly_add(b, a)),
        poly_reduce(poly_sub(poly_reduce(a), b)) == poly_reduce(poly_sub(a, b)),
        poly_reduce(poly_sub(b, poly_reduce(a))) == poly_reduce(poly_sub(b, a)),
{
    lemma_split(a);
    let q = poly_quot(a);
    let ra = poly_reduce(a);
    lemma_reduce_multiple(q, poly_add(ra, b));
    assert(poly_add(a, b) == poly_add(poly_scale(order(), q), poly_add(ra, b)));
    assert(poly_add(b, a) == poly_add(a, b));
    assert(poly_add(b, ra) == poly_add(ra, b));
    lemma_reduce_multiple(q, poly_sub(ra, b));
    assert(poly_sub(a, b) == poly_add(poly_scale(order(), q), poly_sub(ra, b)));
    let nq = poly_scale(-1, q);
    lemma_reduce_multiple(nq, poly_sub(b, ra));
    assert(poly_scale(order(), nq) == poly_sub(embed(0), poly_scale(order(), q))) by {
        assert(order() * (-1 * q.c0) == -(order() * q.c0)) by (nonlinear_arith);
        assert(order() * (-1 * q.c1) == -(order() * q.c1)) by (nonlinear_arith);
        assert(order() * (-1 * q.c2) == -(order() * q.c2)) by (nonlinear_arith);
        assert(order() * (-1 * q.c3) == -(order() * q.c3)) by (nonlinear_arith);
    }
    assert(poly_sub(b, a) == poly_add(poly_scale(order(), nq), poly_sub(b, ra)));
}

proof fn lemma_reduce_canon(a: E4)
    ensures
        poly_reduce(a).canon(),
        a.canon() ==> poly_reduce(a) == a,
{
    if a.canon() {
        lemma_small_mod(a.c0 as nat, order() as nat);
        lemma_small_mod(a.c1 as nat, order() as nat);
        lemma_small_mod(a.c2 as nat, order() as nat);
        lemma_small_mod(a.c3 as nat, order() as nat);
    }
}

/// A sum is canonical.
pub broadcast proof fn add_canon(a: E4, b: E4)
    ensures
        (#[trigger] (a + b)).canon(),
{
    reveal(E4::spec_add);
    lemma_reduce_canon(poly_add(a, b));
}

/// A difference is canonical.
pub broadcast proof fn sub_canon(a: E4, b: E4)
    ensures
        (#[trigger] (a - b)).canon(),
{
    reveal(E4::spec_sub);
    lemma_reduce_canon(poly_sub(a, b));
}

/// A product is canonical.
pub broadcast proof fn mul_canon(a: E4, b: E4)
    ensures
        (#[trigger] (a * b)).canon(),
{
    reveal(E4::spec_mul);
    lemma_reduce_canon(poly_mul(a, b));
}

/// Addition is commutative.
pub proof fn add_comm(a: E4, b: E4)
    ensures
        a + b == b + a,
{
    reveal(E4::spec_add);
    assert(poly_add(a, b) == poly_add(b, a));
}

/// Addition is associative.
pub proof fn add_assoc(a: E4, b: E4, c: E4)
    ensures
        (a + b) + c == a + (b + c),
{
    reveal(E4::spec_add);
    lemma_add_congruent(poly_add(a, b), c);
    lemma_add_congruent(poly_add(b, c), a);
    assert(poly_add(poly_add(a, b), c) == poly_add(a, poly_add(b, c)));
}

/// Zero is the additive identity.
pub broadcast proof fn add_zero(a: E4)
    requires
        a.canon(),
    ensures
        #[trigger] (a + e_zero()) == a,
        #[trigger] (e_zero() + a) == a,
{
    reveal(E4::spec_add);
    lemma_reduce_canon(a);
    assert(poly_add(a, e_zero()) == a);
    assert(poly_add(e_zero(), a) == a);
}

/// Subtraction undoes addition.
pub proof fn add_sub_cancel(a: E4, b: E4)
    requires
        a.canon(),
    ensures
        (a + b) - b == a,
{
    reveal(E4::spec_add);
    reveal(E4::spec_sub);
    lemma_add_congruent(poly_add(a, b), b);
    lemma_reduce_canon(a);
    assert(poly_sub(poly_add(a, b), b) == a);
}

/// Addition undoes subtraction.
pub proof fn sub_add_cancel(a: E4, b: E4)
    requires
        a.canon(),
    ensures
        (a - b) + b == a,
{
    reveal(E4::spec_add);
    reveal(E4::spec_sub);
    lemma_add_congruent(poly_sub(a, b), b);
    lemma_reduce_canon(a);
    assert(poly_add(poly_sub(a, b), b) == a);
}

/// A difference plus a third element regroups.
pub proof fn add_sub_assoc(a: E4, b: E4, c: E4)
    ensures
        a + (b - c) == (a + b) - c,
{
    reveal(E4::spec_add);
    reveal(E4::spec_sub);
    lemma_add_congruent(poly_sub(b, c), a);
    lemma_add_congruent(poly_add(a, b), c);
    assert(poly_add(a, poly_sub(b, c)) == poly_sub(poly_add(a, b), c));
}

/// Subtracting a sum subtracts each term.
pub proof fn sub_add_assoc(a: E4, b: E4, c: E4)
    ensures
        a - (b + c) == (a - b) - c,
{
    reveal(E4::spec_add);
    reveal(E4::spec_sub);
    lemma_add_congruent(poly_add(b, c), a);
    lemma_add_congruent(poly_sub(a, b), c);
    assert(poly_sub(a, poly_add(b, c)) == poly_sub(poly_sub(a, b), c));
}

/// An element minus itself is zero.
pub proof fn sub_self(a: E4)
    ensures
        a - a == e_zero(),
{
    reveal(E4::spec_sub);
    assert(poly_sub(a, a) == e_zero());
    lemma_reduce_canon(e_zero());
}

/// Multiplication is commutative.
pub proof fn mul_comm(a: E4, b: E4)
    ensures
        a * b == b * a,
{
    reveal(E4::spec_mul);
    lemma_poly_mul_comm(a, b);
}

/// Multiplication is associative.
pub proof fn mul_assoc(a: E4, b: E4, c: E4)
    ensures
        (a * b) * c == a * (b * c),
{
    reveal(E4::spec_mul);
    lemma_mul_congruent(poly_mul(a, b), c);
    lemma_mul_congruent(poly_mul(b, c), a);
    lemma_poly_mul_assoc(a, b, c);
}

/// Multiplication distributes over addition.
pub proof fn mul_add(a: E4, b: E4, c: E4)
    ensures
        a * (b + c) == a * b + a * c,
        (b + c) * a == b * a + c * a,
{
    reveal(E4::spec_mul);
    reveal(E4::spec_add);
    lemma_mul_congruent(poly_add(b, c), a);
    lemma_add_congruent(poly_mul(a, b), poly_reduce(poly_mul(a, c)));
    lemma_add_congruent(poly_mul(a, c), poly_mul(a, b));
    lemma_poly_mul_comm(a, b);
    lemma_poly_mul_comm(a, c);
    lemma_poly_mul_comm(a, poly_add(b, c));
    lemma_mul_shift(1, b, c, a);
    assert(poly_scale(1, b) == b);
    assert(poly_scale(1, poly_mul(b, a)) == poly_mul(b, a));
}

/// Multiplication distributes over subtraction.
pub proof fn mul_sub(a: E4, b: E4, c: E4)
    ensures
        a * (b - c) == a * b - a * c,
        (b - c) * a == b * a - c * a,
{
    sub_canon(b, c);
    sub_add_cancel_any(b, c);
    mul_add(a, b - c, c);
    mul_canon(a, b - c);
    add_sub_cancel(a * (b - c), a * c);
    mul_reduce(a, b);
    mul_comm(a, b - c);
    mul_comm(a, b);
    mul_comm(a, c);
}

proof fn sub_add_cancel_any(a: E4, b: E4)
    ensures
        (a - b) + b == poly_reduce(a),
{
    reveal(E4::spec_add);
    reveal(E4::spec_sub);
    lemma_add_congruent(poly_sub(a, b), b);
    assert(poly_add(poly_sub(a, b), b) == a);
}

/// A factor may be reduced before a product.
pub proof fn mul_reduce(a: E4, b: E4)
    ensures
        a * poly_reduce(b) == a * b,
{
    reveal(E4::spec_mul);
    lemma_mul_congruent(b, a);
}

/// One is the multiplicative identity.
pub broadcast proof fn mul_one(a: E4)
    requires
        a.canon(),
    ensures
        #[trigger] (a * e_one()) == a,
        #[trigger] (e_one() * a) == a,
{
    reveal(E4::spec_mul);
    lemma_reduce_canon(a);
    assert(poly_mul(a, e_one()) == a) by {
        broadcast use vstd::arithmetic::mul::group_mul_basics;
    }
    assert(poly_mul(e_one(), a) == a) by {
        broadcast use vstd::arithmetic::mul::group_mul_basics;
    }
}

/// Zero annihilates.
pub broadcast proof fn mul_zero(a: E4)
    ensures
        #[trigger] (a * e_zero()) == e_zero(),
        #[trigger] (e_zero() * a) == e_zero(),
{
    reveal(E4::spec_mul);
    lemma_reduce_canon(e_zero());
    assert(poly_mul(a, e_zero()) == e_zero()) by {
        broadcast use vstd::arithmetic::mul::group_mul_basics;
    }
    assert(poly_mul(e_zero(), a) == e_zero()) by {
        broadcast use vstd::arithmetic::mul::group_mul_basics;
    }
}

/// An element of the extension field.
#[derive(Clone, Copy, Debug)]
pub struct Ext {
    /// The constant coefficient.
    pub c0: Felt,
    /// The coefficient of `X`.
    pub c1: Felt,
    /// The coefficient of `X^2`.
    pub c2: Felt,
    /// The coefficient of `X^3`.
    pub c3: Felt,
}

/// The number of base-field coefficients of an extension element.
pub const DIMENSION: usize = 4;

impl View for Ext {
    type V = E4;

    open spec fn view(&self) -> E4 {
        E4 { c0: self.c0@, c1: self.c1@, c2: self.c2@, c3: self.c3@ }
    }
}

/// The view of an extension element is canonical.
pub broadcast proof fn ext_canon(x: Ext)
    ensures
        (#[trigger] x@).canon(),
{
    broadcast use felt_canonical;
}

/// The embedding keeps sums and products.
pub proof fn embed_keeps(a: int, b: int)
    ensures
        embed(fadd(a, b)) == embed(a) + embed(b),
        embed(fmul(a, b)) == embed(a) * embed(b),
        embed(fsub(a, b)) == embed(a) - embed(b),
{
    reveal(E4::spec_add);
    reveal(E4::spec_sub);
    reveal(E4::spec_mul);
    lemma_reduce_canon(e_zero());
    assert(poly_mul(embed(a), embed(b)) == embed(a * b)) by {
        broadcast use vstd::arithmetic::mul::group_mul_basics;

    }
}

/// The views of a sequence of elements.
pub open spec fn evals(s: Seq<Ext>) -> Seq<E4> {
    Seq::new(s.len(), |i: int| s[i]@)
}

/// The views of a sequence of points.
pub open spec fn epoints(s: Seq<Vec<Ext>>) -> Seq<Seq<E4>> {
    Seq::new(s.len(), |i: int| evals(s[i]@))
}

/// The residues of a sequence of base-field elements.
pub open spec fn fvals(s: Seq<Felt>) -> Seq<int> {
    Seq::new(s.len(), |i: int| s[i]@)
}

/// A sequence of residues as constants of the extension.
pub open spec fn lift(s: Seq<int>) -> Seq<E4> {
    Seq::new(s.len(), |i: int| embed(s[i]))
}

/// Whether every element of a sequence is canonical.
pub open spec fn all_canon(s: Seq<E4>) -> bool {
    forall|i: int| 0 <= i < s.len() ==> (#[trigger] s[i]).canon()
}

/// The views of a sequence of elements are canonical.
pub broadcast proof fn evals_canon(s: Seq<Ext>)
    ensures
        all_canon(#[trigger] evals(s)),
{
    broadcast use ext_canon;
}

impl Ext {
    /// The embedding of a base-field element.
    pub fn from_base(x: Felt) -> (r: Ext)
        ensures
            r@ == embed(x@),
    {
        Ext { c0: x, c1: Felt::zero(), c2: Felt::zero(), c3: Felt::zero() }
    }

    /// The additive identity.
    pub fn zero() -> (r: Ext)
        ensures
            r@ == e_zero(),
    {
        Ext::from_base(Felt::zero())
    }

    /// The multiplicative identity.
    pub fn one() -> (r: Ext)
        ensures
            r@ == e_one(),
    {
        Ext::from_base(Felt::one())
    }

    /// Addition.
    pub fn plus(self, other: Ext) -> (r: Ext)
        ensures
            r@ == self@ + other@,
    {
        proof {
            reveal(E4::spec_add);
        }
        Ext {
            c0: self.c0.plus(other.c0),
            c1: self.c1.plus(other.c1),
            c2: self.c2.plus(other.c2),
            c3: self.c3.plus(other.c3),
        }
    }

    /// Subtraction.
    pub fn minus(self, other: Ext) -> (r: Ext)
        ensures
            r@ == self@ - other@,
    {
        proof {
            reveal(E4::spec_sub);
        }
        Ext {
            c0: self.c0.minus(other.c0),
            c1: self.c1.minus(other.c1),
            c2: self.c2.minus(other.c2),
            c3: self.c3.minus(other.c3),
        }
    }

    /// Multiplication.
    pub fn times(self, other: Ext) -> (r: Ext)
        ensures
            r@ == self@ * other@,
    {
        let a0: u64 = self.c0.value() as u64;
        let a1: u64 = self.c1.value() as u64;
        let a2: u64 = self.c2.value() as u64;
        let a3: u64 = self.c3.value() as u64;
        let b0: u64 = other.c0.value() as u64;
        let b1: u64 = other.c1.value() as u64;
        let b2: u64 = other.c2.value() as u64;
        let b3: u64 = other.c3.value() as u64;
        let r = Ext {
            c0: dot4(a0, b0, 1, a1, b3, 3, a2, b2, 3, a3, b1, 3),
            c1: dot4(a0, b1, 1, a1, b0, 1, a2, b3, 3, a3, b2, 3),
            c2: dot4(a0, b2, 1, a1, b1, 1, a2, b0, 1, a3, b3, 3),
            c3: dot4(a0, b3, 1, a1, b2, 1, a2, b1, 1, a3, b0, 1),
        };
        proof {
            reveal(E4::spec_mul);
        }
        r
    }

    /// The square of an element.
    pub fn square(self) -> (r: Ext)
        ensures
            r@ == self@ * self@,
    {
        self.times(self)
    }

    /// An element added to itself.
    pub fn double(self) -> (r: Ext)
        ensures
            r@ == self@ + self@,
    {
        self.plus(self)
    }

    /// The `n`-th power, by repeated squaring.
    pub fn exp_u64(self, n: u64) -> (r: Ext)
        ensures
            r@ == e_pow(self@, n as nat),
    {
        let mut acc = Ext::one();
        let mut base = self;
        let mut k: u64 = n;
        proof {
            ext_canon(self);
            pow_canon(self@, n as nat);
            mul_one(e_pow(self@, n as nat));
        }
        while k > 0
            invariant
                acc@ * e_pow(base@, k as nat) == e_pow(self@, n as nat),
                acc@.canon(),
            decreases k,
        {
            let ghost b = base@;
            let ghost a = acc@;
            let half: u64 = k / 2;
            proof {
                pow_square(b, half as nat);
            }
            if k % 2 == 1 {
                acc = acc.times(base);
                proof {
                    mul_canon(a, b);
                    mul_assoc(a, b, e_pow(b * b, half as nat));
                    mul_comm(b, e_pow(b * b, half as nat));
                    assert(e_pow(b, k as nat) == e_pow(b, (2 * half) as nat) * b);
                }
            }
            base = base.times(base);
            k = half;
        }
        proof {
            mul_one(acc@);
        }
        acc
    }

    /// Whether two elements are equal.
    pub fn same(&self, other: &Ext) -> (r: bool)
        ensures
            r == (self@ == other@),
    {
        self.c0.same(&other.c0) && self.c1.same(&other.c1) && self.c2.same(&other.c2)
            && self.c3.same(&other.c3)
    }
}

impl PartialEq for Ext {
    fn eq(&self, other: &Ext) -> (r: bool) {
        self.same(other)
    }
}

impl vstd::std_specs::cmp::PartialEqSpecImpl for Ext {
    open spec fn obeys_eq_spec() -> bool {
        true
    }

    open spec fn eq_spec(&self, other: &Ext) -> bool {
        self@ == other@
    }
}

fn scaled_product(a: u64, b: u64, m: u64) -> (r: u64)
    requires
        a < 2130706433,
        b < 2130706433,
        m <= 3,
    ensures
        r < 2130706433,
        r as int == reduce(m * (a * b)),
{
    proof {
        lemma_mul_upper_bound(a as int, 2130706432, b as int, 2130706432);
        lemma_mul_upper_bound(m as int, 3, a * b, 2130706432int * 2130706432int);
        lemma_mul_nonnegative(a as int, b as int);
        lemma_mul_nonnegative(m as int, a * b);
    }
    (m * (a * b)) % 2130706433
}

fn dot4(
    a0: u64, b0: u64, m0: u64,
    a1: u64, b1: u64, m1: u64,
    a2: u64, b2: u64, m2: u64,
    a3: u64, b3: u64, m3: u64,
) -> (r: Felt)
    requires
        a0 < 2130706433, b0 < 2130706433, m0 <= 3,
        a1 < 2130706433, b1 < 2130706433, m1 <= 3,
        a2 < 2130706433, b2 < 2130706433, m2 <= 3,
        a3 < 2130706433, b3 < 2130706433, m3 <= 3,
    ensures
        r@ == reduce(m0 * (a0 * b0) + m1 * (a1 * b1) + m2 * (a2 * b2) + m3 * (a3 * b3)),
{
    let x0: u64 = scaled_product(a0, b0, m0);
    let x1: u64 = scaled_product(a1, b1, m1);
    let x2: u64 = scaled_product(a2, b2, m2);
    let x3: u64 = scaled_product(a3, b3, m3);
    proof {
        vstd::arithmetic::div_mod::lemma_mod_twice(x0 + x1 + x2 + x3, order());
        lemma_reduce_sum4(m0 * (a0 * b0), m1 * (a1 * b1), m2 * (a2 * b2), m3 * (a3 * b3));
    }
    Felt::new(((x0 + x1 + x2 + x3) % 2130706433) as u32)
}

proof fn lemma_reduce_sum4(x0: int, x1: int, x2: int, x3: int)
    ensures
        reduce(reduce(x0) + reduce(x1) + reduce(x2) + reduce(x3)) == reduce(x0 + x1 + x2 + x3),
{
    let p = order();
    vstd::arithmetic::div_mod::lemma_add_mod_noop(x0, x1, p);
    vstd::arithmetic::div_mod::lemma_add_mod_noop(x0 + x1, x2, p);
    vstd::arithmetic::div_mod::lemma_add_mod_noop(reduce(x0) + reduce(x1), reduce(x2), p);
    vstd::arithmetic::div_mod::lemma_add_mod_noop(x0 + x1 + x2, x3, p);
    vstd::arithmetic::div_mod::lemma_add_mod_noop(
        reduce(x0) + reduce(x1) + reduce(x2),
        reduce(x3),
        p,
    );
    vstd::arithmetic::div_mod::lemma_mod_twice(x2, p);
    vstd::arithmetic::div_mod::lemma_mod_twice(x3, p);
}

/// A power is canonical.
pub proof fn pow_canon(x: E4, n: nat)
    ensures
        e_pow(x, n).canon(),
{
    if n > 0 {
        mul_canon(e_pow(x, (n - 1) as nat), x);
    }
}

/// The power of a square is the even power.
pub proof fn pow_square(x: E4, n: nat)
    ensures
        e_pow(x * x, n) == e_pow(x, 2 * n),
    decreases n,
{
    if n > 0 {
        pow_square(x, (n - 1) as nat);
        let y = e_pow(x, (2 * n - 2) as nat);
        mul_assoc(y, x, x);
        assert(e_pow(x, (2 * n - 1) as nat) == y * x);
    }
}

/// The multiplicative inverse of an element that has one.
pub open spec fn e_inv(x: E4) -> E4 {
    choose|y: E4| y.canon() && x * y == e_one()
}

/// An inverse is unique.
pub proof fn inverse_unique(x: E4, y: E4)
    requires
        y.canon(),
        x * y == e_one(),
    ensures
        e_inv(x) == y,
{
    let z = e_inv(x);
    assert(z.canon() && x * z == e_one());
    mul_one(z);
    mul_one(y);
    mul_comm(x, z);
    mul_assoc(z, x, y);
}

/// `p3_field::Field::inverse` on the quartic extension of `KoalaBear`: the inverse of a
/// nonzero element. The claim is that its product with the argument is one.
#[verifier::external_body]
fn quartic_inverse(x: Ext) -> (r: Ext)
    requires
        x@ != e_zero(),
    ensures
        x@ * r@ == e_one(),
{
    let kb = |f: Felt| KoalaBear::from_u32(f.value());
    let back = |k: KoalaBear| Felt::new(k.as_canonical_u32());
    let e = BinomialExtensionField::<KoalaBear, 4>::new([kb(x.c0), kb(x.c1), kb(x.c2), kb(x.c3)]);
    let inverse = e.inverse();
    let c: &[KoalaBear] = inverse.as_basis_coefficients_slice();
    Ext { c0: back(c[0]), c1: back(c[1]), c2: back(c[2]), c3: back(c[3]) }
}

impl Ext {
    /// The multiplicative inverse of a nonzero element.
    pub fn inverse(self) -> (r: Ext)
        requires
            self@ != e_zero(),
        ensures
            r@ == e_inv(self@),
            self@ * r@ == e_one(),
    {
        let r = quartic_inverse(self);
        proof {
            ext_canon(r);
            inverse_unique(self@, r@);
        }
        r
    }
}

} // verus!
