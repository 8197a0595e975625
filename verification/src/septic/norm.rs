//! The norm of an element of the septic extension.
//!
//! The norm is a power of the element. It lies in the base field, and is zero only for zero,
//! so that every other element has an inverse, and the norm of a square is a square.
use vstd::prelude::*;
use crate::felt::{canonical, fmul, order};
use crate::septic::element::{conjugates, embed_product, frob, half_power, has_norm, is_square, norm,
    odd_images, root_found};
use crate::septic::field::{mul_assoc, mul_canon, mul_comm, mul_one, mul_zero, s_embed, s_one, s_pow,
    s_zero, S7};
use crate::septic::frobenius::{frob_canon, frob_comes_back, frob_is_power, frob_of_product,
    kept_elements_are_residues};
use crate::septic::power::{pow_add, pow_mul, pow_product, swap_factors};

verus! {

/// An element times its conjugates.
pub open spec fn full_norm(x: S7) -> S7 {
    x * conjugates(x)
}

/// The power of `x` by `n` is `v`.
#[verifier::opaque]
spec fn is_power(x: S7, n: nat, v: S7) -> bool {
    s_pow(x, n) == v
}

proof fn power_of_product(x: S7, a: nat, u: S7, b: nat, v: S7)
    requires
        is_power(x, a, u),
        is_power(x, b, v),
    ensures
        is_power(x, a + b, u * v),
{
    reveal(is_power);
    pow_add(x, a, b);
}

proof fn power_of_image(x: S7, a: nat, u: S7)
    requires
        is_power(x, a, u),
        u.canon(),
    ensures
        is_power(x, a * 2130706433, frob(u)),
{
    reveal(is_power);
    frob_is_power(u);
    pow_mul(x, a, 2130706433);
}

/// The powers of the field order.
spec fn op(k: nat) -> nat
    decreases k,
{
    if k == 0 {
        1
    } else {
        op((k - 1) as nat) * 2130706433
    }
}

/// The exponent by which an element gives its norm.
spec fn norm_exponent() -> nat {
    1 + ((op(1) + (op(3) + op(5))) + (op(2) + (op(4) + op(6))))
}

/// By how much the seventh power of the field order exceeds that exponent.
spec fn rest_exponent() -> nat {
    (op(7) - norm_exponent()) as nat
}

proof fn exponents_add_up()
    ensures
        norm_exponent() + rest_exponent() == op(7),
        op(1) == 2130706433,
{
    reveal_with_fuel(op, 9);
}

/// The images of an element under the powers of the map.
spec fn images(x: S7, k: nat) -> S7
    decreases k,
{
    if k == 0 {
        x
    } else {
        frob(images(x, (k - 1) as nat))
    }
}

proof fn images_canon(x: S7, k: nat)
    requires
        x.canon(),
    ensures
        images(x, k).canon(),
    decreases k,
{
    if k > 0 {
        images_canon(x, (k - 1) as nat);
        frob_canon(images(x, (k - 1) as nat));
    }
}

proof fn image_of_pair(x: S7, y: S7, z: S7)
    requires
        x.canon(),
        y.canon(),
        z.canon(),
    ensures
        frob(x * (y * z)) == frob(x) * (frob(y) * frob(z)),
{
    mul_canon(y, z);
    frob_of_product(x, y * z);
    frob_of_product(y, z);
}

/// The odd images and their images are products of images.
proof fn odd_images_are_images(x: S7)
    requires
        x.canon(),
    ensures
        odd_images(x) == images(x, 1) * (images(x, 3) * images(x, 5)),
        frob(odd_images(x)) == images(x, 2) * (images(x, 4) * images(x, 6)),
{
    reveal_with_fuel(images, 8);
    images_canon(x, 1);
    images_canon(x, 2);
    images_canon(x, 3);
    images_canon(x, 4);
    images_canon(x, 5);
    let f2 = images(x, 2);
    let f3 = images(x, 3);
    let f4 = images(x, 4);
    frob_of_product(x, f2);
    frob_of_product(images(x, 1), f3);
    mul_canon(f2, f4);
    mul_canon(f3, images(x, 5));
    image_of_pair(x, f2, f4);
    image_of_pair(images(x, 1), f3, images(x, 5));
}

/// The map keeps the product of an element with its conjugates.
proof fn full_norm_is_kept(x: S7)
    requires
        x.canon(),
    ensures
        frob(full_norm(x)) == full_norm(x),
        full_norm(x).canon(),
{
    reveal_with_fuel(images, 8);
    odd_images_are_images(x);
    let o = odd_images(x);
    let e = frob(o);
    let f1 = images(x, 1);
    let f3 = images(x, 3);
    let f5 = images(x, 5);
    images_canon(x, 1);
    images_canon(x, 2);
    images_canon(x, 3);
    images_canon(x, 4);
    images_canon(x, 5);
    images_canon(x, 6);
    mul_canon(f1, f3 * f5);
    mul_canon(images(x, 2), images(x, 4) * images(x, 6));
    mul_canon(o, e);
    mul_canon(x, o * e);
    frob_of_product(x, o * e);
    frob_of_product(o, e);
    image_of_pair(images(x, 2), images(x, 4), images(x, 6));
    frob_comes_back(x);
    assert(images(x, 7) == x);
    // f1 * (e * (f3 * (f5 * x))) == x * ((f1 * (f3 * f5)) * e)
    let a = f3 * f5;
    mul_assoc(f3, f5, x);
    mul_assoc(e, a, x);
    mul_assoc(f1, e * a, x);
    mul_comm(e, a);
    mul_assoc(f1, a, e);
    mul_comm((f1 * a) * e, x);
}

/// The product of an element with its conjugates is a power of the element.
proof fn full_norm_is_power(x: S7)
    requires
        x.canon(),
    ensures
        is_power(x, norm_exponent(), full_norm(x)),
{
    images_are_powers(x);
    odd_images_are_images(x);
    power_of_product(x, op(3), images(x, 3), op(5), images(x, 5));
    power_of_product(x, op(1), images(x, 1), (op(3) + op(5)), images(x, 3) * images(x, 5));
    power_of_product(x, op(4), images(x, 4), op(6), images(x, 6));
    power_of_product(x, op(2), images(x, 2), (op(4) + op(6)), images(x, 4) * images(x, 6));
    power_of_product(x, (op(1) + (op(3) + op(5))), odd_images(x), (op(2) + (op(4) + op(6))), frob(odd_images(x)));
    power_of_product(x, 1, x, ((op(1) + (op(3) + op(5))) + (op(2) + (op(4) + op(6)))), conjugates(x));
}

proof fn images_are_powers(x: S7)
    requires
        x.canon(),
    ensures
        is_power(x, 1, x),
        is_power(x, op(1), images(x, 1)),
        is_power(x, op(2), images(x, 2)),
        is_power(x, op(3), images(x, 3)),
        is_power(x, op(4), images(x, 4)),
        is_power(x, op(5), images(x, 5)),
        is_power(x, op(6), images(x, 6)),
        is_power(x, op(7), images(x, 7)),
{
    assert(is_power(x, 1, x)) by {
        reveal(is_power);
        reveal_with_fuel(s_pow, 2);
        mul_one(x);
    }
    reveal_with_fuel(images, 8);
    reveal_with_fuel(op, 9);
    images_canon(x, 0);
    power_of_image(x, 1, images(x, 0));
    images_canon(x, 1);
    power_of_image(x, op(1), images(x, 1));
    images_canon(x, 2);
    power_of_image(x, op(2), images(x, 2));
    images_canon(x, 3);
    power_of_image(x, op(3), images(x, 3));
    images_canon(x, 4);
    power_of_image(x, op(4), images(x, 4));
    images_canon(x, 5);
    power_of_image(x, op(5), images(x, 5));
    images_canon(x, 6);
    power_of_image(x, op(6), images(x, 6));
}

/// The product with the conjugates is zero only for zero.
proof fn full_norm_is_not_zero(x: S7)
    requires
        x.canon(),
        x != s_zero(),
    ensures
        full_norm(x) != s_zero(),
{
    if full_norm(x) == s_zero() {
        full_norm_is_power(x);
        images_are_powers(x);
        exponents_add_up();
        let rest = s_pow(x, rest_exponent());
        assert(is_power(x, rest_exponent(), rest)) by {
            reveal(is_power);
        }
        power_of_product(x, norm_exponent(), full_norm(x), rest_exponent(), rest);
        mul_zero(rest);
        assert(is_power(x, op(7), s_zero()));
        assert(images(x, 7) == s_zero()) by {
            reveal(is_power);
        }
        reveal_with_fuel(images, 8);
        frob_comes_back(x);
    }
}

/// Every nonzero element has a norm: the product with its conjugates is a nonzero residue of
/// the base field.
pub proof fn nonzero_has_norm(x: S7)
    requires
        x.canon(),
        x != s_zero(),
    ensures
        has_norm(x),
{
    full_norm_is_kept(x);
    full_norm_is_not_zero(x);
    kept_elements_are_residues(full_norm(x));
}

/// Only a nonzero element has a norm.
pub proof fn norm_means_nonzero(x: S7)
    requires
        has_norm(x),
    ensures
        x != s_zero(),
{
    if x == s_zero() {
        mul_zero(conjugates(x));
    }
}

/// Every nonzero element has an inverse.
pub proof fn nonzero_has_inverse(x: S7) -> (y: S7)
    requires
        x.canon(),
        x != s_zero(),
    ensures
        y.canon(),
        x * y == s_one(),
{
    nonzero_has_norm(x);
    full_norm_is_kept(x);
    let n = norm(x);
    let b = crate::prime::residues_are_invertible(n);
    let c = conjugates(x);
    let y = c * s_embed(b);
    mul_canon(c, s_embed(b));
    mul_assoc(x, c, s_embed(b));
    embed_product(n, b);
    y
}

/// A product of nonzero elements is not zero.
pub proof fn no_zero_divisors(x: S7, y: S7)
    requires
        x.canon(),
        y.canon(),
        x * y == s_zero(),
    ensures
        x == s_zero() || y == s_zero(),
{
    if x != s_zero() {
        let i = nonzero_has_inverse(x);
        mul_comm(x, i);
        mul_assoc(i, x, y);
        mul_zero(i);
        mul_one(y);
    }
}

/// The square of the half power is the norm times the element.
proof fn half_power_squares(x: S7)
    requires
        x.canon(),
    ensures
        half_power(x) * half_power(x) == full_norm(x) * x,
{
    let o = odd_images(x);
    odd_images_are_images(x);
    images_canon(x, 1);
    mul_canon(images(x, 1), images(x, 3) * images(x, 5));
    let h = s_pow(o, 1065353217);
    swap_factors(h, x, h, x);
    pow_add(o, 1065353217, 1065353217);
    pow_add(o, 1, 2130706433);
    frob_is_power(o);
    assert(s_pow(o, 1) == o) by {
        reveal_with_fuel(s_pow, 2);
        mul_one(o);
    }
    assert(h * h == conjugates(x));
    mul_assoc(conjugates(x), x, x);
    mul_comm(conjugates(x), x);
}

/// Every square has a root that is found by its norm.
pub proof fn squares_have_roots(x: S7, y: S7)
    requires
        y.canon(),
        y * y == x,
    ensures
        root_found(x),
{
    if x != s_zero() {
        mul_canon(y, y);
        nonzero_has_norm(x);
        half_power_squares(x);
        if y == s_zero() {
            mul_zero(y);
        }
        nonzero_has_norm(y);
        full_norm_is_kept(y);
        full_norm_is_power(x);
        full_norm_is_power(y);
        let e: nat = norm_exponent();
        assert(full_norm(x) == full_norm(y) * full_norm(y)) by {
            reveal(is_power);
            pow_product(y, y, e);
        }
        let m = norm(y);
        embed_product(m, m);
        assert(fmul(m, m) == norm(x));
        assert(canonical(m) && fmul(m, m) == norm(x));
        assert(is_square(norm(x)));
    }
}

} // verus!
