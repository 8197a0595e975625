//! Powers in the septic extension, and the power by the order of the base field.
use vstd::prelude::*;
use vstd::arithmetic::div_mod::{lemma_add_mod_noop, lemma_mod_bound, lemma_mod_multiples_basic,
    lemma_small_mod};
use crate::felt::{order, reduce};
use crate::prime::divides_a_factor;
use crate::septic::element::pow_canon;
use crate::septic::field::{add_assoc, add_canon, add_comm, add_zero, mul_add, mul_assoc, mul_canon,
    mul_comm, mul_one, mul_zero, s_embed, s_one, s_pow, s_zero, S7};

verus! {

/// A power of a sum of exponents is the product of the powers.
pub proof fn pow_add(x: S7, a: nat, b: nat)
    ensures
        s_pow(x, a + b) == s_pow(x, a) * s_pow(x, b),
    decreases b,
{
    if b == 0 {
        pow_canon(x, a);
        mul_one(s_pow(x, a));
    } else {
        pow_add(x, a, (b - 1) as nat);
        mul_assoc(s_pow(x, a), s_pow(x, (b - 1) as nat), x);
        assert((a + b - 1) as nat == a + (b - 1) as nat);
    }
}

/// A power of a power is the power by the product.
pub proof fn pow_mul(x: S7, a: nat, b: nat)
    ensures
        s_pow(s_pow(x, a), b) == s_pow(x, a * b),
    decreases b,
{
    if b == 0 {
        assert(a * b == 0) by (nonlinear_arith)
            requires
                b == 0,
        ;
    } else {
        pow_mul(x, a, (b - 1) as nat);
        assert(a * b == a * (b - 1) + a) by (nonlinear_arith)
            requires
                b > 0,
        ;
        assert(0 <= a * (b - 1)) by (nonlinear_arith)
            requires
                b > 0,
        ;
        pow_add(x, (a * (b - 1)) as nat, a);
    }
}

/// A power of a product is the product of the powers.
pub proof fn pow_product(x: S7, y: S7, n: nat)
    ensures
        s_pow(x * y, n) == s_pow(x, n) * s_pow(y, n),
    decreases n,
{
    if n == 0 {
        mul_one(s_one());
    } else {
        let a = s_pow(x, (n - 1) as nat);
        let b = s_pow(y, (n - 1) as nat);
        pow_product(x, y, (n - 1) as nat);
        swap_factors(a, b, x, y);
    }
}

/// The middle factors of a product of two products trade places.
pub proof fn swap_factors(a: S7, b: S7, c: S7, d: S7)
    ensures
        (a * b) * (c * d) == (a * c) * (b * d),
{
    mul_assoc(a, b, c * d);
    mul_assoc(b, c, d);
    mul_comm(b, c);
    mul_assoc(c, b, d);
    mul_assoc(a, c, b * d);
}

/// The middle terms of a sum of two sums trade places.
pub proof fn swap_terms(a: S7, b: S7, c: S7, d: S7)
    ensures
        (a + b) + (c + d) == (a + c) + (b + d),
{
    add_assoc(a, b, c + d);
    add_assoc(b, c, d);
    add_comm(b, c);
    add_assoc(c, b, d);
    add_assoc(a, c, b + d);
}

/// A power of zero is zero.
pub proof fn pow_of_zero(n: nat)
    requires
        n > 0,
    ensures
        s_pow(s_zero(), n) == s_zero(),
{
    mul_zero(s_pow(s_zero(), (n - 1) as nat));
}

/// The number of ways to take `k` out of `n`.
pub open spec fn binomial(n: nat, k: nat) -> nat
    decreases n,
{
    if k == 0 {
        1
    } else if n == 0 {
        0
    } else {
        binomial((n - 1) as nat, (k - 1) as nat) + binomial((n - 1) as nat, k)
    }
}

proof fn binomial_ends(n: nat, k: nat)
    requires
        k >= n,
    ensures
        binomial(n, k) == if k == n {
            1nat
        } else {
            0nat
        },
    decreases n,
{
    if n > 0 {
        binomial_ends((n - 1) as nat, (k - 1) as nat);
        binomial_ends((n - 1) as nat, k);
    }
}

proof fn binomial_absorbs(n: nat, k: nat)
    requires
        n > 0,
        k > 0,
    ensures
        k * binomial(n, k) == n * binomial((n - 1) as nat, (k - 1) as nat),
    decreases n,
{
    let a = binomial((n - 1) as nat, (k - 1) as nat) as int;
    let b = binomial((n - 1) as nat, k) as int;
    assert(binomial(n, k) == a + b);
    if n == 1 {
        assert(b == 0);
        if k > 1 {
            assert(a == 0);
        }
        assert(k * (a + b) == n * a) by (nonlinear_arith)
            requires
                b == 0,
                n == 1,
                k == 1 || a == 0,
        ;
    } else {
        let m = (n - 1) as nat;
        let c = binomial((m - 1) as nat, (k - 1) as nat) as int;
        binomial_absorbs(m, k);
        assert(k * b == m * c);
        if k == 1 {
            assert(a == 1 && c == 1);
            assert(k * (a + b) == n * a) by (nonlinear_arith)
                requires
                    k == 1,
                    a == 1,
                    c == 1,
                    k * b == m * c,
                    m == n - 1,
            ;
        } else {
            let d = binomial((m - 1) as nat, (k - 2) as nat) as int;
            binomial_absorbs(m, (k - 1) as nat);
            assert((k - 1) * a == m * d);
            assert(a == d + c);
            assert(k * (a + b) == n * a) by (nonlinear_arith)
                requires
                    k * b == m * c,
                    (k - 1) * a == m * d,
                    a == d + c,
                    m == n - 1,
            ;
        }
    }
}

proof fn binomial_vanishes(k: nat)
    requires
        0 < k < order(),
    ensures
        reduce(binomial(order() as nat, k) as int) == 0,
{
    let p = order() as nat;
    binomial_absorbs(p, k);
    let b = binomial((p - 1) as nat, (k - 1) as nat) as int;
    lemma_mod_multiples_basic(b, order());
    assert(b * order() == order() * b) by (nonlinear_arith);
    divides_a_factor(k as int, binomial(p, k) as int);
}

/// A number as an element of the base field.
pub open spec fn number(k: int) -> S7 {
    s_embed(reduce(k))
}

/// Sums of numbers are taken in the base field.
pub proof fn number_add(a: int, b: int)
    ensures
        number(a) + number(b) == number(a + b),
{
    reveal(S7::spec_add);
    lemma_add_mod_noop(a, b, order());
    lemma_small_mod(0, order() as nat);
}

/// A term of the expansion of a power of a sum.
spec fn term(x: S7, y: S7, n: nat, k: nat) -> S7 {
    number(binomial(n, k) as int) * (s_pow(x, k) * s_pow(y, (n - k) as nat))
}

/// The terms up to the `k`-th.
spec fn terms(x: S7, y: S7, n: nat, k: nat) -> S7
    decreases k,
{
    if k == 0 {
        term(x, y, n, 0)
    } else {
        terms(x, y, n, (k - 1) as nat) + term(x, y, n, k)
    }
}

/// A factor moves into the second factor of a product.
proof fn move_in(a: S7, b: S7, c: S7)
    ensures
        a * (b * c) == b * (a * c),
{
    mul_assoc(a, b, c);
    mul_comm(a, b);
    mul_assoc(b, a, c);
}

proof fn first_term(x: S7, y: S7, n: nat)
    ensures
        term(x, y, n, 0) == s_pow(y, n),
{
    lemma_small_mod(1, order() as nat);
    pow_canon(y, n);
    mul_one(s_pow(y, n));
}

proof fn last_term(x: S7, y: S7, n: nat)
    ensures
        term(x, y, n, n) == s_pow(x, n),
{
    binomial_ends(n, n);
    lemma_small_mod(1, order() as nat);
    pow_canon(x, n);
    mul_one(s_pow(x, n));
}

proof fn term_step(x: S7, y: S7, n: nat, k: nat)
    requires
        0 < k <= n,
    ensures
        term(x, y, n + 1, k) == x * term(x, y, n, (k - 1) as nat) + y * term(x, y, n, k),
{
    let a = binomial(n, (k - 1) as nat) as int;
    let b = binomial(n, k) as int;
    assert(binomial(n + 1, k) == a + b);
    let xk = s_pow(x, k);
    let xl = s_pow(x, (k - 1) as nat);
    let yn = s_pow(y, (n - k) as nat);
    let ym = s_pow(y, (n + 1 - k) as nat);
    number_add(a, b);
    let t = xk * ym;
    mul_comm(number(a) + number(b), t);
    mul_add(t, number(a), number(b));
    mul_comm(t, number(a));
    mul_comm(t, number(b));
    // The part of `a`.
    assert(xk == xl * x);
    mul_comm(xl, x);
    mul_assoc(x, xl, ym);
    move_in(x, number(a), xl * ym);
    assert((n - (k - 1) as nat) as nat == (n + 1 - k) as nat);
    assert(number(a) * t == x * term(x, y, n, (k - 1) as nat));
    // The part of `b`.
    assert(ym == yn * y);
    mul_assoc(xk, yn, y);
    mul_comm(xk * yn, y);
    move_in(y, number(b), xk * yn);
    assert(number(b) * t == y * term(x, y, n, k));
}

proof fn terms_step(x: S7, y: S7, n: nat, k: nat)
    requires
        k <= n,
    ensures
        terms(x, y, n + 1, k) == if k == 0 {
            y * terms(x, y, n, 0)
        } else {
            x * terms(x, y, n, (k - 1) as nat) + y * terms(x, y, n, k)
        },
    decreases k,
{
    if k == 0 {
        first_term(x, y, n + 1);
        first_term(x, y, n);
        mul_comm(y, s_pow(y, n));
    } else {
        let j = (k - 1) as nat;
        terms_step(x, y, n, j);
        term_step(x, y, n, k);
        let tj = x * term(x, y, n, j);
        let tk = y * term(x, y, n, k);
        let yj = y * terms(x, y, n, j);
        mul_add(y, terms(x, y, n, j), term(x, y, n, k));
        if j == 0 {
            // yj + (tj + tk)
            add_assoc(yj, tj, tk);
            add_comm(yj, tj);
            add_assoc(tj, yj, tk);
        } else {
            let xi = x * terms(x, y, n, (j - 1) as nat);
            mul_add(x, terms(x, y, n, (j - 1) as nat), term(x, y, n, j));
            // (xi + yj) + (tj + tk)
            swap_terms(xi, yj, tj, tk);
        }
    }
}

/// A power of a sum is the sum of its terms.
proof fn power_of_sum(x: S7, y: S7, n: nat)
    ensures
        s_pow(x + y, n) == terms(x, y, n, n),
    decreases n,
{
    if n == 0 {
        first_term(x, y, 0);
    } else {
        let m = (n - 1) as nat;
        power_of_sum(x, y, m);
        let b = terms(x, y, m, m);
        mul_add(b, x, y);
        mul_comm(b, x);
        mul_comm(b, y);
        terms_step(x, y, m, m);
        last_term(x, y, n);
        last_term(x, y, m);
        mul_comm(s_pow(x, m), x);
        let t = term(x, y, m, m);
        assert(term(x, y, n, n) == x * t);
        if m == 0 {
            // terms(n, 0) is y * b, and b is the only term.
            add_comm(y * b, x * t);
        } else {
            let l = terms(x, y, m, (m - 1) as nat);
            mul_add(x, l, t);
            // (x * l + y * b) + x * t
            add_assoc(x * l, y * b, x * t);
            add_comm(y * b, x * t);
            add_assoc(x * l, x * t, y * b);
        }
    }
}

proof fn middle_terms_vanish(x: S7, y: S7, k: nat)
    requires
        k < order(),
    ensures
        terms(x, y, order() as nat, k) == s_pow(y, order() as nat),
    decreases k,
{
    let p = order() as nat;
    if k == 0 {
        first_term(x, y, p);
    } else {
        middle_terms_vanish(x, y, (k - 1) as nat);
        binomial_vanishes(k);
        mul_zero(s_pow(x, k) * s_pow(y, (p - k) as nat));
        pow_canon(y, p);
        add_zero(s_pow(y, p));
    }
}

/// The power of a sum by the field order is the sum of the powers.
pub proof fn power_of_sum_by_order(x: S7, y: S7)
    ensures
        s_pow(x + y, order() as nat) == s_pow(x, order() as nat) + s_pow(y, order() as nat),
{
    let p = order() as nat;
    power_of_sum(x, y, p);
    middle_terms_vanish(x, y, (p - 1) as nat);
    last_term(x, y, p);
    add_comm(s_pow(x, p), s_pow(y, p));
}

/// The power of a residue by the field order is the residue.
pub proof fn power_of_residue(c: int)
    requires
        0 <= c < order(),
    ensures
        s_pow(s_embed(c), order() as nat) == s_embed(c),
    decreases c,
{
    let p = order() as nat;
    if c == 0 {
        pow_of_zero(p);
    } else {
        power_of_residue(c - 1);
        power_of_sum_by_order(s_embed(c - 1), s_one());
        power_of_one(p);
        number_add(c - 1, 1);
        lemma_small_mod((c - 1) as nat, p);
        lemma_small_mod(1, p);
        lemma_small_mod(c as nat, p);
    }
}

proof fn power_of_one(n: nat)
    ensures
        s_pow(s_one(), n) == s_one(),
    decreases n,
{
    if n > 0 {
        power_of_one((n - 1) as nat);
        mul_one(s_one());
    }
}

} // verus!
