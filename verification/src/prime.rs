//! The order of the base field is prime.
//!
//! A proper divisor of the order would leave too few residues for the powers of an element
//! whose order is a large power of two.
use vstd::prelude::*;
use vstd::arithmetic::div_mod::{lemma_fundamental_div_mod, lemma_mod_bound, lemma_mod_mod,
    lemma_mod_multiples_basic, lemma_mul_mod_noop_left, lemma_small_mod};
use vstd::arithmetic::power2::{lemma2_to64, lemma_pow2_pos, lemma_pow2_unfold, pow2};
use vstd::set_lib::{lemma_int_range, lemma_len_subset, lemma_map_size, set_int_range};
use crate::felt::{canonical, fmul, order, reduce};

verus! {

/// The `n`-th power of `u` modulo `q`.
pub open spec fn mpow(u: int, n: nat, q: int) -> int
    decreases n,
{
    if n == 0 {
        1int % q
    } else {
        (mpow(u, (n - 1) as nat, q) * u) % q
    }
}

/// A power modulo `q` is a residue.
pub proof fn mpow_range(u: int, n: nat, q: int)
    requires
        q > 1,
    ensures
        0 <= mpow(u, n, q) < q,
{
    if n == 0 {
        lemma_mod_bound(1, q);
    } else {
        lemma_mod_bound(mpow(u, (n - 1) as nat, q) * u, q);
    }
}

proof fn mpow_add(u: int, a: nat, b: nat, q: int)
    requires
        q > 1,
    ensures
        mpow(u, a + b, q) == (mpow(u, a, q) * mpow(u, b, q)) % q,
    decreases b,
{
    let x = mpow(u, a, q);
    mpow_range(u, a, q);
    if b == 0 {
        lemma_small_mod(1, q as nat);
        lemma_small_mod(x as nat, q as nat);
        assert(mpow(u, 0, q) == 1);
        assert(x * 1 == x);
    } else {
        let y = mpow(u, (b - 1) as nat, q);
        mpow_add(u, a, (b - 1) as nat, q);
        lemma_mul_mod_noop_left(x * y, u, q);
        assert((x * y) * u == x * (y * u)) by (nonlinear_arith);
        vstd::arithmetic::div_mod::lemma_mul_mod_noop_right(x, y * u, q);
        assert(((a + b) - 1) as nat == a + (b - 1) as nat);
        assert(mpow(u, a + b, q) == (((x * y) % q) * u) % q);
        assert(mpow(u, b, q) == (y * u) % q);
    }
}

/// A power of a power.
pub proof fn mpow_mul(u: int, a: nat, b: nat, q: int)
    requires
        q > 1,
    ensures
        mpow(mpow(u, a, q), b, q) == mpow(u, a * b, q),
    decreases b,
{
    if b > 0 {
        mpow_mul(u, a, (b - 1) as nat, q);
        mpow_add(u, a * (b - 1) as nat, a, q);
        assert(a * b == a * (b - 1) + a) by (nonlinear_arith)
            requires
                b > 0,
        ;
        assert(0 <= a * (b - 1)) by (nonlinear_arith)
            requires
                b > 0,
        ;
    } else {
        assert(a * b == 0) by (nonlinear_arith)
            requires
                b == 0,
        ;
    }
}

proof fn mpow_of_one(n: nat, q: int)
    requires
        q > 1,
    ensures
        mpow(1, n, q) == 1,
    decreases n,
{
    lemma_small_mod(1, q as nat);
    if n > 0 {
        mpow_of_one((n - 1) as nat, q);
    }
}

proof fn mpow_of_minus_one(n: nat, q: int)
    requires
        q > 1,
    ensures
        mpow(q - 1, n, q) == if n % 2 == 0 {
            1
        } else {
            q - 1
        },
    decreases n,
{
    lemma_small_mod(1, q as nat);
    lemma_small_mod((q - 1) as nat, q as nat);
    if n > 0 {
        mpow_of_minus_one((n - 1) as nat, q);
        if n % 2 == 0 {
            assert((q - 1) * (q - 1) == q * (q - 2) + 1) by (nonlinear_arith);
            lemma_mod_multiples_basic(q - 2, q);
            vstd::arithmetic::div_mod::lemma_mod_multiples_vanish(q - 2, 1, q);
        }
    }
}

/// An element whose `2^t`-th power is minus one has no period below `2^(t + 1)`.
proof fn no_small_period(u: int, t: nat, d: nat, q: int)
    requires
        q > 2,
        mpow(u, pow2(t), q) == q - 1,
        0 < d < pow2(t + 1),
    ensures
        mpow(u, d, q) != 1,
    decreases t,
{
    lemma_pow2_pos(t);
    lemma_pow2_unfold(t + 1);
    if d % 2 == 1 {
        mpow_mul(u, pow2(t), d, q);
        mpow_mul(u, d, pow2(t), q);
        mpow_of_one(pow2(t), q);
        mpow_of_minus_one(d, q);
        assert(pow2(t) * d == d * pow2(t)) by (nonlinear_arith);
    } else {
        let half = (d / 2) as nat;
        if t == 0 {
            lemma2_to64();
        }
        lemma_pow2_unfold(t);
        let v = mpow(u, 2, q);
        mpow_mul(u, 2, pow2((t - 1) as nat), q);
        mpow_mul(u, 2, half, q);
        assert(2 * half == d);
        no_small_period(v, (t - 1) as nat, half, q);
    }
}

/// The powers of such an element are distinct below `2^(t + 1)`.
proof fn powers_are_distinct(u: int, t: nat, i: nat, j: nat, q: int)
    requires
        q > 2,
        mpow(u, pow2(t), q) == q - 1,
        i < j < pow2(t + 1),
    ensures
        mpow(u, i, q) != mpow(u, j, q),
{
    if mpow(u, i, q) == mpow(u, j, q) {
        let n = pow2(t + 1);
        lemma_pow2_unfold(t + 1);
        mpow_add(u, pow2(t), pow2(t), q);
        mpow_of_minus_one(2, q);
        assert(mpow(q - 1, 2, q) == (mpow(q - 1, 1, q) * (q - 1)) % q);
        mpow_of_minus_one(1, q);
        assert(mpow(u, n, q) == 1);
        let rest = (n - i) as nat;
        let d = (j - i) as nat;
        mpow_add(u, i, rest, q);
        mpow_add(u, j, rest, q);
        assert(i + rest == n);
        assert(j + rest == d + n);
        mpow_add(u, d, n, q);
        mpow_range(u, d, q);
        lemma_small_mod(mpow(u, d, q) as nat, q as nat);
        assert(mpow(u, d, q) == 1);
        no_small_period(u, t, d, q);
    }
}

/// A power modulo a multiple, reduced, is the power modulo the divisor.
proof fn mpow_of_divisor(u: int, n: nat, q: int, r: int)
    requires
        q > 1,
        r > 0,
    ensures
        mpow(u, n, q) == mpow(u, n, q * r) % q,
    decreases n,
{
    let p = q * r;
    assert(p > 1) by (nonlinear_arith)
        requires
            q > 1,
            r > 0,
            p == q * r,
    ;
    if n == 0 {
        lemma_small_mod(1, p as nat);
    } else {
        mpow_of_divisor(u, (n - 1) as nat, q, r);
        let x = mpow(u, (n - 1) as nat, p);
        lemma_mod_mod(x * u, q, r);
        lemma_mul_mod_noop_left(x, u, q);
    }
}

/// An element of order `2^24` modulo the field order.
spec fn root() -> int {
    1791270792
}

proof fn root_has_large_order()
    ensures
        mpow(root(), pow2(23), order()) == order() - 1,
{
    let u = root();
    let p = order();
    lemma2_to64();
    assert(pow2(23) == 8388608) by {
        vstd::arithmetic::power2::lemma_pow2_adds(20, 3);
    }
    lemma_small_mod(u as nat, p as nat);
    lemma_small_mod(1, p as nat);
    assert(mpow(u, 1, p) == (mpow(u, 0, p) * u) % p);
    assert(mpow(u, 1, p) == 1791270792);
    assert((1791270792int * 1791270792int) % 2130706433 == 1760025929);
    mpow_add(u, 1, 1, p);
    assert((1760025929int * 1760025929int) % 2130706433 == 542991299);
    mpow_add(u, 2, 2, p);
    assert((542991299int * 542991299int) % 2130706433 == 1213133211);
    mpow_add(u, 4, 4, p);
    assert((1213133211int * 1213133211int) % 2130706433 == 1364057261);
    mpow_add(u, 8, 8, p);
    assert((1364057261int * 1364057261int) % 2130706433 == 339671193);
    mpow_add(u, 16, 16, p);
    assert((339671193int * 339671193int) % 2130706433 == 1816824389);
    mpow_add(u, 32, 32, p);
    assert((1816824389int * 1816824389int) % 2130706433 == 373019801);
    mpow_add(u, 64, 64, p);
    assert((373019801int * 373019801int) % 2130706433 == 1848593786);
    mpow_add(u, 128, 128, p);
    assert((1848593786int * 1848593786int) % 2130706433 == 1168510561);
    mpow_add(u, 256, 256, p);
    assert((1168510561int * 1168510561int) % 2130706433 == 1047035213);
    mpow_add(u, 512, 512, p);
    assert((1047035213int * 1047035213int) % 2130706433 == 809067698);
    mpow_add(u, 1024, 1024, p);
    assert((809067698int * 809067698int) % 2130706433 == 1989134074);
    mpow_add(u, 2048, 2048, p);
    assert((1989134074int * 1989134074int) % 2130706433 == 2000983452);
    mpow_add(u, 4096, 4096, p);
    assert((2000983452int * 2000983452int) % 2130706433 == 860702919);
    mpow_add(u, 8192, 8192, p);
    assert((860702919int * 860702919int) % 2130706433 == 665670555);
    mpow_add(u, 16384, 16384, p);
    assert((665670555int * 665670555int) % 2130706433 == 392596362);
    mpow_add(u, 32768, 32768, p);
    assert((392596362int * 392596362int) % 2130706433 == 699882112);
    mpow_add(u, 65536, 65536, p);
    assert((699882112int * 699882112int) % 2130706433 == 1548376985);
    mpow_add(u, 131072, 131072, p);
    assert((1548376985int * 1548376985int) % 2130706433 == 170455089);
    mpow_add(u, 262144, 262144, p);
    assert((170455089int * 170455089int) % 2130706433 == 148625052);
    mpow_add(u, 524288, 524288, p);
    assert((148625052int * 148625052int) % 2130706433 == 1748172362);
    mpow_add(u, 1048576, 1048576, p);
    assert((1748172362int * 1748172362int) % 2130706433 == 2113994754);
    mpow_add(u, 2097152, 2097152, p);
    assert((2113994754int * 2113994754int) % 2130706433 == 2130706432);
    mpow_add(u, 4194304, 4194304, p);
}

/// Half of the way to the order of the group of nonzero residues, the power of three is
/// minus one.
pub proof fn power_of_three()
    ensures
        mpow(3, 1065353216, order()) == order() - 1,
{
    let p = order();
    lemma_small_mod(3, p as nat);
    lemma_small_mod(1, p as nat);
    assert(mpow(3, 1, p) == (mpow(3, 0, p) * 3) % p);
    mpow_add(3, 1, 1, p);
    mpow_add(3, 2, 1, p);
    assert((3int * 3int) % 2130706433 == 9);
    assert((9int * 3int) % 2130706433 == 27);
    mpow_add(3, 3, 3, p);
    mpow_add(3, 6, 1, p);
    assert((27int * 27int) % 2130706433 == 729);
    assert((729int * 3int) % 2130706433 == 2187);
    mpow_add(3, 7, 7, p);
    mpow_add(3, 14, 1, p);
    assert((2187int * 2187int) % 2130706433 == 4782969);
    assert((4782969int * 3int) % 2130706433 == 14348907);
    mpow_add(3, 15, 15, p);
    mpow_add(3, 30, 1, p);
    assert((14348907int * 14348907int) % 2130706433 == 969473859);
    assert((969473859int * 3int) % 2130706433 == 777715144);
    mpow_add(3, 31, 31, p);
    mpow_add(3, 62, 1, p);
    assert((777715144int * 777715144int) % 2130706433 == 1296657966);
    assert((1296657966int * 3int) % 2130706433 == 1759267465);
    mpow_add(3, 63, 63, p);
    mpow_add(3, 126, 1, p);
    assert((1759267465int * 1759267465int) % 2130706433 == 597090264);
    assert((597090264int * 3int) % 2130706433 == 1791270792);
    assert(mpow(3, 127, p) == root());
    root_has_large_order();
    lemma2_to64();
    assert(pow2(23) == 8388608) by {
        vstd::arithmetic::power2::lemma_pow2_adds(20, 3);
    }
    mpow_mul(3, 127, 8388608, p);
    assert(127nat * 8388608nat == 1065353216);
}

/// The field order has no divisor between one and its square root.
proof fn no_small_divisor(q: int, r: int)
    requires
        1 < q <= r,
    ensures
        q * r != order(),
{
    if q * r == order() {
        too_many_powers(q, r);
    }
}

/// Modulo a small divisor of the field order, there are more powers than residues.
proof fn too_many_powers(q: int, r: int)
    requires
        1 < q <= r,
        q * r == order(),
    ensures
        q > r,
{
    assert(q < 46160) by (nonlinear_arith)
        requires
            1 < q <= r,
            q * r == 2130706433,
    ;
    assert(q != 2) by (nonlinear_arith)
        requires
            q * r == 2130706433,
    ;
    let u = root();
    root_has_large_order();
    mpow_of_divisor(u, pow2(23), q, r);
    let p = order();
    assert(mpow(u, pow2(23), q) == (p - 1) % q);
    assert(p - 1 == q * (r - 1) + (q - 1)) by (nonlinear_arith)
        requires
            q * r == p,
    ;
    vstd::arithmetic::div_mod::lemma_mod_multiples_vanish(r - 1, q - 1, q);
    lemma_small_mod((q - 1) as nat, q as nat);
    assert(mpow(u, pow2(23), q) == q - 1);
    lemma2_to64();
    vstd::arithmetic::power2::lemma_pow2_adds(16, 8);
    assert(pow2(24) == 16777216);
    let from = set_int_range(0, q + 1);
    let to = set_int_range(0, q);
    let f = |i: int| mpow(u, i as nat, q);
    lemma_int_range(0, q + 1);
    lemma_int_range(0, q);
    assert forall|i: int, j: int| #[trigger]
        from.contains(i) && #[trigger] from.contains(j) && i != j implies f(i) != f(j) by {
        if i < j {
            powers_are_distinct(u, 23, i as nat, j as nat, q);
        } else {
            powers_are_distinct(u, 23, j as nat, i as nat, q);
        }
    }
    let image = from.map(f);
    assert(vstd::relations::injective_on(f, from));
    lemma_map_size(from, image, f);
    assert(image.subset_of(to)) by {
        assert forall|x: int| image.contains(x) implies to.contains(x) by {
            let i = choose|i: int| from.contains(i) && f(i) == x;
            mpow_range(u, i as nat, q);
        }
    }
    lemma_len_subset(image, to);
}

/// The field order is prime.
pub proof fn order_is_prime(a: int, b: int)
    requires
        a > 1,
        b > 1,
    ensures
        a * b != order(),
{
    if a * b == order() {
        if a <= b {
            no_small_divisor(a, b);
        } else {
            assert(b * a == a * b) by (nonlinear_arith);
            no_small_divisor(b, a);
        }
    }
}

/// Every nonzero residue has an inverse.
pub proof fn residues_are_invertible(k: int) -> (b: int)
    requires
        0 < k < order(),
    ensures
        canonical(b),
        fmul(k, b) == 1,
    decreases k,
{
    let p = order();
    if k == 1 {
        lemma_small_mod(1, p as nat);
        1
    } else {
        let t = p / k;
        let r = p % k;
        lemma_fundamental_div_mod(p, k);
        lemma_mod_bound(p, k);
        if r == 0 {
            assert(t > 1) by (nonlinear_arith)
                requires
                    p == k * t,
                    0 < k < p,
            ;
            order_is_prime(k, t);
        }
        let c = residues_are_invertible(r);
        let b = reduce(-(t * c));
        lemma_mod_bound(-(t * c), p);
        vstd::arithmetic::div_mod::lemma_mul_mod_noop_right(k, -(t * c), p);
        assert(k * -(t * c) == r * c - p * c) by (nonlinear_arith)
            requires
                p == k * t + r,
        ;
        vstd::arithmetic::div_mod::lemma_mod_multiples_vanish(-c, r * c, p);
        assert(p * -c + r * c == r * c - p * c) by (nonlinear_arith);
        b
    }
}

/// A product that the field order divides has a factor that it divides.
pub proof fn divides_a_factor(k: int, m: int)
    requires
        0 < k < order(),
        (k * m) % order() == 0,
    ensures
        m % order() == 0,
{
    let p = order();
    let b = residues_are_invertible(k);
    lemma_mul_mod_noop_left(k * b, m, p);
    assert((k * b) * m == b * (k * m)) by (nonlinear_arith);
    vstd::arithmetic::div_mod::lemma_mul_mod_noop_right(b, k * m, p);
    lemma_small_mod(0, p as nat);
    assert(b * 0 == 0);
    assert((1 * m) % p == 0);
}

} // verus!
