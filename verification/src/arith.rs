//! Powers of two at machine size.
use vstd::prelude::*;
use vstd::arithmetic::power2::{lemma2_to64, lemma_pow2_strictly_increases, lemma_pow2_unfold, pow2};

verus! {

/// `2^n`, where it fits.
pub fn pow2_usize(n: usize) -> (r: usize)
    requires
        pow2(n as nat) <= usize::MAX,
    ensures
        r == pow2(n as nat),
{
    let mut r: usize = 1;
    let mut i: usize = 0;
    proof {
        lemma2_to64();
    }
    while i < n
        invariant
            i <= n,
            r == pow2(i as nat),
            pow2(n as nat) <= usize::MAX,
        decreases n - i,
    {
        proof {
            lemma_pow2_unfold((i + 1) as nat);
            pow2_le((i + 1) as nat, n as nat);
        }
        r = r * 2;
        i = i + 1;
    }
    r
}

/// Powers of two are monotone.
pub proof fn pow2_le(a: nat, b: nat)
    requires
        a <= b,
    ensures
        pow2(a) <= pow2(b),
{
    if a < b {
        lemma_pow2_strictly_increases(a, b);
    }
}

/// `n` fits below `2^n`, so an exponent whose power fits in a machine word is small.
pub proof fn pow2_above(n: nat)
    ensures
        n < pow2(n),
    decreases n,
{
    if n == 0 {
        lemma2_to64();
    } else {
        pow2_above((n - 1) as nat);
        lemma_pow2_unfold(n);
    }
}

/// The least `k` with `n <= 2^k`.
pub open spec fn is_ceil_log2(n: nat, k: nat) -> bool {
    &&& n <= pow2(k)
    &&& k == 0 || pow2((k - 1) as nat) < n
}

/// At most one exponent is the least that reaches `n`.
pub proof fn ceil_log2_unique(n: nat, a: nat, b: nat)
    requires
        is_ceil_log2(n, a),
        is_ceil_log2(n, b),
    ensures
        a == b,
{
    if a < b {
        pow2_le(a, (b - 1) as nat);
    }
    if b < a {
        pow2_le(b, (a - 1) as nat);
    }
}

/// The ceiling of the base-two logarithm; zero for zero and one.
pub open spec fn ceil_log2_of(n: nat) -> nat
    decreases n,
{
    if n <= 1 {
        0
    } else {
        1 + ceil_log2_of(((n + 1) / 2) as nat)
    }
}

/// The recursive logarithm is the least exponent that reaches `n`.
pub proof fn ceil_log2_is_least(n: nat)
    ensures
        is_ceil_log2(n, ceil_log2_of(n)),
    decreases n,
{
    lemma2_to64();
    if n > 1 {
        let h = ((n + 1) / 2) as nat;
        ceil_log2_is_least(h);
        let k = ceil_log2_of(h);
        lemma_pow2_unfold(k + 1);
        if k > 0 {
            lemma_pow2_unfold(k);
        }
    }
}

/// The logarithm of a machine-size number is at most 64.
pub proof fn ceil_log2_small(n: nat)
    requires
        n <= usize::MAX,
    ensures
        ceil_log2_of(n) <= 64,
{
    lemma2_to64();
    ceil_log2_is_least(n);
    if ceil_log2_of(n) > 64 {
        pow2_le(64, (ceil_log2_of(n) - 1) as nat);
    }
}

/// The ceiling of the base-two logarithm of `h`, with zero for `h == 0`.
pub fn ceil_log2(h: usize) -> (k: usize)
    ensures
        k == ceil_log2_of(h as nat),
        is_ceil_log2(h as nat, k as nat),
        k <= 64,
{
    let mut m: usize = h;
    let mut k: usize = 0;
    proof {
        ceil_log2_small(h as nat);
    }
    while m > 1
        invariant
            k + ceil_log2_of(m as nat) == ceil_log2_of(h as nat),
            k + ceil_log2_of(m as nat) <= 64,
        decreases m,
    {
        m = m / 2 + m % 2;
        k = k + 1;
    }
    proof {
        ceil_log2_is_least(h as nat);
    }
    k
}

/// The logarithm of a power of two is its exponent.
pub proof fn log2_of_pow2(len: nat, k: nat, n: nat)
    requires
        len == pow2(n),
        is_ceil_log2(len, k),
    ensures
        k == n,
{
    if n > 0 {
        lemma_pow2_strictly_increases((n - 1) as nat, n);
    }
    ceil_log2_unique(len, k, n);
}

/// How often two divides `n`.
pub open spec fn twos_in(n: nat) -> nat
    decreases n,
{
    if n > 0 && n % 2 == 0 {
        1 + twos_in(n / 2)
    } else {
        0
    }
}

/// How often two divides a nonzero number: the number of zeros at its low end.
pub fn trailing_zeros(n: usize) -> (r: usize)
    requires
        n > 0,
    ensures
        r == twos_in(n as nat),
{
    let mut m: usize = n;
    let mut r: usize = 0;
    while m % 2 == 0
        invariant
            0 < m,
            r + m <= n,
            twos_in(n as nat) == r + twos_in(m as nat),
        decreases m,
    {
        m = m / 2;
        r = r + 1;
    }
    r
}

/// A power of two holds its exponent.
pub proof fn twos_in_pow2(k: nat)
    ensures
        twos_in(pow2(k)) == k,
    decreases k,
{
    vstd::arithmetic::power2::lemma_pow2_pos(k);
    if k == 0 {
        vstd::arithmetic::power2::lemma2_to64();
    } else {
        vstd::arithmetic::power2::lemma_pow2_unfold(k);
        twos_in_pow2((k - 1) as nat);
        assert(pow2(k) / 2 == pow2((k - 1) as nat));
    }
}

} // verus!
