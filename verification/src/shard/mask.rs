//! The mask of the padding rows is their share of the Lagrange weights.
use vstd::prelude::*;
use vstd::arithmetic::power2::{lemma2_to64, lemma_pow2_adds, lemma_pow2_pos, lemma_pow2_unfold, pow2};
use crate::ext::{add_zero, e_one, e_zero, mul_comm, mul_one, mul_zero, sub_add_cancel, sub_canon,
    E4};
use crate::mle::{eq_weight, esum, esum_canon, esum_ext, esum_scale, esum_split, esum_zero};
use crate::shard::points::{eq_weight_push, full_geq, one_minus_bits};
use crate::shard::rebuild::extended_point;
use crate::shard::residual::degree_bits;

verus! {

/// The weights of the rows from `h` on.
pub open spec fn tail_weight(point: Seq<E4>, h: nat) -> E4 {
    esum(
        pow2(point.len()),
        |x: int|
            if x >= h {
                eq_weight(point, x)
            } else {
                e_zero()
            },
    )
}

/// The weights of the rows before `h`.
pub open spec fn head_weight(point: Seq<E4>, h: nat) -> E4 {
    esum(h, |x: int| eq_weight(point, x))
}

/// The weights of all rows with one more coordinate, for a function of the row.
proof fn sum_with_coordinate(point: Seq<E4>, y: E4, keep: spec_fn(int) -> bool)
    ensures
        ({
            let n = pow2(point.len());
            let q = point.push(y);
            let kept = |x: int|
                if keep(x) {
                    eq_weight(q, x)
                } else {
                    e_zero()
                };
            let low = |x: int|
                if keep(x) {
                    eq_weight(point, x)
                } else {
                    e_zero()
                };
            let high = |x: int|
                if keep(x + n) {
                    eq_weight(point, x)
                } else {
                    e_zero()
                };
            esum(pow2(q.len()), kept) == (e_one() - y) * esum(n, low) + y * esum(n, high)
        }),
{
    let n = pow2(point.len());
    let q = point.push(y);
    let kept = |x: int|
        if keep(x) {
            eq_weight(q, x)
        } else {
            e_zero()
        };
    let low = |x: int|
        if keep(x) {
            eq_weight(point, x)
        } else {
            e_zero()
        };
    let high = |x: int|
        if keep(x + n) {
            eq_weight(point, x)
        } else {
            e_zero()
        };
    lemma_pow2_unfold(q.len());
    assert(pow2(q.len()) == n + n);
    esum_split(n, n, kept);
    let lows = |x: int| (e_one() - y) * low(x);
    assert forall|x: int| 0 <= x < n implies #[trigger] kept(x) == lows(x) by {
        eq_weight_push(point, y, x);
        mul_comm(eq_weight(point, x), e_one() - y);
        mul_zero(e_one() - y);
    }
    esum_ext(n, kept, lows);
    esum_scale(n, e_one() - y, low);
    let shifted = |x: int| kept(n + x);
    let highs = |x: int| y * high(x);
    assert forall|x: int| 0 <= x < n implies #[trigger] shifted(x) == highs(x) by {
        eq_weight_push(point, y, x);
        mul_comm(eq_weight(point, x), y);
        mul_zero(y);
        assert(n + x == x + n);
    }
    esum_ext(n, shifted, highs);
    esum_scale(n, y, high);
}

/// The Lagrange weights add up to one.
pub proof fn weights_add_up(point: Seq<E4>)
    ensures
        tail_weight(point, 0) == e_one(),
    decreases point.len(),
{
    let n = point.len();
    if n == 0 {
        lemma2_to64();
        let f = |x: int|
            if x >= 0 {
                eq_weight(point, x)
            } else {
                e_zero()
            };
        assert(esum(1, f) == esum(0, f) + f(0));
        add_zero(e_one());
    } else {
        let p = point.drop_last();
        let y = point.last();
        assert(point =~= p.push(y));
        weights_add_up(p);
        let all = |x: int| x >= 0;
        sum_with_coordinate(p, y, all);
        let m = pow2(p.len());
        let kept = |x: int|
            if all(x) {
                eq_weight(point, x)
            } else {
                e_zero()
            };
        let low = |x: int|
            if all(x) {
                eq_weight(p, x)
            } else {
                e_zero()
            };
        let high = |x: int|
            if all(x + m) {
                eq_weight(p, x)
            } else {
                e_zero()
            };
        let mine = |x: int|
            if x >= 0 {
                eq_weight(point, x)
            } else {
                e_zero()
            };
        let part = |x: int|
            if x >= 0 {
                eq_weight(p, x)
            } else {
                e_zero()
            };
        esum_ext(pow2(n), kept, mine);
        esum_ext(m, low, part);
        esum_ext(m, high, part);
        one_minus_y(y);
    }
}

proof fn one_minus_y(y: E4)
    ensures
        (e_one() - y) * e_one() + y * e_one() == e_one(),
{
    crate::ext::mul_add(e_one(), e_one() - y, y);
    sub_add_cancel(e_one(), y);
    mul_one(e_one());
}

/// Adding a power of two keeps the bits below it.
proof fn bit_below(rest: nat, k: nat, e: nat)
    requires
        e < k,
    ensures
        ((rest + pow2(k)) as nat / pow2(e)) % 2 == (rest / pow2(e)) % 2,
{
    let d = pow2(e) as int;
    lemma_pow2_pos(e);
    let f = (k - e) as nat;
    lemma_pow2_adds(e, f);
    lemma_pow2_unfold(f);
    let g = pow2((f - 1) as nat) as int;
    assert(pow2(k) == (2 * g) * d) by (nonlinear_arith)
        requires
            pow2(k) == d * (2 * g),
    ;
    vstd::arithmetic::div_mod::lemma_hoist_over_denominator(rest as int, 2 * g, d as nat);
    let q = rest as int / d;
    assert((rest + pow2(k)) as int / d == q + 2 * g);
    assert((q + 2 * g) % 2 == q % 2);
}

/// The lower bits of a number are those of its remainder.
proof fn lower_bits(h: nat, m: nat)
    requires
        m > 0,
        h < pow2(m),
    ensures
        ({
            let half = pow2((m - 1) as nat);
            let top = h >= half;
            let rest = if top {
                (h - half) as nat
            } else {
                h
            };
            &&& rest < half
            &&& degree_bits(h, m)[0] == (if top {
                e_one()
            } else {
                e_zero()
            })
            &&& degree_bits(h, m).skip(1) == degree_bits(rest, (m - 1) as nat)
        }),
{
    let k = (m - 1) as nat;
    let half = pow2(k);
    lemma_pow2_unfold(m);
    lemma_pow2_pos(k);
    let top = h >= half;
    let rest = if top {
        (h - half) as nat
    } else {
        h
    };
    assert(h / half == (if top {
        1nat
    } else {
        0nat
    })) by {
        if top {
            vstd::arithmetic::div_mod::lemma_fundamental_div_mod_converse(
                h as int,
                half as int,
                1,
                rest as int,
            );
        } else {
            vstd::arithmetic::div_mod::lemma_basic_div(h as int, half as int);
        }
    }
    let a = degree_bits(h, m).skip(1);
    let b = degree_bits(rest, k);
    assert forall|i: int| 0 <= i < k implies a[i] == b[i] by {
        let e = (k - 1 - i) as nat;
        assert((m - 1 - (i + 1)) as nat == e);
        assert(a[i] == degree_bits(h, m)[i + 1]);
        if top {
            bit_below(rest, k, e);
        }
    }
    assert(a =~= b);
}

/// The comparison with a number is the share of the rows from it on, for a point whose most
/// significant coordinate comes first.
proof fn mask_of_bits(h: nat, q: Seq<E4>)
    requires
        h < pow2(q.len()),
    ensures
        full_geq(degree_bits(h, q.len()), q) == tail_weight(q.reverse(), h),
    decreases q.len(),
{
    let m = q.len();
    let bits = degree_bits(h, m);
    if m == 0 {
        lemma2_to64();
        weights_add_up(q.reverse());
    } else {
        let y = q[0];
        let r = q.skip(1);
        let p = r.reverse();
        assert(q.reverse() =~= p.push(y));
        lower_bits(h, m);
        let half = pow2((m - 1) as nat);
        let top = h >= half;
        let rest = if top {
            (h - half) as nat
        } else {
            h
        };
        mask_of_bits(rest, r);
        let g = tail_weight(p, rest);
        weights_add_up(p);
        let from = |x: int| x >= h;
        sum_with_coordinate(p, y, from);
        let kept = |x: int|
            if from(x) {
                eq_weight(p.push(y), x)
            } else {
                e_zero()
            };
        let low = |x: int|
            if from(x) {
                eq_weight(p, x)
            } else {
                e_zero()
            };
        let high = |x: int|
            if from(x + half) {
                eq_weight(p, x)
            } else {
                e_zero()
            };
        let whole = |x: int|
            if x >= h {
                eq_weight(p.push(y), x)
            } else {
                e_zero()
            };
        esum_ext(pow2(m), kept, whole);
        let part = |x: int|
            if x >= rest {
                eq_weight(p, x)
            } else {
                e_zero()
            };
        let every = |x: int|
            if x >= 0 {
                eq_weight(p, x)
            } else {
                e_zero()
            };
        esum_canon(half, part);
        one_minus_bits();
        mul_zero(e_one() - y);
        mul_zero(y);
        sub_canon(e_one(), y);
        mul_one(e_one() - y);
        if top {
            esum_zero(half, low);
            assert forall|x: int| 0 <= x < half implies #[trigger] high(x) == part(x) by {}
            esum_ext(half, high, part);
            // ((1 - y) * 0 + y * 1) * g + y * 0 == y * g
            crate::ext::mul_canon(y, e_one());
            add_zero(y * e_one());
            crate::ext::mul_assoc(y, e_one(), g);
            mul_one(g);
            crate::ext::mul_canon(y, g);
            add_zero(y * g);
        } else {
            assert forall|x: int| 0 <= x < half implies #[trigger] low(x) == part(x) by {}
            esum_ext(half, low, part);
            assert forall|x: int| 0 <= x < half implies #[trigger] high(x) == every(x) by {}
            esum_ext(half, high, every);
            // ((1 - y) * 1 + y * 0) * g + y * 1
            add_zero(e_one() - y);
        }
    }
}

/// The mask that the verifier computes from the bits of a height is the share of the rows
/// past the height.
pub proof fn mask_is_padding_share(point: Seq<E4>, h: nat)
    requires
        h <= pow2(point.len()),
    ensures
        full_geq(degree_bits(h, point.len() + 1), extended_point(point)) == tail_weight(point, h),
{
    let n = point.len();
    let q = extended_point(point);
    lemma_pow2_unfold(n + 1);
    lemma_pow2_pos(n);
    mask_of_bits(h, q);
    assert(q.reverse() =~= point.push(e_zero())) by {
        assert(q.len() == n + 1);
        assert forall|i: int| 0 <= i < n + 1 implies q.reverse()[i] == point.push(e_zero())[i] by {
            if i < n {
                assert(q.reverse()[i] == q[n - i]);
                assert(q[n - i] == point.reverse()[n - i - 1]);
            }
        }
    }
    let from = |x: int| x >= h;
    sum_with_coordinate(point, e_zero(), from);
    let m = pow2(n);
    let kept = |x: int|
        if from(x) {
            eq_weight(point.push(e_zero()), x)
        } else {
            e_zero()
        };
    let whole = |x: int|
        if x >= h {
            eq_weight(point.push(e_zero()), x)
        } else {
            e_zero()
        };
    esum_ext(pow2(n + 1), kept, whole);
    let low = |x: int|
        if from(x) {
            eq_weight(point, x)
        } else {
            e_zero()
        };
    let high = |x: int|
        if from(x + m) {
            eq_weight(point, x)
        } else {
            e_zero()
        };
    let part = |x: int|
        if x >= h {
            eq_weight(point, x)
        } else {
            e_zero()
        };
    esum_ext(m, low, part);
    esum_canon(m, part);
    one_minus_bits();
    mul_one(esum(m, part));
    mul_zero(esum(m, high));
    add_zero(esum(m, part));
}

/// The weights before and from a row add up to one.
pub proof fn head_and_tail(point: Seq<E4>, h: nat)
    requires
        h <= pow2(point.len()),
    ensures
        head_weight(point, h) + tail_weight(point, h) == e_one(),
{
    let n = pow2(point.len());
    let k = (n - h) as nat;
    weights_add_up(point);
    let all = |x: int|
        if x >= 0 {
            eq_weight(point, x)
        } else {
            e_zero()
        };
    let tail = |x: int|
        if x >= h {
            eq_weight(point, x)
        } else {
            e_zero()
        };
    let plain = |x: int| eq_weight(point, x);
    esum_split(h, k, all);
    esum_split(h, k, tail);
    assert forall|x: int| 0 <= x < h implies #[trigger] all(x) == plain(x) by {}
    esum_ext(h, all, plain);
    esum_zero(h, tail);
    let a = |i: int| all(h + i);
    let b = |i: int| tail(h + i);
    assert forall|i: int| 0 <= i < k implies #[trigger] a(i) == b(i) by {}
    esum_ext(k, a, b);
    esum_canon(k, b);
    add_zero(esum(k, b));
}

} // verus!
