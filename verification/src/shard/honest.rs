//! Honest sumchecks, and what an accepted sumcheck says of its polynomials.
use vstd::prelude::*;
use crate::ext::{e_one, e_zero, mul_add, E4};
use crate::mle::univariate;
use crate::ring::add_swap;
use crate::shard::sumcheck::SumcheckVal;
use crate::transcript::Sponge;

verus! {

/// The sum of a function over all points whose first `n` coordinates are zero or one and
/// whose other coordinates are `tail`.
pub open spec fn cube_sum(f: spec_fn(Seq<E4>) -> E4, n: nat, tail: Seq<E4>) -> E4
    decreases n,
{
    if n == 0 {
        f(tail)
    } else {
        cube_sum(f, (n - 1) as nat, seq![e_zero()] + tail) + cube_sum(
            f,
            (n - 1) as nat,
            seq![e_one()] + tail,
        )
    }
}

/// Whether the first `n` coordinates of a point are zero or one and the others are `tail`.
pub open spec fn on_cube(x: Seq<E4>, n: nat, tail: Seq<E4>) -> bool {
    &&& x.len() == n + tail.len()
    &&& x.skip(n as int) == tail
    &&& forall|i: int| 0 <= i < n ==> (#[trigger] x[i]) == e_zero() || x[i] == e_one()
}

proof fn cube_halves(x: Seq<E4>, n: nat, tail: Seq<E4>, b: E4)
    requires
        n > 0,
        b == e_zero() || b == e_one(),
        on_cube(x, (n - 1) as nat, seq![b] + tail),
    ensures
        on_cube(x, n, tail),
{
    let y = x.skip(n - 1);
    assert(y == seq![b] + tail);
    assert(x.skip(n as int) =~= y.skip(1));
    assert(y.skip(1) =~= tail);
    assert(x[n - 1] == y[0]);
}

/// Functions that agree on the points of a sum have the same sum.
pub proof fn cube_sum_ext(
    f: spec_fn(Seq<E4>) -> E4,
    g: spec_fn(Seq<E4>) -> E4,
    n: nat,
    tail: Seq<E4>,
)
    requires
        forall|x: Seq<E4>| on_cube(x, n, tail) ==> #[trigger] f(x) == g(x),
    ensures
        cube_sum(f, n, tail) == cube_sum(g, n, tail),
    decreases n,
{
    if n == 0 {
        assert(tail.skip(0) =~= tail);
        assert(on_cube(tail, 0, tail));
    } else {
        let m = (n - 1) as nat;
        let (lo, hi) = (seq![e_zero()] + tail, seq![e_one()] + tail);
        assert forall|x: Seq<E4>| on_cube(x, m, lo) implies #[trigger] f(x) == g(x) by {
            cube_halves(x, n, tail, e_zero());
        }
        assert forall|x: Seq<E4>| on_cube(x, m, hi) implies #[trigger] f(x) == g(x) by {
            cube_halves(x, n, tail, e_one());
        }
        cube_sum_ext(f, g, m, lo);
        cube_sum_ext(f, g, m, hi);
    }
}

/// The sum of two functions.
pub proof fn cube_sum_add(
    f: spec_fn(Seq<E4>) -> E4,
    g: spec_fn(Seq<E4>) -> E4,
    n: nat,
    tail: Seq<E4>,
)
    ensures
        cube_sum(|x: Seq<E4>| f(x) + g(x), n, tail) == cube_sum(f, n, tail) + cube_sum(g, n, tail),
    decreases n,
{
    if n > 0 {
        let m = (n - 1) as nat;
        let (lo, hi) = (seq![e_zero()] + tail, seq![e_one()] + tail);
        cube_sum_add(f, g, m, lo);
        cube_sum_add(f, g, m, hi);
        add_swap(
            cube_sum(f, m, lo),
            cube_sum(g, m, lo),
            cube_sum(f, m, hi),
            cube_sum(g, m, hi),
        );
    }
}

/// A function scaled by a constant.
pub proof fn cube_sum_scale(k: E4, f: spec_fn(Seq<E4>) -> E4, n: nat, tail: Seq<E4>)
    ensures
        cube_sum(|x: Seq<E4>| k * f(x), n, tail) == k * cube_sum(f, n, tail),
    decreases n,
{
    if n > 0 {
        let m = (n - 1) as nat;
        let (lo, hi) = (seq![e_zero()] + tail, seq![e_one()] + tail);
        cube_sum_scale(k, f, m, lo);
        cube_sum_scale(k, f, m, hi);
        mul_add(k, cube_sum(f, m, lo), cube_sum(f, m, hi));
    }
}

/// A function that is zero on the cube adds up to zero.
pub proof fn cube_sum_zero(f: spec_fn(Seq<E4>) -> E4, n: nat, tail: Seq<E4>)
    requires
        forall|x: Seq<E4>| on_cube(x, n, tail) ==> #[trigger] f(x) == e_zero(),
    ensures
        cube_sum(f, n, tail) == e_zero(),
    decreases n,
{
    if n == 0 {
        assert(tail.skip(0) =~= tail);
        assert(on_cube(tail, 0, tail));
    } else {
        let m = (n - 1) as nat;
        let (lo, hi) = (seq![e_zero()] + tail, seq![e_one()] + tail);
        assert forall|x: Seq<E4>| on_cube(x, m, lo) implies #[trigger] f(x) == e_zero() by {
            cube_halves(x, n, tail, e_zero());
        }
        assert forall|x: Seq<E4>| on_cube(x, m, hi) implies #[trigger] f(x) == e_zero() by {
            cube_halves(x, n, tail, e_one());
        }
        cube_sum_zero(f, m, lo);
        cube_sum_zero(f, m, hi);
        crate::ext::add_zero(e_zero());
    }
}

/// Whether a polynomial is the one that an honest prover of a sum over `n` variables sends
/// in round `k`, where `point` holds the challenges, last one first: at every `t`, the sum
/// over the free variables with the next one at `t` and the bound ones at their challenges.
pub open spec fn honest_poly(
    c: Seq<E4>,
    f: spec_fn(Seq<E4>) -> E4,
    n: nat,
    k: int,
    point: Seq<E4>,
) -> bool {
    forall|t: E4|
        #![trigger univariate(c, t)]
        univariate(c, t) == cube_sum(f, (n - 1 - k) as nat, seq![t] + point.skip(n - k))
}

/// Whether a sumcheck is what an honest prover sends for the sum of a function over the cube
/// of `n` variables, where `s` is the transcript before it.
pub open spec fn honest_sumcheck(
    v: SumcheckVal,
    s: Sponge,
    f: spec_fn(Seq<E4>) -> E4,
    n: nat,
    degree: nat,
) -> bool {
    &&& n > 0
    &&& v.polys.len() == n
    &&& v.point.len() == n
    &&& v.claimed == cube_sum(f, n, Seq::empty())
    &&& forall|j: int| 0 <= j < n ==> #[trigger] v.point[j] == v.challenge(s, (n - j) as nat)
    &&& v.eval == f(v.point)
    &&& forall|k: int|
        0 <= k < n ==> {
            &&& (#[trigger] v.polys[k]).len() == degree + 1
            &&& honest_poly(v.polys[k], f, n, k, v.point)
        }
}

/// An honest sumcheck is accepted, whatever is summed over however many variables.
pub proof fn honest_sumcheck_is_accepted(
    v: SumcheckVal,
    s: Sponge,
    f: spec_fn(Seq<E4>) -> E4,
    n: nat,
    degree: nat,
)
    requires
        honest_sumcheck(v, s, f, n, degree),
    ensures
        v.refusal(s, n, degree) is None,
{
    honest_rounds(v, s, f, n, degree, n);
    assert(v.reduced_point(s) =~= v.point);
    let c = v.challenge(s, n);
    assert(v.polys[n - 1].len() == degree + 1);
    assert(univariate(v.polys[n - 1], c) == cube_sum(f, 0, seq![c] + v.point.skip(1)));
    assert(v.point[0] == c);
    assert(seq![c] + v.point.skip(1) =~= v.point);
}

proof fn honest_rounds(
    v: SumcheckVal,
    s: Sponge,
    f: spec_fn(Seq<E4>) -> E4,
    n: nat,
    degree: nat,
    k: nat,
)
    requires
        honest_sumcheck(v, s, f, n, degree),
        k <= n,
    ensures
        v.rounds_refusal(s, degree, k) is None,
    decreases k,
{
    if k > 0 {
        let i = k - 1;
        honest_rounds(v, s, f, n, degree, i as nat);
        let tail = v.point.skip(n - i);
        let c = v.polys[i];
        assert(c.len() == degree + 1);
        assert(univariate(c, e_zero()) == cube_sum(f, (n - 1 - i) as nat, seq![e_zero()] + tail));
        assert(univariate(c, e_one()) == cube_sum(f, (n - 1 - i) as nat, seq![e_one()] + tail));
        if i == 0 {
            assert(tail =~= Seq::<E4>::empty());
        } else {
            let d = v.polys[i - 1];
            assert(d.len() == degree + 1);
            let x = v.challenge(s, i as nat);
            assert(v.point[n - i] == x);
            assert(seq![x] + v.point.skip(n - i + 1) =~= tail);
            assert(univariate(d, x) == cube_sum(f, (n - i) as nat, tail));
        }
    }
}

/// What an accepted sumcheck says: there is a polynomial of the expected degree for every
/// variable; the first one adds up over zero and one to the claimed sum, and every other one
/// to the value of the one before at the challenge drawn after it; the point holds these
/// challenges, last one first, each drawn after the polynomials up to its own were absorbed;
/// and the value is that of the last polynomial at the last challenge.
pub proof fn accepted_sumcheck_chains(v: SumcheckVal, s: Sponge, n: nat, degree: nat)
    requires
        v.refusal(s, n, degree) is None,
    ensures
        n > 0,
        v.polys.len() == n,
        v.point.len() == n,
        forall|j: int| 0 <= j < n ==> #[trigger] v.point[j] == v.challenge(s, (n - j) as nat),
        forall|k: int| 0 <= k < n ==> (#[trigger] v.polys[k]).len() == degree + 1,
        univariate(v.polys[0], e_zero()) + univariate(v.polys[0], e_one()) == v.claimed,
        forall|k: int|
            0 < k < n ==> univariate(#[trigger] v.polys[k], e_zero()) + univariate(
                v.polys[k],
                e_one(),
            ) == univariate(v.polys[k - 1], v.point[n - k]),
        univariate(v.polys[n - 1], v.point[0]) == v.eval,
        v.sponge(s, 1) == s.observe_exts(v.polys[0]),
        forall|k: int|
            0 < k < n ==> #[trigger] v.sponge(s, (k + 1) as nat) == v.sponge(
                s,
                k as nat,
            ).after_draw_ext().observe_exts(v.polys[k]),
        forall|j: int|
            0 <= j < n ==> #[trigger] v.point[j] == v.sponge(
                s,
                (n - j) as nat,
            ).drawn_ext(),
        v.after(s) == v.sponge(s, n).after_draw_ext(),
{
    assert(v.reduced_point(s) == v.point);
    assert forall|j: int| 0 <= j < n implies #[trigger] v.point[j] == v.challenge(
        s,
        (n - j) as nat,
    ) by {
        assert(v.reduced_point(s)[j] == v.point[j]);
    }
    assert forall|k: int| 0 <= k < n implies v.round_refusal(s, degree, k as nat) is None
        && (#[trigger] v.polys[k]).len() == degree + 1 by {
        accepted_round(v, s, degree, k as nat, n);
    }
    accepted_round(v, s, degree, 0, n);
    assert forall|k: int| 0 < k < n implies univariate(#[trigger] v.polys[k], e_zero()) + univariate(
        v.polys[k],
        e_one(),
    ) == univariate(v.polys[k - 1], v.point[n - k]) by {
        accepted_round(v, s, degree, k as nat, n);
        assert(v.point[n - k] == v.challenge(s, k as nat));
    }
    assert(v.point[0] == v.challenge(s, n));
}

/// A sumcheck that chains is accepted: nothing else is asked of it.
pub proof fn chained_sumcheck_is_accepted(v: SumcheckVal, s: Sponge, n: nat, degree: nat)
    requires
        n > 0,
        v.polys.len() == n,
        v.point.len() == n,
        forall|j: int|
            0 <= j < n ==> #[trigger] v.point[j] == v.sponge(s, (n - j) as nat).drawn_ext(),
        forall|k: int| 0 <= k < n ==> (#[trigger] v.polys[k]).len() == degree + 1,
        univariate(v.polys[0], e_zero()) + univariate(v.polys[0], e_one()) == v.claimed,
        forall|k: int|
            0 < k < n ==> univariate(#[trigger] v.polys[k], e_zero()) + univariate(
                v.polys[k],
                e_one(),
            ) == univariate(v.polys[k - 1], v.point[n - k]),
        univariate(v.polys[n - 1], v.point[0]) == v.eval,
    ensures
        v.refusal(s, n, degree) is None,
{
    chained_rounds(v, s, n, degree, n);
    assert(v.reduced_point(s) =~= v.point);
    assert(v.point[0] == v.sponge(s, n).drawn_ext());
}

proof fn chained_rounds(v: SumcheckVal, s: Sponge, n: nat, degree: nat, k: nat)
    requires
        k <= n,
        v.polys.len() == n,
        v.point.len() == n,
        forall|j: int|
            0 <= j < n ==> #[trigger] v.point[j] == v.sponge(s, (n - j) as nat).drawn_ext(),
        forall|k: int| 0 <= k < n ==> (#[trigger] v.polys[k]).len() == degree + 1,
        k > 0 ==> univariate(v.polys[0], e_zero()) + univariate(v.polys[0], e_one()) == v.claimed,
        forall|k: int|
            0 < k < n ==> univariate(#[trigger] v.polys[k], e_zero()) + univariate(
                v.polys[k],
                e_one(),
            ) == univariate(v.polys[k - 1], v.point[n - k]),
    ensures
        v.rounds_refusal(s, degree, k) is None,
    decreases k,
{
    if k > 0 {
        chained_rounds(v, s, n, degree, (k - 1) as nat);
        assert(v.polys[k - 1].len() == degree + 1);
        if k > 1 {
            assert(v.point[n - (k - 1)] == v.sponge(s, (k - 1) as nat).drawn_ext());
        }
    }
}

proof fn accepted_round(v: SumcheckVal, s: Sponge, degree: nat, k: nat, n: nat)
    requires
        k < n,
        v.rounds_refusal(s, degree, n) is None,
    ensures
        v.round_refusal(s, degree, k) is None,
    decreases n,
{
    if k + 1 < n {
        accepted_round(v, s, degree, k, (n - 1) as nat);
    }
}

/// The value that a sumcheck claims before round `k`, where `point` holds its challenges.
pub open spec fn running_claim(v: SumcheckVal, k: int) -> E4 {
    if k == 0 {
        v.claimed
    } else {
        univariate(v.polys[k - 1], v.point[v.polys.len() - k])
    }
}

/// A false sum is accepted only by a lucky challenge: where an accepted sumcheck ends with
/// the true value of a function but claims another sum than that of the function over the
/// cube, some polynomial differs from the honest one at zero or one and agrees with it at
/// the challenge drawn after it.
pub proof fn false_sum_needs_a_lucky_challenge(
    v: SumcheckVal,
    s: Sponge,
    f: spec_fn(Seq<E4>) -> E4,
    n: nat,
    degree: nat,
) -> (k: int)
    requires
        v.refusal(s, n, degree) is None,
        v.eval == f(v.point),
        v.claimed != cube_sum(f, n, Seq::empty()),
    ensures
        0 <= k < n,
        ({
            let m = (n - 1 - k) as nat;
            let tail = v.point.skip(n - k);
            let x = v.challenge(s, (k + 1) as nat);
            &&& univariate(v.polys[k], x) == cube_sum(f, m, seq![x] + tail)
            &&& univariate(v.polys[k], e_zero()) != cube_sum(f, m, seq![e_zero()] + tail)
                || univariate(v.polys[k], e_one()) != cube_sum(f, m, seq![e_one()] + tail)
        }),
{
    accepted_sumcheck_chains(v, s, n, degree);
    assert(v.point.skip(n as int) =~= Seq::<E4>::empty());
    assert(v.point.skip(0) =~= v.point);
    let k = first_agreement(v, f, n, n as int);
    let i = k - 1;
    let tail = v.point.skip(n - i);
    let x = v.point[n - 1 - i];
    assert(x == v.challenge(s, (i + 1) as nat));
    assert(seq![x] + tail =~= v.point.skip(n - k));
    i
}

proof fn first_agreement(v: SumcheckVal, f: spec_fn(Seq<E4>) -> E4, n: nat, k: int) -> (r: int)
    requires
        v.polys.len() == n,
        0 <= k <= n,
        v.point.skip(n as int) == Seq::<E4>::empty(),
        v.claimed != cube_sum(f, n, Seq::empty()),
        running_claim(v, k) == cube_sum(f, (n - k) as nat, v.point.skip(n - k)),
    ensures
        0 < r <= n,
        running_claim(v, r) == cube_sum(f, (n - r) as nat, v.point.skip(n - r)),
        running_claim(v, r - 1) != cube_sum(f, (n - r + 1) as nat, v.point.skip(n - r + 1)),
    decreases k,
{
    if running_claim(v, k - 1) == cube_sum(f, (n - k + 1) as nat, v.point.skip(n - k + 1)) && k > 0 {
        first_agreement(v, f, n, k - 1)
    } else {
        k
    }
}

} // verus!
