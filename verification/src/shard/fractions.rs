//! What the rounds of the lookup argument say of the fractions of its layers.
use vstd::prelude::*;
use vstd::arithmetic::power2::pow2;
use crate::ext::{add_sub_cancel, embed, e_inv, e_one, e_zero, evals, inverse_unique,
    mul_add, mul_assoc, mul_canon, mul_comm, mul_one, sub_add_cancel, E4};
use crate::mle::{eq_prod, eq_weight, esum, esum_canon, mle_eval, univariate};
use crate::quartic::nonzero_is_invertible;
use crate::ring::{mul_left_comm, mul_swap};
use crate::shard::gkr::{challenge_weights, fraction_sum, gkr_refusal, round_vals, walk, walk_end, walk_refusal,
    walk_refusals, walk_start, walk_step, RoundVal, WalkState};
use crate::shard::honest::{cube_sum, cube_sum_add, cube_sum_ext,
    cube_sum_scale, false_sum_needs_a_lucky_challenge, honest_sumcheck, honest_sumcheck_is_accepted,
    on_cube};
use crate::shard::gkr_prove::columns_at;
use crate::shard::layer::{padded_column, prep_columns_at, rebuilt_fractions_are_the_first_layer};
use crate::shard::lookup::table_height;
use crate::shard::names::{entry_value, has_entry};
use crate::shard::residual::degree_bits;
use crate::shard::points::full_geq;
use crate::shard::rebuild::{chip_fractions, chips_refusal, padded_dens, padded_nums, rebuild_refusal,
    rebuilt};
use crate::shard::types::{opt_evals, ChipEvaluation, ChipOpenedValues, FoldOrientation, LogupGkrProof,
    ShardChip};
use crate::arith::ceil_log2_of;
use crate::transcript::Sponge;

verus! {

/// The numerator of the sum of two fractions over the product of their denominators.
pub proof fn cross_product_is_sum_of_fractions(n0: E4, d0: E4, n1: E4, d1: E4)
    requires
        d0.canon(),
        d1.canon(),
        n0.canon(),
        n1.canon(),
        d0 != e_zero(),
        d1 != e_zero(),
    ensures
        n0 * d1 + n1 * d0 == (d0 * d1) * (n0 * e_inv(d0) + n1 * e_inv(d1)),
{
    let a = nonzero_is_invertible(d0);
    let b = nonzero_is_invertible(d1);
    inverse_unique(d0, a);
    inverse_unique(d1, b);
    mul_add(d0 * d1, n0 * a, n1 * b);
    // (d0 d1)(n0 a) == (d1 n0)(d0 a)
    mul_comm(d0, d1);
    mul_comm(n0, a);
    mul_swap(d1, d0, a, n0);
    mul_assoc(d1, d0, n0 * a);
    mul_left_comm(d0, n0, a);
    mul_one(n0);
    mul_comm(d1, n0);
    // (d0 d1)(n1 b) == (d0 n1)(d1 b)
    mul_assoc(d0, d1, n1 * b);
    mul_left_comm(d1, n1, b);
    mul_one(n1);
    mul_comm(d0, n1);
}

/// A point in the order in which a round lists its coordinates.
pub open spec fn turned(o: FoldOrientation, p: Seq<E4>) -> Seq<E4> {
    Seq::new(
        p.len(),
        |i: int|
            if o is Msb {
                p[i]
            } else {
                p[p.len() - 1 - i]
            },
    )
}

proof fn turned_is_paired(o: FoldOrientation, p: Seq<E4>)
    ensures
        crate::shard::gkr::paired_point(o, p) == turned(o, p),
{
    assert(crate::shard::gkr::paired_point(o, p) =~= turned(o, p));
}

/// What an accepted round says: its sumcheck is accepted and claims the batched numerator and
/// denominator of the layer before; and it ends with the batched sum of the round's two
/// fractions over the product of their denominators, times the equality polynomial of the
/// two points.
pub proof fn accepted_round_adds_fractions(
    st: WalkState,
    r: RoundVal,
    i: nat,
    vars: nat,
    o: FoldOrientation,
)
    requires
        walk_refusal(st, r, i, vars, o) is None,
        r.n0.canon(),
        r.n1.canon(),
        r.d0.canon(),
        r.d1.canon(),
        r.d0 != e_zero(),
        r.d1 != e_zero(),
    ensures
        ({
            let lambda = st.sponge.drawn_ext();
            let sum = r.n0 * e_inv(r.d0) + r.n1 * e_inv(r.d1);
            let den = r.d0 * r.d1;
            &&& r.sumcheck.refusal(st.sponge.after_draw_ext(), i + vars, 3) is None
            &&& r.sumcheck.claimed == lambda * st.num + st.den
            &&& r.sumcheck.eval == eq_prod(r.sumcheck.point, turned(o, st.point)) * (lambda * (
            den * sum) + den)
        }),
{
    turned_is_paired(o, st.point);
    cross_product_is_sum_of_fractions(r.n0, r.d0, r.n1, r.d1);
}

/// What a round is asked for, and nothing else: that its sumcheck claims the batched numerator
/// and denominator of the walk, is accepted, and ends with the batched cross product of its
/// values, weighted by the equality polynomial of the two points.
pub proof fn round_is_accepted_where_it_adds_up(
    st: WalkState,
    r: RoundVal,
    i: nat,
    vars: nat,
    o: FoldOrientation,
)
    ensures
        (walk_refusal(st, r, i, vars, o) is None) == ({
            let lambda = st.sponge.drawn_ext();
            &&& r.sumcheck.claimed == lambda * st.num + st.den
            &&& r.sumcheck.refusal(st.sponge.after_draw_ext(), i + vars, 3) is None
            &&& r.sumcheck.eval == eq_prod(r.sumcheck.point, turned(o, st.point)) * (lambda * (r.n0
                * r.d1 + r.n1 * r.d0) + r.d0 * r.d1)
        }),
{
    turned_is_paired(o, st.point);
}

/// The function that a round of the lookup argument sums over the cube: the batched numerator
/// and denominator of the sums of a layer's pairs of fractions, weighted by a point.
pub open spec fn layer_function(
    n0: spec_fn(Seq<E4>) -> E4,
    n1: spec_fn(Seq<E4>) -> E4,
    d0: spec_fn(Seq<E4>) -> E4,
    d1: spec_fn(Seq<E4>) -> E4,
    lambda: E4,
    z: Seq<E4>,
) -> spec_fn(Seq<E4>) -> E4 {
    |x: Seq<E4>| eq_prod(x, z) * (lambda * (n0(x) * d1(x) + n1(x) * d0(x)) + d0(x) * d1(x))
}

/// The value at a point of the polynomial that agrees with a function on the cube: its values
/// weighted by the equality polynomial.
pub open spec fn extended(f: spec_fn(Seq<E4>) -> E4, n: nat, z: Seq<E4>) -> E4 {
    cube_sum(|x: Seq<E4>| eq_prod(x, z) * f(x), n, Seq::empty())
}

/// Whether a layer's pairs of fractions add up to the fractions of the layer before, on the
/// cube of `n` variables: the denominators multiply, and the fractions add.
pub open spec fn pairs_add_up(
    num: spec_fn(Seq<E4>) -> E4,
    den: spec_fn(Seq<E4>) -> E4,
    n0: spec_fn(Seq<E4>) -> E4,
    n1: spec_fn(Seq<E4>) -> E4,
    d0: spec_fn(Seq<E4>) -> E4,
    d1: spec_fn(Seq<E4>) -> E4,
    n: nat,
) -> bool {
    forall|x: Seq<E4>| #[trigger]
        on_cube(x, n, Seq::empty()) ==> {
            &&& n0(x).canon() && n1(x).canon() && d0(x).canon() && d1(x).canon()
            &&& num(x).canon()
            &&& d0(x) != e_zero() && d1(x) != e_zero()
            &&& den(x) == d0(x) * d1(x)
            &&& num(x) * e_inv(den(x)) == n0(x) * e_inv(d0(x)) + n1(x) * e_inv(d1(x))
        }
}

proof fn numerators_cross(n: E4, d: E4, n0: E4, n1: E4, d0: E4, d1: E4)
    requires
        n.canon(),
        n0.canon(),
        n1.canon(),
        d0.canon(),
        d1.canon(),
        d0 != e_zero(),
        d1 != e_zero(),
        d == d0 * d1,
        n * e_inv(d) == n0 * e_inv(d0) + n1 * e_inv(d1),
    ensures
        n == n0 * d1 + n1 * d0,
{
    cross_product_is_sum_of_fractions(n0, d0, n1, d1);
    mul_canon(d0, d1);
    if d == e_zero() {
        crate::quartic::no_zero_divisors(d0, d1);
    }
    let y = nonzero_is_invertible(d);
    inverse_unique(d, y);
    mul_left_comm(d, n, y);
    mul_one(n);
}

/// An honest round is accepted: where the numerator and the denominator of the walk are those
/// of fractions that a layer's pairs add up to, the sumcheck is honest and the four values
/// are those of the layer at its point, the round is not refused.
pub proof fn honest_round_is_accepted(
    st: WalkState,
    r: RoundVal,
    i: nat,
    vars: nat,
    o: FoldOrientation,
    num: spec_fn(Seq<E4>) -> E4,
    den: spec_fn(Seq<E4>) -> E4,
    n0: spec_fn(Seq<E4>) -> E4,
    n1: spec_fn(Seq<E4>) -> E4,
    d0: spec_fn(Seq<E4>) -> E4,
    d1: spec_fn(Seq<E4>) -> E4,
)
    requires
        pairs_add_up(num, den, n0, n1, d0, d1, i + vars),
        st.num == extended(num, i + vars, turned(o, st.point)),
        st.den == extended(den, i + vars, turned(o, st.point)),
        honest_sumcheck(
            r.sumcheck,
            st.sponge.after_draw_ext(),
            layer_function(n0, n1, d0, d1, st.sponge.drawn_ext(), turned(o, st.point)),
            i + vars,
            3,
        ),
        r.n0 == n0(r.sumcheck.point),
        r.n1 == n1(r.sumcheck.point),
        r.d0 == d0(r.sumcheck.point),
        r.d1 == d1(r.sumcheck.point),
    ensures
        walk_refusal(st, r, i, vars, o) is None,
{
    let n = i + vars;
    turned_is_paired(o, st.point);
    let z = turned(o, st.point);
    let lambda = st.sponge.drawn_ext();
    let f = layer_function(n0, n1, d0, d1, lambda, z);
    honest_sumcheck_is_accepted(r.sumcheck, st.sponge.after_draw_ext(), f, n, 3);
    let e = Seq::<E4>::empty();
    let a = |x: Seq<E4>| eq_prod(x, z) * num(x);
    let b = |x: Seq<E4>| eq_prod(x, z) * den(x);
    let la = |x: Seq<E4>| lambda * a(x);
    let g = |x: Seq<E4>| la(x) + b(x);
    assert forall|x: Seq<E4>| on_cube(x, n, e) implies #[trigger] f(x) == g(x) by {
        let q = eq_prod(x, z);
        numerators_cross(num(x), den(x), n0(x), n1(x), d0(x), d1(x));
        mul_add(q, lambda * num(x), den(x));
        mul_left_comm(q, lambda, num(x));
    }
    cube_sum_ext(f, g, n, e);
    cube_sum_add(la, b, n, e);
    cube_sum_scale(lambda, a, n, e);
}

/// A false layer is accepted only by a lucky challenge: where the four values of an accepted
/// round are those of a layer at the round's point, but the walk's batched numerator and
/// denominator are not those of the sums of the layer's pairs, some polynomial of the
/// sumcheck differs from the honest one at zero or one and agrees with it at the challenge.
pub proof fn false_layer_needs_a_lucky_challenge(
    st: WalkState,
    r: RoundVal,
    i: nat,
    vars: nat,
    o: FoldOrientation,
    n0: spec_fn(Seq<E4>) -> E4,
    n1: spec_fn(Seq<E4>) -> E4,
    d0: spec_fn(Seq<E4>) -> E4,
    d1: spec_fn(Seq<E4>) -> E4,
) -> (k: int)
    requires
        walk_refusal(st, r, i, vars, o) is None,
        r.n0 == n0(r.sumcheck.point),
        r.n1 == n1(r.sumcheck.point),
        r.d0 == d0(r.sumcheck.point),
        r.d1 == d1(r.sumcheck.point),
        st.sponge.drawn_ext() * st.num + st.den != cube_sum(
            layer_function(n0, n1, d0, d1, st.sponge.drawn_ext(), turned(o, st.point)),
            i + vars,
            Seq::empty(),
        ),
    ensures
        0 <= k < i + vars,
        ({
            let f = layer_function(
                n0,
                n1,
                d0,
                d1,
                st.sponge.drawn_ext(),
                turned(o, st.point),
            );
            let v = r.sumcheck;
            let m = (i + vars - 1 - k) as nat;
            let tail = v.point.skip(i + vars - k);
            let x = v.challenge(st.sponge.after_draw_ext(), (k + 1) as nat);
            &&& univariate(v.polys[k], x) == cube_sum(f, m, seq![x] + tail)
            &&& univariate(v.polys[k], e_zero()) != cube_sum(f, m, seq![e_zero()] + tail)
                || univariate(v.polys[k], e_one()) != cube_sum(f, m, seq![e_one()] + tail)
        }),
{
    turned_is_paired(o, st.point);
    let f = layer_function(n0, n1, d0, d1, st.sponge.drawn_ext(), turned(o, st.point));
    false_sum_needs_a_lucky_challenge(
        r.sumcheck,
        st.sponge.after_draw_ext(),
        f,
        i + vars,
        3,
    )
}

/// Whether a function of a point is the line through its values at zero and one in
/// coordinate `at`.
pub open spec fn is_line(
    f: spec_fn(Seq<E4>) -> E4,
    low: spec_fn(Seq<E4>) -> E4,
    high: spec_fn(Seq<E4>) -> E4,
    at: int,
) -> bool {
    forall|x: Seq<E4>, t: E4|
        #![trigger f(x.insert(at, t))]
        at <= x.len() ==> f(x.insert(at, t)) == (e_one() - t) * low(x) + t * high(x)
}

/// After a round the walk is at a point of the next layer: where the four values are those of
/// the two halves of a layer that is a line in the coordinate before the last of the first
/// `vars`, the next numerator and denominator are those of the layer at the next point, whose
/// new coordinate is drawn after the four values were absorbed.
pub proof fn next_values_are_on_the_line(
    st: WalkState,
    r: RoundVal,
    vars: nat,
    num: spec_fn(Seq<E4>) -> E4,
    den: spec_fn(Seq<E4>) -> E4,
    n0: spec_fn(Seq<E4>) -> E4,
    n1: spec_fn(Seq<E4>) -> E4,
    d0: spec_fn(Seq<E4>) -> E4,
    d1: spec_fn(Seq<E4>) -> E4,
)
    requires
        1 <= vars <= r.sumcheck.point.len() + 1,
        is_line(num, n0, n1, vars - 1),
        is_line(den, d0, d1, vars - 1),
        r.n0 == n0(r.sumcheck.point),
        r.n1 == n1(r.sumcheck.point),
        r.d0 == d0(r.sumcheck.point),
        r.d1 == d1(r.sumcheck.point),
        r.n0.canon(),
        r.d0.canon(),
    ensures
        ({
            let next = walk_step(st, r, vars);
            let seen = r.sumcheck.after(st.sponge.after_draw_ext()).observe_exts(
                seq![r.n0, r.n1, r.d0, r.d1],
            );
            &&& next.num == num(next.point)
            &&& next.den == den(next.point)
            &&& next.point == r.sumcheck.point.insert(vars - 1, seen.drawn_ext())
            &&& next.sponge == seen.after_draw_ext()
        }),
{
    let next = walk_step(st, r, vars);
    let s0 = r.sumcheck.after(st.sponge.after_draw_ext());
    observe_four(s0, r.n0, r.n1, r.d0, r.d1);
    let t = next.point[vars - 1];
    on_the_line(r.n0, r.n1, t);
    on_the_line(r.d0, r.d1, t);
}

proof fn observe_four(s: Sponge, a: E4, b: E4, c: E4, d: E4)
    ensures
        s.observe_exts(seq![a, b, c, d]) == s.observe_ext(a).observe_ext(b).observe_ext(
            c,
        ).observe_ext(d),
{
    reveal_with_fuel(Sponge::observe_exts, 5);
    assert(seq![a, b, c, d].drop_last() =~= seq![a, b, c]);
    assert(seq![a, b, c].drop_last() =~= seq![a, b]);
    assert(seq![a, b].drop_last() =~= seq![a]);
    assert(seq![a].drop_last() =~= Seq::<E4>::empty());
}

proof fn on_the_line(a: E4, b: E4, t: E4)
    requires
        a.canon(),
    ensures
        a + (b - a) * t == (e_one() - t) * a + t * b,
{
    crate::ext::mul_sub(a, e_one(), t);
    mul_one(a);
    mul_comm(a, e_one() - t);
    mul_comm(a, t);
    crate::ring::sub_add_comm(a, t * a, t * b);
    crate::ext::add_sub_assoc(a, t * b, t * a);
    crate::ext::mul_sub(t, b, a);
    mul_comm(t, b - a);
}

/// The fractions of a layer as functions of a point.
pub ghost struct Layer {
    pub num: spec_fn(Seq<E4>) -> E4,
    pub den: spec_fn(Seq<E4>) -> E4,
}

/// A function of a point with coordinate `at` held at `b`.
pub open spec fn held_at(f: spec_fn(Seq<E4>) -> E4, at: int, b: E4) -> spec_fn(Seq<E4>) -> E4 {
    |x: Seq<E4>| f(x.insert(at, b))
}

/// A function of a point that is read in the order of a round.
pub open spec fn read_turned(f: spec_fn(Seq<E4>) -> E4, o: FoldOrientation) -> spec_fn(
    Seq<E4>,
) -> E4 {
    |x: Seq<E4>| f(turned(o, x))
}

/// Whether round `i` is honest between two layers: the fractions of the first are the sums of
/// the pairs of the second, which are its two halves in coordinate `vars - 1`; both layers
/// are multilinear as far as that is used; the sumcheck is honest, and the four values are
/// those of the second layer's halves.
pub open spec fn honest_step(
    st: WalkState,
    r: RoundVal,
    i: nat,
    vars: nat,
    o: FoldOrientation,
    first: Layer,
    second: Layer,
) -> bool {
    let n = i + vars;
    let at = vars - 1;
    let n0 = held_at(second.num, at, e_zero());
    let n1 = held_at(second.num, at, e_one());
    let d0 = held_at(second.den, at, e_zero());
    let d1 = held_at(second.den, at, e_one());
    let num = read_turned(first.num, o);
    let den = read_turned(first.den, o);
    let p = r.sumcheck.point;
    &&& forall|z: Seq<E4>|
        z.len() == n ==> #[trigger] (first.num)(z) == extended(num, n, turned(o, z))
    &&& forall|z: Seq<E4>|
        z.len() == n ==> #[trigger] (first.den)(z) == extended(den, n, turned(o, z))
    &&& is_line(second.num, n0, n1, at)
    &&& is_line(second.den, d0, d1, at)
    &&& pairs_add_up(num, den, n0, n1, d0, d1, n)
    &&& honest_sumcheck(
        r.sumcheck,
        st.sponge.after_draw_ext(),
        layer_function(n0, n1, d0, d1, st.sponge.drawn_ext(), turned(o, st.point)),
        n,
        3,
    )
    &&& r.n0 == (second.num)(p.insert(at, e_zero()))
    &&& r.n1 == (second.num)(p.insert(at, e_one()))
    &&& r.d0 == (second.den)(p.insert(at, e_zero()))
    &&& r.d1 == (second.den)(p.insert(at, e_one()))
    &&& r.n0.canon() && r.d0.canon()
}

/// An honest walk is accepted and ends in the last layer: where every round is honest between
/// two layers and the walk starts at the fractions of the first, no round is refused, and the
/// numerator and the denominator in the end are those of the last layer at the last point.
pub proof fn honest_walk_is_accepted(
    start: WalkState,
    rounds: Seq<RoundVal>,
    vars: nat,
    o: FoldOrientation,
    layers: Seq<Layer>,
    k: nat,
)
    requires
        vars >= 1,
        start.point.len() == vars,
        k <= rounds.len(),
        layers.len() == rounds.len() + 1,
        start.num == (layers[0].num)(start.point),
        start.den == (layers[0].den)(start.point),
        forall|i: int|
            0 <= i < rounds.len() ==> honest_step(
                walk(start, rounds, vars, i as nat),
                #[trigger] rounds[i],
                i as nat,
                vars,
                o,
                layers[i],
                layers[i + 1],
            ),
    ensures
        walk_refusals(start, rounds, vars, o, k) is None,
        ({
            let end = walk(start, rounds, vars, k);
            &&& end.point.len() == vars + k
            &&& end.num == (layers[k as int].num)(end.point)
            &&& end.den == (layers[k as int].den)(end.point)
        }),
    decreases k,
{
    if k > 0 {
        let i = (k - 1) as nat;
        honest_walk_is_accepted(start, rounds, vars, o, layers, i);
        let st = walk(start, rounds, vars, i);
        let r = rounds[i as int];
        let first = layers[i as int];
        let second = layers[k as int];
        let at = vars - 1;
        assert(honest_step(st, r, i, vars, o, first, second));
        let n0 = held_at(second.num, at, e_zero());
        let n1 = held_at(second.num, at, e_one());
        let d0 = held_at(second.den, at, e_zero());
        let d1 = held_at(second.den, at, e_one());
        assert((first.num)(st.point) == extended(
            read_turned(first.num, o),
            i + vars,
            turned(o, st.point),
        ));
        assert((first.den)(st.point) == extended(
            read_turned(first.den, o),
            i + vars,
            turned(o, st.point),
        ));
        honest_round_is_accepted(
            st,
            r,
            i,
            vars,
            o,
            read_turned(first.num, o),
            read_turned(first.den, o),
            n0,
            n1,
            d0,
            d1,
        );
        next_values_are_on_the_line(st, r, vars, second.num, second.den, n0, n1, d0, d1);
    }
}

/// The weights of the lookup argument list the drawn point's most significant coordinate
/// first: the weight of an index is the product over the coordinates, the first one for the
/// highest bit, of the coordinate where the bit is set and of one minus it elsewhere.
pub proof fn weights_list_the_highest_bit_first(
    s: Sponge,
    bits: nat,
    witness: int,
    dim: nat,
    x: int,
)
    requires
        0 <= x < pow2(dim),
    ensures
        ({
            let drawn = s.after_pow(bits, witness).after_draw_ext().drawn_exts(dim);
            &&& challenge_weights(s, bits, witness, dim).len() == pow2(dim)
            &&& challenge_weights(s, bits, witness, dim)[x] == highest_first(drawn, x, dim)
        }),
{
    let drawn = s.after_pow(bits, witness).after_draw_ext().drawn_exts(dim);
    weight_of_reversed(drawn, x);
    assert(drawn.take(dim as int) =~= drawn);
}

/// The product over the first `k` coordinates, the first one for bit `k - 1` of an index, of
/// the coordinate where the bit is set and of one minus it elsewhere.
pub open spec fn highest_first(point: Seq<E4>, x: int, k: nat) -> E4
    decreases k,
{
    if k == 0 {
        e_one()
    } else {
        (if x % 2 == 1 {
            point[k - 1]
        } else {
            e_one() - point[k - 1]
        }) * highest_first(point, x / 2, (k - 1) as nat)
    }
}

proof fn weight_of_reversed(point: Seq<E4>, x: int)
    ensures
        eq_weight(point.reverse(), x) == highest_first(point, x, point.len()),
    decreases point.len(),
{
    if point.len() > 0 {
        let n = point.len();
        let rest = point.drop_last();
        assert(point.reverse().skip(1) =~= rest.reverse());
        assert(point.reverse()[0] == point[n - 1]);
        weight_of_reversed(rest, x / 2);
        highest_first_prefix(point, rest, x / 2, (n - 1) as nat);
    }
}

proof fn highest_first_prefix(a: Seq<E4>, b: Seq<E4>, x: int, k: nat)
    requires
        k <= a.len(),
        k <= b.len(),
        forall|i: int| 0 <= i < k ==> a[i] == #[trigger] b[i],
    ensures
        highest_first(a, x, k) == highest_first(b, x, k),
    decreases k,
{
    if k > 0 {
        assert(a[k - 1] == b[k - 1]);
        highest_first_prefix(a, b, x / 2, (k - 1) as nat);
    }
}

/// What an accepted last layer says: the opened point is the row part of the walk's point,
/// every chip has openings and a height of one bit more than the point has coordinates, and
/// the walk's numerator and denominator are those of the chips' masked fractions, chip after
/// chip, padded with zero over one to the interactions that the other part of the point
/// addresses.
pub proof fn accepted_last_layer_is_rebuilt(
    chips: Seq<ShardChip>,
    opened: Seq<ChipOpenedValues>,
    point: Seq<E4>,
    openings: Seq<(String, ChipEvaluation)>,
    eval_point: Seq<E4>,
    num: E4,
    den: E4,
    alpha: E4,
    betas: Seq<E4>,
    axis: nat,
)
    requires
        rebuild_refusal(
            chips,
            opened,
            point,
            openings,
            eval_point,
            num,
            den,
            alpha,
            betas,
            axis,
        ) is None,
    ensures
        ({
            let rows = eval_point.skip(axis as int);
            let ext = seq![e_zero()] + rows.reverse();
            let all = rebuilt(chips, opened, openings, ext, alpha, betas, chips.len());
            let nums = Seq::new(
                pow2(axis),
                |i: int|
                    if i < all.len() {
                        all[i].0
                    } else {
                        e_zero()
                    },
            );
            let dens = Seq::new(
                pow2(axis),
                |i: int|
                    if i < all.len() {
                        all[i].1
                    } else {
                        e_one()
                    },
            );
            &&& point == rows
            &&& opened.len() == chips.len()
            &&& forall|c: int|
                0 <= c < chips.len() ==> {
                    &&& (#[trigger] opened[c]).degree().len() == rows.len() + 1
                    &&& has_entry(openings, chips[c].name@)
                }
            &&& all.len() <= pow2(axis)
            &&& num == mle_eval(nums, eval_point.take(axis as int))
            &&& den == mle_eval(dens, eval_point.take(axis as int))
        }),
{
    let rows = eval_point.skip(axis as int);
    let ext = seq![e_zero()] + rows.reverse();
    let all = rebuilt(chips, opened, openings, ext, alpha, betas, chips.len());
    assert(ext.len() == rows.len() + 1);
    chips_accepted(chips, opened, openings, ext.len(), chips.len());
    assert(padded_nums(all, pow2(axis)) =~= Seq::new(
        pow2(axis),
        |i: int|
            if i < all.len() {
                all[i].0
            } else {
                e_zero()
            },
    ));
    assert(padded_dens(all, pow2(axis)) =~= Seq::new(
        pow2(axis),
        |i: int|
            if i < all.len() {
                all[i].1
            } else {
                e_one()
            },
    ));
}

proof fn chips_accepted(
    chips: Seq<ShardChip>,
    opened: Seq<ChipOpenedValues>,
    openings: Seq<(String, ChipEvaluation)>,
    dim: nat,
    k: nat,
)
    requires
        chips_refusal(chips, opened, openings, dim, k) is None,
    ensures
        forall|c: int|
            0 <= c < k ==> {
                &&& (#[trigger] opened[c]).degree().len() == dim
                &&& has_entry(openings, chips[c].name@)
            },
    decreases k,
{
    if k > 0 {
        chips_accepted(chips, opened, openings, dim, (k - 1) as nat);
    }
}

/// The place of the first interaction of a chip: the number of interactions of the chips
/// before it.
pub open spec fn interactions_before(chips: Seq<ShardChip>, c: int) -> nat
    decreases c,
{
    if c <= 0 {
        0
    } else {
        interactions_before(chips, c - 1) + chips[c - 1].lookups.sends@.len()
            + chips[c - 1].lookups.receives@.len()
    }
}

/// The rebuilt fractions are those of the chips in turn, of each chip first what it sends and
/// then what it receives: the fraction of a lookup at the chip's opened columns, less that of
/// a row of zeros on the share of the padding rows in the numerator, and with one in its place
/// in the denominator; what is received counts negative.
pub proof fn rebuilt_fractions_are_listed(
    chips: Seq<ShardChip>,
    opened: Seq<ChipOpenedValues>,
    openings: Seq<(String, ChipEvaluation)>,
    ext: Seq<E4>,
    alpha: E4,
    betas: Seq<E4>,
    k: nat,
    c: int,
    i: int,
)
    requires
        0 <= c < k <= chips.len(),
        0 <= i < chips[c].lookups.sends@.len() + chips[c].lookups.receives@.len(),
    ensures
        ({
            let all = rebuilt(chips, opened, openings, ext, alpha, betas, k);
            let at = interactions_before(chips, c) + i;
            let sends = chips[c].lookups.sends@.len();
            let l = if i < sends {
                chips[c].lookups.sends@[i]
            } else {
                chips[c].lookups.receives@[i - sends]
            };
            let e = entry_value(openings, chips[c].name@);
            let main = opt_evals(e.main_trace_evaluations_full);
            let prep = opt_evals(e.preprocessed_trace_evaluations_full);
            let seen = l.ext_fraction(prep, main, alpha, betas);
            let pad = l.ext_fraction(
                Seq::new(prep.len(), |j: int| e_zero()),
                Seq::new(main.len(), |j: int| e_zero()),
                alpha,
                betas,
            );
            let share = full_geq(opened[c].degree(), ext);
            &&& all.len() == interactions_before(chips, k as int)
            &&& at < all.len()
            &&& all[at].0 == (if i < sends {
                seen.0 - pad.0 * share
            } else {
                e_zero() - (seen.0 - pad.0 * share)
            })
            &&& all[at].1 == seen.1 + (e_one() - pad.1) * share
        }),
    decreases k,
{
    rebuilt_len(chips, opened, openings, ext, alpha, betas, (k - 1) as nat);
    rebuilt_len(chips, opened, openings, ext, alpha, betas, k);
    if c < k - 1 {
        rebuilt_fractions_are_listed(
            chips,
            opened,
            openings,
            ext,
            alpha,
            betas,
            (k - 1) as nat,
            c,
            i,
        );
    } else {
        let e = entry_value(openings, chips[c].name@);
        let main = opt_evals(e.main_trace_evaluations_full);
        let prep = opt_evals(e.preprocessed_trace_evaluations_full);
        assert(crate::shard::rebuild::zeros(prep.len()) =~= Seq::new(
            prep.len(),
            |j: int| e_zero(),
        ));
        assert(crate::shard::rebuild::zeros(main.len()) =~= Seq::new(
            main.len(),
            |j: int| e_zero(),
        ));
        let share = full_geq(opened[c].degree(), ext);
        let own = chip_fractions(chips[c], e, share, alpha, betas);
        let all = rebuilt(chips, opened, openings, ext, alpha, betas, k);
        assert(all[interactions_before(chips, c) + i] == own[i]);
    }
}

/// The rebuilt last layer is that of the traces: where the openings of a chip are its columns
/// at a row point and its height is written in bits, every rebuilt fraction is the pair of the
/// chip's columns of numerators and denominators at the point, one row's fraction after the
/// other, the numerators padded with zeros and the denominators with ones.
pub proof fn rebuilt_layer_is_that_of_the_traces(
    chips: Seq<ShardChip>,
    opened: Seq<ChipOpenedValues>,
    openings: Seq<(String, ChipEvaluation)>,
    rows: Seq<E4>,
    alpha: E4,
    betas: Seq<E4>,
    main: (Seq<int>, nat),
    prep: Option<(Seq<int>, nat)>,
    c: int,
    i: int,
)
    requires
        0 <= c < chips.len(),
        0 <= i < chips[c].lookups.count(),
        betas.len() > 0,
        table_height(main.0.len(), main.1) <= pow2(rows.len()),
        prep matches Some((values, w)) ==> w > 0 ==> table_height(values.len(), w) == table_height(
            main.0.len(),
            main.1,
        ),
        chips[c].lookups.at(i).0.fits(prep_columns_at(prep, rows).len(), main.1),
        opened[c].degree() == degree_bits(table_height(main.0.len(), main.1), rows.len() + 1),
        ({
            let e = entry_value(openings, chips[c].name@);
            &&& opt_evals(e.main_trace_evaluations_full) == columns_at(main.0, main.1, rows)
            &&& opt_evals(e.preprocessed_trace_evaluations_full) == prep_columns_at(prep, rows)
        }),
    ensures
        ({
            let h = table_height(main.0.len(), main.1);
            let l = chips[c].lookups;
            let all = rebuilt(
                chips,
                opened,
                openings,
                seq![e_zero()] + rows.reverse(),
                alpha,
                betas,
                chips.len(),
            );
            all[interactions_before(chips, c) + i] == (
                mle_eval(
                    padded_column(
                        |r: int| embed(l.fraction(main, prep, alpha, betas, r, i).0),
                        h,
                        pow2(rows.len()),
                        e_zero(),
                    ),
                    rows,
                ),
                mle_eval(
                    padded_column(
                        |r: int| l.fraction(main, prep, alpha, betas, r, i).1,
                        h,
                        pow2(rows.len()),
                        e_one(),
                    ),
                    rows,
                ),
            )
        }),
{
    let l = chips[c].lookups;
    let ext = seq![e_zero()] + rows.reverse();
    rebuilt_fractions_are_listed(
        chips,
        opened,
        openings,
        ext,
        alpha,
        betas,
        chips.len(),
        c,
        i,
    );
    rebuilt_fractions_are_the_first_layer(l, main, prep, alpha, betas, i, rows);
    let e = entry_value(openings, chips[c].name@);
    let m = opt_evals(e.main_trace_evaluations_full);
    let p = opt_evals(e.preprocessed_trace_evaluations_full);
    assert(crate::shard::rebuild::zeros(p.len()) =~= Seq::new(p.len(), |j: int| e_zero()));
    assert(crate::shard::rebuild::zeros(m.len()) =~= Seq::new(m.len(), |j: int| e_zero()));
    assert(crate::shard::rebuild::extended_point(rows) == ext);
}

proof fn rebuilt_len(
    chips: Seq<ShardChip>,
    opened: Seq<ChipOpenedValues>,
    openings: Seq<(String, ChipEvaluation)>,
    ext: Seq<E4>,
    alpha: E4,
    betas: Seq<E4>,
    k: nat,
)
    ensures
        rebuilt(chips, opened, openings, ext, alpha, betas, k).len() == interactions_before(
            chips,
            k as int,
        ),
    decreases k,
{
    if k > 0 {
        rebuilt_len(chips, opened, openings, ext, alpha, betas, (k - 1) as nat);
    }
}

/// What a lookup argument is asked for, and nothing else: that the fractions of the circuit's
/// output and the digest of the public values add up to zero, that there is one round less
/// than the shard has row variables, that no round of the walk is refused, and that the last
/// layer is not refused where the walk ends.
pub proof fn accepted_lookups_balance(
    gkr: LogupGkrProof,
    chips: Seq<ShardChip>,
    opened: Seq<ChipOpenedValues>,
    max_log_row_count: nat,
    o: FoldOrientation,
    alpha: E4,
    betas: Seq<E4>,
    pv_digest: E4,
    s: Sponge,
)
    requires
        pv_digest.canon(),
    ensures
        (gkr_refusal(gkr, chips, opened, max_log_row_count, o, alpha, betas, pv_digest, s) is None)
            == ({
            let n = evals(gkr.circuit_output.numerator@);
            let d = evals(gkr.circuit_output.denominator@);
            let vars = ceil_log2_of(n.len());
            let end = walk_end(gkr, s);
            &&& esum(n.len(), |i: int| n[i] * e_inv(d[i])) + pv_digest == e_zero()
            &&& gkr.round_proofs@.len() + 1 == max_log_row_count
            &&& walk_refusals(
                walk_start(s, n, d),
                round_vals(gkr.round_proofs@),
                vars,
                o,
                gkr.round_proofs@.len(),
            ) is None
            &&& rebuild_refusal(
                chips,
                opened,
                evals(gkr.logup_evaluations.point@),
                gkr.logup_evaluations.chip_openings@,
                end.point,
                end.num,
                end.den,
                alpha,
                betas,
                (vars - 1) as nat,
            ) is None
        }),
{
    let n = evals(gkr.circuit_output.numerator@);
    let d = evals(gkr.circuit_output.denominator@);
    fraction_sum_is_sum(n, d, n.len());
    let f = |i: int| n[i] * e_inv(d[i]);
    esum_canon(n.len(), f);
    sub_add_cancel(e_zero(), pv_digest);
    add_sub_cancel(esum(n.len(), f), pv_digest);
}

/// The walk starts at the values of the circuit's output at a point drawn after the output was
/// absorbed, numerators before denominators; and it goes round by round.
pub proof fn walk_starts_at_the_output(gkr: LogupGkrProof, s: Sponge, k: int)
    requires
        0 <= k < gkr.round_proofs@.len(),
    ensures
        ({
            let n = evals(gkr.circuit_output.numerator@);
            let d = evals(gkr.circuit_output.denominator@);
            let vars = ceil_log2_of(n.len());
            let start = walk_start(s, n, d);
            let seen = s.observe_exts(n).observe_exts(d);
            let rounds = round_vals(gkr.round_proofs@);
            &&& start.point == seen.drawn_exts(vars)
            &&& start.sponge == seen.after_draw_exts(vars)
            &&& start.num == mle_eval(n, start.point)
            &&& start.den == mle_eval(d, start.point)
            &&& walk(start, rounds, vars, 0) == start
            &&& walk(start, rounds, vars, (k + 1) as nat) == walk_step(
                walk(start, rounds, vars, k as nat),
                rounds[k],
                vars,
            )
            &&& walk_end(gkr, s) == walk(start, rounds, vars, gkr.round_proofs@.len())
            &&& rounds[k].n0 == gkr.round_proofs@[k].numerator_0@
            &&& rounds[k].n1 == gkr.round_proofs@[k].numerator_1@
            &&& rounds[k].d0 == gkr.round_proofs@[k].denominator_0@
            &&& rounds[k].d1 == gkr.round_proofs@[k].denominator_1@
        }),
{
}

/// A walk that is not refused has no round that is.
pub proof fn accepted_walk_accepts_every_round(
    start: WalkState,
    rounds: Seq<RoundVal>,
    vars: nat,
    o: FoldOrientation,
    k: nat,
    i: nat,
)
    requires
        walk_refusals(start, rounds, vars, o, k) is None,
        i < k,
    ensures
        walk_refusal(walk(start, rounds, vars, i), rounds[i as int], i, vars, o) is None,
    decreases k,
{
    let n = (k - 1) as nat;
    assert(walk_refusals(start, rounds, vars, o, n) is None);
    if i < n {
        accepted_walk_accepts_every_round(start, rounds, vars, o, n, i);
    } else {
        assert(rounds[k - 1] == rounds[i as int]);
    }
}

proof fn fraction_sum_is_sum(n: Seq<E4>, d: Seq<E4>, k: nat)
    ensures
        fraction_sum(n, d, k) == esum(k, |i: int| n[i] * e_inv(d[i])),
    decreases k,
{
    if k > 0 {
        fraction_sum_is_sum(n, d, (k - 1) as nat);
    }
}

} // verus!
