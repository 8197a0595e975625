//! What the constraint argument batches, and that an honest one is accepted.
use vstd::prelude::*;
use crate::ext::{add_zero, e_one, e_pow, e_zero, evals, mul_assoc, mul_canon, mul_comm, mul_one,
    Ext, E4};
use crate::felt::Felt;
use crate::mle::{eq_prod, esum, esum_canon, esum_ext, esum_scale, univariate};
use crate::ring::{eq1, mul_left_comm};
use crate::shard::fractions::extended;
use crate::shard::honest::{cube_sum, cube_sum_add, cube_sum_ext, cube_sum_scale, cube_sum_zero,
    false_sum_needs_a_lucky_challenge, honest_sumcheck, honest_sumcheck_is_accepted, on_cube};
use crate::shard::openings::{observe_openings, zerocheck_pairs};
use crate::shard::points::full_geq;
use crate::shard::sumcheck::SumcheckVal;
use crate::shard::types::{opt_evals, ChipEvaluation, ChipOpenedValues, LogUpEvaluations, ShardChip};
use crate::shard::zerocheck::{batch_open, batch_sum, folded, max_columns, rlc, rlc_value,
    sum_modification, zerocheck_answer, zerocheck_refusal, ConstraintValues};
use crate::transcript::Sponge;

verus! {

/// The polynomial in `lambda` whose coefficients are `c(0), ..., c(n - 1)`, highest first.
pub open spec fn in_lambda(lambda: E4, n: nat, c: spec_fn(int) -> E4) -> E4 {
    esum(n, |i: int| e_pow(lambda, (n - 1 - i) as nat) * c(i))
}

/// The values weighted by the powers of `beta`, the first power first.
pub open spec fn in_beta(beta: E4, values: Seq<E4>) -> E4 {
    esum(values.len(), |j: int| values[j] * e_pow(beta, (j + 1) as nat))
}

proof fn in_lambda_step(lambda: E4, n: nat, c: spec_fn(int) -> E4)
    requires
        c(n as int).canon(),
    ensures
        in_lambda(lambda, n + 1, c) == in_lambda(lambda, n, c) * lambda + c(n as int),
{
    let now = |i: int| e_pow(lambda, (n - 1 - i) as nat) * c(i);
    let next = |i: int| e_pow(lambda, (n - i) as nat) * c(i);
    let whole = |i: int| e_pow(lambda, ((n + 1) - 1 - i) as nat) * c(i);
    let scaled = |i: int| lambda * now(i);
    assert forall|i: int| 0 <= i < n implies #[trigger] next(i) == scaled(i) by {
        assert(e_pow(lambda, (n - i) as nat) == e_pow(lambda, (n - 1 - i) as nat) * lambda);
        mul_comm(e_pow(lambda, (n - 1 - i) as nat), lambda);
        mul_assoc(lambda, e_pow(lambda, (n - 1 - i) as nat), c(i));
    }
    esum_ext(n, next, scaled);
    esum_scale(n, lambda, now);
    mul_comm(lambda, esum(n, now));
    assert forall|i: int| 0 <= i < n + 1 implies #[trigger] whole(i) == next(i) by {}
    esum_ext((n + 1) as nat, whole, next);
    assert(esum((n + 1) as nat, next) == esum(n, next) + next(n as int));
    mul_one(c(n as int));
}

proof fn batch_sum_is_in_beta(values: Seq<E4>, beta: E4, k: nat)
    requires
        k <= values.len(),
    ensures
        batch_sum(values, beta, k) == esum(k, |j: int| values[j] * e_pow(beta, (j + 1) as nat)),
    decreases k,
{
    if k > 0 {
        batch_sum_is_in_beta(values, beta, (k - 1) as nat);
    }
}

/// The number of columns of the widest chip is that of some chip, and no chip has more.
pub proof fn widest_chip(chips: Seq<ShardChip>, k: nat, i: int)
    requires
        0 <= i < k <= chips.len(),
    ensures
        chips[i].width + chips[i].preprocessed_width <= max_columns(chips, k),
        exists|j: int|
            0 <= j < k && max_columns(chips, k) == (#[trigger] chips[j]).width
                + chips[j].preprocessed_width,
    decreases k,
{
    let w = (chips[k - 1].width + chips[k - 1].preprocessed_width) as nat;
    if k > 1 {
        if i < k - 1 {
            widest_chip(chips, (k - 1) as nat, i);
        } else {
            widest_chip(chips, (k - 1) as nat, 0);
        }
        let j = choose|j: int|
            0 <= j < k - 1 && max_columns(chips, (k - 1) as nat) == (#[trigger] chips[j]).width
                + chips[j].preprocessed_width;
        if max_columns(chips, k) == w {
            assert(chips[k - 1].width + chips[k - 1].preprocessed_width == w);
        } else {
            assert(chips[j].width + chips[j].preprocessed_width == max_columns(chips, k));
        }
    } else {
        assert(max_columns(chips, 0) == 0);
        assert(max_columns(chips, 1) == w);
        assert(chips[0].width + chips[0].preprocessed_width == w);
    }
}

/// At most `limit` of several values, from the front.
pub open spec fn front(values: Seq<E4>, limit: nat) -> Seq<E4> {
    Seq::new(
        if values.len() <= limit {
            values.len()
        } else {
            limit
        },
        |i: int| values[i],
    )
}

/// The share of the padding rows at a point: the comparison of the point, below a zero, with
/// the bits of the height, or one where the height has another number of bits.
pub open spec fn padding_share(degree: Seq<E4>, point: Seq<E4>) -> E4 {
    if degree.len() == point.len() + 1 {
        full_geq(degree, seq![e_zero()] + point)
    } else {
        e_one()
    }
}

/// What a chip contributes to the final value: its constraints at the opened columns, less
/// those of a row of zeros on the share of the padding rows, and its opened columns, main
/// before preprocessed and at most `limit` of them, weighted by the powers of `beta`.
pub open spec fn contribution(
    o: ChipOpenedValues,
    c: ConstraintValues,
    point: Seq<E4>,
    beta: E4,
    limit: nat,
) -> E4 {
    (c.at_openings@ - c.at_padding@ * padding_share(o.degree(), point)) + in_beta(
        beta,
        front(evals(o.main@) + evals(o.preprocessed@), limit),
    )
}

/// Whether a chip opens no more columns than it has, and the bits of its height fit a point.
pub open spec fn opens_columns(chip: ShardChip, o: ChipOpenedValues, dim: nat) -> bool {
    &&& o.main@.len() + o.preprocessed@.len() <= chip.width + chip.preprocessed_width
    &&& o.degree().len() == dim + 1
}

/// The point of the lookup argument in the order of the constraint argument.
pub open spec fn anchored(z: Seq<E4>, core_rev: bool) -> Seq<E4> {
    Seq::new(
        z.len(),
        |i: int|
            if core_rev {
                z[z.len() - 1 - i]
            } else {
                z[i]
            },
    )
}

/// The lesser of two numbers.
pub open spec fn fewer(a: nat, b: nat) -> nat {
    if a <= b {
        a
    } else {
        b
    }
}

/// The equality polynomial of two points over the coordinates that both have.
pub open spec fn shared_eq(a: Seq<E4>, b: Seq<E4>) -> E4 {
    let m = fewer(a.len(), b.len()) as int;
    eq_prod(a.take(m), b.take(m))
}

/// The final value is the polynomial in `lambda` of the contributions of the chips that have
/// openings, times the equality polynomial of the two points.
pub proof fn final_value_is_in_lambda(
    chips: Seq<ShardChip>,
    opened: Seq<ChipOpenedValues>,
    constraints: Seq<ConstraintValues>,
    z_star: Seq<E4>,
    z_gkr: Seq<E4>,
    beta: E4,
    lambda: E4,
    core_rev: bool,
)
    ensures
        rlc_value(chips, opened, constraints, z_star, z_gkr, beta, lambda, core_rev) == in_lambda(
            lambda,
            fewer(chips.len(), opened.len()),
            |i: int|
                shared_eq(anchored(z_gkr, core_rev), z_star) * contribution(
                    opened[i],
                    constraints[i],
                    z_star,
                    beta,
                    max_columns(chips, chips.len()),
                ),
        ),
{
    let eq = shared_eq(anchored(z_gkr, core_rev), z_star);
    let limit = max_columns(chips, chips.len());
    let c = |i: int| eq * contribution(opened[i], constraints[i], z_star, beta, limit);
    let a = crate::shard::zerocheck::anchor(z_gkr, core_rev);
    assert(a =~= anchored(z_gkr, core_rev));
    rlc_is_in_lambda(
        opened,
        constraints,
        eq,
        z_star,
        beta,
        lambda,
        limit,
        fewer(chips.len(), opened.len()),
        c,
    );
}

proof fn batch_open_is_in_beta(values: Seq<E4>, beta: E4, limit: nat)
    ensures
        batch_open(values, beta, limit) == in_beta(beta, front(values, limit)),
{
    let some = front(values, limit);
    batch_sum_is_in_beta(values, beta, some.len());
    let a = |j: int| values[j] * e_pow(beta, (j + 1) as nat);
    let b = |j: int| some[j] * e_pow(beta, (j + 1) as nat);
    esum_ext(some.len(), a, b);
}

proof fn rlc_is_in_lambda(
    opened: Seq<ChipOpenedValues>,
    constraints: Seq<ConstraintValues>,
    eq: E4,
    z_star: Seq<E4>,
    beta: E4,
    lambda: E4,
    limit: nat,
    k: nat,
    c: spec_fn(int) -> E4,
)
    requires
        c == (|i: int| eq * contribution(opened[i], constraints[i], z_star, beta, limit)),
    ensures
        rlc(opened, constraints, eq, seq![e_zero()] + z_star, beta, lambda, limit, k) == in_lambda(
            lambda,
            k,
            c,
        ),
    decreases k,
{
    if k > 0 {
        let n = (k - 1) as nat;
        rlc_is_in_lambda(opened, constraints, eq, z_star, beta, lambda, limit, n, c);
        let o = opened[n as int];
        let values = evals(o.main@) + evals(o.preprocessed@);
        batch_open_is_in_beta(values, beta, limit);
        mul_canon(eq, contribution(o, constraints[n as int], z_star, beta, limit));
        in_lambda_step(lambda, n, c);
    }
}

/// The opened columns of a chip in the lookup argument, main before preprocessed.
pub open spec fn lookup_columns(e: ChipEvaluation) -> Seq<E4> {
    opt_evals(e.main_trace_evaluations_full) + opt_evals(e.preprocessed_trace_evaluations_full)
}

/// The batched openings of the lookup argument are the polynomial in `lambda` of the chips'
/// columns at its point, at most `limit` of each, weighted by the powers of `beta`: the same
/// combination as that of the columns in the final value.
pub proof fn claimed_sum_is_in_lambda(
    openings: Seq<(String, ChipEvaluation)>,
    beta: E4,
    lambda: E4,
    limit: nat,
    k: nat,
)
    ensures
        sum_modification(openings, beta, lambda, limit, k) == in_lambda(
            lambda,
            k,
            |i: int| in_beta(beta, front(lookup_columns(openings[i].1), limit)),
        ),
    decreases k,
{
    let c = |i: int| in_beta(beta, front(lookup_columns(openings[i].1), limit));
    if k > 0 {
        let n = (k - 1) as nat;
        claimed_sum_is_in_lambda(openings, beta, lambda, limit, n);
        let values = lookup_columns(openings[n as int].1);
        let some = front(values, limit);
        batch_open_is_in_beta(values, beta, limit);
        esum_canon(some.len(), |j: int| some[j] * e_pow(beta, (j + 1) as nat));
        in_lambda_step(lambda, n, c);
    }
}

/// The columns of a chip and its constraints, as functions of a row point. The constraints
/// are those of the trace, less those of a row of zeros on the padding rows.
pub ghost struct ChipFunctions {
    pub columns: Seq<spec_fn(Seq<E4>) -> E4>,
    pub constraints: spec_fn(Seq<E4>) -> E4,
}

/// The columns of a chip at a point.
pub open spec fn columns_at(c: ChipFunctions, x: Seq<E4>) -> Seq<E4> {
    Seq::new(c.columns.len(), |j: int| (c.columns[j])(x))
}

/// The columns of a chip, each extended from the cube to a point.
pub open spec fn columns_extended(c: ChipFunctions, dim: nat, z: Seq<E4>) -> Seq<E4> {
    Seq::new(c.columns.len(), |j: int| extended(c.columns[j], dim, z))
}

/// What the constraint argument sums over the cube: the batched constraints and columns of
/// every chip, weighted by a point.
pub open spec fn zerocheck_function(
    parts: Seq<ChipFunctions>,
    z: Seq<E4>,
    beta: E4,
    lambda: E4,
) -> spec_fn(Seq<E4>) -> E4 {
    |x: Seq<E4>|
        eq_prod(x, z) * in_lambda(
            lambda,
            parts.len(),
            |i: int| (parts[i].constraints)(x) + in_beta(beta, columns_at(parts[i], x)),
        )
}

proof fn eq_prod_swaps(a: Seq<E4>, b: Seq<E4>)
    requires
        a.len() == b.len(),
    ensures
        eq_prod(a, b) == eq_prod(b, a),
    decreases a.len(),
{
    if a.len() > 0 {
        eq_prod_swaps(a.skip(1), b.skip(1));
        mul_comm(a[0], b[0]);
        mul_comm(e_one() - a[0], e_one() - b[0]);
        assert(eq1(a[0], b[0]) == eq1(b[0], a[0]));
    }
}

/// The sum of a combination of functions is the combination of their sums.
proof fn cube_sum_combines(
    weights: spec_fn(int) -> E4,
    g: spec_fn(int, Seq<E4>) -> E4,
    m: nat,
    n: nat,
    tail: Seq<E4>,
)
    ensures
        cube_sum(|x: Seq<E4>| esum(m, |i: int| weights(i) * g(i, x)), n, tail) == esum(
            m,
            |i: int| weights(i) * cube_sum(|x: Seq<E4>| g(i, x), n, tail),
        ),
    decreases m,
{
    let f = |x: Seq<E4>| esum(m, |i: int| weights(i) * g(i, x));
    if m == 0 {
        cube_sum_zero(f, n, tail);
    } else {
        let k = (m - 1) as nat;
        cube_sum_combines(weights, g, k, n, tail);
        let head = |x: Seq<E4>| esum(k, |i: int| weights(i) * g(i, x));
        let w = weights(k as int);
        let last = |x: Seq<E4>| g(k as int, x);
        let scaled = |x: Seq<E4>| w * last(x);
        let both = |x: Seq<E4>| head(x) + scaled(x);
        assert forall|x: Seq<E4>| on_cube(x, n, tail) implies #[trigger] f(x) == both(x) by {}
        cube_sum_ext(f, both, n, tail);
        cube_sum_add(head, scaled, n, tail);
        cube_sum_scale(w, last, n, tail);
    }
}

/// What the constraint argument sums to, where the constraints hold on the cube: the
/// polynomial in `lambda` of the extended columns.
pub proof fn zerocheck_sum(
    parts: Seq<ChipFunctions>,
    z: Seq<E4>,
    beta: E4,
    lambda: E4,
    dim: nat,
)
    requires
        forall|i: int, x: Seq<E4>|
            0 <= i < parts.len() && on_cube(x, dim, Seq::empty()) ==> #[trigger] (
            parts[i].constraints)(x) == e_zero(),
    ensures
        cube_sum(zerocheck_function(parts, z, beta, lambda), dim, Seq::empty()) == in_lambda(
            lambda,
            parts.len(),
            |i: int| in_beta(beta, columns_extended(parts[i], dim, z)),
        ),
{
    let e = Seq::<E4>::empty();
    let n = parts.len();
    let f = zerocheck_function(parts, z, beta, lambda);
    let weights = |i: int| e_pow(lambda, (n - 1 - i) as nat);
    let g = |i: int, x: Seq<E4>| eq_prod(x, z) * in_beta(beta, columns_at(parts[i], x));
    let h = |x: Seq<E4>| esum(n, |i: int| weights(i) * g(i, x));
    assert forall|x: Seq<E4>| on_cube(x, dim, e) implies #[trigger] f(x) == h(x) by {
        let q = eq_prod(x, z);
        let c = |i: int| (parts[i].constraints)(x) + in_beta(beta, columns_at(parts[i], x));
        let terms = |i: int| e_pow(lambda, (n - 1 - i) as nat) * c(i);
        let scaled = |i: int| q * terms(i);
        let moved = |i: int| weights(i) * g(i, x);
        esum_scale(n, q, terms);
        assert forall|i: int| 0 <= i < n implies #[trigger] scaled(i) == moved(i) by {
            let values = columns_at(parts[i], x);
            assert((parts[i].constraints)(x) == e_zero());
            esum_canon(values.len(), |j: int| values[j] * e_pow(beta, (j + 1) as nat));
            add_zero(in_beta(beta, values));
            mul_left_comm(q, weights(i), c(i));
        }
        esum_ext(n, scaled, moved);
    }
    cube_sum_ext(f, h, dim, e);
    cube_sum_combines(weights, g, n, dim, e);
    let sums = |i: int| weights(i) * cube_sum(|x: Seq<E4>| g(i, x), dim, e);
    let want = |i: int| weights(i) * in_beta(beta, columns_extended(parts[i], dim, z));
    assert forall|i: int| 0 <= i < n implies #[trigger] sums(i) == want(i) by {
        columns_sum(parts[i], z, beta, dim);
        let a = |x: Seq<E4>| g(i, x);
        let b = |x: Seq<E4>| eq_prod(x, z) * in_beta(beta, columns_at(parts[i], x));
        assert(a =~= b);
    }
    esum_ext(n, sums, want);
    let named = |i: int| in_beta(beta, columns_extended(parts[i], dim, z));
    let wanted = |i: int| e_pow(lambda, (n - 1 - i) as nat) * named(i);
    assert forall|i: int| 0 <= i < n implies #[trigger] want(i) == wanted(i) by {}
    esum_ext(n, want, wanted);
}

proof fn columns_sum(part: ChipFunctions, z: Seq<E4>, beta: E4, dim: nat)
    ensures
        cube_sum(
            |x: Seq<E4>| eq_prod(x, z) * in_beta(beta, columns_at(part, x)),
            dim,
            Seq::empty(),
        ) == in_beta(beta, columns_extended(part, dim, z)),
{
    let e = Seq::<E4>::empty();
    let m = part.columns.len();
    let f = |x: Seq<E4>| eq_prod(x, z) * in_beta(beta, columns_at(part, x));
    let weights = |j: int| e_pow(beta, (j + 1) as nat);
    let g = |j: int, x: Seq<E4>| eq_prod(x, z) * (part.columns[j])(x);
    let h = |x: Seq<E4>| esum(m, |j: int| weights(j) * g(j, x));
    assert forall|x: Seq<E4>| on_cube(x, dim, e) implies #[trigger] f(x) == h(x) by {
        let q = eq_prod(x, z);
        let values = columns_at(part, x);
        let terms = |j: int| values[j] * e_pow(beta, (j + 1) as nat);
        let scaled = |j: int| q * terms(j);
        let moved = |j: int| weights(j) * g(j, x);
        esum_scale(m, q, terms);
        assert forall|j: int| 0 <= j < m implies #[trigger] scaled(j) == moved(j) by {
            mul_comm(values[j], weights(j));
            mul_left_comm(q, weights(j), values[j]);
        }
        esum_ext(m, scaled, moved);
    }
    cube_sum_ext(f, h, dim, e);
    cube_sum_combines(weights, g, m, dim, e);
    let sums = |j: int| weights(j) * cube_sum(|x: Seq<E4>| g(j, x), dim, e);
    let ext = columns_extended(part, dim, z);
    let want = |j: int| ext[j] * e_pow(beta, (j + 1) as nat);
    assert forall|j: int| 0 <= j < m implies #[trigger] sums(j) == want(j) by {
        let a = |x: Seq<E4>| g(j, x);
        let col = part.columns[j];
        let b = |x: Seq<E4>| eq_prod(x, z) * col(x);
        assert(a =~= b);
        mul_comm(ext[j], weights(j));
    }
    esum_ext(m, sums, want);
}

/// An honest constraint argument is accepted, for any number of chips: where the constraints
/// of every chip hold on the cube, the lookup argument opens the columns at its point and the
/// proof opens them at the reduced point, and the sumcheck over the batched constraints and
/// columns is honest, nothing is refused.
pub proof fn honest_zerocheck_is_accepted(
    chips: Seq<ShardChip>,
    sumcheck: SumcheckVal,
    gkr: LogUpEvaluations,
    opened: Seq<ChipOpenedValues>,
    constraints: Seq<ConstraintValues>,
    dim: nat,
    core_rev: bool,
    beta: E4,
    lambda: E4,
    s: Sponge,
    parts: Seq<ChipFunctions>,
)
    requires
        parts.len() == chips.len(),
        opened.len() == chips.len(),
        gkr.chip_openings@.len() == chips.len(),
        gkr.point@.len() == dim,
        forall|i: int, x: Seq<E4>|
            0 <= i < parts.len() && on_cube(x, dim, Seq::empty()) ==> #[trigger] (
            parts[i].constraints)(x) == e_zero(),
        honest_sumcheck(
            sumcheck,
            s,
            zerocheck_function(parts, anchored(evals(gkr.point@), core_rev), beta, lambda),
            dim,
            4,
        ),
        forall|i: int|
            #![trigger opened[i]]
            0 <= i < chips.len() ==> {
                let o = opened[i];
                let c = constraints[i];
                let mask = full_geq(o.degree(), seq![e_zero()] + sumcheck.point);
                &&& opens_columns(chips[i], o, dim)
                &&& evals(o.main@) + evals(o.preprocessed@) == columns_at(
                    parts[i],
                    sumcheck.point,
                )
                &&& c.at_openings@ - c.at_padding@ * mask == (parts[i].constraints)(sumcheck.point)
                &&& lookup_columns(gkr.chip_openings@[i].1) == columns_extended(
                    parts[i],
                    dim,
                    anchored(evals(gkr.point@), core_rev),
                )
            },
    ensures
        zerocheck_refusal(
            chips,
            sumcheck,
            gkr,
            opened,
            constraints,
            dim,
            core_rev,
            beta,
            lambda,
            s,
        ) is None,
{
    let z = anchored(evals(gkr.point@), core_rev);
    let p = sumcheck.point;
    let n = chips.len();
    let f = zerocheck_function(parts, z, beta, lambda);
    assert(evals(gkr.point@).len() == dim);
    honest_sumcheck_is_accepted(sumcheck, s, f, dim, 4);
    // The claimed sum.
    zerocheck_sum(parts, z, beta, lambda, dim);
    let limit = max_columns(chips, n);
    assert forall|i: int| 0 <= i < n implies lookup_columns(
        (#[trigger] gkr.chip_openings@[i]).1,
    ).len() <= limit by {
        let o = opened[i];
        widest_chip(chips, n, i);
        assert(opens_columns(chips[i], o, dim));
        assert(columns_at(parts[i], p).len() == parts[i].columns.len());
        assert((evals(o.main@) + evals(o.preprocessed@)).len() == o.main@.len()
            + o.preprocessed@.len());
        assert(lookup_columns(gkr.chip_openings@[i].1).len() == parts[i].columns.len());
    }
    claimed_sum_is_in_lambda(gkr.chip_openings@, beta, lambda, limit, n);
    let a = |i: int| in_beta(beta, front(lookup_columns(gkr.chip_openings@[i].1), limit));
    let b = |i: int| in_beta(beta, columns_extended(parts[i], dim, z));
    assert forall|i: int| 0 <= i < n implies #[trigger] a(i) == b(i) by {
        let o = opened[i];
        let values = lookup_columns(gkr.chip_openings@[i].1);
        assert(values.len() <= limit);
        assert(front(values, limit) =~= values);
    }
    in_lambda_ext(lambda, n, a, b);
    opened_value_is_summed_function(
        chips,
        opened,
        constraints,
        p,
        evals(gkr.point@),
        beta,
        lambda,
        core_rev,
        parts,
    );
}

/// The final value is that of the summed function at the reduced point, where the proof opens
/// the columns and the constraints of every chip there.
proof fn opened_value_is_summed_function(
    chips: Seq<ShardChip>,
    opened: Seq<ChipOpenedValues>,
    constraints: Seq<ConstraintValues>,
    p: Seq<E4>,
    z_gkr: Seq<E4>,
    beta: E4,
    lambda: E4,
    core_rev: bool,
    parts: Seq<ChipFunctions>,
)
    requires
        parts.len() == chips.len(),
        opened.len() == chips.len(),
        z_gkr.len() == p.len(),
        forall|i: int|
            #![trigger opened[i]]
            0 <= i < chips.len() ==> {
                let o = opened[i];
                let c = constraints[i];
                let mask = full_geq(o.degree(), seq![e_zero()] + p);
                &&& opens_columns(chips[i], o, p.len())
                &&& evals(o.main@) + evals(o.preprocessed@) == columns_at(parts[i], p)
                &&& c.at_openings@ - c.at_padding@ * mask == (parts[i].constraints)(p)
            },
    ensures
        rlc_value(chips, opened, constraints, p, z_gkr, beta, lambda, core_rev)
            == zerocheck_function(parts, anchored(z_gkr, core_rev), beta, lambda)(p),
{
    let z = anchored(z_gkr, core_rev);
    let n = chips.len();
    let limit = max_columns(chips, n);
    assert(z.take(z.len() as int) =~= z);
    assert(p.take(p.len() as int) =~= p);
    final_value_is_in_lambda(chips, opened, constraints, p, z_gkr, beta, lambda, core_rev);
    let q = eq_prod(z, p);
    eq_prod_swaps(z, p);
    let c = |i: int| q * contribution(opened[i], constraints[i], p, beta, limit);
    let d = |i: int| (parts[i].constraints)(p) + in_beta(beta, columns_at(parts[i], p));
    let terms = |i: int| e_pow(lambda, (n - 1 - i) as nat) * d(i);
    let scaled = |i: int| q * terms(i);
    let moved = |i: int| e_pow(lambda, (n - 1 - i) as nat) * c(i);
    esum_scale(n, q, terms);
    assert forall|i: int| 0 <= i < n implies #[trigger] scaled(i) == moved(i) by {
        let o = opened[i];
        let values = evals(o.main@) + evals(o.preprocessed@);
        widest_chip(chips, n, i);
        assert(values.len() == o.main@.len() + o.preprocessed@.len());
        assert(front(values, limit) =~= values);
        assert(contribution(o, constraints[i], p, beta, limit) == d(i));
        mul_left_comm(q, e_pow(lambda, (n - 1 - i) as nat), d(i));
    }
    esum_ext(n, scaled, moved);
}

/// What an accepted constraint argument says: its sumcheck over one variable per row bit is
/// accepted, its claimed sum is the polynomial in `lambda` of the chips' columns in the lookup
/// argument, and its final value is the polynomial in `lambda` of the chips' contributions at
/// the reduced point, times the equality polynomial of the two points. And what says so is
/// accepted.
pub proof fn accepted_zerocheck_binds(
    chips: Seq<ShardChip>,
    sumcheck: SumcheckVal,
    gkr: LogUpEvaluations,
    opened: Seq<ChipOpenedValues>,
    constraints: Seq<ConstraintValues>,
    dim: nat,
    core_rev: bool,
    beta: E4,
    lambda: E4,
    s: Sponge,
)
    ensures
        (zerocheck_refusal(
            chips,
            sumcheck,
            gkr,
            opened,
            constraints,
            dim,
            core_rev,
            beta,
            lambda,
            s,
        ) is None) == ({
            let limit = max_columns(chips, chips.len());
            let eq = shared_eq(anchored(evals(gkr.point@), core_rev), sumcheck.point);
            &&& sumcheck.refusal(s, dim, 4) is None
            &&& sumcheck.point.len() == dim
            &&& gkr.point@.len() == dim
            &&& sumcheck.claimed == in_lambda(
                lambda,
                gkr.chip_openings@.len(),
                |i: int| in_beta(beta, front(lookup_columns(gkr.chip_openings@[i].1), limit)),
            )
            &&& sumcheck.eval == in_lambda(
                lambda,
                fewer(chips.len(), opened.len()),
                |i: int|
                    eq * contribution(opened[i], constraints[i], sumcheck.point, beta, limit),
            )
        }),
{
    assert(evals(gkr.point@).len() == gkr.point@.len());
    claimed_sum_is_in_lambda(
        gkr.chip_openings@,
        beta,
        lambda,
        max_columns(chips, chips.len()),
        gkr.chip_openings@.len(),
    );
    final_value_is_in_lambda(
        chips,
        opened,
        constraints,
        sumcheck.point,
        evals(gkr.point@),
        beta,
        lambda,
        core_rev,
    );
}

/// What an accepted verification of the constraint argument has passed: the constraints of
/// every chip with openings were batched by the challenge drawn first, the openings by the one
/// drawn second and the chips by the one drawn third, the argument under them is accepted on
/// the transcript after them, and the transcript in the end has absorbed the openings.
pub proof fn accepted_zerocheck_draws_three<
    C: Fn(&ShardChip, &ChipOpenedValues, Ext, &Vec<Felt>) -> ConstraintValues,
>(
    chips: Seq<ShardChip>,
    sumcheck: SumcheckVal,
    gkr: LogUpEvaluations,
    public_values: Vec<Felt>,
    dim: nat,
    core_rev: bool,
    opened: Seq<ChipOpenedValues>,
    fold: C,
    s: Sponge,
    end: Sponge,
) -> (c: Seq<ConstraintValues>)
    requires
        zerocheck_answer(
            chips,
            sumcheck,
            gkr,
            public_values,
            dim,
            core_rev,
            opened,
            fold,
            s,
            Ok(()),
            end,
        ),
    ensures
        ({
            let drawn = s.drawn_exts(3);
            let after = s.after_draw_exts(3);
            &&& c.len() == fewer(chips.len(), opened.len())
            &&& forall|i: int|
                0 <= i < c.len() ==> exists|a: Ext|
                    a@ == drawn[0] && fold.ensures(
                        (&chips[i], &opened[i], a, &public_values),
                        #[trigger] c[i],
                    )
            &&& zerocheck_refusal(
                chips,
                sumcheck,
                gkr,
                opened,
                c,
                dim,
                core_rev,
                drawn[1],
                drawn[2],
                after,
            ) is None
            &&& end == observe_openings(
                sumcheck.after(after),
                chips.len(),
                zerocheck_pairs(opened),
            )
        }),
{
    reveal_with_fuel(Sponge::after_draw_exts, 4);
    let s1 = s.after_draw_ext();
    let s2 = s1.after_draw_ext();
    let s3 = s2.after_draw_ext();
    assert(s.drawn_exts(3)[0] == s.drawn_ext());
    assert(s.drawn_exts(3)[1] == s1.drawn_ext());
    assert(s.drawn_exts(3)[2] == s2.drawn_ext());
    choose|c: Seq<ConstraintValues>|
        {
            &&& #[trigger] folded(fold, chips, opened, s.drawn_ext(), public_values, c)
            &&& zerocheck_refusal(
                chips,
                sumcheck,
                gkr,
                opened,
                c,
                dim,
                core_rev,
                s1.drawn_ext(),
                s2.drawn_ext(),
                s3,
            ) is None
            &&& end == observe_openings(
                sumcheck.after(s3),
                chips.len(),
                zerocheck_pairs(opened),
            )
        }
}

/// Broken constraints are accepted only by a lucky challenge: where an accepted constraint
/// argument opens the columns and the constraints of every chip at the reduced point, but
/// claims another sum than that of the batched constraints and columns over the cube, some
/// polynomial of the sumcheck differs from the honest one at zero or one and agrees with it
/// at the challenge drawn after it.
pub proof fn broken_constraints_need_a_lucky_challenge(
    chips: Seq<ShardChip>,
    sumcheck: SumcheckVal,
    gkr: LogUpEvaluations,
    opened: Seq<ChipOpenedValues>,
    constraints: Seq<ConstraintValues>,
    dim: nat,
    core_rev: bool,
    beta: E4,
    lambda: E4,
    s: Sponge,
    parts: Seq<ChipFunctions>,
) -> (k: int)
    requires
        zerocheck_refusal(
            chips,
            sumcheck,
            gkr,
            opened,
            constraints,
            dim,
            core_rev,
            beta,
            lambda,
            s,
        ) is None,
        parts.len() == chips.len(),
        opened.len() == chips.len(),
        forall|i: int|
            #![trigger opened[i]]
            0 <= i < chips.len() ==> {
                let o = opened[i];
                let c = constraints[i];
                let mask = full_geq(o.degree(), seq![e_zero()] + sumcheck.point);
                &&& opens_columns(chips[i], o, dim)
                &&& evals(o.main@) + evals(o.preprocessed@) == columns_at(
                    parts[i],
                    sumcheck.point,
                )
                &&& c.at_openings@ - c.at_padding@ * mask == (parts[i].constraints)(sumcheck.point)
            },
        sumcheck.claimed != cube_sum(
            zerocheck_function(parts, anchored(evals(gkr.point@), core_rev), beta, lambda),
            dim,
            Seq::empty(),
        ),
    ensures
        0 <= k < dim,
        ({
            let f = zerocheck_function(
                parts,
                anchored(evals(gkr.point@), core_rev),
                beta,
                lambda,
            );
            let m = (dim - 1 - k) as nat;
            let tail = sumcheck.point.skip(dim - k);
            let x = sumcheck.challenge(s, (k + 1) as nat);
            &&& univariate(sumcheck.polys[k], x) == cube_sum(f, m, seq![x] + tail)
            &&& univariate(sumcheck.polys[k], e_zero()) != cube_sum(f, m, seq![e_zero()] + tail)
                || univariate(sumcheck.polys[k], e_one()) != cube_sum(f, m, seq![e_one()] + tail)
        }),
{
    assert(evals(gkr.point@).len() == gkr.point@.len());
    opened_value_is_summed_function(
        chips,
        opened,
        constraints,
        sumcheck.point,
        evals(gkr.point@),
        beta,
        lambda,
        core_rev,
        parts,
    );
    let f = zerocheck_function(parts, anchored(evals(gkr.point@), core_rev), beta, lambda);
    false_sum_needs_a_lucky_challenge(sumcheck, s, f, dim, 4)
}

proof fn in_lambda_ext(lambda: E4, n: nat, a: spec_fn(int) -> E4, b: spec_fn(int) -> E4)
    requires
        forall|i: int| 0 <= i < n ==> #[trigger] a(i) == b(i),
    ensures
        in_lambda(lambda, n, a) == in_lambda(lambda, n, b),
{
    let f = |i: int| e_pow(lambda, (n - 1 - i) as nat) * a(i);
    let g = |i: int| e_pow(lambda, (n - 1 - i) as nat) * b(i);
    assert forall|i: int| 0 <= i < n implies #[trigger] f(i) == g(i) by {
        assert(a(i) == b(i));
    }
    esum_ext(n, f, g);
}

} // verus!
