//! The fractions that the verifier rebuilds from the opened columns are the columns of the
//! prover's first layer at the point.
use vstd::prelude::*;
use vstd::arithmetic::power2::pow2;
use crate::ext::{add_assoc, add_canon, add_comm, add_sub_assoc, add_sub_cancel, add_zero, all_canon, e_one, e_zero, embed,
    embed_keeps, mul_add, mul_assoc, mul_canon, mul_comm, mul_one, mul_sub, mul_zero,
    sub_add_cancel, sub_canon, E4};
use crate::felt::{canonical, felt_canonical, fmul, reduce};
use crate::mle::{dot, eq_tab, eq_weight, esum, esum_add, esum_canon, esum_ext, esum_scale,
    esum_split, esum_zero, mle_eval, mle_eval_is_weighted_sum};
use crate::ring::add_swap;
use crate::shard::gkr_prove::columns_at;
use crate::shard::lookup::{interaction_fraction, prep_row, row_within, table_height, table_row, ChipLookups,
    Lookup, PairCol, VirtualPairCol};
use crate::shard::mask::{head_and_tail, mask_is_padding_share, tail_weight};
use crate::shard::points::full_geq;
use crate::shard::rebuild::{extended_point, masked_fraction, zeros};
use crate::shard::residual::degree_bits;

verus! {

/// Weighted values of rows, and a value for the rest with its weight.
spec fn mix(weights: Seq<E4>, values: Seq<E4>, pad: E4, rest: E4) -> E4 {
    dot(weights, values) + pad * rest
}

proof fn dot_add(w: Seq<E4>, a: Seq<E4>, b: Seq<E4>)
    requires
        a.len() == w.len(),
        b.len() == w.len(),
    ensures
        dot(w, Seq::new(w.len(), |i: int| a[i] + b[i])) == dot(w, a) + dot(w, b),
{
    let s = Seq::new(w.len(), |i: int| a[i] + b[i]);
    let f = |i: int| w[i] * a[i];
    let g = |i: int| w[i] * b[i];
    let h = |i: int| w[i] * s[i];
    let sum = |i: int| f(i) + g(i);
    assert forall|i: int| 0 <= i < w.len() implies #[trigger] h(i) == sum(i) by {
        mul_add(w[i], a[i], b[i]);
    }
    esum_ext(w.len(), h, sum);
    esum_add(w.len(), f, g);
}

proof fn dot_scale(w: Seq<E4>, k: E4, a: Seq<E4>)
    requires
        a.len() == w.len(),
    ensures
        dot(w, Seq::new(w.len(), |i: int| k * a[i])) == k * dot(w, a),
{
    let s = Seq::new(w.len(), |i: int| k * a[i]);
    let f = |i: int| w[i] * a[i];
    let h = |i: int| w[i] * s[i];
    let scaled = |i: int| k * f(i);
    assert forall|i: int| 0 <= i < w.len() implies #[trigger] h(i) == scaled(i) by {
        mul_assoc(w[i], k, a[i]);
        mul_comm(w[i], k);
        mul_assoc(k, w[i], a[i]);
    }
    esum_ext(w.len(), h, scaled);
    esum_scale(w.len(), k, f);
}

/// The sum of mixtures is the mixture of the sums.
proof fn mix_add(w: Seq<E4>, a: Seq<E4>, pa: E4, b: Seq<E4>, pb: E4, rest: E4)
    requires
        a.len() == w.len(),
        b.len() == w.len(),
    ensures
        mix(w, a, pa, rest) + mix(w, b, pb, rest) == mix(
            w,
            Seq::new(w.len(), |i: int| a[i] + b[i]),
            pa + pb,
            rest,
        ),
{
    dot_add(w, a, b);
    mul_add(rest, pa, pb);
    add_swap(dot(w, a), pa * rest, dot(w, b), pb * rest);
}

/// A mixture scales with its values.
proof fn mix_scale(w: Seq<E4>, k: E4, a: Seq<E4>, pa: E4, rest: E4)
    requires
        a.len() == w.len(),
    ensures
        k * mix(w, a, pa, rest) == mix(w, Seq::new(w.len(), |i: int| k * a[i]), k * pa, rest),
{
    dot_scale(w, k, a);
    mul_add(k, dot(w, a), pa * rest);
    mul_assoc(k, pa, rest);
}

/// Where the weights add up to one, a constant is a mixture of itself.
proof fn mix_constant(w: Seq<E4>, k: E4, rest: E4)
    requires
        k.canon(),
        esum(w.len(), |i: int| w[i]) + rest == e_one(),
    ensures
        mix(w, Seq::new(w.len(), |i: int| k), k, rest) == k,
{
    let s = Seq::new(w.len(), |i: int| k);
    let f = |i: int| w[i];
    let h = |i: int| w[i] * s[i];
    let scaled = |i: int| k * f(i);
    assert forall|i: int| 0 <= i < w.len() implies #[trigger] h(i) == scaled(i) by {
        mul_comm(w[i], k);
    }
    esum_ext(w.len(), h, scaled);
    esum_scale(w.len(), k, f);
    mul_add(k, esum(w.len(), f), rest);
    mul_one(k);
}

/// What a table of rows gives for a function of a row: one row of preprocessed and one of
/// main entries.
spec fn base_values(v: VirtualPairCol, preps: Seq<Seq<int>>, mains: Seq<Seq<int>>, k: nat) -> Seq<
    E4,
> {
    Seq::new(mains.len(), |r: int| embed(v.base_value(preps[r], mains[r], k)))
}

/// Whether opened columns are the weighted columns of a table.
spec fn opens(w: Seq<E4>, rows: Seq<Seq<int>>, columns: Seq<E4>) -> bool {
    forall|c: int|
        0 <= c < columns.len() ==> #[trigger] columns[c] == dot(
            w,
            Seq::new(w.len(), |r: int| embed(rows[r][c])),
        )
}

/// Whether opened columns are those of a table of rows, and its weights, with that of the
/// other rows, add up to one.
spec fn table_opened(
    w: Seq<E4>,
    rest: E4,
    preps: Seq<Seq<int>>,
    mains: Seq<Seq<int>>,
    prep: Seq<E4>,
    main: Seq<E4>,
) -> bool {
    &&& preps.len() == w.len()
    &&& mains.len() == w.len()
    &&& opens(w, preps, prep)
    &&& opens(w, mains, main)
    &&& esum(w.len(), |i: int| w[i]) + rest == e_one()
}

/// A column of the opening is the mixture of its entries and zero.
proof fn column_mixes(
    c: PairCol,
    w: Seq<E4>,
    rest: E4,
    preps: Seq<Seq<int>>,
    mains: Seq<Seq<int>>,
    prep: Seq<E4>,
    main: Seq<E4>,
)
    requires
        table_opened(w, rest, preps, mains, prep, main),
        c.fits(prep.len(), main.len()),
    ensures
        c.at(prep, main) == mix(
            w,
            Seq::new(w.len(), |r: int| embed(c.at(preps[r], mains[r]))),
            e_zero(),
            rest,
        ),
        c.at(zeros(prep.len()), zeros(main.len())) == e_zero(),
{
    let s = Seq::new(w.len(), |r: int| embed(c.at(preps[r], mains[r])));
    mul_zero(rest);
    esum_canon(w.len(), |i: int| w[i] * s[i]);
    add_zero(dot(w, s));
    match c {
        PairCol::Preprocessed(i) => {
            let t = Seq::new(w.len(), |r: int| embed(preps[r][i as int]));
            assert(s =~= t);
            assert(prep[i as int] == dot(w, t));
        },
        PairCol::Main(i) => {
            let t = Seq::new(w.len(), |r: int| embed(mains[r][i as int]));
            assert(s =~= t);
            assert(main[i as int] == dot(w, t));
        },
    }
}

/// A combination of opened columns is the mixture of its values on the rows and its value
/// on a row of zeros.
proof fn value_mixes(
    v: VirtualPairCol,
    w: Seq<E4>,
    rest: E4,
    preps: Seq<Seq<int>>,
    mains: Seq<Seq<int>>,
    prep: Seq<E4>,
    main: Seq<E4>,
    k: nat,
)
    requires
        table_opened(w, rest, preps, mains, prep, main),
        v.fits(prep.len(), main.len()),
        k <= v.column_weights@.len(),
        canonical(v.constant@),
    ensures
        v.ext_value(prep, main, k) == mix(
            w,
            base_values(v, preps, mains, k),
            v.ext_value(zeros(prep.len()), zeros(main.len()), k),
            rest,
        ),
    decreases k,
{
    let zp = zeros(prep.len());
    let zm = zeros(main.len());
    if k == 0 {
        let c = embed(v.constant@);
        assert(base_values(v, preps, mains, 0) =~= Seq::new(w.len(), |r: int| c));
        mix_constant(w, c, rest);
    } else {
        let j = (k - 1) as nat;
        value_mixes(v, w, rest, preps, mains, prep, main, j);
        let cw = v.column_weights@[k - 1];
        let e = embed(cw.1@);
        assert(cw.0.fits(prep.len(), main.len()));
        column_mixes(cw.0, w, rest, preps, mains, prep, main);
        let cells = Seq::new(w.len(), |r: int| embed(cw.0.at(preps[r], mains[r])));
        mix_scale(w, e, cells, e_zero(), rest);
        mul_comm(cw.0.at(prep, main), e);
        mul_comm(cw.0.at(zp, zm), e);
        let scaled = Seq::new(w.len(), |r: int| e * cells[r]);
        let before = base_values(v, preps, mains, j);
        mix_add(w, before, v.ext_value(zp, zm, j), scaled, e * e_zero(), rest);
        let sum = Seq::new(w.len(), |r: int| before[r] + scaled[r]);
        assert(sum =~= base_values(v, preps, mains, k)) by {
            assert forall|r: int| 0 <= r < w.len() implies sum[r] == base_values(
                v,
                preps,
                mains,
                k,
            )[r] by {
                let a = v.base_value(preps[r], mains[r], j);
                let x = cw.0.at(preps[r], mains[r]);
                embed_keeps(x, cw.1@);
                mul_comm(embed(x), e);
                embed_keeps(a, fmul(x, cw.1@));
            }
        }
    }
}

/// The denominators of a lookup on the rows of a table.
spec fn base_denominators(
    l: Lookup,
    preps: Seq<Seq<int>>,
    mains: Seq<Seq<int>>,
    alpha: E4,
    betas: Seq<E4>,
    k: nat,
) -> Seq<E4> {
    Seq::new(mains.len(), |r: int| l.base_denominator(preps[r], mains[r], alpha, betas, k))
}

/// Whether the constants of a lookup are residues.
spec fn constants_canon(l: Lookup) -> bool {
    &&& canonical(l.multiplicity.constant@)
    &&& forall|i: int| 0 <= i < l.values@.len() ==> canonical((#[trigger] l.values@[i]).constant@)
}

proof fn residues_canon(l: Lookup)
    ensures
        constants_canon(l),
{
    felt_canonical(l.multiplicity.constant);
    assert forall|i: int| 0 <= i < l.values@.len() implies canonical(
        (#[trigger] l.values@[i]).constant@,
    ) by {
        felt_canonical(l.values@[i].constant);
    }
}

proof fn denominator_mixes(
    l: Lookup,
    w: Seq<E4>,
    rest: E4,
    preps: Seq<Seq<int>>,
    mains: Seq<Seq<int>>,
    prep: Seq<E4>,
    main: Seq<E4>,
    alpha: E4,
    betas: Seq<E4>,
    k: nat,
)
    requires
        table_opened(w, rest, preps, mains, prep, main),
        l.fits(prep.len(), main.len()),
        constants_canon(l),
        k <= l.values@.len(),
    ensures
        l.ext_denominator(prep, main, alpha, betas, k) == mix(
            w,
            base_denominators(l, preps, mains, alpha, betas, k),
            l.ext_denominator(zeros(prep.len()), zeros(main.len()), alpha, betas, k),
            rest,
        ),
    decreases k,
{
    let zp = zeros(prep.len());
    let zm = zeros(main.len());
    if k == 0 {
        let c = l.ext_denominator(prep, main, alpha, betas, 0);
        add_canon(alpha, betas[0] * embed(reduce(l.kind.argument_index as int)));
        assert(base_denominators(l, preps, mains, alpha, betas, 0) =~= Seq::new(
            w.len(),
            |r: int| c,
        ));
        mix_constant(w, c, rest);
    } else {
        let j = (k - 1) as nat;
        denominator_mixes(l, w, rest, preps, mains, prep, main, alpha, betas, j);
        let v = l.values@[k - 1];
        let n = v.column_weights@.len();
        let b = betas[k as int];
        assert(v.fits(prep.len(), main.len()));
        assert(canonical(v.constant@));
        value_mixes(v, w, rest, preps, mains, prep, main, n);
        let vals = base_values(v, preps, mains, n);
        mix_scale(w, b, vals, v.ext_value(zp, zm, n), rest);
        let scaled = Seq::new(w.len(), |r: int| b * vals[r]);
        let before = base_denominators(l, preps, mains, alpha, betas, j);
        mix_add(
            w,
            before,
            l.ext_denominator(zp, zm, alpha, betas, j),
            scaled,
            b * v.ext_value(zp, zm, n),
            rest,
        );
        let sum = Seq::new(w.len(), |r: int| before[r] + scaled[r]);
        assert(sum =~= base_denominators(l, preps, mains, alpha, betas, k));
    }
}

/// The mask takes the padding rows' share out of a mixture.
proof fn unmix(w: Seq<E4>, values: Seq<E4>, pad: E4, rest: E4)
    ensures
        mix(w, values, pad, rest) - pad * rest == dot(w, values),
        mix(w, values, pad, rest) + (e_one() - pad) * rest == dot(w, values) + e_one() * rest,
{
    let d = dot(w, values);
    esum_canon(w.len(), |i: int| w[i] * values[i]);
    add_sub_cancel(d, pad * rest);
    mul_sub(rest, e_one(), pad);
    let x = pad * rest;
    let y = e_one() * rest;
    // (d + x) + (y - x) == d + y
    add_assoc(d, x, y - x);
    add_comm(x, y - x);
    mul_canon(e_one(), rest);
    sub_add_cancel(y, x);
}

proof fn dot_negated(w: Seq<E4>, a: Seq<E4>)
    requires
        a.len() == w.len(),
    ensures
        dot(w, Seq::new(w.len(), |i: int| e_zero() - a[i])) == e_zero() - dot(w, a),
{
    let s = Seq::new(w.len(), |i: int| e_zero() - a[i]);
    dot_add(w, s, a);
    let both = Seq::new(w.len(), |i: int| s[i] + a[i]);
    let f = |i: int| w[i] * both[i];
    assert forall|i: int| 0 <= i < w.len() implies #[trigger] f(i) == e_zero() by {
        // (0 - a) + a == 0
        add_comm(s[i], a[i]);
        add_sub_assoc(a[i], e_zero(), a[i]);
        add_comm(a[i], e_zero());
        add_sub_cancel(e_zero(), a[i]);
        mul_zero(w[i]);
    }
    esum_zero(w.len(), f);
    esum_canon(w.len(), |i: int| w[i] * s[i]);
    add_sub_cancel(dot(w, s), dot(w, a));
}

/// The fraction that the verifier rebuilds is the weighted fraction of the rows, with the
/// fraction zero over one on the other rows.
proof fn masked_is_weighted(
    l: Lookup,
    w: Seq<E4>,
    rest: E4,
    preps: Seq<Seq<int>>,
    mains: Seq<Seq<int>>,
    prep: Seq<E4>,
    main: Seq<E4>,
    is_send: bool,
    alpha: E4,
    betas: Seq<E4>,
)
    requires
        table_opened(w, rest, preps, mains, prep, main),
        l.fits(prep.len(), main.len()),
        constants_canon(l),
        betas.len() > 0,
    ensures
        masked_fraction(l, prep, main, rest, is_send, alpha, betas) == (
            dot(
                w,
                Seq::new(
                    w.len(),
                    |r: int|
                        embed(
                            interaction_fraction(
                                l,
                                preps[r],
                                mains[r],
                                is_send,
                                alpha,
                                betas,
                            ).0,
                        ),
                ),
            ),
            dot(
                w,
                Seq::new(
                    w.len(),
                    |r: int|
                        interaction_fraction(l, preps[r], mains[r], is_send, alpha, betas).1,
                ),
            ) + e_one() * rest,
        ),
{
    let m = l.multiplicity;
    let n = m.column_weights@.len();
    let k = l.covered(betas.len());
    let zp = zeros(prep.len());
    let zm = zeros(main.len());
    value_mixes(m, w, rest, preps, mains, prep, main, n);
    denominator_mixes(l, w, rest, preps, mains, prep, main, alpha, betas, k);
    let vals = base_values(m, preps, mains, n);
    let dens = base_denominators(l, preps, mains, alpha, betas, k);
    unmix(w, vals, m.ext_value(zp, zm, n), rest);
    unmix(w, dens, l.ext_denominator(zp, zm, alpha, betas, k), rest);
    let nums = Seq::new(
        w.len(),
        |r: int|
            embed(interaction_fraction(l, preps[r], mains[r], is_send, alpha, betas).0),
    );
    let ds = Seq::new(
        w.len(),
        |r: int| interaction_fraction(l, preps[r], mains[r], is_send, alpha, betas).1,
    );
    assert(ds =~= dens);
    if is_send {
        assert(nums =~= vals);
    } else {
        dot_negated(w, vals);
        let neg = Seq::new(w.len(), |r: int| e_zero() - vals[r]);
        assert(nums =~= neg) by {
            assert forall|r: int| 0 <= r < w.len() implies nums[r] == neg[r] by {
                embed_keeps(0, m.base_value(preps[r], mains[r], n));
            }
        }
    }
}

/// The first `h` weights of a point.
spec fn first_weights(point: Seq<E4>, h: nat) -> Seq<E4> {
    Seq::new(h, |r: int| eq_weight(point, r))
}

proof fn trace_opens(
    values: Seq<int>,
    width: nat,
    h: nat,
    point: Seq<E4>,
    rows: Seq<Seq<int>>,
)
    requires
        h == table_height(values.len(), width),
        h <= pow2(point.len()),
        rows == Seq::new(h, |r: int| table_row(values, width, r)),
    ensures
        opens(first_weights(point, h), rows, columns_at(values, width, point)),
{
    let w = first_weights(point, h);
    let columns = columns_at(values, width, point);
    assert forall|c: int| 0 <= c < columns.len() implies #[trigger] columns[c] == dot(
        w,
        Seq::new(w.len(), |r: int| embed(rows[r][c])),
    ) by {
        let s = Seq::new(w.len(), |r: int| embed(rows[r][c]));
        let t = eq_tab(point);
        let f = |row: int| t[row] * embed(values[row * width + c]);
        let g = |r: int| w[r] * s[r];
        assert forall|r: int| 0 <= r < h implies #[trigger] f(r) == g(r) by {
            row_within(values.len(), width, h, r as nat);
            assert((r + 1) * width == r * width + width) by (nonlinear_arith);
            assert(rows[r] == table_row(values, width, r));
            assert(rows[r][c] == values[r * width + c]);
        }
        esum_ext(h, f, g);
    }
}

/// A column of values on the real rows, with one value on all others.
pub open spec fn padded_column(values: spec_fn(int) -> E4, h: nat, size: nat, pad: E4) -> Seq<E4> {
    Seq::new(
        size,
        |r: int|
            if r < h {
                values(r)
            } else {
                pad
            },
    )
}

/// The value of a padded column at a point.
proof fn padded_column_value(values: spec_fn(int) -> E4, h: nat, point: Seq<E4>, pad: E4)
    requires
        h <= pow2(point.len()),
        pad.canon(),
        forall|r: int| 0 <= r < h ==> (#[trigger] values(r)).canon(),
    ensures
        mle_eval(padded_column(values, h, pow2(point.len()), pad), point) == dot(
            first_weights(point, h),
            Seq::new(h, |r: int| values(r)),
        ) + pad * tail_weight(point, h),
{
    let size = pow2(point.len());
    let col = padded_column(values, h, size, pad);
    let w = first_weights(point, h);
    let s = Seq::new(h, |r: int| values(r));
    assert(all_canon(col));
    mle_eval_is_weighted_sum(col, point);
    let t = eq_tab(point);
    let f = |i: int| t[i] * col[i];
    let k = (size - h) as nat;
    esum_split(h, k, f);
    let g = |i: int| w[i] * s[i];
    assert forall|i: int| 0 <= i < h implies #[trigger] f(i) == g(i) by {}
    esum_ext(h, f, g);
    let tail = |x: int|
        if x >= h {
            eq_weight(point, x)
        } else {
            e_zero()
        };
    esum_split(h, k, tail);
    esum_zero(h, tail);
    let b = |i: int| tail(h + i);
    esum_canon(k, b);
    add_zero(esum(k, b));
    let a = |i: int| f(h + i);
    let pb = |i: int| pad * b(i);
    assert forall|i: int| 0 <= i < k implies #[trigger] a(i) == pb(i) by {
        mul_comm(t[h + i], pad);
    }
    esum_ext(k, a, pb);
    esum_scale(k, pad, b);
}

/// The opened columns of an optional trace.
pub open spec fn prep_columns_at(prep: Option<(Seq<int>, nat)>, point: Seq<E4>) -> Seq<E4> {
    match prep {
        Some((values, w)) => columns_at(values, w, point),
        None => Seq::empty(),
    }
}

/// The last layer that the verifier rebuilds is the prover's first one: for each
/// interaction of a chip, the fraction of the opened columns, masked by the bits of the
/// height, is the pair of the columns of numerators and denominators at the point, the
/// numerators padded with zeros and the denominators with ones.
pub proof fn rebuilt_fractions_are_the_first_layer(
    chip: ChipLookups,
    main: (Seq<int>, nat),
    prep: Option<(Seq<int>, nat)>,
    alpha: E4,
    betas: Seq<E4>,
    c: int,
    point: Seq<E4>,
)
    requires
        0 <= c < chip.count(),
        betas.len() > 0,
        table_height(main.0.len(), main.1) <= pow2(point.len()),
        prep matches Some((values, w)) ==> w > 0 ==> table_height(values.len(), w) == table_height(
            main.0.len(),
            main.1,
        ),
        chip.at(c).0.fits(prep_columns_at(prep, point).len(), main.1),
    ensures
        ({
            let h = table_height(main.0.len(), main.1);
            let size = pow2(point.len());
            let (lookup, is_send) = chip.at(c);
            masked_fraction(
                lookup,
                prep_columns_at(prep, point),
                columns_at(main.0, main.1, point),
                full_geq(degree_bits(h, point.len() + 1), extended_point(point)),
                is_send,
                alpha,
                betas,
            ) == (
                mle_eval(
                    padded_column(
                        |r: int| embed(chip.fraction(main, prep, alpha, betas, r, c).0),
                        h,
                        size,
                        e_zero(),
                    ),
                    point,
                ),
                mle_eval(
                    padded_column(
                        |r: int| chip.fraction(main, prep, alpha, betas, r, c).1,
                        h,
                        size,
                        e_one(),
                    ),
                    point,
                ),
            )
        }),
{
    let h = table_height(main.0.len(), main.1);
    let (lookup, is_send) = chip.at(c);
    residues_canon(lookup);
    let w = first_weights(point, h);
    let rest = tail_weight(point, h);
    mask_is_padding_share(point, h);
    head_and_tail(point, h);
    let f = |i: int| w[i];
    let g = |x: int| eq_weight(point, x);
    esum_ext(h, f, g);
    let mains = Seq::new(h, |r: int| table_row(main.0, main.1, r));
    trace_opens(main.0, main.1, h, point, mains);
    let preps = Seq::new(h, |r: int| prep_row(prep, r));
    match prep {
        Some((values, pw)) => if pw > 0 {
            let rows = Seq::new(h, |r: int| table_row(values, pw, r));
            trace_opens(values, pw, h, point, rows);
            assert(preps =~= rows);
        },
        None => {},
    }
    let pc = prep_columns_at(prep, point);
    let mc = columns_at(main.0, main.1, point);
    assert(table_opened(w, rest, preps, mains, pc, mc));
    masked_is_weighted(lookup, w, rest, preps, mains, pc, mc, is_send, alpha, betas);
    let num = |r: int| embed(chip.fraction(main, prep, alpha, betas, r, c).0);
    let den = |r: int| chip.fraction(main, prep, alpha, betas, r, c).1;
    assert forall|r: int| 0 <= r < h implies (#[trigger] num(r)).canon() by {
        fraction_canon(lookup, prep_row(prep, r), table_row(main.0, main.1, r), is_send, alpha, betas);
    }
    assert forall|r: int| 0 <= r < h implies (#[trigger] den(r)).canon() by {
        fraction_canon(lookup, prep_row(prep, r), table_row(main.0, main.1, r), is_send, alpha, betas);
    }
    padded_column_value(num, h, point, e_zero());
    padded_column_value(den, h, point, e_one());
    let nums = Seq::new(
        w.len(),
        |r: int|
            embed(
                interaction_fraction(lookup, preps[r], mains[r], is_send, alpha, betas).0,
            ),
    );
    let dens = Seq::new(
        w.len(),
        |r: int| interaction_fraction(lookup, preps[r], mains[r], is_send, alpha, betas).1,
    );
    assert(nums =~= Seq::new(h, |r: int| num(r)));
    assert(dens =~= Seq::new(h, |r: int| den(r)));
    mul_zero(rest);
    esum_canon(w.len(), |i: int| w[i] * nums[i]);
    add_zero(dot(w, nums));
}

proof fn fraction_canon(
    l: Lookup,
    prep: Seq<int>,
    main: Seq<int>,
    is_send: bool,
    alpha: E4,
    betas: Seq<E4>,
)
    requires
        constants_canon(l),
    ensures
        embed(interaction_fraction(l, prep, main, is_send, alpha, betas).0).canon(),
        interaction_fraction(l, prep, main, is_send, alpha, betas).1.canon(),
{
    let m = l.multiplicity;
    let n = m.column_weights@.len();
    if n > 0 {
        let cw = m.column_weights@[n - 1];
        embed_keeps(m.base_value(prep, main, (n - 1) as nat), fmul(cw.0.at(prep, main), cw.1@));
        add_canon(
            embed(m.base_value(prep, main, (n - 1) as nat)),
            embed(fmul(cw.0.at(prep, main), cw.1@)),
        );
    }
    embed_keeps(0, m.base_value(prep, main, n));
    sub_canon(embed(0), embed(m.base_value(prep, main, n)));
    let k = l.covered(betas.len());
    if k == 0 {
        add_canon(alpha, betas[0] * embed(reduce(l.kind.argument_index as int)));
    } else {
        let v = l.values@[k - 1];
        add_canon(
            l.base_denominator(prep, main, alpha, betas, (k - 1) as nat),
            betas[k as int] * embed(v.base_value(prep, main, v.column_weights@.len())),
        );
    }
}

} // verus!
