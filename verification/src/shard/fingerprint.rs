//! What a lookup's fraction is made of.
use vstd::prelude::*;
use crate::ext::{add_assoc, add_zero, embed, embed_keeps, evals, fvals, lift, E4};
use crate::felt::{fadd, felt_canonical, reduce};
use crate::mle::esum;
use crate::shard::lookup::{interaction_fraction, parity_rows, prep_pair, prep_row, real_height,
    table_height, trace_pair, ChipLookups, LogUpGkrCpuLayer, Lookup, PairCol, Trace, VirtualPairCol};

verus! {

/// The entry of a row that a column names.
pub open spec fn entry<T>(col: PairCol, prep: Seq<T>, main: Seq<T>) -> T {
    match col {
        PairCol::Preprocessed(i) => prep[i as int],
        PairCol::Main(i) => main[i as int],
    }
}

/// A combination of columns is its constant plus the sum of the columns, each times its
/// weight.
pub proof fn combination_is_a_weighted_sum(v: VirtualPairCol, prep: Seq<E4>, main: Seq<E4>, k: nat)
    requires
        k <= v.column_weights@.len(),
    ensures
        v.ext_value(prep, main, k) == embed(v.constant@) + esum(
            k,
            |i: int| entry(v.column_weights@[i].0, prep, main) * embed(v.column_weights@[i].1@),
        ),
    decreases k,
{
    let f = |i: int| entry(v.column_weights@[i].0, prep, main) * embed(v.column_weights@[i].1@);
    broadcast use felt_canonical;

    if k > 0 {
        combination_is_a_weighted_sum(v, prep, main, (k - 1) as nat);
        add_assoc(embed(v.constant@), esum((k - 1) as nat, f), f(k - 1));
    } else {
        assert(embed(v.constant@).canon());
        add_zero(embed(v.constant@));
    }
}

/// A combination has the same value on a row of base elements as on the row of their
/// embeddings.
pub proof fn combination_of_base_row(v: VirtualPairCol, prep: Seq<int>, main: Seq<int>, k: nat)
    requires
        k <= v.column_weights@.len(),
        v.fits(prep.len(), main.len()),
    ensures
        embed(v.base_value(prep, main, k)) == v.ext_value(lift(prep), lift(main), k),
    decreases k,
{
    if k > 0 {
        combination_of_base_row(v, prep, main, (k - 1) as nat);
        let cw = v.column_weights@[k - 1];
        assert(cw.0.fits(prep.len(), main.len()));
        assert(embed(cw.0.at(prep, main)) == cw.0.at(lift(prep), lift(main)));
        embed_keeps(cw.0.at(prep, main), cw.1@);
        embed_keeps(
            v.base_value(prep, main, (k - 1) as nat),
            crate::felt::fmul(cw.0.at(prep, main), cw.1@),
        );
    }
}

/// What a lookup is told apart by: its kind, then its values.
pub open spec fn looked_up(l: Lookup, prep: Seq<E4>, main: Seq<E4>, i: int) -> E4 {
    if i == 0 {
        embed(reduce(l.kind.argument_index as int))
    } else {
        let v = l.values@[i - 1];
        embed(v.constant@) + esum(
            v.column_weights@.len(),
            |j: int| entry(v.column_weights@[j].0, prep, main) * embed(v.column_weights@[j].1@),
        )
    }
}

/// The fraction of a lookup: its multiplicity over the shift plus the sum of its kind and its
/// values, each times its weight, as far as there are weights.
pub proof fn fraction_weighs_kind_and_values(
    l: Lookup,
    prep: Seq<E4>,
    main: Seq<E4>,
    alpha: E4,
    betas: Seq<E4>,
)
    requires
        betas.len() > 0,
        alpha.canon(),
    ensures
        ({
            let m = l.multiplicity;
            let n = if l.values@.len() + 1 <= betas.len() {
                l.values@.len() + 1
            } else {
                betas.len()
            };
            &&& l.ext_fraction(prep, main, alpha, betas).0 == embed(m.constant@) + esum(
                m.column_weights@.len(),
                |j: int|
                    entry(m.column_weights@[j].0, prep, main) * embed(m.column_weights@[j].1@),
            )
            &&& l.ext_fraction(prep, main, alpha, betas).1 == alpha + esum(
                n,
                |i: int| betas[i] * looked_up(l, prep, main, i),
            )
        }),
{
    combination_is_a_weighted_sum(
        l.multiplicity,
        prep,
        main,
        l.multiplicity.column_weights@.len(),
    );
    denominator_weighs(l, prep, main, alpha, betas, l.covered(betas.len()));
}

proof fn denominator_weighs(
    l: Lookup,
    prep: Seq<E4>,
    main: Seq<E4>,
    alpha: E4,
    betas: Seq<E4>,
    k: nat,
)
    requires
        k <= l.values@.len(),
        alpha.canon(),
    ensures
        l.ext_denominator(prep, main, alpha, betas, k) == alpha + esum(
            k + 1,
            |i: int| betas[i] * looked_up(l, prep, main, i),
        ),
    decreases k,
{
    let f = |i: int| betas[i] * looked_up(l, prep, main, i);
    if k > 0 {
        denominator_weighs(l, prep, main, alpha, betas, (k - 1) as nat);
        let v = l.values@[k - 1];
        combination_is_a_weighted_sum(v, prep, main, v.column_weights@.len());
        assert(f(k as int) == betas[k as int] * v.ext_value(
            prep,
            main,
            v.column_weights@.len(),
        ));
        assert(((k - 1) as nat + 1) as nat == k);
        add_assoc(alpha, esum(k, f), f(k as int));
    } else {
        assert(esum(1, f) == esum(0, f) + f(0));
        crate::ext::mul_canon(betas[0], looked_up(l, prep, main, 0));
        add_zero(f(0));
    }
}

/// The prover's fraction on a row of base elements is the verifier's on the row of their
/// embeddings, up to the sign; and what is received is the negative of what is sent.
pub proof fn fraction_of_base_row(
    l: Lookup,
    prep: Seq<int>,
    main: Seq<int>,
    alpha: E4,
    betas: Seq<E4>,
)
    requires
        l.fits(prep.len(), main.len()),
        betas.len() > 0,
    ensures
        ({
            let sent = interaction_fraction(l, prep, main, true, alpha, betas);
            let received = interaction_fraction(l, prep, main, false, alpha, betas);
            let seen = l.ext_fraction(lift(prep), lift(main), alpha, betas);
            &&& (embed(sent.0), sent.1) == seen
            &&& fadd(sent.0, received.0) == 0
            &&& received.1 == sent.1
        }),
{
    let m = l.multiplicity;
    combination_of_base_row(m, prep, main, m.column_weights@.len());
    base_denominator_is_ext(l, prep, main, alpha, betas, l.covered(betas.len()));
    let x = m.base_value(prep, main, m.column_weights@.len());
    let p = crate::felt::order();
    vstd::arithmetic::div_mod::lemma_add_mod_noop_right(x, 0 - x, p);
    vstd::arithmetic::div_mod::lemma_small_mod(0, p as nat);
    assert(x + (0 - x) == 0);
}

proof fn base_denominator_is_ext(
    l: Lookup,
    prep: Seq<int>,
    main: Seq<int>,
    alpha: E4,
    betas: Seq<E4>,
    k: nat,
)
    requires
        k <= l.values@.len(),
        l.fits(prep.len(), main.len()),
    ensures
        l.base_denominator(prep, main, alpha, betas, k) == l.ext_denominator(
            lift(prep),
            lift(main),
            alpha,
            betas,
            k,
        ),
    decreases k,
{
    if k > 0 {
        base_denominator_is_ext(l, prep, main, alpha, betas, (k - 1) as nat);
        let v = l.values@[k - 1];
        assert(v.fits(prep.len(), main.len()));
        combination_of_base_row(v, prep, main, v.column_weights@.len());
    }
}

/// The first layer holds every fraction: that of an interaction on a real row stands, row by
/// row, in the half of the row's parity.
pub proof fn first_layer_holds_every_fraction(
    layer: LogUpGkrCpuLayer,
    i: int,
    chip: ChipLookups,
    main: Trace,
    prep: Option<Trace>,
    alpha: E4,
    betas: Seq<E4>,
    vars: nat,
    r: nat,
    c: nat,
)
    requires
        layer.holds(i, chip, main, prep, alpha, betas, vars),
        c < chip.sends@.len() + chip.receives@.len(),
        main.width > 0,
        r < main.values@.len() / (main.width as nat),
    ensures
        ({
            let n = chip.sends@.len() + chip.receives@.len();
            let at = (r / 2) * n + c;
            let (lookup, is_send) = if c < chip.sends@.len() {
                (chip.sends@[c as int], true)
            } else {
                (chip.receives@[c - chip.sends@.len()], false)
            };
            let (num, den) = if r % 2 == 0 {
                (fvals(layer.numerator_0@[i].cells@), evals(layer.denominator_0@[i].cells@))
            } else {
                (fvals(layer.numerator_1@[i].cells@), evals(layer.denominator_1@[i].cells@))
            };
            let w = main.width as int;
            let row = fvals(main.values@).subrange(r * w, (r + 1) * w);
            let pre = match prep {
                Some(t) => fvals(t.values@).subrange(
                    r * (t.width as int),
                    (r + 1) * (t.width as int),
                ),
                None => Seq::empty(),
            };
            &&& at < num.len()
            &&& at < den.len()
            &&& (num[at as int], den[at as int]) == interaction_fraction(
                lookup,
                pre,
                row,
                is_send,
                alpha,
                betas,
            )
        }),
{
    let n = chip.count();
    let h = real_height(chip, main);
    let k = (r / 2) as int;
    let at = k * n + c;
    let parity = r % 2;
    assert(h == table_height(main.values@.len(), main.width as nat));
    vstd::arithmetic::div_mod::lemma_fundamental_div_mod_converse(
        at,
        n as int,
        k,
        c as int,
    );
    let half = ((h + 1 - parity) / 2) as nat;
    assert(k < half);
    assert(at < half * n) by (nonlinear_arith)
        requires
            at == k * n + c,
            c < n,
            k + 1 <= half,
    ;
    assert(at >= 0) by (nonlinear_arith)
        requires
            at == k * n + c,
            k >= 0,
    ;
    let t = (r * n + c) as int;
    assert((2 * k + parity) == r);
    vstd::arithmetic::div_mod::lemma_fundamental_div_mod_converse(t, n as int, r as int, c as int);
    assert(t < h * n) by (nonlinear_arith)
        requires
            t == r * n + c,
            c < n,
            r + 1 <= h,
    ;
    assert(t >= 0) by (nonlinear_arith)
        requires
            t == r * n + c,
    ;
    let pre = match prep {
        Some(t) => fvals(t.values@).subrange(r * (t.width as int), (r + 1) * (t.width as int)),
        None => Seq::empty(),
    };
    if prep is Some && prep->0.width == 0 {
        assert(r * 0int == 0 && (r + 1) * 0int == 0);
    }
    assert(prep_row(prep_pair(prep), r as int) =~= pre);
    let num = chip.numerators(trace_pair(main), prep_pair(prep), alpha, betas);
    let den = chip.denominators(trace_pair(main), prep_pair(prep), alpha, betas);
    assert(num.len() == h * n && den.len() == h * n);
    assert((num[t], den[t]) == chip.fraction(
        trace_pair(main),
        prep_pair(prep),
        alpha,
        betas,
        r as int,
        c as int,
    ));
    let a = parity_rows(num, n, h, parity);
    let b = parity_rows(den, n, h, parity);
    assert(a.len() == half * n && b.len() == half * n);
    assert(a[at] == num[t]);
    assert(b[at] == den[t]);
}

/// A table of interactions holds, in row `i` and column `c`, the fraction of interaction `c`
/// on row `i` of the traces.
pub proof fn table_holds_every_fraction(
    interactions: Seq<crate::shard::lookup::Interaction>,
    main: Seq<int>,
    main_width: nat,
    prep: Option<(Seq<int>, nat)>,
    alpha: E4,
    betas: Seq<E4>,
    i: int,
    c: int,
)
    requires
        0 <= i,
        0 <= c < interactions.len(),
        main_width > 0,
        (i + 1) * main_width <= main.len(),
        prep matches Some((values, w)) ==> (i + 1) * w <= values.len(),
    ensures
        crate::shard::lookup::table_fraction(
            interactions,
            main,
            main_width,
            prep,
            alpha,
            betas,
            i,
            c,
        ) == interaction_fraction(
            *interactions[c].lookup,
            match prep {
                Some((values, w)) => Seq::new(w, |j: int| values[i * w + j]),
                None => Seq::empty(),
            },
            Seq::new(main_width, |j: int| main[i * main_width + j]),
            interactions[c].is_send,
            alpha,
            betas,
        ),
{
    let row = crate::shard::lookup::table_row(main, main_width, i);
    assert(i * main_width + main_width == (i + 1) * main_width && i * main_width >= 0)
        by (nonlinear_arith)
        requires
            i >= 0,
            main_width > 0,
    ;
    assert(row =~= Seq::new(main_width, |j: int| main[i * main_width + j]));
    let pre = prep_row(prep, i);
    match prep {
        Some((values, w)) => {
            assert(i * w + w == (i + 1) * w && i * w >= 0) by (nonlinear_arith)
                requires
                    i >= 0,
                    w >= 0,
            ;
            assert(pre =~= Seq::new(w, |j: int| values[i * w + j]));
        },
        None => {},
    }
}

/// The interactions of chips are their sends and their receives, all counted.
pub proof fn sends_and_receives_are_counted(chips: Seq<ChipLookups>, k: int)
    requires
        0 <= k <= chips.len(),
    ensures
        crate::shard::lookup::total_interactions(chips, k) == crate::jagged::layout::total(
            Seq::new(k as nat, |i: int| chips[i].sends@.len()),
        ) + crate::jagged::layout::total(Seq::new(k as nat, |i: int| chips[i].receives@.len())),
    decreases k,
{
    let a = Seq::new(k as nat, |i: int| chips[i].sends@.len());
    let b = Seq::new(k as nat, |i: int| chips[i].receives@.len());
    if k > 0 {
        sends_and_receives_are_counted(chips, k - 1);
        assert(a.drop_last() =~= Seq::new((k - 1) as nat, |i: int| chips[i].sends@.len()));
        assert(b.drop_last() =~= Seq::new((k - 1) as nat, |i: int| chips[i].receives@.len()));
    }
}

} // verus!
