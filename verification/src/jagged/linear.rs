//! The prover of a jagged opening: the column point, the reduction, the evaluation of the
//! layout and the opening, in the order of the verifier's transcript.
use vstd::prelude::*;
use vstd::arithmetic::power2::pow2;
use crate::arith::{ceil_log2, ceil_log2_is_least, ceil_log2_of, trailing_zeros, twos_in};
use crate::ext::{epoints, evals, fvals, Ext, E4};
use crate::felt::Felt;
use crate::jagged::bundle::JaggedBasefoldBundleGeneric;
use crate::jagged::layout::{concatenate_rounds, layout_of, round_vals, rounds_fit, total,
    ColumnLayout, LayoutVal, JaggedOpenRound, RoundVal};
use crate::jagged::opening::{column_vars, data_areas, extend_point, missing, open_dim, open_point,
    open_reduced_point, sample_z_col};
use crate::jagged::packing::nats;
use crate::jagged::prove::{assemble_bundle, concatenate_dense, dense_cells, describes};
use crate::merkle::Digest;
use crate::shard::gkr::reversed;
use crate::transcript::{Sponge, Transcript};
use crate::whir::jagged::{cells_flat, rounds_roots, rounds_stripes, rounds_trees, stripes_flat,
    JaggedCommit, JaggedWhirProverData};
use crate::whir::schedule::{core_schedule_fits, is_core_schedule};
use crate::whir::stacked::{stripe_counts, stripe_powers, stripe_values, stripes_val,
    StackedWhirProof, StackedWhirProver};

verus! {

/// Whether a reduction and an evaluation of a layout were made in turn from a transcript:
/// the column point is drawn, the reduction gives a point, and the layout is evaluated at
/// the point, its last coordinate first.
pub open spec fn reduced_from<
    C,
    R,
    E,
    F: Fn(&C, &Vec<Ext>, Transcript) -> (R, Vec<Ext>, Transcript),
    G: Fn(&Vec<usize>, &Vec<Ext>, &Vec<Ext>, &Vec<Ext>, Transcript) -> (E, Transcript),
>(
    s: Sponge,
    context: C,
    offsets: Seq<usize>,
    z_row: &Vec<Ext>,
    reduce: F,
    evaluate: G,
    reduction: R,
    jagged_eval: E,
    point: Seq<E4>,
    end: Sponge,
) -> bool {
    exists|
        o: &Vec<usize>,
        z_col: &Vec<Ext>,
        t0: Transcript,
        p: Vec<Ext>,
        t1: Transcript,
        be: &Vec<Ext>,
        t2: Transcript,
    |
        {
            &&& o@ == offsets
            &&& evals(z_col@) == s.drawn_exts(column_vars(offsets.len()))
            &&& t0.wf()
            &&& t0@ == s.after_draw_exts(column_vars(offsets.len()))
            &&& #[trigger] reduce.ensures((&context, z_col, t0), (reduction, p, t1))
            &&& evals(p@) == point
            &&& evals(be@) == point.reverse()
            &&& #[trigger] evaluate.ensures((o, z_row, z_col, be, t1), (jagged_eval, t2))
            &&& t2@ == end
        }
}

/// Draws the column point, reduces, and evaluates the layout. The third result is the
/// reduced point.
pub fn reduce_and_evaluate<C, R, E, F, G>(
    context: &C,
    offsets: &Vec<usize>,
    z_row: &Vec<Ext>,
    challenger: &mut Transcript,
    reduce: F,
    evaluate: G,
) -> (r: (R, E, Vec<Ext>)) where
    F: Fn(&C, &Vec<Ext>, Transcript) -> (R, Vec<Ext>, Transcript),
    G: Fn(&Vec<usize>, &Vec<Ext>, &Vec<Ext>, &Vec<Ext>, Transcript) -> (E, Transcript),

    requires
        old(challenger).wf(),
        forall|z: &Vec<Ext>, t: Transcript|
            t.wf() ==> #[trigger] reduce.requires((context, z, t)),
        forall|z: &Vec<Ext>, t: Transcript, x: R, p: Vec<Ext>, u: Transcript|
            t.wf() && #[trigger] reduce.ensures((context, z, t), (x, p, u)) ==> u.wf(),
        forall|z: &Vec<Ext>, b: &Vec<Ext>, t: Transcript|
            t.wf() ==> #[trigger] evaluate.requires((offsets, z_row, z, b, t)),
        forall|z: &Vec<Ext>, b: &Vec<Ext>, t: Transcript, x: E, u: Transcript|
            t.wf() && #[trigger] evaluate.ensures((offsets, z_row, z, b, t), (x, u)) ==> u.wf(),
    ensures
        final(challenger).wf(),
        reduced_from(
            old(challenger)@,
            *context,
            offsets@,
            z_row,
            reduce,
            evaluate,
            r.0,
            r.1,
            evals(r.2@),
            final(challenger)@,
        ),
{
    let z_col = sample_z_col(offsets, challenger);
    let mine = challenger.duplicate();
    let ghost t0 = mine;
    let (reduction, point, after) = reduce(context, &z_col, mine);
    let ghost t1 = after;
    let be = reversed(point.as_slice());
    let (jagged_eval, end) = evaluate(offsets, z_row, &z_col, &be, after);
    *challenger = end;
    proof {
        assert(reduce.ensures((context, &z_col, t0), (reduction, point, t1)));
        assert(evaluate.ensures((offsets, z_row, &z_col, &be, t1), (jagged_eval, end)));
    }
    (reduction, jagged_eval, point)
}

/// The core of every jagged opening over `area` cells: the column point, the reduction, the
/// evaluation of the layout, the reduced point extended to address every cell, and the
/// opening there.
pub fn prove_jagged_basefold_linear_core<C, R, E, P, F, G, H>(
    context: &C,
    offsets: &Vec<usize>,
    z_row: &Vec<Ext>,
    area: usize,
    challenger: &mut Transcript,
    reduce: F,
    evaluate: G,
    open: H,
) -> (r: (R, E, P)) where
    F: Fn(&C, &Vec<Ext>, Transcript) -> (R, Vec<Ext>, Transcript),
    G: Fn(&Vec<usize>, &Vec<Ext>, &Vec<Ext>, &Vec<Ext>, Transcript) -> (E, Transcript),
    H: Fn(Vec<Ext>, Transcript) -> (P, Transcript),

    requires
        old(challenger).wf(),
        area > 0,
        forall|z: &Vec<Ext>, t: Transcript|
            t.wf() ==> #[trigger] reduce.requires((context, z, t)),
        forall|z: &Vec<Ext>, t: Transcript, x: R, p: Vec<Ext>, u: Transcript|
            t.wf() && #[trigger] reduce.ensures((context, z, t), (x, p, u)) ==> u.wf(),
        forall|z: &Vec<Ext>, b: &Vec<Ext>, t: Transcript|
            t.wf() ==> #[trigger] evaluate.requires((offsets, z_row, z, b, t)),
        forall|z: &Vec<Ext>, b: &Vec<Ext>, t: Transcript, x: E, u: Transcript|
            t.wf() && #[trigger] evaluate.ensures((offsets, z_row, z, b, t), (x, u)) ==> u.wf(),
        forall|p: Vec<Ext>, t: Transcript| t.wf() ==> #[trigger] open.requires((p, t)),
        forall|p: Vec<Ext>, t: Transcript, x: P, u: Transcript|
            t.wf() && #[trigger] open.ensures((p, t), (x, u)) ==> u.wf(),
    ensures
        final(challenger).wf(),
        core_proved(
            old(challenger)@,
            *context,
            offsets@,
            z_row,
            area as nat,
            reduce,
            evaluate,
            open,
            r.0,
            r.1,
            r.2,
            final(challenger)@,
        ),
{
    let ghost s = challenger@;
    let (reduction, jagged_eval, point) = reduce_and_evaluate(
        context,
        offsets,
        z_row,
        challenger,
        reduce,
        evaluate,
    );
    let ghost middle = challenger@;
    let dim: usize = trailing_zeros(area);
    let extended = extend_point(point.as_slice(), dim, challenger);
    let mine = challenger.duplicate();
    let ghost t = mine;
    let ghost at = extended;
    let (opening, end) = open(extended, mine);
    *challenger = end;
    proof {
        assert(evals(point@).len() == point@.len());
        assert(open.ensures((at, t), (opening, end)));
        assert(opened_from(
            middle,
            evals(point@),
            twos_in(area as nat),
            open,
            opening,
            challenger@,
        ));
        assert(reduced_from(
            s,
            *context,
            offsets@,
            z_row,
            reduce,
            evaluate,
            reduction,
            jagged_eval,
            evals(point@),
            middle,
        ));
        assert(core_proved(
            s,
            *context,
            offsets@,
            z_row,
            area as nat,
            reduce,
            evaluate,
            open,
            reduction,
            jagged_eval,
            opening,
            challenger@,
        ));
    }
    (reduction, jagged_eval, opening)
}

/// Whether an opening was made at a point extended to `dim` coordinates.
pub open spec fn opened_from<P, H: Fn(Vec<Ext>, Transcript) -> (P, Transcript)>(
    s: Sponge,
    point: Seq<E4>,
    dim: nat,
    open: H,
    opening: P,
    end: Sponge,
) -> bool {
    let more = missing(point.len(), dim);
    exists|at: Vec<Ext>, t: Transcript, u: Transcript|
        {
            &&& evals(at@) == point + s.drawn_exts(more)
            &&& t.wf()
            &&& t@ == s.after_draw_exts(more)
            &&& #[trigger] open.ensures((at, t), (opening, u))
            &&& u@ == end
        }
}

/// Whether the three parts of a jagged opening were made in turn from a transcript.
pub open spec fn core_proved<
    C,
    R,
    E,
    P,
    F: Fn(&C, &Vec<Ext>, Transcript) -> (R, Vec<Ext>, Transcript),
    G: Fn(&Vec<usize>, &Vec<Ext>, &Vec<Ext>, &Vec<Ext>, Transcript) -> (E, Transcript),
    H: Fn(Vec<Ext>, Transcript) -> (P, Transcript),
>(
    s: Sponge,
    context: C,
    offsets: Seq<usize>,
    z_row: &Vec<Ext>,
    area: nat,
    reduce: F,
    evaluate: G,
    open: H,
    reduction: R,
    jagged_eval: E,
    opening: P,
    end: Sponge,
) -> bool {
    exists|point: Seq<E4>, middle: Sponge|
        {
            &&& #[trigger] reduced_from(
                s,
                context,
                offsets,
                z_row,
                reduce,
                evaluate,
                reduction,
                jagged_eval,
                point,
                middle,
            )
            &&& opened_from(middle, point, twos_in(area), open, opening, end)
        }
}

/// The columns of all commitments and their cells, padded with zeros to a power of two.
pub struct DenseLayout {
    /// The columns.
    pub layout: ColumnLayout,
    /// The cells.
    pub dense: Vec<Felt>,
}

/// Whether the commitments of several rounds are held: each round's cells are whole stripes,
/// and a prover of the production schedule keeps them.
pub open spec fn rounds_held(
    prover: StackedWhirProver,
    rounds: Seq<RoundVal>,
    datas: Seq<&JaggedWhirProverData>,
) -> bool {
    &&& datas.len() == rounds.len()
    &&& forall|i: int|
        0 <= i < datas.len() ==> {
            &&& prover.holds((#[trigger] datas[i]).stacked_data)
            &&& datas[i].area == rounds[i].area
            &&& datas[i].area == datas[i].stacked_data.stripes@.len() * pow2(
                prover.log_stacking_height as nat,
            )
        }
}

proof fn flat_stripes_len(s: Seq<Seq<int>>, n: nat, k: int)
    requires
        0 <= k <= s.len(),
        forall|i: int| 0 <= i < s.len() ==> (#[trigger] s[i]).len() == n,
    ensures
        cells_flat(s, k).len() == k * n,
    decreases k,
{
    if k > 0 {
        flat_stripes_len(s, n, k - 1);
        assert(s[k - 1].len() == n);
        assert((k - 1) * n + n == k * n) by (nonlinear_arith);
    } else {
        assert(k * n == 0) by (nonlinear_arith)
            requires
                k == 0,
        ;
    }
}

proof fn flat_rounds_len(
    prover: StackedWhirProver,
    rounds: Seq<RoundVal>,
    datas: Seq<&JaggedWhirProverData>,
    z_row: Seq<E4>,
    k: int,
)
    requires
        rounds_held(prover, rounds, datas),
        0 <= k <= rounds.len(),
    ensures
        stripes_flat(datas, k).len() == layout_of(rounds, z_row, k).base,
        layout_of(rounds, z_row, k).base == total(nats(data_areas(datas)).take(k)),
    decreases k,
{
    let areas = nats(data_areas(datas));
    if k > 0 {
        flat_rounds_len(prover, rounds, datas, z_row, k - 1);
        let d = datas[k - 1];
        assert(prover.holds(d.stacked_data));
        let t = stripes_val(d.stacked_data.stripes@);
        let n = pow2(prover.log_stacking_height as nat);
        flat_stripes_len(t, n, t.len() as int);
        assert(areas.take(k).drop_last() =~= areas.take(k - 1));
        assert(areas.take(k).last() == d.area as nat);
    } else {
        assert(areas.take(0) =~= Seq::<nat>::empty());
    }
}

fn preceding_roots(datas: &Vec<&JaggedWhirProverData>) -> (r: Vec<Digest>)
    requires
        datas@.len() > 0,
    ensures
        r@.len() == datas@.len() - 1,
        forall|i: int|
            0 <= i < r@.len() ==> #[trigger] r@[i] == datas@[i].stacked_data.commitment,
{
    let mut r: Vec<Digest> = Vec::new();
    let mut i: usize = 0;
    while i < datas.len() - 1
        invariant
            datas@.len() > 0,
            i <= datas@.len() - 1,
            r@.len() == i,
            forall|j: int| 0 <= j < i ==> #[trigger] r@[j] == datas@[j].stacked_data.commitment,
        decreases datas@.len() - i,
    {
        r.push(datas[i].stacked_data.commitment);
        i = i + 1;
    }
    r
}

/// The columns of several commitments laid end to end, with the offset where the last one
/// ends.
pub open spec fn laid_out(rounds: Seq<JaggedOpenRound>, z_row: Seq<E4>) -> LayoutVal {
    let l = layout_of(round_vals(rounds), z_row, rounds.len() as int);
    LayoutVal { offsets: l.offsets.push(l.base), ..l }
}

/// Whether a bundle describes the columns of several commitments, with their claims and the
/// roots of all but the last.
pub open spec fn bundle_describes<R, E, B>(
    b: JaggedBasefoldBundleGeneric<R, E, B>,
    rounds: Seq<JaggedOpenRound>,
    roots: Seq<Digest>,
    commit: JaggedCommit,
    z_row: Seq<E4>,
) -> bool {
    &&& describes(b.packing, laid_out(rounds, z_row), round_vals(rounds))
    &&& epoints(b.y_per_chip@) == laid_out(rounds, z_row).claims
    &&& b.commit == commit
    &&& b.preceding_commits@ == roots.drop_last()
    &&& b.single()
}

/// The roots of several commitments.
pub open spec fn kept_roots(datas: Seq<&JaggedWhirProverData>) -> Seq<Digest> {
    Seq::new(datas.len(), |i: int| datas[i].stacked_data.commitment)
}

/// What the proof of an opening by a prover of stacks may answer: a bundle, or nothing where
/// some proof of work does not exist.
pub open spec fn bundle_answer<
    R,
    E,
    B,
    F: Fn(&DenseLayout, &Vec<Ext>, Transcript) -> (R, Vec<Ext>, Transcript),
    G: Fn(&Vec<usize>, &Vec<Ext>, &Vec<Ext>, &Vec<Ext>, Transcript) -> (E, Transcript),
>(
    s: Sponge,
    prover: StackedWhirProver,
    rounds: Seq<JaggedOpenRound>,
    datas: Seq<&JaggedWhirProverData>,
    commit: JaggedCommit,
    z_row: &Vec<Ext>,
    placeholder: B,
    reduce: F,
    evaluate: G,
    r: Option<JaggedBasefoldBundleGeneric<R, E, B>>,
    end: Sponge,
) -> bool {
    let laid = laid_out(rounds, evals(z_row@));
    match r {
        None => bundle_stuck(s, prover, datas, laid, z_row, reduce, evaluate),
        Some(b) => {
            &&& bundle_describes(b, rounds, kept_roots(datas), commit, evals(z_row@))
            &&& b.basefold_proof == placeholder
            &&& bundle_opened(s, prover, datas, laid, z_row, reduce, evaluate, b, end)
        },
    }
}

/// Proves an opening over the commitments of several rounds, the last of which is the main
/// one: lays their columns end to end, runs the reduction and the evaluation of the layout
/// on the cells of all, opens the reduced point by a prover of the production schedule, and
/// assembles the bundle. `None` where some proof of work does not exist.
pub fn prove_jagged_basefold_rounds<R, E, B, F, G>(
    rounds: &Vec<JaggedOpenRound>,
    datas: &Vec<&JaggedWhirProverData>,
    prover: &StackedWhirProver,
    commit: JaggedCommit,
    z_row: &Vec<Ext>,
    challenger: &mut Transcript,
    placeholder: B,
    reduce: F,
    evaluate: G,
) -> (r: Option<JaggedBasefoldBundleGeneric<R, E, B>>) where
    F: Fn(&DenseLayout, &Vec<Ext>, Transcript) -> (R, Vec<Ext>, Transcript),
    G: Fn(&Vec<usize>, &Vec<Ext>, &Vec<Ext>, &Vec<Ext>, Transcript) -> (E, Transcript),

    requires
        old(challenger).wf(),
        rounds@.len() > 0,
        pow2(z_row@.len()) <= usize::MAX,
        rounds_fit(round_vals(rounds@), evals(z_row@)),
        pow2(
            ceil_log2_of(
                layout_of(round_vals(rounds@), evals(z_row@), rounds@.len() as int).base,
            ),
        ) <= usize::MAX,
        3 <= prover.log_stacking_height <= 25,
        is_core_schedule(prover.config, prover.log_stacking_height as nat),
        71 * rounds@.len() <= usize::MAX,
        rounds_held(*prover, round_vals(rounds@), datas@),
        prover.log_stacking_height == datas@[0].log_stacking_height,
        forall|c: &DenseLayout, z: &Vec<Ext>, t: Transcript|
            t.wf() ==> #[trigger] reduce.requires((c, z, t)),
        forall|c: &DenseLayout, z: &Vec<Ext>, t: Transcript, x: R, p: Vec<Ext>, u: Transcript|
            t.wf() && #[trigger] reduce.ensures((c, z, t), (x, p, u)) ==> u.wf(),
        forall|o: &Vec<usize>, z: &Vec<Ext>, b: &Vec<Ext>, t: Transcript|
            t.wf() ==> #[trigger] evaluate.requires((o, z_row, z, b, t)),
        forall|o: &Vec<usize>, z: &Vec<Ext>, b: &Vec<Ext>, t: Transcript, x: E, u: Transcript|
            t.wf() && #[trigger] evaluate.ensures((o, z_row, z, b, t), (x, u)) ==> u.wf(),
    ensures
        final(challenger).wf(),
        bundle_answer(
            old(challenger)@,
            *prover,
            rounds@,
            datas@,
            commit,
            z_row,
            placeholder,
            reduce,
            evaluate,
            r,
            final(challenger)@,
        ),
{
    let ghost s = challenger@;
    let ghost rv = round_vals(rounds@);
    let layout = concatenate_rounds(rounds, z_row.as_slice());
    let ghost laid = layout@;
    proof {
        flat_rounds_len(*prover, rv, datas@, evals(z_row@), rounds@.len() as int);
        core_schedule_fits(*prover, rounds@.len());
        ceil_log2_is_least(layout.total_values as nat);
        let areas = nats(data_areas(datas@));
        assert(areas.take(datas@.len() as int) =~= areas);
    }
    let log: usize = ceil_log2(layout.total_values);
    let dense = concatenate_dense(datas, log);
    let context = DenseLayout { layout, dense };
    let (reduction, jagged_eval, point) = reduce_and_evaluate(
        &context,
        &context.layout.offsets,
        z_row,
        challenger,
        reduce,
        evaluate,
    );
    let ghost middle = challenger@;
    let ghost ctx = context;
    let opening = match open_reduced_point(datas, point.as_slice(), prover, challenger) {
        None => {
            proof {
                assert(whir_stuck(*prover, middle, datas@, evals(point@)));
            }
            return None;
        },
        Some(p) => p,
    };
    let preceding = preceding_roots(datas);
    let ghost given = opening;
    let b = assemble_bundle(
        reduction,
        placeholder,
        Some(opening),
        jagged_eval,
        context.layout,
        rounds,
        commit,
        preceding,
    );
    proof {
        assert(laid == laid_out(rounds@, evals(z_row@)));
        assert(b.preceding_commits@ =~= kept_roots(datas@).drop_last());
        assert(nats(ctx.layout.offsets@) == laid.offsets);
        assert(whir_opened(*prover, middle, datas@, evals(point@), given, challenger@));
        assert(bundle_opened(s, *prover, datas@, laid, z_row, reduce, evaluate, b, challenger@));
    }
    Some(b)
}

/// Whether a stacked opening is the honest one of commitments at a reduced point.
pub open spec fn whir_opened(
    prover: StackedWhirProver,
    s: Sponge,
    datas: Seq<&JaggedWhirProverData>,
    z: Seq<E4>,
    out: StackedWhirProof,
    end: Sponge,
) -> bool {
    let lsh = prover.log_stacking_height as nat;
    let more = missing(z.len(), open_dim(nats(data_areas(datas)), lsh));
    let point = open_point(s, datas, lsh, z).take(lsh as int);
    let stripes = rounds_stripes(datas);
    let values = stripe_values(stripes, point);
    let (lambda, start) = prover.start(s.after_draw_exts(more), stripes, point);
    let pr = prover.prover(
        rounds_trees(datas),
        rounds_roots(datas),
        stripe_counts(stripes),
        stripe_powers(values, lambda),
    );
    let p = out.whir_proof@;
    &&& epoints(out.batch_evaluations@) == values
    &&& pr.honest(start, p)
    &&& end == pr.end(start, pr.all_data(p)).sponge.after_pow(
        pr.final_pow_bits,
        p.final_pow,
    ).after_draws(pr.final_queries)
}

/// Whether some proof of work of the opening of commitments at a reduced point does not
/// exist.
pub open spec fn whir_stuck(
    prover: StackedWhirProver,
    s: Sponge,
    datas: Seq<&JaggedWhirProverData>,
    z: Seq<E4>,
) -> bool {
    let lsh = prover.log_stacking_height as nat;
    let more = missing(z.len(), open_dim(nats(data_areas(datas)), lsh));
    let point = open_point(s, datas, lsh, z).take(lsh as int);
    let stripes = rounds_stripes(datas);
    let (lambda, start) = prover.start(s.after_draw_exts(more), stripes, point);
    prover.prover(
        rounds_trees(datas),
        rounds_roots(datas),
        stripe_counts(stripes),
        stripe_powers(stripe_values(stripes, point), lambda),
    ).stuck(start)
}

/// Whether some proof of work does not exist after the reduction and the evaluation of the
/// layout.
pub open spec fn bundle_stuck<
    R,
    E,
    F: Fn(&DenseLayout, &Vec<Ext>, Transcript) -> (R, Vec<Ext>, Transcript),
    G: Fn(&Vec<usize>, &Vec<Ext>, &Vec<Ext>, &Vec<Ext>, Transcript) -> (E, Transcript),
>(
    s: Sponge,
    prover: StackedWhirProver,
    datas: Seq<&JaggedWhirProverData>,
    laid: LayoutVal,
    z_row: &Vec<Ext>,
    reduce: F,
    evaluate: G,
) -> bool {
    exists|
        context: DenseLayout,
        reduction: R,
        jagged_eval: E,
        point: Seq<E4>,
        middle: Sponge,
    |
        {
            &&& context.layout@ == laid
            &&& fvals(context.dense@) == dense_cells(datas, ceil_log2_of(laid.base))
            &&& #[trigger] reduced_from(
                s,
                context,
                context.layout.offsets@,
                z_row,
                reduce,
                evaluate,
                reduction,
                jagged_eval,
                point,
                middle,
            )
            &&& whir_stuck(prover, middle, datas, point)
        }
}

/// Whether the parts of a bundle were made in turn: the reduction and the evaluation of the
/// layout on the laid columns and the cells of all commitments, then the honest opening at
/// the reduced point.
pub open spec fn bundle_opened<
    R,
    E,
    B,
    F: Fn(&DenseLayout, &Vec<Ext>, Transcript) -> (R, Vec<Ext>, Transcript),
    G: Fn(&Vec<usize>, &Vec<Ext>, &Vec<Ext>, &Vec<Ext>, Transcript) -> (E, Transcript),
>(
    s: Sponge,
    prover: StackedWhirProver,
    datas: Seq<&JaggedWhirProverData>,
    laid: LayoutVal,
    z_row: &Vec<Ext>,
    reduce: F,
    evaluate: G,
    b: JaggedBasefoldBundleGeneric<R, E, B>,
    end: Sponge,
) -> bool {
    exists|context: DenseLayout, point: Seq<E4>, middle: Sponge|
        {
            &&& context.layout@ == laid
            &&& fvals(context.dense@) == dense_cells(datas, ceil_log2_of(laid.base))
            &&& #[trigger] reduced_from(
                s,
                context,
                context.layout.offsets@,
                z_row,
                reduce,
                evaluate,
                b.reduction,
                b.jagged_eval,
                point,
                middle,
            )
            &&& b.whir_proof is Some
            &&& #[trigger] whir_opened(prover, middle, datas, point, b.whir_proof->0, end)
        }
}

} // verus!
