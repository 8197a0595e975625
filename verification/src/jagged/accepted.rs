//! What an accepted bundle has passed, group by group.
use vstd::prelude::*;
use crate::ext::{epoints, evals, fvals, Ext, E4};
use crate::jagged::bundle::{groups_of, lists, JaggedBasefoldBundleGeneric};
use crate::jagged::claims::{OpeningClaim, ReductionClaim, ColumnsVal};
use crate::jagged::groups::{group_answer, group_opened, inner_answer, BundleVal};
use crate::jagged::layout::info_vals;
use crate::jagged::opening::{bound_to_openings, column_vars, group_dim, open_refused, stripe_adjusted};
use crate::jagged::packing::{JaggedChipInfo, PackingMeta};
use crate::merkle::Digest;
use crate::transcript::{Sponge, Transcript};
use crate::whir::config::WhirConfig;
use crate::whir::jagged::{jagged_refusal, JaggedCommit};
use crate::whir::rounds::has_all_entries;
use crate::whir::stacked::{StackedWhirProof, StackedWhirVerifier};

verus! {

/// What an accepted group has passed, in turn: a column point is drawn; the reduction of the
/// group's columns at it is accepted and gives a point and a value; the claims agree with the
/// opened columns, where those are given, under the weights of the column point; the
/// evaluation of the layout is replayed; and the opening at the point and value is accepted.
pub proof fn accepted_group_has_passed<
    R,
    E,
    B,
    W: Fn(&Vec<Ext>) -> Vec<Ext>,
    F: Fn(&R, &ReductionClaim, Transcript) -> (Option<(Vec<Ext>, Ext)>, Transcript),
    L: Fn(&E, Transcript) -> Transcript,
    O: Fn(&OpeningClaim, &B, Transcript) -> (bool, Transcript),
>(
    packing: PackingMeta,
    columns: ColumnsVal,
    opened: Option<Seq<Seq<E4>>>,
    reduction: R,
    jagged_eval: E,
    commit: JaggedCommit,
    opening: B,
    whir: Option<(StackedWhirProof, WhirConfig)>,
    preceding: Seq<(Digest, usize)>,
    weights: W,
    reduce: F,
    replay: L,
    open_other: O,
    s: Sponge,
    end: Sponge,
) -> (r: (ReductionClaim, (Vec<Ext>, Ext), Transcript, Transcript, Transcript, Transcript))
    requires
        group_answer(
            packing,
            columns,
            opened,
            reduction,
            jagged_eval,
            commit,
            opening,
            whir,
            preceding,
            weights,
            reduce,
            replay,
            open_other,
            s,
            true,
            end,
        ),
    ensures
        ({
            let (claim, (z, q), t0, t1, t2, t3) = r;
            let vars = column_vars(packing.offsets@.len());
            &&& info_vals(claim.chip_infos@) == columns.infos
            &&& claim.offsets@ == packing.offsets@
            &&& claim.total_values == packing.total_values
            &&& epoints(claim.r_row_per_chip@) == columns.rows
            &&& epoints(claim.y_per_chip@) == columns.claims
            &&& evals(claim.z_col@) == s.drawn_exts(vars)
            &&& evals(claim.z_row@) == columns.z_row
            &&& t0@ == s.after_draw_exts(vars)
            &&& reduce.ensures((&reduction, &claim, t0), (Some((z, q)), t1))
            &&& opened matches Some(o) ==> exists|w: Vec<Ext>| #[trigger]
                weights.ensures((&claim.z_col,), w) && bound_to_openings(
                    evals(w@),
                    columns.claims,
                    o,
                )
            &&& t2@ == t1@
            &&& replay.ensures((&jagged_eval, t2), t3)
            &&& group_opened(
                commit,
                opening,
                whir,
                preceding,
                open_other,
                t3@,
                evals(z@),
                q@,
                true,
                end,
            )
        }),
{
    let (claim, outcome, mid) = choose|
        claim: ReductionClaim,
        outcome: Option<(Vec<Ext>, Ext)>,
        mid: Sponge,
    |
        {
            &&& #[trigger] crate::jagged::claims::columns_reduced(
                reduction,
                packing,
                columns,
                reduce,
                s,
                claim,
                outcome,
                mid,
            )
            &&& match outcome {
                None => false,
                Some((z, q)) => crate::jagged::groups::bound_and_opened(
                    &claim.z_col,
                    columns.claims,
                    opened,
                    jagged_eval,
                    commit,
                    opening,
                    whir,
                    preceding,
                    weights,
                    replay,
                    open_other,
                    mid,
                    evals(z@),
                    q@,
                    true,
                    end,
                ),
            }
        };
    let (z, q) = outcome->0;
    let vars = column_vars(packing.offsets@.len());
    let (t0, t1) = choose|before: Transcript, after: Transcript|
        {
            &&& before.wf()
            &&& before@ == s.after_draw_exts(vars)
            &&& #[trigger] reduce.ensures((&reduction, &claim, before), (outcome, after))
            &&& after@ == mid
        };
    let at = choose|at: Sponge|
        {
            &&& #[trigger] crate::jagged::claims::layout_replayed(jagged_eval, replay, mid, at)
            &&& group_opened(
                commit,
                opening,
                whir,
                preceding,
                open_other,
                at,
                evals(z@),
                q@,
                true,
                end,
            )
        };
    let (t2, t3) = choose|before: Transcript, after: Transcript|
        {
            &&& before.wf()
            &&& before@ == mid
            &&& #[trigger] replay.ensures((&jagged_eval, before), after)
            &&& after@ == at
        };
    (claim, (z, q), t0, t1, t2, t3)
}

/// What an accepted stacked opening of a group says: its proof has every entry, and the opening
/// of all commitments, those before and the group's own, is accepted at the reduced point,
/// extended by drawn coordinates to address every stripe, with the value shrunk by one minus
/// each coordinate past the reduced ones that addresses a cell of a stripe.
pub proof fn accepted_stack_has_passed(
    config: WhirConfig,
    s: Sponge,
    preceding: Seq<(Digest, usize)>,
    commit: JaggedCommit,
    z: Seq<E4>,
    q: E4,
    w: StackedWhirProof,
)
    ensures
        open_refused(
            config,
            s,
            preceding,
            commit,
            z,
            q,
            epoints(w.batch_evaluations@),
            w.whir_proof@,
        ) == !({
            let lsh = commit.log_stacking_height as nat;
            let dim = group_dim(preceding, commit);
            let more = if z.len() < dim {
                (dim - z.len()) as nat
            } else {
                0
            };
            let point = z + s.drawn_exts(more);
            let n = preceding.len();
            let roots = Seq::new(
                n + 1,
                |i: int|
                    if i < n {
                        fvals(preceding[i].0@)
                    } else {
                        fvals(commit.original_commitment@)
                    },
            );
            let areas = Seq::new(
                n + 1,
                |i: int|
                    if i < n {
                        preceding[i].1
                    } else {
                        commit.area
                    },
            );
            &&& has_all_entries(config.round_parameters@, w.whir_proof@)
            &&& jagged_refusal(
                (StackedWhirVerifier { config, log_stacking_height: commit.log_stacking_height }),
                s.after_draw_exts(more),
                roots,
                areas,
                point,
                epoints(w.batch_evaluations@),
                w.whir_proof@,
                stripe_adjusted(q, point, z.len(), lsh),
            ) is None
        }),
{
    let n = preceding.len();
    assert(crate::jagged::opening::roots_with(preceding, commit.original_commitment) =~= Seq::new(
        n + 1,
        |i: int|
            if i < n {
                fvals(preceding[i].0@)
            } else {
                fvals(commit.original_commitment@)
            },
    ));
    assert(crate::jagged::opening::areas_with(preceding, commit.area) =~= Seq::new(
        n + 1,
        |i: int|
            if i < n {
                preceding[i].1
            } else {
                commit.area
            },
    ));
}

/// The transcript after the first `k` of several roots.
pub open spec fn after_roots(s: Sponge, roots: Seq<Digest>, k: int) -> Sponge
    decreases k,
{
    if k <= 0 {
        s
    } else {
        after_roots(s, roots, k - 1).observe_all(fvals(roots[k - 1]@))
    }
}

/// What an accepted bundle has passed: its groups are those of the partition of its columns,
/// and each of them is accepted, in turn and on one transcript, on its own parts: its members'
/// columns, row points, claims and opened columns, its own layout, reduction, evaluation,
/// commitment and opening; the first group opens together with the commitments before, by the
/// stacked proof where there is one.
pub proof fn accepted_bundle_accepts_every_group<
    R,
    E,
    B,
    P: Fn(&Vec<JaggedChipInfo>) -> Vec<Vec<usize>>,
    W: Fn(&Vec<Ext>) -> Vec<Ext>,
    F: Fn(&R, &ReductionClaim, Transcript) -> (Option<(Vec<Ext>, Ext)>, Transcript),
    L: Fn(&E, Transcript) -> Transcript,
    O: Fn(&OpeningClaim, &B, Transcript) -> (bool, Transcript),
>(
    b: JaggedBasefoldBundleGeneric<R, E, B>,
    config: WhirConfig,
    v: BundleVal,
    partition: P,
    weights: W,
    reduce: F,
    replay: L,
    open_other: O,
    s: Sponge,
    absorb: bool,
    end: Sponge,
) -> (r: (Vec<JaggedChipInfo>, Vec<Vec<usize>>, Seq<Sponge>))
    requires
        inner_answer(
            b,
            config,
            v,
            partition,
            weights,
            reduce,
            replay,
            open_other,
            s,
            absorb,
            true,
            end,
        ),
    ensures
        ({
            let (infos, groups, ends) = r;
            let n = groups@.len();
            let roots = Seq::new(
                n,
                |g: int|
                    if g == 0 {
                        b.commit.original_commitment
                    } else {
                        b.extra_commit@[g - 1].original_commitment
                    },
            );
            &&& info_vals(infos@) == v.infos
            &&& partition.ensures((&infos,), groups)
            &&& groups_of(b.groups@, v.infos.len()) == lists(groups@)
            &&& 1 + b.extra_reduction@.len() == n
            &&& ends.len() == n + 1
            &&& ends[0] == (if absorb {
                after_roots(s, roots, n as int)
            } else {
                s
            })
            &&& ends[n as int] == end
            &&& forall|g: int|
                0 <= g < n ==> {
                    let m = groups@[g]@;
                    group_answer(
                        if g == 0 {
                            b.packing
                        } else {
                            b.extra_packing@[g - 1]
                        },
                        (ColumnsVal {
                            infos: Seq::new(m.len(), |i: int| v.infos[m[i] as int]),
                            rows: Seq::new(m.len(), |i: int| v.rows[m[i] as int]),
                            claims: Seq::new(
                                m.len(),
                                |i: int| epoints(b.y_per_chip@)[m[i] as int],
                            ),
                            z_row: v.z_row,
                        }),
                        match v.opened {
                            Some(o) => Some(Seq::new(m.len(), |i: int| o[m[i] as int])),
                            None => None,
                        },
                        if g == 0 {
                            b.reduction
                        } else {
                            b.extra_reduction@[g - 1]
                        },
                        if g == 0 {
                            b.jagged_eval
                        } else {
                            b.extra_jagged_eval@[g - 1]
                        },
                        if g == 0 {
                            b.commit
                        } else {
                            b.extra_commit@[g - 1]
                        },
                        if g == 0 {
                            b.basefold_proof
                        } else {
                            b.extra_basefold_proof@[g - 1]
                        },
                        if g == 0 && b.whir_proof is Some {
                            Some((b.whir_proof->0, config))
                        } else {
                            None
                        },
                        if g == 0 {
                            v.preceding
                        } else {
                            Seq::empty()
                        },
                        weights,
                        reduce,
                        replay,
                        open_other,
                        #[trigger] ends[g],
                        true,
                        ends[g + 1],
                    )
                }
        }),
{
    let (infos, groups) = choose|infos: &Vec<JaggedChipInfo>, groups: Vec<Vec<usize>>|
        {
            &&& info_vals(infos@) == v.infos
            &&& #[trigger] partition.ensures((infos,), groups)
            &&& crate::jagged::groups::groups_answer(
                b,
                config,
                lists(groups@),
                v,
                weights,
                reduce,
                replay,
                open_other,
                if absorb {
                    crate::jagged::groups::roots_observed(b, s, groups@.len() as int)
                } else {
                    s
                },
                true,
                end,
            )
        };
    let n = groups@.len();
    let start = if absorb {
        crate::jagged::groups::roots_observed(b, s, n as int)
    } else {
        s
    };
    let gs = lists(groups@);
    assert(gs.len() == n);
    let ends = choose|ends: Seq<Sponge>|
        {
            &&& ends.len() > 0
            &&& #[trigger] ends[0] == start
            &&& ends.len() == gs.len() + 1
            &&& ends.last() == end
            &&& crate::jagged::groups::groups_accepted(
                b,
                config,
                gs,
                v,
                weights,
                reduce,
                replay,
                open_other,
                ends,
            )
        };
    let roots = Seq::new(
        n,
        |g: int|
            if g == 0 {
                b.commit.original_commitment
            } else {
                b.extra_commit@[g - 1].original_commitment
            },
    );
    roots_agree(b, s, roots, n as int);
    assert forall|g: int| 0 <= g < n implies crate::jagged::groups::group_step(
        b,
        config,
        g,
        gs[g],
        v,
        weights,
        reduce,
        replay,
        open_other,
        #[trigger] ends[g],
        true,
        ends[g + 1],
    ) by {}
    assert forall|g: int| 0 <= g < n implies #[trigger] gs[g] == groups@[g]@ by {}
    (*infos, groups, ends)
}

proof fn roots_agree<R, E, B>(
    b: JaggedBasefoldBundleGeneric<R, E, B>,
    s: Sponge,
    roots: Seq<Digest>,
    k: int,
)
    requires
        k <= roots.len(),
        forall|g: int|
            0 <= g < roots.len() ==> #[trigger] roots[g] == (if g == 0 {
                b.commit.original_commitment
            } else {
                b.extra_commit@[g - 1].original_commitment
            }),
    ensures
        crate::jagged::groups::roots_observed(b, s, k) == after_roots(s, roots, k),
    decreases k,
{
    if k > 0 {
        roots_agree(b, s, roots, k - 1);
        assert(roots[k - 1] == crate::jagged::groups::commit_of(b, k - 1).original_commitment);
    }
}

/// What an accepted bundle under another commitment scheme has passed, in turn: a column point
/// is drawn; the reduction of the columns at it is accepted and gives a point and a value; the
/// evaluation of the layout is replayed; and the scheme accepts the opening of all
/// commitments, those before and the bundle's own, at the point extended by drawn coordinates.
pub proof fn accepted_outer_has_passed<
    R,
    E,
    B,
    F: Fn(&R, &ReductionClaim, Transcript) -> (Option<(Vec<Ext>, Ext)>, Transcript),
    L: Fn(&E, Transcript) -> Transcript,
    O: Fn(&OpeningClaim, &B, Transcript) -> (bool, Transcript),
>(
    b: JaggedBasefoldBundleGeneric<R, E, B>,
    columns: ColumnsVal,
    preceding: Seq<(Digest, usize)>,
    reduce: F,
    replay: L,
    open: O,
    s: Sponge,
    end: Sponge,
) -> (r: (
    ReductionClaim,
    (Vec<Ext>, Ext),
    OpeningClaim,
    Transcript,
    Transcript,
    Transcript,
    Transcript,
    Transcript,
    Transcript,
))
    requires
        crate::jagged::outer::outer_answer(
            b,
            columns,
            preceding,
            reduce,
            replay,
            open,
            s,
            true,
            end,
        ),
    ensures
        ({
            let (claim, (z, q), opened, t0, t1, t2, t3, t4, t5) = r;
            let vars = column_vars(b.packing.offsets@.len());
            let lsh = b.commit.log_stacking_height;
            let dim = group_dim(preceding, b.commit);
            let more = if z@.len() < dim {
                (dim - z@.len()) as nat
            } else {
                0
            };
            let point = evals(z@) + t3@.drawn_exts(more);
            let k = preceding.len() as int;
            &&& info_vals(claim.chip_infos@) == columns.infos
            &&& claim.offsets@ == b.packing.offsets@
            &&& claim.total_values == b.packing.total_values
            &&& epoints(claim.r_row_per_chip@) == columns.rows
            &&& epoints(claim.y_per_chip@) == columns.claims
            &&& evals(claim.z_col@) == s.drawn_exts(vars)
            &&& evals(claim.z_row@) == columns.z_row
            &&& t0@ == s.after_draw_exts(vars)
            &&& reduce.ensures((&b.reduction, &claim, t0), (Some((z, q)), t1))
            &&& t2@ == t1@
            &&& replay.ensures((&b.jagged_eval, t2), t3)
            &&& t4@ == t3@.after_draw_exts(more)
            &&& open.ensures((&opened, &b.basefold_proof, t4), (true, t5))
            &&& t5@ == end
            &&& opened.log_stacking_height == lsh
            &&& evals(opened.point@) == point
            &&& opened.value@ == stripe_adjusted(q@, point, z@.len(), lsh as nat)
            &&& opened.commitments@.len() == k + 1
            &&& opened.areas@.len() == k + 1
            &&& opened.commitments@[k] == b.commit.original_commitment
            &&& opened.areas@[k] == b.commit.area
            &&& forall|i: int|
                0 <= i < k ==> (#[trigger] opened.commitments@[i]) == preceding[i].0
                    && opened.areas@[i] == preceding[i].1
        }),
{
    let (claim, outcome, mid) = choose|
        claim: ReductionClaim,
        outcome: Option<(Vec<Ext>, Ext)>,
        mid: Sponge,
    |
        {
            &&& #[trigger] crate::jagged::claims::columns_reduced(
                b.reduction,
                b.packing,
                columns,
                reduce,
                s,
                claim,
                outcome,
                mid,
            )
            &&& match outcome {
                None => false,
                Some((z, q)) => exists|at: Sponge|
                    {
                        &&& #[trigger] crate::jagged::claims::layout_replayed(
                            b.jagged_eval,
                            replay,
                            mid,
                            at,
                        )
                        &&& crate::jagged::claims::point_opened(
                            b.commit,
                            b.basefold_proof,
                            preceding,
                            open,
                            at,
                            evals(z@),
                            q@,
                            true,
                            end,
                        )
                    },
            }
        };
    let (z, q) = outcome->0;
    let vars = column_vars(b.packing.offsets@.len());
    let (t0, t1) = choose|before: Transcript, after: Transcript|
        {
            &&& before.wf()
            &&& before@ == s.after_draw_exts(vars)
            &&& #[trigger] reduce.ensures((&b.reduction, &claim, before), (outcome, after))
            &&& after@ == mid
        };
    let at = choose|at: Sponge|
        {
            &&& #[trigger] crate::jagged::claims::layout_replayed(
                b.jagged_eval,
                replay,
                mid,
                at,
            )
            &&& crate::jagged::claims::point_opened(
                b.commit,
                b.basefold_proof,
                preceding,
                open,
                at,
                evals(z@),
                q@,
                true,
                end,
            )
        };
    let (t2, t3) = choose|before: Transcript, after: Transcript|
        {
            &&& before.wf()
            &&& before@ == mid
            &&& #[trigger] replay.ensures((&b.jagged_eval, before), after)
            &&& after@ == at
        };
    let lsh = b.commit.log_stacking_height;
    let more = crate::jagged::opening::missing(z@.len(), group_dim(preceding, b.commit));
    let point = evals(z@) + at.drawn_exts(more);
    let (opened, t4, t5) = choose|opened: &OpeningClaim, before: Transcript, after: Transcript|
        {
            &&& opened.commitments@ == crate::jagged::claims::all_commitments(
                preceding,
                b.commit.original_commitment,
            )
            &&& opened.areas@ == crate::jagged::opening::areas_with(preceding, b.commit.area)
            &&& opened.log_stacking_height == lsh
            &&& evals(opened.point@) == point
            &&& opened.value@ == stripe_adjusted(q@, point, evals(z@).len(), lsh as nat)
            &&& before.wf()
            &&& before@ == at.after_draw_exts(more)
            &&& #[trigger] open.ensures((opened, &b.basefold_proof, before), (true, after))
            &&& after@ == end
        };
    (claim, (z, q), *opened, t0, t1, t2, t3, t4, t5)
}

} // verus!
