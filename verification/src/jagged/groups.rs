//! The verifier of a jagged opening, group by group.
use vstd::prelude::*;
use vstd::arithmetic::power2::pow2;
use crate::ext::{e_zero, epoints, evals, evals_canon, fvals, Ext, E4};
use crate::jagged::bound::{claim_place, one_other_opening_is_not_bound};
use crate::jagged::bundle::{groups_of, lists, JaggedBasefoldBundleGeneric};
use crate::jagged::claims::{columns_reduced, layout_replayed, open_point_with, opens, point_opened,
    reduce_columns, reduces, replay_layout, replays, ColumnsVal, OpeningClaim, ReductionClaim};
use crate::jagged::layout::{copy_info, info_val, info_vals, total, InfoVal};
use crate::jagged::linear::whir_opened;
use crate::jagged::opening::{areas_with, bound_to_openings, column_vars, cross_bind, data_areas,
    group_dim, lists_val, open_point, open_refused, reduced_end, reduced_opening_is_accepted, roots_with,
    stripe_adjusted, verify_reduced_opening};
use crate::jagged::packing::{nats, JaggedChipInfo, PackingMeta};
use crate::merkle::Digest;
use crate::multilinear::copy_exts;
use crate::transcript::{Sponge, Transcript};
use crate::whir::config::WhirConfig;
use crate::whir::jagged::{rounds_roots, rounds_stripes, stacked_value, JaggedCommit,
    JaggedWhirProverData};
use crate::whir::rounds::digest_felts;
use crate::whir::schedule::is_core_schedule;
use crate::whir::stacked::{stripe_values, StackedWhirProof, StackedWhirProver};

verus! {

/// The reduction of group `g`.
pub open spec fn reduction_of<R, E, B>(b: JaggedBasefoldBundleGeneric<R, E, B>, g: int) -> R {
    if g == 0 {
        b.reduction
    } else {
        b.extra_reduction@[g - 1]
    }
}

/// The evaluation of the layout of group `g`.
pub open spec fn eval_of<R, E, B>(b: JaggedBasefoldBundleGeneric<R, E, B>, g: int) -> E {
    if g == 0 {
        b.jagged_eval
    } else {
        b.extra_jagged_eval@[g - 1]
    }
}

/// The opening of group `g` under the other scheme.
pub open spec fn opening_of_group<R, E, B>(b: JaggedBasefoldBundleGeneric<R, E, B>, g: int) -> B {
    if g == 0 {
        b.basefold_proof
    } else {
        b.extra_basefold_proof@[g - 1]
    }
}

/// The commitment of group `g`.
pub open spec fn commit_of<R, E, B>(
    b: JaggedBasefoldBundleGeneric<R, E, B>,
    g: int,
) -> JaggedCommit {
    if g == 0 {
        b.commit
    } else {
        b.extra_commit@[g - 1]
    }
}

/// The layout of group `g`.
pub open spec fn packing_of<R, E, B>(
    b: JaggedBasefoldBundleGeneric<R, E, B>,
    g: int,
) -> PackingMeta {
    if g == 0 {
        b.packing
    } else {
        b.extra_packing@[g - 1]
    }
}

/// The stacked proof and its schedule that group `g` opens by, if it does: the first group
/// opens so where the bundle has such a proof.
pub open spec fn stack_of<R, E, B>(
    b: JaggedBasefoldBundleGeneric<R, E, B>,
    config: WhirConfig,
    g: int,
) -> Option<(StackedWhirProof, WhirConfig)> {
    if g == 0 && b.whir_proof is Some {
        Some((b.whir_proof->0, config))
    } else {
        None
    }
}

/// The content of a stacked proof and its schedule.
pub open spec fn stack_val(w: Option<(&StackedWhirProof, WhirConfig)>) -> Option<
    (StackedWhirProof, WhirConfig),
> {
    match w {
        Some((p, config)) => Some((*p, config)),
        None => None,
    }
}

/// The commitments that open together with group `g`: only the first group has any before
/// its own.
pub open spec fn preceding_of(preceding: Seq<(Digest, usize)>, g: int) -> Seq<(Digest, usize)> {
    if g == 0 {
        preceding
    } else {
        Seq::empty()
    }
}

/// The entries of a group, in its order.
pub open spec fn members<T>(s: Seq<T>, group: Seq<usize>) -> Seq<T> {
    Seq::new(group.len(), |i: int| s[group[i] as int])
}

/// The lists of a group, where there are any.
pub open spec fn members_opt(s: Option<Seq<Seq<E4>>>, group: Seq<usize>) -> Option<Seq<Seq<E4>>> {
    match s {
        Some(x) => Some(members(x, group)),
        None => None,
    }
}

/// Whether the opening of a group at a reduced point may end with an answer, and, where it
/// accepts, at a transcript. A group opens by its stacked proof where it has one, else under
/// the other scheme.
pub open spec fn group_opened<B, O: Fn(&OpeningClaim, &B, Transcript) -> (bool, Transcript)>(
    commit: JaggedCommit,
    opening: B,
    whir: Option<(StackedWhirProof, WhirConfig)>,
    preceding: Seq<(Digest, usize)>,
    open_other: O,
    s: Sponge,
    z: Seq<E4>,
    q: E4,
    ok: bool,
    end: Sponge,
) -> bool {
    match whir {
        Some((w, config)) => {
            let values = epoints(w.batch_evaluations@);
            let p = w.whir_proof@;
            &&& ok == !open_refused(config, s, preceding, commit, z, q, values, p)
            &&& ok ==> end == reduced_end(config, s, preceding, commit, z, values, p)
        },
        None => point_opened(commit, opening, preceding, open_other, s, z, q, ok, end),
    }
}

/// Whether the verification of one group from a transcript may end with an answer, and,
/// where it accepts, at a transcript. The column point is drawn; the reduction, the
/// agreement of claims and opened columns under the weights of the column point, and, after
/// the replay of the layout's evaluation, the opening decide in turn.
pub open spec fn group_answer<
    R,
    E,
    B,
    W: Fn(&Vec<Ext>) -> Vec<Ext>,
    F: Fn(&R, &ReductionClaim, Transcript) -> (Option<(Vec<Ext>, Ext)>, Transcript),
    L: Fn(&E, Transcript) -> Transcript,
    O: Fn(&OpeningClaim, &B, Transcript) -> (bool, Transcript),
>(
    packing: PackingMeta,
    columns: ColumnsVal,
    opened: Option<Seq<Seq<E4>>>,
    reduction: R,
    jagged_eval: E,
    commit: JaggedCommit,
    opening: B,
    whir: Option<(StackedWhirProof, WhirConfig)>,
    preceding: Seq<(Digest, usize)>,
    weights: W,
    reduce: F,
    replay: L,
    open_other: O,
    s: Sponge,
    ok: bool,
    end: Sponge,
) -> bool {
    exists|claim: ReductionClaim, outcome: Option<(Vec<Ext>, Ext)>, mid: Sponge|
        {
            &&& #[trigger] columns_reduced(
                reduction,
                packing,
                columns,
                reduce,
                s,
                claim,
                outcome,
                mid,
            )
            &&& match outcome {
                None => !ok && end == mid,
                Some((z, q)) => bound_and_opened(
                    &claim.z_col,
                    columns.claims,
                    opened,
                    jagged_eval,
                    commit,
                    opening,
                    whir,
                    preceding,
                    weights,
                    replay,
                    open_other,
                    mid,
                    evals(z@),
                    q@,
                    ok,
                    end,
                ),
            }
        }
}

/// Whether a group may end with an answer after its reduction: it is refused at once where
/// the claims and the opened columns, if they are given, differ under the weights of the
/// column point; else the evaluation of the layout is replayed and the opening decides.
pub open spec fn bound_and_opened<
    E,
    B,
    W: Fn(&Vec<Ext>) -> Vec<Ext>,
    L: Fn(&E, Transcript) -> Transcript,
    O: Fn(&OpeningClaim, &B, Transcript) -> (bool, Transcript),
>(
    z_col: &Vec<Ext>,
    claims: Seq<Seq<E4>>,
    opened: Option<Seq<Seq<E4>>>,
    jagged_eval: E,
    commit: JaggedCommit,
    opening: B,
    whir: Option<(StackedWhirProof, WhirConfig)>,
    preceding: Seq<(Digest, usize)>,
    weights: W,
    replay: L,
    open_other: O,
    s: Sponge,
    z: Seq<E4>,
    q: E4,
    ok: bool,
    end: Sponge,
) -> bool {
    let after_replay = exists|at: Sponge|
        {
            &&& #[trigger] layout_replayed(jagged_eval, replay, s, at)
            &&& group_opened(commit, opening, whir, preceding, open_other, at, z, q, ok, end)
        };
    match opened {
        None => after_replay,
        Some(o) => exists|w: Vec<Ext>|
            {
                &&& #[trigger] weights.ensures((z_col,), w)
                &&& if bound_to_openings(evals(w@), claims, o) {
                    after_replay
                } else {
                    !ok && end == s
                }
            },
    }
}

/// Whether the numbers of a group are machine numbers, and a stacked proof has the production
/// schedule.
pub open spec fn group_fits(
    commit: JaggedCommit,
    whir: Option<(StackedWhirProof, WhirConfig)>,
    preceding: Seq<(Digest, usize)>,
) -> bool {
    &&& total(nats(areas_with(preceding, commit.area))) <= usize::MAX
    &&& pow2(group_dim(preceding, commit)) <= usize::MAX
    &&& whir matches Some((p, config)) ==> {
        let lsh = commit.log_stacking_height as nat;
        &&& 3 <= lsh <= 25
        &&& is_core_schedule(config, lsh)
        &&& 71 * (preceding.len() + 1) <= usize::MAX
    }
}

/// Whether weights can be asked for at every point.
pub open spec fn weighs<W: Fn(&Vec<Ext>) -> Vec<Ext>>(weights: W) -> bool {
    forall|z: &Vec<Ext>| #[trigger] weights.requires((z,))
}

/// Verifies one group: the column point is drawn, the reduction of its columns and the
/// agreement of the claims with the opened columns, where those are given, are checked, the
/// evaluation of the layout is replayed, and the opening is checked.
#[verifier::rlimit(60)]
#[verifier::spinoff_prover]
pub fn verify_one_jagged_group<R, E, B, W, F, L, O>(
    packing: &PackingMeta,
    chip_infos: Vec<JaggedChipInfo>,
    r_row_per_chip: Vec<Vec<Ext>>,
    z_row: &[Ext],
    y_per_chip: Vec<Vec<Ext>>,
    opened_main: &Option<Vec<Vec<Ext>>>,
    reduction: &R,
    jagged_eval: &E,
    commit: &JaggedCommit,
    basefold_proof: &B,
    whir_proof: Option<(&StackedWhirProof, WhirConfig)>,
    challenger: &mut Transcript,
    preceding_rounds: &Vec<(Digest, usize)>,
    weights: W,
    reduce: F,
    replay: L,
    open_other: O,
) -> (r: bool) where
    W: Fn(&Vec<Ext>) -> Vec<Ext>,
    F: Fn(&R, &ReductionClaim, Transcript) -> (Option<(Vec<Ext>, Ext)>, Transcript),
    L: Fn(&E, Transcript) -> Transcript,
    O: Fn(&OpeningClaim, &B, Transcript) -> (bool, Transcript),

    requires
        old(challenger).wf(),
        group_fits(*commit, stack_val(whir_proof), preceding_rounds@),
        weighs(weights),
        reduces(reduce),
        replays(replay),
        opens(open_other),
    ensures
        final(challenger).wf(),
        group_answer(
            *packing,
            (ColumnsVal {
                infos: info_vals(chip_infos@),
                rows: epoints(r_row_per_chip@),
                claims: epoints(y_per_chip@),
                z_row: evals(z_row@),
            }),
            lists_val(*opened_main),
            *reduction,
            *jagged_eval,
            *commit,
            *basefold_proof,
            stack_val(whir_proof),
            preceding_rounds@,
            weights,
            reduce,
            replay,
            open_other,
            old(challenger)@,
            r,
            final(challenger)@,
        ),
{
    let ghost s = challenger@;
    let ghost columns = ColumnsVal {
        infos: info_vals(chip_infos@),
        rows: epoints(r_row_per_chip@),
        claims: epoints(y_per_chip@),
        z_row: evals(z_row@),
    };
    let ghost opened = lists_val(*opened_main);
    let (claim, outcome) = reduce_columns(
        reduction,
        packing,
        chip_infos,
        r_row_per_chip,
        y_per_chip,
        z_row,
        challenger,
        reduce,
    );
    let ghost mid = challenger@;
    let ghost gave = outcome;
    proof {
        assert(columns_reduced(
            *reduction,
            *packing,
            columns,
            reduce,
            s,
            claim,
            gave,
            mid,
        ));
    }
    let (z_star, q_at_z) = match outcome {
        None => {
            return false;
        },
        Some((z, q)) => (z, q),
    };
    match opened_main {
        None => {},
        Some(o) => {
            let w = weights(&claim.z_col);
            proof {
                assert(opened == Some(epoints(o@)));
                assert(weights.ensures((&claim.z_col,), w));
            }
            if !cross_bind(&w, &claim.y_per_chip, o) {
                proof {
                    assert(!bound_to_openings(evals(w@), columns.claims, epoints(o@)));
                    assert(bound_and_opened(
                        &claim.z_col,
                        columns.claims,
                        opened,
                        *jagged_eval,
                        *commit,
                        *basefold_proof,
                        stack_val(whir_proof),
                        preceding_rounds@,
                        weights,
                        replay,
                        open_other,
                        mid,
                        evals(z_star@),
                        q_at_z@,
                        false,
                        challenger@,
                    ));
                }
                return false;
            }
        },
    }
    replay_layout(jagged_eval, challenger, replay);
    let ghost at = challenger@;
    let ok = open_group(
        commit,
        basefold_proof,
        whir_proof,
        preceding_rounds,
        &z_star,
        q_at_z,
        challenger,
        open_other,
    );
    proof {
        assert(layout_replayed(*jagged_eval, replay, mid, at));
        assert(bound_and_opened(
            &claim.z_col,
            columns.claims,
            opened,
            *jagged_eval,
            *commit,
            *basefold_proof,
            stack_val(whir_proof),
            preceding_rounds@,
            weights,
            replay,
            open_other,
            mid,
            evals(z_star@),
            q_at_z@,
            ok,
            challenger@,
        ));
    }
    ok
}

fn open_group<B, O>(
    commit: &JaggedCommit,
    basefold_proof: &B,
    whir_proof: Option<(&StackedWhirProof, WhirConfig)>,
    preceding_rounds: &Vec<(Digest, usize)>,
    z_star: &Vec<Ext>,
    q_at_z: Ext,
    challenger: &mut Transcript,
    open_other: O,
) -> (r: bool) where O: Fn(&OpeningClaim, &B, Transcript) -> (bool, Transcript)
    requires
        old(challenger).wf(),
        group_fits(*commit, stack_val(whir_proof), preceding_rounds@),
        pow2(z_star@.len()) <= usize::MAX,
        opens(open_other),
    ensures
        final(challenger).wf(),
        group_opened(
            *commit,
            *basefold_proof,
            stack_val(whir_proof),
            preceding_rounds@,
            open_other,
            old(challenger)@,
            evals(z_star@),
            q_at_z@,
            r,
            final(challenger)@,
        ),
{
    match whir_proof {
        Some((whir, config)) => verify_reduced_opening(
            preceding_rounds,
            commit,
            z_star.as_slice(),
            q_at_z,
            whir,
            config,
            challenger,
        ),
        None => open_point_with(
            commit,
            basefold_proof,
            preceding_rounds,
            z_star,
            q_at_z,
            challenger,
            open_other,
        ),
    }
}

/// What a bundle is verified against: the groups of columns with the coordinates of their
/// rows, the point that addresses a row, the opened columns, where they are given, and the
/// commitments before the bundle's own.
pub struct BundleVal {
    pub infos: Seq<InfoVal>,
    pub rows: Seq<Seq<E4>>,
    pub z_row: Seq<E4>,
    pub opened: Option<Seq<Seq<E4>>>,
    pub preceding: Seq<(Digest, usize)>,
}

/// Whether the verification of group `g` of a bundle may end with an answer.
pub open spec fn group_step<
    R,
    E,
    B,
    W: Fn(&Vec<Ext>) -> Vec<Ext>,
    F: Fn(&R, &ReductionClaim, Transcript) -> (Option<(Vec<Ext>, Ext)>, Transcript),
    L: Fn(&E, Transcript) -> Transcript,
    O: Fn(&OpeningClaim, &B, Transcript) -> (bool, Transcript),
>(
    b: JaggedBasefoldBundleGeneric<R, E, B>,
    config: WhirConfig,
    g: int,
    group: Seq<usize>,
    v: BundleVal,
    weights: W,
    reduce: F,
    replay: L,
    open_other: O,
    s: Sponge,
    ok: bool,
    end: Sponge,
) -> bool {
    group_answer(
        packing_of(b, g),
        (ColumnsVal {
            infos: members(v.infos, group),
            rows: members(v.rows, group),
            claims: members(epoints(b.y_per_chip@), group),
            z_row: v.z_row,
        }),
        members_opt(v.opened, group),
        reduction_of(b, g),
        eval_of(b, g),
        commit_of(b, g),
        opening_of_group(b, g),
        stack_of(b, config, g),
        preceding_of(v.preceding, g),
        weights,
        reduce,
        replay,
        open_other,
        s,
        ok,
        end,
    )
}

/// Whether groups may be accepted in turn, at the given transcripts.
pub open spec fn groups_accepted<
    R,
    E,
    B,
    W: Fn(&Vec<Ext>) -> Vec<Ext>,
    F: Fn(&R, &ReductionClaim, Transcript) -> (Option<(Vec<Ext>, Ext)>, Transcript),
    L: Fn(&E, Transcript) -> Transcript,
    O: Fn(&OpeningClaim, &B, Transcript) -> (bool, Transcript),
>(
    b: JaggedBasefoldBundleGeneric<R, E, B>,
    config: WhirConfig,
    groups: Seq<Seq<usize>>,
    v: BundleVal,
    weights: W,
    reduce: F,
    replay: L,
    open_other: O,
    ends: Seq<Sponge>,
) -> bool {
    &&& 0 < ends.len() <= groups.len() + 1
    &&& forall|g: int|
        0 <= g < ends.len() - 1 ==> group_step(
            b,
            config,
            g,
            groups[g],
            v,
            weights,
            reduce,
            replay,
            open_other,
            #[trigger] ends[g],
            true,
            ends[g + 1],
        )
}

/// The transcript after the roots of the first `k` groups.
pub open spec fn roots_observed<R, E, B>(
    b: JaggedBasefoldBundleGeneric<R, E, B>,
    s: Sponge,
    k: int,
) -> Sponge
    decreases k,
{
    if k <= 0 {
        s
    } else {
        roots_observed(b, s, k - 1).observe_all(fvals(commit_of(b, k - 1).original_commitment@))
    }
}

/// Whether the groups of a bundle are the expected ones.
pub open spec fn covered<R, E, B>(
    b: JaggedBasefoldBundleGeneric<R, E, B>,
    groups: Seq<Seq<usize>>,
    chip_count: nat,
) -> bool {
    groups_of(b.groups@, chip_count) == groups && 1 + b.extra_reduction@.len() == groups.len()
}

/// Whether a bundle has its parts for every group and every chip, each within machine
/// limits.
pub open spec fn parts_fit<R, E, B>(
    b: JaggedBasefoldBundleGeneric<R, E, B>,
    chip_count: nat,
    preceding: Seq<(Digest, usize)>,
    config: WhirConfig,
) -> bool {
    &&& b.extra_commit@.len() == b.extra_reduction@.len()
    &&& b.extra_packing@.len() == b.extra_reduction@.len()
    &&& b.extra_jagged_eval@.len() == b.extra_reduction@.len()
    &&& b.extra_basefold_proof@.len() == b.extra_reduction@.len()
    &&& b.y_per_chip@.len() >= chip_count
    &&& forall|g: int|
        0 <= g <= b.extra_reduction@.len() ==> group_fits(
            #[trigger] commit_of(b, g),
            stack_of(b, config, g),
            preceding_of(preceding, g),
        )
}

/// Whether a partition can be asked for, and names only groups of columns that there are.
pub open spec fn partitions<P: Fn(&Vec<JaggedChipInfo>) -> Vec<Vec<usize>>>(partition: P) -> bool {
    &&& forall|i: &Vec<JaggedChipInfo>| #[trigger] partition.requires((i,))
    &&& forall|i: &Vec<JaggedChipInfo>, r: Vec<Vec<usize>>| #[trigger]
        partition.ensures((i,), r) ==> in_range(lists(r@), i@.len())
}

/// Whether all numbers are below a bound.
pub open spec fn in_range(groups: Seq<Seq<usize>>, n: nat) -> bool {
    forall|g: int, i: int|
        0 <= g < groups.len() && 0 <= i < groups[g].len() ==> (#[trigger] groups[g][i]) < n
}

/// Whether group `ends.len() - 1` may be refused after the ones before it were accepted.
pub open spec fn stops_at<
    R,
    E,
    B,
    W: Fn(&Vec<Ext>) -> Vec<Ext>,
    F: Fn(&R, &ReductionClaim, Transcript) -> (Option<(Vec<Ext>, Ext)>, Transcript),
    L: Fn(&E, Transcript) -> Transcript,
    O: Fn(&OpeningClaim, &B, Transcript) -> (bool, Transcript),
>(
    b: JaggedBasefoldBundleGeneric<R, E, B>,
    config: WhirConfig,
    groups: Seq<Seq<usize>>,
    v: BundleVal,
    weights: W,
    reduce: F,
    replay: L,
    open_other: O,
    ends: Seq<Sponge>,
    end: Sponge,
) -> bool {
    let g = ends.len() - 1;
    &&& groups_accepted(b, config, groups, v, weights, reduce, replay, open_other, ends)
    &&& g < groups.len()
    &&& group_step(
        b,
        config,
        g,
        groups[g],
        v,
        weights,
        reduce,
        replay,
        open_other,
        ends.last(),
        false,
        end,
    )
}

/// Whether a bundle may be answered so, given the expected groups. It passes where its
/// groups are the expected ones and pass in turn. It fails where they are not, or where one
/// of them fails after the ones before it passed.
pub open spec fn groups_answer<
    R,
    E,
    B,
    W: Fn(&Vec<Ext>) -> Vec<Ext>,
    F: Fn(&R, &ReductionClaim, Transcript) -> (Option<(Vec<Ext>, Ext)>, Transcript),
    L: Fn(&E, Transcript) -> Transcript,
    O: Fn(&OpeningClaim, &B, Transcript) -> (bool, Transcript),
>(
    b: JaggedBasefoldBundleGeneric<R, E, B>,
    config: WhirConfig,
    groups: Seq<Seq<usize>>,
    v: BundleVal,
    weights: W,
    reduce: F,
    replay: L,
    open_other: O,
    start: Sponge,
    ok: bool,
    end: Sponge,
) -> bool {
    if !covered(b, groups, v.infos.len()) {
        !ok
    } else {
        exists|ends: Seq<Sponge>|
            {
                &&& ends.len() > 0
                &&& #[trigger] ends[0] == start
                &&& if ok {
                    &&& ends.len() == groups.len() + 1
                    &&& ends.last() == end
                    &&& groups_accepted(
                        b,
                        config,
                        groups,
                        v,
                        weights,
                        reduce,
                        replay,
                        open_other,
                        ends,
                    )
                } else {
                    stops_at(b, config, groups, v, weights, reduce, replay, open_other, ends, end)
                }
            }
    }
}

/// Whether a bundle may be answered so: the expected groups are the partition of the groups
/// of columns.
pub open spec fn inner_answer<
    R,
    E,
    B,
    P: Fn(&Vec<JaggedChipInfo>) -> Vec<Vec<usize>>,
    W: Fn(&Vec<Ext>) -> Vec<Ext>,
    F: Fn(&R, &ReductionClaim, Transcript) -> (Option<(Vec<Ext>, Ext)>, Transcript),
    L: Fn(&E, Transcript) -> Transcript,
    O: Fn(&OpeningClaim, &B, Transcript) -> (bool, Transcript),
>(
    b: JaggedBasefoldBundleGeneric<R, E, B>,
    config: WhirConfig,
    v: BundleVal,
    partition: P,
    weights: W,
    reduce: F,
    replay: L,
    open_other: O,
    s: Sponge,
    absorb: bool,
    ok: bool,
    end: Sponge,
) -> bool {
    exists|infos: &Vec<JaggedChipInfo>, groups: Vec<Vec<usize>>|
        {
            &&& info_vals(infos@) == v.infos
            &&& #[trigger] partition.ensures((infos,), groups)
            &&& !covered(b, lists(groups@), v.infos.len()) ==> end == s
            &&& groups_answer(
                b,
                config,
                lists(groups@),
                v,
                weights,
                reduce,
                replay,
                open_other,
                if absorb {
                    roots_observed(b, s, groups@.len() as int)
                } else {
                    s
                },
                ok,
                end,
            )
        }
}

fn pick_members(s: &Vec<Vec<Ext>>, group: &Vec<usize>) -> (r: Vec<Vec<Ext>>)
    requires
        forall|i: int| 0 <= i < group@.len() ==> (#[trigger] group@[i]) < s@.len(),
    ensures
        epoints(r@) == members(epoints(s@), group@),
{
    let mut r: Vec<Vec<Ext>> = Vec::new();
    let mut i: usize = 0;
    while i < group.len()
        invariant
            i <= group@.len(),
            forall|i: int| 0 <= i < group@.len() ==> (#[trigger] group@[i]) < s@.len(),
            r@.len() == i,
            forall|j: int| 0 <= j < i ==> (#[trigger] r@[j])@ == s@[group@[j] as int]@,
        decreases group@.len() - i,
    {
        r.push(copy_exts(s[group[i]].as_slice()));
        i = i + 1;
    }
    proof {
        assert(epoints(r@) =~= members(epoints(s@), group@));
    }
    r
}

fn pick_infos(s: &Vec<JaggedChipInfo>, group: &Vec<usize>) -> (r: Vec<JaggedChipInfo>)
    requires
        forall|i: int| 0 <= i < group@.len() ==> (#[trigger] group@[i]) < s@.len(),
    ensures
        info_vals(r@) == members(info_vals(s@), group@),
{
    let mut r: Vec<JaggedChipInfo> = Vec::new();
    let mut i: usize = 0;
    while i < group.len()
        invariant
            i <= group@.len(),
            forall|i: int| 0 <= i < group@.len() ==> (#[trigger] group@[i]) < s@.len(),
            r@.len() == i,
            forall|j: int|
                0 <= j < i ==> info_val(#[trigger] r@[j]) == info_val(s@[group@[j] as int]),
        decreases group@.len() - i,
    {
        r.push(copy_info(&s[group[i]]));
        i = i + 1;
    }
    proof {
        assert(info_vals(r@) =~= members(info_vals(s@), group@));
    }
    r
}

fn pick_opt(s: &Option<Vec<Vec<Ext>>>, group: &Vec<usize>) -> (r: Option<Vec<Vec<Ext>>>)
    requires
        s matches Some(x) ==> forall|i: int|
            0 <= i < group@.len() ==> (#[trigger] group@[i]) < x@.len(),
    ensures
        lists_val(r) == members_opt(lists_val(*s), group@),
{
    match s {
        None => None,
        Some(x) => Some(pick_members(x, group)),
    }
}

/// Verifies a bundle: its groups are the partition of the groups of columns, the roots of
/// all groups are absorbed unless they were before, and the groups are accepted in turn.
#[verifier::rlimit(60)]
#[verifier::spinoff_prover]
pub fn verify_jagged_basefold_inner<R, E, B, P, W, F, L, O>(
    chip_infos: &Vec<JaggedChipInfo>,
    r_row_per_chip: &Vec<Vec<Ext>>,
    z_row: &[Ext],
    preceding_rounds: &Vec<(Digest, usize)>,
    bundle: &JaggedBasefoldBundleGeneric<R, E, B>,
    opened_main: &Option<Vec<Vec<Ext>>>,
    config: WhirConfig,
    challenger: &mut Transcript,
    skip_commit_observe: bool,
    partition: P,
    weights: W,
    reduce: F,
    replay: L,
    open_other: O,
) -> (r: bool) where
    P: Fn(&Vec<JaggedChipInfo>) -> Vec<Vec<usize>>,
    W: Copy + Fn(&Vec<Ext>) -> Vec<Ext>,
    F: Copy + Fn(&R, &ReductionClaim, Transcript) -> (Option<(Vec<Ext>, Ext)>, Transcript),
    L: Copy + Fn(&E, Transcript) -> Transcript,
    O: Copy + Fn(&OpeningClaim, &B, Transcript) -> (bool, Transcript),

    requires
        old(challenger).wf(),
        bundle.extra_reduction@.len() < usize::MAX,
        r_row_per_chip@.len() == chip_infos@.len(),
        opened_main matches Some(o) ==> o@.len() >= chip_infos@.len(),
        forall|groups: Vec<Vec<usize>>| #[trigger]
            partition.ensures((chip_infos,), groups) && covered(
                *bundle,
                lists(groups@),
                chip_infos@.len(),
            ) ==> parts_fit(*bundle, chip_infos@.len(), preceding_rounds@, config),
        partitions(partition),
        weighs(weights),
        reduces(reduce),
        replays(replay),
        opens(open_other),
    ensures
        final(challenger).wf(),
        inner_answer(
            *bundle,
            config,
            (BundleVal {
                infos: info_vals(chip_infos@),
                rows: epoints(r_row_per_chip@),
                z_row: evals(z_row@),
                opened: lists_val(*opened_main),
                preceding: preceding_rounds@,
            }),
            partition,
            weights,
            reduce,
            replay,
            open_other,
            old(challenger)@,
            !skip_commit_observe,
            r,
            final(challenger)@,
        ),
{
    let expected_groups = partition(chip_infos);
    let ghost groups = lists(expected_groups@);
    let ghost s0 = challenger@;
    let ghost schedule = config;
    let ghost v = BundleVal {
        infos: info_vals(chip_infos@),
        rows: epoints(r_row_per_chip@),
        z_row: evals(z_row@),
        opened: lists_val(*opened_main),
        preceding: preceding_rounds@,
    };
    proof {
        assert(groups.len() == expected_groups@.len());
        assert(partition.ensures((chip_infos,), expected_groups));
        assert(in_range(groups, chip_infos@.len()));
        assert(v.infos.len() == chip_infos@.len());
    }
    if !bundle.covers(&expected_groups, chip_infos.len()) {
        return false;
    }
    proof {
        assert(covered(*bundle, groups, chip_infos@.len()));
        assert(parts_fit(*bundle, chip_infos@.len(), preceding_rounds@, schedule));
    }
    let n: usize = expected_groups.len();
    if !skip_commit_observe {
        let mut i: usize = 0;
        while i < n
            invariant
                i <= n,
                n == expected_groups@.len(),
                n == bundle.extra_commit@.len() + 1,
                challenger.wf(),
                challenger@ == roots_observed(*bundle, s0, i as int),
            decreases n - i,
        {
            let root = digest_felts(&bundle.commit_g(i).original_commitment);
            challenger.observe_slice(&root);
            i = i + 1;
        }
    }
    let ghost start = challenger@;
    let ghost mut ends: Seq<Sponge> = seq![start];
    let none: Vec<(Digest, usize)> = Vec::new();
    let mut next: Option<WhirConfig> = Some(config);
    let mut g: usize = 0;
    while g < n
        invariant
            g <= n,
            n == expected_groups@.len(),
            n == bundle.extra_reduction@.len() + 1,
            none@.len() == 0,
            groups == lists(expected_groups@),
            groups.len() == n,
            in_range(groups, chip_infos@.len()),
            r_row_per_chip@.len() == chip_infos@.len(),
            opened_main matches Some(o) ==> o@.len() >= chip_infos@.len(),
            v == (BundleVal {
                infos: info_vals(chip_infos@),
                rows: epoints(r_row_per_chip@),
                z_row: evals(z_row@),
                opened: lists_val(*opened_main),
                preceding: preceding_rounds@,
            }),
            g == 0 ==> next == Some(schedule),
            challenger.wf(),
            ends.len() == g + 1,
            ends[0] == start,
            ends.last() == challenger@,
            covered(*bundle, groups, v.infos.len()),
            partition.ensures((chip_infos,), expected_groups),
            parts_fit(*bundle, chip_infos@.len(), preceding_rounds@, schedule),
            groups_accepted(
                *bundle,
                schedule,
                groups,
                v,
                weights,
                reduce,
                replay,
                open_other,
                ends,
            ),
            start == (if !skip_commit_observe {
                roots_observed(*bundle, s0, n as int)
            } else {
                s0
            }),
            s0 == old(challenger)@,
            schedule == config,
            weighs(weights),
            reduces(reduce),
            replays(replay),
            opens(open_other),
        decreases n - g,
    {
        let group = &expected_groups[g];
        proof {
            assert(groups[g as int] == group@);
            assert forall|i: int| 0 <= i < group@.len() implies (#[trigger] group@[i])
                < chip_infos@.len() by {
                assert(groups[g as int][i] < chip_infos@.len());
            }
            assert(group_fits(
                commit_of(*bundle, g as int),
                stack_of(*bundle, schedule, g as int),
                preceding_of(preceding_rounds@, g as int),
            ));
            assert(none@ =~= Seq::<(Digest, usize)>::empty());
        }
        let rounds = if g == 0 {
            preceding_rounds
        } else {
            &none
        };
        let whir: Option<(&StackedWhirProof, WhirConfig)> = if g == 0 {
            match (&bundle.whir_proof, next) {
                (Some(p), Some(c)) => Some((p, c)),
                _ => None,
            }
        } else {
            None
        };
        next = None;
        let mine = pick_opt(opened_main, group);
        let ok = verify_one_jagged_group(
            bundle.packing_g(g),
            pick_infos(chip_infos, group),
            pick_members(r_row_per_chip, group),
            z_row,
            pick_members(&bundle.y_per_chip, group),
            &mine,
            bundle.reduction_g(g),
            bundle.jagged_eval_g(g),
            bundle.commit_g(g),
            bundle.basefold_proof_g(g),
            whir,
            challenger,
            rounds,
            weights,
            reduce,
            replay,
            open_other,
        );
        proof {
            assert(rounds@ == preceding_of(preceding_rounds@, g as int));
            assert(group_step(
                *bundle,
                schedule,
                g as int,
                groups[g as int],
                v,
                weights,
                reduce,
                replay,
                open_other,
                ends.last(),
                ok,
                challenger@,
            ));
        }
        if !ok {
            proof {
                assert(stops_at(
                    *bundle,
                    schedule,
                    groups,
                    v,
                    weights,
                    reduce,
                    replay,
                    open_other,
                    ends,
                    challenger@,
                ));
                assert(ends[0] == start);
                assert(groups_answer(
                    *bundle,
                    schedule,
                    groups,
                    v,
                    weights,
                    reduce,
                    replay,
                    open_other,
                    start,
                    false,
                    challenger@,
                ));
            }
            return false;
        }
        proof {
            let more = ends.push(challenger@);
            assert forall|k: int| 0 <= k < more.len() - 1 implies group_step(
                *bundle,
                schedule,
                k,
                groups[k],
                v,
                weights,
                reduce,
                replay,
                open_other,
                #[trigger] more[k],
                true,
                more[k + 1],
            ) by {
                if k < g {
                    assert(more[k] == ends[k]);
                    assert(more[k + 1] == ends[k + 1]);
                } else {
                    assert(more[k] == ends.last());
                }
            }
            ends = more;
        }
        g = g + 1;
    }
    proof {
        assert(ends[0] == start);
        assert(groups_answer(
            *bundle,
            schedule,
            groups,
            v,
            weights,
            reduce,
            replay,
            open_other,
            start,
            true,
            challenger@,
        ));
    }
    true
}

/// Verifies a bundle whose roots the transcript has absorbed.
pub fn verify_jagged_basefold_no_observe<R, E, B, P, W, F, L, O>(
    chip_infos: &Vec<JaggedChipInfo>,
    r_row_per_chip: &Vec<Vec<Ext>>,
    z_row: &[Ext],
    preceding_rounds: &Vec<(Digest, usize)>,
    bundle: &JaggedBasefoldBundleGeneric<R, E, B>,
    opened_main: &Option<Vec<Vec<Ext>>>,
    config: WhirConfig,
    challenger: &mut Transcript,
    partition: P,
    weights: W,
    reduce: F,
    replay: L,
    open_other: O,
) -> (r: bool) where
    P: Fn(&Vec<JaggedChipInfo>) -> Vec<Vec<usize>>,
    W: Copy + Fn(&Vec<Ext>) -> Vec<Ext>,
    F: Copy + Fn(&R, &ReductionClaim, Transcript) -> (Option<(Vec<Ext>, Ext)>, Transcript),
    L: Copy + Fn(&E, Transcript) -> Transcript,
    O: Copy + Fn(&OpeningClaim, &B, Transcript) -> (bool, Transcript),

    requires
        old(challenger).wf(),
        bundle.extra_reduction@.len() < usize::MAX,
        r_row_per_chip@.len() == chip_infos@.len(),
        opened_main matches Some(o) ==> o@.len() >= chip_infos@.len(),
        forall|groups: Vec<Vec<usize>>| #[trigger]
            partition.ensures((chip_infos,), groups) && covered(
                *bundle,
                lists(groups@),
                chip_infos@.len(),
            ) ==> parts_fit(*bundle, chip_infos@.len(), preceding_rounds@, config),
        partitions(partition),
        weighs(weights),
        reduces(reduce),
        replays(replay),
        opens(open_other),
    ensures
        final(challenger).wf(),
        inner_answer(
            *bundle,
            config,
            (BundleVal {
                infos: info_vals(chip_infos@),
                rows: epoints(r_row_per_chip@),
                z_row: evals(z_row@),
                opened: lists_val(*opened_main),
                preceding: preceding_rounds@,
            }),
            partition,
            weights,
            reduce,
            replay,
            open_other,
            old(challenger)@,
            false,
            r,
            final(challenger)@,
        ),
{
    verify_jagged_basefold_inner(
        chip_infos,
        r_row_per_chip,
        z_row,
        preceding_rounds,
        bundle,
        opened_main,
        config,
        challenger,
        true,
        partition,
        weights,
        reduce,
        replay,
        open_other,
    )
}

/// Claims that differ from the opened columns are refused: where every value of the weights
/// at the drawn column point gives the opened columns of a group another weighted sum than
/// its claims, or finds too few of them, the group is not accepted.
pub proof fn other_openings_are_refused<
    R,
    E,
    B,
    W: Fn(&Vec<Ext>) -> Vec<Ext>,
    F: Fn(&R, &ReductionClaim, Transcript) -> (Option<(Vec<Ext>, Ext)>, Transcript),
    L: Fn(&E, Transcript) -> Transcript,
    O: Fn(&OpeningClaim, &B, Transcript) -> (bool, Transcript),
>(
    packing: PackingMeta,
    columns: ColumnsVal,
    opened: Seq<Seq<E4>>,
    reduction: R,
    jagged_eval: E,
    commit: JaggedCommit,
    opening: B,
    whir: Option<(StackedWhirProof, WhirConfig)>,
    preceding: Seq<(Digest, usize)>,
    weights: W,
    reduce: F,
    replay: L,
    open_other: O,
    s: Sponge,
    ok: bool,
    end: Sponge,
)
    requires
        group_answer(
            packing,
            columns,
            Some(opened),
            reduction,
            jagged_eval,
            commit,
            opening,
            whir,
            preceding,
            weights,
            reduce,
            replay,
            open_other,
            s,
            ok,
            end,
        ),
        forall|z: &Vec<Ext>, w: Vec<Ext>|
            evals(z@) == s.drawn_exts(column_vars(packing.offsets@.len()))
                && #[trigger] weights.ensures((z,), w) ==> !bound_to_openings(
                evals(w@),
                columns.claims,
                opened,
            ),
    ensures
        !ok,
{
}

/// A claim that differs from its opened column is refused: where the opened columns of a
/// group differ from its claims in one column, and the weight of that column at the drawn
/// column point is not zero, the group is not accepted.
pub proof fn one_other_opening_is_refused<
    R,
    E,
    B,
    W: Fn(&Vec<Ext>) -> Vec<Ext>,
    F: Fn(&R, &ReductionClaim, Transcript) -> (Option<(Vec<Ext>, Ext)>, Transcript),
    L: Fn(&E, Transcript) -> Transcript,
    O: Fn(&OpeningClaim, &B, Transcript) -> (bool, Transcript),
>(
    packing: PackingMeta,
    columns: ColumnsVal,
    opened: Seq<Seq<E4>>,
    reduction: R,
    jagged_eval: E,
    commit: JaggedCommit,
    opening: B,
    whir: Option<(StackedWhirProof, WhirConfig)>,
    preceding: Seq<(Digest, usize)>,
    weights: W,
    reduce: F,
    replay: L,
    open_other: O,
    s: Sponge,
    ok: bool,
    end: Sponge,
    i: int,
    j: int,
)
    requires
        group_answer(
            packing,
            columns,
            Some(opened),
            reduction,
            jagged_eval,
            commit,
            opening,
            whir,
            preceding,
            weights,
            reduce,
            replay,
            open_other,
            s,
            ok,
            end,
        ),
        0 <= i < columns.claims.len(),
        0 <= j < columns.claims[i].len(),
        columns.claims[i][j].canon(),
        opened[i][j].canon(),
        forall|a: int, b: int|
            0 <= a < columns.claims.len() && 0 <= b < columns.claims[a].len() && (a != i || b != j)
                ==> #[trigger] opened[a][b] == columns.claims[a][b],
        opened[i][j] != columns.claims[i][j],
        forall|z: &Vec<Ext>, w: Vec<Ext>|
            evals(z@) == s.drawn_exts(column_vars(packing.offsets@.len()))
                && #[trigger] weights.ensures((z,), w) ==> evals(w@)[claim_place(
                columns.claims,
                i,
                j,
            )] != e_zero(),
    ensures
        !ok,
{
    assert forall|z: &Vec<Ext>, w: Vec<Ext>|
        evals(z@) == s.drawn_exts(column_vars(packing.offsets@.len()))
            && #[trigger] weights.ensures((z,), w) implies !bound_to_openings(
        evals(w@),
        columns.claims,
        opened,
    ) by {
        evals_canon(w@);
        one_other_opening_is_not_bound(evals(w@), columns.claims, opened, i, j);
    }
    other_openings_are_refused(
        packing,
        columns,
        opened,
        reduction,
        jagged_eval,
        commit,
        opening,
        whir,
        preceding,
        weights,
        reduce,
        replay,
        open_other,
        s,
        ok,
        end,
    );
}

/// What is proved opens: for a bundle whose stacked proof is the honest opening of the
/// prover's commitments at the reduced point, the verifier of the same schedule accepts its
/// group, where both sides reach the opening on one transcript and the reduction ends with
/// the value of the committed cells there.
pub proof fn proved_bundle_opens<
    R,
    E,
    B,
    O: Fn(&OpeningClaim, &B, Transcript) -> (bool, Transcript),
>(
    prover: StackedWhirProver,
    s: Sponge,
    datas: Seq<&JaggedWhirProverData>,
    b: JaggedBasefoldBundleGeneric<R, E, B>,
    preceding: Seq<(Digest, usize)>,
    z: Seq<E4>,
    q: E4,
    end: Sponge,
    open_other: O,
)
    requires
        datas.len() > 0,
        prover.config.starting_ood_samples == 0,
        prover.fits(datas.len()),
        forall|i: int|
            0 <= i < datas.len() ==> {
                &&& prover.holds((#[trigger] datas[i]).stacked_data)
                &&& datas[i].area as nat == datas[i].stacked_data.stripes@.len() * pow2(
                    prover.log_stacking_height as nat,
                )
            },
        b.commit.log_stacking_height == prover.log_stacking_height,
        roots_with(preceding, b.commit.original_commitment) == rounds_roots(datas),
        areas_with(preceding, b.commit.area) == data_areas(datas),
        b.whir_proof is Some,
        whir_opened(prover, s, datas, z, b.whir_proof->0, end),
        ({
            let lsh = prover.log_stacking_height as nat;
            let point = open_point(s, datas, lsh, z);
            stripe_adjusted(q, point, z.len(), lsh) == stacked_value(
                stripe_values(rounds_stripes(datas), point.take(lsh as int)),
                point.skip(lsh as int),
            )
        }),
    ensures
        ({
            let values = epoints(b.whir_proof->0.batch_evaluations@);
            let p = b.whir_proof->0.whir_proof@;
            group_opened(
                b.commit,
                b.basefold_proof,
                stack_of(b, prover.config, 0),
                preceding,
                open_other,
                s,
                z,
                q,
                true,
                reduced_end(prover.config, s, preceding, b.commit, z, values, p),
            )
        }),
{
    reduced_opening_is_accepted(
        prover,
        s,
        datas,
        preceding,
        b.commit,
        z,
        q,
        b.whir_proof->0.whir_proof@,
    );
}

} // verus!
