//! The verifier of a bundle of one group, under any commitment scheme.
use vstd::prelude::*;
use vstd::arithmetic::power2::pow2;
use crate::ext::{epoints, evals, fvals, Ext};
use crate::jagged::bundle::JaggedBasefoldBundleGeneric;
use crate::jagged::claims::{columns_reduced, layout_replayed, open_point_with, opens, point_opened,
    reduce_columns, reduces, replay_layout, replays, ColumnsVal, OpeningClaim, ReductionClaim};
use crate::jagged::layout::{copy_lists, info_vals, total};
use crate::jagged::opening::{areas_with, group_dim};
use crate::jagged::packing::{nats, JaggedChipInfo};
use crate::merkle::Digest;
use crate::transcript::{Sponge, Transcript};
use crate::whir::rounds::digest_felts;

verus! {

/// Whether a bundle may get an answer at a transcript: the reduction of the given columns
/// and the opening decide in turn, and the evaluation of the layout is replayed between them.
pub open spec fn outer_answer<
    R,
    E,
    B,
    F: Fn(&R, &ReductionClaim, Transcript) -> (Option<(Vec<Ext>, Ext)>, Transcript),
    L: Fn(&E, Transcript) -> Transcript,
    O: Fn(&OpeningClaim, &B, Transcript) -> (bool, Transcript),
>(
    b: JaggedBasefoldBundleGeneric<R, E, B>,
    columns: ColumnsVal,
    preceding: Seq<(Digest, usize)>,
    reduce: F,
    replay: L,
    open: O,
    s: Sponge,
    ok: bool,
    end: Sponge,
) -> bool {
    exists|claim: ReductionClaim, outcome: Option<(Vec<Ext>, Ext)>, mid: Sponge|
        {
            &&& #[trigger] columns_reduced(
                b.reduction,
                b.packing,
                columns,
                reduce,
                s,
                claim,
                outcome,
                mid,
            )
            &&& match outcome {
                None => !ok && end == mid,
                Some((z, q)) => exists|at: Sponge|
                    {
                        &&& #[trigger] layout_replayed(b.jagged_eval, replay, mid, at)
                        &&& point_opened(
                            b.commit,
                            b.basefold_proof,
                            preceding,
                            open,
                            at,
                            evals(z@),
                            q@,
                            ok,
                            end,
                        )
                    },
            }
        }
}

/// Verifies a bundle of one group: its root is absorbed unless it was before, the column
/// point is drawn, the reduction is checked, the evaluation of the layout is replayed, and the
/// opening is checked at the extended point against the commitments before and the bundle's
/// own. `reduce` gives the reduced point and the value there, or nothing where it refuses;
/// `replay` runs the transcript through the evaluation of the layout.
pub fn verify_jagged_basefold_inner_generic<R, E, B, F, L, O>(
    chip_infos: Vec<JaggedChipInfo>,
    r_row_per_chip: Vec<Vec<Ext>>,
    z_row: &[Ext],
    bundle: &JaggedBasefoldBundleGeneric<R, E, B>,
    challenger: &mut Transcript,
    skip_commit_observe: bool,
    preceding_rounds: &Vec<(Digest, usize)>,
    reduce: F,
    replay: L,
    open: O,
) -> (r: bool) where
    F: Fn(&R, &ReductionClaim, Transcript) -> (Option<(Vec<Ext>, Ext)>, Transcript),
    L: Fn(&E, Transcript) -> Transcript,
    O: Fn(&OpeningClaim, &B, Transcript) -> (bool, Transcript),

    requires
        old(challenger).wf(),
        bundle.extra_reduction@.len() == 0,
        total(nats(areas_with(preceding_rounds@, bundle.commit.area))) <= usize::MAX,
        pow2(group_dim(preceding_rounds@, bundle.commit)) <= usize::MAX,
        reduces(reduce),
        replays(replay),
        opens(open),
    ensures
        final(challenger).wf(),
        outer_answer(
            *bundle,
            (ColumnsVal {
                infos: info_vals(chip_infos@),
                rows: epoints(r_row_per_chip@),
                claims: epoints(bundle.y_per_chip@),
                z_row: evals(z_row@),
            }),
            preceding_rounds@,
            reduce,
            replay,
            open,
            if skip_commit_observe {
                old(challenger)@
            } else {
                old(challenger)@.observe_all(fvals(bundle.commit.original_commitment@))
            },
            r,
            final(challenger)@,
        ),
{
    if !skip_commit_observe {
        let root = digest_felts(&bundle.commit.original_commitment);
        challenger.observe_slice(&root);
    }
    let (_claim, outcome) = reduce_columns(
        &bundle.reduction,
        &bundle.packing,
        chip_infos,
        r_row_per_chip,
        copy_lists(&bundle.y_per_chip),
        z_row,
        challenger,
        reduce,
    );
    let ghost mid = challenger@;
    match outcome {
        None => false,
        Some((z_star, q_at_z)) => {
            replay_layout(&bundle.jagged_eval, challenger, replay);
            let ghost at = challenger@;
            let ok = open_point_with(
                &bundle.commit,
                &bundle.basefold_proof,
                preceding_rounds,
                &z_star,
                q_at_z,
                challenger,
                open,
            );
            proof {
                assert(layout_replayed(bundle.jagged_eval, replay, mid, at));
            }
            ok
        },
    }
}

} // verus!
