//! What is handed to the verifiers of a reduction and of an opening.
use vstd::prelude::*;
use vstd::arithmetic::power2::pow2;
use crate::arith::pow2_le;
use crate::ext::{epoints, evals, Ext, E4};
use crate::jagged::layout::{info_vals, total, InfoVal};
use crate::jagged::opening::{adjust_claim, areas_with, column_vars, extend_point, group_dim, missing,
    opening_dim, sample_z_col, stripe_adjusted};
use crate::jagged::packing::{copy_counts, nats, JaggedChipInfo, PackingMeta};
use crate::merkle::Digest;
use crate::multilinear::copy_exts;
use crate::transcript::{Sponge, Transcript};
use crate::whir::jagged::JaggedCommit;

verus! {

/// What a reduction is checked against: the columns, where they lie, the coordinates that
/// address their rows, their claims, and the points that address a column and a row.
pub struct ReductionClaim {
    /// The groups of columns.
    pub chip_infos: Vec<JaggedChipInfo>,
    /// Where each column begins, and where the last one ends.
    pub offsets: Vec<usize>,
    /// The number of cells.
    pub total_values: usize,
    /// The coordinates that address the rows of each group.
    pub r_row_per_chip: Vec<Vec<Ext>>,
    /// The claims for each group's columns.
    pub y_per_chip: Vec<Vec<Ext>>,
    /// The point that addresses a column.
    pub z_col: Vec<Ext>,
    /// The point that addresses a row.
    pub z_row: Vec<Ext>,
}

/// Columns to reduce: the groups, the coordinates of their rows, their claims, and the point
/// that addresses a row.
pub struct ColumnsVal {
    pub infos: Seq<InfoVal>,
    pub rows: Seq<Seq<E4>>,
    pub claims: Seq<Seq<E4>>,
    pub z_row: Seq<E4>,
}

/// Whether a claim states columns in a layout, at a column point.
pub open spec fn is_reduction(
    c: ReductionClaim,
    packing: PackingMeta,
    columns: ColumnsVal,
    z_col: Seq<E4>,
) -> bool {
    &&& info_vals(c.chip_infos@) == columns.infos
    &&& c.offsets@ == packing.offsets@
    &&& c.total_values == packing.total_values
    &&& epoints(c.r_row_per_chip@) == columns.rows
    &&& epoints(c.y_per_chip@) == columns.claims
    &&& evals(c.z_col@) == z_col
    &&& evals(c.z_row@) == columns.z_row
}

/// Whether a verifier of reductions can be asked about any claim, and leaves a sound
/// transcript and a point whose cube is a machine number.
pub open spec fn reduces<
    R,
    F: Fn(&R, &ReductionClaim, Transcript) -> (Option<(Vec<Ext>, Ext)>, Transcript),
>(reduce: F) -> bool {
    &&& forall|r: &R, c: &ReductionClaim, t: Transcript|
        t.wf() ==> #[trigger] reduce.requires((r, c, t))
    &&& forall|
        r: &R,
        c: &ReductionClaim,
        t: Transcript,
        x: Option<(Vec<Ext>, Ext)>,
        u: Transcript,
    |
        t.wf() && #[trigger] reduce.ensures((r, c, t), (x, u)) ==> {
            &&& u.wf()
            &&& x matches Some((p, q)) ==> pow2(p@.len()) <= usize::MAX
        }
}

/// Whether the evaluation of a layout can be replayed on any transcript, and leaves a sound
/// one.
pub open spec fn replays<E, L: Fn(&E, Transcript) -> Transcript>(replay: L) -> bool {
    &&& forall|e: &E, t: Transcript| t.wf() ==> #[trigger] replay.requires((e, t))
    &&& forall|e: &E, t: Transcript, u: Transcript|
        t.wf() && #[trigger] replay.ensures((e, t), u) ==> u.wf()
}

/// Whether a reduction was checked from a transcript: the column point is drawn, then the
/// verifier of reductions gets the claim and answers.
pub open spec fn columns_reduced<
    R,
    F: Fn(&R, &ReductionClaim, Transcript) -> (Option<(Vec<Ext>, Ext)>, Transcript),
>(
    reduction: R,
    packing: PackingMeta,
    columns: ColumnsVal,
    reduce: F,
    s: Sponge,
    claim: ReductionClaim,
    outcome: Option<(Vec<Ext>, Ext)>,
    end: Sponge,
) -> bool {
    let vars = column_vars(packing.offsets@.len());
    &&& is_reduction(claim, packing, columns, s.drawn_exts(vars))
    &&& exists|before: Transcript, after: Transcript|
        {
            &&& before.wf()
            &&& before@ == s.after_draw_exts(vars)
            &&& #[trigger] reduce.ensures((&reduction, &claim, before), (outcome, after))
            &&& after@ == end
        }
}

/// Whether the replay of the evaluation of a layout may lead from a transcript to another.
pub open spec fn layout_replayed<E, L: Fn(&E, Transcript) -> Transcript>(
    jagged_eval: E,
    replay: L,
    s: Sponge,
    end: Sponge,
) -> bool {
    exists|before: Transcript, after: Transcript|
        {
            &&& before.wf()
            &&& before@ == s
            &&& #[trigger] replay.ensures((&jagged_eval, before), after)
            &&& after@ == end
        }
}

/// Replays the evaluation of a layout.
pub fn replay_layout<E, L>(jagged_eval: &E, challenger: &mut Transcript, replay: L) where
    L: Fn(&E, Transcript) -> Transcript,

    requires
        old(challenger).wf(),
        replays(replay),
    ensures
        final(challenger).wf(),
        layout_replayed(*jagged_eval, replay, old(challenger)@, final(challenger)@),
{
    let mine = challenger.duplicate();
    let ghost t = mine;
    let after = replay(jagged_eval, mine);
    proof {
        assert(replay.ensures((jagged_eval, t), after));
    }
    *challenger = after;
}

/// Draws the column point and checks a reduction.
pub fn reduce_columns<R, F>(
    reduction: &R,
    packing: &PackingMeta,
    chip_infos: Vec<JaggedChipInfo>,
    r_row_per_chip: Vec<Vec<Ext>>,
    y_per_chip: Vec<Vec<Ext>>,
    z_row: &[Ext],
    challenger: &mut Transcript,
    reduce: F,
) -> (r: (ReductionClaim, Option<(Vec<Ext>, Ext)>)) where
    F: Fn(&R, &ReductionClaim, Transcript) -> (Option<(Vec<Ext>, Ext)>, Transcript),

    requires
        old(challenger).wf(),
        reduces(reduce),
    ensures
        final(challenger).wf(),
        columns_reduced(
            *reduction,
            *packing,
            (ColumnsVal {
                infos: info_vals(chip_infos@),
                rows: epoints(r_row_per_chip@),
                claims: epoints(y_per_chip@),
                z_row: evals(z_row@),
            }),
            reduce,
            old(challenger)@,
            r.0,
            r.1,
            final(challenger)@,
        ),
        r.1 matches Some((z, q)) ==> pow2(z@.len()) <= usize::MAX,
{
    let z_col = sample_z_col(&packing.offsets, challenger);
    let claim = ReductionClaim {
        chip_infos,
        offsets: copy_counts(&packing.offsets),
        total_values: packing.total_values,
        r_row_per_chip,
        y_per_chip,
        z_col,
        z_row: copy_exts(z_row),
    };
    let mine = challenger.duplicate();
    let ghost t = mine;
    let (outcome, after) = reduce(reduction, &claim, mine);
    proof {
        assert(reduce.ensures((reduction, &claim, t), (outcome, after)));
    }
    *challenger = after;
    (claim, outcome)
}

/// What an opening is checked against: the roots and areas of all commitments, the height of
/// a stripe, the point, and the value there.
pub struct OpeningClaim {
    /// The roots.
    pub commitments: Vec<Digest>,
    /// The areas.
    pub areas: Vec<usize>,
    /// The logarithm of the height of a stripe.
    pub log_stacking_height: u32,
    /// The point.
    pub point: Vec<Ext>,
    /// The value.
    pub value: Ext,
}

/// The roots of the commitments before, and the last one.
pub open spec fn all_commitments(preceding: Seq<(Digest, usize)>, last: Digest) -> Seq<Digest> {
    Seq::new(preceding.len(), |i: int| preceding[i].0).push(last)
}

/// Whether a verifier of openings can be asked about any claim, and leaves a sound
/// transcript.
pub open spec fn opens<B, O: Fn(&OpeningClaim, &B, Transcript) -> (bool, Transcript)>(
    open: O,
) -> bool {
    &&& forall|c: &OpeningClaim, p: &B, t: Transcript|
        t.wf() ==> #[trigger] open.requires((c, p, t))
    &&& forall|c: &OpeningClaim, p: &B, t: Transcript, x: bool, u: Transcript|
        t.wf() && #[trigger] open.ensures((c, p, t), (x, u)) ==> u.wf()
}

/// Whether the opening at a reduced point may end with an answer at a transcript: the point
/// is extended to address every stripe, the value is shrunk where the reduced point does not
/// reach the height of a stripe, and the opening covers the commitments before and the last
/// one.
pub open spec fn point_opened<B, O: Fn(&OpeningClaim, &B, Transcript) -> (bool, Transcript)>(
    commit: JaggedCommit,
    opening: B,
    preceding: Seq<(Digest, usize)>,
    open: O,
    s: Sponge,
    z: Seq<E4>,
    q: E4,
    ok: bool,
    end: Sponge,
) -> bool {
    let lsh = commit.log_stacking_height;
    let more = missing(z.len(), group_dim(preceding, commit));
    let point = z + s.drawn_exts(more);
    exists|claim: &OpeningClaim, before: Transcript, after: Transcript|
        {
            &&& claim.commitments@ == all_commitments(preceding, commit.original_commitment)
            &&& claim.areas@ == areas_with(preceding, commit.area)
            &&& claim.log_stacking_height == lsh
            &&& evals(claim.point@) == point
            &&& claim.value@ == stripe_adjusted(q, point, z.len(), lsh as nat)
            &&& before.wf()
            &&& before@ == s.after_draw_exts(more)
            &&& #[trigger] open.ensures((claim, &opening, before), (ok, after))
            &&& after@ == end
        }
}

fn split_rounds(preceding: &Vec<(Digest, usize)>, root: Digest, area: usize) -> (r: (
    Vec<Digest>,
    Vec<usize>,
))
    ensures
        r.0@ == all_commitments(preceding@, root),
        r.1@ == areas_with(preceding@, area),
{
    let mut roots: Vec<Digest> = Vec::new();
    let mut areas: Vec<usize> = Vec::new();
    let mut i: usize = 0;
    while i < preceding.len()
        invariant
            i <= preceding@.len(),
            roots@.len() == i,
            areas@.len() == i,
            forall|j: int| 0 <= j < i ==> #[trigger] roots@[j] == preceding@[j].0,
            forall|j: int| 0 <= j < i ==> #[trigger] areas@[j] == preceding@[j].1,
        decreases preceding@.len() - i,
    {
        roots.push(preceding[i].0);
        areas.push(preceding[i].1);
        i = i + 1;
    }
    roots.push(root);
    areas.push(area);
    proof {
        assert(roots@ =~= all_commitments(preceding@, root));
        assert(areas@ =~= areas_with(preceding@, area));
    }
    (roots, areas)
}

/// Extends a reduced point, adjusts the value, and checks the opening there.
pub fn open_point_with<B, O>(
    commit: &JaggedCommit,
    opening: &B,
    preceding_rounds: &Vec<(Digest, usize)>,
    z_star: &Vec<Ext>,
    q_at_z: Ext,
    challenger: &mut Transcript,
    open: O,
) -> (r: bool) where O: Fn(&OpeningClaim, &B, Transcript) -> (bool, Transcript)
    requires
        old(challenger).wf(),
        opens(open),
        total(nats(areas_with(preceding_rounds@, commit.area))) <= usize::MAX,
        pow2(group_dim(preceding_rounds@, *commit)) <= usize::MAX,
    ensures
        final(challenger).wf(),
        point_opened(
            *commit,
            *opening,
            preceding_rounds@,
            open,
            old(challenger)@,
            evals(z_star@),
            q_at_z@,
            r,
            final(challenger)@,
        ),
{
    let lsh: u32 = commit.log_stacking_height;
    let (commitments, areas) = split_rounds(
        preceding_rounds,
        commit.original_commitment,
        commit.area,
    );
    proof {
        pow2_le(lsh as nat, group_dim(preceding_rounds@, *commit));
    }
    let dim: usize = opening_dim(&areas, lsh);
    let point = extend_point(z_star.as_slice(), dim, challenger);
    proof {
        assert(evals(point@).len() == point@.len());
        assert(evals(z_star@).len() == z_star@.len());
    }
    let value = adjust_claim(q_at_z, &point, z_star.len(), lsh as usize);
    let claim = OpeningClaim { commitments, areas, log_stacking_height: lsh, point, value };
    let mine = challenger.duplicate();
    let ghost t = mine;
    let (ok, end) = open(&claim, opening, mine);
    proof {
        assert(open.ensures((&claim, opening, t), (ok, end)));
    }
    *challenger = end;
    ok
}

} // verus!
