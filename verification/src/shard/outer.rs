//! The verifier of a shard's opening under another commitment scheme.
//!
//! Such an opening comes serialized and in one group. Its columns are read off its own
//! layout, and so are the areas of the commitments before the last one.
use vstd::prelude::*;
use vstd::arithmetic::power2::pow2;
use crate::ext::{epoints, evals, Ext, E4};
use crate::jagged::bundle::EvaluationProof;
use crate::jagged::claims::{opens, reduces, replays, ColumnsVal, OpeningClaim, ReductionClaim};
use crate::jagged::layout::{info_vals, total, InfoVal};
use crate::jagged::opening::{areas_with, group_dim};
use crate::jagged::outer::{outer_answer, verify_jagged_basefold_inner_generic};
use crate::jagged::packing::{build_jagged_verify_inputs, columns_before, effective_widths,
    group_heights, nats, row_point, PackingMeta};
use crate::merkle::Digest;
use crate::shard::error::{answer_val, jagged_error, message1, text1, BasefoldVerifyError,
    ShardRefusal};
use crate::shard::types::ShardChip;
use crate::text::decimal;
use crate::transcript::{Sponge, Transcript};

verus! {

/// The cells of the first `k` groups of a commitment.
pub open spec fn real_cells(round: Seq<(usize, usize)>, k: int) -> nat
    decreases k,
{
    if k <= 0 {
        0
    } else {
        real_cells(round, k - 1) + round[k - 1].0 as nat * round[k - 1].1 as nat
    }
}

/// The cells of commitment `r`: those of its groups and of its padding columns.
pub open spec fn round_area(packing: PackingMeta, r: int) -> nat {
    (if r < packing.round_counts@.len() {
        real_cells(packing.round_counts@[r]@, packing.round_counts@[r]@.len() as int)
    } else {
        0
    }) + (if r < packing.padding_heights@.len() {
        total(nats(packing.padding_heights@[r]@))
    } else {
        0
    })
}

/// Whether `rounds` are the commitments before the last one with their areas.
pub open spec fn are_preceding(
    rounds: Seq<(Digest, usize)>,
    commits: Seq<Digest>,
    packing: PackingMeta,
) -> bool {
    &&& rounds.len() == commits.len()
    &&& forall|r: int|
        0 <= r < rounds.len() ==> (#[trigger] rounds[r]).0 == commits[r] && rounds[r].1
            == round_area(packing, r)
}

/// The widths of chips.
pub open spec fn widths_of(chips: Seq<ShardChip>) -> Seq<usize> {
    Seq::new(chips.len(), |i: int| chips[i].width)
}

/// The columns that a layout describes, for chips of the given widths, at a point.
pub open spec fn layout_columns(
    packing: PackingMeta,
    chips: Seq<ShardChip>,
    point: Seq<E4>,
    claims: Seq<Seq<E4>>,
) -> ColumnsVal {
    let widths = effective_widths(packing.column_counts@, widths_of(chips));
    let heights = group_heights(packing.offsets@, packing.total_values as nat, widths);
    ColumnsVal {
        infos: Seq::new(
            widths.len(),
            |i: int|
                InfoVal {
                    name: "chip"@ + decimal(i as nat),
                    row_count: heights[i],
                    column_count: widths[i] as nat,
                },
        ),
        rows: Seq::new(widths.len(), |i: int| row_point(point, heights[i])),
        claims,
        z_row: point,
    }
}

/// Whether the verification of a serialized opening may end so: where there is none, there
/// is nothing to verify; one that is not serialized, or that cannot be read, is refused;
/// else the bundle is verified for the columns and the areas that its layout gives.
pub open spec fn outer_pcs_answer<
    R,
    E,
    B,
    F: Fn(&R, &ReductionClaim, Transcript) -> (Option<(Vec<Ext>, Ext)>, Transcript),
    L: Fn(&E, Transcript) -> Transcript,
    O: Fn(&OpeningClaim, &B, Transcript) -> (bool, Transcript),
>(
    chips: Seq<ShardChip>,
    point: Seq<E4>,
    e: EvaluationProof<R, E, B>,
    reduce: F,
    replay: L,
    open: O,
    s: Sponge,
    r: Result<(), ShardRefusal>,
    end: Sponge,
) -> bool {
    match e {
        EvaluationProof::Empty => r is Ok && end == s,
        EvaluationProof::Bundle(_) => r == Result::<(), ShardRefusal>::Err(
            ShardRefusal::JaggedPcs(
                "outer ring expects a serialized (Bytes) BaseFold bundle, got Bundle"@,
            ),
        ),
        EvaluationProof::Bytes { len, decoded } => match decoded {
            None => r == Result::<(), ShardRefusal>::Err(
                ShardRefusal::JaggedPcs(
                    text1("outer BaseFold bundle deserialize failed ("@, len as nat, " bytes)"@),
                ),
            ),
            Some(b) => {
                &&& exists|rounds: Seq<(Digest, usize)>|
                    {
                        &&& #[trigger] are_preceding(rounds, b.preceding_commits@, b.packing)
                        &&& outer_answer(
                            b,
                            layout_columns(b.packing, chips, point, epoints(b.y_per_chip@)),
                            rounds,
                            reduce,
                            replay,
                            open,
                            s,
                            r is Ok,
                            end,
                        )
                    }
                &&& r is Err ==> r == Result::<(), ShardRefusal>::Err(
                    ShardRefusal::JaggedPcs("outer BaseFold bundle rejected"@),
                )
            },
        },
    }
}

/// Whether the numbers of a serialized opening that can be read are machine numbers, and it
/// has one group.
pub open spec fn outer_fits<R, E, B>(chips: Seq<ShardChip>, e: EvaluationProof<R, E, B>) -> bool {
    match e {
        EvaluationProof::Bytes { len, decoded } => match decoded {
            None => true,
            Some(b) => {
                let widths = effective_widths(b.packing.column_counts@, widths_of(chips));
                &&& b.extra_reduction@.len() == 0
                &&& columns_before(widths, widths.len() as int) <= usize::MAX
                &&& forall|r: int|
                    0 <= r < b.preceding_commits@.len() ==> #[trigger] round_area(b.packing, r)
                        <= usize::MAX
                &&& forall|rounds: Seq<(Digest, usize)>| #[trigger]
                    are_preceding(rounds, b.preceding_commits@, b.packing) ==> {
                        &&& total(nats(areas_with(rounds, b.commit.area))) <= usize::MAX
                        &&& pow2(group_dim(rounds, b.commit)) <= usize::MAX
                    }
            },
        },
        _ => true,
    }
}

proof fn real_cells_grow(round: Seq<(usize, usize)>, j: int, k: int)
    requires
        0 <= j <= k,
    ensures
        real_cells(round, j) <= real_cells(round, k),
    decreases k,
{
    if j < k {
        real_cells_grow(round, j, k - 1);
    }
}

proof fn total_grows(s: Seq<nat>, j: int)
    requires
        0 <= j <= s.len(),
    ensures
        total(s.take(j)) <= total(s),
    decreases s.len(),
{
    if j < s.len() {
        total_grows(s.drop_last(), j);
        assert(s.drop_last().take(j) =~= s.take(j));
    } else {
        assert(s.take(j) =~= s);
    }
}

fn count_real(round: &Vec<(usize, usize)>) -> (r: usize)
    requires
        real_cells(round@, round@.len() as int) <= usize::MAX,
    ensures
        r == real_cells(round@, round@.len() as int),
{
    let mut cells: usize = 0;
    let mut i: usize = 0;
    while i < round.len()
        invariant
            i <= round@.len(),
            real_cells(round@, round@.len() as int) <= usize::MAX,
            cells == real_cells(round@, i as int),
        decreases round@.len() - i,
    {
        proof {
            real_cells_grow(round@, i + 1, round@.len() as int);
            assert(0 <= round@[i as int].0 * round@[i as int].1) by (nonlinear_arith);
        }
        cells = cells + round[i].0 * round[i].1;
        i = i + 1;
    }
    cells
}

fn add_all(s: &Vec<usize>) -> (r: usize)
    requires
        total(nats(s@)) <= usize::MAX,
    ensures
        r == total(nats(s@)),
{
    let ghost all = nats(s@);
    let mut sum: usize = 0;
    let mut i: usize = 0;
    proof {
        assert(all.take(0) =~= Seq::<nat>::empty());
    }
    while i < s.len()
        invariant
            i <= s@.len(),
            all == nats(s@),
            all.len() == s@.len(),
            total(all) <= usize::MAX,
            sum == total(all.take(i as int)),
        decreases s@.len() - i,
    {
        proof {
            total_grows(all, i + 1);
            assert(all.take(i + 1).drop_last() =~= all.take(i as int));
            assert(all.take(i + 1).last() == s@[i as int]);
        }
        sum = sum + s[i];
        i = i + 1;
    }
    proof {
        assert(all.take(i as int) =~= all);
    }
    sum
}

fn preceding_areas(commits: &Vec<Digest>, packing: &PackingMeta) -> (r: Vec<(Digest, usize)>)
    requires
        forall|r: int|
            0 <= r < commits@.len() ==> #[trigger] round_area(*packing, r) <= usize::MAX,
    ensures
        are_preceding(r@, commits@, *packing),
{
    let mut out: Vec<(Digest, usize)> = Vec::new();
    let mut i: usize = 0;
    while i < commits.len()
        invariant
            i <= commits@.len(),
            forall|r: int|
                0 <= r < commits@.len() ==> #[trigger] round_area(*packing, r) <= usize::MAX,
            out@.len() == i,
            forall|r: int|
                0 <= r < i ==> (#[trigger] out@[r]).0 == commits@[r] && out@[r].1 == round_area(
                    *packing,
                    r,
                ),
        decreases commits@.len() - i,
    {
        proof {
            assert(round_area(*packing, i as int) <= usize::MAX);
        }
        let cells: usize = if i < packing.round_counts.len() {
            count_real(&packing.round_counts[i])
        } else {
            0
        };
        let pad: usize = if i < packing.padding_heights.len() {
            add_all(&packing.padding_heights[i])
        } else {
            0
        };
        out.push((commits[i], cells + pad));
        i = i + 1;
    }
    out
}

fn collect_widths(chips: &Vec<ShardChip>) -> (r: Vec<usize>)
    ensures
        r@ == widths_of(chips@),
{
    let mut r: Vec<usize> = Vec::new();
    let mut i: usize = 0;
    while i < chips.len()
        invariant
            i <= chips@.len(),
            r@.len() == i,
            forall|j: int| 0 <= j < i ==> #[trigger] r@[j] == chips@[j].width,
        decreases chips@.len() - i,
    {
        r.push(chips[i].width);
        i = i + 1;
    }
    proof {
        assert(r@ =~= widths_of(chips@));
    }
    r
}

/// Verifies a serialized opening. The transcript has absorbed the root.
pub fn verify_jagged_pcs_outer<R, E, B, F, L, O>(
    chips: &Vec<ShardChip>,
    shared_eval_point: &[Ext],
    evaluation_proof: &EvaluationProof<R, E, B>,
    challenger: &mut Transcript,
    reduce: F,
    replay: L,
    open: O,
) -> (r: Result<(), BasefoldVerifyError>) where
    F: Fn(&R, &ReductionClaim, Transcript) -> (Option<(Vec<Ext>, Ext)>, Transcript),
    L: Fn(&E, Transcript) -> Transcript,
    O: Fn(&OpeningClaim, &B, Transcript) -> (bool, Transcript),

    requires
        old(challenger).wf(),
        outer_fits(chips@, *evaluation_proof),
        reduces(reduce),
        replays(replay),
        opens(open),
    ensures
        final(challenger).wf(),
        outer_pcs_answer(
            chips@,
            evals(shared_eval_point@),
            *evaluation_proof,
            reduce,
            replay,
            open,
            old(challenger)@,
            answer_val(r),
            final(challenger)@,
        ),
{
    let ghost point = evals(shared_eval_point@);
    let bundle = match evaluation_proof {
        EvaluationProof::Empty => {
            return Ok(());
        },
        EvaluationProof::Bundle(_) => {
            return Err(
                jagged_error(
                    "outer ring expects a serialized (Bytes) BaseFold bundle, got Bundle",
                ),
            );
        },
        EvaluationProof::Bytes { len, decoded } => match decoded {
            None => {
                return Err(
                    BasefoldVerifyError::JaggedPcs(
                        message1("outer BaseFold bundle deserialize failed (", *len, " bytes)"),
                    ),
                );
            },
            Some(b) => b,
        },
    };
    let widths = collect_widths(chips);
    let (chip_infos, r_row_per_chip, z_row) = build_jagged_verify_inputs(
        &bundle.packing,
        &widths,
        shared_eval_point,
    );
    let rounds = preceding_areas(&bundle.preceding_commits, &bundle.packing);
    proof {
        let columns = layout_columns(
            bundle.packing,
            chips@,
            point,
            epoints(bundle.y_per_chip@),
        );
        assert(info_vals(chip_infos@) =~= columns.infos);
        assert(epoints(r_row_per_chip@) =~= columns.rows);
        assert(evals(z_row@) =~= point);
        assert(are_preceding(rounds@, bundle.preceding_commits@, bundle.packing));
    }
    let ok = verify_jagged_basefold_inner_generic(
        chip_infos,
        r_row_per_chip,
        z_row.as_slice(),
        bundle,
        challenger,
        true,
        &rounds,
        reduce,
        replay,
        open,
    );
    if ok {
        Ok(())
    } else {
        Err(jagged_error("outer BaseFold bundle rejected"))
    }
}

/// A commitment holds one cell per row of every column: without columns a group has no
/// cells, and one column more adds as many cells as the group has rows.
pub proof fn column_adds_its_rows(round: Seq<(usize, usize)>, i: int, rows: usize, columns: usize)
    requires
        0 <= i < round.len(),
        columns < usize::MAX,
    ensures
        ({
            let n = round.len() as int;
            let without = round.update(i, (rows, 0usize));
            let with = round.update(i, (rows, columns));
            let wider = round.update(i, (rows, (columns + 1) as usize));
            &&& real_cells(wider, n) == real_cells(with, n) + rows
            &&& columns == 0 ==> with == without
            &&& real_cells(without, n) == real_cells(round.remove(i), n - 1)
        }),
        real_cells(Seq::empty(), 0) == 0,
{
    let n = round.len() as int;
    let without = round.update(i, (rows, 0usize));
    let with = round.update(i, (rows, columns));
    let wider = round.update(i, (rows, (columns + 1) as usize));
    one_group_differs(with, wider, i, n);
    one_group_removed(without, i, n);
    assert(without.remove(i) =~= round.remove(i));
    assert(rows as nat * (columns + 1) as nat == rows as nat * columns as nat + rows)
        by (nonlinear_arith);
}

proof fn one_group_differs(a: Seq<(usize, usize)>, b: Seq<(usize, usize)>, i: int, k: int)
    requires
        0 <= i < a.len(),
        0 <= k <= a.len(),
        a.len() == b.len(),
        forall|j: int| 0 <= j < a.len() && j != i ==> a[j] == b[j],
    ensures
        k <= i ==> real_cells(a, k) == real_cells(b, k),
        k > i ==> real_cells(a, k) + b[i].0 as nat * b[i].1 as nat == real_cells(b, k)
            + a[i].0 as nat * a[i].1 as nat,
    decreases k,
{
    if k > 0 {
        one_group_differs(a, b, i, k - 1);
    }
}

proof fn one_group_removed(a: Seq<(usize, usize)>, i: int, k: int)
    requires
        0 <= i < a.len(),
        a[i].1 == 0,
        0 <= k <= a.len(),
    ensures
        k <= i ==> real_cells(a.remove(i), k) == real_cells(a, k),
        k > i ==> real_cells(a.remove(i), k - 1) == real_cells(a, k),
    decreases k,
{
    if k > 0 {
        one_group_removed(a, i, k - 1);
        assert(a[i].0 as nat * a[i].1 as nat == 0) by (nonlinear_arith)
            requires
                a[i].1 == 0,
        ;
    }
}

/// The area of a commitment whose padding columns fill it up is the area that was filled.
pub proof fn padded_round_is_its_area(packing: PackingMeta, r: int, area: nat, cube: nat)
    requires
        0 <= r < packing.round_counts@.len(),
        r < packing.padding_heights@.len(),
        real_cells(packing.round_counts@[r]@, packing.round_counts@[r]@.len() as int) <= area,
        nats(packing.padding_heights@[r]@) == crate::jagged::layout::pad_heights(
            (area - real_cells(
                packing.round_counts@[r]@,
                packing.round_counts@[r]@.len() as int,
            )) as nat,
            cube,
        ),
    ensures
        round_area(packing, r) == area,
{
    let cells = real_cells(packing.round_counts@[r]@, packing.round_counts@[r]@.len() as int);
    crate::jagged::layout::pad_heights_total((area - cells) as nat, cube);
}

/// An opening under another commitment scheme is accepted only where there is nothing to open,
/// or where it was decoded and its bundle is accepted with the columns of its own layout and
/// with one area for each commitment before the last.
pub proof fn accepted_outer_opening_is_decoded<
    R,
    E,
    B,
    F: Fn(&R, &ReductionClaim, Transcript) -> (Option<(Vec<Ext>, Ext)>, Transcript),
    L: Fn(&E, Transcript) -> Transcript,
    O: Fn(&OpeningClaim, &B, Transcript) -> (bool, Transcript),
>(
    chips: Seq<ShardChip>,
    point: Seq<E4>,
    e: EvaluationProof<R, E, B>,
    reduce: F,
    replay: L,
    open: O,
    s: Sponge,
    r: Result<(), ShardRefusal>,
    end: Sponge,
)
    requires
        outer_pcs_answer(chips, point, e, reduce, replay, open, s, r, end),
        r is Ok,
    ensures
        e is Empty || (e is Bytes && e->decoded is Some),
        e is Empty ==> end == s,
        e matches EvaluationProof::Bytes { len, decoded: Some(b) } ==> exists|
            rounds: Seq<(Digest, usize)>,
        |
            {
                &&& rounds.len() == b.preceding_commits@.len()
                &&& forall|k: int|
                    0 <= k < rounds.len() ==> (#[trigger] rounds[k]).0 == b.preceding_commits@[k]
                        && rounds[k].1 == round_area(b.packing, k)
                &&& #[trigger] outer_answer(
                    b,
                    layout_columns(b.packing, chips, point, epoints(b.y_per_chip@)),
                    rounds,
                    reduce,
                    replay,
                    open,
                    s,
                    true,
                    end,
                )
            },
{
    if let EvaluationProof::Bytes { len, decoded: Some(b) } = e {
        let rounds = choose|rounds: Seq<(Digest, usize)>|
            {
                &&& #[trigger] are_preceding(rounds, b.preceding_commits@, b.packing)
                &&& outer_answer(
                    b,
                    layout_columns(b.packing, chips, point, epoints(b.y_per_chip@)),
                    rounds,
                    reduce,
                    replay,
                    open,
                    s,
                    true,
                    end,
                )
            };
        assert(are_preceding(rounds, b.preceding_commits@, b.packing));
    }
}

/// The columns that are opened under another commitment scheme are those of the layout: one
/// group for each entry of its list of widths, or for each chip where it has none, with the
/// last coordinates of the point that address the rows of the group.
pub proof fn outer_columns_are_of_the_layout(
    packing: PackingMeta,
    chips: Seq<ShardChip>,
    point: Seq<E4>,
    claims: Seq<Seq<E4>>,
    i: int,
)
    requires
        0 <= i < layout_columns(packing, chips, point, claims).infos.len(),
    ensures
        ({
            let c = layout_columns(packing, chips, point, claims);
            let n = packing.column_counts@.len();
            let rows = c.infos[i].row_count;
            let log = crate::arith::ceil_log2_of(rows);
            &&& c.infos.len() == if n == 0 {
                chips.len()
            } else {
                n
            }
            &&& c.infos[i].column_count == if n == 0 {
                chips[i].width
            } else {
                packing.column_counts@[i]
            }
            &&& c.rows.len() == c.infos.len()
            &&& point.len() >= log ==> c.rows[i] == Seq::new(
                log,
                |j: int| point[point.len() - log + j],
            )
            &&& c.claims == claims
            &&& c.z_row == point
        }),
{
    let c = layout_columns(packing, chips, point, claims);
    let log = crate::arith::ceil_log2_of(c.infos[i].row_count);
    if point.len() >= log {
        assert(c.rows[i] =~= Seq::new(log, |j: int| point[point.len() - log + j]));
    }
}

} // verus!
