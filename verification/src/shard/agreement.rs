//! The columns that a verifier opens are those that the prover laid out.
use vstd::prelude::*;
use vstd::arithmetic::power2::pow2;
use crate::ext::E4;
use crate::jagged::layout::{column_heights, end_to_end, layout_covers_all_cells, layout_of,
    pad_heights, pad_name, round_packed, total, total_concat, with_pads, InfoVal, LayoutVal,
    RoundVal};
use crate::jagged::packing::{column_height, monus, nats, row_point, PackingMeta};
use crate::jagged::prove::{describes, dims_of, dims_val, info_widths};
use crate::shard::columns::{all_columns, cells_of, height_refusal, info_cols, laid_height,
    laid_infos, main_infos, opened_columns, pad_infos, prep_columns, prep_count, prep_infos,
    width_refusal, with_tail};
use crate::shard::types::ShardChip;
use crate::whir::jagged::round_up;

verus! {

proof fn column_heights_push(infos: Seq<InfoVal>, info: InfoVal)
    ensures
        column_heights(infos.push(info)) == column_heights(infos) + Seq::new(
            info.column_count,
            |i: int| info.row_count,
        ),
{
    assert(infos.push(info).drop_last() =~= infos);
}

proof fn total_of_equal(n: nat, h: nat)
    ensures
        total(Seq::new(n, |i: int| h)) == h * n,
    decreases n,
{
    let s = Seq::new(n, |i: int| h);
    if n > 0 {
        let m = (n - 1) as nat;
        assert(s.drop_last() =~= Seq::new(m, |i: int| h));
        total_of_equal(m, h);
        assert(h * m + h == h * n) by (nonlinear_arith)
            requires
                n == m + 1,
        ;
    } else {
        assert(h * n == 0) by (nonlinear_arith)
            requires
                n == 0,
        ;
    }
}

/// The cells of groups are those of their columns.
proof fn cells_are_total(infos: Seq<InfoVal>)
    ensures
        cells_of(infos, infos.len() as int) == total(column_heights(infos)),
    decreases infos.len(),
{
    if infos.len() > 0 {
        let head = infos.drop_last();
        let last = infos.last();
        cells_are_total(head);
        cells_of_prefix(infos, head, head.len() as int);
        let tail = Seq::new(last.column_count, |i: int| last.row_count);
        total_concat(column_heights(head), tail);
        total_of_equal(last.column_count, last.row_count);
    }
}

proof fn cells_of_prefix(a: Seq<InfoVal>, b: Seq<InfoVal>, k: int)
    requires
        0 <= k <= a.len(),
        k <= b.len(),
        forall|i: int| 0 <= i < k ==> a[i] == b[i],
    ensures
        cells_of(a, k) == cells_of(b, k),
    decreases k,
{
    if k > 0 {
        cells_of_prefix(a, b, k - 1);
    }
}

proof fn info_cols_prefix(a: Seq<InfoVal>, b: Seq<InfoVal>, k: int)
    requires
        0 <= k <= a.len(),
        k <= b.len(),
        forall|i: int| 0 <= i < k ==> a[i].column_count == b[i].column_count,
    ensures
        info_cols(a, k) == info_cols(b, k),
    decreases k,
{
    if k > 0 {
        info_cols_prefix(a, b, k - 1);
    }
}

/// A group's columns have its height, and stand behind those of the groups before it.
proof fn heights_by_group(infos: Seq<InfoVal>, i: int)
    requires
        0 <= i < infos.len(),
    ensures
        column_heights(infos).len() == info_cols(infos, infos.len() as int),
        info_cols(infos, i) + infos[i].column_count <= column_heights(infos).len(),
        infos[i].column_count > 0 ==> column_heights(infos)[info_cols(infos, i) as int]
            == infos[i].row_count,
    decreases infos.len(),
{
    let head = infos.drop_last();
    let n = head.len() as int;
    let last = infos.last();
    info_cols_prefix(infos, head, n);
    if n > 0 {
        heights_by_group(head, if i < n {
            i
        } else {
            0
        });
    }
    assert(column_heights(head).len() == info_cols(head, n));
    assert(column_heights(infos) == column_heights(head) + Seq::new(
        last.column_count,
        |j: int| last.row_count,
    ));
    if i < n {
        info_cols_prefix(infos, head, i);
        assert(head[i] == infos[i]);
    } else {
        assert(i == n);
    }
}

proof fn columns_counted(infos: Seq<InfoVal>)
    ensures
        column_heights(infos).len() == info_cols(infos, infos.len() as int),
{
    if infos.len() > 0 {
        heights_by_group(infos, 0);
    }
}

/// A layout's padding columns are those of its groups.
proof fn pads_of_layout(l: LayoutVal, heights: Seq<nat>, start: nat, z_row: Seq<E4>)
    ensures
        with_pads(l, heights, start, z_row).infos == pad_infos(l.infos, heights),
    decreases heights.len(),
{
    if heights.len() > 0 {
        let h = heights[0];
        let next = LayoutVal {
            infos: l.infos.push(
                InfoVal { name: pad_name(l.infos.len()), row_count: h, column_count: 1 },
            ),
            offsets: l.offsets.push(start),
            claims: l.claims.push(seq![crate::ext::e_zero()]),
            rows: l.rows.push(row_point(z_row, h)),
            ..l
        };
        pads_of_layout(next, heights.skip(1), start + h, z_row);
    }
}

/// Padding columns stand behind the groups, and have the given heights.
proof fn pads_behind(infos: Seq<InfoVal>, heights: Seq<nat>)
    ensures
        pad_infos(infos, heights).len() == infos.len() + heights.len(),
        pad_infos(infos, heights).take(infos.len() as int) == infos,
        column_heights(pad_infos(infos, heights)) == column_heights(infos) + heights,
    decreases heights.len(),
{
    let r = pad_infos(infos, heights);
    if heights.len() > 0 {
        let info = InfoVal {
            name: pad_name(infos.len()),
            row_count: heights[0],
            column_count: 1,
        };
        let next = infos.push(info);
        pads_behind(next, heights.skip(1));
        assert(r.take(infos.len() as int) =~= r.take(next.len() as int).take(infos.len() as int));
        assert(next.take(infos.len() as int) =~= infos);
        column_heights_push(infos, info);
        assert(column_heights(next) =~= column_heights(infos) + seq![heights[0]]);
        assert(column_heights(infos) + heights =~= column_heights(next) + heights.skip(1));
    } else {
        assert(r.take(infos.len() as int) =~= infos);
        assert(column_heights(infos) + heights =~= column_heights(infos));
    }
}

/// The padding columns that a verifier adds are those of the layout.
proof fn tail_is_padding(
    infos: Seq<InfoVal>,
    packing: PackingMeta,
    heights: Seq<nat>,
    from: nat,
    to: nat,
)
    requires
        to == from + heights.len(),
        forall|t: int|
            0 <= t < heights.len() ==> column_height(
                packing.offsets@,
                packing.total_values as nat,
                (from + t) as nat,
            ) == #[trigger] heights[t],
    ensures
        with_tail(infos, packing, from, to) == pad_infos(infos, heights),
    decreases heights.len(),
{
    if heights.len() > 0 {
        let info = InfoVal {
            name: pad_name(infos.len()),
            row_count: heights[0],
            column_count: 1,
        };
        assert(column_height(packing.offsets@, packing.total_values as nat, (from + 0) as nat)
            == heights[0]);
        let rest = heights.skip(1);
        assert forall|t: int| 0 <= t < rest.len() implies column_height(
            packing.offsets@,
            packing.total_values as nat,
            (from + 1 + t) as nat,
        ) == #[trigger] rest[t] by {
            assert(rest[t] == heights[t + 1]);
        }
        tail_is_padding(infos.push(info), packing, rest, from + 1, to);
    }
}

/// The height that offsets give a column is the column's.
proof fn laid_heights_agree(packing: PackingMeta, offsets: Seq<nat>, heights: Seq<nat>, c: int)
    requires
        end_to_end(offsets, heights),
        nats(packing.offsets@) == offsets.push(total(heights)),
        packing.total_values == total(heights),
        0 <= c < heights.len(),
    ensures
        column_height(packing.offsets@, packing.total_values as nat, c as nat) == heights[c],
{
    let all = offsets.push(total(heights));
    assert(all.len() == packing.offsets@.len());
    assert(all[c] == packing.offsets@[c] as nat);
    assert(all[c + 1] == packing.offsets@[c + 1] as nat);
    assert(offsets[c] == total(heights.take(c)));
    let next = heights.take(c + 1);
    assert(next.drop_last() =~= heights.take(c));
    assert(next.last() == heights[c]);
    if c + 1 < heights.len() {
        assert(offsets[c + 1] == total(next));
    } else {
        assert(next =~= heights);
    }
}

proof fn widths_pass(dims: Seq<(String, usize)>, claimed: Seq<(usize, usize)>, k: int)
    requires
        0 <= k <= dims.len(),
        k <= claimed.len(),
        forall|i: int| 0 <= i < k ==> claimed[i].1 == #[trigger] dims[i].1,
    ensures
        width_refusal(dims, claimed, k) is None,
    decreases k,
{
    if k > 0 {
        widths_pass(dims, claimed, k - 1);
        assert(claimed[k - 1].1 == dims[k - 1].1);
    }
}

proof fn heights_pass(infos: Seq<InfoVal>, packing: PackingMeta, pinned: nat, k: int)
    requires
        0 <= k <= infos.len(),
        forall|i: int|
            0 <= i < k && i < pinned && (#[trigger] infos[i]).column_count > 0
                ==> infos[i].row_count == laid_height(infos, packing, i),
    ensures
        height_refusal(infos, packing, pinned, k) is None,
    decreases k,
{
    if k > 0 {
        heights_pass(infos, packing, pinned, k - 1);
        let _ = infos[k - 1];
    }
}

/// Whether the groups of a commitment are the machine's preprocessed chips, and its cells
/// are padded to whole stripes.
pub open spec fn is_prep_round(r: RoundVal, dims: Seq<(String, usize)>, lsh: nat) -> bool {
    &&& r.infos.len() == dims.len()
    &&& forall|i: int|
        0 <= i < dims.len() ==> {
            &&& (#[trigger] r.infos[i]).name == dims[i].0@
            &&& r.infos[i].column_count == dims[i].1
        }
    &&& r.area == round_up(r.total, pow2(lsh))
}

/// Whether the groups of a commitment are the chips of a shard. A chip without columns has
/// no rows.
pub open spec fn is_main_round(r: RoundVal, chips: Seq<ShardChip>) -> bool {
    &&& r.infos.len() == chips.len()
    &&& forall|i: int|
        0 <= i < chips.len() ==> {
            &&& (#[trigger] r.infos[i]).name == chips[i].name@
            &&& r.infos[i].column_count == 0 ==> r.infos[i].row_count == 0
        }
}

/// Whether commitments are those of a shard: that of the preprocessed chips, where there
/// are any, then that of the main traces.
pub open spec fn are_shard_rounds(
    rounds: Seq<RoundVal>,
    chips: Seq<ShardChip>,
    dims: Seq<(String, usize)>,
    lsh: nat,
) -> bool {
    let n = prep_count(chips, chips.len() as int);
    &&& rounds.len() == if n == 0 {
        1nat
    } else {
        2nat
    }
    &&& forall|i: int| 0 <= i < rounds.len() ==> round_packed(#[trigger] rounds[i])
    &&& n > 0 ==> dims.len() == n && is_prep_round(rounds[0], dims, lsh)
    &&& is_main_round(rounds.last(), chips)
}

proof fn round_infos(l: LayoutVal, r: RoundVal, z_row: Seq<E4>)
    requires
        r.total <= r.area,
    ensures
        crate::jagged::layout::with_round(l, r, z_row).infos == pad_infos(
            l.infos + r.infos,
            pad_heights((r.area - r.total) as nat, pow2(z_row.len())),
        ),
{
    let heights = pad_heights(monus(r.area, r.total), pow2(z_row.len()));
    let joined = LayoutVal {
        infos: l.infos + r.infos,
        offsets: l.offsets + crate::jagged::layout::moved(r.offsets, l.base),
        claims: l.claims + r.claims,
        rows: l.rows + r.rows,
        pads: l.pads.push(heights),
        base: l.base,
    };
    pads_of_layout(joined, heights, l.base + r.total, z_row);
}

proof fn prep_columns_agree(
    chips: Seq<ShardChip>,
    dims: Seq<(String, usize)>,
    rounds: Seq<RoundVal>,
    z_row: Seq<E4>,
    packing: PackingMeta,
    lsh: nat,
)
    requires
        are_shard_rounds(rounds, chips, dims, lsh),
        packing.round_counts@.len() == rounds.len(),
        forall|i: int|
            0 <= i < rounds.len() ==> dims_val((#[trigger] packing.round_counts@[i])@) == dims_of(
                rounds[i].infos,
            ),
    ensures
        prep_columns(chips, dims, packing, lsh, pow2(z_row.len())) == Ok::<_, Seq<char>>(
            layout_of(rounds, z_row, rounds.len() - 1).infos,
        ),
{
    let n = prep_count(chips, chips.len() as int);
    let empty = layout_of(rounds, z_row, 0);
    assert(empty.infos =~= Seq::<InfoVal>::empty());
    if n > 0 {
        let r = rounds[0];
        let claimed = packing.round_counts@[0]@;
        assert(round_packed(r));
        assert(dims_val(claimed).len() == claimed.len());
        assert(dims_of(r.infos).len() == r.infos.len());
        assert forall|i: int| 0 <= i < claimed.len() implies claimed[i].0 as nat
            == r.infos[i].row_count && claimed[i].1 as nat == r.infos[i].column_count by {
            assert(dims_val(claimed)[i] == dims_of(r.infos)[i]);
        }
        let infos = prep_infos(dims, claimed, n as int);
        assert(infos =~= r.infos) by {
            assert forall|i: int| 0 <= i < n implies infos[i] == r.infos[i] by {
                assert(r.infos[i].name == dims[i].0@);
            }
        }
        assert forall|i: int| 0 <= i < n implies claimed[i].1 == #[trigger] dims[i].1 by {
            assert(r.infos[i].column_count == dims[i].1);
        }
        widths_pass(dims, claimed, n as int);
        cells_are_total(infos);
        round_infos(empty, r, z_row);
        assert(empty.infos + r.infos =~= r.infos);
        assert(layout_of(rounds, z_row, 1).infos == pad_infos(
            infos,
            pad_heights((r.area - r.total) as nat, pow2(z_row.len())),
        ));
    }
}

/// Over the layout that the prover describes, the verifier opens exactly the columns that
/// the prover laid out: the preprocessed chips and the main ones, each group with its name,
/// height and number of columns, and the padding columns behind both.
pub proof fn opened_columns_are_laid_out(
    chips: Seq<ShardChip>,
    dims: Seq<(String, usize)>,
    rounds: Seq<RoundVal>,
    z_row: Seq<E4>,
    packing: PackingMeta,
    lsh: nat,
)
    requires
        are_shard_rounds(rounds, chips, dims, lsh),
        ({
            let l = layout_of(rounds, z_row, rounds.len() as int);
            describes(packing, (LayoutVal { offsets: l.offsets.push(l.base), ..l }), rounds)
        }),
    ensures
        opened_columns(chips, dims, packing, lsh, pow2(z_row.len())) == Ok::<_, Seq<char>>(
            (
                layout_of(rounds, z_row, rounds.len() as int).infos,
                layout_of(rounds, z_row, rounds.len() - 1).infos.len(),
            ),
        ),
{
    let l = layout_of(rounds, z_row, rounds.len() as int);
    let before = layout_of(rounds, z_row, rounds.len() - 1);
    let prep = before.infos;
    let main = rounds.last();
    let p = prep.len();
    prep_columns_agree(chips, dims, rounds, z_row, packing, lsh);
    layout_covers_all_cells(rounds, z_row, rounds.len() as int);
    assert(round_packed(main));
    let hs = pad_heights((main.area - main.total) as nat, pow2(z_row.len()));
    round_infos(before, main, z_row);
    let joined = prep + main.infos;
    assert(l.infos == pad_infos(joined, hs));
    pads_behind(joined, hs);
    columns_counted(l.infos);
    columns_counted(joined);
    let given = main_infos(chips, packing.column_counts@, p, chips.len() as int);
    let infos = prep + given;
    let n = infos.len() as int;
    assert forall|i: int| 0 <= i < n implies {
        &&& l.infos[i] == joined[i]
        &&& (#[trigger] infos[i]).column_count == l.infos[i].column_count
        &&& infos[i].name == l.infos[i].name
    } by {
        assert(l.infos.take(n)[i] == joined[i]);
        if i >= p {
            let j = i - p;
            assert(main.infos[j].name == chips[j].name@);
            assert(nats(packing.column_counts@)[i] == info_widths(l.infos)[i]);
            assert(nats(packing.column_counts@).len() == packing.column_counts@.len());
            assert(info_widths(l.infos).len() == l.infos.len());
            assert(given[j].column_count == l.infos[i].column_count);
        }
    }
    info_cols_prefix(infos, l.infos, n);
    info_cols_prefix(infos, joined, n);
    assert forall|i: int| 0 <= i < n && (#[trigger] infos[i]).column_count > 0 implies laid_height(
        infos,
        packing,
        i,
    ) == l.infos[i].row_count by {
        info_cols_prefix(infos, l.infos, i);
        heights_by_group(l.infos, i);
        laid_heights_agree(
            packing,
            l.offsets,
            column_heights(l.infos),
            info_cols(l.infos, i) as int,
        );
    }
    heights_pass(infos, packing, p, n);
    let laid = laid_infos(infos, packing, p);
    assert(laid =~= joined) by {
        assert forall|i: int| 0 <= i < n implies laid[i] == joined[i] by {
            assert(infos[i].column_count == l.infos[i].column_count);
            if i >= p {
                let j = i - p;
                assert(joined[i] == main.infos[j]);
                assert(infos[i] == given[j]);
            }
        }
    }
    let cols = info_cols(infos, n);
    assert(monus(packing.offsets@.len(), 1) == cols + hs.len()) by {
        assert(nats(packing.offsets@).len() == packing.offsets@.len());
    }
    assert forall|t: int| 0 <= t < hs.len() implies column_height(
        packing.offsets@,
        packing.total_values as nat,
        (cols + t) as nat,
    ) == #[trigger] hs[t] by {
        laid_heights_agree(packing, l.offsets, column_heights(l.infos), cols + t);
    }
    tail_is_padding(laid, packing, hs, cols, cols + hs.len());
    assert(all_columns(infos, packing, p) == Ok::<_, Seq<char>>(l.infos));
}

} // verus!
