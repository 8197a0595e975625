//! The columns that a verifier opens: those of the preprocessed commitment, whose widths
//! come from the machine and whose heights the verifying key's commitment pins, and those
//! of the main commitment.
use vstd::prelude::*;
use vstd::arithmetic::power2::{lemma_pow2_pos, pow2};
use vstd::string::StrSliceExecFns;
use crate::arith::pow2_usize;
use crate::jagged::layout::{heights_of_pads, info_val, info_vals, pad_heights, pad_name, InfoVal};
use crate::jagged::packing::{column_height, height_of_column, monus, nats, JaggedChipInfo,
    PackingMeta};
use crate::shard::error::{jagged_error, text2, message2, BasefoldVerifyError, ShardRefusal};
use crate::shard::types::ShardChip;
use crate::text::{decimal_string, join};
use crate::whir::jagged::{next_multiple_of, round_up, round_up_bounds};

verus! {

/// The number of the first `k` chips that have preprocessed columns.
pub open spec fn prep_count(chips: Seq<ShardChip>, k: int) -> nat
    decreases k,
{
    if k <= 0 {
        0
    } else {
        prep_count(chips, k - 1) + if chips[k - 1].preprocessed_width > 0 {
            1nat
        } else {
            0nat
        }
    }
}

pub fn count_preprocessed(chips: &Vec<ShardChip>) -> (r: usize)
    ensures
        r == prep_count(chips@, chips@.len() as int),
{
    let mut r: usize = 0;
    let mut i: usize = 0;
    while i < chips.len()
        invariant
            i <= chips@.len(),
            r <= i,
            r == prep_count(chips@, i as int),
        decreases chips@.len() - i,
    {
        if chips[i].preprocessed_width > 0 {
            r = r + 1;
        }
        i = i + 1;
    }
    r
}

/// The text of a width that the machine does not have.
pub open spec fn width_text(name: Seq<char>, claimed: nat, width: nat) -> Seq<char> {
    text2(
        ("preprocessed round: chip "@ + name) + " is "@,
        claimed,
        " columns in the proof but "@,
        width,
        " in the machine"@,
    )
}

/// Why the first refused of the first `k` claimed widths is refused.
pub open spec fn width_refusal(
    dims: Seq<(String, usize)>,
    claimed: Seq<(usize, usize)>,
    k: int,
) -> Option<Seq<char>>
    decreases k,
{
    if k <= 0 {
        None
    } else {
        match width_refusal(dims, claimed, k - 1) {
            Some(e) => Some(e),
            None => if claimed[k - 1].1 != dims[k - 1].1 {
                Some(
                    width_text(
                        dims[k - 1].0@,
                        claimed[k - 1].1 as nat,
                        dims[k - 1].1 as nat,
                    ),
                )
            } else {
                None
            },
        }
    }
}

/// The groups of the preprocessed commitment: names and widths of the machine, claimed
/// heights.
pub open spec fn prep_infos(
    dims: Seq<(String, usize)>,
    claimed: Seq<(usize, usize)>,
    k: int,
) -> Seq<InfoVal> {
    Seq::new(
        k as nat,
        |i: int|
            InfoVal {
                name: dims[i].0@,
                row_count: claimed[i].0 as nat,
                column_count: dims[i].1 as nat,
            },
    )
}

/// The number of cells of the first `k` groups.
pub open spec fn cells_of(infos: Seq<InfoVal>, k: int) -> nat
    decreases k,
{
    if k <= 0 {
        0
    } else {
        cells_of(infos, k - 1) + infos[k - 1].row_count * infos[k - 1].column_count
    }
}

pub proof fn cells_monotone(infos: Seq<InfoVal>, a: int, b: int)
    requires
        0 <= a <= b,
    ensures
        cells_of(infos, a) <= cells_of(infos, b),
    decreases b - a,
{
    if a < b {
        cells_monotone(infos, a, b - 1);
        assert(0 <= infos[b - 1].row_count * infos[b - 1].column_count) by (nonlinear_arith);
    }
}

/// Groups with padding columns of the given heights.
pub open spec fn pad_infos(infos: Seq<InfoVal>, heights: Seq<nat>) -> Seq<InfoVal>
    decreases heights.len(),
{
    if heights.len() == 0 {
        infos
    } else {
        pad_infos(
            infos.push(
                InfoVal {
                    name: pad_name(infos.len()),
                    row_count: heights[0],
                    column_count: 1,
                },
            ),
            heights.skip(1),
        )
    }
}

fn push_pad(infos: &mut Vec<JaggedChipInfo>, h: usize)
    ensures
        info_vals(final(infos)@) == info_vals(old(infos)@).push(
            InfoVal {
                name: pad_name(old(infos)@.len()),
                row_count: h as nat,
                column_count: 1,
            },
        ),
{
    let name = join(
        join("<stacking-pad:".to_owned(), decimal_string(infos.len()).as_str()),
        ">",
    );
    let ghost was = infos@;
    infos.push(JaggedChipInfo { name, row_count: h, column_count: 1 });
    proof {
        assert(info_vals(infos@) =~= info_vals(was).push(info_val(infos@.last())));
    }
}

fn push_padding(infos: &mut Vec<JaggedChipInfo>, heights: &Vec<usize>)
    ensures
        info_vals(final(infos)@) == pad_infos(info_vals(old(infos)@), nats(heights@)),
{
    let ghost hs = nats(heights@);
    let mut i: usize = 0;
    proof {
        assert(hs.skip(0) =~= hs);
    }
    while i < heights.len()
        invariant
            i <= heights@.len(),
            hs == nats(heights@),
            pad_infos(info_vals(infos@), hs.skip(i as int)) == pad_infos(
                info_vals(old(infos)@),
                hs,
            ),
        decreases heights@.len() - i,
    {
        proof {
            let rest = hs.skip(i as int);
            assert(rest[0] == heights@[i as int]);
            assert(rest.skip(1) =~= hs.skip(i + 1));
            assert(info_vals(infos@).len() == infos@.len());
        }
        push_pad(infos, heights[i]);
        i = i + 1;
    }
    proof {
        assert(hs.skip(i as int) =~= Seq::<nat>::empty());
    }
}

/// The number of claimed groups that the machine names.
pub open spec fn paired_dims(dims: nat, claimed: nat) -> nat {
    if dims < claimed {
        dims
    } else {
        claimed
    }
}

/// A chip of another width than the machine's is refused.
pub proof fn other_width_is_refused(
    dims: Seq<(String, usize)>,
    claimed: Seq<(usize, usize)>,
    i: int,
    k: int,
)
    requires
        0 <= i < k,
        i < dims.len(),
        i < claimed.len(),
        claimed[i].1 != dims[i].1,
    ensures
        width_refusal(dims, claimed, k) is Some,
{
    if width_refusal(dims, claimed, i) is None {
        assert(width_refusal(dims, claimed, i + 1) is Some);
        width_refusal_stays(dims, claimed, i + 1, k);
    } else {
        width_refusal_stays(dims, claimed, i, k);
    }
}

/// The columns of the preprocessed commitment with their padding columns, or why they are
/// refused. Without preprocessed chips there are none.
pub open spec fn prep_columns(
    chips: Seq<ShardChip>,
    dims: Seq<(String, usize)>,
    packing: PackingMeta,
    lsh: nat,
    cube: nat,
) -> Result<Seq<InfoVal>, Seq<char>> {
    let n = prep_count(chips, chips.len() as int);
    if n == 0 {
        Ok(Seq::empty())
    } else if packing.round_counts@.len() == 0 {
        Err("preprocessed round: the proof carries no geometry for it"@)
    } else {
        let claimed = packing.round_counts@[0]@;
        let k = paired_dims(dims.len(), claimed.len()) as int;
        let infos = prep_infos(dims, claimed, k);
        let cells = cells_of(infos, k);
        if claimed.len() != n {
            Err(
                text2(
                    "preprocessed round: the proof claims "@,
                    claimed.len(),
                    " chips, the machine has "@,
                    n,
                    ""@,
                ),
            )
        } else {
            match width_refusal(dims, claimed, k) {
                Some(e) => Err(e),
                None => Ok(
                    pad_infos(
                        infos,
                        pad_heights((round_up(cells, pow2(lsh)) - cells) as nat, cube),
                    ),
                ),
            }
        }
    }
}

/// Whether the claimed cells of the preprocessed commitment are machine numbers, where the
/// commitment is one of as many chips and of the same widths as the machine's.
pub open spec fn prep_fits(
    chips: Seq<ShardChip>,
    dims: Seq<(String, usize)>,
    packing: PackingMeta,
    lsh: nat,
) -> bool {
    let n = prep_count(chips, chips.len() as int);
    n > 0 && packing.round_counts@.len() > 0 ==> {
        let claimed = packing.round_counts@[0]@;
        let k = paired_dims(dims.len(), claimed.len()) as int;
        let cells = cells_of(prep_infos(dims, claimed, k), k);
        claimed.len() == n && width_refusal(dims, claimed, k) is None ==> round_up(
            cells,
            pow2(lsh),
        ) <= usize::MAX
    }
}

proof fn width_refusal_stays(dims: Seq<(String, usize)>, claimed: Seq<(usize, usize)>, j: int, k: int)
    requires
        0 <= j <= k,
        width_refusal(dims, claimed, j) is Some,
    ensures
        width_refusal(dims, claimed, k) == width_refusal(dims, claimed, j),
    decreases k - j,
{
    if j < k {
        width_refusal_stays(dims, claimed, j, k - 1);
    }
}

/// The columns of the preprocessed commitment with their padding columns, or why they are
/// refused.
fn collect_prep_columns(
    chips: &Vec<ShardChip>,
    dims: &Vec<(String, usize)>,
    packing: &PackingMeta,
    height: usize,
    cube: usize,
    Ghost(lsh): Ghost<nat>,
) -> (r: Result<Vec<JaggedChipInfo>, BasefoldVerifyError>)
    requires
        height == pow2(lsh),
        cube > 0,
        prep_fits(chips@, dims@, *packing, lsh),
    ensures
        match (r, prep_columns(chips@, dims@, *packing, lsh, cube as nat)) {
            (Ok(v), Ok(s)) => info_vals(v@) == s,
            (Err(e), Err(w)) => e@ == ShardRefusal::JaggedPcs(w),
            _ => false,
        },
{
    let n: usize = count_preprocessed(chips);
    let mut infos: Vec<JaggedChipInfo> = Vec::new();
    proof {
        assert(info_vals(infos@) =~= Seq::<InfoVal>::empty());
        lemma_pow2_pos(lsh);
    }
    if n == 0 {
        return Ok(infos);
    }
    if packing.round_counts.len() == 0 {
        return Err(jagged_error("preprocessed round: the proof carries no geometry for it"));
    }
    let claimed = &packing.round_counts[0];
    if claimed.len() != n {
        return Err(
            BasefoldVerifyError::JaggedPcs(
                message2(
                    "preprocessed round: the proof claims ",
                    claimed.len(),
                    " chips, the machine has ",
                    n,
                    "",
                ),
            ),
        );
    }
    let k: usize = if dims.len() < claimed.len() {
        dims.len()
    } else {
        claimed.len()
    };
    let ghost want = prep_infos(dims@, claimed@, k as int);
    let mut i: usize = 0;
    while i < k
        invariant
            i <= k,
            k <= dims@.len(),
            k <= claimed@.len(),
            k == paired_dims(dims@.len(), claimed@.len()),
            claimed@ == packing.round_counts@[0]@,
            packing.round_counts@.len() > 0,
            n == prep_count(chips@, chips@.len() as int),
            n > 0,
            claimed@.len() == n,
            want == prep_infos(dims@, claimed@, k as int),
            width_refusal(dims@, claimed@, i as int) is None,
            info_vals(infos@) == want.take(i as int),
        decreases k - i,
    {
        let width: usize = dims[i].1;
        let (rows, cols) = claimed[i];
        if cols != width {
            proof {
                width_refusal_stays(dims@, claimed@, i + 1, k as int);
            }
            let head = join(
                join("preprocessed round: chip ".to_owned(), dims[i].0.as_str()),
                " is ",
            );
            return Err(
                BasefoldVerifyError::JaggedPcs(
                    message2(
                        head.as_str(),
                        cols,
                        " columns in the proof but ",
                        width,
                        " in the machine",
                    ),
                ),
            );
        }
        let ghost was = infos@;
        infos.push(
            JaggedChipInfo { name: dims[i].0.clone(), row_count: rows, column_count: width },
        );
        proof {
            assert(want.take(i + 1) =~= want.take(i as int).push(want[i as int]));
            assert(info_vals(infos@) =~= info_vals(was).push(want[i as int]));
        }
        i = i + 1;
    }
    proof {
        assert(want.take(k as int) =~= want);
        round_up_bounds(cells_of(want, k as int), pow2(lsh));
    }
    let mut cells: usize = 0;
    let mut j: usize = 0;
    while j < k
        invariant
            j <= k,
            k == infos@.len(),
            info_vals(infos@) == want,
            cells_of(want, k as int) <= usize::MAX,
            cells == cells_of(want, j as int),
        decreases k - j,
    {
        proof {
            cells_monotone(want, j + 1, k as int);
            assert(want[j as int] == info_val(infos@[j as int]));
            assert(infos@[j as int].row_count * infos@[j as int].column_count
                == want[j as int].row_count * want[j as int].column_count);
            assert(0 <= cells_of(want, j as int));
        }
        cells = cells + infos[j].row_count * infos[j].column_count;
        j = j + 1;
    }
    let area: usize = next_multiple_of(cells, height);
    let heights = heights_of_pads(area - cells, cube);
    push_padding(&mut infos, &heights);
    Ok(infos)
}

/// The groups of the main commitment, of no height yet. A group's width is the one that
/// the layout names, else the chip's.
pub open spec fn main_infos(
    chips: Seq<ShardChip>,
    column_counts: Seq<usize>,
    skip: nat,
    k: int,
) -> Seq<InfoVal> {
    Seq::new(
        k as nat,
        |i: int|
            InfoVal {
                name: chips[i].name@,
                row_count: 0,
                column_count: if skip + i < column_counts.len() {
                    column_counts[skip + i] as nat
                } else {
                    chips[i].width as nat
                },
            },
    )
}

fn push_main(infos: &mut Vec<JaggedChipInfo>, chips: &Vec<ShardChip>, column_counts: &Vec<usize>)
    ensures
        info_vals(final(infos)@) == info_vals(old(infos)@) + main_infos(
            chips@,
            column_counts@,
            old(infos)@.len(),
            chips@.len() as int,
        ),
{
    let skip: usize = infos.len();
    let m: usize = column_counts.len();
    let ghost start = info_vals(infos@);
    let ghost all = main_infos(chips@, column_counts@, skip as nat, chips@.len() as int);
    let mut i: usize = 0;
    proof {
        assert(start + all.take(0) =~= start);
    }
    while i < chips.len()
        invariant
            i <= chips@.len(),
            m == column_counts@.len(),
            all == main_infos(chips@, column_counts@, skip as nat, chips@.len() as int),
            info_vals(infos@) == start + all.take(i as int),
        decreases chips@.len() - i,
    {
        let width: usize = if skip < m && i < m - skip {
            column_counts[skip + i]
        } else {
            chips[i].width
        };
        let ghost was = infos@;
        infos.push(
            JaggedChipInfo { name: chips[i].name.clone(), row_count: 0, column_count: width },
        );
        proof {
            assert(all.take(i + 1) =~= all.take(i as int).push(all[i as int]));
            assert(info_vals(infos@) =~= info_vals(was).push(all[i as int]));
            assert(info_vals(infos@) =~= start + all.take(i + 1));
        }
        i = i + 1;
    }
    proof {
        assert(all.take(i as int) =~= all);
    }
}

/// The number of columns of the first `k` groups.
pub open spec fn info_cols(infos: Seq<InfoVal>, k: int) -> nat
    decreases k,
{
    if k <= 0 {
        0
    } else {
        info_cols(infos, k - 1) + infos[k - 1].column_count
    }
}

proof fn info_cols_monotone(infos: Seq<InfoVal>, a: int, b: int)
    requires
        0 <= a <= b,
    ensures
        info_cols(infos, a) <= info_cols(infos, b),
    decreases b - a,
{
    if a < b {
        info_cols_monotone(infos, a, b - 1);
    }
}

/// The height that the layout gives group `i`.
pub open spec fn laid_height(infos: Seq<InfoVal>, packing: PackingMeta, i: int) -> nat {
    column_height(packing.offsets@, packing.total_values as nat, info_cols(infos, i))
}

/// Why the first of the first `k` pinned groups is refused whose height is not the
/// layout's.
pub open spec fn height_refusal(
    infos: Seq<InfoVal>,
    packing: PackingMeta,
    pinned: nat,
    k: int,
) -> Option<Seq<char>>
    decreases k,
{
    if k <= 0 {
        None
    } else {
        match height_refusal(infos, packing, pinned, k - 1) {
            Some(e) => Some(e),
            None => {
                let info = infos[k - 1];
                let h = laid_height(infos, packing, k - 1);
                if k - 1 < pinned && info.column_count > 0 && info.row_count != h {
                    Some(
                        text2(
                            ("preprocessed round: "@ + info.name) + " is "@,
                            h,
                            " rows in the packing but "@,
                            info.row_count,
                            " as pinned by the verifying key"@,
                        ),
                    )
                } else {
                    None
                }
            },
        }
    }
}

proof fn height_refusal_stays(
    infos: Seq<InfoVal>,
    packing: PackingMeta,
    pinned: nat,
    j: int,
    k: int,
)
    requires
        0 <= j <= k,
        height_refusal(infos, packing, pinned, j) is Some,
    ensures
        height_refusal(infos, packing, pinned, k) == height_refusal(infos, packing, pinned, j),
    decreases k - j,
{
    if j < k {
        height_refusal_stays(infos, packing, pinned, j, k - 1);
    }
}

/// Group `i` with the height of the layout, unless its height is pinned or it has no
/// columns.
pub open spec fn laid_info(
    infos: Seq<InfoVal>,
    packing: PackingMeta,
    pinned: nat,
    i: int,
) -> InfoVal {
    if i < pinned || infos[i].column_count == 0 {
        infos[i]
    } else {
        InfoVal { row_count: laid_height(infos, packing, i), ..infos[i] }
    }
}

/// All groups with the heights of the layout.
pub open spec fn laid_infos(infos: Seq<InfoVal>, packing: PackingMeta, pinned: nat) -> Seq<
    InfoVal,
> {
    Seq::new(infos.len(), |i: int| laid_info(infos, packing, pinned, i))
}

/// Groups followed by one padding column for each column `from..to` of the layout.
pub open spec fn with_tail(infos: Seq<InfoVal>, packing: PackingMeta, from: nat, to: nat) -> Seq<
    InfoVal,
>
    decreases to - from,
{
    if from >= to {
        infos
    } else {
        with_tail(
            infos.push(
                InfoVal {
                    name: pad_name(infos.len()),
                    row_count: column_height(
                        packing.offsets@,
                        packing.total_values as nat,
                        from,
                    ),
                    column_count: 1,
                },
            ),
            packing,
            from + 1,
            to,
        )
    }
}

/// All groups of the layout: the given ones with the layout's heights, and padding columns
/// for the rest of its columns; or why they are refused.
pub open spec fn all_columns(infos: Seq<InfoVal>, packing: PackingMeta, pinned: nat) -> Result<
    Seq<InfoVal>,
    Seq<char>,
> {
    let n = infos.len() as int;
    let cols = info_cols(infos, n);
    let total_cols = monus(packing.offsets@.len(), 1);
    match height_refusal(infos, packing, pinned, n) {
        Some(e) => Err(e),
        None => if cols > total_cols {
            Err(
                text2(
                    "packing column accounting mismatch: [preprocessed | main] covers "@,
                    cols,
                    " columns but the packing carries "@,
                    total_cols,
                    ""@,
                ),
            )
        } else {
            Ok(with_tail(laid_infos(infos, packing, pinned), packing, cols, total_cols))
        },
    }
}

/// Walks the columns of the layout.
fn lay_columns(infos: &mut Vec<JaggedChipInfo>, packing: &PackingMeta, pinned: usize) -> (r: Result<
    (),
    BasefoldVerifyError,
>)
    requires
        info_cols(info_vals(old(infos)@), old(infos)@.len() as int) <= usize::MAX,
    ensures
        match (r, all_columns(info_vals(old(infos)@), *packing, pinned as nat)) {
            (Ok(_), Ok(s)) => info_vals(final(infos)@) == s,
            (Err(e), Err(w)) => e@ == ShardRefusal::JaggedPcs(w),
            _ => false,
        },
{
    let ghost first = info_vals(infos@);
    let ghost laid = laid_infos(first, *packing, pinned as nat);
    let n: usize = infos.len();
    let mut col: usize = 0;
    let mut i: usize = 0;
    while i < n
        invariant
            i <= n,
            n == infos@.len(),
            n == old(infos)@.len(),
            first == info_vals(old(infos)@),
            laid == laid_infos(first, *packing, pinned as nat),
            info_cols(first, n as int) <= usize::MAX,
            col == info_cols(first, i as int),
            height_refusal(first, *packing, pinned as nat, i as int) is None,
            forall|j: int| 0 <= j < i ==> info_val(#[trigger] infos@[j]) == laid[j],
            forall|j: int| i <= j < n ==> info_val(#[trigger] infos@[j]) == first[j],
        decreases n - i,
    {
        let width: usize = infos[i].column_count;
        proof {
            assert(info_val(infos@[i as int]) == first[i as int]);
            info_cols_monotone(first, i + 1, n as int);
        }
        if width > 0 {
            let h: usize = height_of_column(&packing.offsets, packing.total_values, col);
            if i < pinned {
                if infos[i].row_count != h {
                    proof {
                        height_refusal_stays(
                            first,
                            *packing,
                            pinned as nat,
                            i + 1,
                            n as int,
                        );
                    }
                    let head = join(
                        join("preprocessed round: ".to_owned(), infos[i].name.as_str()),
                        " is ",
                    );
                    return Err(
                        BasefoldVerifyError::JaggedPcs(
                            message2(
                                head.as_str(),
                                h,
                                " rows in the packing but ",
                                infos[i].row_count,
                                " as pinned by the verifying key",
                            ),
                        ),
                    );
                }
            } else {
                let name = infos[i].name.clone();
                infos.set(i, JaggedChipInfo { name, row_count: h, column_count: width });
            }
        }
        proof {
            assert(info_val(infos@[i as int]) == laid[i as int]);
        }
        col = col + width;
        i = i + 1;
    }
    proof {
        assert(info_vals(infos@) =~= laid);
    }
    let len: usize = packing.offsets.len();
    let total_cols: usize = if len == 0 {
        0
    } else {
        len - 1
    };
    if col > total_cols {
        return Err(
            BasefoldVerifyError::JaggedPcs(
                message2(
                    "packing column accounting mismatch: [preprocessed | main] covers ",
                    col,
                    " columns but the packing carries ",
                    total_cols,
                    "",
                ),
            ),
        );
    }
    let ghost want = with_tail(laid, *packing, col as nat, total_cols as nat);
    let mut at: usize = col;
    while at < total_cols
        invariant
            col <= at <= total_cols,
            with_tail(info_vals(infos@), *packing, at as nat, total_cols as nat) == want,
        decreases total_cols - at,
    {
        let h: usize = height_of_column(&packing.offsets, packing.total_values, at);
        proof {
            assert(info_vals(infos@).len() == infos@.len());
        }
        push_pad(infos, h);
        at = at + 1;
    }
    Ok(())
}

/// The columns that a verifier opens, or why they are refused. The number with them is
/// that of the preprocessed commitment's groups, padding columns included.
pub open spec fn opened_columns(
    chips: Seq<ShardChip>,
    dims: Seq<(String, usize)>,
    packing: PackingMeta,
    lsh: nat,
    cube: nat,
) -> Result<(Seq<InfoVal>, nat), Seq<char>> {
    match prep_columns(chips, dims, packing, lsh, cube) {
        Err(e) => Err(e),
        Ok(prep) => {
            let infos = prep + main_infos(
                chips,
                packing.column_counts@,
                prep.len(),
                chips.len() as int,
            );
            match all_columns(infos, packing, prep.len()) {
                Err(e) => Err(e),
                Ok(s) => Ok((s, prep.len())),
            }
        },
    }
}

/// Whether the numbers of columns are machine numbers.
pub open spec fn columns_fit(
    chips: Seq<ShardChip>,
    dims: Seq<(String, usize)>,
    packing: PackingMeta,
    lsh: nat,
    cube: nat,
) -> bool {
    &&& prep_fits(chips, dims, packing, lsh)
    &&& match prep_columns(chips, dims, packing, lsh, cube) {
        Err(_) => true,
        Ok(prep) => {
            let infos = prep + main_infos(
                chips,
                packing.column_counts@,
                prep.len(),
                chips.len() as int,
            );
            info_cols(infos, infos.len() as int) <= usize::MAX
        },
    }
}

/// The columns that a verifier opens, and the number of the preprocessed commitment's
/// groups, or why they are refused.
pub fn collect_columns(
    chips: &Vec<ShardChip>,
    dims: &Vec<(String, usize)>,
    packing: &PackingMeta,
    log_stacking_height: u32,
    point_dim: usize,
) -> (r: Result<(Vec<JaggedChipInfo>, usize), BasefoldVerifyError>)
    requires
        pow2(log_stacking_height as nat) <= usize::MAX,
        pow2(point_dim as nat) <= usize::MAX,
        columns_fit(
            chips@,
            dims@,
            *packing,
            log_stacking_height as nat,
            pow2(point_dim as nat),
        ),
    ensures
        match (
            r,
            opened_columns(
                chips@,
                dims@,
                *packing,
                log_stacking_height as nat,
                pow2(point_dim as nat),
            ),
        ) {
            (Ok(v), Ok(s)) => info_vals(v.0@) == s.0 && v.1 == s.1,
            (Err(e), Err(w)) => e@ == ShardRefusal::JaggedPcs(w),
            _ => false,
        },
{
    let height: usize = pow2_usize(log_stacking_height as usize);
    let cube: usize = pow2_usize(point_dim);
    proof {
        lemma_pow2_pos(point_dim as nat);
    }
    let mut infos = match collect_prep_columns(
        chips,
        dims,
        packing,
        height,
        cube,
        Ghost(log_stacking_height as nat),
    ) {
        Err(e) => {
            return Err(e);
        },
        Ok(v) => v,
    };
    let pinned: usize = infos.len();
    proof {
        assert(info_vals(infos@).len() == infos@.len());
    }
    push_main(&mut infos, chips, &packing.column_counts);
    proof {
        assert(info_vals(infos@).len() == infos@.len());
    }
    match lay_columns(&mut infos, packing, pinned) {
        Err(e) => Err(e),
        Ok(_) => Ok((infos, pinned)),
    }
}

} // verus!
