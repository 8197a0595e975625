//! Where the columns of a jagged polynomial lie.
use vstd::prelude::*;
use crate::arith::{ceil_log2, ceil_log2_of};
use crate::ext::{evals, Ext, E4};
use crate::multilinear::copy_exts;
use crate::text::{decimal, decimal_string, join};

verus! {

/// A group of columns of one height.
#[derive(Debug)]
pub struct JaggedChipInfo {
    /// The name.
    pub name: String,
    /// The height.
    pub row_count: usize,
    /// The number of columns.
    pub column_count: usize,
}

/// The layout of a jagged polynomial, as a proof carries it.
#[derive(Debug)]
pub struct PackingMeta {
    /// Where each column begins, and where the last one ends.
    pub offsets: Vec<usize>,
    /// The number of cells.
    pub total_values: usize,
    /// The logarithm of the number of cells, rounded up.
    pub log_dense_size: usize,
    /// The number of columns of each group.
    pub column_counts: Vec<usize>,
    /// The height and number of columns of each group, commitment by commitment, without
    /// the padding columns.
    pub round_counts: Vec<Vec<(usize, usize)>>,
    /// The heights of the padding columns of each commitment.
    pub padding_heights: Vec<Vec<usize>>,
}

/// The layout of a jagged polynomial with its groups of columns.
#[derive(Debug)]
pub struct JaggedPacking {
    /// The groups of columns.
    pub chip_infos: Vec<JaggedChipInfo>,
    /// Where each column begins, and where the last one ends.
    pub offsets: Vec<usize>,
    /// The number of cells.
    pub total_values: usize,
    /// The number of committed cells.
    pub dense_len: usize,
}

/// The difference of two numbers, zero where it would be negative.
pub open spec fn monus(a: nat, b: nat) -> nat {
    if a < b {
        0
    } else {
        (a - b) as nat
    }
}

/// The height of a column: up to where the next one begins, for the last one up to the
/// number of cells, and zero past the last one.
pub open spec fn column_height(offsets: Seq<usize>, total: nat, col: nat) -> nat {
    if col + 1 < offsets.len() {
        monus(offsets[col as int + 1] as nat, offsets[col as int] as nat)
    } else if col < offsets.len() {
        monus(total, offsets[col as int] as nat)
    } else {
        0
    }
}

/// The height of a column.
pub fn height_of_column(offsets: &Vec<usize>, total: usize, col: usize) -> (r: usize)
    ensures
        r == column_height(offsets@, total as nat, col as nat),
{
    let n: usize = offsets.len();
    if col >= n {
        return 0;
    }
    let end: usize = if n - col > 1 {
        offsets[col + 1]
    } else {
        total
    };
    if end < offsets[col] {
        0
    } else {
        end - offsets[col]
    }
}

/// The number of columns of the first `k` groups.
pub open spec fn columns_before(counts: Seq<usize>, k: int) -> nat
    decreases k,
{
    if k <= 0 {
        0
    } else {
        columns_before(counts, k - 1) + counts[k - 1] as nat
    }
}

/// More groups have more columns.
pub proof fn columns_before_monotone(counts: Seq<usize>, a: int, b: int)
    requires
        0 <= a <= b,
    ensures
        columns_before(counts, a) <= columns_before(counts, b),
    decreases b - a,
{
    if a < b {
        columns_before_monotone(counts, a, b - 1);
    }
}

/// The height of group `i`: the height of its first column, zero for a group without
/// columns.
pub open spec fn group_height(
    offsets: Seq<usize>,
    total: nat,
    counts: Seq<usize>,
    i: int,
) -> nat {
    if counts[i] == 0 {
        0
    } else {
        column_height(offsets, total, columns_before(counts, i))
    }
}

/// The heights of all groups.
pub open spec fn group_heights(offsets: Seq<usize>, total: nat, counts: Seq<usize>) -> Seq<nat> {
    Seq::new(counts.len(), |i: int| group_height(offsets, total, counts, i))
}

/// The numbers of a list.
pub open spec fn nats(s: Seq<usize>) -> Seq<nat> {
    Seq::new(s.len(), |i: int| s[i] as nat)
}

/// The heights of all groups.
pub fn heights_of_groups(offsets: &Vec<usize>, total: usize, counts: &Vec<usize>) -> (r: Vec<usize>)
    requires
        columns_before(counts@, counts@.len() as int) <= usize::MAX,
    ensures
        nats(r@) == group_heights(offsets@, total as nat, counts@),
        r@.len() == counts@.len(),
{
    let mut r: Vec<usize> = Vec::new();
    let mut col: usize = 0;
    let mut i: usize = 0;
    while i < counts.len()
        invariant
            i <= counts@.len(),
            columns_before(counts@, counts@.len() as int) <= usize::MAX,
            col == columns_before(counts@, i as int),
            r@.len() == i,
            forall|j: int|
                0 <= j < i ==> #[trigger] r@[j] == group_height(
                    offsets@,
                    total as nat,
                    counts@,
                    j,
                ),
        decreases counts@.len() - i,
    {
        proof {
            columns_before_monotone(counts@, i + 1, counts@.len() as int);
        }
        let h: usize = if counts[i] == 0 {
            0
        } else {
            height_of_column(offsets, total, col)
        };
        r.push(h);
        col = col + counts[i];
        i = i + 1;
    }
    proof {
        assert(nats(r@) =~= group_heights(offsets@, total as nat, counts@));
    }
    r
}

/// A copy of a list of numbers.
pub fn copy_counts(s: &Vec<usize>) -> (r: Vec<usize>)
    ensures
        r@ == s@,
{
    let mut r: Vec<usize> = Vec::new();
    let mut i: usize = 0;
    while i < s.len()
        invariant
            i <= s@.len(),
            r@ == s@.take(i as int),
        decreases s@.len() - i,
    {
        r.push(s[i]);
        i = i + 1;
        proof {
            assert(s@.take(i as int) =~= s@.take(i - 1).push(s@[i - 1]));
        }
    }
    proof {
        assert(s@.take(i as int) =~= s@);
    }
    r
}

/// The heights and numbers of columns of all groups of a layout.
pub fn jagged_counts_from_packing(packing: &PackingMeta) -> (r: (Vec<usize>, Vec<usize>))
    requires
        columns_before(packing.column_counts@, packing.column_counts@.len() as int) <= usize::MAX,
    ensures
        nats(r.0@) == group_heights(
            packing.offsets@,
            packing.total_values as nat,
            packing.column_counts@,
        ),
        r.0@.len() == r.1@.len(),
        r.1@ == packing.column_counts@,
{
    (
        heights_of_groups(&packing.offsets, packing.total_values, &packing.column_counts),
        copy_counts(&packing.column_counts),
    )
}

/// The numbers of columns of several groups.
pub open spec fn widths_of(infos: Seq<JaggedChipInfo>) -> Seq<usize> {
    Seq::new(infos.len(), |i: int| infos[i].column_count)
}

/// The heights and numbers of columns of all groups of a layout. The heights come from
/// where the columns begin: a group without columns has height zero.
pub fn jagged_counts_from_jagged_packing(packing: &JaggedPacking) -> (r: (Vec<usize>, Vec<usize>))
    requires
        columns_before(widths_of(packing.chip_infos@), packing.chip_infos@.len() as int)
            <= usize::MAX,
    ensures
        nats(r.0@) == group_heights(
            packing.offsets@,
            packing.total_values as nat,
            widths_of(packing.chip_infos@),
        ),
        r.0@.len() == r.1@.len(),
        r.1@ == widths_of(packing.chip_infos@),
{
    let mut counts: Vec<usize> = Vec::new();
    let mut i: usize = 0;
    while i < packing.chip_infos.len()
        invariant
            i <= packing.chip_infos@.len(),
            counts@.len() == i,
            forall|j: int|
                0 <= j < i ==> #[trigger] counts@[j] == packing.chip_infos@[j].column_count,
        decreases packing.chip_infos@.len() - i,
    {
        counts.push(packing.chip_infos[i].column_count);
        i = i + 1;
    }
    proof {
        assert(counts@ =~= widths_of(packing.chip_infos@));
    }
    (heights_of_groups(&packing.offsets, packing.total_values, &counts), counts)
}

/// The coordinates of a point that address a row of a column of the given height: the
/// last ones, or all where the point has fewer.
pub open spec fn row_point(point: Seq<E4>, height: nat) -> Seq<E4> {
    let log = ceil_log2_of(height);
    if point.len() >= log {
        point.skip(point.len() - log)
    } else {
        point
    }
}

/// The coordinates of a point that address a row of a column of the given height.
pub fn row_coords(point: &[Ext], height: usize) -> (r: Vec<Ext>)
    ensures
        evals(r@) == row_point(evals(point@), height as nat),
{
    let log: usize = ceil_log2(height);
    let n: usize = point.len();
    if n >= log {
        let r = copy_exts(vstd::slice::slice_subrange(point, n - log, n));
        proof {
            assert(evals(r@) =~= evals(point@).skip(n - log));
        }
        r
    } else {
        copy_exts(point)
    }
}

/// The widths that a layout names, or the given ones where it names none.
pub open spec fn effective_widths(column_counts: Seq<usize>, chip_widths: Seq<usize>) -> Seq<
    usize,
> {
    if column_counts.len() == 0 {
        chip_widths
    } else {
        column_counts
    }
}

/// The groups of columns of a layout, the coordinates that address their rows, and the
/// whole point. The given widths stand in for a layout that names none.
pub fn build_jagged_verify_inputs(
    packing: &PackingMeta,
    chip_widths: &Vec<usize>,
    eval_point: &[Ext],
) -> (r: (Vec<JaggedChipInfo>, Vec<Vec<Ext>>, Vec<Ext>))
    requires
        ({
            let widths = effective_widths(packing.column_counts@, chip_widths@);
            columns_before(widths, widths.len() as int) <= usize::MAX
        }),
    ensures
        ({
            let widths = effective_widths(packing.column_counts@, chip_widths@);
            let heights = group_heights(packing.offsets@, packing.total_values as nat, widths);
            &&& r.0@.len() == widths.len()
            &&& r.1@.len() == widths.len()
            &&& forall|i: int|
                0 <= i < widths.len() ==> {
                    &&& (#[trigger] r.0@[i]).name@ == "chip"@ + decimal(i as nat)
                    &&& r.0@[i].row_count == heights[i]
                    &&& r.0@[i].column_count == widths[i]
                }
            &&& forall|i: int|
                0 <= i < widths.len() ==> evals((#[trigger] r.1@[i])@) == row_point(
                    evals(eval_point@),
                    heights[i],
                )
            &&& r.2@ == eval_point@
        }),
{
    let widths = if packing.column_counts.len() == 0 {
        copy_counts(chip_widths)
    } else {
        copy_counts(&packing.column_counts)
    };
    let heights = heights_of_groups(&packing.offsets, packing.total_values, &widths);
    let ghost hs = group_heights(packing.offsets@, packing.total_values as nat, widths@);
    let mut infos: Vec<JaggedChipInfo> = Vec::new();
    let mut rows: Vec<Vec<Ext>> = Vec::new();
    let mut i: usize = 0;
    while i < widths.len()
        invariant
            i <= widths@.len(),
            heights@.len() == widths@.len(),
            nats(heights@) == hs,
            infos@.len() == i,
            rows@.len() == i,
            forall|j: int|
                0 <= j < i ==> {
                    &&& (#[trigger] infos@[j]).name@ == "chip"@ + decimal(j as nat)
                    &&& infos@[j].row_count == hs[j]
                    &&& infos@[j].column_count == widths@[j]
                },
            forall|j: int|
                0 <= j < i ==> evals((#[trigger] rows@[j])@) == row_point(
                    evals(eval_point@),
                    hs[j],
                ),
        decreases widths@.len() - i,
    {
        proof {
            assert(nats(heights@)[i as int] == heights@[i as int]);
        }
        let name = join("chip".to_owned(), decimal_string(i).as_str());
        infos.push(JaggedChipInfo { name, row_count: heights[i], column_count: widths[i] });
        rows.push(row_coords(eval_point, heights[i]));
        i = i + 1;
    }
    (infos, rows, copy_exts(eval_point))
}

} // verus!
