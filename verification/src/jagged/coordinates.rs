//! Which coordinates of a point address what.
use vstd::prelude::*;
use vstd::arithmetic::power2::pow2;
use crate::arith::{ceil_log2_is_least, ceil_log2_of};
use crate::ext::E4;
use crate::jagged::opening::{column_vars, open_dim, stripes_of};
use crate::jagged::packing::{columns_before, group_height, row_point};

verus! {

/// The coordinates that address a row are the last ones of the point, just as many as it takes
/// to address the rows of a column of the given height.
pub proof fn row_coordinates_are_the_last(point: Seq<E4>, height: nat)
    requires
        height <= pow2(point.len()),
    ensures
        ({
            let r = row_point(point, height);
            &&& height <= pow2(r.len())
            &&& r.len() == 0 || pow2((r.len() - 1) as nat) < height
            &&& r.len() <= point.len()
            &&& forall|i: int|
                0 <= i < r.len() ==> #[trigger] r[i] == point[point.len() - r.len() + i]
        }),
{
    ceil_log2_is_least(height);
    let k = ceil_log2_of(height);
    if k > point.len() {
        crate::arith::pow2_le(point.len(), (k - 1) as nat);
    }
}

/// The number of stripes of several areas.
pub open spec fn stripes_counted(areas: Seq<nat>, height: nat, k: int) -> int
    decreases k,
{
    if k <= 0 {
        0
    } else {
        stripes_counted(areas, height, k - 1) + areas[k - 1] as int / height as int
    }
}

proof fn stripes_agree(areas: Seq<nat>, lsh: nat)
    ensures
        stripes_of(areas, lsh) == stripes_counted(areas, pow2(lsh), areas.len() as int),
    decreases areas.len(),
{
    if areas.len() > 0 {
        stripes_agree(areas.drop_last(), lsh);
        stripes_prefix(areas.drop_last(), areas, pow2(lsh), areas.len() - 1);
        vstd::arithmetic::power2::lemma_pow2_pos(lsh);
    }
}

proof fn stripes_prefix(a: Seq<nat>, b: Seq<nat>, height: nat, k: int)
    requires
        0 <= k <= a.len(),
        k <= b.len(),
        forall|i: int| 0 <= i < k ==> a[i] == #[trigger] b[i],
    ensures
        stripes_counted(a, height, k) == stripes_counted(b, height, k),
    decreases k,
{
    if k > 0 {
        stripes_prefix(a, b, height, k - 1);
        assert(a[k - 1] == b[k - 1]);
    }
}

/// An opening of several commitments takes a coordinate for each variable of a stripe, and just
/// as many more as it takes to address the whole stripes of all of them.
pub proof fn opening_addresses_every_stripe(areas: Seq<nat>, lsh: nat)
    ensures
        ({
            let n = stripes_counted(areas, pow2(lsh), areas.len() as int);
            let more = open_dim(areas, lsh) - lsh;
            &&& 0 <= more
            &&& n <= pow2(more as nat)
            &&& more == 0 || pow2((more - 1) as nat) < n
        }),
{
    stripes_agree(areas, lsh);
    ceil_log2_is_least(stripes_of(areas, lsh));
}

/// The column point has just as many coordinates as it takes to address the columns of a
/// layout, which has one offset more than it has columns.
pub proof fn column_point_addresses_every_column(offsets: nat)
    requires
        offsets > 0,
    ensures
        ({
            let k = column_vars(offsets);
            &&& offsets - 1 <= pow2(k)
            &&& k == 0 || pow2((k - 1) as nat) < offsets - 1
        }),
{
    ceil_log2_is_least((offsets - 1) as nat);
}

/// Where the offsets of a layout count up the heights of its columns, the height read off for a
/// group is that of its first column.
pub proof fn group_height_is_read_off(
    offsets: Seq<usize>,
    total: nat,
    counts: Seq<usize>,
    heights: Seq<nat>,
    i: int,
)
    requires
        0 <= i < counts.len(),
        counts[i] > 0,
        columns_before(counts, i) < heights.len(),
        offsets.len() == heights.len() + 1,
        offsets[heights.len() as int] == total,
        forall|c: int|
            0 <= c < heights.len() ==> (#[trigger] offsets[c]) + heights[c] == offsets[c + 1],
    ensures
        group_height(offsets, total, counts, i) == heights[columns_before(counts, i) as int],
{
    let c = columns_before(counts, i) as int;
    assert(offsets[c] + heights[c] == offsets[c + 1]);
}

} // verus!
