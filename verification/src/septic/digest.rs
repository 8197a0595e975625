//! The sum of a chip's lookups between shards, as its trace ends with it.
use vstd::prelude::*;
use crate::air::machine::LookupScope;
use crate::ext::fvals;
use crate::felt::Felt;
use crate::septic::curve::{Point, SepticCurve};
use crate::septic::element::SepticExtension;
use crate::septic::field::S7;

verus! {

/// Seven cells as an element, from cell `at` on.
pub open spec fn element_at(cells: Seq<int>, at: int) -> S7 {
    S7 {
        c0: cells[at],
        c1: cells[at + 1],
        c2: cells[at + 2],
        c3: cells[at + 3],
        c4: cells[at + 4],
        c5: cells[at + 5],
        c6: cells[at + 6],
    }
}

/// The point in the last fourteen cells: the first coordinate, then the second one.
pub open spec fn tail_point(cells: Seq<int>) -> Point {
    Point { x: element_at(cells, cells.len() - 14), y: element_at(cells, cells.len() - 7) }
}

/// The sum of a chip's lookups between shards: the point in the last fourteen cells of its
/// trace. A chip whose lookups stay within the shard, or whose trace is shorter, has the
/// zero sum.
pub open spec fn global_sum(scope: LookupScope, cells: Seq<int>, zero: Point) -> Point {
    if scope == LookupScope::Local || cells.len() < 14 {
        zero
    } else {
        tail_point(cells)
    }
}

fn seven(values: &Vec<Felt>, at: usize) -> (r: SepticExtension<Felt>)
    requires
        at + 7 <= values@.len(),
    ensures
        r@ == element_at(fvals(values@), at as int),
        forall|i: int| 0 <= i < 7 ==> #[trigger] r.0@[i] == values@[at + i],
{
    let n: usize = values.len();
    assert(at + 7 <= n);
    SepticExtension(
        [
            values[at],
            values[at + 1],
            values[at + 2],
            values[at + 3],
            values[at + 4],
            values[at + 5],
            values[at + 6],
        ],
    )
}

/// The sum of a chip's lookups between shards, given the cells of its trace and the zero
/// sum.
pub fn chip_global_sum(scope: LookupScope, values: &Vec<Felt>, zero: SepticCurve<Felt>) -> (r:
    SepticCurve<Felt>)
    ensures
        r@ == global_sum(scope, fvals(values@), zero@),
        scope == LookupScope::Local || values@.len() < 14 ==> r == zero,
        scope == LookupScope::Global && values@.len() >= 14 ==> forall|i: int|
            0 <= i < 7 ==> #[trigger] r.x.0@[i] == values@[values@.len() - 14 + i] && r.y.0@[i]
                == values@[values@.len() - 7 + i],
{
    let n: usize = values.len();
    if scope == LookupScope::Local || n < 14 {
        zero
    } else {
        SepticCurve { x: seven(values, n - 14), y: seven(values, n - 7) }
    }
}

/// The sum of a chip is read cell by cell: coefficient `i` of its first coordinate is cell
/// `i` of the last fourteen of the trace, and coefficient `i` of the second one is cell
/// `7 + i` of them.
pub proof fn sum_is_read_cell_by_cell(cells: Seq<int>, zero: Point, sum: SepticCurve<Felt>, i: int)
    requires
        cells.len() >= 14,
        sum@ == global_sum(LookupScope::Global, cells, zero),
        0 <= i < 7,
    ensures
        sum.x.0@[i]@ == cells[cells.len() - 14 + i],
        sum.y.0@[i]@ == cells[cells.len() - 7 + i],
{
}

/// A point whose coefficients are written at the end of a trace, those of the first
/// coordinate before those of the second, is read back as the sum.
pub proof fn written_sum_is_read_back(
    cells: Seq<int>,
    x: [Felt; 7],
    y: [Felt; 7],
    sum: SepticCurve<Felt>,
    zero: Point,
)
    requires
        sum@ == global_sum(LookupScope::Global, cells + fvals(x@) + fvals(y@), zero),
    ensures
        fvals(sum.x.0@) == fvals(x@),
        fvals(sum.y.0@) == fvals(y@),
{
    let all = cells + fvals(x@) + fvals(y@);
    let n = all.len();
    assert forall|i: int| 0 <= i < 7 implies fvals(sum.x.0@)[i] == fvals(x@)[i]
        && fvals(sum.y.0@)[i] == fvals(y@)[i] by {
        sum_is_read_cell_by_cell(all, zero, sum, i);
        assert(all[n - 14 + i] == fvals(x@)[i]);
        assert(all[n - 7 + i] == fvals(y@)[i]);
    }
    assert(fvals(sum.x.0@) =~= fvals(x@));
    assert(fvals(sum.y.0@) =~= fvals(y@));
}

/// A chip whose lookups stay within the shard has the zero sum, and so has one whose trace is
/// too short to end with a point.
pub proof fn other_chips_have_the_zero_sum(cells: Seq<int>, zero: Point)
    ensures
        global_sum(LookupScope::Local, cells, zero) == zero,
        cells.len() < 14 ==> global_sum(LookupScope::Global, cells, zero) == zero,
{
}

} // verus!
