//! Laying the columns of several commitments end to end.
//!
//! Every commitment covers a whole number of stripes, so between the columns of one and
//! of the next there are committed cells that belong to no column. Columns of zeros,
//! none taller than the row cube, stand for them, at least one for each commitment.
use vstd::prelude::*;
use vstd::arithmetic::power2::{lemma_pow2_pos, pow2};
use crate::arith::pow2_usize;
use crate::ext::{e_zero, epoints, evals, Ext, E4};
use crate::jagged::packing::{copy_counts, monus, nats, row_coords, row_point, JaggedChipInfo};
use crate::multilinear::copy_exts;
use crate::text::{decimal, decimal_string, join};

verus! {

/// One commitment's columns, their claims, and the coordinates that address their rows.
pub struct JaggedOpenRound {
    /// The groups of columns.
    pub chip_infos: Vec<JaggedChipInfo>,
    /// Where each column begins, and where the last one ends.
    pub offsets: Vec<usize>,
    /// The number of cells of the columns.
    pub total_values: usize,
    /// The coordinates that address the rows of each group.
    pub r_row_per_chip: Vec<Vec<Ext>>,
    /// The claims for each group's columns.
    pub claims: Vec<Vec<Ext>>,
    /// The number of committed cells.
    pub area: usize,
}

/// A group of columns: name, height and number of columns.
pub struct InfoVal {
    pub name: Seq<char>,
    pub row_count: nat,
    pub column_count: nat,
}

/// The content of a group of columns.
pub open spec fn info_val(i: JaggedChipInfo) -> InfoVal {
    InfoVal {
        name: i.name@,
        row_count: i.row_count as nat,
        column_count: i.column_count as nat,
    }
}

/// The contents of several groups of columns.
pub open spec fn info_vals(s: Seq<JaggedChipInfo>) -> Seq<InfoVal> {
    Seq::new(s.len(), |i: int| info_val(s[i]))
}

/// Columns laid end to end.
pub struct LayoutVal {
    /// The groups of columns.
    pub infos: Seq<InfoVal>,
    /// Where each column begins.
    pub offsets: Seq<nat>,
    /// The claims for each group's columns.
    pub claims: Seq<Seq<E4>>,
    /// The coordinates that address the rows of each group.
    pub rows: Seq<Seq<E4>>,
    /// The heights of the padding columns, commitment by commitment.
    pub pads: Seq<Seq<nat>>,
    /// The number of cells.
    pub base: nat,
}

/// The name of a padding column that is group `i`.
pub open spec fn pad_name(i: nat) -> Seq<char> {
    ("<stacking-pad:"@ + decimal(i)) + ">"@
}

/// The smaller of two numbers.
pub open spec fn lesser(a: nat, b: nat) -> nat {
    if a < b {
        a
    } else {
        b
    }
}

/// The heights of the padding columns for `pad` cells, none above `cube`.
pub open spec fn pad_heights(pad: nat, cube: nat) -> Seq<nat>
    decreases pad,
{
    if pad <= cube || cube == 0 {
        seq![pad]
    } else {
        seq![cube] + pad_heights((pad - cube) as nat, cube)
    }
}

/// A layout with padding columns of the given heights, the first of which begins at
/// `start`.
pub open spec fn with_pads(l: LayoutVal, heights: Seq<nat>, start: nat, z_row: Seq<E4>) -> LayoutVal
    decreases heights.len(),
{
    if heights.len() == 0 {
        l
    } else {
        let h = heights[0];
        with_pads(
            LayoutVal {
                infos: l.infos.push(
                    InfoVal { name: pad_name(l.infos.len()), row_count: h, column_count: 1 },
                ),
                offsets: l.offsets.push(start),
                claims: l.claims.push(seq![e_zero()]),
                rows: l.rows.push(row_point(z_row, h)),
                ..l
            },
            heights.skip(1),
            start + h,
            z_row,
        )
    }
}

/// The content of a commitment's columns.
pub struct RoundVal {
    pub infos: Seq<InfoVal>,
    pub offsets: Seq<nat>,
    pub total: nat,
    pub claims: Seq<Seq<E4>>,
    pub rows: Seq<Seq<E4>>,
    pub area: nat,
}

impl View for JaggedOpenRound {
    type V = RoundVal;

    open spec fn view(&self) -> RoundVal {
        RoundVal {
            infos: info_vals(self.chip_infos@),
            offsets: nats(self.offsets@),
            total: self.total_values as nat,
            claims: epoints(self.claims@),
            rows: epoints(self.r_row_per_chip@),
            area: self.area as nat,
        }
    }
}

/// The contents of several commitments' columns.
pub open spec fn round_vals(s: Seq<JaggedOpenRound>) -> Seq<RoundVal> {
    Seq::new(s.len(), |i: int| s[i]@)
}

/// The offsets of a commitment's columns without where the last one ends, moved by `base`.
pub open spec fn moved(offsets: Seq<nat>, base: nat) -> Seq<nat> {
    Seq::new(monus(offsets.len(), 1), |i: int| offsets[i] + base)
}

/// A layout with the columns of one more commitment, and its padding columns.
pub open spec fn with_round(l: LayoutVal, r: RoundVal, z_row: Seq<E4>) -> LayoutVal {
    let heights = pad_heights(monus(r.area, r.total), pow2(z_row.len()));
    let joined = LayoutVal {
        infos: l.infos + r.infos,
        offsets: l.offsets + moved(r.offsets, l.base),
        claims: l.claims + r.claims,
        rows: l.rows + r.rows,
        pads: l.pads.push(heights),
        base: l.base,
    };
    let padded = with_pads(joined, heights, l.base + r.total, z_row);
    LayoutVal { base: l.base + r.area, ..padded }
}

/// No columns.
pub open spec fn no_columns() -> LayoutVal {
    LayoutVal {
        infos: Seq::empty(),
        offsets: Seq::empty(),
        claims: Seq::empty(),
        rows: Seq::empty(),
        pads: Seq::empty(),
        base: 0,
    }
}

/// The columns of the first `k` commitments laid end to end.
pub open spec fn layout_of(rounds: Seq<RoundVal>, z_row: Seq<E4>, k: int) -> LayoutVal
    decreases k,
{
    if k <= 0 {
        no_columns()
    } else {
        with_round(layout_of(rounds, z_row, k - 1), rounds[k - 1], z_row)
    }
}

/// Columns laid end to end.
pub struct ColumnLayout {
    /// The groups of columns.
    pub chip_infos: Vec<JaggedChipInfo>,
    /// Where each column begins; in a finished layout, also where the last one ends.
    pub offsets: Vec<usize>,
    /// The claims for each group's columns.
    pub y_per_chip: Vec<Vec<Ext>>,
    /// The coordinates that address the rows of each group.
    pub r_row_per_chip: Vec<Vec<Ext>>,
    /// The heights of the padding columns, commitment by commitment.
    pub padding_heights: Vec<Vec<usize>>,
    /// The number of cells.
    pub total_values: usize,
}

/// The heights of the padding columns, commitment by commitment.
pub open spec fn pads_val(s: Seq<Vec<usize>>) -> Seq<Seq<nat>> {
    Seq::new(s.len(), |i: int| nats(s[i]@))
}

impl View for ColumnLayout {
    type V = LayoutVal;

    open spec fn view(&self) -> LayoutVal {
        LayoutVal {
            infos: info_vals(self.chip_infos@),
            offsets: nats(self.offsets@),
            claims: epoints(self.y_per_chip@),
            rows: epoints(self.r_row_per_chip@),
            pads: pads_val(self.padding_heights@),
            base: self.total_values as nat,
        }
    }
}

/// The heights of the padding columns for `pad` cells.
pub fn heights_of_pads(pad: usize, cube: usize) -> (r: Vec<usize>)
    requires
        cube > 0,
    ensures
        nats(r@) == pad_heights(pad as nat, cube as nat),
{
    let mut r: Vec<usize> = Vec::new();
    let mut left: usize = pad;
    proof {
        assert(nats(r@) + pad_heights(pad as nat, cube as nat) =~= pad_heights(
            pad as nat,
            cube as nat,
        ));
    }
    while left > cube
        invariant
            cube > 0,
            nats(r@) + pad_heights(left as nat, cube as nat) == pad_heights(
                pad as nat,
                cube as nat,
            ),
        decreases left,
    {
        let ghost was = r@;
        r.push(cube);
        proof {
            assert(nats(r@) =~= nats(was).push(cube as nat));
            assert(nats(r@) + pad_heights((left - cube) as nat, cube as nat) =~= nats(was)
                + pad_heights(left as nat, cube as nat));
        }
        left = left - cube;
    }
    let ghost was = r@;
    r.push(left);
    proof {
        assert(nats(r@) =~= nats(was) + pad_heights(left as nat, cube as nat));
    }
    r
}

/// The sum of all numbers.
pub open spec fn total(s: Seq<nat>) -> nat
    decreases s.len(),
{
    if s.len() == 0 {
        0
    } else {
        total(s.drop_last()) + s.last()
    }
}

/// The sum of two lists is the sum of their sums.
pub proof fn total_concat(a: Seq<nat>, b: Seq<nat>)
    ensures
        total(a + b) == total(a) + total(b),
    decreases b.len(),
{
    if b.len() == 0 {
        assert(a + b =~= a);
    } else {
        assert((a + b).drop_last() =~= a + b.drop_last());
        total_concat(a, b.drop_last());
    }
}

/// The padding columns cover the padding cells.
pub proof fn pad_heights_total(pad: nat, cube: nat)
    ensures
        total(pad_heights(pad, cube)) == pad,
        pad_heights(pad, cube).len() > 0,
        cube > 0 ==> forall|i: int|
            0 <= i < pad_heights(pad, cube).len() ==> (#[trigger] pad_heights(pad, cube)[i])
                <= cube,
    decreases pad,
{
    if pad <= cube || cube == 0 {
        assert(seq![pad].drop_last() =~= Seq::<nat>::empty());
        assert(total(Seq::<nat>::empty()) == 0);
    } else {
        pad_heights_total((pad - cube) as nat, cube);
        total_concat(seq![cube], pad_heights((pad - cube) as nat, cube));
        assert(seq![cube].drop_last() =~= Seq::<nat>::empty());
        assert(total(Seq::<nat>::empty()) == 0);
    }
}

/// Appends padding columns.
fn push_pads(l: &mut ColumnLayout, heights: &Vec<usize>, start: usize, z_row: &[Ext])
    requires
        start + total(nats(heights@)) <= usize::MAX,
    ensures
        final(l)@ == with_pads(old(l)@, nats(heights@), start as nat, evals(z_row@)),
        final(l).padding_heights == old(l).padding_heights,
        final(l).total_values == old(l).total_values,
{
    let ghost z = evals(z_row@);
    let ghost hs = nats(heights@);
    let mut at: usize = start;
    let mut i: usize = 0;
    proof {
        assert(hs.skip(0) =~= hs);
    }
    while i < heights.len()
        invariant
            i <= heights@.len(),
            z == evals(z_row@),
            hs == nats(heights@),
            at + total(hs.skip(i as int)) <= usize::MAX,
            with_pads(l@, hs.skip(i as int), at as nat, z) == with_pads(
                old(l)@,
                hs,
                start as nat,
                z,
            ),
            l.padding_heights == old(l).padding_heights,
            l.total_values == old(l).total_values,
        decreases heights@.len() - i,
    {
        let h: usize = heights[i];
        let ghost was = l@;
        let ghost rest = hs.skip(i as int);
        proof {
            assert(rest =~= seq![h as nat] + hs.skip(i + 1));
            total_concat(seq![h as nat], hs.skip(i + 1));
            assert(seq![h as nat].drop_last() =~= Seq::<nat>::empty());
            assert(total(Seq::<nat>::empty()) == 0);
            assert(rest.skip(1) =~= hs.skip(i + 1));
        }
        let name = join(
            join("<stacking-pad:".to_owned(), decimal_string(l.chip_infos.len()).as_str()),
            ">",
        );
        l.offsets.push(at);
        l.chip_infos.push(JaggedChipInfo { name, row_count: h, column_count: 1 });
        let mut zero: Vec<Ext> = Vec::new();
        zero.push(Ext::zero());
        proof {
            assert(evals(zero@) =~= seq![e_zero()]);
        }
        l.y_per_chip.push(zero);
        l.r_row_per_chip.push(row_coords(z_row, h));
        proof {
            assert(l@.infos =~= was.infos.push(
                InfoVal {
                    name: pad_name(was.infos.len()),
                    row_count: h as nat,
                    column_count: 1,
                },
            ));
            assert(l@.offsets =~= was.offsets.push(at as nat));
            assert(l@.claims =~= was.claims.push(seq![e_zero()]));
            assert(l@.rows =~= was.rows.push(row_point(z, h as nat)));
        }
        at = at + h;
        i = i + 1;
    }
    proof {
        assert(hs.skip(i as int) =~= Seq::<nat>::empty());
    }
}

pub fn copy_lists(s: &Vec<Vec<Ext>>) -> (r: Vec<Vec<Ext>>)
    ensures
        epoints(r@) == epoints(s@),
{
    let mut r: Vec<Vec<Ext>> = Vec::new();
    let mut i: usize = 0;
    while i < s.len()
        invariant
            i <= s@.len(),
            r@.len() == i,
            forall|j: int| 0 <= j < i ==> (#[trigger] r@[j])@ == s@[j]@,
        decreases s@.len() - i,
    {
        r.push(copy_exts(s[i].as_slice()));
        i = i + 1;
    }
    proof {
        assert(epoints(r@) =~= epoints(s@));
    }
    r
}

/// A copy of a group of columns.
pub fn copy_info(s: &JaggedChipInfo) -> (r: JaggedChipInfo)
    ensures
        info_val(r) == info_val(*s),
{
    JaggedChipInfo {
        name: s.name.clone(),
        row_count: s.row_count,
        column_count: s.column_count,
    }
}

/// A copy of groups of columns.
pub fn copy_infos(s: &Vec<JaggedChipInfo>) -> (r: Vec<JaggedChipInfo>)
    ensures
        info_vals(r@) == info_vals(s@),
{
    let mut r: Vec<JaggedChipInfo> = Vec::new();
    let mut i: usize = 0;
    while i < s.len()
        invariant
            i <= s@.len(),
            r@.len() == i,
            forall|j: int| 0 <= j < i ==> info_val(#[trigger] r@[j]) == info_val(s@[j]),
        decreases s@.len() - i,
    {
        r.push(copy_info(&s[i]));
        i = i + 1;
    }
    proof {
        assert(info_vals(r@) =~= info_vals(s@));
    }
    r
}

/// Whether a commitment's cells do not exceed machine numbers when moved by `base`.
pub open spec fn round_fits(r: RoundVal, base: nat) -> bool {
    &&& base + r.area <= usize::MAX
    &&& base + r.total + monus(r.area, r.total) <= usize::MAX
    &&& forall|i: int| 0 <= i < r.offsets.len() ==> base + (#[trigger] r.offsets[i]) <= usize::MAX
}

/// Appends the columns of one more commitment, and its padding columns.
fn push_round(l: &mut ColumnLayout, r: &JaggedOpenRound, z_row: &[Ext])
    requires
        round_fits(r@, old(l)@.base),
        pow2(z_row@.len()) <= usize::MAX,
    ensures
        final(l)@ == with_round(old(l)@, r@, evals(z_row@)),
{
    let ghost z = evals(z_row@);
    let ghost start = l@;
    proof {
        assert(z.len() == z_row@.len());
        lemma_pow2_pos(z.len());
    }
    let base: usize = l.total_values;
    let pad: usize = if r.area < r.total_values {
        0
    } else {
        r.area - r.total_values
    };
    let cube: usize = pow2_usize(z_row.len());
    let heights = heights_of_pads(pad, cube);
    let mut infos = copy_infos(&r.chip_infos);
    let ghost new_infos = infos@;
    l.chip_infos.append(&mut infos);
    proof {
        assert(l@.infos =~= start.infos + info_vals(new_infos));
    }
    let n: usize = r.offsets.len();
    let ghost joined = start.offsets + moved(r@.offsets, base as nat);
    let mut i: usize = 0;
    proof {
        assert(l@.offsets =~= joined.take(start.offsets.len() as int));
    }
    while n > 0 && i < n - 1
        invariant
            i <= n,
            n > 0 ==> i <= n - 1,
            n == r.offsets@.len(),
            start.offsets.len() + i == l.offsets@.len(),
            round_fits(r@, base as nat),
            joined == start.offsets + moved(r@.offsets, base as nat),
            nats(l.offsets@) == joined.take(start.offsets.len() + i),
            info_vals(l.chip_infos@) == start.infos + info_vals(new_infos),
            epoints(l.y_per_chip@) == start.claims,
            epoints(l.r_row_per_chip@) == start.rows,
            pads_val(l.padding_heights@) == start.pads,
            l.total_values == base,
        decreases n - i,
    {
        proof {
            assert(r@.offsets[i as int] == r.offsets@[i as int]);
            assert(base + r@.offsets[i as int] <= usize::MAX);
        }
        let ghost was = l.offsets@;
        l.offsets.push(r.offsets[i] + base);
        proof {
            assert(joined[start.offsets.len() + i] == r.offsets@[i as int] + base);
            assert(nats(l.offsets@) =~= joined.take(start.offsets.len() + i + 1));
        }
        i = i + 1;
    }
    proof {
        assert(joined.take(start.offsets.len() + i) =~= joined);
    }
    let mut claims = copy_lists(&r.claims);
    let ghost new_claims = claims@;
    l.y_per_chip.append(&mut claims);
    let mut rows = copy_lists(&r.r_row_per_chip);
    let ghost new_rows = rows@;
    l.r_row_per_chip.append(&mut rows);
    l.padding_heights.push(copy_counts(&heights));
    proof {
        assert(l@.claims =~= start.claims + epoints(new_claims));
        assert(l@.rows =~= start.rows + epoints(new_rows));
        assert(l@.pads =~= start.pads.push(nats(heights@)));
        pad_heights_total(pad as nat, cube as nat);
    }
    push_pads(l, &heights, base + r.total_values, z_row);
    l.total_values = base + r.area;
}

/// Whether the cells of the first `k` commitments do not exceed machine numbers.
pub open spec fn rounds_fit(rounds: Seq<RoundVal>, z_row: Seq<E4>) -> bool {
    forall|k: int|
        0 <= k < rounds.len() ==> round_fits(
            #[trigger] rounds[k],
            layout_of(rounds, z_row, k).base,
        )
}

/// Lays the columns of all commitments end to end, in order, each followed by its padding
/// columns. The offsets end with the number of cells.
pub fn concatenate_rounds(rounds: &Vec<JaggedOpenRound>, z_row: &[Ext]) -> (r: ColumnLayout)
    requires
        rounds@.len() > 0,
        pow2(z_row@.len()) <= usize::MAX,
        rounds_fit(round_vals(rounds@), evals(z_row@)),
    ensures
        ({
            let l = layout_of(round_vals(rounds@), evals(z_row@), rounds@.len() as int);
            r@ == LayoutVal { offsets: l.offsets.push(l.base), ..l }
        }),
{
    let ghost rv = round_vals(rounds@);
    let ghost z = evals(z_row@);
    let mut l = ColumnLayout {
        chip_infos: Vec::new(),
        offsets: Vec::new(),
        y_per_chip: Vec::new(),
        r_row_per_chip: Vec::new(),
        padding_heights: Vec::new(),
        total_values: 0,
    };
    proof {
        let e = no_columns();
        assert(l@.infos =~= e.infos);
        assert(l@.offsets =~= e.offsets);
        assert(l@.claims =~= e.claims);
        assert(l@.rows =~= e.rows);
        assert(l@.pads =~= e.pads);
    }
    let mut k: usize = 0;
    while k < rounds.len()
        invariant
            k <= rounds@.len(),
            rv == round_vals(rounds@),
            z == evals(z_row@),
            pow2(z_row@.len()) <= usize::MAX,
            rounds_fit(rv, z),
            l@ == layout_of(rv, z, k as int),
        decreases rounds@.len() - k,
    {
        proof {
            assert(rv[k as int] == rounds@[k as int]@);
            assert(round_fits(rv[k as int], layout_of(rv, z, k as int).base));
        }
        push_round(&mut l, &rounds[k], z_row);
        k = k + 1;
    }
    let ghost was = l@;
    let end: usize = l.total_values;
    l.offsets.push(end);
    proof {
        assert(l@.offsets =~= was.offsets.push(was.base));
    }
    l
}

/// The heights of all columns, group by group.
pub open spec fn column_heights(infos: Seq<InfoVal>) -> Seq<nat>
    decreases infos.len(),
{
    if infos.len() == 0 {
        Seq::empty()
    } else {
        column_heights(infos.drop_last()) + Seq::new(
            infos.last().column_count,
            |i: int| infos.last().row_count,
        )
    }
}

/// Whether every column begins where the one before it ends, the first one at zero.
pub open spec fn end_to_end(offsets: Seq<nat>, heights: Seq<nat>) -> bool {
    &&& offsets.len() == heights.len()
    &&& forall|j: int|
        0 <= j < offsets.len() ==> (#[trigger] offsets[j]) == total(heights.take(j))
}

/// Whether a commitment's columns lie end to end, end at its number of cells, and are
/// covered by its committed cells.
pub open spec fn round_packed(r: RoundVal) -> bool {
    let heights = column_heights(r.infos);
    &&& r.offsets.len() == heights.len() + 1
    &&& end_to_end(r.offsets.drop_last(), heights)
    &&& total(heights) == r.total
    &&& r.total <= r.area
}

/// The columns of two lists of groups are those of the one, then those of the other.
pub proof fn column_heights_concat(a: Seq<InfoVal>, b: Seq<InfoVal>)
    ensures
        column_heights(a + b) == column_heights(a) + column_heights(b),
    decreases b.len(),
{
    if b.len() == 0 {
        assert(a + b =~= a);
        assert(column_heights(a) + column_heights(b) =~= column_heights(a));
    } else {
        assert((a + b).drop_last() =~= a + b.drop_last());
        column_heights_concat(a, b.drop_last());
        assert((a + b).last() == b.last());
        assert(column_heights(a + b) =~= column_heights(a) + column_heights(b));
    }
}

proof fn end_to_end_concat(oa: Seq<nat>, ha: Seq<nat>, ob: Seq<nat>, hb: Seq<nat>)
    requires
        end_to_end(oa, ha),
        end_to_end(ob, hb),
    ensures
        end_to_end(oa + Seq::new(ob.len(), |i: int| ob[i] + total(ha)), ha + hb),
{
    let o = oa + Seq::new(ob.len(), |i: int| ob[i] + total(ha));
    let h = ha + hb;
    assert forall|j: int| 0 <= j < o.len() implies (#[trigger] o[j]) == total(h.take(j)) by {
        if j < oa.len() {
            assert(h.take(j) =~= ha.take(j));
            assert(oa[j] == total(ha.take(j)));
        } else {
            let k = j - oa.len();
            assert(h.take(j) =~= ha + hb.take(k));
            total_concat(ha, hb.take(k));
            assert(ob[k] == total(hb.take(k)));
        }
    }
}

proof fn pads_end_to_end(l: LayoutVal, heights: Seq<nat>, start: nat, z_row: Seq<E4>)
    requires
        end_to_end(l.offsets, column_heights(l.infos)),
        start == total(column_heights(l.infos)),
    ensures
        ({
            let r = with_pads(l, heights, start, z_row);
            &&& end_to_end(r.offsets, column_heights(r.infos))
            &&& total(column_heights(r.infos)) == start + total(heights)
        }),
    decreases heights.len(),
{
    if heights.len() > 0 {
        let h = heights[0];
        let info = InfoVal { name: pad_name(l.infos.len()), row_count: h, column_count: 1 };
        let next = LayoutVal {
            infos: l.infos.push(info),
            offsets: l.offsets.push(start),
            claims: l.claims.push(seq![e_zero()]),
            rows: l.rows.push(row_point(z_row, h)),
            ..l
        };
        assert(next.infos.drop_last() =~= l.infos);
        assert(column_heights(next.infos) =~= column_heights(l.infos) + seq![h]);
        let ha = column_heights(l.infos);
        assert(seq![h].take(0) =~= Seq::<nat>::empty());
        assert(total(Seq::<nat>::empty()) == 0);
        assert(end_to_end(seq![0nat], seq![h]));
        end_to_end_concat(l.offsets, ha, seq![0nat], seq![h]);
        assert(next.offsets =~= l.offsets + Seq::new(
            seq![0nat].len(),
            |i: int| seq![0nat][i] + total(ha),
        ));
        total_concat(ha, seq![h]);
        assert(seq![h].drop_last() =~= Seq::<nat>::empty());
        pads_end_to_end(next, heights.skip(1), start + h, z_row);
        assert(heights =~= seq![h] + heights.skip(1));
        total_concat(seq![h], heights.skip(1));
    }
}

/// The columns of all commitments, padding columns included, lie end to end and cover
/// every committed cell, where the columns of each commitment do.
pub proof fn layout_covers_all_cells(rounds: Seq<RoundVal>, z_row: Seq<E4>, k: int)
    requires
        0 <= k <= rounds.len(),
        forall|i: int| 0 <= i < rounds.len() ==> round_packed(#[trigger] rounds[i]),
    ensures
        ({
            let l = layout_of(rounds, z_row, k);
            &&& end_to_end(l.offsets, column_heights(l.infos))
            &&& l.base == total(column_heights(l.infos))
        }),
    decreases k,
{
    if k > 0 {
        layout_covers_all_cells(rounds, z_row, k - 1);
        let l = layout_of(rounds, z_row, k - 1);
        let r = rounds[k - 1];
        assert(round_packed(r));
        let heights = pad_heights(monus(r.area, r.total), pow2(z_row.len()));
        let joined = LayoutVal {
            infos: l.infos + r.infos,
            offsets: l.offsets + moved(r.offsets, l.base),
            claims: l.claims + r.claims,
            rows: l.rows + r.rows,
            pads: l.pads.push(heights),
            base: l.base,
        };
        let ha = column_heights(l.infos);
        let hb = column_heights(r.infos);
        let ob = r.offsets.drop_last();
        column_heights_concat(l.infos, r.infos);
        end_to_end_concat(l.offsets, ha, ob, hb);
        assert(moved(r.offsets, l.base) =~= Seq::new(ob.len(), |i: int| ob[i] + total(ha)));
        total_concat(ha, hb);
        pads_end_to_end(joined, heights, l.base + r.total, z_row);
        pad_heights_total(monus(r.area, r.total), pow2(z_row.len()));
    } else {
        assert(column_heights(Seq::<InfoVal>::empty()) =~= Seq::<nat>::empty());
        assert(total(Seq::<nat>::empty()) == 0);
    }
}

/// The padding columns are full but the last one, which holds what is left.
pub proof fn pads_are_full_but_the_last(pad: nat, cube: nat, i: int)
    requires
        cube > 0,
        0 <= i < pad_heights(pad, cube).len(),
    ensures
        ({
            let hs = pad_heights(pad, cube);
            &&& i < hs.len() - 1 ==> hs[i] == cube
            &&& i == hs.len() - 1 ==> hs[i] <= cube && hs[i] + i * cube == pad
            &&& i == hs.len() - 1 && pad > 0 ==> hs[i] > 0
        }),
    decreases pad,
{
    if pad > cube {
        let rest = pad_heights((pad - cube) as nat, cube);
        if i > 0 {
            pads_are_full_but_the_last((pad - cube) as nat, cube, i - 1);
            assert((i - 1) * cube + cube == i * cube) by (nonlinear_arith);
        } else {
            pad_count(pad, cube);
            pad_count((pad - cube) as nat, cube);
        }
    } else {
        assert(0 * cube == 0);
    }
}

proof fn pad_count(pad: nat, cube: nat)
    ensures
        pad_heights(pad, cube).len() > 0,
{
}

} // verus!
