//! Tying the layout of a commitment to the commitment: the digest that the transcript
//! absorbs compresses the root with a hash of the heights and numbers of columns.
use vstd::prelude::*;
use vstd::arithmetic::div_mod::lemma_small_mod;
use crate::ext::fvals;
use crate::felt::{order, reduce, Felt, ORDER};
use crate::jagged::packing::{columns_before, group_heights, jagged_counts_from_jagged_packing,
    jagged_counts_from_packing, nats, widths_of, JaggedPacking, PackingMeta};
use crate::merkle::{compress_digests, hash_felts, poseidon2_compress, poseidon2_hash, Digest};
use crate::shard::error::{jagged_error, BasefoldVerifyError, ShardRefusal};

verus! {

/// The field elements that describe a layout: the number of groups, the heights, and the
/// numbers of columns.
pub open spec fn geometry_felts(row_counts: Seq<nat>, column_counts: Seq<nat>) -> Seq<int> {
    seq![reduce(column_counts.len() as int)] + Seq::new(
        row_counts.len(),
        |i: int| reduce(row_counts[i] as int),
    ) + Seq::new(column_counts.len(), |i: int| reduce(column_counts[i] as int))
}

/// The digest of a root bound to a layout.
pub open spec fn bound_digest(
    raw: Seq<int>,
    row_counts: Seq<nat>,
    column_counts: Seq<nat>,
) -> Seq<int> {
    poseidon2_compress(raw, poseidon2_hash(geometry_felts(row_counts, column_counts)))
}

fn push_counts(v: &mut Vec<Felt>, counts: &[usize])
    ensures
        fvals(final(v)@) == fvals(old(v)@) + Seq::new(
            counts@.len(),
            |i: int| reduce(counts@[i] as int),
        ),
{
    let ghost start = v@;
    let ghost all = Seq::new(counts@.len(), |i: int| reduce(counts@[i] as int));
    let mut i: usize = 0;
    proof {
        assert(fvals(start) + all.take(0) =~= fvals(start));
    }
    while i < counts.len()
        invariant
            i <= counts@.len(),
            all == Seq::new(counts@.len(), |i: int| reduce(counts@[i] as int)),
            fvals(v@) == fvals(start) + all.take(i as int),
        decreases counts@.len() - i,
    {
        let ghost was = v@;
        v.push(Felt::from_usize(counts[i]));
        proof {
            assert(all.take(i + 1) =~= all.take(i as int).push(all[i as int]));
            assert(fvals(v@) =~= fvals(was).push(all[i as int]));
            assert(fvals(v@) =~= fvals(start) + all.take(i + 1));
        }
        i = i + 1;
    }
    proof {
        assert(all.take(i as int) =~= all);
    }
}

/// The hash of a layout: of the number of groups, the heights, and the numbers of columns.
pub fn jagged_geometry_hash(row_counts: &[usize], column_counts: &[usize]) -> (r: Digest)
    ensures
        fvals(r@) == poseidon2_hash(geometry_felts(nats(row_counts@), nats(column_counts@))),
{
    let mut v: Vec<Felt> = Vec::new();
    v.push(Felt::from_usize(column_counts.len()));
    push_counts(&mut v, row_counts);
    push_counts(&mut v, column_counts);
    proof {
        assert(fvals(v@) =~= geometry_felts(nats(row_counts@), nats(column_counts@)));
    }
    hash_felts(&v)
}

/// The digest of a root bound to a layout.
pub fn jagged_hash_bind_modified(
    raw_root: Digest,
    row_counts: &[usize],
    column_counts: &[usize],
) -> (r: Digest)
    ensures
        fvals(r@) == bound_digest(fvals(raw_root@), nats(row_counts@), nats(column_counts@)),
{
    let hash = jagged_geometry_hash(row_counts, column_counts);
    compress_digests(&raw_root, &hash)
}

/// The digest of a root bound to the layout that a proof carries.
pub open spec fn packing_digest(raw: Seq<int>, packing: PackingMeta) -> Seq<int> {
    bound_digest(
        raw,
        group_heights(packing.offsets@, packing.total_values as nat, packing.column_counts@),
        nats(packing.column_counts@),
    )
}

/// The digest of a root bound to the layout that a proof carries.
pub fn jagged_hash_bind_from_packing(raw_root: Digest, packing: &PackingMeta) -> (r: Digest)
    requires
        columns_before(packing.column_counts@, packing.column_counts@.len() as int) <= usize::MAX,
    ensures
        fvals(r@) == packing_digest(fvals(raw_root@), *packing),
{
    let (rows, cols) = jagged_counts_from_packing(packing);
    jagged_hash_bind_modified(raw_root, rows.as_slice(), cols.as_slice())
}

/// The digest of a root bound to the layout that a prover holds.
pub fn jagged_hash_bind_from_jagged_packing(raw_root: Digest, packing: &JaggedPacking) -> (r:
    Digest)
    requires
        columns_before(widths_of(packing.chip_infos@), packing.chip_infos@.len() as int)
            <= usize::MAX,
    ensures
        fvals(r@) == bound_digest(
            fvals(raw_root@),
            group_heights(
                packing.offsets@,
                packing.total_values as nat,
                widths_of(packing.chip_infos@),
            ),
            nats(widths_of(packing.chip_infos@)),
        ),
{
    let (rows, cols) = jagged_counts_from_jagged_packing(packing);
    jagged_hash_bind_modified(raw_root, rows.as_slice(), cols.as_slice())
}

/// Whether two digests are equal.
pub fn same_digest(a: &Digest, b: &Digest) -> (r: bool)
    ensures
        r == (fvals(a@) == fvals(b@)),
{
    let mut i: usize = 0;
    while i < 8
        invariant
            i <= 8,
            forall|j: int| 0 <= j < i ==> (#[trigger] a@[j])@ == b@[j]@,
        decreases 8 - i,
    {
        if !a[i].same(&b[i]) {
            proof {
                assert(fvals(a@)[i as int] != fvals(b@)[i as int]);
            }
            return false;
        }
        i = i + 1;
    }
    proof {
        assert(fvals(a@) =~= fvals(b@));
    }
    true
}

/// Whether a digest is that of a root bound to a layout.
pub fn jagged_hash_bind_verify(raw_root: Digest, modified: Digest, packing: &PackingMeta) -> (r:
    bool)
    requires
        columns_before(packing.column_counts@, packing.column_counts@.len() as int) <= usize::MAX,
    ensures
        r == (fvals(modified@) == packing_digest(fvals(raw_root@), *packing)),
{
    let recomputed = jagged_hash_bind_from_packing(raw_root, packing);
    same_digest(&recomputed, &modified)
}

/// The digest does not depend on whether the prover or the verifier derives it: a prover's
/// layout and the one that a proof carries give the same digest where they have the same
/// offsets, cells and numbers of columns.
pub proof fn bound_digest_agrees(raw: Seq<int>, meta: PackingMeta, full: JaggedPacking)
    requires
        meta.offsets@ == full.offsets@,
        meta.total_values == full.total_values,
        meta.column_counts@ == widths_of(full.chip_infos@),
    ensures
        packing_digest(raw, meta) == bound_digest(
            raw,
            group_heights(
                full.offsets@,
                full.total_values as nat,
                widths_of(full.chip_infos@),
            ),
            nats(widths_of(full.chip_infos@)),
        ),
{
}

/// The number of cells of the first `k` groups.
pub open spec fn area_of(rows: Seq<nat>, cols: Seq<nat>, k: int) -> nat
    decreases k,
{
    if k <= 0 {
        0
    } else {
        area_of(rows, cols, k - 1) + rows[k - 1] * cols[k - 1]
    }
}

proof fn area_monotone(rows: Seq<nat>, cols: Seq<nat>, a: int, b: int)
    requires
        0 <= a <= b,
    ensures
        area_of(rows, cols, a) <= area_of(rows, cols, b),
    decreases b - a,
{
    if a < b {
        area_monotone(rows, cols, a, b - 1);
    }
}

/// Whether some count is not below the field's order.
pub open spec fn overflows(counts: Seq<nat>) -> bool {
    exists|i: int| 0 <= i < counts.len() && (#[trigger] counts[i]) >= 0x7f000001
}

/// Why a layout is refused against the digest that was absorbed, if it is: a count that
/// is no field element, a number of cells out of bounds, then the digest.
pub open spec fn bind_refusal(
    raw: Seq<int>,
    observed: Seq<int>,
    rows: Seq<nat>,
    cols: Seq<nat>,
) -> Option<Seq<char>> {
    let n = if rows.len() < cols.len() {
        rows.len()
    } else {
        cols.len()
    };
    let area = area_of(rows, cols, n as int);
    if overflows(rows) || overflows(cols) {
        Some("jagged hash-bind: count >= F::ORDER (BaseFieldOverflow)"@)
    } else if area == 0 || area >= 0x40000000 {
        Some("jagged hash-bind: area out of bounds (0 < area < 2^30) (AreaOutOfBounds)"@)
    } else if bound_digest(raw, rows, cols) != observed {
        Some(
            "jagged hash-bind mismatch: recomputed compress([raw_root, hash(counts)]) != observed main_commitment (IncorrectTableSizes)"@,
        )
    } else {
        None
    }
}

/// The sum of the products of heights and numbers of columns.
pub open spec fn cells_of(rows: Seq<nat>, cols: Seq<nat>) -> int {
    Seq::new(
        if rows.len() < cols.len() {
            rows.len()
        } else {
            cols.len()
        },
        |i: int| (rows[i] * cols[i]) as int,
    ).fold_left(0int, |a: int, x: int| a + x)
}

proof fn area_is_sum(rows: Seq<nat>, cols: Seq<nat>, k: nat)
    ensures
        area_of(rows, cols, k as int) == Seq::new(k, |i: int| (rows[i] * cols[i]) as int).fold_left(
            0int,
            |a: int, x: int| a + x,
        ),
    decreases k,
{
    let f = |a: int, x: int| a + x;
    let all = Seq::new(k, |i: int| (rows[i] * cols[i]) as int);
    if k > 0 {
        area_is_sum(rows, cols, (k - 1) as nat);
        assert(all.drop_last() =~= Seq::new((k - 1) as nat, |i: int| (rows[i] * cols[i]) as int));
    }
}

/// A layout is accepted exactly where every count is below the field's order, there are cells
/// but fewer than `2^30`, and the observed digest compresses the root with the hash of the
/// number of groups, the heights and the numbers of columns, in this order.
pub proof fn bound_layout_is_accepted(
    raw: Seq<int>,
    observed: Seq<int>,
    rows: Seq<nat>,
    cols: Seq<nat>,
)
    requires
        forall|i: int| 0 <= i < rows.len() ==> (#[trigger] rows[i]) <= usize::MAX,
        forall|i: int| 0 <= i < cols.len() ==> (#[trigger] cols[i]) <= usize::MAX,
        cols.len() < order(),
    ensures
        (bind_refusal(raw, observed, rows, cols) is None) == ({
            let list = seq![cols.len() as int] + Seq::new(rows.len(), |i: int| rows[i] as int)
                + Seq::new(cols.len(), |i: int| cols[i] as int);
            &&& forall|i: int| 0 <= i < rows.len() ==> (#[trigger] rows[i]) < order()
            &&& forall|i: int| 0 <= i < cols.len() ==> (#[trigger] cols[i]) < order()
            &&& 0 < cells_of(rows, cols) < 1073741824
            &&& observed == poseidon2_compress(raw, poseidon2_hash(list))
        }),
{
    let n = if rows.len() < cols.len() {
        rows.len()
    } else {
        cols.len()
    };
    area_is_sum(rows, cols, n);
    let list = seq![cols.len() as int] + Seq::new(rows.len(), |i: int| rows[i] as int) + Seq::new(
        cols.len(),
        |i: int| cols[i] as int,
    );
    if !overflows(rows) && !overflows(cols) {
        lemma_small_mod(cols.len(), order() as nat);
        let felts = geometry_felts(rows, cols);
        assert forall|i: int| 0 <= i < rows.len() implies reduce(#[trigger] rows[i] as int)
            == rows[i] by {
            lemma_small_mod(rows[i], order() as nat);
        }
        assert forall|i: int| 0 <= i < cols.len() implies reduce(#[trigger] cols[i] as int)
            == cols[i] by {
            lemma_small_mod(cols[i], order() as nat);
        }
        assert forall|i: int| 0 <= i < list.len() implies felts[i] == list[i] by {
            if 0 < i <= rows.len() {
                assert(rows[i - 1] >= 0);
            } else if i > rows.len() {
                assert(cols[i - 1 - rows.len()] >= 0);
            }
        }
        assert(felts =~= list);
    }
}

/// What is hashed of a layout tells the layout: two layouts of one height per group, whose
/// counts are below the field's order, give the same field elements only where they are the
/// same.
pub proof fn hashed_layout_tells_the_counts(
    rows: Seq<nat>,
    cols: Seq<nat>,
    other_rows: Seq<nat>,
    other_cols: Seq<nat>,
)
    requires
        rows.len() == cols.len(),
        other_rows.len() == other_cols.len(),
        !overflows(rows),
        !overflows(cols),
        !overflows(other_rows),
        !overflows(other_cols),
        geometry_felts(rows, cols) == geometry_felts(other_rows, other_cols),
    ensures
        rows == other_rows,
        cols == other_cols,
{
    let a = geometry_felts(rows, cols);
    let b = geometry_felts(other_rows, other_cols);
    let n = rows.len();
    assert(a.len() == 1 + 2 * n);
    assert(b.len() == 1 + 2 * other_rows.len());
    assert forall|i: int| 0 <= i < n implies rows[i] == other_rows[i] && cols[i]
        == other_cols[i] by {
        assert(a[1 + i] == b[1 + i]);
        assert(a[1 + n + i] == b[1 + n + i]);
        assert(rows[i] < order() && cols[i] < order());
        assert(other_rows[i] < order() && other_cols[i] < order());
        lemma_small_mod(rows[i], order() as nat);
        lemma_small_mod(cols[i], order() as nat);
        lemma_small_mod(other_rows[i], order() as nat);
        lemma_small_mod(other_cols[i], order() as nat);
    }
    assert(rows =~= other_rows);
    assert(cols =~= other_cols);
}

fn any_overflow(counts: &Vec<usize>) -> (r: bool)
    ensures
        r == overflows(nats(counts@)),
{
    let mut i: usize = 0;
    while i < counts.len()
        invariant
            i <= counts@.len(),
            forall|j: int| 0 <= j < i ==> (#[trigger] counts@[j]) < 0x7f000001,
        decreases counts@.len() - i,
    {
        if counts[i] >= 0x7f000001 {
            proof {
                assert(nats(counts@)[i as int] >= 0x7f000001);
            }
            return true;
        }
        i = i + 1;
    }
    false
}

/// Checks a layout against the digest that was absorbed.
pub fn check_hash_bind(
    raw_root: Digest,
    observed: &Digest,
    rows: &Vec<usize>,
    cols: &Vec<usize>,
) -> (r: Result<(), BasefoldVerifyError>)
    ensures
        ({
            let why = bind_refusal(
                fvals(raw_root@),
                fvals(observed@),
                nats(rows@),
                nats(cols@),
            );
            match r {
                Ok(_) => why is None,
                Err(e) => why is Some && e@ == ShardRefusal::JaggedPcs(why->0),
            }
        }),
{
    if any_overflow(rows) || any_overflow(cols) {
        return Err(jagged_error("jagged hash-bind: count >= F::ORDER (BaseFieldOverflow)"));
    }
    let n: usize = if rows.len() < cols.len() {
        rows.len()
    } else {
        cols.len()
    };
    let mut area: u64 = 0;
    let mut i: usize = 0;
    while i < n && area < 0x40000000
        invariant
            i <= n,
            n <= rows@.len(),
            n <= cols@.len(),
            !overflows(nats(rows@)),
            !overflows(nats(cols@)),
            area == area_of(nats(rows@), nats(cols@), i as int),
            area < 0x8000000000000000,
        decreases n - i,
    {
        let a: u64 = rows[i] as u64;
        let b: u64 = cols[i] as u64;
        proof {
            assert(nats(rows@)[i as int] < 0x7f000001);
            assert(nats(cols@)[i as int] < 0x7f000001);
            assert(a * b <= 0x7f000001 * 0x7f000001) by (nonlinear_arith)
                requires
                    a < 0x7f000001,
                    b < 0x7f000001,
            ;
        }
        area = area + a * b;
        i = i + 1;
    }
    proof {
        area_monotone(nats(rows@), nats(cols@), i as int, n as int);
    }
    if area == 0 || area >= 0x40000000 {
        return Err(
            jagged_error(
                "jagged hash-bind: area out of bounds (0 < area < 2^30) (AreaOutOfBounds)",
            ),
        );
    }
    let recomputed = jagged_hash_bind_modified(raw_root, rows.as_slice(), cols.as_slice());
    if !same_digest(&recomputed, observed) {
        return Err(
            jagged_error(
                "jagged hash-bind mismatch: recomputed compress([raw_root, hash(counts)]) != observed main_commitment (IncorrectTableSizes)",
            ),
        );
    }
    Ok(())
}

} // verus!
