//! What the agreement of claims and opened columns excludes.
use vstd::prelude::*;
use crate::ext::{add_canon, add_comm, add_sub_cancel, add_zero, all_canon, e_zero, mul_canon, mul_sub,
    sub_add_cancel, sub_canon, sub_self, E4};
use crate::jagged::opening::{bound_to_openings, claims_flat, opened_flat, weighted};
use crate::quartic::no_zero_divisors;

verus! {

/// Where a column of a group stands among the claims of all groups.
pub open spec fn claim_place(claims: Seq<Seq<E4>>, i: int, j: int) -> int {
    claims_flat(claims, i).len() + j
}

proof fn flat_entries(claims: Seq<Seq<E4>>, opened: Seq<Seq<E4>>, i: int, j: int, k: int)
    requires
        0 <= k <= claims.len(),
        opened.len() == claims.len(),
        forall|a: int| 0 <= a < claims.len() ==> (#[trigger] opened[a]).len() >= claims[a].len(),
        0 <= i < claims.len(),
        0 <= j < claims[i].len(),
        forall|a: int, b: int|
            0 <= a < claims.len() && 0 <= b < claims[a].len() && (a != i || b != j)
                ==> #[trigger] opened[a][b] == claims[a][b],
    ensures
        claims_flat(claims, k).len() == opened_flat(claims, opened, k).len(),
        forall|x: int|
            0 <= x < claims_flat(claims, k).len() && x != claim_place(claims, i, j)
                ==> #[trigger] claims_flat(claims, k)[x] == opened_flat(claims, opened, k)[x],
        i < k ==> {
            &&& claim_place(claims, i, j) < claims_flat(claims, k).len()
            &&& claims_flat(claims, k)[claim_place(claims, i, j)] == claims[i][j]
            &&& opened_flat(claims, opened, k)[claim_place(claims, i, j)] == opened[i][j]
        },
        i >= k ==> claims_flat(claims, k).len() <= claim_place(claims, i, j),
    decreases k,
{
    if k > 0 {
        flat_entries(claims, opened, i, j, k - 1);
        let before = claims_flat(claims, k - 1).len();
        let own = opened[k - 1].take(claims[k - 1].len() as int);
        if i == k - 1 {
            assert(own[j] == opened[i][j]);
        }
        if i >= k {
            flat_grows(claims, k, i);
        }
        assert forall|x: int|
            0 <= x < claims_flat(claims, k).len() && x != claim_place(
                claims,
                i,
                j,
            ) implies #[trigger] claims_flat(claims, k)[x] == opened_flat(claims, opened, k)[x] by {
            if x >= before {
                assert(own[x - before] == opened[k - 1][x - before]);
                assert(opened[k - 1][x - before] == claims[k - 1][x - before]);
            } else {
                assert(claims_flat(claims, k)[x] == claims_flat(claims, k - 1)[x]);
            }
        }
    } else {
        flat_grows(claims, 0, i);
    }
}

proof fn flat_grows(claims: Seq<Seq<E4>>, k: int, i: int)
    requires
        0 <= k <= i <= claims.len(),
    ensures
        claims_flat(claims, k).len() <= claims_flat(claims, i).len(),
    decreases i,
{
    if k < i {
        flat_grows(claims, k, i - 1);
    }
}

proof fn weighted_canon(table: Seq<E4>, values: Seq<E4>, k: nat)
    ensures
        weighted(table, values, k).canon(),
{
    if k > 0 {
        add_canon(weighted(table, values, (k - 1) as nat), table[k - 1] * values[k - 1]);
    }
}

/// Two lists that differ in one entry have different weighted sums where the entry's weight
/// is not zero.
proof fn weighted_differs(table: Seq<E4>, a: Seq<E4>, b: Seq<E4>, x: int, k: nat)
    requires
        0 <= x < k <= a.len(),
        a.len() == b.len(),
        k <= table.len(),
        table[x].canon(),
        a[x].canon(),
        b[x].canon(),
        table[x] != e_zero(),
        a[x] != b[x],
        forall|y: int| 0 <= y < a.len() && y != x ==> #[trigger] a[y] == b[y],
    ensures
        weighted(table, a, k) != weighted(table, b, k),
    decreases k,
{
    let n = (k - 1) as nat;
    let (s, t) = (weighted(table, a, n), weighted(table, b, n));
    weighted_canon(table, a, n);
    weighted_canon(table, b, n);
    if x == n {
        weighted_same(table, a, b, n);
        let (u, v) = (table[x] * a[x], table[x] * b[x]);
        if s + u == t + v {
            mul_canon(table[x], a[x]);
            mul_canon(table[x], b[x]);
            add_comm(s, u);
            add_comm(s, v);
            add_sub_cancel(u, s);
            add_sub_cancel(v, s);
            mul_sub(table[x], a[x], b[x]);
            sub_self(u);
            sub_canon(a[x], b[x]);
            no_zero_divisors(table[x], a[x] - b[x]);
            sub_add_cancel(a[x], b[x]);
            add_zero(b[x]);
        }
    } else {
        weighted_differs(table, a, b, x, n);
        let w = table[n as int] * a[n as int];
        assert(a[n as int] == b[n as int]);
        add_sub_cancel(s, w);
        add_sub_cancel(t, w);
    }
}

proof fn weighted_same(table: Seq<E4>, a: Seq<E4>, b: Seq<E4>, k: nat)
    requires
        k <= a.len(),
        k <= b.len(),
        forall|y: int| 0 <= y < k ==> #[trigger] a[y] == b[y],
    ensures
        weighted(table, a, k) == weighted(table, b, k),
    decreases k,
{
    if k > 0 {
        weighted_same(table, a, b, (k - 1) as nat);
        assert(a[k - 1] == b[k - 1]);
    }
}

/// Openings that differ from the claims in one column do not agree with them where the
/// column's weight is not zero.
pub proof fn one_other_opening_is_not_bound(
    table: Seq<E4>,
    claims: Seq<Seq<E4>>,
    opened: Seq<Seq<E4>>,
    i: int,
    j: int,
)
    requires
        0 <= i < claims.len(),
        0 <= j < claims[i].len(),
        all_canon(table),
        claims[i][j].canon(),
        opened[i][j].canon(),
        forall|a: int, b: int|
            0 <= a < claims.len() && 0 <= b < claims[a].len() && (a != i || b != j)
                ==> #[trigger] opened[a][b] == claims[a][b],
        opened[i][j] != claims[i][j],
        table[claim_place(claims, i, j)] != e_zero(),
    ensures
        !bound_to_openings(table, claims, opened),
{
    let n = claims.len() as int;
    let all = claims_flat(claims, n);
    if bound_to_openings(table, claims, opened) {
        flat_entries(claims, opened, i, j, n);
        weighted_differs(
            table,
            all,
            opened_flat(claims, opened, n),
            claim_place(claims, i, j),
            all.len(),
        );
    }
}

} // verus!
