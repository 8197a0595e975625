//! Lists that stand for maps by name: each name once, in the order of the names.
use vstd::prelude::*;
use vstd::utf8::encode_utf8_decode_utf8;
use crate::shard::names::{as_ints, bytes_le_antisymmetric, bytes_le_transitive, is_name_order,
    name_bytes, name_le, name_not_after, name_order, order_before, order_covers, sorted_chips};
use crate::shard::types::ShardChip;

verus! {

/// Whether one name comes before another.
pub open spec fn name_lt(a: Seq<char>, b: Seq<char>) -> bool {
    name_le(a, b) && !name_le(b, a)
}

/// Whether a list stands for a map by name: its names increase.
pub open spec fn is_name_map<T>(s: Seq<(String, T)>) -> bool {
    forall|i: int, j: int|
        0 <= i < j < s.len() ==> name_lt((#[trigger] s[i]).0@, (#[trigger] s[j]).0@)
}

/// Whether a list stands for a map by name.
pub fn stands_for_map<T>(s: &Vec<(String, T)>) -> (r: bool)
    ensures
        r == is_name_map(s@),
{
    let mut i: usize = 1;
    while i < s.len()
        invariant
            1 <= i,
            i <= s@.len() || s@.len() == 0,
            forall|a: int, b: int|
                0 <= a < b < i && b < s@.len() ==> name_lt(
                    (#[trigger] s@[a]).0@,
                    (#[trigger] s@[b]).0@,
                ),
        decreases s@.len() - i,
    {
        if !name_not_after(&s[i - 1].0, &s[i].0) || name_not_after(&s[i].0, &s[i - 1].0) {
            proof {
                assert(!name_lt(s@[i - 1].0@, s@[i as int].0@));
            }
            return false;
        }
        proof {
            assert forall|a: int, b: int| 0 <= a < b < i + 1 && b < s@.len() implies name_lt(
                (#[trigger] s@[a]).0@,
                (#[trigger] s@[b]).0@,
            ) by {
                if b == i && a < i - 1 {
                    name_lt_transitive(s@[a].0@, s@[i - 1].0@, s@[b].0@);
                }
            }
        }
        i = i + 1;
    }
    true
}

proof fn name_lt_transitive(a: Seq<char>, b: Seq<char>, c: Seq<char>)
    requires
        name_lt(a, b),
        name_lt(b, c),
    ensures
        name_lt(a, c),
{
    bytes_le_transitive(name_bytes(a), name_bytes(b), name_bytes(c));
    if name_le(c, a) {
        bytes_le_transitive(name_bytes(c), name_bytes(a), name_bytes(b));
    }
}

/// The places of the first `k` chips of an order, of chips of one name the last.
pub open spec fn kept_places(chips: Seq<ShardChip>, order: Seq<int>, k: nat) -> Seq<int>
    decreases k,
{
    if k == 0 {
        Seq::empty()
    } else {
        let s = kept_places(chips, order, (k - 1) as nat);
        let at = order[k - 1];
        if s.len() > 0 && chips[s.last()].name@ == chips[at].name@ {
            s.drop_last().push(at)
        } else {
            s.push(at)
        }
    }
}

/// The chips that a map by name holds, in the order of the names: of chips of one name the
/// last.
pub open spec fn name_places(chips: Seq<ShardChip>) -> Seq<int> {
    kept_places(chips, sorted_chips(chips), chips.len())
}

/// Whether chip `c` is the last of the first `k` chips with its name.
pub open spec fn last_named(chips: Seq<ShardChip>, c: int, k: nat) -> bool {
    &&& 0 <= c < k
    &&& forall|j: int| c < j < k ==> (#[trigger] chips[j]).name@ != chips[c].name@
}

proof fn kept_places_increase(chips: Seq<ShardChip>, order: Seq<int>, k: nat)
    requires
        is_name_order(order, chips),
        k <= order.len(),
    ensures
        ({
            let s = kept_places(chips, order, k);
            &&& s.len() <= k
            &&& k > 0 ==> s.len() > 0 && s.last() == order[k - 1]
            &&& forall|i: int| 0 <= i < s.len() ==> 0 <= (#[trigger] s[i]) < chips.len()
            &&& forall|i: int, j: int|
                0 <= i < j < s.len() ==> name_lt(
                    chips[#[trigger] s[i]].name@,
                    chips[#[trigger] s[j]].name@,
                )
            &&& forall|t: int| 0 <= t < k ==> #[trigger] kept_for(chips, s, order[t])
        }),
    decreases k,
{
    if k > 0 {
        let n = (k - 1) as nat;
        kept_places_increase(chips, order, n);
        let s = kept_places(chips, order, n);
        let next = kept_places(chips, order, k);
        let at = order[k - 1];
        assert(0 <= at < chips.len());
        if n > 0 {
            assert(order_before(chips, order[n - 1], at));
            same_or_before(chips, order[n - 1], at);
        }
        assert forall|i: int, j: int| 0 <= i < j < next.len() implies name_lt(
            chips[#[trigger] next[i]].name@,
            chips[#[trigger] next[j]].name@,
        ) by {
            if j == next.len() - 1 {
                if i < s.len() - 1 {
                    assert(name_lt(chips[s[i]].name@, chips[s.last()].name@));
                    if chips[s.last()].name@ != chips[at].name@ {
                        name_lt_transitive(
                            chips[s[i]].name@,
                            chips[s.last()].name@,
                            chips[at].name@,
                        );
                    }
                }
            } else {
                assert(next[i] == s[i] && next[j] == s[j]);
            }
        }
        assert forall|t: int| 0 <= t < k implies #[trigger] kept_for(chips, next, order[t]) by {
            if t == n {
                assert(next[next.len() - 1] == at);
            } else {
                assert(kept_for(chips, s, order[t]));
                let i = choose|i: int|
                    0 <= i < s.len() && chips[#[trigger] s[i]].name@ == chips[order[t]].name@
                        && order[t] <= s[i];
                assert(order_before(chips, order[t], at));
                if i < next.len() && next[i] == s[i] {
                } else {
                    assert(next[i] == at);
                    assert(chips[order[t]].name@ == chips[at].name@);
                    same_names(chips, order[t], at);
                }
            }
        }
    }
}

/// Whether a list of places has the name of a chip, at that chip or a later one.
spec fn kept_for(chips: Seq<ShardChip>, s: Seq<int>, c: int) -> bool {
    exists|i: int|
        0 <= i < s.len() && chips[#[trigger] s[i]].name@ == chips[c].name@ && c <= s[i]
}

proof fn same_names(chips: Seq<ShardChip>, a: int, b: int)
    requires
        order_before(chips, a, b),
        chips[a].name@ == chips[b].name@,
    ensures
        a < b,
{
}

proof fn same_or_before(chips: Seq<ShardChip>, a: int, b: int)
    requires
        order_before(chips, a, b),
    ensures
        chips[a].name@ == chips[b].name@ || name_lt(chips[a].name@, chips[b].name@),
{
    if name_le(chips[b].name@, chips[a].name@) {
        bytes_le_antisymmetric(name_bytes(chips[a].name@), name_bytes(chips[b].name@));
        encode_utf8_decode_utf8(chips[a].name@);
        encode_utf8_decode_utf8(chips[b].name@);
    }
}

/// The places of a map by name: its names increase, and it holds the last chip of every name.
pub proof fn name_places_hold(chips: Seq<ShardChip>)
    requires
        is_name_order(sorted_chips(chips), chips),
    ensures
        ({
            let s = name_places(chips);
            &&& s.len() <= chips.len()
            &&& forall|i: int| 0 <= i < s.len() ==> 0 <= (#[trigger] s[i]) < chips.len()
            &&& forall|i: int, j: int|
                0 <= i < j < s.len() ==> name_lt(
                    chips[#[trigger] s[i]].name@,
                    chips[#[trigger] s[j]].name@,
                )
            &&& forall|c: int| #[trigger] last_named(chips, c, chips.len()) ==> s.contains(c)
        }),
{
    let s = name_places(chips);
    let order = sorted_chips(chips);
    kept_places_increase(chips, order, chips.len());
    assert forall|c: int| #[trigger] last_named(chips, c, chips.len()) implies s.contains(c) by {
        let t = order_covers(order, chips, c);
        assert(kept_for(chips, s, order[t]));
        let i = choose|i: int|
            0 <= i < s.len() && chips[#[trigger] s[i]].name@ == chips[c].name@ && c <= s[i];
        assert(s[i] == c);
    }
}

/// Where no two chips share a name, a map by name holds every chip.
pub proof fn distinct_places(chips: Seq<ShardChip>)
    requires
        is_name_order(sorted_chips(chips), chips),
        forall|i: int, j: int|
            0 <= i < j < chips.len() ==> (#[trigger] chips[i]).name@ != (#[trigger] chips[j]).name@,
    ensures
        name_places(chips) == sorted_chips(chips),
{
    let order = sorted_chips(chips);
    distinct_kept(chips, order, chips.len());
    assert(order.take(chips.len() as int) =~= order);
}

proof fn distinct_kept(chips: Seq<ShardChip>, order: Seq<int>, k: nat)
    requires
        is_name_order(order, chips),
        k <= order.len(),
        forall|i: int, j: int|
            0 <= i < j < chips.len() ==> (#[trigger] chips[i]).name@ != (#[trigger] chips[j]).name@,
    ensures
        kept_places(chips, order, k) == order.take(k as int),
    decreases k,
{
    if k > 0 {
        distinct_kept(chips, order, (k - 1) as nat);
        if k > 1 {
            assert(order_before(chips, order[k - 2], order[k - 1]));
            let (a, b) = (order[k - 2], order[k - 1]);
            assert(0 <= a < chips.len() && 0 <= b < chips.len());
            if chips[a].name@ == chips[b].name@ {
                same_names(chips, a, b);
            }
        }
    }
    assert(kept_places(chips, order, k) =~= order.take(k as int));
}

/// The chips that a map by name holds, in the order of the names.
pub fn find_name_places(chips: &Vec<ShardChip>) -> (r: Vec<usize>)
    ensures
        as_ints(r@) == name_places(chips@),
        is_name_order(sorted_chips(chips@), chips@),
        forall|i: int| 0 <= i < r@.len() ==> (#[trigger] r@[i]) < chips@.len(),
{
    let order = name_order(chips);
    let ghost o = as_ints(order@);
    let mut r: Vec<usize> = Vec::new();
    let mut k: usize = 0;
    proof {
        assert(as_ints(r@) =~= Seq::<int>::empty());
    }
    while k < order.len()
        invariant
            k <= order@.len(),
            order@.len() == chips@.len(),
            o == as_ints(order@),
            o == sorted_chips(chips@),
            is_name_order(o, chips@),
            as_ints(r@) == kept_places(chips@, o, k as nat),
            forall|i: int| 0 <= i < r@.len() ==> (#[trigger] r@[i]) < chips@.len(),
        decreases order@.len() - k,
    {
        let at: usize = order[k];
        let ghost before = r@;
        let last: usize = r.len();
        proof {
            assert(o[k as int] == at);
            assert(as_ints(r@).len() == r@.len());
            if last > 0 {
                assert(as_ints(r@).last() == r@[last - 1]);
            }
        }
        if last > 0 && chips[r[last - 1]].name == chips[at].name {
            r.set(last - 1, at);
            proof {
                assert(as_ints(r@) =~= as_ints(before).drop_last().push(at as int));
            }
        } else {
            r.push(at);
            proof {
                assert(as_ints(r@) =~= as_ints(before).push(at as int));
            }
        }
        k = k + 1;
    }
    r
}

} // verus!
