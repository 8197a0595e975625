//! Names: their order, and lists of entries found by name.
use vstd::prelude::*;
use vstd::set_lib::{lemma_int_range, lemma_subset_equality, set_int_range};
use vstd::string::StringSliceAdditionalSpecFns;
use vstd::utf8::encode_utf8;
use crate::selection::{keep_all, selection, selection_distinct, selection_exists, stands_before,
    Key};
use crate::shard::types::ShardChip;

verus! {

/// The index of the first entry of a name at or past `from`, or the number of entries
/// where there is none.
pub open spec fn entry_index<T>(s: Seq<(String, T)>, name: Seq<char>, from: nat) -> nat
    decreases s.len() - from,
{
    if from >= s.len() {
        s.len()
    } else if s[from as int].0@ == name {
        from
    } else {
        entry_index(s, name, from + 1)
    }
}

/// Whether a list has an entry of a name.
pub open spec fn has_entry<T>(s: Seq<(String, T)>, name: Seq<char>) -> bool {
    entry_index(s, name, 0) < s.len()
}

/// The value of the first entry of a name.
pub open spec fn entry_value<T>(s: Seq<(String, T)>, name: Seq<char>) -> T {
    s[entry_index(s, name, 0) as int].1
}

/// Finds the first entry of a name.
pub fn find_entry<T>(s: &Vec<(String, T)>, name: &String) -> (r: Option<usize>)
    ensures
        match r {
            Some(i) => i < s@.len() && i == entry_index(s@, name@, 0),
            None => entry_index(s@, name@, 0) == s@.len(),
        },
{
    let mut i: usize = 0;
    while i < s.len()
        invariant
            i <= s@.len(),
            entry_index(s@, name@, 0) == entry_index(s@, name@, i as nat),
        decreases s@.len() - i,
    {
        if s[i].0 == *name {
            return Some(i);
        }
        i = i + 1;
    }
    None
}

/// The first entry of a name is the one that no entry before it shares its name with.
pub proof fn entry_index_is_first<T>(s: Seq<(String, T)>, name: Seq<char>, from: nat)
    requires
        from <= s.len(),
    ensures
        from <= entry_index(s, name, from) <= s.len(),
        entry_index(s, name, from) < s.len() ==> s[entry_index(s, name, from) as int].0@ == name,
        forall|j: int|
            from <= j < entry_index(s, name, from) ==> (#[trigger] s[j]).0@ != name,
    decreases s.len() - from,
{
    if from < s.len() && s[from as int].0@ != name {
        entry_index_is_first(s, name, from + 1);
    }
}

/// The bytes of a name.
pub open spec fn name_bytes(name: Seq<char>) -> Seq<u8> {
    encode_utf8(name)
}

/// Whether one sequence of bytes comes before another, or is the same.
pub open spec fn bytes_le(a: Seq<u8>, b: Seq<u8>) -> bool
    decreases a.len(),
{
    if a.len() == 0 {
        true
    } else if b.len() == 0 {
        false
    } else if a[0] != b[0] {
        a[0] < b[0]
    } else {
        bytes_le(a.skip(1), b.skip(1))
    }
}

/// The order of bytes is total.
pub proof fn bytes_le_total(a: Seq<u8>, b: Seq<u8>)
    ensures
        bytes_le(a, b) || bytes_le(b, a),
    decreases a.len(),
{
    if a.len() > 0 && b.len() > 0 && a[0] == b[0] {
        bytes_le_total(a.skip(1), b.skip(1));
    }
}

/// The order of bytes is transitive.
pub proof fn bytes_le_transitive(a: Seq<u8>, b: Seq<u8>, c: Seq<u8>)
    requires
        bytes_le(a, b),
        bytes_le(b, c),
    ensures
        bytes_le(a, c),
    decreases a.len(),
{
    if a.len() > 0 && b.len() > 0 && c.len() > 0 && a[0] == b[0] && b[0] == c[0] {
        bytes_le_transitive(a.skip(1), b.skip(1), c.skip(1));
    }
}

/// The order of bytes is antisymmetric.
pub proof fn bytes_le_antisymmetric(a: Seq<u8>, b: Seq<u8>)
    requires
        bytes_le(a, b),
        bytes_le(b, a),
    ensures
        a == b,
    decreases a.len(),
{
    if a.len() > 0 && b.len() > 0 {
        bytes_le_antisymmetric(a.skip(1), b.skip(1));
        assert(a =~= seq![a[0]] + a.skip(1));
        assert(b =~= seq![b[0]] + b.skip(1));
    } else {
        assert(a =~= b);
    }
}

/// Bytes are ordered by their first difference, the smaller byte first, and a beginning comes
/// before what it begins.
pub proof fn first_difference_orders(a: Seq<u8>, b: Seq<u8>, i: int)
    requires
        0 <= i <= a.len(),
        i <= b.len(),
        a.take(i) == b.take(i),
        i < a.len() && i < b.len() ==> a[i] != b[i],
    ensures
        bytes_le(a, b) == (if i < a.len() && i < b.len() {
            a[i] < b[i]
        } else {
            i == a.len()
        }),
    decreases i,
{
    if i > 0 {
        assert(a.take(i)[0] == b.take(i)[0]);
        assert(a.skip(1).take(i - 1) =~= a.take(i).skip(1));
        assert(b.skip(1).take(i - 1) =~= b.take(i).skip(1));
        assert(a[0] == a.take(i)[0] && b[0] == b.take(i)[0]);
        if i < a.len() && i < b.len() {
            assert(a.skip(1)[i - 1] == a[i]);
            assert(b.skip(1)[i - 1] == b[i]);
        }
        first_difference_orders(a.skip(1), b.skip(1), i - 1);
    }
}

/// Whether one name comes before another, or is the same.
pub open spec fn name_le(a: Seq<char>, b: Seq<char>) -> bool {
    bytes_le(name_bytes(a), name_bytes(b))
}

/// Whether one name comes before another, or is the same.
pub fn name_not_after(a: &String, b: &String) -> (r: bool)
    ensures
        r == name_le(a@, b@),
{
    let x = a.as_str().as_bytes();
    let y = b.as_str().as_bytes();
    let ghost gx = name_bytes(a@);
    let ghost gy = name_bytes(b@);
    let mut i: usize = 0;
    proof {
        assert(gx.skip(0) =~= gx);
        assert(gy.skip(0) =~= gy);
    }
    while i < x.len() && i < y.len()
        invariant
            x@ == gx,
            y@ == gy,
            gx == name_bytes(a@),
            gy == name_bytes(b@),
            i <= gx.len(),
            i <= gy.len(),
            bytes_le(gx, gy) == bytes_le(gx.skip(i as int), gy.skip(i as int)),
        decreases gx.len() - i,
    {
        proof {
            assert(gx.skip(i as int).skip(1) =~= gx.skip(i + 1));
            assert(gy.skip(i as int).skip(1) =~= gy.skip(i + 1));
        }
        if x[i] != y[i] {
            return x[i] < y[i];
        }
        i = i + 1;
    }
    i >= x.len()
}

/// Whether `order` lists the chips in the order of their names, chips of one name in
/// their given order.
pub open spec fn is_name_order(order: Seq<int>, chips: Seq<ShardChip>) -> bool {
    &&& order.len() == chips.len()
    &&& forall|i: int| 0 <= i < order.len() ==> 0 <= (#[trigger] order[i]) < chips.len()
    &&& forall|i: int, j: int|
        0 <= i < j < order.len() ==> order_before(chips, #[trigger] order[i], #[trigger] order[j])
}

/// Whether chip `a` stands before chip `b` in the order of their names.
pub open spec fn order_before(chips: Seq<ShardChip>, a: int, b: int) -> bool {
    &&& name_le(chips[a].name@, chips[b].name@)
    &&& (name_le(chips[b].name@, chips[a].name@) ==> a < b)
}

/// The chips in the order of their names.
pub open spec fn sorted_chips(chips: Seq<ShardChip>) -> Seq<int> {
    choose|order: Seq<int>| is_name_order(order, chips)
}

proof fn order_distinct(order: Seq<int>, chips: Seq<ShardChip>)
    requires
        is_name_order(order, chips),
    ensures
        order.no_duplicates(),
{
    assert forall|i: int, j: int| 0 <= i < j < order.len() implies order[i] != order[j] by {
        assert(order_before(chips, order[i], order[j]));
        if order[i] == order[j] {
            assert(order[i] < order[j]);
        }
    }
}

/// Every chip stands somewhere in the order.
pub proof fn order_covers(order: Seq<int>, chips: Seq<ShardChip>, c: int) -> (i: int)
    requires
        is_name_order(order, chips),
        0 <= c < chips.len(),
    ensures
        0 <= i < order.len(),
        order[i] == c,
{
    order_distinct(order, chips);
    order.unique_seq_to_set();
    lemma_int_range(0, chips.len() as int);
    let all = set_int_range(0, chips.len() as int);
    assert(order.to_set().subset_of(all)) by {
        assert forall|x: int| order.to_set().contains(x) implies all.contains(x) by {
            let k = choose|k: int| 0 <= k < order.len() && order[k] == x;
            assert(0 <= order[k] < chips.len());
        }
    }
    lemma_subset_equality(order.to_set(), all);
    assert(order.to_set().contains(c));
    choose|k: int| 0 <= k < order.len() && order[k] == c
}

/// The chips that stand before a chip.
spec fn ahead_of(chips: Seq<ShardChip>, c: int) -> Set<int> {
    set_int_range(0, chips.len() as int).filter(|x: int| x != c && order_before(chips, x, c))
}

proof fn place_is_count(order: Seq<int>, chips: Seq<ShardChip>, i: int)
    requires
        is_name_order(order, chips),
        0 <= i < order.len(),
    ensures
        ahead_of(chips, order[i]).len() == i,
{
    order_distinct(order, chips);
    let head = order.take(i);
    assert(head.no_duplicates());
    head.unique_seq_to_set();
    assert(ahead_of(chips, order[i]) =~= head.to_set()) by {
        assert forall|x: int| ahead_of(chips, order[i]).contains(x) <==> head.to_set().contains(
            x,
        ) by {
            if ahead_of(chips, order[i]).contains(x) {
                let k = order_covers(order, chips, x);
                if k > i {
                    assert(order_before(chips, order[i], order[k]));
                    assert(order_before(chips, x, order[i]));
                }
                assert(head[k] == x);
            }
            if head.to_set().contains(x) {
                let k = choose|k: int| 0 <= k < head.len() && head[k] == x;
                assert(order[k] == x);
                assert(order_before(chips, order[k], order[i]));
            }
        }
    }
}

/// There is one order of the chips by name.
pub proof fn name_order_unique(a: Seq<int>, b: Seq<int>, chips: Seq<ShardChip>)
    requires
        is_name_order(a, chips),
        is_name_order(b, chips),
    ensures
        a == b,
{
    assert forall|i: int| 0 <= i < a.len() implies a[i] == b[i] by {
        let j = order_covers(b, chips, a[i]);
        place_is_count(a, chips, i);
        place_is_count(b, chips, j);
    }
    assert(a =~= b);
}

/// There is an order of the chips by name.
pub proof fn name_order_exists(chips: Seq<ShardChip>)
    requires
        chips.len() <= usize::MAX,
    ensures
        is_name_order(sorted_chips(chips), chips),
{
    let n = chips.len() as int;
    let keys = Seq::new(chips.len(), |i: int| Key::Name(chips[i].name@));
    let keep = keep_all(chips.len());
    let s = selection(keys, keep);
    selection_exists(keys, keep);
    selection_distinct(s, keys, keep);
    s.unique_seq_to_set();
    lemma_int_range(0, n);
    assert(s.to_set() =~= set_int_range(0, n)) by {
        assert forall|x: int| s.to_set().contains(x) <==> set_int_range(0, n).contains(x) by {
            if s.to_set().contains(x) {
                let k = choose|k: int| 0 <= k < s.len() && s[k] == x;
                assert(0 <= s[k] < keys.len());
            }
            if set_int_range(0, n).contains(x) {
                assert(keep[x]);
                assert(s.contains(x));
            }
        }
    }
    assert forall|i: int, j: int| 0 <= i < j < s.len() implies order_before(
        chips,
        #[trigger] s[i],
        #[trigger] s[j],
    ) by {
        assert(stands_before(keys, s[i], s[j]));
        assert(0 <= s[i] < keys.len() && 0 <= s[j] < keys.len());
    }
    assert(is_name_order(s, chips));
}

/// A list of indices as integers.
pub open spec fn as_ints(s: Seq<usize>) -> Seq<int> {
    Seq::new(s.len(), |i: int| s[i] as int)
}

/// The chips in the order of their names.
pub fn name_order(chips: &Vec<ShardChip>) -> (r: Vec<usize>)
    ensures
        as_ints(r@) == sorted_chips(chips@),
        is_name_order(as_ints(r@), chips@),
{
    let mut r: Vec<usize> = Vec::new();
    let mut k: usize = 0;
    while k < chips.len()
        invariant
            k <= chips@.len(),
            r@.len() == k,
            forall|i: int| 0 <= i < k ==> (#[trigger] r@[i]) < k,
            forall|i: int, j: int|
                0 <= i < j < k ==> order_before(
                    chips@,
                    #[trigger] r@[i] as int,
                    #[trigger] r@[j] as int,
                ),
        decreases chips@.len() - k,
    {
        let mut at: usize = k;
        while at > 0 && !name_not_after(&chips[r[at - 1]].name, &chips[k].name)
            invariant
                at <= k < chips@.len(),
                r@.len() == k,
                forall|i: int| 0 <= i < k ==> (#[trigger] r@[i]) < k,
                forall|i: int|
                    at <= i < k ==> !name_le(
                        chips@[(#[trigger] r@[i]) as int].name@,
                        chips@[k as int].name@,
                    ),
            decreases at,
        {
            at = at - 1;
        }
        let ghost before = r@;
        r.insert(at, k);
        proof {
            let me = chips@[k as int].name@;
            assert forall|i: int, j: int| 0 <= i < j < k + 1 implies order_before(
                chips@,
                #[trigger] r@[i] as int,
                #[trigger] r@[j] as int,
            ) by {
                if j == at {
                    let x = before[i];
                    let y = before[at - 1];
                    if i < at - 1 {
                        assert(order_before(chips@, x as int, y as int));
                        bytes_le_transitive(
                            name_bytes(chips@[x as int].name@),
                            name_bytes(chips@[y as int].name@),
                            name_bytes(me),
                        );
                    }
                    assert(x < k);
                } else if i == at {
                    let x = before[j - 1];
                    assert(!name_le(chips@[x as int].name@, me));
                    bytes_le_total(name_bytes(me), name_bytes(chips@[x as int].name@));
                } else {
                    let i2 = if i < at {
                        i
                    } else {
                        i - 1
                    };
                    let j2 = if j < at {
                        j
                    } else {
                        j - 1
                    };
                    assert(order_before(chips@, before[i2] as int, before[j2] as int));
                }
            }
        }
        k = k + 1;
    }
    proof {
        let o = as_ints(r@);
        assert(is_name_order(o, chips@)) by {
            assert forall|i: int, j: int| 0 <= i < j < o.len() implies order_before(
                chips@,
                #[trigger] o[i],
                #[trigger] o[j],
            ) by {
                assert(order_before(chips@, r@[i] as int, r@[j] as int));
            }
        }
        name_order_unique(o, sorted_chips(chips@), chips@);
    }
    r
}

} // verus!
