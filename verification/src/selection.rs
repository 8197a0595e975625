//! Selections: some of the entries of a list, in an order of their own.
use vstd::prelude::*;
use vstd::set_lib::{lemma_int_range, set_int_range};
use crate::shard::names::{as_ints, bytes_le_total, bytes_le_transitive,
    name_bytes, name_le, name_not_after};

verus! {

/// The order that a selection follows.
pub enum Key {
    /// By name.
    Name(Seq<char>),
    /// By number.
    Number(nat),
    /// By number, and by name where the numbers are the same.
    Placed(nat, Seq<char>),
}

/// Whether one key comes before another, or is the same.
pub open spec fn key_le(a: Key, b: Key) -> bool {
    match (a, b) {
        (Key::Name(x), Key::Name(y)) => name_le(x, y),
        (Key::Number(x), Key::Number(y)) => x <= y,
        (Key::Placed(x, v), Key::Placed(y, w)) => x < y || (x == y && name_le(v, w)),
        (Key::Name(_), _) => true,
        (Key::Number(_), Key::Placed(_, _)) => true,
        _ => false,
    }
}

/// Whether entry `a` stands before entry `b`: by their keys, and by their places where the
/// keys are the same.
pub open spec fn stands_before(keys: Seq<Key>, a: int, b: int) -> bool {
    &&& key_le(keys[a], keys[b])
    &&& (key_le(keys[b], keys[a]) ==> a < b)
}

/// Whether `s` lists the entries that are kept, each once, in the order of their keys.
pub open spec fn is_selection(s: Seq<int>, keys: Seq<Key>, keep: Seq<bool>) -> bool {
    &&& forall|i: int|
        0 <= i < s.len() ==> 0 <= #[trigger] s[i] < keys.len() && keep[s[i]]
    &&& forall|c: int| 0 <= c < keys.len() && #[trigger] keep[c] ==> s.contains(c)
    &&& forall|i: int, j: int|
        0 <= i < j < s.len() ==> stands_before(keys, #[trigger] s[i], #[trigger] s[j])
}

/// The entries that are kept, in the order of their keys.
pub open spec fn selection(keys: Seq<Key>, keep: Seq<bool>) -> Seq<int> {
    choose|s: Seq<int>| is_selection(s, keys, keep)
}

/// Names as keys.
pub open spec fn name_keys(names: Seq<String>) -> Seq<Key> {
    Seq::new(names.len(), |i: int| Key::Name(names[i]@))
}

/// Numbered names as keys.
pub open spec fn placed_keys(entries: Seq<(String, usize)>) -> Seq<Key> {
    Seq::new(entries.len(), |i: int| Key::Placed(entries[i].1 as nat, entries[i].0@))
}

/// A selection that keeps everything.
pub open spec fn keep_all(n: nat) -> Seq<bool> {
    Seq::new(n, |i: int| true)
}

/// Numbers as keys.
pub open spec fn number_keys(numbers: Seq<usize>) -> Seq<Key> {
    Seq::new(numbers.len(), |i: int| Key::Number(numbers[i] as nat))
}

proof fn key_le_total(a: Key, b: Key)
    ensures
        key_le(a, b) || key_le(b, a),
{
    match (a, b) {
        (Key::Name(x), Key::Name(y)) => bytes_le_total(name_bytes(x), name_bytes(y)),
        (Key::Placed(_, x), Key::Placed(_, y)) => bytes_le_total(name_bytes(x), name_bytes(y)),
        _ => {},
    }
}

proof fn key_le_transitive(a: Key, b: Key, c: Key)
    requires
        key_le(a, b),
        key_le(b, c),
    ensures
        key_le(a, c),
{
    match (a, b, c) {
        (Key::Name(x), Key::Name(y), Key::Name(z)) => {
            bytes_le_transitive(name_bytes(x), name_bytes(y), name_bytes(z))
        },
        (Key::Placed(p, x), Key::Placed(q, y), Key::Placed(r, z)) => {
            if p == q && q == r {
                bytes_le_transitive(name_bytes(x), name_bytes(y), name_bytes(z))
            }
        },
        _ => {},
    }
}

/// A selection has no entry twice.
pub proof fn selection_distinct(s: Seq<int>, keys: Seq<Key>, keep: Seq<bool>)
    requires
        is_selection(s, keys, keep),
    ensures
        s.no_duplicates(),
{
    assert forall|i: int, j: int| 0 <= i < j < s.len() implies s[i] != s[j] by {
        assert(stands_before(keys, s[i], s[j]));
        if s[i] == s[j] {
            assert(s[i] < s[j]);
        }
    }
}

/// The entries of a selection that stand before an entry.
spec fn ahead(keys: Seq<Key>, keep: Seq<bool>, c: int) -> Set<int> {
    set_int_range(0, keys.len() as int).filter(
        |x: int| keep[x] && x != c && stands_before(keys, x, c),
    )
}

proof fn selection_place(s: Seq<int>, keys: Seq<Key>, keep: Seq<bool>, i: int)
    requires
        is_selection(s, keys, keep),
        0 <= i < s.len(),
    ensures
        ahead(keys, keep, s[i]).len() == i,
{
    selection_distinct(s, keys, keep);
    lemma_int_range(0, keys.len() as int);
    let head = s.take(i);
    assert(head.no_duplicates());
    head.unique_seq_to_set();
    assert(ahead(keys, keep, s[i]) =~= head.to_set()) by {
        assert forall|x: int| ahead(keys, keep, s[i]).contains(x) <==> head.to_set().contains(
            x,
        ) by {
            if ahead(keys, keep, s[i]).contains(x) {
                assert(keep[x]);
                let k = choose|k: int| 0 <= k < s.len() && s[k] == x;
                if k > i {
                    assert(stands_before(keys, s[i], s[k]));
                    assert(stands_before(keys, x, s[i]));
                }
                assert(head[k] == x);
            }
            if head.to_set().contains(x) {
                let k = choose|k: int| 0 <= k < head.len() && head[k] == x;
                assert(s[k] == x);
                assert(stands_before(keys, s[k], s[i]));
            }
        }
    }
}

/// There is one selection.
pub proof fn selection_unique(a: Seq<int>, b: Seq<int>, keys: Seq<Key>, keep: Seq<bool>)
    requires
        is_selection(a, keys, keep),
        is_selection(b, keys, keep),
    ensures
        a == b,
{
    selection_distinct(a, keys, keep);
    selection_distinct(b, keys, keep);
    assert forall|i: int| 0 <= i < a.len() && i < b.len() implies a[i] == b[i] by {
        assert(keep[a[i]]);
        let j = choose|j: int| 0 <= j < b.len() && b[j] == a[i];
        selection_place(a, keys, keep, i);
        selection_place(b, keys, keep, j);
    }
    if a.len() < b.len() {
        let i = a.len() as int;
        assert(keep[b[i]]);
        let j = choose|j: int| 0 <= j < a.len() && a[j] == b[i];
        assert(a[j] == b[j]);
        assert(b[j] == b[i]);
    }
    if b.len() < a.len() {
        let i = b.len() as int;
        assert(keep[a[i]]);
        let j = choose|j: int| 0 <= j < b.len() && b[j] == a[i];
        assert(a[j] == b[j]);
        assert(a[j] == a[i]);
    }
    assert(a =~= b);
}

/// The kept entries among the first `k`, in the order of their keys.
spec fn sorted_so_far(r: Seq<usize>, keys: Seq<Key>, keep: Seq<bool>, k: nat) -> bool {
    &&& forall|i: int| 0 <= i < r.len() ==> (#[trigger] r[i]) < k && keep[r[i] as int]
    &&& forall|c: int| 0 <= c < k && #[trigger] keep[c] ==> r.contains(c as usize)
    &&& forall|i: int, j: int|
        0 <= i < j < r.len() ==> stands_before(
            keys,
            #[trigger] r[i] as int,
            #[trigger] r[j] as int,
        )
}

proof fn insertion_sorts(
    before: Seq<usize>,
    after: Seq<usize>,
    keys: Seq<Key>,
    keep: Seq<bool>,
    k: usize,
    at: int,
)
    requires
        sorted_so_far(before, keys, keep, k as nat),
        k < keys.len(),
        keep[k as int],
        0 <= at <= before.len(),
        after == before.insert(at, k),
        forall|i: int|
            at <= i < before.len() ==> !key_le(keys[(#[trigger] before[i]) as int], keys[k as int]),
        at > 0 ==> key_le(keys[before[at - 1] as int], keys[k as int]),
    ensures
        sorted_so_far(after, keys, keep, k as nat + 1),
{
    let me = keys[k as int];
    assert forall|i: int, j: int| 0 <= i < j < after.len() implies stands_before(
        keys,
        #[trigger] after[i] as int,
        #[trigger] after[j] as int,
    ) by {
        if j == at {
            let x = before[i];
            let y = before[at - 1];
            if i < at - 1 {
                assert(stands_before(keys, x as int, y as int));
                key_le_transitive(keys[x as int], keys[y as int], me);
            }
            assert(x < k);
        } else if i == at {
            let x = before[j - 1];
            assert(!key_le(keys[x as int], me));
            key_le_total(me, keys[x as int]);
        } else {
            let i2 = if i < at {
                i
            } else {
                i - 1
            };
            let j2 = if j < at {
                j
            } else {
                j - 1
            };
            assert(stands_before(keys, before[i2] as int, before[j2] as int));
        }
    }
    assert forall|i: int| 0 <= i < after.len() implies (#[trigger] after[i]) < k + 1
        && keep[after[i] as int] by {
        if i < at {
            assert(after[i] == before[i]);
        } else if i > at {
            assert(after[i] == before[i - 1]);
        }
    }
    assert forall|c: int| 0 <= c < k + 1 && #[trigger] keep[c] implies after.contains(
        c as usize,
    ) by {
        if c == k {
            assert(after[at] == k);
        } else {
            let i = choose|i: int| 0 <= i < before.len() && before[i] == c as usize;
            if i < at {
                assert(after[i] == c as usize);
            } else {
                assert(after[i + 1] == c as usize);
            }
        }
    }
}

proof fn sorted_is_selection(r: Seq<usize>, keys: Seq<Key>, keep: Seq<bool>)
    requires
        sorted_so_far(r, keys, keep, keys.len()),
        keys.len() <= usize::MAX,
    ensures
        is_selection(as_ints(r), keys, keep),
        as_ints(r) == selection(keys, keep),
{
    let s = as_ints(r);
    assert forall|c: int| 0 <= c < keys.len() && #[trigger] keep[c] implies s.contains(c) by {
        let i = choose|i: int| 0 <= i < r.len() && r[i] == c as usize;
        assert(s[i] == c);
    }
    assert forall|i: int, j: int| 0 <= i < j < s.len() implies stands_before(
        keys,
        #[trigger] s[i],
        #[trigger] s[j],
    ) by {
        assert(stands_before(keys, r[i] as int, r[j] as int));
    }
    assert(is_selection(s, keys, keep));
    selection_unique(s, selection(keys, keep), keys, keep);
}

proof fn place_for(before: Seq<usize>, keys: Seq<Key>, k: int, at: int) -> (p: int)
    requires
        0 <= at <= before.len(),
        forall|i: int|
            at <= i < before.len() ==> !key_le(keys[(#[trigger] before[i]) as int], keys[k]),
    ensures
        0 <= p <= before.len(),
        forall|i: int|
            p <= i < before.len() ==> !key_le(keys[(#[trigger] before[i]) as int], keys[k]),
        p > 0 ==> key_le(keys[before[p - 1] as int], keys[k]),
    decreases at,
{
    if at > 0 && !key_le(keys[before[at - 1] as int], keys[k]) {
        place_for(before, keys, k, at - 1)
    } else {
        at
    }
}

proof fn sorted_exists(keys: Seq<Key>, keep: Seq<bool>, k: nat) -> (r: Seq<usize>)
    requires
        k <= keys.len() <= usize::MAX,
    ensures
        sorted_so_far(r, keys, keep, k),
    decreases k,
{
    if k == 0 {
        Seq::empty()
    } else {
        let before = sorted_exists(keys, keep, (k - 1) as nat);
        if keep[k - 1] {
            let p = place_for(before, keys, k - 1, before.len() as int);
            let after = before.insert(p, (k - 1) as usize);
            insertion_sorts(before, after, keys, keep, (k - 1) as usize, p);
            after
        } else {
            before
        }
    }
}

/// There is a selection.
pub proof fn selection_exists(keys: Seq<Key>, keep: Seq<bool>)
    requires
        keys.len() <= usize::MAX,
    ensures
        is_selection(selection(keys, keep), keys, keep),
{
    let r = sorted_exists(keys, keep, keys.len());
    sorted_is_selection(r, keys, keep);
}

/// The kept entries in the order of their names.
pub fn select_by_name(names: &Vec<String>, keep: &Vec<bool>) -> (r: Vec<usize>)
    requires
        keep@.len() == names@.len(),
    ensures
        as_ints(r@) == selection(name_keys(names@), keep@),
        is_selection(as_ints(r@), name_keys(names@), keep@),
{
    let ghost keys = name_keys(names@);
    let mut r: Vec<usize> = Vec::new();
    let mut k: usize = 0;
    while k < names.len()
        invariant
            k <= names@.len(),
            keep@.len() == names@.len(),
            keys == name_keys(names@),
            sorted_so_far(r@, keys, keep@, k as nat),
        decreases names@.len() - k,
    {
        if keep[k] {
            let mut at: usize = r.len();
            while at > 0 && !name_not_after(&names[r[at - 1]], &names[k])
                invariant
                    at <= r@.len(),
                    k < names@.len(),
                    keys == name_keys(names@),
                    sorted_so_far(r@, keys, keep@, k as nat),
                    forall|i: int|
                        at <= i < r@.len() ==> !key_le(
                            keys[(#[trigger] r@[i]) as int],
                            keys[k as int],
                        ),
                decreases at,
            {
                at = at - 1;
            }
            let ghost before = r@;
            r.insert(at, k);
            proof {
                insertion_sorts(before, r@, keys, keep@, k, at as int);
            }
        }
        k = k + 1;
    }
    proof {
        sorted_is_selection(r@, keys, keep@);
    }
    r
}

/// The kept entries in the order of their numbers.
pub fn select_by_number(numbers: &Vec<usize>, keep: &Vec<bool>) -> (r: Vec<usize>)
    requires
        keep@.len() == numbers@.len(),
    ensures
        as_ints(r@) == selection(number_keys(numbers@), keep@),
        is_selection(as_ints(r@), number_keys(numbers@), keep@),
{
    let ghost keys = number_keys(numbers@);
    let mut r: Vec<usize> = Vec::new();
    let mut k: usize = 0;
    while k < numbers.len()
        invariant
            k <= numbers@.len(),
            keep@.len() == numbers@.len(),
            keys == number_keys(numbers@),
            sorted_so_far(r@, keys, keep@, k as nat),
        decreases numbers@.len() - k,
    {
        if keep[k] {
            let mut at: usize = r.len();
            while at > 0 && numbers[r[at - 1]] > numbers[k]
                invariant
                    at <= r@.len(),
                    k < numbers@.len(),
                    keys == number_keys(numbers@),
                    sorted_so_far(r@, keys, keep@, k as nat),
                    forall|i: int|
                        at <= i < r@.len() ==> !key_le(
                            keys[(#[trigger] r@[i]) as int],
                            keys[k as int],
                        ),
                decreases at,
            {
                at = at - 1;
            }
            let ghost before = r@;
            r.insert(at, k);
            proof {
                insertion_sorts(before, r@, keys, keep@, k, at as int);
            }
        }
        k = k + 1;
    }
    proof {
        sorted_is_selection(r@, keys, keep@);
    }
    r
}

/// Whether one numbered name comes before another, or is the same.
fn placed_not_after(a: &(String, usize), b: &(String, usize)) -> (r: bool)
    ensures
        r == key_le(Key::Placed(a.1 as nat, a.0@), Key::Placed(b.1 as nat, b.0@)),
{
    if a.1 < b.1 {
        true
    } else if a.1 > b.1 {
        false
    } else {
        name_not_after(&a.0, &b.0)
    }
}

/// The entries in the order of their numbers, those of one number in the order of their
/// names.
pub fn order_by_place(entries: &Vec<(String, usize)>) -> (r: Vec<usize>)
    ensures
        as_ints(r@) == selection(placed_keys(entries@), keep_all(entries@.len())),
        is_selection(as_ints(r@), placed_keys(entries@), keep_all(entries@.len())),
{
    let ghost keys = placed_keys(entries@);
    let ghost keep = keep_all(entries@.len());
    let mut r: Vec<usize> = Vec::new();
    let mut k: usize = 0;
    while k < entries.len()
        invariant
            k <= entries@.len(),
            keys == placed_keys(entries@),
            keep == keep_all(entries@.len()),
            sorted_so_far(r@, keys, keep, k as nat),
        decreases entries@.len() - k,
    {
        let mut at: usize = r.len();
        while at > 0 && !placed_not_after(&entries[r[at - 1]], &entries[k])
            invariant
                at <= r@.len(),
                k < entries@.len(),
                keys == placed_keys(entries@),
                keep == keep_all(entries@.len()),
                sorted_so_far(r@, keys, keep, k as nat),
                forall|i: int|
                    at <= i < r@.len() ==> !key_le(keys[(#[trigger] r@[i]) as int], keys[k as int]),
            decreases at,
        {
            at = at - 1;
        }
        let ghost before = r@;
        r.insert(at, k);
        proof {
            insertion_sorts(before, r@, keys, keep, k, at as int);
        }
        k = k + 1;
    }
    proof {
        sorted_is_selection(r@, keys, keep);
    }
    r
}

} // verus!
