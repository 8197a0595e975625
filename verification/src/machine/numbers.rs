//! Numbers by name.
use hashbrown::HashMap;
use vstd::prelude::*;
use vstd::utf8::encode_utf8_decode_utf8;
use crate::selection::{is_selection, keep_all, key_le, order_by_place, placed_keys, Key};
use crate::shard::names::{as_ints, bytes_le_antisymmetric, name_bytes};

verus! {

/// Numbers by name, in a hash map.
#[verifier::external_body]
pub struct Numbers {
    map: HashMap<String, usize>,
}

/// The names and numbers that a `HashMap` holds.
pub uninterp spec fn numbers_held(n: Numbers) -> Map<Seq<char>, nat>;

/// `HashMap::new`. The claim is that the map is empty.
#[verifier::external_body]
fn map_new() -> (r: Numbers)
    ensures
        numbers_held(r) == map_of(Seq::empty(), 0),
{
    Numbers { map: HashMap::new() }
}

/// `HashMap::insert` on a map from strings. The claim is that the name then has the number,
/// whether or not it had one before, and that nothing else changes.
#[verifier::external_body]
fn map_insert(n: &mut Numbers, name: String, number: usize)
    ensures
        numbers_held(*final(n)) == numbers_held(*old(n)).insert(name@, number as nat),
{
    n.map.insert(name, number);
}

/// `HashMap::get` on a map from strings. The claim is that it finds the number of a name
/// that the map holds, and nothing for any other name.
#[verifier::external_body]
fn map_get(n: &Numbers, name: &String) -> (r: Option<usize>)
    ensures
        match r {
            Some(x) => numbers_held(*n).dom().contains(name@) && numbers_held(*n)[name@] == x,
            None => !numbers_held(*n).dom().contains(name@),
        },
{
    n.map.get(name).copied()
}

/// `HashMap::iter` on a map from strings. The claim is that it gives every name that the
/// map holds once, with its number. In which order it gives them is not said.
#[verifier::external_body]
fn map_iter(n: &Numbers) -> (r: Vec<(String, usize)>)
    ensures
        lists_once(r@, numbers_held(*n)),
{
    n.map.iter().map(|(name, number)| (name.clone(), *number)).collect()
}

/// Whether a list gives every name of a map once, with its number.
pub open spec fn lists_once(s: Seq<(String, usize)>, m: Map<Seq<char>, nat>) -> bool {
    &&& forall|i: int|
        0 <= i < s.len() ==> m.dom().contains((#[trigger] s[i]).0@) && m[s[i].0@] == s[i].1
    &&& forall|name: Seq<char>| #[trigger] m.dom().contains(name) ==> has_name(s, name)
    &&& forall|i: int, j: int|
        0 <= i < j < s.len() ==> (#[trigger] s[i]).0@ != (#[trigger] s[j]).0@
}

/// Whether a list has a name.
pub open spec fn has_name(s: Seq<(String, usize)>, name: Seq<char>) -> bool {
    exists|i: int| 0 <= i < s.len() && (#[trigger] s[i]).0@ == name
}

/// The map of the first `k` entries of a list; a later entry of a name counts.
pub open spec fn map_of(s: Seq<(Seq<char>, nat)>, k: int) -> Map<Seq<char>, nat>
    decreases k,
{
    if k <= 0 {
        Map::empty()
    } else {
        map_of(s, k - 1).insert(s[k - 1].0, s[k - 1].1)
    }
}

/// The content of a list of numbers by name.
pub open spec fn entries_of(s: Seq<(String, usize)>) -> Seq<(Seq<char>, nat)> {
    Seq::new(s.len(), |i: int| (s[i].0@, s[i].1 as nat))
}

impl View for Numbers {
    type V = Map<Seq<char>, nat>;

    open spec fn view(&self) -> Map<Seq<char>, nat> {
        numbers_held(*self)
    }
}

impl Numbers {
    /// The numbers of a list; a later entry of a name counts.
    pub fn of(entries: Vec<(String, usize)>) -> (r: Numbers)
        ensures
            r@ == map_of(entries_of(entries@), entries@.len() as int),
    {
        let mut r = map_new();
        let mut i: usize = 0;
        while i < entries.len()
            invariant
                i <= entries@.len(),
                r@ == map_of(entries_of(entries@), i as int),
            decreases entries@.len() - i,
        {
            map_insert(&mut r, entries[i].0.clone(), entries[i].1);
            i = i + 1;
        }
        r
    }

    /// The number of a name.
    pub fn get(&self, name: &String) -> (r: Option<usize>)
        ensures
            match r {
                Some(x) => self@.dom().contains(name@) && self@[name@] == x,
                None => !self@.dom().contains(name@),
            },
    {
        map_get(self, name)
    }

    /// The names in the order of their numbers, those of one number in the order of the
    /// names.
    pub fn in_order(&self) -> (r: Vec<String>)
        ensures
            texts(r@) == sorted_names(self@),
            is_sorted_names(texts(r@), self@),
    {
        let entries = map_iter(self);
        let order = order_by_place(&entries);
        let ghost o = as_ints(order@);
        let ghost keys = placed_keys(entries@);
        let ghost keep = keep_all(entries@.len());
        let mut r: Vec<String> = Vec::new();
        let mut i: usize = 0;
        while i < order.len()
            invariant
                i <= order@.len(),
                o == as_ints(order@),
                keys == placed_keys(entries@),
                is_selection(o, keys, keep),
                r@.len() == i,
                forall|j: int| 0 <= j < i ==> (#[trigger] r@[j])@ == entries@[o[j]].0@,
            decreases order@.len() - i,
        {
            proof {
                assert(0 <= o[i as int] < keys.len());
            }
            r.push(entries[order[i]].0.clone());
            i = i + 1;
        }
        proof {
            let s = texts(r@);
            let m = self@;
            assert forall|a: int| 0 <= a < s.len() implies m.dom().contains(#[trigger] s[a])
                && keys[o[a]] == Key::Placed(m[s[a]], s[a]) by {
                assert(0 <= o[a] < keys.len());
                assert(r@[a]@ == entries@[o[a]].0@);
            }
            assert forall|a: int, b: int| 0 <= a < b < s.len() implies s[a] != s[b] && key_le(
                Key::Placed(m[s[a]], s[a]),
                Key::Placed(m[s[b]], s[b]),
            ) by {
                assert(crate::selection::stands_before(keys, o[a], o[b]));
                assert(m.dom().contains(s[a]) && m.dom().contains(s[b]));
                assert(0 <= o[a] < keys.len() && 0 <= o[b] < keys.len());
                if o[a] == o[b] {
                    assert(o[a] < o[b]);
                }
                assert(entries@[o[a]].0@ != entries@[o[b]].0@);
            }
            assert forall|name: Seq<char>| #[trigger] m.dom().contains(name) implies s.contains(
                name,
            ) by {
                assert(has_name(entries@, name));
                let c = choose|c: int| 0 <= c < entries@.len() && (#[trigger] entries@[c]).0@ == name;
                assert(keep[c]);
                assert(o.contains(c));
                let k = choose|k: int| 0 <= k < o.len() && o[k] == c;
                assert(s[k] == name);
            }
            assert(is_sorted_names(s, m));
            sorted_names_unique(s, sorted_names(m), m);
        }
        r
    }

    /// A copy.
    pub fn duplicate(&self) -> (r: Numbers)
        ensures
            r@ == self@,
    {
        let entries = map_iter(self);
        let ghost list = entries_of(entries@);
        let ghost m = self@;
        let r = Numbers::of(entries);
        proof {
            map_of_distinct(list, list.len() as int);
            assert(r@ =~= m) by {
                assert forall|name: Seq<char>| r@.dom().contains(name) == m.dom().contains(name) by {
                    if m.dom().contains(name) {
                        assert(has_name(entries@, name));
                        let c = choose|c: int|
                            0 <= c < entries@.len() && (#[trigger] entries@[c]).0@ == name;
                        assert(list[c].0 == name);
                    }
                    if r@.dom().contains(name) {
                        let c = choose|c: int| 0 <= c < list.len() && (#[trigger] list[c]).0 == name;
                        assert(entries@[c].0@ == name);
                    }
                }
                assert forall|name: Seq<char>| r@.dom().contains(name) implies r@[name] == m[name] by {
                    let c = choose|c: int| 0 <= c < list.len() && (#[trigger] list[c]).0 == name;
                    assert(entries@[c].0@ == name);
                    assert(r@[list[c].0] == list[c].1);
                }
            }
        }
        r
    }
}

/// The texts of several names.
pub open spec fn texts(s: Seq<String>) -> Seq<Seq<char>> {
    Seq::new(s.len(), |i: int| s[i]@)
}

/// Whether `s` has every name of a map once, in the order of their numbers, those of one
/// number in the order of the names.
pub open spec fn is_sorted_names(s: Seq<Seq<char>>, m: Map<Seq<char>, nat>) -> bool {
    &&& forall|i: int| 0 <= i < s.len() ==> m.dom().contains(#[trigger] s[i])
    &&& forall|name: Seq<char>| #[trigger] m.dom().contains(name) ==> s.contains(name)
    &&& forall|i: int, j: int|
        0 <= i < j < s.len() ==> (#[trigger] s[i]) != (#[trigger] s[j]) && key_le(
            Key::Placed(m[s[i]], s[i]),
            Key::Placed(m[s[j]], s[j]),
        )
}

/// The names of a map in the order of their numbers, those of one number in the order of the
/// names.
pub open spec fn sorted_names(m: Map<Seq<char>, nat>) -> Seq<Seq<char>> {
    choose|s: Seq<Seq<char>>| is_sorted_names(s, m)
}

proof fn same_place(m: Map<Seq<char>, nat>, a: Seq<char>, b: Seq<char>)
    requires
        key_le(Key::Placed(m[a], a), Key::Placed(m[b], b)),
        key_le(Key::Placed(m[b], b), Key::Placed(m[a], a)),
    ensures
        a == b,
{
    bytes_le_antisymmetric(name_bytes(a), name_bytes(b));
    encode_utf8_decode_utf8(a);
    encode_utf8_decode_utf8(b);
}

proof fn sorted_prefix_agrees(
    s: Seq<Seq<char>>,
    t: Seq<Seq<char>>,
    m: Map<Seq<char>, nat>,
    k: int,
)
    requires
        is_sorted_names(s, m),
        is_sorted_names(t, m),
        0 <= k <= s.len(),
        k <= t.len(),
    ensures
        forall|i: int| 0 <= i < k ==> s[i] == t[i],
    decreases k,
{
    if k > 0 {
        sorted_prefix_agrees(s, t, m, k - 1);
        let i = k - 1;
        assert(m.dom().contains(s[i]) && m.dom().contains(t[i]));
        let a = choose|a: int| 0 <= a < t.len() && t[a] == s[i];
        let b = choose|b: int| 0 <= b < s.len() && s[b] == t[i];
        if a < i {
            assert(s[a] == t[a]);
            assert(s[a] != s[i]);
        }
        if b < i {
            assert(s[b] == t[b]);
            assert(t[b] != t[i]);
        }
        if a > i && b > i {
            assert(key_le(Key::Placed(m[t[i]], t[i]), Key::Placed(m[t[a]], t[a])));
            assert(key_le(Key::Placed(m[s[i]], s[i]), Key::Placed(m[s[b]], s[b])));
            same_place(m, s[i], t[i]);
        }
    }
}

/// There is one such order.
pub proof fn sorted_names_unique(s: Seq<Seq<char>>, t: Seq<Seq<char>>, m: Map<Seq<char>, nat>)
    requires
        is_sorted_names(s, m),
        is_sorted_names(t, m),
    ensures
        s == t,
{
    let k = if s.len() < t.len() {
        s.len() as int
    } else {
        t.len() as int
    };
    sorted_prefix_agrees(s, t, m, k);
    if s.len() < t.len() {
        assert(m.dom().contains(t[k]));
        let j = choose|j: int| 0 <= j < s.len() && s[j] == t[k];
        assert(t[j] != t[k]);
    }
    if t.len() < s.len() {
        assert(m.dom().contains(s[k]));
        let j = choose|j: int| 0 <= j < t.len() && t[j] == s[k];
        assert(s[j] != s[k]);
    }
    assert(s =~= t);
}

/// Whether the names of a list are distinct.
pub open spec fn distinct(s: Seq<(Seq<char>, nat)>) -> bool {
    forall|i: int, j: int| 0 <= i < j < s.len() ==> (#[trigger] s[i]).0 != (#[trigger] s[j]).0
}

/// The map of a list of distinct names holds exactly its entries.
pub proof fn map_of_distinct(s: Seq<(Seq<char>, nat)>, k: int)
    requires
        0 <= k <= s.len(),
        distinct(s),
    ensures
        forall|i: int|
            0 <= i < k ==> map_of(s, k).dom().contains((#[trigger] s[i]).0) && map_of(s, k)[s[i].0]
                == s[i].1,
        forall|name: Seq<char>| #[trigger]
            map_of(s, k).dom().contains(name) ==> exists|i: int|
                0 <= i < k && (#[trigger] s[i]).0 == name,
    decreases k,
{
    if k > 0 {
        map_of_distinct(s, k - 1);
        assert forall|name: Seq<char>| #[trigger]
            map_of(s, k).dom().contains(name) implies exists|i: int|
            0 <= i < k && (#[trigger] s[i]).0 == name by {
            if name == s[k - 1].0 {
                assert(s[k - 1].0 == name);
            } else {
                assert(map_of(s, k - 1).dom().contains(name));
                let i = choose|i: int| 0 <= i < k - 1 && (#[trigger] s[i]).0 == name;
                assert(s[i].0 == name);
            }
        }
    }
}

/// Distinct names that are numbered in turn come in the order of the list.
pub proof fn numbered_in_turn(names: Seq<Seq<char>>)
    requires
        forall|i: int, j: int|
            0 <= i < j < names.len() ==> (#[trigger] names[i]) != (#[trigger] names[j]),
    ensures
        sorted_names(turns(names)) == names,
{
    let list = turn_list(names);
    let m = turns(names);
    assert(distinct(list)) by {
        assert forall|i: int, j: int| 0 <= i < j < list.len() implies (#[trigger] list[i]).0 != (
        #[trigger] list[j]).0 by {
            assert(names[i] != names[j]);
        }
    }
    map_of_distinct(list, list.len() as int);
    assert forall|i: int| 0 <= i < names.len() implies m.dom().contains(#[trigger] names[i])
        && m[names[i]] == i by {
        assert(list[i].0 == names[i]);
    }
    assert forall|name: Seq<char>| #[trigger] m.dom().contains(name) implies names.contains(
        name,
    ) by {
        let i = choose|i: int| 0 <= i < list.len() && (#[trigger] list[i]).0 == name;
        assert(names[i] == name);
    }
    assert(is_sorted_names(names, m));
    sorted_names_unique(names, sorted_names(m), m);
}

/// Names numbered in turn.
pub open spec fn turn_list(names: Seq<Seq<char>>) -> Seq<(Seq<char>, nat)> {
    Seq::new(names.len(), |i: int| (names[i], i as nat))
}

/// The map of names numbered in turn.
pub open spec fn turns(names: Seq<Seq<char>>) -> Map<Seq<char>, nat> {
    map_of(turn_list(names), names.len() as int)
}

} // verus!
