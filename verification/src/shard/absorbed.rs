//! What the transcript of a shard absorbs, as one list of field elements.
use vstd::prelude::*;
use crate::ext::E4;
use crate::felt::reduce;
use crate::shard::names::name_bytes;
use crate::shard::openings::{observe_openings, observe_pairs, observe_prefixed, prologue};
use crate::shard::types::ShardChip;
use crate::transcript::Sponge;

verus! {

/// Absorbing two lists in turn is absorbing them as one.
pub proof fn observe_all_concat(s: Sponge, a: Seq<int>, b: Seq<int>)
    ensures
        s.observe_all(a).observe_all(b) == s.observe_all(a + b),
    decreases b.len(),
{
    if b.len() == 0 {
        assert(a + b =~= a);
    } else {
        observe_all_concat(s, a, b.drop_last());
        assert((a + b).drop_last() =~= a + b.drop_last());
        assert((a + b).last() == b.last());
    }
}

/// Absorbing one element.
proof fn observe_one(s: Sponge, x: int)
    ensures
        s.observe(x) == s.observe_all(seq![x]),
{
    assert(seq![x].drop_last() =~= Seq::<int>::empty());
    reveal_with_fuel(Sponge::observe_all, 2);
}

/// The coefficients of several elements, lowest first.
pub open spec fn coefficients(v: Seq<E4>) -> Seq<int>
    decreases v.len(),
{
    if v.len() == 0 {
        Seq::empty()
    } else {
        coefficients(v.drop_last()) + seq![v.last().c0, v.last().c1, v.last().c2, v.last().c3]
    }
}

/// Absorbing extension elements is absorbing their coefficients, lowest first.
pub proof fn observe_exts_is_coefficients(s: Sponge, v: Seq<E4>)
    ensures
        s.observe_exts(v) == s.observe_all(coefficients(v)),
    decreases v.len(),
{
    if v.len() > 0 {
        observe_exts_is_coefficients(s, v.drop_last());
        let t = s.observe_exts(v.drop_last());
        let e = v.last();
        let four = seq![e.c0, e.c1, e.c2, e.c3];
        reveal(Sponge::observe_ext);
        reveal_with_fuel(Sponge::observe_all, 5);
        assert(four.drop_last() =~= seq![e.c0, e.c1, e.c2]);
        assert(four.drop_last().drop_last() =~= seq![e.c0, e.c1]);
        assert(four.drop_last().drop_last().drop_last() =~= seq![e.c0]);
        assert(four.drop_last().drop_last().drop_last().drop_last() =~= Seq::<int>::empty());
        assert(t.observe_ext(e) == t.observe_all(four));
        observe_all_concat(s, coefficients(v.drop_last()), four);
    }
}

/// What is absorbed of the first `k` chips: of each its height, the number of bytes of its
/// name, and the bytes.
pub open spec fn chip_words(chips: Seq<ShardChip>, heights: Seq<nat>, k: nat) -> Seq<int>
    decreases k,
{
    if k == 0 {
        Seq::empty()
    } else {
        let b = name_bytes(chips[k - 1].name@);
        chip_words(chips, heights, (k - 1) as nat) + seq![
            reduce(heights[k - 1] as int),
            reduce(b.len() as int),
        ] + Seq::new(b.len(), |i: int| reduce(b[i] as int))
    }
}

/// The prologue absorbs the public values, the commitment, the number of chips, and of every
/// chip its height, the number of bytes of its name, and the bytes, in this order.
pub proof fn prologue_absorbs(
    s: Sponge,
    public_values: Seq<int>,
    commitment: Seq<int>,
    chips: Seq<ShardChip>,
    heights: Seq<nat>,
)
    ensures
        prologue(s, public_values, commitment, chips, heights) == s.observe_all(
            public_values + commitment + seq![reduce(chips.len() as int)] + chip_words(
                chips,
                heights,
                chips.len(),
            ),
        ),
{
    let n = reduce(chips.len() as int);
    let head = public_values + commitment + seq![n];
    observe_all_concat(s, public_values, commitment);
    observe_one(s.observe_all(public_values + commitment), n);
    observe_all_concat(s, public_values + commitment, seq![n]);
    chips_absorb(s.observe_all(head), chips, heights, chips.len());
    observe_all_concat(s, head, chip_words(chips, heights, chips.len()));
}

proof fn chips_absorb(s: Sponge, chips: Seq<ShardChip>, heights: Seq<nat>, k: nat)
    ensures
        crate::shard::openings::observe_chips(s, chips, heights, k) == s.observe_all(
            chip_words(chips, heights, k),
        ),
    decreases k,
{
    if k > 0 {
        chips_absorb(s, chips, heights, (k - 1) as nat);
        let before = chip_words(chips, heights, (k - 1) as nat);
        let t = s.observe_all(before);
        let b = name_bytes(chips[k - 1].name@);
        let (h, n) = (reduce(heights[k - 1] as int), reduce(b.len() as int));
        let bytes = Seq::new(b.len(), |i: int| reduce(b[i] as int));
        assert(crate::shard::openings::byte_felts(b) =~= bytes);
        observe_one(t, h);
        observe_one(t.observe(h), n);
        observe_all_concat(t, seq![h], seq![n]);
        assert(seq![h] + seq![n] =~= seq![h, n]);
        observe_all_concat(s, before, seq![h, n]);
        observe_all_concat(s, before + seq![h, n], bytes);
    }
}

/// What is absorbed of the first `k` pairs of lists: of each list the number of its elements,
/// then their coefficients.
pub open spec fn pair_words(pairs: Seq<(Seq<E4>, Seq<E4>)>, k: nat) -> Seq<int>
    decreases k,
{
    if k == 0 {
        Seq::empty()
    } else {
        let (a, b) = pairs[k - 1];
        pair_words(pairs, (k - 1) as nat) + (seq![reduce(a.len() as int)] + coefficients(a)) + (seq![
            reduce(b.len() as int),
        ] + coefficients(b))
    }
}

/// The openings are absorbed as the number of chips, then of every chip its preprocessed and
/// its main columns, each list with its length before it.
pub proof fn openings_absorb(s: Sponge, num_chips: nat, pairs: Seq<(Seq<E4>, Seq<E4>)>)
    ensures
        observe_openings(s, num_chips, pairs) == s.observe_all(
            seq![reduce(num_chips as int)] + pair_words(pairs, pairs.len()),
        ),
{
    let n = reduce(num_chips as int);
    observe_one(s, n);
    pairs_absorb(s.observe(n), pairs, pairs.len());
    observe_all_concat(s, seq![n], pair_words(pairs, pairs.len()));
}

proof fn prefixed_absorbs(s: Sponge, v: Seq<E4>)
    ensures
        observe_prefixed(s, v) == s.observe_all(seq![reduce(v.len() as int)] + coefficients(v)),
{
    let n = reduce(v.len() as int);
    observe_one(s, n);
    observe_exts_is_coefficients(s.observe(n), v);
    observe_all_concat(s, seq![n], coefficients(v));
}

proof fn pairs_absorb(s: Sponge, pairs: Seq<(Seq<E4>, Seq<E4>)>, k: nat)
    ensures
        observe_pairs(s, pairs, k) == s.observe_all(pair_words(pairs, k)),
    decreases k,
{
    if k > 0 {
        pairs_absorb(s, pairs, (k - 1) as nat);
        let before = pair_words(pairs, (k - 1) as nat);
        let (a, b) = pairs[k - 1];
        let wa = seq![reduce(a.len() as int)] + coefficients(a);
        let wb = seq![reduce(b.len() as int)] + coefficients(b);
        let t = s.observe_all(before);
        prefixed_absorbs(t, a);
        prefixed_absorbs(t.observe_all(wa), b);
        observe_all_concat(s, before, wa);
        observe_all_concat(s, before + wa, wb);
    }
}

} // verus!
