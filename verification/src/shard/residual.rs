//! What the prover keeps of the constraint argument: every chip's columns at the reduced
//! point, preprocessed columns first.
use vstd::prelude::*;
use vstd::arithmetic::div_mod::lemma_div_denominator;
use vstd::arithmetic::power2::{lemma2_to64, lemma_pow2_pos, lemma_pow2_unfold, pow2};
use crate::arith::{ceil_log2, ceil_log2_of};
use crate::ext::{e_one, e_zero, evals, Ext, E4};
use crate::multilinear::copy_exts;
use crate::shard::gkr::is_pow2;
use crate::shard::lookup::table_height;
use crate::shard::names::{as_ints, entry_index, entry_index_is_first, entry_value, find_entry,
    has_entry, is_name_order, name_order, name_order_exists, order_before, sorted_chips};
use crate::shard::openings::{observe_openings, observe_zerocheck_openings, raw_chip_height,
    raw_heights, slice_pairs, zerocheck_pairs, PaddedMle};
use crate::shard::places::{find_name_places, is_name_map, last_named, name_lt, name_places,
    name_places_hold};
use crate::shard::rebuild::zeros;
use crate::shard::types::{ChipOpenedValues, LogUpEvaluations, ShardChip};
use crate::transcript::Transcript;
use crate::whir::queries::zero_exts;

verus! {

/// The columns of a chip at the reduced point, none where the chip has no entry.
pub open spec fn residual_of(s: Seq<(String, Vec<Ext>)>, name: Seq<char>) -> Seq<E4> {
    if has_entry(s, name) {
        evals(entry_value(s, name)@)
    } else {
        Seq::empty()
    }
}

/// The number of preprocessed columns among `len` columns.
pub open spec fn split_at(width: nat, len: nat) -> nat {
    if width < len {
        width
    } else {
        len
    }
}

/// A chip's columns at the reduced point, split into preprocessed and main ones.
pub open spec fn residual_split(chip: ShardChip, columns: Seq<E4>) -> (Seq<E4>, Seq<E4>) {
    let k = split_at(chip.preprocessed_width as nat, columns.len());
    (columns.take(k as int), columns.skip(k as int))
}

/// The split columns of every chip, in the order of the chips' names.
pub open spec fn residual_pairs(
    chips: Seq<ShardChip>,
    trace_at_z: Seq<(String, Vec<Ext>)>,
) -> Seq<(Seq<E4>, Seq<E4>)> {
    let order = sorted_chips(chips);
    Seq::new(
        order.len(),
        |i: int| residual_split(chips[order[i]], residual_of(trace_at_z, chips[order[i]].name@)),
    )
}

/// Absorbs the number of chips and every chip's columns at the reduced point, in the
/// order of the chips' names.
pub fn observe_zerocheck_openings_from_residual(
    challenger: &mut Transcript,
    chips: &Vec<ShardChip>,
    trace_at_z: &Vec<(String, Vec<Ext>)>,
)
    requires
        old(challenger).wf(),
    ensures
        final(challenger).wf(),
        final(challenger)@ == observe_openings(
            old(challenger)@,
            chips@.len(),
            residual_pairs(chips@, trace_at_z@),
        ),
{
    let order = name_order(chips);
    let ghost o = as_ints(order@);
    let ghost pairs = residual_pairs(chips@, trace_at_z@);
    let none: Vec<Ext> = Vec::new();
    let mut per_chip: Vec<(&[Ext], &[Ext])> = Vec::new();
    let mut i: usize = 0;
    while i < order.len()
        invariant
            i <= order@.len(),
            o == as_ints(order@),
            o == sorted_chips(chips@),
            is_name_order(o, chips@),
            pairs == residual_pairs(chips@, trace_at_z@),
            none@.len() == 0,
            per_chip@.len() == i,
            forall|j: int|
                0 <= j < i ==> (
                evals((#[trigger] per_chip@[j]).0@),
                evals(per_chip@[j].1@),
            ) == pairs[j],
        decreases order@.len() - i,
    {
        proof {
            assert(o[i as int] == order@[i as int]);
        }
        let chip = &chips[order[i]];
        let columns = match find_entry(trace_at_z, &chip.name) {
            Some(at) => trace_at_z[at].1.as_slice(),
            None => none.as_slice(),
        };
        let n: usize = columns.len();
        let k: usize = if chip.preprocessed_width < n {
            chip.preprocessed_width
        } else {
            n
        };
        let prep = vstd::slice::slice_subrange(columns, 0, k);
        let main = vstd::slice::slice_subrange(columns, k, n);
        proof {
            let c = residual_of(trace_at_z@, chip.name@);
            assert(evals(columns@) =~= c);
            assert(evals(prep@) =~= c.take(k as int));
            assert(evals(main@) =~= c.skip(k as int));
        }
        per_chip.push((prep, main));
        i = i + 1;
    }
    proof {
        assert(slice_pairs(per_chip@) =~= pairs);
    }
    observe_zerocheck_openings(challenger, chips.len(), &per_chip);
}

/// One or zero.
pub open spec fn bit_value(b: bool) -> E4 {
    if b {
        e_one()
    } else {
        e_zero()
    }
}

/// The `n` lowest bits of a height, most significant first.
pub open spec fn degree_bits(height: nat, n: nat) -> Seq<E4> {
    Seq::new(n, |i: int| bit_value((height / pow2((n - 1 - i) as nat)) % 2 == 1))
}

fn height_bits(height: usize, n: usize) -> (r: Vec<Ext>)
    ensures
        evals(r@) == degree_bits(height as nat, n as nat),
        r@.len() == n,
{
    let mut r = zero_exts(n);
    let one = Ext::one();
    let mut h: usize = height;
    let mut k: usize = 0;
    proof {
        lemma2_to64();
    }
    while k < n
        invariant
            k <= n,
            r@.len() == n,
            one@ == e_one(),
            h == height as nat / pow2(k as nat),
            forall|i: int| 0 <= i < n - k ==> (#[trigger] r@[i])@ == e_zero(),
            forall|i: int|
                n - k <= i < n ==> (#[trigger] r@[i])@ == bit_value(
                    (height as nat / pow2((n - 1 - i) as nat)) % 2 == 1,
                ),
        decreases n - k,
    {
        if h % 2 == 1 {
            r.set(n - 1 - k, one);
        }
        proof {
            lemma_pow2_pos(k as nat);
            lemma_pow2_unfold((k + 1) as nat);
            lemma_div_denominator(height as int, pow2(k as nat) as int, 2);
            assert(pow2(k as nat) * 2 == pow2((k + 1) as nat));
        }
        h = h / 2;
        k = k + 1;
    }
    proof {
        assert(evals(r@) =~= degree_bits(height as nat, n as nat));
    }
    r
}

/// The height by name in a list of heights, zero where there is none.
pub open spec fn height_of(s: Seq<(String, usize)>, name: Seq<char>) -> nat {
    if has_entry(s, name) {
        entry_value(s, name) as nat
    } else {
        0
    }
}

/// Whether a list holds the heights of the first `k` chips by name, a later chip's before
/// an earlier one's of the same name.
pub open spec fn holds_heights(
    s: Seq<(String, usize)>,
    chips: Seq<ShardChip>,
    heights: Seq<nat>,
    k: nat,
) -> bool {
    &&& forall|c: int|
        #[trigger] last_named(chips, c, k) ==> has_entry(s, chips[c].name@) && entry_value(
            s,
            chips[c].name@,
        ) == heights[c]
    &&& forall|i: int|
        0 <= i < s.len() ==> is_named(chips, k, (#[trigger] s[i]).0@)
}

/// Whether one of the first `k` chips has a name.
pub open spec fn is_named(chips: Seq<ShardChip>, k: nat, name: Seq<char>) -> bool {
    exists|c: int| 0 <= c < k && (#[trigger] chips[c]).name@ == name
}

/// A map of the last chip's height of every name holds the heights of the chips.
proof fn heights_are_held(s: Seq<(String, usize)>, chips: Seq<ShardChip>, heights: Seq<nat>)
    requires
        is_name_order(sorted_chips(chips), chips),
        s.len() == name_places(chips).len(),
        forall|i: int|
            0 <= i < s.len() ==> (#[trigger] s[i]).0@ == chips[name_places(chips)[i]].name@ && s[i].1
                == heights[name_places(chips)[i]],
    ensures
        is_name_map(s),
        holds_heights(s, chips, heights, chips.len()),
{
    let p = name_places(chips);
    name_places_hold(chips);
    assert forall|c: int| #[trigger] last_named(chips, c, chips.len()) implies has_entry(
        s,
        chips[c].name@,
    ) && entry_value(s, chips[c].name@) == heights[c] by {
        let i = choose|i: int| 0 <= i < p.len() && p[i] == c;
        let name = chips[c].name@;
        entry_index_is_first(s, name, 0);
        let at = entry_index(s, name, 0) as int;
        assert(s[i].0@ == name);
        if at < i {
            assert(s[at].0@ == name);
            assert(name_lt(chips[p[at]].name@, chips[p[i]].name@));
        }
    }
    assert forall|i: int| 0 <= i < s.len() implies is_named(
        chips,
        chips.len(),
        (#[trigger] s[i]).0@,
    ) by {
        assert(0 <= p[i] < chips.len());
        assert(chips[p[i]].name@ == s[i].0@);
    }
    assert forall|i: int, j: int| 0 <= i < j < s.len() implies name_lt(
        (#[trigger] s[i]).0@,
        (#[trigger] s[j]).0@,
    ) by {
        assert(name_lt(chips[p[i]].name@, chips[p[j]].name@));
    }
}

/// The heights of the chips, by name: of chips of one name the last one's.
pub fn build_chip_heights(chips: &Vec<ShardChip>, shared_trace_mles: &Vec<PaddedMle>) -> (r: Vec<
    (String, usize),
>)
    requires
        chips@.len() == shared_trace_mles@.len(),
    ensures
        is_name_map(r@),
        r@.len() == name_places(chips@).len(),
        forall|i: int|
            0 <= i < r@.len() ==> {
                &&& (#[trigger] r@[i]).0@ == chips@[name_places(chips@)[i]].name@
                &&& r@[i].1 == raw_heights(shared_trace_mles@)[name_places(chips@)[i]]
            },
        holds_heights(r@, chips@, raw_heights(shared_trace_mles@), chips@.len()),
{
    let ghost hs = raw_heights(shared_trace_mles@);
    let places = find_name_places(chips);
    let ghost p = name_places(chips@);
    let mut r: Vec<(String, usize)> = Vec::new();
    let mut k: usize = 0;
    while k < places.len()
        invariant
            k <= places@.len(),
            p == as_ints(places@),
            p == name_places(chips@),
            is_name_order(sorted_chips(chips@), chips@),
            forall|i: int| 0 <= i < places@.len() ==> (#[trigger] places@[i]) < chips@.len(),
            chips@.len() == shared_trace_mles@.len(),
            hs == raw_heights(shared_trace_mles@),
            r@.len() == k,
            forall|i: int|
                0 <= i < k ==> (#[trigger] r@[i]).0@ == chips@[p[i]].name@ && r@[i].1 == hs[p[i]],
        decreases places@.len() - k,
    {
        let at: usize = places[k];
        proof {
            assert(p[k as int] == at);
        }
        let h: usize = raw_chip_height(&shared_trace_mles[at]);
        r.push((chips[at].name.clone(), h));
        k = k + 1;
    }
    proof {
        heights_are_held(r@, chips@, hs);
    }
    r
}

/// Whether the chip at place `i` of an order has the name of the one before it.
pub open spec fn repeats(chips: Seq<ShardChip>, order: Seq<int>, i: int) -> bool {
    i > 0 && chips[order[i - 1]].name@ == chips[order[i]].name@
}

/// The opened values of the chip at place `i` of the order: its columns at the reduced
/// point, which go to the first chip of a name, and its height.
pub open spec fn opened_at(
    chips: Seq<ShardChip>,
    trace_at_z: Seq<(String, Vec<Ext>)>,
    i: int,
) -> (Seq<E4>, Seq<E4>) {
    let order = sorted_chips(chips);
    let chip = chips[order[i]];
    residual_split(
        chip,
        if repeats(chips, order, i) {
            Seq::empty()
        } else {
            residual_of(trace_at_z, chip.name@)
        },
    )
}

/// Whether one chip's opened values are its columns at the reduced point, the bits of its
/// height, and the logarithm of its height.
pub open spec fn opened_matches(
    v: ChipOpenedValues,
    columns: (Seq<E4>, Seq<E4>),
    height: nat,
    max_log_row_count: nat,
) -> bool {
    &&& evals(v.preprocessed@) == columns.0
    &&& evals(v.main@) == columns.1
    &&& v.quotient@.len() == 1
    &&& v.degree() == degree_bits(height, max_log_row_count + 1)
    &&& v.log_degree == ceil_log2_of(height)
}

/// The opened values of every chip, in the order of the chips' names.
pub fn build_opened_values(
    chips: &Vec<ShardChip>,
    trace_at_z: &Vec<(String, Vec<Ext>)>,
    chip_heights: &Vec<(String, usize)>,
    max_log_row_count: usize,
) -> (r: Vec<ChipOpenedValues>)
    requires
        max_log_row_count < usize::MAX,
    ensures
        r@.len() == chips@.len(),
        forall|i: int|
            0 <= i < r@.len() ==> opened_matches(
                #[trigger] r@[i],
                opened_at(chips@, trace_at_z@, i),
                height_of(chip_heights@, chips@[sorted_chips(chips@)[i]].name@),
                max_log_row_count as nat,
            ),
{
    let order = name_order(chips);
    let ghost o = as_ints(order@);
    let mut r: Vec<ChipOpenedValues> = Vec::new();
    let mut i: usize = 0;
    while i < order.len()
        invariant
            i <= order@.len(),
            max_log_row_count < usize::MAX,
            o == as_ints(order@),
            o == sorted_chips(chips@),
            is_name_order(o, chips@),
            r@.len() == i,
            forall|j: int|
                0 <= j < i ==> opened_matches(
                    #[trigger] r@[j],
                    opened_at(chips@, trace_at_z@, j),
                    height_of(chip_heights@, chips@[o[j]].name@),
                    max_log_row_count as nat,
                ),
        decreases order@.len() - i,
    {
        proof {
            assert(o[i as int] == order@[i as int]);
            if i > 0 {
                assert(o[i - 1] == order@[i - 1]);
            }
        }
        let chip = &chips[order[i]];
        let repeated = i > 0 && chips[order[i - 1]].name == chip.name;
        let columns: Vec<Ext> = if repeated {
            Vec::new()
        } else {
            match find_entry(trace_at_z, &chip.name) {
                Some(at) => copy_exts(trace_at_z[at].1.as_slice()),
                None => Vec::new(),
            }
        };
        let n: usize = columns.len();
        let k: usize = if chip.preprocessed_width < n {
            chip.preprocessed_width
        } else {
            n
        };
        let preprocessed = copy_exts(vstd::slice::slice_subrange(columns.as_slice(), 0, k));
        let main = copy_exts(vstd::slice::slice_subrange(columns.as_slice(), k, n));
        let height: usize = match find_entry(chip_heights, &chip.name) {
            Some(at) => chip_heights[at].1,
            None => 0,
        };
        let bits = height_bits(height, max_log_row_count + 1);
        let mut quotient: Vec<Vec<Ext>> = Vec::new();
        quotient.push(bits);
        let v = ChipOpenedValues { preprocessed, main, quotient, log_degree: ceil_log2(height) };
        proof {
            let c = if repeats(chips@, o, i as int) {
                Seq::empty()
            } else {
                residual_of(trace_at_z@, chip.name@)
            };
            assert(evals(columns@) =~= c);
            assert(evals(v.preprocessed@) =~= c.take(k as int));
            assert(evals(v.main@) =~= c.skip(k as int));
        }
        r.push(v);
        i = i + 1;
    }
    r
}

/// Whether no two chips share a name.
pub open spec fn distinct_names(chips: Seq<ShardChip>) -> bool {
    forall|i: int, j: int|
        0 <= i < j < chips.len() ==> (#[trigger] chips[i]).name@ != (#[trigger] chips[j]).name@
}

/// What the prover absorbs of the columns at the reduced point is what the verifier
/// absorbs of the opened values.
pub proof fn observed_openings_agree(
    chips: Seq<ShardChip>,
    trace_at_z: Seq<(String, Vec<Ext>)>,
    opened: Seq<ChipOpenedValues>,
)
    requires
        distinct_names(chips),
        chips.len() <= usize::MAX,
        opened.len() == chips.len(),
        forall|i: int|
            #![trigger opened[i]]
            0 <= i < opened.len() ==> (evals(opened[i].preprocessed@), evals(opened[i].main@))
                == opened_at(chips, trace_at_z, i),
    ensures
        zerocheck_pairs(opened) == residual_pairs(chips, trace_at_z),
{
    name_order_exists(chips);
    let o = sorted_chips(chips);
    let a = zerocheck_pairs(opened);
    let b = residual_pairs(chips, trace_at_z);
    assert forall|i: int| 0 <= i < a.len() implies a[i] == b[i] by {
        assert((evals(opened[i].preprocessed@), evals(opened[i].main@)) == opened_at(
            chips,
            trace_at_z,
            i,
        ));
        if i > 0 {
            assert(order_before(chips, o[i - 1], o[i]));
            if o[i - 1] == o[i] {
                assert(o[i - 1] < o[i]);
            }
            if o[i - 1] < o[i] {
                assert(chips[o[i - 1]].name@ != chips[o[i]].name@);
            } else {
                assert(chips[o[i]].name@ != chips[o[i - 1]].name@);
            }
        }
    }
    assert(a =~= b);
}

/// The list of heights gives back the height of every chip.
pub proof fn heights_agree(
    s: Seq<(String, usize)>,
    chips: Seq<ShardChip>,
    heights: Seq<nat>,
    c: int,
)
    requires
        holds_heights(s, chips, heights, chips.len()),
        distinct_names(chips),
        0 <= c < chips.len(),
    ensures
        height_of(s, chips[c].name@) == heights[c],
{
    assert(last_named(chips, c, chips.len()));
}

/// The number of columns of a trace whose rows are at hand, none otherwise.
pub open spec fn trace_width(pm: PaddedMle) -> nat {
    match pm.inner {
        Some(t) => t.width as nat,
        None => 0,
    }
}

/// The columns and rows of chip `i` of the commitment. Of a chip whose rows are held
/// elsewhere, the number of columns is that of its columns at the reduced point without
/// the preprocessed ones.
pub open spec fn committed_dims(
    chip: ShardChip,
    commit_trace: PaddedMle,
    preprocessed: PaddedMle,
    trace_at_z: Seq<(String, Vec<Ext>)>,
    height: Option<usize>,
) -> (nat, nat) {
    let w = trace_width(commit_trace);
    if w == 0 {
        let n = residual_of(trace_at_z, chip.name@).len();
        let p = trace_width(preprocessed);
        (
            if n < p {
                0
            } else {
                (n - p) as nat
            },
            match height {
                Some(h) => h as nat,
                None => 0,
            },
        )
    } else {
        (w, table_height(commit_trace.inner->0.values@.len(), w))
    }
}

/// The claims for a chip's main columns: none for a chip without columns, zeros for one
/// without rows, else its main columns at the reduced point.
pub open spec fn residual_claims(
    dims: (nat, nat),
    prep_cols: nat,
    columns: Seq<E4>,
) -> Seq<E4> {
    if dims.0 == 0 {
        Seq::empty()
    } else if dims.1 == 0 {
        zeros(dims.0)
    } else {
        columns.skip(prep_cols as int)
    }
}

/// The entry of a list of heights, none past its end.
pub open spec fn height_at(heights: Seq<Option<usize>>, i: int) -> Option<usize> {
    if i < heights.len() {
        heights[i]
    } else {
        None
    }
}

/// Whether a chip's columns at the reduced point are those of its commitment. Without
/// the reversed orientation the height of a chip with rows is a power of two.
pub open spec fn residual_fits(
    chip: ShardChip,
    dims: (nat, nat),
    prep_cols: nat,
    trace_at_z: Seq<(String, Vec<Ext>)>,
    use_rev: bool,
) -> bool {
    dims.0 > 0 && dims.1 > 0 ==> {
        &&& use_rev || is_pow2(dims.1)
        &&& has_entry(trace_at_z, chip.name@)
        &&& residual_of(trace_at_z, chip.name@).len() == prep_cols + dims.0
    }
}

/// The claims for every chip's main columns, taken from the columns at the reduced point.
pub fn compute_residual_y_openings(
    chips: &Vec<ShardChip>,
    commit_traces: &Vec<PaddedMle>,
    preprocessed_traces: &Vec<PaddedMle>,
    trace_at_z: &Vec<(String, Vec<Ext>)>,
    logup_evaluations: &LogUpEvaluations,
    heights: &Vec<Option<usize>>,
    use_rev: bool,
) -> (r: Vec<Vec<Ext>>)
    requires
        logup_evaluations.chip_openings@.len() > 0,
        chips@.len() == commit_traces@.len(),
        chips@.len() == preprocessed_traces@.len(),
        forall|i: int|
            #![trigger chips@[i]]
            0 <= i < chips@.len() ==> residual_fits(
                chips@[i],
                committed_dims(
                    chips@[i],
                    commit_traces@[i],
                    preprocessed_traces@[i],
                    trace_at_z@,
                    height_at(heights@, i),
                ),
                trace_width(preprocessed_traces@[i]),
                trace_at_z@,
                use_rev,
            ),
    ensures
        r@.len() == chips@.len(),
        forall|i: int|
            0 <= i < r@.len() ==> evals((#[trigger] r@[i])@) == residual_claims(
                committed_dims(
                    chips@[i],
                    commit_traces@[i],
                    preprocessed_traces@[i],
                    trace_at_z@,
                    height_at(heights@, i),
                ),
                trace_width(preprocessed_traces@[i]),
                residual_of(trace_at_z@, chips@[i].name@),
            ),
{
    let mut r: Vec<Vec<Ext>> = Vec::new();
    let none: Vec<Ext> = Vec::new();
    let mut i: usize = 0;
    while i < chips.len()
        invariant
            i <= chips@.len(),
            none@.len() == 0,
            chips@.len() == commit_traces@.len(),
            chips@.len() == preprocessed_traces@.len(),
            forall|i: int|
                #![trigger chips@[i]]
                0 <= i < chips@.len() ==> residual_fits(
                    chips@[i],
                    committed_dims(
                        chips@[i],
                        commit_traces@[i],
                        preprocessed_traces@[i],
                        trace_at_z@,
                        height_at(heights@, i),
                    ),
                    trace_width(preprocessed_traces@[i]),
                    trace_at_z@,
                    use_rev,
                ),
            r@.len() == i,
            forall|i: int|
                0 <= i < r@.len() ==> evals((#[trigger] r@[i])@) == residual_claims(
                    committed_dims(
                        chips@[i],
                        commit_traces@[i],
                        preprocessed_traces@[i],
                        trace_at_z@,
                        height_at(heights@, i),
                    ),
                    trace_width(preprocessed_traces@[i]),
                    residual_of(trace_at_z@, chips@[i].name@),
                ),
        decreases chips@.len() - i,
    {
        let ghost dims = committed_dims(
            chips@[i as int],
            commit_traces@[i as int],
            preprocessed_traces@[i as int],
            trace_at_z@,
            height_at(heights@, i as int),
        );
        let columns = match find_entry(trace_at_z, &chips[i].name) {
            Some(at) => trace_at_z[at].1.as_slice(),
            None => none.as_slice(),
        };
        proof {
            assert(evals(columns@) =~= residual_of(trace_at_z@, chips@[i as int].name@));
            assert(evals(columns@).len() == columns@.len());
        }
        let n: usize = columns.len();
        let prep_cols: usize = match &preprocessed_traces[i].inner {
            Some(t) => t.width,
            None => 0,
        };
        let width: usize = match &commit_traces[i].inner {
            Some(t) => t.width,
            None => 0,
        };
        let (w, h): (usize, usize) = if width == 0 {
            (
                if n < prep_cols {
                    0
                } else {
                    n - prep_cols
                },
                if i < heights.len() {
                    match heights[i] {
                        Some(h) => h,
                        None => 0,
                    }
                } else {
                    0
                },
            )
        } else {
            match &commit_traces[i].inner {
                Some(t) => (t.width, t.values.len() / t.width),
                None => (0, 0),
            }
        };
        proof {
            assert((w as nat, h as nat) == dims);
        }
        let y: Vec<Ext> = if w == 0 {
            Vec::new()
        } else if h == 0 {
            zero_exts(w)
        } else {
            copy_exts(vstd::slice::slice_subrange(columns, prep_cols, n))
        };
        proof {
            assert(evals(y@) =~= residual_claims(
                dims,
                prep_cols as nat,
                residual_of(trace_at_z@, chips@[i as int].name@),
            ));
        }
        r.push(y);
        i = i + 1;
    }
    r
}

/// A chip's columns at the reduced point are split without loss: the preprocessed ones first,
/// as many as the chip has, then the main ones.
pub proof fn split_columns_are_all_columns(chip: ShardChip, columns: Seq<E4>)
    ensures
        ({
            let (prep, main) = residual_split(chip, columns);
            &&& prep + main == columns
            &&& columns.len() >= chip.preprocessed_width ==> prep.len() == chip.preprocessed_width
            &&& columns.len() < chip.preprocessed_width ==> main.len() == 0
        }),
{
    let (prep, main) = residual_split(chip, columns);
    assert(prep + main =~= columns);
}

/// The claims of a committed trace are the values of its own columns, after those of its
/// preprocessed columns; those of a trace without rows are zero.
pub proof fn claims_are_of_own_columns(prep: Seq<E4>, main: Seq<E4>, rows: nat)
    ensures
        rows > 0 ==> residual_claims((main.len(), rows), prep.len(), prep + main) == main,
        rows == 0 ==> residual_claims((main.len(), rows), prep.len(), prep + main) == Seq::new(
            main.len(),
            |i: int| e_zero(),
        ),
{
    let claims = residual_claims((main.len(), rows), prep.len(), prep + main);
    if rows > 0 {
        assert(claims =~= main);
    } else {
        assert(claims =~= Seq::new(main.len(), |i: int| e_zero()));
    }
}

/// The columns and rows that are claimed of a committed trace are its own where it is at hand.
/// Where it is not, its columns are the opened ones past the preprocessed ones, and its rows
/// those that are given for it.
pub proof fn committed_dims_are_the_traces(
    chip: ShardChip,
    commit_trace: PaddedMle,
    preprocessed: PaddedMle,
    trace_at_z: Seq<(String, Vec<Ext>)>,
    height: Option<usize>,
)
    ensures
        commit_trace.inner matches Some(t) ==> t.width > 0 ==> committed_dims(
            chip,
            commit_trace,
            preprocessed,
            trace_at_z,
            height,
        ) == (t.width as nat, t.values@.len() / (t.width as nat)),
        commit_trace.inner is None && has_entry(trace_at_z, chip.name@) && height is Some && (
        preprocessed.inner is None || preprocessed.inner->0.width <= entry_value(
            trace_at_z,
            chip.name@,
        )@.len()) ==> ({
            let d = committed_dims(chip, commit_trace, preprocessed, trace_at_z, height);
            &&& d.1 == height->0
            &&& d.0 + (if preprocessed.inner is Some {
                preprocessed.inner->0.width as nat
            } else {
                0
            }) == entry_value(trace_at_z, chip.name@)@.len()
        }),
{
}

} // verus!
