//! What the transcript absorbs of a shard, and the openings that a shard proof carries.
use vstd::prelude::*;
use vstd::string::StringSliceAdditionalSpecFns;
use crate::ext::{evals, fvals, Ext, E4};
use crate::felt::{reduce, Felt};
use crate::merkle::Digest;
use crate::shard::lookup::{table_height, Trace};
use crate::shard::names::name_bytes;
use crate::shard::types::{opt_evals, ChipEvaluation, ChipOpenedValues, LogUpEvaluations,
    ShardChip};
use crate::transcript::{Sponge, Transcript};

verus! {

/// A chip's trace padded with zero rows: the rows themselves, or only their number where
/// the rows are held elsewhere.
#[derive(Debug)]
pub struct PaddedMle {
    /// The rows.
    pub inner: Option<Trace>,
    /// The number of rows that are held elsewhere.
    pub metadata_height: Option<usize>,
}

/// The number of real rows of a trace. A trace that is held elsewhere counts as at least
/// one row.
pub open spec fn raw_height(pm: PaddedMle) -> nat {
    match pm.inner {
        Some(t) => table_height(t.values@.len(), t.width as nat),
        None => match pm.metadata_height {
            Some(h) => if h == 0 {
                1
            } else {
                h as nat
            },
            None => 1,
        },
    }
}

/// The number of real rows of a trace.
pub fn raw_chip_height(pm: &PaddedMle) -> (r: usize)
    ensures
        r == raw_height(*pm),
{
    match &pm.inner {
        Some(t) => if t.width == 0 {
            0
        } else {
            t.values.len() / t.width
        },
        None => match pm.metadata_height {
            Some(h) => if h == 0 {
                1
            } else {
                h
            },
            None => 1,
        },
    }
}

/// The bytes of a name as field elements.
pub open spec fn byte_felts(b: Seq<u8>) -> Seq<int> {
    Seq::new(b.len(), |i: int| reduce(b[i] as int))
}

/// The transcript after a chip's height and name.
pub open spec fn observe_chip(s: Sponge, height: nat, name: Seq<char>) -> Sponge {
    let b = name_bytes(name);
    s.observe(reduce(height as int)).observe(reduce(b.len() as int)).observe_all(byte_felts(b))
}

/// The transcript after the first `k` chips.
pub open spec fn observe_chips(
    s: Sponge,
    chips: Seq<ShardChip>,
    heights: Seq<nat>,
    k: nat,
) -> Sponge
    decreases k,
{
    if k == 0 {
        s
    } else {
        observe_chip(
            observe_chips(s, chips, heights, (k - 1) as nat),
            heights[k - 1],
            chips[k - 1].name@,
        )
    }
}

/// The transcript after the prologue: the public values, the commitment, the number of
/// chips, and each chip's height and name.
pub open spec fn prologue(
    s: Sponge,
    public_values: Seq<int>,
    commitment: Seq<int>,
    chips: Seq<ShardChip>,
    heights: Seq<nat>,
) -> Sponge {
    observe_chips(
        s.observe_all(public_values).observe_all(commitment).observe(reduce(chips.len() as int)),
        chips,
        heights,
        chips.len(),
    )
}

/// A list of numbers as naturals.
pub open spec fn as_nats(s: Seq<usize>) -> Seq<nat> {
    Seq::new(s.len(), |i: int| s[i] as nat)
}

fn observe_name(challenger: &mut Transcript, height: usize, name: &String)
    requires
        old(challenger).wf(),
    ensures
        final(challenger).wf(),
        final(challenger)@ == observe_chip(old(challenger)@, height as nat, name@),
{
    let bytes = name.as_str().as_bytes();
    let n: usize = bytes.len();
    let ghost b = name_bytes(name@);
    challenger.observe(Felt::from_usize(height));
    challenger.observe(Felt::from_usize(n));
    let ghost s = challenger@;
    let ghost all = byte_felts(b);
    let mut i: usize = 0;
    proof {
        assert(all.take(0) =~= Seq::<int>::empty());
    }
    while i < n
        invariant
            i <= n,
            n == b.len(),
            bytes@ == b,
            all == byte_felts(b),
            challenger.wf(),
            challenger@ == s.observe_all(all.take(i as int)),
        decreases n - i,
    {
        challenger.observe(Felt::from_usize(bytes[i] as usize));
        i = i + 1;
        proof {
            let t = all.take(i as int);
            assert(t.drop_last() =~= all.take(i - 1));
            assert(t.last() == all[i - 1]);
        }
    }
    proof {
        assert(all.take(n as int) =~= all);
    }
}

/// Absorbs the prologue with the given heights.
pub fn observe_prologue(
    challenger: &mut Transcript,
    public_values: &Vec<Felt>,
    main_commitment: &Digest,
    chips: &Vec<ShardChip>,
    heights: &Vec<usize>,
)
    requires
        old(challenger).wf(),
        chips@.len() == heights@.len(),
    ensures
        final(challenger).wf(),
        final(challenger)@ == prologue(
            old(challenger)@,
            fvals(public_values@),
            fvals(main_commitment@),
            chips@,
            as_nats(heights@),
        ),
{
    challenger.observe_slice(public_values);
    let root = crate::whir::rounds::digest_felts(main_commitment);
    challenger.observe_slice(&root);
    challenger.observe(Felt::from_usize(chips.len()));
    let ghost s = challenger@;
    let mut i: usize = 0;
    while i < chips.len()
        invariant
            i <= chips@.len(),
            chips@.len() == heights@.len(),
            challenger.wf(),
            challenger@ == observe_chips(s, chips@, as_nats(heights@), i as nat),
        decreases chips@.len() - i,
    {
        observe_name(challenger, heights[i], &chips[i].name);
        i = i + 1;
    }
}

/// The heights of a list of traces.
pub open spec fn raw_heights(s: Seq<PaddedMle>) -> Seq<nat> {
    Seq::new(s.len(), |i: int| raw_height(s[i]))
}

fn heights_of(traces: &Vec<PaddedMle>) -> (r: Vec<usize>)
    ensures
        r@.len() == traces@.len(),
        forall|i: int| 0 <= i < r@.len() ==> #[trigger] r@[i] == raw_height(traces@[i]),
{
    let mut r: Vec<usize> = Vec::new();
    let mut i: usize = 0;
    while i < traces.len()
        invariant
            i <= traces@.len(),
            r@.len() == i,
            forall|j: int| 0 <= j < i ==> #[trigger] r@[j] == raw_height(traces@[j]),
        decreases traces@.len() - i,
    {
        r.push(raw_chip_height(&traces[i]));
        i = i + 1;
    }
    r
}

/// Absorbs the prologue: the public values, the commitment, the number of chips, and the
/// height and name of each chip.
pub fn observe_transcript_prologue(
    challenger: &mut Transcript,
    public_values: &Vec<Felt>,
    main_commitment: &Digest,
    chips: &Vec<ShardChip>,
    shared_trace_mles: &Vec<PaddedMle>,
)
    requires
        old(challenger).wf(),
        chips@.len() == shared_trace_mles@.len(),
    ensures
        final(challenger).wf(),
        final(challenger)@ == prologue(
            old(challenger)@,
            fvals(public_values@),
            fvals(main_commitment@),
            chips@,
            raw_heights(shared_trace_mles@),
        ),
{
    let hs = heights_of(shared_trace_mles);
    proof {
        assert(as_nats(hs@) =~= raw_heights(shared_trace_mles@));
    }
    observe_prologue(challenger, public_values, main_commitment, chips, &hs);
}

/// The transcript after a list of extension elements with its length before it.
pub open spec fn observe_prefixed(s: Sponge, v: Seq<E4>) -> Sponge {
    s.observe(reduce(v.len() as int)).observe_exts(v)
}

/// Absorbs the number of elements, then the elements.
pub fn observe_length_prefixed_ext(challenger: &mut Transcript, data: &[Ext])
    requires
        old(challenger).wf(),
    ensures
        final(challenger).wf(),
        final(challenger)@ == observe_prefixed(old(challenger)@, evals(data@)),
{
    proof {
        assert(evals(data@).len() == data@.len());
    }
    challenger.observe(Felt::from_usize(data.len()));
    challenger.observe_algebra_slice(data);
}

/// The transcript after the first `k` chips' preprocessed and main openings.
pub open spec fn observe_pairs(s: Sponge, pairs: Seq<(Seq<E4>, Seq<E4>)>, k: nat) -> Sponge
    decreases k,
{
    if k == 0 {
        s
    } else {
        let t = observe_pairs(s, pairs, (k - 1) as nat);
        observe_prefixed(observe_prefixed(t, pairs[k - 1].0), pairs[k - 1].1)
    }
}

/// The transcript after the number of chips and every chip's openings.
pub open spec fn observe_openings(
    s: Sponge,
    num_chips: nat,
    pairs: Seq<(Seq<E4>, Seq<E4>)>,
) -> Sponge {
    observe_pairs(s.observe(reduce(num_chips as int)), pairs, pairs.len())
}

/// The openings at the point of the lookup argument.
pub open spec fn gkr_pairs(s: Seq<(String, ChipEvaluation)>) -> Seq<(Seq<E4>, Seq<E4>)> {
    Seq::new(
        s.len(),
        |i: int|
            (
                opt_evals(s[i].1.preprocessed_trace_evaluations_full),
                opt_evals(s[i].1.main_trace_evaluations_full),
            ),
    )
}

fn observe_optional(challenger: &mut Transcript, v: &Option<Vec<Ext>>)
    requires
        old(challenger).wf(),
    ensures
        final(challenger).wf(),
        final(challenger)@ == observe_prefixed(old(challenger)@, opt_evals(*v)),
{
    match v {
        Some(x) => observe_length_prefixed_ext(challenger, x.as_slice()),
        None => {
            let none: Vec<Ext> = Vec::new();
            proof {
                assert(evals(none@) =~= Seq::<E4>::empty());
            }
            observe_length_prefixed_ext(challenger, none.as_slice())
        },
    }
}

/// Absorbs the number of chips and the openings at the point of the lookup argument.
pub fn observe_logup_gkr_openings(
    challenger: &mut Transcript,
    num_chips: usize,
    logup_evaluations: &LogUpEvaluations,
)
    requires
        old(challenger).wf(),
    ensures
        final(challenger).wf(),
        final(challenger)@ == observe_openings(
            old(challenger)@,
            num_chips as nat,
            gkr_pairs(logup_evaluations.chip_openings@),
        ),
{
    challenger.observe(Felt::from_usize(num_chips));
    let ghost s = challenger@;
    let ghost pairs = gkr_pairs(logup_evaluations.chip_openings@);
    let n: usize = logup_evaluations.chip_openings.len();
    let mut i: usize = 0;
    while i < n
        invariant
            i <= n,
            n == logup_evaluations.chip_openings@.len(),
            pairs == gkr_pairs(logup_evaluations.chip_openings@),
            challenger.wf(),
            challenger@ == observe_pairs(s, pairs, i as nat),
        decreases n - i,
    {
        let opening = &logup_evaluations.chip_openings[i].1;
        observe_optional(challenger, &opening.preprocessed_trace_evaluations_full);
        observe_optional(challenger, &opening.main_trace_evaluations_full);
        i = i + 1;
    }
}

/// The openings at the zerocheck's reduced point.
pub open spec fn zerocheck_pairs(s: Seq<ChipOpenedValues>) -> Seq<(Seq<E4>, Seq<E4>)> {
    Seq::new(s.len(), |i: int| (evals(s[i].preprocessed@), evals(s[i].main@)))
}

/// The contents of a list of pairs of slices.
pub open spec fn slice_pairs(s: Seq<(&[Ext], &[Ext])>) -> Seq<(Seq<E4>, Seq<E4>)> {
    Seq::new(s.len(), |i: int| (evals(s[i].0@), evals(s[i].1@)))
}

/// Absorbs the number of chips and the preprocessed and main openings of each chip.
pub fn observe_zerocheck_openings(
    challenger: &mut Transcript,
    num_chips: usize,
    per_chip: &Vec<(&[Ext], &[Ext])>,
)
    requires
        old(challenger).wf(),
    ensures
        final(challenger).wf(),
        final(challenger)@ == observe_openings(
            old(challenger)@,
            num_chips as nat,
            slice_pairs(per_chip@),
        ),
{
    challenger.observe(Felt::from_usize(num_chips));
    let ghost s = challenger@;
    let ghost pairs = slice_pairs(per_chip@);
    let mut i: usize = 0;
    while i < per_chip.len()
        invariant
            i <= per_chip@.len(),
            pairs == slice_pairs(per_chip@),
            challenger.wf(),
            challenger@ == observe_pairs(s, pairs, i as nat),
        decreases per_chip@.len() - i,
    {
        observe_length_prefixed_ext(challenger, per_chip[i].0);
        observe_length_prefixed_ext(challenger, per_chip[i].1);
        i = i + 1;
    }
}

/// Absorbs the openings that a proof carries.
pub fn observe_opened_values(
    challenger: &mut Transcript,
    num_chips: usize,
    opened: &Vec<ChipOpenedValues>,
)
    requires
        old(challenger).wf(),
    ensures
        final(challenger).wf(),
        final(challenger)@ == observe_openings(
            old(challenger)@,
            num_chips as nat,
            zerocheck_pairs(opened@),
        ),
{
    let mut per_chip: Vec<(&[Ext], &[Ext])> = Vec::new();
    let mut i: usize = 0;
    while i < opened.len()
        invariant
            i <= opened@.len(),
            per_chip@.len() == i,
            forall|j: int|
                0 <= j < i ==> (#[trigger] per_chip@[j]).0@ == opened@[j].preprocessed@
                    && per_chip@[j].1@ == opened@[j].main@,
        decreases opened@.len() - i,
    {
        per_chip.push((opened[i].preprocessed.as_slice(), opened[i].main.as_slice()));
        i = i + 1;
    }
    proof {
        assert(slice_pairs(per_chip@) =~= zerocheck_pairs(opened@));
    }
    observe_zerocheck_openings(challenger, num_chips, &per_chip);
}

} // verus!
