//! What the host holds of traces and layers that live on a device.
use vstd::prelude::*;
use crate::air::machine::table_of;
use crate::arith::{ceil_log2, ceil_log2_of};
use crate::ext::Ext;
use crate::machine::keys::copy_trace;
use crate::shard::lookup::{table_height, RowMajorTable, Trace};
use crate::shard::openings::PaddedMle;

verus! {

/// A borrowed layer of the lookup argument, to be copied to a device.
pub struct HostLayerView<'a> {
    /// The even rows of the numerators.
    pub numerator_0: &'a Vec<RowMajorTable<Ext>>,
    /// The even rows of the denominators.
    pub denominator_0: &'a Vec<RowMajorTable<Ext>>,
    /// The odd rows of the numerators.
    pub numerator_1: &'a Vec<RowMajorTable<Ext>>,
    /// The odd rows of the denominators.
    pub denominator_1: &'a Vec<RowMajorTable<Ext>>,
    /// The logarithm of the number of rows of each half.
    pub num_row_variables: usize,
    /// The logarithm of the number of interactions of all chips, rounded up.
    pub num_interaction_variables: usize,
}

/// A source of circuit numbers. Zero is no circuit's number.
#[derive(Clone, Copy, Debug)]
pub struct CircuitIds {
    /// The next number.
    pub next: u64,
}

/// Whether a source gives out a number and goes on to the next.
pub open spec fn allocated(before: CircuitIds, id: u64, after: CircuitIds) -> bool {
    id == before.next && after.next == before.next + 1
}

/// Numbers increase over any number of calls, and none is zero where the source does not
/// start there.
pub proof fn ids_increase(states: Seq<CircuitIds>, ids: Seq<u64>, i: int, j: int)
    requires
        states.len() == ids.len() + 1,
        forall|k: int|
            0 <= k < ids.len() ==> allocated(states[k], #[trigger] ids[k], states[k + 1]),
        states[0].next > 0,
        0 <= i <= j < ids.len(),
    ensures
        ids[i] > 0,
        i < j ==> ids[i] < ids[j],
    decreases j - i, i,
{
    if i < j {
        ids_increase(states, ids, i, j - 1);
        assert(allocated(states[j - 1], ids[j - 1], states[j]));
        assert(allocated(states[j], ids[j], states[j + 1]));
    } else if i > 0 {
        assert(allocated(states[i - 1], ids[i - 1], states[i]));
        assert(allocated(states[i], ids[i], states[i + 1]));
    } else {
        assert(allocated(states[0], ids[0], states[1]));
    }
}

impl CircuitIds {
    /// A source that starts at one.
    pub fn new() -> (r: CircuitIds)
        ensures
            r.next == 1,
    {
        CircuitIds { next: 1 }
    }

    /// A number that has not been given out before.
    pub fn allocate_gpu_layer_circuit_id(&mut self) -> (r: u64)
        requires
            old(self).next < u64::MAX,
        ensures
            allocated(*old(self), r, *final(self)),
    {
        let id: u64 = self.next;
        self.next = id + 1;
        id
    }
}

/// The logarithm of a trace's height, rounded up.
pub open spec fn log_height(t: Trace) -> nat {
    ceil_log2_of(table_height(t.values@.len(), t.width as nat))
}

fn log_height_of(t: &Trace) -> (r: usize)
    ensures
        r == log_height(*t),
{
    let h: usize = if t.width == 0 {
        0
    } else {
        t.values.len() / t.width
    };
    ceil_log2(h)
}

fn copy_padded(pm: &PaddedMle) -> (r: PaddedMle)
    ensures
        same_padded(r, *pm),
{
    let inner = match &pm.inner {
        Some(t) => Some(copy_trace(t)),
        None => None,
    };
    PaddedMle { inner, metadata_height: pm.metadata_height }
}

/// Whether two padded traces hold the same.
pub open spec fn same_padded(a: PaddedMle, b: PaddedMle) -> bool {
    &&& a.metadata_height == b.metadata_height
    &&& match (a.inner, b.inner) {
        (Some(x), Some(y)) => table_of(x) == table_of(y),
        (None, None) => true,
        _ => false,
    }
}

/// Whether a padded trace holds exactly the rows of a trace.
pub open spec fn wraps(pm: PaddedMle, t: Trace) -> bool {
    &&& pm.metadata_height is None
    &&& pm.inner matches Some(x) && table_of(x) == table_of(t)
}

/// The traces of a shard with the rows that were fetched from a device: a trace without
/// rows of its own gets the fetched ones, where there are any; every other trace stays.
pub fn splice_device_remat_traces(
    shared_trace_mles: &Vec<PaddedMle>,
    eager_device_remat: &Vec<Option<Trace>>,
) -> (r: Vec<PaddedMle>)
    ensures
        r@.len() == if shared_trace_mles@.len() < eager_device_remat@.len() {
            shared_trace_mles@.len()
        } else {
            eager_device_remat@.len()
        },
        forall|i: int|
            0 <= i < r@.len() ==> match (shared_trace_mles@[i].inner, eager_device_remat@[i]) {
                (None, Some(t)) => wraps(#[trigger] r@[i], t),
                _ => same_padded(r@[i], shared_trace_mles@[i]),
            },
{
    let mut r: Vec<PaddedMle> = Vec::new();
    let mut i: usize = 0;
    while i < shared_trace_mles.len() && i < eager_device_remat.len()
        invariant
            i <= shared_trace_mles@.len(),
            i <= eager_device_remat@.len(),
            r@.len() == i,
            forall|j: int|
                0 <= j < i ==> match (shared_trace_mles@[j].inner, eager_device_remat@[j]) {
                    (None, Some(t)) => wraps(#[trigger] r@[j], t),
                    _ => same_padded(r@[j], shared_trace_mles@[j]),
                },
        decreases shared_trace_mles@.len() - i,
    {
        let pm = &shared_trace_mles[i];
        let next = match (&pm.inner, &eager_device_remat[i]) {
            (None, Some(t)) => PaddedMle { inner: Some(copy_trace(t)), metadata_height: None },
            _ => copy_padded(pm),
        };
        r.push(next);
        i = i + 1;
    }
    r
}

/// Traces with their names as padded ones, each with the logarithm of its own height.
pub fn views_over_owned(owned: &Vec<(String, Trace)>) -> (r: Vec<(String, PaddedMle, usize)>)
    ensures
        r@.len() == owned@.len(),
        forall|i: int|
            0 <= i < r@.len() ==> {
                &&& (#[trigger] r@[i]).0@ == owned@[i].0@
                &&& wraps(r@[i].1, owned@[i].1)
                &&& r@[i].2 == log_height(owned@[i].1)
            },
{
    let mut r: Vec<(String, PaddedMle, usize)> = Vec::new();
    let mut i: usize = 0;
    while i < owned.len()
        invariant
            i <= owned@.len(),
            r@.len() == i,
            forall|j: int|
                0 <= j < i ==> {
                    &&& (#[trigger] r@[j]).0@ == owned@[j].0@
                    &&& wraps(r@[j].1, owned@[j].1)
                    &&& r@[j].2 == log_height(owned@[j].1)
                },
        decreases owned@.len() - i,
    {
        let t = &owned[i].1;
        r.push(
            (
                owned[i].0.clone(),
                PaddedMle { inner: Some(copy_trace(t)), metadata_height: None },
                log_height_of(t),
            ),
        );
        i = i + 1;
    }
    r
}

} // verus!
