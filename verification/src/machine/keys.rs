//! The keys of a machine: the commitment to the preprocessed traces, and what goes with it.
use vstd::prelude::*;
use crate::air::machine::{table_of, Table};
use crate::ext::fvals;
use crate::felt::Felt;
use crate::machine::numbers::{sorted_names, texts, Numbers};
use crate::merkle::Digest;
use crate::septic::curve::SepticCurve;
use crate::shard::lookup::Trace;
use crate::shard::openings::PaddedMle;
use crate::transcript::{copy_felts, Transcript};
use crate::whir::rounds::digest_felts;

verus! {

/// Traces with their names.
pub open spec fn named_tables(named: Seq<(String, Trace)>) -> Seq<(Seq<char>, Table)> {
    Seq::new(named.len(), |i: int| (named[i].0@, table_of(named[i].1)))
}

/// The settings of a machine: how preprocessed traces are committed to.
pub trait StarkGenericConfig: Sized {
    /// What opening the commitment takes.
    type PrepPrecomputed;

    /// The root of the commitment to named traces, under an orientation of their rows.
    open spec fn prep_root(named: Seq<(Seq<char>, Table)>, rev: bool) -> Seq<int> {
        arbitrary()
    }

    /// Whether data opens the commitment to named traces.
    open spec fn prep_opens(
        data: Self::PrepPrecomputed,
        named: Seq<(Seq<char>, Table)>,
        rev: bool,
    ) -> bool {
        arbitrary()
    }

    /// The first point of the natural domain of a degree.
    open spec fn domain_start(&self, degree: nat) -> int {
        arbitrary()
    }

    /// The size of the natural domain of a degree.
    open spec fn domain_size(&self, degree: nat) -> nat {
        arbitrary()
    }

    /// The data that opens the commitment to named traces.
    fn prep_precompute(named: &Vec<(String, Trace)>, rev: bool) -> (r: Self::PrepPrecomputed)
        ensures
            Self::prep_opens(r, named_tables(named@), rev),
    ;

    /// The root of the commitment that data opens.
    fn commit_root(data: &Self::PrepPrecomputed) -> (r: Digest)
        ensures
            forall|named: Seq<(Seq<char>, Table)>, rev: bool| #[trigger]
                Self::prep_opens(*data, named, rev) ==> fvals(r@) == Self::prep_root(named, rev),
    ;

    /// The root of the commitment to named traces.
    fn prep_commit(named: &Vec<(String, Trace)>, rev: bool) -> (r: Digest)
        ensures
            fvals(r@) == Self::prep_root(named_tables(named@), rev),
    ;

    /// The first point and the size of the natural domain of a degree.
    fn natural_domain_for_degree(&self, degree: usize) -> (r: (Felt, usize))
        ensures
            r.0@ == self.domain_start(degree as nat),
            r.1 == self.domain_size(degree as nat),
    ;
}

/// A domain: its first point and the logarithm of its size.
#[derive(Clone, Copy, Debug)]
pub struct SerializableDomain {
    /// The first point.
    pub shift: Felt,
    /// The logarithm of the size.
    pub log_size: usize,
}

impl SerializableDomain {
    /// The domain of a first point and the logarithm of a size.
    pub fn new(shift: Felt, log_size: usize) -> (r: Self)
        ensures
            r == (SerializableDomain { shift, log_size }),
    {
        SerializableDomain { shift, log_size }
    }
}

/// What the prover keeps of a program.
pub struct StarkProvingKey<SC: StarkGenericConfig> {
    /// The commitment to the preprocessed traces.
    pub commit: Digest,
    /// The program counter to start at.
    pub pc_start: Felt,
    /// The sum of the lookups that the initial memory makes.
    pub initial_global_cumulative_sum: SepticCurve<Felt>,
    /// The preprocessed traces.
    pub traces: Vec<Trace>,
    /// What opening the commitment takes, once it has been computed.
    pub preprocessed_data: Option<SC::PrepPrecomputed>,
    /// The orientation of the rows in the commitment.
    pub prep_rev: bool,
    /// The numbers of the preprocessed chips, by name.
    pub chip_ordering: Numbers,
    /// The numbers of constraints, by name.
    pub constraints_map: Numbers,
}

/// What the verifier keeps of a program.
pub struct StarkVerifyingKey {
    /// The commitment to the preprocessed traces.
    pub commit: Digest,
    /// The program counter to start at.
    pub pc_start: Felt,
    /// The sum of the lookups that the initial memory makes.
    pub initial_global_cumulative_sum: SepticCurve<Felt>,
    /// The names, domains, widths and heights of the preprocessed chips.
    pub chip_information: Vec<(String, SerializableDomain, (usize, usize))>,
    /// The numbers of the preprocessed chips, by name.
    pub chip_ordering: Numbers,
}

/// The part of a verifying key that names its program.
#[derive(Clone, Copy)]
pub struct PartStarkVerifyingKey {
    /// The commitment to the preprocessed traces.
    pub commit: Digest,
    /// The program counter to start at.
    pub pc_start: Felt,
}

/// What a transcript absorbs of a key: the commitment, the program counter, the
/// coordinates of the initial sum, and a zero.
pub open spec fn key_felts(commit: Digest, pc_start: Felt, sum: SepticCurve<Felt>) -> Seq<int> {
    (fvals(commit@).push(pc_start@) + (fvals(sum.x.0@) + fvals(sum.y.0@))).push(0)
}

fn observe_key(
    challenger: &mut Transcript,
    commit: &Digest,
    pc_start: Felt,
    sum: &SepticCurve<Felt>,
)
    requires
        old(challenger).wf(),
    ensures
        final(challenger).wf(),
        final(challenger)@ == old(challenger)@.observe_all(key_felts(*commit, pc_start, *sum)),
{
    let mut all = digest_felts(commit);
    all.push(pc_start);
    let ghost head = all@;
    let mut j: usize = 0;
    proof {
        assert(sum.x.0@.take(0) =~= Seq::<Felt>::empty());
        assert(all@ =~= head + sum.x.0@.take(0));
    }
    while j < 7
        invariant
            j <= 7,
            all@ == head + sum.x.0@.take(j as int),
        decreases 7 - j,
    {
        all.push(sum.x.0[j]);
        j = j + 1;
        proof {
            assert(all@ =~= head + sum.x.0@.take(j as int));
        }
    }
    let ghost middle = all@;
    let mut k: usize = 0;
    proof {
        assert(all@ =~= middle + sum.y.0@.take(0));
    }
    while k < 7
        invariant
            k <= 7,
            all@ == middle + sum.y.0@.take(k as int),
        decreases 7 - k,
    {
        all.push(sum.y.0[k]);
        k = k + 1;
        proof {
            assert(all@ =~= middle + sum.y.0@.take(k as int));
        }
    }
    all.push(Felt::zero());
    proof {
        assert(head =~= commit@.push(pc_start));
        assert(fvals(all@) =~= key_felts(*commit, pc_start, *sum));
    }
    challenger.observe_slice(&all);
}

/// A copy of a trace.
pub fn copy_trace(t: &Trace) -> (r: Trace)
    ensures
        r.values@ == t.values@,
        r.width == t.width,
        table_of(r) == table_of(*t),
{
    Trace { values: copy_felts(&t.values), width: t.width }
}

fn copy_traces(ts: &Vec<Trace>) -> (r: Vec<Trace>)
    ensures
        same_traces(r@, ts@),
{
    let mut r: Vec<Trace> = Vec::new();
    let mut i: usize = 0;
    while i < ts.len()
        invariant
            i <= ts@.len(),
            r@.len() == i,
            forall|j: int| 0 <= j < i ==> table_of(#[trigger] r@[j]) == table_of(ts@[j]),
        decreases ts@.len() - i,
    {
        r.push(copy_trace(&ts[i]));
        i = i + 1;
    }
    r
}

/// Whether two lists hold the same traces.
pub open spec fn same_traces(a: Seq<Trace>, b: Seq<Trace>) -> bool {
    &&& a.len() == b.len()
    &&& forall|i: int| 0 <= i < a.len() ==> table_of(#[trigger] a[i]) == table_of(b[i])
}

impl<SC: StarkGenericConfig> StarkProvingKey<SC> {
    /// The traces with their names, in the order of the chips' numbers.
    pub open spec fn named(self) -> Seq<(Seq<char>, Table)> {
        let order = sorted_names(self.chip_ordering@);
        let n = if order.len() < self.traces@.len() {
            order.len()
        } else {
            self.traces@.len()
        };
        Seq::new(
            n,
            |i: int| (order[i], table_of(self.traces@[i])),
        )
    }

    /// Whether two keys are the same but for what may be computed anew.
    pub open spec fn same_parts(self, other: Self) -> bool {
        &&& self.commit == other.commit
        &&& self.pc_start == other.pc_start
        &&& self.initial_global_cumulative_sum == other.initial_global_cumulative_sum
        &&& same_traces(self.traces@, other.traces@)
        &&& self.prep_rev == other.prep_rev
        &&& self.chip_ordering@ == other.chip_ordering@
        &&& self.constraints_map@ == other.constraints_map@
    }

    /// The key of its parts, with nothing computed yet.
    pub fn from_parts(
        commit: Digest,
        pc_start: Felt,
        initial_global_cumulative_sum: SepticCurve<Felt>,
        traces: Vec<Trace>,
        chip_ordering: Numbers,
        constraints_map: Numbers,
        prep_rev: bool,
    ) -> (r: Self)
        ensures
            r == (StarkProvingKey::<SC> {
                commit,
                pc_start,
                initial_global_cumulative_sum,
                traces,
                preprocessed_data: None,
                prep_rev,
                chip_ordering,
                constraints_map,
            }),
    {
        StarkProvingKey {
            commit,
            pc_start,
            initial_global_cumulative_sum,
            traces,
            preprocessed_data: None,
            prep_rev,
            chip_ordering,
            constraints_map,
        }
    }

    /// The key of its parts and of what opening the commitment takes.
    pub fn from_parts_with_preprocessed_data(
        commit: Digest,
        pc_start: Felt,
        initial_global_cumulative_sum: SepticCurve<Felt>,
        traces: Vec<Trace>,
        chip_ordering: Numbers,
        constraints_map: Numbers,
        prep_rev: bool,
        preprocessed_data: SC::PrepPrecomputed,
    ) -> (r: Self)
        ensures
            r == (StarkProvingKey::<SC> {
                commit,
                pc_start,
                initial_global_cumulative_sum,
                traces,
                preprocessed_data: Some(preprocessed_data),
                prep_rev,
                chip_ordering,
                constraints_map,
            }),
    {
        let mut key = Self::from_parts(
            commit,
            pc_start,
            initial_global_cumulative_sum,
            traces,
            chip_ordering,
            constraints_map,
            prep_rev,
        );
        key.preprocessed_data = Some(preprocessed_data);
        key
    }

    /// What opening the commitment takes, where it has been computed.
    pub fn preprocessed_data_if_built(&self) -> (r: Option<&SC::PrepPrecomputed>)
        ensures
            match r {
                Some(d) => self.preprocessed_data == Some(*d),
                None => self.preprocessed_data is None,
            },
    {
        self.preprocessed_data.as_ref()
    }

    /// The preprocessed traces as padded multilinears.
    pub fn preprocessed_mles(&self) -> (r: Vec<PaddedMle>)
        ensures
            r@.len() == self.traces@.len(),
            forall|i: int|
                0 <= i < r@.len() ==> {
                    &&& (#[trigger] r@[i]).metadata_height is None
                    &&& r@[i].inner matches Some(t) && table_of(t) == table_of(self.traces@[i])
                },
    {
        let mut r: Vec<PaddedMle> = Vec::new();
        let mut i: usize = 0;
        while i < self.traces.len()
            invariant
                i <= self.traces@.len(),
                r@.len() == i,
                forall|j: int|
                    0 <= j < i ==> {
                        &&& (#[trigger] r@[j]).metadata_height is None
                        &&& r@[j].inner matches Some(t) && table_of(t) == table_of(
                            self.traces@[j],
                        )
                    },
            decreases self.traces@.len() - i,
        {
            r.push(PaddedMle { inner: Some(copy_trace(&self.traces[i])), metadata_height: None });
            i = i + 1;
        }
        r
    }

    /// The traces with their names, in the order of the chips' numbers.
    fn named_traces(&self) -> (r: Vec<(String, Trace)>)
        ensures
            named_tables(r@) == self.named(),
    {
        let names = self.chip_ordering.in_order();
        let ghost o = texts(names@);
        let mut r: Vec<(String, Trace)> = Vec::new();
        let mut i: usize = 0;
        while i < names.len() && i < self.traces.len()
            invariant
                i <= names@.len(),
                i <= self.traces@.len(),
                o == texts(names@),
                r@.len() == i,
                forall|j: int|
                    0 <= j < i ==> {
                        &&& (#[trigger] r@[j]).0@ == o[j]
                        &&& table_of(r@[j].1) == table_of(self.traces@[j])
                    },
            decreases names@.len() - i,
        {
            r.push((names[i].clone(), copy_trace(&self.traces[i])));
            i = i + 1;
        }
        proof {
            assert(named_tables(r@) =~= self.named());
        }
        r
    }

    /// What opening the commitment takes. It is computed on first use, from the traces in
    /// the order of the chips' numbers and under the orientation of the key.
    pub fn preprocessed_data(&mut self) -> (r: &SC::PrepPrecomputed)
        ensures
            *final(self) == (StarkProvingKey::<SC> {
                preprocessed_data: Some(*r),
                ..*old(self)
            }),
            match old(self).preprocessed_data {
                Some(d) => *r == d,
                None => SC::prep_opens(*r, old(self).named(), old(self).prep_rev),
            },
    {
        if self.preprocessed_data.is_none() {
            let named = self.named_traces();
            self.preprocessed_data = Some(SC::prep_precompute(&named, self.prep_rev));
        }
        self.preprocessed_data.as_ref().unwrap()
    }

    /// Absorbs the key.
    pub fn observe_into(&self, challenger: &mut Transcript)
        requires
            old(challenger).wf(),
        ensures
            final(challenger).wf(),
            final(challenger)@ == old(challenger)@.observe_all(
                key_felts(self.commit, self.pc_start, self.initial_global_cumulative_sum),
            ),
    {
        observe_key(
            challenger,
            &self.commit,
            self.pc_start,
            &self.initial_global_cumulative_sum,
        );
    }
}

impl<SC: StarkGenericConfig> Clone for StarkProvingKey<SC> {
    /// A copy that computes anew what opening the commitment takes.
    fn clone(&self) -> (r: Self)
        ensures
            r.same_parts(*self),
            r.preprocessed_data is None,
    {
        StarkProvingKey {
            commit: self.commit,
            pc_start: self.pc_start,
            initial_global_cumulative_sum: self.initial_global_cumulative_sum,
            traces: copy_traces(&self.traces),
            preprocessed_data: None,
            prep_rev: self.prep_rev,
            chip_ordering: self.chip_ordering.duplicate(),
            constraints_map: self.constraints_map.duplicate(),
        }
    }
}

impl StarkVerifyingKey {
    /// Absorbs the key.
    pub fn observe_into(&self, challenger: &mut Transcript)
        requires
            old(challenger).wf(),
        ensures
            final(challenger).wf(),
            final(challenger)@ == old(challenger)@.observe_all(
                key_felts(self.commit, self.pc_start, self.initial_global_cumulative_sum),
            ),
    {
        observe_key(
            challenger,
            &self.commit,
            self.pc_start,
            &self.initial_global_cumulative_sum,
        );
    }

    /// The part that names the program.
    pub fn part_vk(&self) -> (r: PartStarkVerifyingKey)
        ensures
            r == (PartStarkVerifyingKey { commit: self.commit, pc_start: self.pc_start }),
    {
        PartStarkVerifyingKey { commit: self.commit, pc_start: self.pc_start }
    }
}

} // verus!
