//! The check of a machine's constraints on records, without a proof.
use vstd::prelude::*;
use crate::air::machine::{table_of, LookupScope, MachineAir, MachineRecord, Table};
use crate::ext::{e_zero, evals, fvals, Ext, E4};
use crate::felt::Felt;
use crate::machine::chips::{included_before, picks, StarkMachine};
use crate::machine::keys::{StarkGenericConfig, StarkProvingKey};
use crate::septic::curve::{Point, SepticCurve};
use crate::septic::digest::{chip_global_sum, global_sum};
use crate::shard::lookup::Trace;
use crate::transcript::{Sponge, Transcript};

verus! {

/// The challenges of the permutation argument: two between shards, then two within a shard.
pub open spec fn permutation_points(s: Sponge) -> Seq<E4> {
    seq![
        s.drawn_ext(),
        s.after_draw_ext().drawn_ext(),
        s.after_draw_ext().after_draw_ext().drawn_ext(),
        s.after_draw_ext().after_draw_ext().after_draw_ext().drawn_ext(),
    ]
}

/// Draws the challenges of the permutation argument.
pub fn permutation_challenges(challenger: &mut Transcript) -> (r: Vec<Ext>)
    requires
        old(challenger).wf(),
    ensures
        final(challenger).wf(),
        evals(r@) == permutation_points(old(challenger)@),
        final(challenger)@ == old(
            challenger,
        )@.after_draw_ext().after_draw_ext().after_draw_ext().after_draw_ext(),
{
    let a = challenger.sample_algebra_element();
    let b = challenger.sample_algebra_element();
    let c = challenger.sample_algebra_element();
    let d = challenger.sample_algebra_element();
    let mut r: Vec<Ext> = Vec::new();
    r.push(a);
    r.push(b);
    r.push(c);
    r.push(d);
    proof {
        assert(evals(r@) =~= permutation_points(old(challenger)@));
    }
    r
}

/// A chip's part of a shard: its main trace, its permutation trace, and the sums of its
/// lookups within the shard and between shards.
pub struct ChipRun<T> {
    /// The main trace.
    pub main: Trace,
    /// The permutation trace.
    pub permutation: T,
    /// The sum within the shard.
    pub local_sum: Ext,
    /// The sum between shards.
    pub global_sum: SepticCurve<Felt>,
}

/// The sum of the lookups of the first `k` chips within a shard.
pub open spec fn local_total<T>(runs: Seq<ChipRun<T>>, k: int) -> E4
    decreases k,
{
    if k <= 0 {
        e_zero()
    } else {
        local_total(runs, k - 1) + runs[k - 1].local_sum@
    }
}

/// Whether a key has a trace for every number that it gives to a chip.
pub open spec fn traces_exist<SC: StarkGenericConfig>(pk: StarkProvingKey<SC>) -> bool {
    forall|name: Seq<char>| #[trigger]
        pk.chip_ordering@.dom().contains(name) ==> pk.chip_ordering@[name] < pk.traces@.len()
}

/// The preprocessed trace of a chip.
pub open spec fn prep_of<SC: StarkGenericConfig>(pk: StarkProvingKey<SC>, name: Seq<char>) -> Option<
    Trace,
> {
    if pk.chip_ordering@.dom().contains(name) {
        Some(pk.traces@[pk.chip_ordering@[name] as int])
    } else {
        None
    }
}

/// The preprocessed trace of a chip.
pub fn preprocessed_trace<'a, SC: StarkGenericConfig>(pk: &'a StarkProvingKey<SC>, name: &String) -> (r:
    Option<&'a Trace>)
    requires
        traces_exist(*pk),
    ensures
        match r {
            Some(t) => prep_of(*pk, name@) == Some(*t),
            None => prep_of(*pk, name@) is None,
        },
{
    match pk.chip_ordering.get(name) {
        Some(number) => Some(&pk.traces[number]),
        None => None,
    }
}

/// Whether the chips of a shard have their traces, long enough for the sums in them.
pub open spec fn traces_follow<A: MachineAir>(chips: Seq<A>, shard: A::Record) -> bool {
    forall|i: int|
        0 <= i < chips.len() && (#[trigger] chips[i]).takes(shard) ==> match chips[i].traced(
            shard,
            A::Record::blank(),
        ).1 {
            Ok(t) => chips[i].scope() == LookupScope::Local || t.cells.len() >= 14,
            Err(_) => false,
        }
}

/// Whether a run is that of a chip on a shard.
pub open spec fn is_run<
    SC: StarkGenericConfig,
    A: MachineAir,
    T,
    P: Fn(&A, Option<&Trace>, &Trace, &Vec<Ext>) -> (T, Ext),
>(
    pk: StarkProvingKey<SC>,
    chip: A,
    shard: A::Record,
    challenges: &Vec<Ext>,
    zero: Point,
    permute: P,
    run: ChipRun<T>,
) -> bool {
    &&& Ok::<Table, A::Error>(table_of(run.main)) == chip.traced(shard, A::Record::blank()).1
    &&& run.global_sum@ == global_sum(chip.scope(), fvals(run.main.values@), zero)
    &&& exists|prep: Option<&Trace>|
        {
            &&& match prep {
                Some(t) => prep_of(pk, chip.title()) == Some(*t),
                None => prep_of(pk, chip.title()) is None,
            }
            &&& #[trigger] permute.ensures(
                (&chip, prep, &run.main, challenges),
                (run.permutation, run.local_sum),
            )
        }
}

impl<SC: StarkGenericConfig, A: MachineAir> StarkMachine<SC, A> {
    /// Runs the chips of a shard: their traces, their permutation traces, and their sums.
    /// The second result says whether the lookups within the shard balance.
    pub fn run_shard<T, P: Copy + Fn(&A, Option<&Trace>, &Trace, &Vec<Ext>) -> (T, Ext)>(
        &self,
        pk: &StarkProvingKey<SC>,
        shard: &A::Record,
        challenges: &Vec<Ext>,
        zero: SepticCurve<Felt>,
        permute: P,
    ) -> (r: (Vec<ChipRun<T>>, bool))
        requires
            traces_exist(*pk),
            traces_follow(self.chips@, *shard),
            forall|a: &A, p: Option<&Trace>, m: &Trace| #[trigger]
                permute.requires((a, p, m, challenges)),
        ensures
            ({
                let order = included_before(self.chips@, *shard, self.chips@.len() as int);
                &&& r.0@.len() == order.len()
                &&& forall|i: int|
                    0 <= i < r.0@.len() ==> is_run(
                        *pk,
                        self.chips@[order[i]],
                        *shard,
                        challenges,
                        zero@,
                        permute,
                        #[trigger] r.0@[i],
                    )
            }),
            r.1 == (local_total(r.0@, r.0@.len() as int) == e_zero()),
    {
        let chips = self.shard_chips(shard);
        let ghost order = included_before(self.chips@, *shard, self.chips@.len() as int);
        let mut runs: Vec<ChipRun<T>> = Vec::new();
        let mut total = Ext::zero();
        let mut i: usize = 0;
        while i < chips.len()
            invariant
                i <= chips@.len(),
                traces_exist(*pk),
                traces_follow(self.chips@, *shard),
                forall|a: &A, p: Option<&Trace>, m: &Trace| #[trigger]
                    permute.requires((a, p, m, challenges)),
                order == included_before(self.chips@, *shard, self.chips@.len() as int),
                picks(chips@, self.chips@, order),
                runs@.len() == i,
                total@ == local_total(runs@, i as int),
                forall|j: int|
                    0 <= j < i ==> is_run(
                        *pk,
                        self.chips@[order[j]],
                        *shard,
                        challenges,
                        zero@,
                        permute,
                        #[trigger] runs@[j],
                    ),
            decreases chips@.len() - i,
        {
            let chip = chips[i];
            proof {
                included_are_taken(self.chips@, *shard, self.chips@.len() as int, i as int);
            }
            let prep = preprocessed_trace(pk, &chip.name());
            let mut scratch = A::Record::empty();
            match chip.generate_trace(shard, &mut scratch) {
                Ok(main) => {
                    let (permutation, local_sum) = permute(chip, prep, &main, challenges);
                    proof {
                        assert(permute.ensures(
                            (chip, prep, &main, challenges),
                            (permutation, local_sum),
                        ));
                    }
                    let shared = chip_global_sum(chip.commit_scope(), &main.values, zero);
                    let ghost before = runs@;
                    total = total.plus(local_sum);
                    runs.push(ChipRun { main, permutation, local_sum, global_sum: shared });
                    proof {
                        totals_agree(before, runs@, i as int);
                        let run = runs@[i as int];
                        assert(*chip == self.chips@[order[i as int]]);
                        assert(Ok::<Table, A::Error>(table_of(run.main)) == chip.traced(
                            *shard,
                            A::Record::blank(),
                        ).1);
                        assert(run.global_sum@ == global_sum(
                            chip.scope(),
                            fvals(run.main.values@),
                            zero@,
                        ));
                        assert(permute.ensures(
                            (chip, prep, &run.main, challenges),
                            (run.permutation, run.local_sum),
                        ));
                        assert(is_run(
                            *pk,
                            self.chips@[order[i as int]],
                            *shard,
                            challenges,
                            zero@,
                            permute,
                            runs@[i as int],
                        ));
                    }
                },
                Err(_) => {
                    proof {
                        assert(false);
                    }
                },
            }
            i = i + 1;
        }
        let balanced = total.same(&Ext::zero());
        (runs, balanced)
    }
}

/// Why records do not satisfy a machine.
#[derive(Clone, Copy, Debug, PartialEq, Eq, Structural)]
pub enum DebugFailure {
    /// The lookups within a shard do not balance.
    LocalSum(usize),
    /// A chip of a shard does not satisfy its constraints: the shard, and the chip's place in
    /// it.
    Constraints(usize, usize),
    /// The lookups between shards do not balance.
    GlobalSum,
}

/// Whether `runs` are the runs of the chips of a shard.
pub open spec fn are_runs<
    SC: StarkGenericConfig,
    A: MachineAir,
    T,
    P: Fn(&A, Option<&Trace>, &Trace, &Vec<Ext>) -> (T, Ext),
>(
    machine: StarkMachine<SC, A>,
    pk: StarkProvingKey<SC>,
    shard: A::Record,
    challenges: &Vec<Ext>,
    zero: Point,
    permute: P,
    runs: Seq<ChipRun<T>>,
) -> bool {
    let order = included_before(machine.chips@, shard, machine.chips@.len() as int);
    &&& runs.len() == order.len()
    &&& forall|i: int|
        0 <= i < runs.len() ==> is_run(
            pk,
            machine.chips@[order[i]],
            shard,
            challenges,
            zero,
            permute,
            #[trigger] runs[i],
        )
}

/// Whether the check of the constraints may say `good` of a chip's run.
pub open spec fn may_say<
    SC: StarkGenericConfig,
    A: MachineAir,
    T,
    C: Fn(&A, Option<&Trace>, &ChipRun<T>, &Vec<Ext>, &Vec<Felt>) -> bool,
>(
    pk: StarkProvingKey<SC>,
    chip: A,
    shard: A::Record,
    challenges: &Vec<Ext>,
    check: C,
    run: ChipRun<T>,
    good: bool,
) -> bool {
    exists|prep: Option<&Trace>, publics: &Vec<Felt>|
        {
            &&& match prep {
                Some(t) => prep_of(pk, chip.title()) == Some(*t),
                None => prep_of(pk, chip.title()) is None,
            }
            &&& fvals(publics@) == shard.publics()
            &&& #[trigger] check.ensures((&chip, prep, &run, challenges, publics), good)
        }
}

/// What is said of a shard: nothing, where its lookups balance and all its chips satisfy
/// their constraints; else what fails first.
pub open spec fn may_fail<
    SC: StarkGenericConfig,
    A: MachineAir,
    T,
    C: Fn(&A, Option<&Trace>, &ChipRun<T>, &Vec<Ext>, &Vec<Felt>) -> bool,
>(
    machine: StarkMachine<SC, A>,
    pk: StarkProvingKey<SC>,
    shard: A::Record,
    challenges: &Vec<Ext>,
    check: C,
    runs: Seq<ChipRun<T>>,
    at: usize,
    failure: Option<DebugFailure>,
) -> bool {
    let order = included_before(machine.chips@, shard, machine.chips@.len() as int);
    let balanced = local_total(runs, runs.len() as int) == e_zero();
    match failure {
        Some(DebugFailure::LocalSum(i)) => i == at && !balanced,
        Some(DebugFailure::Constraints(i, k)) => {
            &&& i == at
            &&& balanced
            &&& k < runs.len()
            &&& may_say(
                pk,
                machine.chips@[order[k as int]],
                shard,
                challenges,
                check,
                runs[k as int],
                false,
            )
            &&& forall|j: int|
                0 <= j < k ==> may_say(
                    pk,
                    machine.chips@[order[j]],
                    shard,
                    challenges,
                    check,
                    #[trigger] runs[j],
                    true,
                )
        },
        Some(DebugFailure::GlobalSum) => false,
        None => {
            &&& balanced
            &&& forall|j: int|
                0 <= j < runs.len() ==> may_say(
                    pk,
                    machine.chips@[order[j]],
                    shard,
                    challenges,
                    check,
                    #[trigger] runs[j],
                    true,
                )
        },
    }
}

/// Whether `sums` are the sums of runs between shards.
pub open spec fn are_sums<T>(runs: Seq<ChipRun<T>>, sums: Seq<SepticCurve<Felt>>) -> bool {
    &&& sums.len() == runs.len()
    &&& forall|i: int| 0 <= i < sums.len() ==> #[trigger] sums[i] == runs[i].global_sum
}

/// Whether the runs of a shard may be said to fail so, and have the given sums.
pub open spec fn shard_outcome<
    SC: StarkGenericConfig,
    A: MachineAir,
    T,
    P: Fn(&A, Option<&Trace>, &Trace, &Vec<Ext>) -> (T, Ext),
    C: Fn(&A, Option<&Trace>, &ChipRun<T>, &Vec<Ext>, &Vec<Felt>) -> bool,
>(
    machine: StarkMachine<SC, A>,
    pk: StarkProvingKey<SC>,
    shard: A::Record,
    challenges: &Vec<Ext>,
    zero: Point,
    permute: P,
    check: C,
    at: usize,
    failure: Option<DebugFailure>,
    sums: Seq<SepticCurve<Felt>>,
) -> bool {
    exists|runs: Seq<ChipRun<T>>|
        {
            &&& #[trigger] are_runs(machine, pk, shard, challenges, zero, permute, runs)
            &&& may_fail(machine, pk, shard, challenges, check, runs, at, failure)
            &&& are_sums(runs, sums)
        }
}

/// Whether records may be said to fail so: the first shard that fails counts, then the
/// balance between the shards and the initial memory.
pub open spec fn debug_outcome<
    SC: StarkGenericConfig,
    A: MachineAir,
    T,
    P: Fn(&A, Option<&Trace>, &Trace, &Vec<Ext>) -> (T, Ext),
    C: Fn(&A, Option<&Trace>, &ChipRun<T>, &Vec<Ext>, &Vec<Felt>) -> bool,
    G: Fn(&Vec<Vec<SepticCurve<Felt>>>, SepticCurve<Felt>) -> bool,
>(
    machine: StarkMachine<SC, A>,
    pk: StarkProvingKey<SC>,
    records: Seq<A::Record>,
    challenges: &Vec<Ext>,
    zero: Point,
    permute: P,
    check: C,
    balance: G,
    sums: Vec<Vec<SepticCurve<Felt>>>,
    r: Result<(), DebugFailure>,
) -> bool {
    let n = sums@.len() as int;
    &&& n <= records.len()
    &&& match r {
        Ok(_) => n == records.len() && balance.ensures(
            (&sums, pk.initial_global_cumulative_sum),
            true,
        ),
        Err(DebugFailure::GlobalSum) => n == records.len() && balance.ensures(
            (&sums, pk.initial_global_cumulative_sum),
            false,
        ),
        Err(f) => {
            &&& n > 0
            &&& shard_outcome(
                machine,
                pk,
                records[n - 1],
                challenges,
                zero,
                permute,
                check,
                (n - 1) as usize,
                Some(f),
                sums@[n - 1]@,
            )
        },
    }
    &&& forall|i: int|
        0 <= i < (if r is Ok || r == Err::<(), _>(DebugFailure::GlobalSum) {
            n
        } else {
            n - 1
        }) ==> shard_outcome(
            machine,
            pk,
            records[i],
            challenges,
            zero,
            permute,
            check,
            i as usize,
            None,
            (#[trigger] sums@[i])@,
        )
}

fn sums_of<T>(runs: &Vec<ChipRun<T>>) -> (r: Vec<SepticCurve<Felt>>)
    ensures
        are_sums(runs@, r@),
{
    let mut r: Vec<SepticCurve<Felt>> = Vec::new();
    let mut i: usize = 0;
    while i < runs.len()
        invariant
            i <= runs@.len(),
            r@.len() == i,
            forall|j: int| 0 <= j < i ==> #[trigger] r@[j] == runs@[j].global_sum,
        decreases runs@.len() - i,
    {
        r.push(runs[i].global_sum);
        i = i + 1;
    }
    r
}

impl<SC: StarkGenericConfig, A: MachineAir> StarkMachine<SC, A> {
    /// Checks a shard.
    fn debug_shard<T, C>(
        &self,
        pk: &StarkProvingKey<SC>,
        shard: &A::Record,
        challenges: &Vec<Ext>,
        check: C,
        runs: &Vec<ChipRun<T>>,
        balanced: bool,
        at: usize,
    ) -> (r: Option<DebugFailure>) where
        C: Copy + Fn(&A, Option<&Trace>, &ChipRun<T>, &Vec<Ext>, &Vec<Felt>) -> bool,

        requires
            traces_exist(*pk),
            balanced == (local_total(runs@, runs@.len() as int) == e_zero()),
            runs@.len() == included_before(
                self.chips@,
                *shard,
                self.chips@.len() as int,
            ).len(),
            forall|a: &A, p: Option<&Trace>, m: &ChipRun<T>, v: &Vec<Felt>| #[trigger]
                check.requires((a, p, m, challenges, v)),
        ensures
            may_fail(*self, *pk, *shard, challenges, check, runs@, at, r),
    {
        if !balanced {
            return Some(DebugFailure::LocalSum(at));
        }
        let chips = self.shard_chips(shard);
        let publics = shard.public_values();
        let ghost order = included_before(self.chips@, *shard, self.chips@.len() as int);
        let mut k: usize = 0;
        while k < chips.len()
            invariant
                k <= chips@.len(),
                balanced,
                balanced == (local_total(runs@, runs@.len() as int) == e_zero()),
                traces_exist(*pk),
                order == included_before(self.chips@, *shard, self.chips@.len() as int),
                picks(chips@, self.chips@, order),
                runs@.len() == order.len(),
                fvals(publics@) == shard.publics(),
                forall|a: &A, p: Option<&Trace>, m: &ChipRun<T>, v: &Vec<Felt>| #[trigger]
                    check.requires((a, p, m, challenges, v)),
                forall|j: int|
                    0 <= j < k ==> may_say(
                        *pk,
                        self.chips@[order[j]],
                        *shard,
                        challenges,
                        check,
                        #[trigger] runs@[j],
                        true,
                    ),
            decreases chips@.len() - k,
        {
            let chip = chips[k];
            let prep = preprocessed_trace(pk, &chip.name());
            let good = check(chip, prep, &runs[k], challenges, &publics);
            proof {
                assert(*chip == self.chips@[order[k as int]]);
                assert(check.ensures((chip, prep, &runs@[k as int], challenges, &publics), good));
                assert(may_say(
                    *pk,
                    self.chips@[order[k as int]],
                    *shard,
                    challenges,
                    check,
                    runs@[k as int],
                    good,
                ));
            }
            if !good {
                return Some(DebugFailure::Constraints(at, k));
            }
            k = k + 1;
        }
        None
    }

    /// Checks the constraints of the given records, given how a permutation trace and its sum
    /// are made, how a chip's constraints are checked, and how the sums between the shards
    /// and the initial memory are balanced. The sums of the shards up to the one that fails
    /// come with the result.
    pub fn debug_constraints<T, P, C, G>(
        &self,
        pk: &StarkProvingKey<SC>,
        records: &Vec<A::Record>,
        challenger: &mut Transcript,
        zero: SepticCurve<Felt>,
        permute: P,
        check: C,
        balance: G,
    ) -> (r: (Vec<Ext>, Vec<Vec<SepticCurve<Felt>>>, Result<(), DebugFailure>)) where
        P: Copy + Fn(&A, Option<&Trace>, &Trace, &Vec<Ext>) -> (T, Ext),
        C: Copy + Fn(&A, Option<&Trace>, &ChipRun<T>, &Vec<Ext>, &Vec<Felt>) -> bool,
        G: Fn(&Vec<Vec<SepticCurve<Felt>>>, SepticCurve<Felt>) -> bool,

        requires
            old(challenger).wf(),
            traces_exist(*pk),
            forall|i: int|
                0 <= i < records@.len() ==> traces_follow(self.chips@, #[trigger] records@[i]),
            forall|a: &A, p: Option<&Trace>, m: &Trace, c: &Vec<Ext>| #[trigger]
                permute.requires((a, p, m, c)),
            forall|
                a: &A,
                p: Option<&Trace>,
                m: &ChipRun<T>,
                c: &Vec<Ext>,
                v: &Vec<Felt>,
            | #[trigger]
                check.requires((a, p, m, c, v)),
            forall|s: &Vec<Vec<SepticCurve<Felt>>>| #[trigger]
                balance.requires((s, pk.initial_global_cumulative_sum)),
        ensures
            final(challenger).wf(),
            evals(r.0@) == permutation_points(old(challenger)@),
            final(challenger)@ == old(
                challenger,
            )@.after_draw_ext().after_draw_ext().after_draw_ext().after_draw_ext(),
            debug_outcome(
                *self,
                *pk,
                records@,
                &r.0,
                zero@,
                permute,
                check,
                balance,
                r.1,
                r.2,
            ),
    {
        let challenges = permutation_challenges(challenger);
        let mut sums: Vec<Vec<SepticCurve<Felt>>> = Vec::new();
        let mut i: usize = 0;
        while i < records.len()
            invariant
                i <= records@.len(),
                challenger.wf(),
                evals(challenges@) == permutation_points(old(challenger)@),
                challenger@ == old(
                    challenger,
                )@.after_draw_ext().after_draw_ext().after_draw_ext().after_draw_ext(),
                traces_exist(*pk),
                forall|i: int|
                    0 <= i < records@.len() ==> traces_follow(self.chips@, #[trigger] records@[i]),
                forall|a: &A, p: Option<&Trace>, m: &Trace, c: &Vec<Ext>| #[trigger]
                    permute.requires((a, p, m, c)),
                forall|
                    a: &A,
                    p: Option<&Trace>,
                    m: &ChipRun<T>,
                    c: &Vec<Ext>,
                    v: &Vec<Felt>,
                | #[trigger]
                    check.requires((a, p, m, c, v)),
                sums@.len() == i,
                forall|j: int|
                    0 <= j < i ==> shard_outcome(
                        *self,
                        *pk,
                        records@[j],
                        &challenges,
                        zero@,
                        permute,
                        check,
                        j as usize,
                        None,
                        (#[trigger] sums@[j])@,
                    ),
            decreases records@.len() - i,
        {
            let shard = &records[i];
            let (runs, balanced) = self.run_shard(pk, shard, &challenges, zero, permute);
            let failure = self.debug_shard(pk, shard, &challenges, check, &runs, balanced, i);
            let ghost before = sums@;
            sums.push(sums_of(&runs));
            proof {
                assert(are_runs(*self, *pk, *shard, &challenges, zero@, permute, runs@));
                assert(shard_outcome(
                    *self,
                    *pk,
                    records@[i as int],
                    &challenges,
                    zero@,
                    permute,
                    check,
                    i,
                    failure,
                    sums@[i as int]@,
                ));
                assert forall|j: int| 0 <= j < i implies shard_outcome(
                    *self,
                    *pk,
                    records@[j],
                    &challenges,
                    zero@,
                    permute,
                    check,
                    j as usize,
                    None,
                    (#[trigger] sums@[j])@,
                ) by {
                    assert(sums@[j] == before[j]);
                }
            }
            match failure {
                Some(f) => {
                    return (challenges, sums, Err(f));
                },
                None => {},
            }
            i = i + 1;
        }
        let good = balance(&sums, pk.initial_global_cumulative_sum);
        if good {
            (challenges, sums, Ok(()))
        } else {
            (challenges, sums, Err(DebugFailure::GlobalSum))
        }
    }
}

proof fn included_are_taken<A: MachineAir>(chips: Seq<A>, shard: A::Record, k: int, i: int)
    requires
        0 <= k <= chips.len(),
        0 <= i < included_before(chips, shard, k).len(),
    ensures
        0 <= included_before(chips, shard, k)[i] < k,
        chips[included_before(chips, shard, k)[i]].takes(shard),
    decreases k,
{
    if k > 0 {
        let before = included_before(chips, shard, k - 1);
        if i < before.len() {
            included_are_taken(chips, shard, k - 1, i);
        }
    }
}

proof fn totals_agree<T>(a: Seq<ChipRun<T>>, b: Seq<ChipRun<T>>, k: int)
    requires
        0 <= k <= a.len(),
        k <= b.len(),
        forall|i: int| 0 <= i < k ==> a[i] == b[i],
    ensures
        local_total(a, k) == local_total(b, k),
    decreases k,
{
    if k > 0 {
        totals_agree(a, b, k - 1);
    }
}

/// The sums of the chips are added up, each once.
pub proof fn local_total_adds_every_sum<T>(runs: Seq<ChipRun<T>>, k: int)
    requires
        0 <= k <= runs.len(),
    ensures
        local_total(runs, k) == crate::mle::esum(k as nat, |i: int| runs[i].local_sum@),
    decreases k,
{
    if k > 0 {
        local_total_adds_every_sum(runs, k - 1);
    }
}

/// The challenges of the permutation are the next four extension elements drawn, in turn.
pub proof fn permutation_points_are_drawn_in_turn(s: Sponge)
    ensures
        permutation_points(s) == s.drawn_exts(4),
{
    reveal_with_fuel(Sponge::after_draw_exts, 5);
    assert(permutation_points(s) =~= s.drawn_exts(4));
}

} // verus!
