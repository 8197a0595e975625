//! A machine and the chips that a shard has.
use vstd::prelude::*;
use crate::air::machine::{MachineAir, MachineRecord};
use crate::machine::numbers::Numbers;
use crate::selection::{is_selection, number_keys, select_by_name, select_by_number, selection, Key};
use crate::shard::names::{as_ints, find_entry, has_entry};

verus! {

/// A machine: its settings, its chips in the order of their execution, and the number of
/// its public values.
pub struct StarkMachine<SC, A> {
    /// The settings.
    pub config: SC,
    /// The chips.
    pub chips: Vec<A>,
    /// The number of public values.
    pub num_pv_elts: usize,
    /// Whether shard proofs read their rows in the reversed orientation.
    pub core_rev: bool,
}

/// Names as keys.
pub open spec fn title_keys<A: MachineAir>(chips: Seq<A>) -> Seq<Key> {
    Seq::new(chips.len(), |i: int| Key::Name(chips[i].title()))
}

/// Which chips have an entry in a list by name.
pub open spec fn listed<A: MachineAir, V>(chips: Seq<A>, list: Seq<(String, V)>) -> Seq<bool> {
    Seq::new(chips.len(), |i: int| has_entry(list, chips[i].title()))
}

/// Which chips have a number.
pub open spec fn numbered<A: MachineAir>(chips: Seq<A>, numbers: Map<Seq<char>, nat>) -> Seq<bool> {
    Seq::new(chips.len(), |i: int| numbers.dom().contains(chips[i].title()))
}

/// The numbers of the chips, zero for those without one.
pub open spec fn numbers_of<A: MachineAir>(chips: Seq<A>, numbers: Map<Seq<char>, nat>) -> Seq<
    Key,
> {
    Seq::new(
        chips.len(),
        |i: int|
            Key::Number(
                if numbers.dom().contains(chips[i].title()) {
                    numbers[chips[i].title()]
                } else {
                    0
                },
            ),
    )
}

/// Which chips have preprocessed columns.
pub open spec fn preprocessed<A: MachineAir>(chips: Seq<A>) -> Seq<bool> {
    Seq::new(chips.len(), |i: int| chips[i].fixed_width() > 0)
}

/// Whether `r` holds the chips of given numbers.
pub open spec fn picks<A>(r: Seq<&A>, chips: Seq<A>, order: Seq<int>) -> bool {
    &&& r.len() == order.len()
    &&& forall|i: int| 0 <= i < r.len() ==> *(#[trigger] r[i]) == chips[order[i]]
}

/// The names of chips.
pub fn chip_names<A: MachineAir>(chips: &Vec<A>) -> (r: Vec<String>)
    ensures
        r@.len() == chips@.len(),
        crate::selection::name_keys(r@) == title_keys(chips@),
        forall|i: int| 0 <= i < r@.len() ==> (#[trigger] r@[i])@ == chips@[i].title(),
{
    let mut r: Vec<String> = Vec::new();
    let mut i: usize = 0;
    while i < chips.len()
        invariant
            i <= chips@.len(),
            r@.len() == i,
            forall|j: int| 0 <= j < i ==> (#[trigger] r@[j])@ == chips@[j].title(),
        decreases chips@.len() - i,
    {
        r.push(chips[i].name());
        i = i + 1;
    }
    proof {
        assert(crate::selection::name_keys(r@) =~= title_keys(chips@));
    }
    r
}

fn pick<'a, A>(chips: &'a Vec<A>, order: &Vec<usize>, Ghost(keys): Ghost<Seq<Key>>, Ghost(keep): Ghost<
    Seq<bool>,
>) -> (r: Vec<&'a A>)
    requires
        keys.len() == chips@.len(),
        is_selection(as_ints(order@), keys, keep),
    ensures
        picks(r@, chips@, as_ints(order@)),
{
    let mut r: Vec<&'a A> = Vec::new();
    let mut i: usize = 0;
    while i < order.len()
        invariant
            i <= order@.len(),
            keys.len() == chips@.len(),
            is_selection(as_ints(order@), keys, keep),
            r@.len() == i,
            forall|j: int| 0 <= j < i ==> *(#[trigger] r@[j]) == chips@[as_ints(order@)[j]],
        decreases order@.len() - i,
    {
        proof {
            assert(0 <= as_ints(order@)[i as int] < keys.len());
        }
        r.push(&chips[order[i]]);
        i = i + 1;
    }
    r
}

impl<SC, A> StarkMachine<SC, A> {
    /// A machine whose shard proofs read their rows in the legacy orientation: every
    /// machine but the core one.
    pub fn new(config: SC, chips: Vec<A>, num_pv_elts: usize) -> (r: Self)
        ensures
            r == (StarkMachine { config, chips, num_pv_elts, core_rev: false }),
    {
        StarkMachine { config, chips, num_pv_elts, core_rev: false }
    }

    /// The core machine: its shard proofs read their rows in the reversed orientation.
    pub fn new_core_rev(config: SC, chips: Vec<A>, num_pv_elts: usize) -> (r: Self)
        ensures
            r == (StarkMachine { config, chips, num_pv_elts, core_rev: true }),
    {
        StarkMachine { config, chips, num_pv_elts, core_rev: true }
    }

    /// Whether shard proofs read their rows in the reversed orientation.
    pub fn core_rev(&self) -> (r: bool)
        ensures
            r == self.core_rev,
    {
        self.core_rev
    }

    /// The chips.
    pub fn chips(&self) -> (r: &Vec<A>)
        ensures
            *r == self.chips,
    {
        &self.chips
    }

    /// The number of public values.
    pub fn num_pv_elts(&self) -> (r: usize)
        ensures
            r == self.num_pv_elts,
    {
        self.num_pv_elts
    }

    /// The settings.
    pub fn config(&self) -> (r: &SC)
        ensures
            *r == self.config,
    {
        &self.config
    }
}

/// The chips before `k` that a shard has, in the order of the machine.
pub open spec fn included_before<A: MachineAir>(chips: Seq<A>, shard: A::Record, k: int) -> Seq<int>
    decreases k,
{
    if k <= 0 {
        Seq::empty()
    } else if chips[k - 1].takes(shard) {
        included_before(chips, shard, k - 1).push(k - 1)
    } else {
        included_before(chips, shard, k - 1)
    }
}

/// Whether a list of names has a name.
pub open spec fn named_in(names: Seq<String>, name: Seq<char>) -> bool {
    exists|i: int| 0 <= i < names.len() && (#[trigger] names[i])@ == name
}

/// Whether a chip is named in a filter. Without a filter every chip passes.
pub open spec fn passes<A: MachineAir>(chip: A, filter: Option<&Vec<String>>) -> bool {
    match filter {
        None => true,
        Some(names) => named_in(names@, chip.title()),
    }
}

/// The events of a record after the first `k` chips, and the error that stopped them. Each
/// chip that passes the filter and that the record then has events for appends what it
/// produces.
pub open spec fn record_after<A: MachineAir>(
    chips: Seq<A>,
    filter: Option<&Vec<String>>,
    record: A::Record,
    k: int,
) -> (A::Record, Option<A::Error>)
    decreases k,
{
    if k <= 0 {
        (record, None)
    } else {
        let (before, failed) = record_after(chips, filter, record, k - 1);
        let chip = chips[k - 1];
        if failed is Some || !passes(chip, filter) || !chip.takes(before) {
            (before, failed)
        } else {
            let (produced, outcome) = chip.depended(before, A::Record::blank());
            match outcome {
                Ok(_) => (before.joined(produced), None),
                Err(e) => (before, Some(e)),
            }
        }
    }
}

/// The outcome of a record after all chips.
pub open spec fn record_done<A: MachineAir>(
    chips: Seq<A>,
    filter: Option<&Vec<String>>,
    record: A::Record,
) -> (A::Record, Option<A::Error>) {
    record_after(chips, filter, record, chips.len() as int)
}

/// Whether `r` is the outcome of generating the dependencies of records in turn: every
/// record up to the first that fails has its outcome, the ones behind it are as they were.
pub open spec fn dependencies_done<A: MachineAir>(
    chips: Seq<A>,
    filter: Option<&Vec<String>>,
    before: Seq<A::Record>,
    after: Seq<A::Record>,
    r: Result<(), A::Error>,
) -> bool {
    &&& after.len() == before.len()
    &&& match r {
        Ok(_) => forall|i: int|
            0 <= i < before.len() ==> #[trigger] record_done(chips, filter, before[i]) == (
                after[i],
                None::<A::Error>,
            ),
        Err(e) => exists|stop: int|
            {
                &&& 0 <= stop < before.len()
                &&& #[trigger] record_done(chips, filter, before[stop]) == (after[stop], Some(e))
                &&& forall|i: int|
                    0 <= i < stop ==> #[trigger] record_done(chips, filter, before[i]) == (
                        after[i],
                        None::<A::Error>,
                    )
                &&& forall|i: int| stop < i < before.len() ==> #[trigger] after[i] == before[i]
            },
    }
}

proof fn failure_stays<A: MachineAir>(
    chips: Seq<A>,
    filter: Option<&Vec<String>>,
    record: A::Record,
    k: int,
    n: int,
)
    requires
        0 <= k <= n,
        record_after(chips, filter, record, k).1 is Some,
    ensures
        record_after(chips, filter, record, n) == record_after(chips, filter, record, k),
    decreases n,
{
    if k < n {
        failure_stays(chips, filter, record, k, n - 1);
    }
}

impl<SC, A: MachineAir> StarkMachine<SC, A> {
    /// The chips that a shard has, in the order of the machine.
    pub fn shard_chips(&self, shard: &A::Record) -> (r: Vec<&A>)
        ensures
            picks(
                r@,
                self.chips@,
                included_before(self.chips@, *shard, self.chips@.len() as int),
            ),
    {
        let mut r: Vec<&A> = Vec::new();
        let mut i: usize = 0;
        while i < self.chips.len()
            invariant
                i <= self.chips@.len(),
                picks(r@, self.chips@, included_before(self.chips@, *shard, i as int)),
            decreases self.chips@.len() - i,
        {
            if self.chips[i].included(shard) {
                r.push(&self.chips[i]);
            }
            i = i + 1;
        }
        r
    }

    /// The chips that have a number, in the order of the numbers.
    pub fn shard_chips_ordered(&self, chip_ordering: &Numbers) -> (r: Vec<&A>)
        ensures
            picks(
                r@,
                self.chips@,
                selection(
                    numbers_of(self.chips@, chip_ordering@),
                    numbered(self.chips@, chip_ordering@),
                ),
            ),
    {
        let mut numbers: Vec<usize> = Vec::new();
        let mut keep: Vec<bool> = Vec::new();
        let mut i: usize = 0;
        while i < self.chips.len()
            invariant
                i <= self.chips@.len(),
                numbers@.len() == i,
                keep@.len() == i,
                forall|j: int|
                    0 <= j < i ==> Key::Number((#[trigger] numbers@[j]) as nat) == numbers_of(
                        self.chips@,
                        chip_ordering@,
                    )[j],
                forall|j: int|
                    0 <= j < i ==> #[trigger] keep@[j] == numbered(self.chips@, chip_ordering@)[j],
            decreases self.chips@.len() - i,
        {
            match chip_ordering.get(&self.chips[i].name()) {
                Some(number) => {
                    numbers.push(number);
                    keep.push(true);
                },
                None => {
                    numbers.push(0);
                    keep.push(false);
                },
            }
            i = i + 1;
        }
        proof {
            assert(number_keys(numbers@) =~= numbers_of(self.chips@, chip_ordering@));
            assert(keep@ =~= numbered(self.chips@, chip_ordering@));
        }
        let order = select_by_number(&numbers, &keep);
        pick(&self.chips, &order, Ghost(number_keys(numbers@)), Ghost(keep@))
    }

    /// The chips of a list by name, in the order of their names.
    pub fn shard_chips_named<V>(&self, chip_heights: &Vec<(String, V)>) -> (r: Vec<&A>)
        ensures
            picks(
                r@,
                self.chips@,
                selection(title_keys(self.chips@), listed(self.chips@, chip_heights@)),
            ),
    {
        let names = chip_names(&self.chips);
        let mut keep: Vec<bool> = Vec::new();
        let mut i: usize = 0;
        while i < names.len()
            invariant
                i <= names@.len(),
                names@.len() == self.chips@.len(),
                forall|j: int|
                    0 <= j < names@.len() ==> (#[trigger] names@[j])@ == self.chips@[j].title(),
                keep@.len() == i,
                forall|j: int|
                    0 <= j < i ==> #[trigger] keep@[j] == listed(self.chips@, chip_heights@)[j],
            decreases names@.len() - i,
        {
            keep.push(find_entry(chip_heights, &names[i]).is_some());
            i = i + 1;
        }
        proof {
            assert(keep@ =~= listed(self.chips@, chip_heights@));
        }
        let order = select_by_name(&names, &keep);
        pick(&self.chips, &order, Ghost(title_keys(self.chips@)), Ghost(keep@))
    }

    /// The chips with preprocessed columns, in the order of their names, and the numbers of
    /// those columns.
    pub fn preprocessed_chip_dims(&self) -> (r: Vec<(String, usize)>)
        ensures
            ({
                let order = selection(title_keys(self.chips@), preprocessed(self.chips@));
                &&& r@.len() == order.len()
                &&& forall|i: int|
                    0 <= i < r@.len() ==> {
                        &&& (#[trigger] r@[i]).0@ == self.chips@[order[i]].title()
                        &&& r@[i].1 == self.chips@[order[i]].fixed_width()
                    }
            }),
    {
        let names = chip_names(&self.chips);
        let mut keep: Vec<bool> = Vec::new();
        let mut i: usize = 0;
        while i < self.chips.len()
            invariant
                i <= self.chips@.len(),
                keep@.len() == i,
                forall|j: int|
                    0 <= j < i ==> #[trigger] keep@[j] == preprocessed(self.chips@)[j],
            decreases self.chips@.len() - i,
        {
            keep.push(self.chips[i].preprocessed_width() > 0);
            i = i + 1;
        }
        proof {
            assert(keep@ =~= preprocessed(self.chips@));
        }
        let order = select_by_name(&names, &keep);
        let ghost o = as_ints(order@);
        let mut r: Vec<(String, usize)> = Vec::new();
        let mut k: usize = 0;
        while k < order.len()
            invariant
                k <= order@.len(),
                o == as_ints(order@),
                is_selection(o, title_keys(self.chips@), keep@),
                r@.len() == k,
                forall|i: int|
                    0 <= i < k ==> {
                        &&& (#[trigger] r@[i]).0@ == self.chips@[o[i]].title()
                        &&& r@[i].1 == self.chips@[o[i]].fixed_width()
                    },
            decreases order@.len() - k,
        {
            proof {
                assert(0 <= o[k as int] < title_keys(self.chips@).len());
            }
            let chip = &self.chips[order[k]];
            r.push((chip.name(), chip.preprocessed_width()));
            k = k + 1;
        }
        r
    }

    /// Appends to every record what the chips that pass the filter produce for it. A chip
    /// that the record, as it then stands, has no events for is passed over. The first
    /// error stops the work.
    pub fn generate_dependencies(
        &self,
        records: &mut Vec<A::Record>,
        chips_filter: Option<&Vec<String>>,
    ) -> (r: Result<(), A::Error>)
        ensures
            dependencies_done(self.chips@, chips_filter, old(records)@, final(records)@, r),
    {
        let ghost before = records@;
        let n: usize = records.len();
        let mut at: usize = 0;
        while at < n
            invariant
                at <= n,
                before == old(records)@,
                n == before.len(),
                records@.len() == n,
                forall|i: int|
                    0 <= i < at ==> #[trigger] record_done(self.chips@, chips_filter, before[i])
                        == (records@[i], None::<A::Error>),
                forall|i: int| at <= i < n ==> #[trigger] records@[i] == before[i],
            decreases n - at,
        {
            let ghost current = records@;
            let outcome = self.record_dependencies(&mut records[at], chips_filter);
            proof {
                assert(records@ =~= current.update(at as int, records@[at as int]));
            }
            match outcome {
                Ok(_) => {},
                Err(e) => {
                    proof {
                        assert(before[at as int] == current[at as int]);
                        assert(record_done(self.chips@, chips_filter, before[at as int]) == (
                            records@[at as int],
                            Some(e),
                        ));
                    }
                    return Err(e);
                },
            }
            at = at + 1;
        }
        Ok(())
    }

    fn record_dependencies(&self, record: &mut A::Record, chips_filter: Option<&Vec<String>>) -> (r:
        Result<(), A::Error>)
        ensures
            record_done(self.chips@, chips_filter, *old(record)) == (
                *final(record),
                match r {
                    Ok(_) => None,
                    Err(e) => Some(e),
                },
            ),
    {
        let ghost start = *record;
        let mut i: usize = 0;
        while i < self.chips.len()
            invariant
                i <= self.chips@.len(),
                start == *old(record),
                record_after(self.chips@, chips_filter, start, i as int) == (
                    *record,
                    None::<A::Error>,
                ),
            decreases self.chips@.len() - i,
        {
            let chip = &self.chips[i];
            if chip_passes(chip, chips_filter) && chip.included(record) {
                let mut output = A::Record::empty();
                match chip.generate_dependencies(record, &mut output) {
                    Ok(_) => {
                        record.append(&mut output);
                    },
                    Err(e) => {
                        proof {
                            assert(record_after(self.chips@, chips_filter, start, i as int + 1)
                                == (*record, Some(e)));
                            failure_stays(
                                self.chips@,
                                chips_filter,
                                start,
                                i as int + 1,
                                self.chips@.len() as int,
                            );
                        }
                        return Err(e);
                    },
                }
            }
            i = i + 1;
        }
        Ok(())
    }
}

fn chip_passes<A: MachineAir>(chip: &A, filter: Option<&Vec<String>>) -> (r: bool)
    ensures
        r == passes(*chip, filter),
{
    match filter {
        None => true,
        Some(names) => {
            let name = chip.name();
            let mut i: usize = 0;
            while i < names.len()
                invariant
                    i <= names@.len(),
                    filter == Some(names),
                    name@ == chip.title(),
                    forall|j: int| 0 <= j < i ==> (#[trigger] names@[j])@ != name@,
                decreases names@.len() - i,
            {
                if names[i] == name {
                    proof {
                        assert(names@[i as int]@ == chip.title());
                        assert(named_in(names@, chip.title()));
                    }
                    return true;
                }
                i = i + 1;
            }
            false
        },
    }
}

} // verus!
