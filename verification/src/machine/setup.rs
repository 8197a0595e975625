//! The setup of a machine: the keys of a program.
use vstd::prelude::*;
use crate::air::machine::{table_of, width_or_zero, MachineAir, MachineProgram, Table};
use crate::arith::{trailing_zeros, twos_in};
use crate::ext::fvals;
use crate::felt::Felt;
use crate::machine::chips::{chip_names, preprocessed, title_keys, StarkMachine};
use crate::machine::keys::{copy_trace, named_tables,
    SerializableDomain, StarkGenericConfig, StarkProvingKey, StarkVerifyingKey};
use crate::machine::numbers::{entries_of, map_of, numbered_in_turn, turn_list, turns, Numbers};
use crate::selection::{is_selection, select_by_name, selection, selection_exists};
use crate::septic::curve::SepticCurve;
use crate::shard::lookup::{table_height, Trace};
use crate::machine::verify::are_prep_dims;
use crate::shard::names::{as_ints, name_le};

verus! {

/// Which chips have a preprocessed trace for a program.
pub open spec fn with_trace<A: MachineAir>(chips: Seq<A>, program: A::Program) -> Seq<bool> {
    Seq::new(chips.len(), |i: int| chips[i].fixed_table(program) is Some)
}

/// The chips with a preprocessed trace, in the order of their names.
pub open spec fn prep_order<A: MachineAir>(chips: Seq<A>, program: A::Program) -> Seq<int> {
    selection(title_keys(chips), with_trace(chips, program))
}

/// The preprocessed traces of a program with their names, in the order of the names.
pub open spec fn prep_tables<A: MachineAir>(chips: Seq<A>, program: A::Program) -> Seq<
    (Seq<char>, Table),
> {
    let order = prep_order(chips, program);
    Seq::new(
        order.len(),
        |i: int| (chips[order[i]].title(), chips[order[i]].fixed_table(program)->0),
    )
}

/// Whether every preprocessed trace has as many columns as its chip says.
pub open spec fn widths_agree<A: MachineAir>(chips: Seq<A>, program: A::Program) -> bool {
    forall|i: int|
        0 <= i < chips.len() ==> width_or_zero((#[trigger] chips[i]).fixed_table(program))
            == chips[i].fixed_width()
}

/// Whether the domains of the preprocessed traces have points.
pub open spec fn domains_exist<SC: StarkGenericConfig, A: MachineAir>(
    config: SC,
    chips: Seq<A>,
    program: A::Program,
) -> bool {
    forall|i: int|
        0 <= i < chips.len() ==> match (#[trigger] chips[i]).fixed_table(program) {
            Some(t) => config.domain_size(table_height(t.cells.len(), t.width)) > 0,
            None => true,
        }
}

/// Whether there is a pair of counts for every chip, and their sums are machine numbers.
pub open spec fn counts_fit<A>(chips: Seq<A>, counts: Seq<(usize, usize)>) -> bool {
    &&& counts.len() == chips.len()
    &&& forall|i: int|
        0 <= i < counts.len() ==> (#[trigger] counts[i]).0 + counts[i].1 <= usize::MAX
}

/// The names of named traces.
pub open spec fn names_of(named: Seq<(Seq<char>, Table)>) -> Seq<Seq<char>> {
    Seq::new(named.len(), |i: int| named[i].0)
}

/// Whether `info` describes named traces: the name, the natural domain of the height, and
/// the width and height.
pub open spec fn describes_tables<SC: StarkGenericConfig>(
    config: SC,
    info: Seq<(String, SerializableDomain, (usize, usize))>,
    named: Seq<(Seq<char>, Table)>,
) -> bool {
    &&& info.len() == named.len()
    &&& forall|i: int|
        0 <= i < info.len() ==> {
            let height = table_height(named[i].1.cells.len(), named[i].1.width);
            &&& (#[trigger] info[i]).0@ == named[i].0
            &&& info[i].1.shift@ == config.domain_start(height)
            &&& info[i].1.log_size == twos_in(config.domain_size(height))
            &&& info[i].2.0 == named[i].1.width
            &&& info[i].2.1 == height
        }
}

/// The sum of the two counts of every chip, by name.
pub open spec fn count_list<A: MachineAir>(chips: Seq<A>, counts: Seq<(usize, usize)>) -> Seq<
    (Seq<char>, nat),
> {
    Seq::new(chips.len(), |i: int| (chips[i].title(), (counts[i].0 + counts[i].1) as nat))
}

/// Whether a pair of keys is that of a program, whose initial memory makes lookups of the
/// given sum.
pub open spec fn are_keys<SC: StarkGenericConfig, A: MachineAir>(
    machine: StarkMachine<SC, A>,
    program: A::Program,
    counts: Seq<(usize, usize)>,
    sum: SepticCurve<Felt>,
    pk: StarkProvingKey<SC>,
    vk: StarkVerifyingKey,
) -> bool {
    let named = prep_tables(machine.chips@, program);
    &&& fvals(pk.commit@) == SC::prep_root(named, machine.core_rev)
    &&& pk.pc_start@ == program.first_pc()
    &&& pk.initial_global_cumulative_sum == sum
    &&& pk.traces@.len() == named.len()
    &&& forall|i: int|
        0 <= i < pk.traces@.len() ==> table_of(#[trigger] pk.traces@[i]) == named[i].1
    &&& pk.prep_rev == machine.core_rev
    &&& pk.chip_ordering@ == turns(names_of(named))
    &&& pk.constraints_map@ == map_of(
        count_list(machine.chips@, counts),
        machine.chips@.len() as int,
    )
    &&& vk.commit == pk.commit
    &&& vk.pc_start == pk.pc_start
    &&& vk.initial_global_cumulative_sum == sum
    &&& describes_tables(machine.config, vk.chip_information@, named)
    &&& vk.chip_ordering@ == turns(names_of(named))
}

/// The parts of the keys that follow from the chips alone.
struct Prepared {
    named: Vec<(String, Trace)>,
    information: Vec<(String, SerializableDomain, (usize, usize))>,
    ordering: Numbers,
    constraints: Numbers,
}

fn height_of_trace(t: &Trace) -> (r: usize)
    ensures
        r == table_height(t.values@.len(), t.width as nat),
{
    if t.width == 0 {
        0
    } else {
        t.values.len() / t.width
    }
}

fn sum_counts<A: MachineAir>(chips: &Vec<A>, counts: &Vec<(usize, usize)>) -> (r: Numbers)
    requires
        counts_fit(chips@, counts@),
    ensures
        r@ == map_of(count_list(chips@, counts@), chips@.len() as int),
{
    let mut r: Vec<(String, usize)> = Vec::new();
    let mut i: usize = 0;
    while i < chips.len()
        invariant
            i <= chips@.len(),
            counts_fit(chips@, counts@),
            r@.len() == i,
            forall|j: int|
                0 <= j < i ==> {
                    &&& (#[trigger] r@[j]).0@ == chips@[j].title()
                    &&& r@[j].1 == counts@[j].0 + counts@[j].1
                },
        decreases chips@.len() - i,
    {
        proof {
            assert(counts@[i as int].0 + counts@[i as int].1 <= usize::MAX);
        }
        r.push((chips[i].name(), counts[i].0 + counts[i].1));
        i = i + 1;
    }
    proof {
        assert(entries_of(r@) =~= count_list(chips@, counts@));
    }
    Numbers::of(r)
}

fn copy_named(s: &Vec<(String, Trace)>) -> (r: Vec<Trace>)
    ensures
        r@.len() == s@.len(),
        forall|i: int| 0 <= i < r@.len() ==> table_of(#[trigger] r@[i]) == table_of(s@[i].1),
{
    let mut r: Vec<Trace> = Vec::new();
    let mut i: usize = 0;
    while i < s.len()
        invariant
            i <= s@.len(),
            r@.len() == i,
            forall|j: int| 0 <= j < i ==> table_of(#[trigger] r@[j]) == table_of(s@[j].1),
        decreases s@.len() - i,
    {
        r.push(copy_trace(&s[i].1));
        i = i + 1;
    }
    r
}

impl<SC: StarkGenericConfig, A: MachineAir> StarkMachine<SC, A> {
    fn ordered_traces(&self, program: &A::Program) -> (r: Vec<(String, Trace)>)
        ensures
            named_tables(r@) == prep_tables(self.chips@, *program),
            is_selection(
                prep_order(self.chips@, *program),
                title_keys(self.chips@),
                with_trace(self.chips@, *program),
            ),
    {
        let names = chip_names(&self.chips);
        let mut generated: Vec<Option<Trace>> = Vec::new();
        let mut keep: Vec<bool> = Vec::new();
        let mut i: usize = 0;
        while i < self.chips.len()
            invariant
                i <= self.chips@.len(),
                generated@.len() == i,
                keep@.len() == i,
                forall|j: int|
                    0 <= j < i ==> {
                        &&& crate::air::machine::table_of_opt(#[trigger] generated@[j])
                            == self.chips@[j].fixed_table(*program)
                        &&& keep@[j] == (self.chips@[j].fixed_table(*program) is Some)
                    },
            decreases self.chips@.len() - i,
        {
            let t = self.chips[i].generate_preprocessed_trace(program);
            keep.push(t.is_some());
            generated.push(t);
            i = i + 1;
        }
        proof {
            assert(keep@ =~= with_trace(self.chips@, *program)) by {
                assert forall|j: int| 0 <= j < keep@.len() implies keep@[j] == with_trace(
                    self.chips@,
                    *program,
                )[j] by {
                    let _ = generated@[j];
                }
            }
        }
        let order = select_by_name(&names, &keep);
        let ghost o = as_ints(order@);
        let mut r: Vec<(String, Trace)> = Vec::new();
        let mut k: usize = 0;
        while k < order.len()
            invariant
                k <= order@.len(),
                o == as_ints(order@),
                is_selection(o, title_keys(self.chips@), keep@),
                keep@ == with_trace(self.chips@, *program),
                generated@.len() == self.chips@.len(),
                names@.len() == self.chips@.len(),
                forall|i: int|
                    0 <= i < names@.len() ==> (#[trigger] names@[i])@ == self.chips@[i].title(),
                forall|j: int|
                    0 <= j < generated@.len() ==> crate::air::machine::table_of_opt(
                        #[trigger] generated@[j],
                    ) == self.chips@[j].fixed_table(*program),
                r@.len() == k,
                forall|j: int|
                    0 <= j < k ==> {
                        &&& (#[trigger] r@[j]).0@ == self.chips@[o[j]].title()
                        &&& table_of(r@[j].1) == self.chips@[o[j]].fixed_table(*program)->0
                    },
            decreases order@.len() - k,
        {
            proof {
                assert(0 <= o[k as int] < title_keys(self.chips@).len());
                assert(keep@[o[k as int]]);
            }
            match &generated[order[k]] {
                Some(t) => {
                    r.push((names[order[k]].clone(), copy_trace(t)));
                },
                None => {
                    proof {
                        assert(false);
                    }
                },
            }
            k = k + 1;
        }
        proof {
            assert(named_tables(r@) =~= prep_tables(self.chips@, *program));
        }
        r
    }

    fn prepare(&self, program: &A::Program, counts: &Vec<(usize, usize)>) -> (r: Prepared)
        requires
            counts_fit(self.chips@, counts@),
            domains_exist(self.config, self.chips@, *program),
        ensures
            ({
                let named = prep_tables(self.chips@, *program);
                &&& named_tables(r.named@) == named
                &&& describes_tables(self.config, r.information@, named)
                &&& r.ordering@ == turns(names_of(named))
                &&& r.constraints@ == map_of(
                    count_list(self.chips@, counts@),
                    self.chips@.len() as int,
                )
            }),
    {
        let named = self.ordered_traces(program);
        let ghost tables = prep_tables(self.chips@, *program);
        let ghost order = prep_order(self.chips@, *program);
        let mut information: Vec<(String, SerializableDomain, (usize, usize))> = Vec::new();
        let mut ordering: Vec<(String, usize)> = Vec::new();
        let mut i: usize = 0;
        while i < named.len()
            invariant
                i <= named@.len(),
                named_tables(named@) == tables,
                tables == prep_tables(self.chips@, *program),
                order == prep_order(self.chips@, *program),
                is_selection(order, title_keys(self.chips@), with_trace(self.chips@, *program)),
                domains_exist(self.config, self.chips@, *program),
                information@.len() == i,
                ordering@.len() == i,
                forall|j: int|
                    0 <= j < i ==> {
                        &&& (#[trigger] ordering@[j]).0@ == tables[j].0
                        &&& ordering@[j].1 == j
                    },
                forall|j: int|
                    0 <= j < i ==> {
                        let height = table_height(tables[j].1.cells.len(), tables[j].1.width);
                        &&& (#[trigger] information@[j]).0@ == tables[j].0
                        &&& information@[j].1.shift@ == self.config.domain_start(height)
                        &&& information@[j].1.log_size == twos_in(self.config.domain_size(height))
                        &&& information@[j].2.0 == tables[j].1.width
                        &&& information@[j].2.1 == height
                    },
            decreases named@.len() - i,
        {
            proof {
                assert(named_tables(named@)[i as int] == tables[i as int]);
                assert(named_tables(named@).len() == named@.len());
                assert(tables.len() == order.len());
                assert(0 <= order[i as int] < title_keys(self.chips@).len());
                assert(with_trace(self.chips@, *program)[order[i as int]]);
                assert(self.chips@[order[i as int]].fixed_table(*program) is Some);
            }
            let height: usize = height_of_trace(&named[i].1);
            let (first, size) = self.config.natural_domain_for_degree(height);
            let log: usize = trailing_zeros(size);
            information.push(
                (
                    named[i].0.clone(),
                    SerializableDomain::new(first, log),
                    (named[i].1.width, height),
                ),
            );
            ordering.push((named[i].0.clone(), i));
            i = i + 1;
        }
        let constraints = sum_counts(&self.chips, counts);
        proof {
            assert(named_tables(named@).len() == named@.len());
            assert(entries_of(ordering@) =~= turn_list(names_of(tables)));
        }
        let ordering = Numbers::of(ordering);
        Prepared { named, information, ordering, constraints }
    }

    /// The keys of a program, given the numbers of main and permutation constraints of
    /// every chip. The proving key holds what opening its commitment takes.
    pub fn setup(&self, program: &A::Program, counts: &Vec<(usize, usize)>) -> (r: (
        StarkProvingKey<SC>,
        StarkVerifyingKey,
    ))
        requires
            widths_agree(self.chips@, *program),
            domains_exist(self.config, self.chips@, *program),
            counts_fit(self.chips@, counts@),
        ensures
            are_keys(*self, *program, counts@, program.initial_sum(), r.0, r.1),
            r.0.preprocessed_data matches Some(d) && SC::prep_opens(
                d,
                prep_tables(self.chips@, *program),
                self.core_rev,
            ),
    {
        let p = self.prepare(program, counts);
        let data = SC::prep_precompute(&p.named, self.core_rev());
        let commit = SC::commit_root(&data);
        let sum = program.initial_global_cumulative_sum();
        let pc_start = program.pc_start();
        let ordering = p.ordering.duplicate();
        let pk = StarkProvingKey::from_parts_with_preprocessed_data(
            commit,
            pc_start,
            sum,
            copy_named(&p.named),
            p.ordering,
            p.constraints,
            self.core_rev(),
            data,
        );
        let vk = StarkVerifyingKey {
            commit,
            pc_start,
            initial_global_cumulative_sum: sum,
            chip_information: p.information,
            chip_ordering: ordering,
        };
        proof {
            assert forall|i: int| 0 <= i < pk.traces@.len() implies table_of(
                #[trigger] pk.traces@[i],
            ) == prep_tables(self.chips@, *program)[i].1 by {
                assert(named_tables(p.named@)[i] == prep_tables(self.chips@, *program)[i]);
            }
        }
        (pk, vk)
    }

    /// The keys of a program whose initial memory makes lookups of a known sum.
    pub fn setup_core(
        &self,
        program: &A::Program,
        counts: &Vec<(usize, usize)>,
        initial_global_cumulative_sum: SepticCurve<Felt>,
    ) -> (r: (StarkProvingKey<SC>, StarkVerifyingKey))
        requires
            widths_agree(self.chips@, *program),
            domains_exist(self.config, self.chips@, *program),
            counts_fit(self.chips@, counts@),
        ensures
            are_keys(*self, *program, counts@, initial_global_cumulative_sum, r.0, r.1),
            r.0.preprocessed_data is None,
    {
        let p = self.prepare(program, counts);
        let commit = SC::prep_commit(&p.named, self.core_rev());
        let pc_start = program.pc_start();
        let ordering = p.ordering.duplicate();
        let pk = StarkProvingKey::from_parts(
            commit,
            pc_start,
            initial_global_cumulative_sum,
            copy_named(&p.named),
            p.ordering,
            p.constraints,
            self.core_rev(),
        );
        let vk = StarkVerifyingKey {
            commit,
            pc_start,
            initial_global_cumulative_sum,
            chip_information: p.information,
            chip_ordering: ordering,
        };
        proof {
            assert forall|i: int| 0 <= i < pk.traces@.len() implies table_of(
                #[trigger] pk.traces@[i],
            ) == prep_tables(self.chips@, *program)[i].1 by {
                assert(named_tables(p.named@)[i] == prep_tables(self.chips@, *program)[i]);
            }
        }
        (pk, vk)
    }
}

/// What a proving key computes anew opens the very commitment of its setup: the traces in
/// the order of the chips' numbers are those that were committed to, under the orientation
/// that they were committed under. The names of the chips are distinct.
pub proof fn rebuilt_data_opens_commitment<SC: StarkGenericConfig, A: MachineAir>(
    machine: StarkMachine<SC, A>,
    program: A::Program,
    counts: Seq<(usize, usize)>,
    sum: SepticCurve<Felt>,
    pk: StarkProvingKey<SC>,
    vk: StarkVerifyingKey,
)
    requires
        are_keys(machine, program, counts, sum, pk, vk),
        forall|i: int, j: int|
            0 <= i < j < machine.chips@.len() ==> (#[trigger] machine.chips@[i]).title() != (
            #[trigger] machine.chips@[j]).title(),
    ensures
        pk.named() == prep_tables(machine.chips@, program),
        SC::prep_root(pk.named(), pk.prep_rev) == fvals(pk.commit@),
{
    let named = prep_tables(machine.chips@, program);
    let order = prep_order(machine.chips@, program);
    let names = names_of(named);
    assert(machine.chips@.len() == machine.chips.len());
    selection_exists(title_keys(machine.chips@), with_trace(machine.chips@, program));
    assert forall|i: int, j: int| 0 <= i < j < names.len() implies (#[trigger] names[i]) != (
    #[trigger] names[j]) by {
        assert(crate::selection::stands_before(title_keys(machine.chips@), order[i], order[j]));
        assert(0 <= order[i] < title_keys(machine.chips@).len());
        assert(0 <= order[j] < title_keys(machine.chips@).len());
        if order[i] == order[j] {
            assert(order[i] < order[j]);
        } else if order[i] < order[j] {
            assert(machine.chips@[order[i]].title() != machine.chips@[order[j]].title());
        } else {
            assert(machine.chips@[order[j]].title() != machine.chips@[order[i]].title());
        }
    }
    numbered_in_turn(names);
    assert(pk.named() =~= named);
}

/// The chips that a machine names as preprocessed are those that setup commits to, in the
/// order of the commitment and with their numbers of columns, where no chip has a trace
/// without columns.
pub proof fn preprocessed_chips_are_committed<SC, A: MachineAir>(
    machine: StarkMachine<SC, A>,
    program: A::Program,
)
    requires
        widths_agree(machine.chips@, program),
        forall|i: int|
            0 <= i < machine.chips@.len() ==> match (#[trigger] machine.chips@[i]).fixed_table(
                program,
            ) {
                Some(t) => t.width > 0,
                None => true,
            },
    ensures
        selection(title_keys(machine.chips@), preprocessed(machine.chips@)) == prep_order(
            machine.chips@,
            program,
        ),
{
    let a = preprocessed(machine.chips@);
    let b = with_trace(machine.chips@, program);
    assert forall|i: int| 0 <= i < a.len() implies a[i] == b[i] by {
        assert(width_or_zero(machine.chips@[i].fixed_table(program))
            == machine.chips@[i].fixed_width());
    }
    assert(a =~= b);
}

/// The keys of a program list the machine's preprocessed chips: with distinct names, and where
/// no chip has a trace without columns, both keys hold one commitment and one numbering, the
/// verifying key describes the chips that the machine names as preprocessed, in the strict
/// order of their names and with their numbers of columns, a chip's number is its place
/// there, and the proving key holds one trace for each, under the machine's orientation.
pub proof fn keys_list_the_machine<SC: StarkGenericConfig, A: MachineAir>(
    machine: StarkMachine<SC, A>,
    program: A::Program,
    counts: Seq<(usize, usize)>,
    sum: SepticCurve<Felt>,
    pk: StarkProvingKey<SC>,
    vk: StarkVerifyingKey,
    dims: Seq<(String, usize)>,
)
    requires
        are_keys(machine, program, counts, sum, pk, vk),
        are_prep_dims(machine.chips@, dims),
        widths_agree(machine.chips@, program),
        forall|i: int, j: int|
            0 <= i < j < machine.chips@.len() ==> (#[trigger] machine.chips@[i]).title() != (
            #[trigger] machine.chips@[j]).title(),
        forall|i: int|
            0 <= i < machine.chips@.len() ==> match (#[trigger] machine.chips@[i]).fixed_table(
                program,
            ) {
                Some(t) => t.width > 0,
                None => true,
            },
    ensures
        pk.commit == vk.commit,
        pk.chip_ordering@ == vk.chip_ordering@,
        pk.prep_rev == machine.core_rev,
        pk.traces@.len() == vk.chip_information@.len(),
        vk.chip_information@.len() == dims.len(),
        forall|i: int|
            0 <= i < dims.len() ==> (#[trigger] vk.chip_information@[i]).0@ == dims[i].0@
                && vk.chip_information@[i].2.0 == dims[i].1,
        forall|i: int, j: int|
            0 <= i < j < dims.len() ==> name_le(
                (#[trigger] vk.chip_information@[i]).0@,
                (#[trigger] vk.chip_information@[j]).0@,
            ) && vk.chip_information@[i].0@ != vk.chip_information@[j].0@,
        forall|name: Seq<char>, i: int|
            0 <= i < dims.len() ==> ((#[trigger] vk.chip_information@[i]).0@ == name <==> (
            #[trigger] vk.chip_ordering@.dom().contains(name) && vk.chip_ordering@[name] == i)),
{
    let chips = machine.chips@;
    let named = prep_tables(chips, program);
    let order = prep_order(chips, program);
    let names = names_of(named);
    let keys = title_keys(chips);
    assert(chips.len() == machine.chips.len());
    preprocessed_chips_are_committed(machine, program);
    selection_exists(keys, with_trace(chips, program));
    assert forall|i: int, j: int| 0 <= i < j < names.len() implies (#[trigger] names[i]) != (
    #[trigger] names[j]) && name_le(names[i], names[j]) by {
        assert(crate::selection::stands_before(keys, order[i], order[j]));
        assert(0 <= order[i] < keys.len());
        assert(0 <= order[j] < keys.len());
        if order[i] == order[j] {
            assert(order[i] < order[j]);
        } else if order[i] < order[j] {
            assert(chips[order[i]].title() != chips[order[j]].title());
        } else {
            assert(chips[order[j]].title() != chips[order[i]].title());
        }
    }
    assert forall|i: int| 0 <= i < dims.len() implies (
    #[trigger] vk.chip_information@[i]).0@ == dims[i].0@ && vk.chip_information@[i].2.0
        == dims[i].1 by {
        assert(0 <= order[i] < keys.len());
        assert(with_trace(chips, program)[order[i]]);
        assert(width_or_zero(chips[order[i]].fixed_table(program))
            == chips[order[i]].fixed_width());
        assert(dims[i].0@ == chips[order[i]].title());
    }
    assert forall|i: int, j: int| 0 <= i < j < dims.len() implies name_le(
        (#[trigger] vk.chip_information@[i]).0@,
        (#[trigger] vk.chip_information@[j]).0@,
    ) && vk.chip_information@[i].0@ != vk.chip_information@[j].0@ by {
        assert(names[i] != names[j]);
    }
    assert forall|name: Seq<char>, i: int| 0 <= i < dims.len() implies ((
    #[trigger] vk.chip_information@[i]).0@ == name <==> (
    #[trigger] vk.chip_ordering@.dom().contains(name) && vk.chip_ordering@[name] == i)) by {
        assert(names[i] == vk.chip_information@[i].0@);
        turn_of_name(names, i);
        turn_has_name(names, names.len() as int, name);
    }
}

/// A name has the number of its place.
proof fn turn_of_name(names: Seq<Seq<char>>, i: int)
    requires
        0 <= i < names.len(),
        forall|a: int, b: int|
            0 <= a < b < names.len() ==> (#[trigger] names[a]) != (#[trigger] names[b]),
    ensures
        turns(names).dom().contains(names[i]),
        turns(names)[names[i]] == i,
{
    turn_of_name_to(names, i, names.len() as int);
}

proof fn turn_of_name_to(names: Seq<Seq<char>>, i: int, k: int)
    requires
        0 <= i < k <= names.len(),
        forall|a: int, b: int|
            0 <= a < b < names.len() ==> (#[trigger] names[a]) != (#[trigger] names[b]),
    ensures
        map_of(turn_list(names), k).dom().contains(names[i]),
        map_of(turn_list(names), k)[names[i]] == i,
    decreases k,
{
    if i < k - 1 {
        turn_of_name_to(names, i, k - 1);
        assert(names[i] != names[k - 1]);
    }
}

/// Every numbered name stands at the place of its number.
proof fn turn_has_name(names: Seq<Seq<char>>, k: int, name: Seq<char>)
    requires
        0 <= k <= names.len(),
    ensures
        ({
            let m = map_of(turn_list(names), k);
            m.dom().contains(name) ==> m[name] < k && names[m[name] as int] == name
        }),
    decreases k,
{
    if k > 0 {
        turn_has_name(names, k - 1, name);
    }
}

} // verus!
