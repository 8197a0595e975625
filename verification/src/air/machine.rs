//! What a machine asks of its chips, records and programs.
use vstd::prelude::*;
use crate::air::picus::PicusInfo;
use crate::ext::fvals;
use crate::felt::Felt;
use crate::septic::curve::SepticCurve;
use crate::shard::lookup::Trace;

verus! {

/// Where a lookup is answered.
#[derive(Clone, Copy, Debug, PartialEq, Eq, Structural)]
pub enum LookupScope {
    /// In another shard.
    Global,
    /// In the same shard.
    Local,
}

/// The content of a trace: its entries row by row, and the number of its columns.
pub struct Table {
    pub cells: Seq<int>,
    pub width: nat,
}

/// The content of a trace.
pub open spec fn table_of(t: Trace) -> Table {
    Table { cells: fvals(t.values@), width: t.width as nat }
}

/// The content of a trace that may be absent.
pub open spec fn table_of_opt(t: Option<Trace>) -> Option<Table> {
    match t {
        Some(x) => Some(table_of(x)),
        None => None,
    }
}

/// The number of columns of a trace, none where it is absent.
pub open spec fn width_or_zero(t: Option<Table>) -> nat {
    match t {
        Some(x) => x.width,
        None => 0,
    }
}

/// The events of an execution.
pub trait MachineRecord: Sized {
    /// The record without events.
    open spec fn blank() -> Self {
        arbitrary()
    }

    /// A record with the events of another one behind its own.
    open spec fn joined(self, other: Self) -> Self {
        arbitrary()
    }

    /// The public values.
    open spec fn publics(self) -> Seq<int> {
        arbitrary()
    }

    /// The record without events.
    fn empty() -> (r: Self)
        ensures
            r == Self::blank(),
    ;

    /// Takes over the events of another record.
    fn append(&mut self, other: &mut Self)
        ensures
            *final(self) == old(self).joined(*old(other)),
    ;

    /// The public values.
    fn public_values(&self) -> (r: Vec<Felt>)
        ensures
            fvals(r@) == self.publics(),
    ;
}

/// A program that defines the control flow of a machine.
pub trait MachineProgram: Sized {
    /// The program counter to start at.
    open spec fn first_pc(&self) -> int {
        arbitrary()
    }

    /// The sum of the lookups that the initial memory makes.
    open spec fn initial_sum(&self) -> SepticCurve<Felt> {
        arbitrary()
    }

    /// Gets the starting program counter.
    fn pc_start(&self) -> (r: Felt)
        ensures
            r@ == self.first_pc(),
    ;

    /// Gets the initial global cumulative sum.
    fn initial_global_cumulative_sum(&self) -> (r: SepticCurve<Felt>)
        ensures
            r == self.initial_sum(),
    ;
}

/// A chip of a machine. A chip outside verified code leaves the specification functions at
/// their defaults.
pub trait MachineAir: Sized {
    /// The execution record that the traces come from.
    type Record: MachineRecord;

    /// The program of the machine.
    type Program: MachineProgram;

    /// Why a trace cannot be generated.
    type Error;

    /// The name.
    open spec fn title(&self) -> Seq<char> {
        arbitrary()
    }

    /// Whether a record has events for the chip.
    open spec fn takes(&self, shard: Self::Record) -> bool {
        arbitrary()
    }

    /// The number of preprocessed columns.
    open spec fn fixed_width(&self) -> nat {
        arbitrary()
    }

    /// The preprocessed trace.
    open spec fn fixed_table(&self, program: Self::Program) -> Option<Table> {
        arbitrary()
    }

    /// What generating the trace leaves in the output record, and the trace.
    open spec fn traced(&self, input: Self::Record, output: Self::Record) -> (
        Self::Record,
        Result<Table, Self::Error>,
    ) {
        arbitrary()
    }

    /// What generating the dependencies leaves in the output record, and its outcome.
    open spec fn depended(&self, input: Self::Record, output: Self::Record) -> (
        Self::Record,
        Result<(), Self::Error>,
    ) {
        arbitrary()
    }

    /// Where the chip's lookups are answered.
    open spec fn scope(&self) -> LookupScope {
        arbitrary()
    }

    /// A unique identifier of this chip in its machine.
    fn name(&self) -> (r: String)
        ensures
            r@ == self.title(),
    ;

    /// The number of rows of the trace, where it is known.
    fn num_rows(&self, _input: &Self::Record) -> (r: Option<usize>)
        default_ensures
            r is None,
    {
        None
    }

    /// Generates the trace of a record. The chip may leave events in `output`.
    fn generate_trace(&self, input: &Self::Record, output: &mut Self::Record) -> (r: Result<
        Trace,
        Self::Error,
    >)
        ensures
            ({
                let (events, outcome) = self.traced(*input, *old(output));
                &&& *final(output) == events
                &&& match (r, outcome) {
                    (Ok(t), Ok(w)) => table_of(t) == w,
                    (Err(e), Err(f)) => e == f,
                    _ => false,
                }
            }),
    ;

    /// Generates the events that other chips need for a record.
    fn generate_dependencies(&self, input: &Self::Record, output: &mut Self::Record) -> (r: Result<
        (),
        Self::Error,
    >)
        ensures
            (*final(output), r) == self.depended(*input, *old(output)),
    ;

    /// Whether a record has events for the chip.
    fn included(&self, shard: &Self::Record) -> (r: bool)
        ensures
            r == self.takes(*shard),
    ;

    /// The number of preprocessed columns.
    fn preprocessed_width(&self) -> (r: usize)
        ensures
            r == self.fixed_width(),
    ;

    /// The number of rows of the preprocessed trace, where it is known.
    fn preprocessed_num_rows(&self, _program: &Self::Program, _instrs_len: usize) -> (r: Option<
        usize,
    >)
        default_ensures
            r is None,
    {
        None
    }

    /// The preprocessed trace of a program.
    fn generate_preprocessed_trace(&self, program: &Self::Program) -> (r: Option<Trace>)
        ensures
            table_of_opt(r) == self.fixed_table(*program),
    ;

    /// Where the chip's lookups are answered.
    fn commit_scope(&self) -> (r: LookupScope)
        ensures
            r == self.scope(),
    ;

    /// The annotations of the columns.
    fn picus_info(&self) -> (r: PicusInfo)
        default_ensures
            r.input_ranges@.len() == 0,
            r.output_ranges@.len() == 0,
            r.transition_input_ranges@.len() == 0,
            r.transition_output_ranges@.len() == 0,
            r.selector_indices@.len() == 0,
            r.is_real_index is None,
    {
        PicusInfo::default()
    }

    /// Whether exactly one selector column is set on every real row.
    fn selectors_partition_real_rows(&self) -> (r: bool)
        default_ensures
            !r,
    {
        false
    }

    /// Whether a module specialized to a selector makes sense.
    fn picus_selector_specialization_allowed(&self, _selector_name: &str) -> (r: bool)
        default_ensures
            r,
    {
        true
    }
}

/// The dependencies of a chip that has no shorter way to them: what generating its trace
/// leaves in the output record, without the trace.
pub fn dependencies_from_trace<A: MachineAir>(
    air: &A,
    input: &A::Record,
    output: &mut A::Record,
) -> (r: Result<(), A::Error>)
    ensures
        *final(output) == air.traced(*input, *old(output)).0,
        match (r, air.traced(*input, *old(output)).1) {
            (Ok(_), Ok(_)) => true,
            (Err(e), Err(f)) => e == f,
            _ => false,
        },
{
    match air.generate_trace(input, output) {
        Ok(_) => Ok(()),
        Err(e) => Err(e),
    }
}

} // verus!
