//! The parts of a shard proof.
use vstd::prelude::*;
use crate::ext::{evals, Ext, E4};
use crate::felt::Felt;
use crate::shard::lookup::ChipLookups;
use crate::shard::places::is_name_map;
use crate::shard::sumcheck::PartialSumcheckProof;

verus! {

/// A chip of the machine, as far as verification reads it.
#[derive(Debug)]
pub struct ShardChip {
    /// The name.
    pub name: String,
    /// The number of main columns.
    pub width: usize,
    /// The number of preprocessed columns.
    pub preprocessed_width: usize,
    /// The lookups.
    pub lookups: ChipLookups,
}

/// One round of the lookup argument.
#[derive(Debug)]
pub struct LogupGkrRoundProof {
    /// The numerator of the first half.
    pub numerator_0: Ext,
    /// The numerator of the second half.
    pub numerator_1: Ext,
    /// The denominator of the first half.
    pub denominator_0: Ext,
    /// The denominator of the second half.
    pub denominator_1: Ext,
    /// The round's sumcheck.
    pub sumcheck_proof: PartialSumcheckProof,
}

/// The output of the lookup circuit.
#[derive(Debug)]
pub struct LogUpGkrOutput {
    /// The numerators.
    pub numerator: Vec<Ext>,
    /// The denominators.
    pub denominator: Vec<Ext>,
}

/// A chip's trace at the evaluation point of the lookup argument.
#[derive(Debug)]
pub struct ChipEvaluation {
    /// The logarithm of the trace's height.
    pub log_degree: u8,
    /// The main columns at the full point.
    pub main_trace_evaluations_full: Option<Vec<Ext>>,
    /// The preprocessed columns at the full point.
    pub preprocessed_trace_evaluations_full: Option<Vec<Ext>>,
}

/// The openings of every chip, in the order of their names.
#[derive(Debug)]
pub struct LogUpEvaluations {
    /// The evaluation point.
    pub point: Vec<Ext>,
    /// The openings by chip name: each name once, in the order of the names.
    pub chip_openings: Vec<(String, ChipEvaluation)>,
}

impl LogUpEvaluations {
    /// Whether the openings stand for a map by name.
    pub open spec fn wf(self) -> bool {
        is_name_map(self.chip_openings@)
    }
}

/// A proof of the lookup argument.
#[derive(Debug)]
pub struct LogupGkrProof {
    /// The circuit's output.
    pub circuit_output: LogUpGkrOutput,
    /// The rounds.
    pub round_proofs: Vec<LogupGkrRoundProof>,
    /// The openings.
    pub logup_evaluations: LogUpEvaluations,
    /// The proof of work.
    pub witness: Felt,
}

/// How a round's point pairs with the evaluation point.
#[derive(Clone, Copy, Debug, PartialEq, Eq, Structural)]
pub enum FoldOrientation {
    /// In the same order.
    Msb,
    /// In opposite orders.
    Lsb,
}

/// A chip's trace at the zerocheck's reduced point.
#[derive(Debug)]
pub struct ChipOpenedValues {
    /// The preprocessed columns.
    pub preprocessed: Vec<Ext>,
    /// The main columns.
    pub main: Vec<Ext>,
    /// The chunks of the quotient slot; the first one carries the bits of the height.
    pub quotient: Vec<Vec<Ext>>,
    /// The logarithm of the height, rounded up.
    pub log_degree: usize,
}

/// The values of an optional list, none where it is absent.
pub open spec fn opt_evals(v: Option<Vec<Ext>>) -> Seq<E4> {
    match v {
        Some(x) => evals(x@),
        None => Seq::empty(),
    }
}

/// The length of an optional list.
pub open spec fn opt_len(v: Option<Vec<Ext>>) -> nat {
    match v {
        Some(x) => x@.len(),
        None => 0,
    }
}

impl ChipOpenedValues {
    /// The bits of the height, most significant first; none where there is no chunk.
    pub open spec fn degree(self) -> Seq<E4> {
        if self.quotient@.len() > 0 {
            evals(self.quotient@[0]@)
        } else {
            Seq::empty()
        }
    }
}


} // verus!
