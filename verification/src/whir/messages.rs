//! What a WHIR prover sends, and what a verifier answers.
use vstd::prelude::*;
use crate::ext::{evals, Ext, E4};
use crate::felt::Felt;
use crate::merkle::{path_val, rows_val, Digest};

verus! {

/// The coefficients of one sumcheck message, lowest first.
#[derive(Debug)]
pub struct SumcheckPoly(pub Vec<Ext>);

/// A proof-of-work witness.
#[derive(Clone, Copy, Debug)]
pub struct ProofOfWork(pub Felt);

/// The rows opened at one index of a tree, with their authentication path.
#[derive(Debug)]
pub struct LeafOpening {
    /// One row for each committed matrix.
    pub values: Vec<Vec<Felt>>,
    /// The authentication path.
    pub path: Vec<Digest>,
}

/// The openings of one query phase.
#[derive(Debug)]
pub struct MerkleOpening {
    /// The opened leaves, in query order.
    pub leaves: Vec<LeafOpening>,
}

/// A commitment with its out-of-domain samples.
#[derive(Debug)]
pub struct ParsedCommitment {
    /// The roots.
    pub commitment: Vec<Digest>,
    /// The points sampled.
    pub ood_points: Vec<Vec<Ext>>,
    /// The values at the points.
    pub ood_answers: Vec<Ext>,
}

/// A WHIR proof.
#[derive(Debug)]
pub struct WhirProof {
    /// The messages of every round but the last.
    pub round_sumcheck_polys: Vec<Vec<SumcheckPoly>>,
    /// The out-of-domain answers of every round but the last.
    pub round_ood_answers: Vec<Vec<Ext>>,
    /// The codeword roots of every round but the last.
    pub round_commitments: Vec<Digest>,
    /// The query openings of every round, the final queries last.
    pub round_query_openings: Vec<MerkleOpening>,
    /// The revealed polynomial.
    pub final_poly: Vec<Ext>,
    /// The messages of the last round.
    pub final_sumcheck_polys: Vec<SumcheckPoly>,
    /// The proofs of work, in the order in which they are checked.
    pub folding_pow: Vec<ProofOfWork>,
    /// The proof of work before the final queries.
    pub final_pow: ProofOfWork,
}

/// Rows and path of an opened leaf.
pub struct LeafVal {
    pub rows: Seq<Seq<int>>,
    pub path: Seq<Seq<int>>,
}

/// The mathematical content of a proof.
pub struct ProofVal {
    pub polys: Seq<Seq<Seq<E4>>>,
    pub ood_answers: Seq<Seq<E4>>,
    pub roots: Seq<Seq<int>>,
    pub openings: Seq<Seq<LeafVal>>,
    pub final_poly: Seq<E4>,
    pub final_polys: Seq<Seq<E4>>,
    pub pows: Seq<int>,
    pub final_pow: int,
}

/// The coefficients of several messages.
pub open spec fn polys_val(s: Seq<SumcheckPoly>) -> Seq<Seq<E4>> {
    Seq::new(s.len(), |i: int| evals(s[i].0@))
}

/// The coefficients of the messages of several rounds.
pub open spec fn rounds_val(s: Seq<Vec<SumcheckPoly>>) -> Seq<Seq<Seq<E4>>> {
    Seq::new(s.len(), |i: int| polys_val(s[i]@))
}

/// The answers of several rounds.
pub open spec fn answers_val(s: Seq<Vec<Ext>>) -> Seq<Seq<E4>> {
    Seq::new(s.len(), |i: int| evals(s[i]@))
}

/// The content of an opened leaf.
pub open spec fn leaf_val(l: LeafOpening) -> LeafVal {
    LeafVal { rows: rows_val(l.values@), path: path_val(l.path@) }
}

/// The content of the leaves of one query phase.
pub open spec fn leaves_val(s: Seq<LeafOpening>) -> Seq<LeafVal> {
    Seq::new(s.len(), |i: int| leaf_val(s[i]))
}

/// The content of several query phases.
pub open spec fn openings_val(s: Seq<MerkleOpening>) -> Seq<Seq<LeafVal>> {
    Seq::new(s.len(), |i: int| leaves_val(s[i].leaves@))
}

/// The witnesses of several proofs of work.
pub open spec fn pows_val(s: Seq<ProofOfWork>) -> Seq<int> {
    Seq::new(s.len(), |i: int| s[i].0@)
}

impl View for WhirProof {
    type V = ProofVal;

    open spec fn view(&self) -> ProofVal {
        ProofVal {
            polys: rounds_val(self.round_sumcheck_polys@),
            ood_answers: answers_val(self.round_ood_answers@),
            roots: path_val(self.round_commitments@),
            openings: openings_val(self.round_query_openings@),
            final_poly: evals(self.final_poly@),
            final_polys: polys_val(self.final_sumcheck_polys@),
            pows: pows_val(self.folding_pow@),
            final_pow: self.final_pow.0@,
        }
    }
}

/// Why a proof was refused.
#[derive(Debug)]
pub enum WhirVerifierError {
    /// The two ends of a message do not add up to the claim.
    SumcheckMismatch {
        /// The round.
        round: usize,
        /// The variable within the round.
        var: usize,
    },
    /// A proof of work does not pass.
    PowMismatch {
        /// The round.
        round: usize,
        /// The variable within the round.
        var: usize,
    },
    /// An out-of-domain point is not the one the transcript gives.
    OodPointMismatch {
        /// The round.
        round: usize,
        /// The sample within the round.
        sample: usize,
    },
    /// The terminal identity does not hold.
    TerminalMismatch,
    /// The proof does not have the right shape.
    IncorrectShape(String),
}

/// The mathematical content of a refusal.
pub enum WhirRefusal {
    SumcheckMismatch(int, int),
    PowMismatch(int, int),
    OodPointMismatch(int, int),
    TerminalMismatch,
    IncorrectShape(Seq<char>),
}

impl View for WhirVerifierError {
    type V = WhirRefusal;

    open spec fn view(&self) -> WhirRefusal {
        match self {
            WhirVerifierError::SumcheckMismatch { round, var } => WhirRefusal::SumcheckMismatch(
                *round as int,
                *var as int,
            ),
            WhirVerifierError::PowMismatch { round, var } => WhirRefusal::PowMismatch(
                *round as int,
                *var as int,
            ),
            WhirVerifierError::OodPointMismatch { round, sample } => WhirRefusal::OodPointMismatch(
                *round as int,
                *sample as int,
            ),
            WhirVerifierError::TerminalMismatch => WhirRefusal::TerminalMismatch,
            WhirVerifierError::IncorrectShape(s) => WhirRefusal::IncorrectShape(s@),
        }
    }
}

/// A refusal for a wrong shape.
pub fn shape_error(what: &str) -> (r: WhirVerifierError)
    ensures
        r@ == WhirRefusal::IncorrectShape(what@),
{
    WhirVerifierError::IncorrectShape(what.to_owned())
}

} // verus!
