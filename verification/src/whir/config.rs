//! The schedule of a WHIR instance.
use vstd::prelude::*;

verus! {

/// The parameters of one folding round.
#[derive(Debug)]
pub struct RoundConfig {
    /// The number of variables folded.
    pub folding_factor: usize,
    /// The logarithm of the evaluation domain, where a caller tracks one.
    pub evaluation_domain_log_size: usize,
    /// The proof of work before the queries, in bits.
    pub queries_pow_bits: usize,
    /// The proof of work of each folded variable, in bits.
    pub pow_bits: Vec<usize>,
    /// The number of queries into the previous codeword.
    pub num_queries: usize,
    /// The number of out-of-domain samples on the folded polynomial.
    pub ood_samples: usize,
    /// The logarithm of the inverse rate of this round's codeword.
    pub log_inv_rate: usize,
}

/// The parameters of a whole instance.
#[derive(Debug)]
pub struct WhirConfig {
    /// The number of out-of-domain samples on the starting polynomial.
    pub starting_ood_samples: usize,
    /// The logarithm of the inverse rate of the starting codeword.
    pub starting_log_inv_rate: usize,
    /// The folding rounds.
    pub round_parameters: Vec<RoundConfig>,
    /// The number of variables of the revealed polynomial.
    pub final_poly_log_degree: usize,
    /// The number of queries into the last codeword.
    pub final_queries: usize,
    /// The proof of work before the final queries, in bits.
    pub final_pow_bits: usize,
}

/// The proof-of-work bits of variable `i`, zero where the schedule names none.
pub open spec fn pow_bits_at(bits: Seq<usize>, i: int) -> nat {
    if 0 <= i < bits.len() {
        bits[i] as nat
    } else {
        0
    }
}

/// The number of variables that the first `k` rounds fold.
pub open spec fn folded_vars(rounds: Seq<RoundConfig>, k: int) -> nat
    decreases k,
{
    if k <= 0 {
        0
    } else {
        folded_vars(rounds, k - 1) + rounds[k - 1].folding_factor as nat
    }
}

/// Whether every proof of work asked for is below the field's size.
pub open spec fn pow_feasible(bits: Seq<usize>) -> bool {
    forall|i: int| 0 <= i < bits.len() ==> (#[trigger] bits[i]) <= 30
}

impl RoundConfig {
    /// Whether a round asks for feasible proofs of work only.
    pub open spec fn feasible(self) -> bool {
        pow_feasible(self.pow_bits@) && self.queries_pow_bits <= 30
    }
}

/// The proof-of-work bits of variable `i`.
pub fn pow_bits_get(bits: &Vec<usize>, i: usize) -> (r: usize)
    ensures
        r == pow_bits_at(bits@, i as int),
{
    if i < bits.len() {
        bits[i]
    } else {
        0
    }
}

/// More rounds fold more variables.
pub proof fn folded_vars_monotone(rounds: Seq<RoundConfig>, a: int, b: int)
    requires
        0 <= a <= b,
    ensures
        folded_vars(rounds, a) <= folded_vars(rounds, b),
    decreases b - a,
{
    if a < b {
        folded_vars_monotone(rounds, a, b - 1);
    }
}

} // verus!
