//! The verification of a machine proof: its shards one by one, and the balance of the
//! lookups between them.
use vstd::prelude::*;
use crate::air::machine::{LookupScope, MachineAir};
use crate::ext::fvals;
use crate::felt::Felt;
use crate::machine::chips::{listed, picks, preprocessed, title_keys, StarkMachine};
use crate::machine::keys::{key_felts, StarkVerifyingKey};
use crate::selection::selection;
use crate::septic::curve::SepticCurve;
use crate::shard::error::{refusal_text, BasefoldVerifyError};
use crate::shard::verify::BasefoldShardProof;
use crate::text::{decimal, decimal_string, join};
use crate::transcript::{Sponge, Transcript};

verus! {

/// Why a machine proof is refused.
#[derive(Debug)]
pub enum MachineVerificationError {
    /// A shard proof is invalid.
    InvalidShardProof(BasefoldVerifyError),
    /// A global proof is invalid.
    InvalidGlobalProof(BasefoldVerifyError),
    /// The lookups of a scope do not balance in a shard.
    NonZeroCumulativeSum(LookupScope, usize),
    /// The digest of the public values is invalid.
    InvalidPublicValuesDigest,
    /// The lookups do not balance in debug mode.
    DebugLookupsFailed,
    /// There is no shard proof.
    EmptyProof,
    /// The public values are invalid.
    InvalidPublicValues(&'static str),
    /// There are too many shards.
    TooManyShards,
    /// A chip occurs where it must not.
    InvalidChipOccurrence(String),
    /// The first shard has no CPU.
    MissingCpuInFirstShard,
    /// The CPU has too many rows.
    CpuLogDegreeTooLarge(usize),
    /// The verifying key is not allowed.
    InvalidVerificationKey,
}

/// The name of a scope.
pub open spec fn scope_text(scope: LookupScope) -> Seq<char> {
    match scope {
        LookupScope::Global => "Global"@,
        LookupScope::Local => "Local"@,
    }
}

/// The text of a refusal.
pub open spec fn machine_refusal_text(e: MachineVerificationError) -> Seq<char> {
    match e {
        MachineVerificationError::InvalidShardProof(e) => {
            "Invalid shard proof: "@ + refusal_text(e@)
        },
        MachineVerificationError::InvalidGlobalProof(e) => {
            "Invalid global proof: "@ + refusal_text(e@)
        },
        MachineVerificationError::NonZeroCumulativeSum(scope, shard) => {
            (("Non-zero cumulative sum.  Scope: "@ + scope_text(scope)) + ", Shard: "@) + decimal(
                shard as nat,
            )
        },
        MachineVerificationError::InvalidPublicValuesDigest => "Invalid public values digest"@,
        MachineVerificationError::DebugLookupsFailed => "Debug lookups failed"@,
        MachineVerificationError::EmptyProof => "Empty proof"@,
        MachineVerificationError::InvalidPublicValues(s) => "Invalid public values: "@ + s@,
        MachineVerificationError::TooManyShards => "Too many shards"@,
        MachineVerificationError::InvalidChipOccurrence(s) => "Invalid chip occurrence: "@ + s@,
        MachineVerificationError::MissingCpuInFirstShard => "Missing CPU in first shard"@,
        MachineVerificationError::CpuLogDegreeTooLarge(d) => {
            "CPU log degree too large: "@ + decimal(d as nat)
        },
        MachineVerificationError::InvalidVerificationKey => "Invalid verification key"@,
    }
}

impl MachineVerificationError {
    /// The refusal in words.
    pub fn message(&self) -> (r: String)
        ensures
            r@ == machine_refusal_text(*self),
    {
        match self {
            MachineVerificationError::InvalidShardProof(e) => {
                join("Invalid shard proof: ".to_owned(), e.message().as_str())
            },
            MachineVerificationError::InvalidGlobalProof(e) => {
                join("Invalid global proof: ".to_owned(), e.message().as_str())
            },
            MachineVerificationError::NonZeroCumulativeSum(scope, shard) => {
                let name = match scope {
                    LookupScope::Global => "Global",
                    LookupScope::Local => "Local",
                };
                let head = join("Non-zero cumulative sum.  Scope: ".to_owned(), name);
                join(join(head, ", Shard: "), decimal_string(*shard).as_str())
            },
            MachineVerificationError::InvalidPublicValuesDigest => {
                "Invalid public values digest".to_owned()
            },
            MachineVerificationError::DebugLookupsFailed => "Debug lookups failed".to_owned(),
            MachineVerificationError::EmptyProof => "Empty proof".to_owned(),
            MachineVerificationError::InvalidPublicValues(s) => {
                join("Invalid public values: ".to_owned(), s)
            },
            MachineVerificationError::TooManyShards => "Too many shards".to_owned(),
            MachineVerificationError::InvalidChipOccurrence(s) => {
                join("Invalid chip occurrence: ".to_owned(), s.as_str())
            },
            MachineVerificationError::MissingCpuInFirstShard => {
                "Missing CPU in first shard".to_owned()
            },
            MachineVerificationError::CpuLogDegreeTooLarge(d) => {
                join("CPU log degree too large: ".to_owned(), decimal_string(*d).as_str())
            },
            MachineVerificationError::InvalidVerificationKey => {
                "Invalid verification key".to_owned()
            },
        }
    }
}

/// The answers of the shards.
pub type ShardAnswers = Vec<Result<(), BasefoldVerifyError>>;

/// Whether shard `i` is the first one that was refused.
pub open spec fn first_refused(answers: Seq<Result<(), BasefoldVerifyError>>, i: int) -> bool {
    &&& 0 <= i < answers.len()
    &&& answers[i] is Err
    &&& forall|j: int| 0 <= j < i ==> (#[trigger] answers[j]) is Ok
}

/// Whether no shard was refused.
pub open spec fn none_refused(answers: Seq<Result<(), BasefoldVerifyError>>) -> bool {
    forall|j: int| 0 <= j < answers.len() ==> (#[trigger] answers[j]) is Ok
}

/// The verdict on a machine proof, given the answers of its shards and whether the lookups
/// between them balance: the first refusal counts, then the balance.
pub open spec fn is_verdict(
    answers: Seq<Result<(), BasefoldVerifyError>>,
    balanced: bool,
    r: Result<(), MachineVerificationError>,
) -> bool {
    match r {
        Ok(_) => answers.len() > 0 && none_refused(answers) && balanced,
        Err(MachineVerificationError::EmptyProof) => answers.len() == 0,
        Err(MachineVerificationError::InvalidShardProof(e)) => exists|i: int| #[trigger]
            first_refused(answers, i) && answers[i] == Err::<(), _>(e),
        Err(MachineVerificationError::NonZeroCumulativeSum(scope, shard)) => {
            &&& answers.len() > 0
            &&& none_refused(answers)
            &&& !balanced
            &&& scope == LookupScope::Global
            &&& shard == 0
        },
        _ => false,
    }
}

/// The verdict on a machine proof, given the answers of its shards and whether the lookups
/// between them balance.
pub fn machine_verdict(answers: ShardAnswers, balanced: bool) -> (r: Result<
    (),
    MachineVerificationError,
>)
    ensures
        is_verdict(answers@, balanced, r),
{
    let ghost given = answers@;
    let mut left = answers;
    if left.len() == 0 {
        return Err(MachineVerificationError::EmptyProof);
    }
    let mut i: usize = 0;
    while i < left.len()
        invariant
            i <= left@.len(),
            left@ == given,
            given == answers@,
            given.len() > 0,
            forall|j: int| 0 <= j < i ==> (#[trigger] given[j]) is Ok,
        decreases left@.len() - i,
    {
        if left[i].is_err() {
            match left.swap_remove(i) {
                Err(e) => {
                    proof {
                        assert(first_refused(given, i as int));
                        assert(given[i as int] == Err::<(), BasefoldVerifyError>(e));
                    }
                    return Err(MachineVerificationError::InvalidShardProof(e));
                },
                Ok(_) => {
                    return Ok(());
                },
            }
        }
        i = i + 1;
    }
    if balanced {
        Ok(())
    } else {
        Err(MachineVerificationError::NonZeroCumulativeSum(LookupScope::Global, 0))
    }
}

/// Whether a list holds the names and numbers of columns of the preprocessed chips.
pub open spec fn are_prep_dims<A: MachineAir>(chips: Seq<A>, dims: Seq<(String, usize)>) -> bool {
    let order = selection(title_keys(chips), preprocessed(chips));
    &&& dims.len() == order.len()
    &&& forall|i: int|
        0 <= i < dims.len() ==> {
            &&& (#[trigger] dims[i]).0@ == chips[order[i]].title()
            &&& dims[i].1 == chips[order[i]].fixed_width()
        }
}

/// Whether the arguments of a shard check are those of a shard: its chips in the order of
/// their names, the preprocessed chips, and a transcript that has absorbed the key and the
/// shard's public values.
pub open spec fn are_shard_arguments<SC, A: MachineAir, R, E, B>(
    machine: StarkMachine<SC, A>,
    base: Sponge,
    proof: BasefoldShardProof<R, E, B>,
    chips: Seq<&A>,
    dims: Seq<(String, usize)>,
    challenger: Transcript,
) -> bool {
    &&& picks(
        chips,
        machine.chips@,
        selection(title_keys(machine.chips@), listed(machine.chips@, proof.chip_heights@)),
    )
    &&& are_prep_dims(machine.chips@, dims)
    &&& challenger.wf()
    &&& challenger@ == base.observe_all(fvals(proof.public_values@).take(machine.num_pv_elts as int))
}

/// Whether a check may give an answer for a shard.
pub open spec fn may_answer<
    SC,
    A: MachineAir,
    R,
    E,
    B,
    F: Fn(
        &BasefoldShardProof<R, E, B>,
        &Vec<&A>,
        &Vec<(String, usize)>,
        Transcript,
    ) -> Result<(), BasefoldVerifyError>,
>(
    machine: StarkMachine<SC, A>,
    base: Sponge,
    check: F,
    proof: BasefoldShardProof<R, E, B>,
    answer: Result<(), BasefoldVerifyError>,
) -> bool {
    exists|chips: Vec<&A>, dims: Vec<(String, usize)>, challenger: Transcript|
        {
            &&& are_shard_arguments(machine, base, proof, chips@, dims@, challenger)
            &&& #[trigger] check.ensures((&proof, &chips, &dims, challenger), answer)
        }
}

/// Whether the answers of a check to every shard, in turn, may be the given ones.
pub open spec fn may_answer_all<
    SC,
    A: MachineAir,
    R,
    E,
    B,
    F: Fn(
        &BasefoldShardProof<R, E, B>,
        &Vec<&A>,
        &Vec<(String, usize)>,
        Transcript,
    ) -> Result<(), BasefoldVerifyError>,
>(
    machine: StarkMachine<SC, A>,
    base: Sponge,
    check: F,
    proofs: Seq<BasefoldShardProof<R, E, B>>,
    answers: Seq<Result<(), BasefoldVerifyError>>,
) -> bool {
    &&& answers.len() == proofs.len()
    &&& forall|i: int|
        0 <= i < proofs.len() ==> may_answer(machine, base, check, proofs[i], #[trigger] answers[i])
}

/// Whether a machine proof may be answered so: by the verdict on answers that the shard
/// check gives, and, where no shard is refused, on the answer of the balance check.
pub open spec fn may_conclude<
    SC,
    A: MachineAir,
    R,
    E,
    B,
    F: Fn(
        &BasefoldShardProof<R, E, B>,
        &Vec<&A>,
        &Vec<(String, usize)>,
        Transcript,
    ) -> Result<(), BasefoldVerifyError>,
    G: Fn(&Vec<BasefoldShardProof<R, E, B>>, SepticCurve<Felt>) -> bool,
>(
    machine: StarkMachine<SC, A>,
    base: Sponge,
    check: F,
    balance: G,
    proofs: &Vec<BasefoldShardProof<R, E, B>>,
    sum: SepticCurve<Felt>,
    r: Result<(), MachineVerificationError>,
) -> bool {
    exists|answers: Seq<Result<(), BasefoldVerifyError>>, balanced: bool|
        {
            &&& #[trigger] may_answer_all(machine, base, check, proofs@, answers)
            &&& #[trigger] is_verdict(answers, balanced, r)
            &&& proofs@.len() > 0 && none_refused(answers) ==> balance.ensures(
                (proofs, sum),
                balanced,
            )
        }
}

fn any_refused(answers: &ShardAnswers) -> (r: bool)
    ensures
        r == !none_refused(answers@),
{
    let mut i: usize = 0;
    while i < answers.len()
        invariant
            i <= answers@.len(),
            forall|j: int| 0 <= j < i ==> (#[trigger] answers@[j]) is Ok,
        decreases answers@.len() - i,
    {
        if answers[i].is_err() {
            proof {
                assert(answers@[i as int] is Err);
            }
            return true;
        }
        i = i + 1;
    }
    false
}

impl<SC, A: MachineAir> StarkMachine<SC, A> {
    /// The transcript of a shard: that of the key, with the shard's public values absorbed.
    pub fn shard_transcript(&self, base: &Transcript, public_values: &Vec<Felt>) -> (r: Transcript)
        requires
            base.wf(),
            public_values@.len() >= self.num_pv_elts,
        ensures
            r.wf(),
            r@ == base@.observe_all(fvals(public_values@).take(self.num_pv_elts as int)),
    {
        let mut head: Vec<Felt> = Vec::new();
        let mut i: usize = 0;
        while i < self.num_pv_elts
            invariant
                i <= self.num_pv_elts,
                public_values@.len() >= self.num_pv_elts,
                head@ == public_values@.take(i as int),
            decreases self.num_pv_elts - i,
        {
            head.push(public_values[i]);
            i = i + 1;
            proof {
                assert(head@ =~= public_values@.take(i as int));
            }
        }
        proof {
            assert(fvals(head@) =~= fvals(public_values@).take(self.num_pv_elts as int));
        }
        let mut r = base.duplicate();
        r.observe_slice(&head);
        r
    }

    /// Verifies a machine proof, given the check of a single shard and that of the balance
    /// between the shards and the initial memory. The transcript absorbs the key.
    pub fn verify<R, E, B, F, G>(
        &self,
        vk: &StarkVerifyingKey,
        shard_proofs: &Vec<BasefoldShardProof<R, E, B>>,
        challenger: &mut Transcript,
        check: F,
        balance: G,
    ) -> (r: Result<(), MachineVerificationError>) where
        F: Fn(
            &BasefoldShardProof<R, E, B>,
            &Vec<&A>,
            &Vec<(String, usize)>,
            Transcript,
        ) -> Result<(), BasefoldVerifyError>,
        G: Fn(&Vec<BasefoldShardProof<R, E, B>>, SepticCurve<Felt>) -> bool,

        requires
            old(challenger).wf(),
            forall|i: int|
                0 <= i < shard_proofs@.len() ==> (#[trigger] shard_proofs@[i]).public_values@.len()
                    >= self.num_pv_elts,
            forall|i: int, chips: &Vec<&A>, dims: &Vec<(String, usize)>, t: Transcript|
                0 <= i < shard_proofs@.len() && are_shard_arguments(
                    *self,
                    old(challenger)@.observe_all(
                        key_felts(vk.commit, vk.pc_start, vk.initial_global_cumulative_sum),
                    ),
                    shard_proofs@[i],
                    chips@,
                    dims@,
                    t,
                ) ==> #[trigger] check.requires((&shard_proofs@[i], chips, dims, t)),
            balance.requires((shard_proofs, vk.initial_global_cumulative_sum)),
        ensures
            final(challenger).wf(),
            final(challenger)@ == old(challenger)@.observe_all(
                key_felts(vk.commit, vk.pc_start, vk.initial_global_cumulative_sum),
            ),
            may_conclude(
                *self,
                final(challenger)@,
                check,
                balance,
                shard_proofs,
                vk.initial_global_cumulative_sum,
                r,
            ),
    {
        vk.observe_into(challenger);
        let ghost base = challenger@;
        let dims = self.preprocessed_chip_dims();
        let mut answers: ShardAnswers = Vec::new();
        let mut i: usize = 0;
        while i < shard_proofs.len()
            invariant
                i <= shard_proofs@.len(),
                challenger.wf(),
                challenger@ == base,
                are_prep_dims(self.chips@, dims@),
                forall|i: int|
                    0 <= i < shard_proofs@.len() ==> (
                    #[trigger] shard_proofs@[i]).public_values@.len() >= self.num_pv_elts,
                forall|i: int, chips: &Vec<&A>, dims: &Vec<(String, usize)>, t: Transcript|
                    0 <= i < shard_proofs@.len() && are_shard_arguments(
                        *self,
                        base,
                        shard_proofs@[i],
                        chips@,
                        dims@,
                        t,
                    ) ==> #[trigger] check.requires((&shard_proofs@[i], chips, dims, t)),
                answers@.len() == i,
                forall|j: int|
                    0 <= j < i ==> may_answer(
                        *self,
                        base,
                        check,
                        shard_proofs@[j],
                        #[trigger] answers@[j],
                    ),
            decreases shard_proofs@.len() - i,
        {
            let proof_i = &shard_proofs[i];
            let chips = self.shard_chips_named(&proof_i.chip_heights);
            let transcript = self.shard_transcript(challenger, &proof_i.public_values);
            let ghost t = transcript;
            proof {
                assert(are_shard_arguments(*self, base, shard_proofs@[i as int], chips@, dims@, t));
                assert(check.requires((&shard_proofs@[i as int], &chips, &dims, t)));
            }
            let answer = check(proof_i, &chips, &dims, transcript);
            proof {
                assert(check.ensures((proof_i, &chips, &dims, t), answer));
                assert(may_answer(*self, base, check, *proof_i, answer));
            }
            answers.push(answer);
            i = i + 1;
        }
        let ghost given = answers@;
        proof {
            assert(may_answer_all(*self, base, check, shard_proofs@, given));
        }
        let balanced = if shard_proofs.len() > 0 && !any_refused(&answers) {
            balance(shard_proofs, vk.initial_global_cumulative_sum)
        } else {
            true
        };
        let r = machine_verdict(answers, balanced);
        proof {
            assert(is_verdict(given, balanced, r));
        }
        r
    }
}

/// A machine proof is accepted only where every shard was accepted and the balance holds,
/// and a machine proof without shards is never accepted.
pub proof fn accepted_means_all_accepted(
    answers: Seq<Result<(), BasefoldVerifyError>>,
    balanced: bool,
    r: Result<(), MachineVerificationError>,
)
    requires
        is_verdict(answers, balanced, r),
    ensures
        r is Ok <==> answers.len() > 0 && none_refused(answers) && balanced,
{
    match r {
        Err(MachineVerificationError::InvalidShardProof(e)) => {
            let i = choose|i: int| #[trigger]
                first_refused(answers, i) && answers[i] == Err::<(), _>(e);
            assert(answers[i] is Err);
        },
        _ => {},
    }
}

} // verus!
