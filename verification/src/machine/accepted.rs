//! What an accepted machine proof, and records without a failure, have passed.
use vstd::prelude::*;
use crate::air::machine::MachineAir;
use crate::ext::{e_zero, fvals, Ext};
use crate::felt::Felt;
use crate::machine::chips::{listed, title_keys, StarkMachine};
use crate::machine::debug::{debug_outcome, local_total, may_say, ChipRun};
use crate::machine::keys::{key_felts, StarkGenericConfig, StarkProvingKey};
use crate::machine::verify::{are_shard_arguments, may_answer, may_answer_all, may_conclude,
    MachineVerificationError};
use crate::merkle::Digest;
use crate::mle::esum;
use crate::selection::{is_selection, selection, selection_exists, stands_before};
use crate::septic::curve::{Point, SepticCurve};
use crate::shard::error::BasefoldVerifyError;
use crate::shard::lookup::Trace;
use crate::shard::names::{has_entry, name_le};
use crate::shard::verify::BasefoldShardProof;
use crate::transcript::{Sponge, Transcript};

verus! {

/// What is absorbed of a key: the eight elements of the commitment, the program counter, the
/// seven coefficients of the initial sum's first coordinate, those of its second one, and a
/// zero.
pub proof fn key_is_absorbed_whole(commit: Digest, pc_start: Felt, sum: SepticCurve<Felt>, i: int)
    requires
        0 <= i < 24,
    ensures
        key_felts(commit, pc_start, sum).len() == 24,
        key_felts(commit, pc_start, sum)[i] == (if i < 8 {
            commit@[i]@
        } else if i == 8 {
            pc_start@
        } else if i < 16 {
            sum.x.0@[i - 9]@
        } else if i < 23 {
            sum.y.0@[i - 16]@
        } else {
            0
        }),
{
}

/// What an accepted machine proof has passed: there is a shard; every shard was accepted, on
/// the transcript of the key with the shard's first public values absorbed, as many as the
/// machine has, and on the machine's chips that the shard has a height for, in the order of
/// their names; and the sums between the shards balance with that of the key.
pub proof fn accepted_machine_has_passed<
    SC,
    A: MachineAir,
    R,
    E,
    B,
    F: Fn(
        &BasefoldShardProof<R, E, B>,
        &Vec<&A>,
        &Vec<(String, usize)>,
        Transcript,
    ) -> Result<(), BasefoldVerifyError>,
    G: Fn(&Vec<BasefoldShardProof<R, E, B>>, SepticCurve<Felt>) -> bool,
>(
    machine: StarkMachine<SC, A>,
    base: Sponge,
    check: F,
    balance: G,
    proofs: &Vec<BasefoldShardProof<R, E, B>>,
    sum: SepticCurve<Felt>,
    i: int,
) -> (r: (Vec<&A>, Vec<(String, usize)>, Transcript))
    requires
        may_conclude(machine, base, check, balance, proofs, sum, Ok(())),
        0 <= i < proofs@.len(),
        machine.chips@.len() <= usize::MAX,
        machine.num_pv_elts <= proofs@[i].public_values@.len(),
    ensures
        ({
            let (chips, dims, t) = r;
            let p = proofs@[i];
            &&& check.ensures((&p, &chips, &dims, t), Ok(()))
            &&& t@ == base.observe_all(
                Seq::new(machine.num_pv_elts as nat, |j: int| p.public_values@[j]@),
            )
            &&& forall|c: int|
                0 <= c < chips@.len() ==> has_entry(
                    p.chip_heights@,
                    (*#[trigger] chips@[c]).title(),
                )
            &&& forall|a: int, b: int|
                0 <= a < b < chips@.len() ==> name_le(
                    (*#[trigger] chips@[a]).title(),
                    (*#[trigger] chips@[b]).title(),
                )
            &&& forall|m: int|
                0 <= m < machine.chips@.len() && has_entry(
                    p.chip_heights@,
                    (#[trigger] machine.chips@[m]).title(),
                ) ==> exists|c: int|
                    0 <= c < chips@.len() && *(#[trigger] chips@[c]) == machine.chips@[m]
            &&& balance.ensures((proofs, sum), true)
        }),
{
    let (answers, balanced) = choose|
        answers: Seq<Result<(), BasefoldVerifyError>>,
        balanced: bool,
    |
        {
            &&& #[trigger] may_answer_all(machine, base, check, proofs@, answers)
            &&& #[trigger] crate::machine::verify::is_verdict(
                answers,
                balanced,
                Ok::<(), MachineVerificationError>(()),
            )
            &&& proofs@.len() > 0 && crate::machine::verify::none_refused(answers)
                ==> balance.ensures((proofs, sum), balanced)
        };
    let p = proofs@[i];
    assert(answers[i] is Ok);
    assert(answers[i]->Ok_0 == ());
    assert(may_answer(machine, base, check, p, answers[i]));
    let (chips, dims, t) = choose|chips: Vec<&A>, dims: Vec<(String, usize)>, t: Transcript|
        {
            &&& are_shard_arguments(machine, base, p, chips@, dims@, t)
            &&& #[trigger] check.ensures((&p, &chips, &dims, t), answers[i])
        };
    let keys = title_keys(machine.chips@);
    let keep = listed(machine.chips@, p.chip_heights@);
    let order = selection(keys, keep);
    selection_exists(keys, keep);
    assert(is_selection(order, keys, keep));
    assert forall|c: int| 0 <= c < chips@.len() implies has_entry(
        p.chip_heights@,
        (*#[trigger] chips@[c]).title(),
    ) by {
        assert(keep[order[c]]);
    }
    assert forall|a: int, b: int| 0 <= a < b < chips@.len() implies name_le(
        (*#[trigger] chips@[a]).title(),
        (*#[trigger] chips@[b]).title(),
    ) by {
        assert(stands_before(keys, order[a], order[b]));
        assert(0 <= order[a] < keys.len() && 0 <= order[b] < keys.len());
    }
    assert forall|m: int|
        0 <= m < machine.chips@.len() && has_entry(
            p.chip_heights@,
            (#[trigger] machine.chips@[m]).title(),
        ) implies exists|c: int|
        0 <= c < chips@.len() && *(#[trigger] chips@[c]) == machine.chips@[m] by {
        assert(keep[m]);
        let c = choose|c: int| 0 <= c < order.len() && order[c] == m;
        assert(*chips@[c] == machine.chips@[m]);
    }
    assert(fvals(p.public_values@).take(machine.num_pv_elts as int) =~= Seq::new(
        machine.num_pv_elts as nat,
        |j: int| p.public_values@[j]@,
    ));
    (chips, dims, t)
}

proof fn local_total_is_sum<T>(runs: Seq<ChipRun<T>>, k: nat)
    ensures
        local_total(runs, k as int) == esum(k, |i: int| runs[i].local_sum@),
    decreases k,
{
    if k > 0 {
        local_total_is_sum(runs, (k - 1) as nat);
    }
}

/// What records without a failure have passed: in every shard the sums of the chips' lookups
/// within it add up to zero, and the constraints of every chip that the shard has hold; and
/// the sums between the shards, one for each of these chips, balance with that of the key.
pub proof fn sound_records_have_passed<
    SC: StarkGenericConfig,
    A: MachineAir,
    T,
    P: Fn(&A, Option<&Trace>, &Trace, &Vec<Ext>) -> (T, Ext),
    C: Fn(&A, Option<&Trace>, &ChipRun<T>, &Vec<Ext>, &Vec<Felt>) -> bool,
    G: Fn(&Vec<Vec<SepticCurve<Felt>>>, SepticCurve<Felt>) -> bool,
>(
    machine: StarkMachine<SC, A>,
    pk: StarkProvingKey<SC>,
    records: Seq<A::Record>,
    challenges: &Vec<Ext>,
    zero: Point,
    permute: P,
    check: C,
    balance: G,
    sums: Vec<Vec<SepticCurve<Felt>>>,
    i: int,
) -> (runs: Seq<ChipRun<T>>)
    requires
        debug_outcome(
            machine,
            pk,
            records,
            challenges,
            zero,
            permute,
            check,
            balance,
            sums,
            Ok(()),
        ),
        0 <= i < records.len(),
    ensures
        sums@.len() == records.len(),
        esum(runs.len(), |k: int| runs[k].local_sum@) == e_zero(),
        sums@[i]@.len() == runs.len(),
        forall|k: int| 0 <= k < runs.len() ==> #[trigger] sums@[i]@[k] == runs[k].global_sum,
        crate::machine::debug::are_runs(
            machine,
            pk,
            records[i],
            challenges,
            zero,
            permute,
            runs,
        ),
        forall|k: int|
            0 <= k < runs.len() ==> may_say(
                pk,
                machine.chips@[crate::machine::chips::included_before(
                    machine.chips@,
                    records[i],
                    machine.chips@.len() as int,
                )[k]],
                records[i],
                challenges,
                check,
                #[trigger] runs[k],
                true,
            ),
        balance.ensures((&sums, pk.initial_global_cumulative_sum), true),
{
    let one = sums@[i];
    let runs = choose|runs: Seq<ChipRun<T>>|
        {
            &&& #[trigger] crate::machine::debug::are_runs(
                machine,
                pk,
                records[i],
                challenges,
                zero,
                permute,
                runs,
            )
            &&& crate::machine::debug::may_fail(
                machine,
                pk,
                records[i],
                challenges,
                check,
                runs,
                i as usize,
                None,
            )
            &&& crate::machine::debug::are_sums(runs, one@)
        };
    local_total_is_sum(runs, runs.len());
    runs
}

} // verus!
