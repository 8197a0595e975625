//! The prover of the lookup argument, given how the circuit is built and how a round of it
//! is proved.
use vstd::prelude::*;
use vstd::arithmetic::power2::pow2;
use crate::arith::ceil_log2_of;
use crate::ext::{evals, Ext, E4};
use crate::shard::gkr::{challenge_weights, challenges_sponge, is_pow2, round_val, round_vals, walk,
    walk_end, walk_start, WalkState};
use crate::shard::gkr_prove::{draw_logup_challenges, finish_logup_gkr_rows, opening_of,
    trace_point, walks_agree, within_cube, LayerWalk};
use crate::shard::places::{is_name_map, name_places};
use crate::shard::openings::{gkr_pairs, observe_openings, PaddedMle};
use crate::shard::types::{LogUpGkrOutput, LogupGkrProof, LogupGkrRoundProof, ShardChip};
use crate::shard::verify::{arities_fit, seed_dim};
use crate::transcript::{Sponge, Transcript};
use crate::whir::sumcheck::{is_grind, no_grind};

verus! {

/// A layer of the circuit with the number of its row variables.
pub struct CircuitLayer<L> {
    /// The number of row variables.
    pub num_row_variables: usize,
    /// The layer.
    pub layer: L,
}

/// The layers with a row variable, the one nearest to the output first: the circuit lists
/// them from its input on.
pub open spec fn proved_layers<L>(layers: Seq<CircuitLayer<L>>) -> Seq<CircuitLayer<L>>
    decreases layers.len(),
{
    if layers.len() == 0 {
        Seq::empty()
    } else if layers.last().num_row_variables >= 1 {
        seq![layers.last()] + proved_layers(layers.drop_last())
    } else {
        proved_layers(layers.drop_last())
    }
}

/// Whether a circuit's output is one that the walk begins from, and the circuit has a round
/// for every row variable but the first.
pub open spec fn circuit_fits<L>(
    output: LogUpGkrOutput,
    layers: Seq<CircuitLayer<L>>,
    max_log_row_count: nat,
) -> bool {
    &&& output.numerator@.len() == output.denominator@.len()
    &&& is_pow2(output.numerator@.len())
    &&& output.numerator@.len() > 1
    &&& ceil_log2_of(output.numerator@.len()) + proved_layers(layers).len() >= max_log_row_count
}

/// Whether a round was proved at a state of the walk: the prover of rounds was given the
/// state's point and values, a challenge drawn there, and the transcript after it.
pub open spec fn proved_at<
    L,
    P: Fn(&L, &Vec<Ext>, Ext, Ext, Ext, Transcript) -> (LogupGkrRoundProof, Transcript),
>(prove_round: P, layer: L, st: WalkState, round: LogupGkrRoundProof) -> bool {
    exists|
        point: &Vec<Ext>,
        num: Ext,
        den: Ext,
        lambda: Ext,
        before: Transcript,
        after: Transcript,
    |
        {
            &&& evals(point@) == st.point
            &&& num@ == st.num
            &&& den@ == st.den
            &&& lambda@ == st.sponge.drawn_ext()
            &&& before.wf()
            &&& before@ == st.sponge.after_draw_ext()
            &&& #[trigger] prove_round.ensures(
                (&layer, point, num, den, lambda, before),
                (round, after),
            )
        }
}

/// Whether a circuit was built from the given challenges.
pub open spec fn built_from<
    L,
    M: Fn(&Vec<ShardChip>, &Vec<PaddedMle>, &Vec<PaddedMle>, Ext, &Vec<Ext>, usize) -> (
        LogUpGkrOutput,
        Vec<CircuitLayer<L>>,
    ),
>(
    build: M,
    chips: &Vec<ShardChip>,
    prep: &Vec<PaddedMle>,
    main: &Vec<PaddedMle>,
    alpha: E4,
    betas: Seq<E4>,
    vars: usize,
    output: LogUpGkrOutput,
    layers: Vec<CircuitLayer<L>>,
) -> bool {
    exists|a: Ext, b: &Vec<Ext>|
        {
            &&& a@ == alpha
            &&& evals(b@) == betas
            &&& #[trigger] build.ensures((chips, prep, main, a, b, vars), (output, layers))
        }
}

/// Whether the rounds of a proof were proved in turn along its walk.
pub open spec fn rounds_proved<
    L,
    P: Fn(&L, &Vec<Ext>, Ext, Ext, Ext, Transcript) -> (LogupGkrRoundProof, Transcript),
>(
    prove_round: P,
    layers: Seq<CircuitLayer<L>>,
    output: LogUpGkrOutput,
    rounds: Seq<LogupGkrRoundProof>,
    s: Sponge,
) -> bool {
    let start = walk_start(s, evals(output.numerator@), evals(output.denominator@));
    let vars = ceil_log2_of(output.numerator@.len());
    &&& rounds.len() <= layers.len()
    &&& forall|i: int|
        0 <= i < rounds.len() ==> proved_at(
            prove_round,
            layers[i].layer,
            walk(start, round_vals(rounds), vars, i as nat),
            #[trigger] rounds[i],
        )
}

/// Whether a proof of the lookup argument was made in turn from a transcript: the proof of
/// work and the challenges, the circuit under them, the rounds along the walk, and the
/// openings of every chip at its end, by name in the order of the names. The transcript at
/// the end is that of a verifier's walk over the proof, with the openings absorbed.
pub open spec fn gkr_rows_proved<
    L,
    M: Fn(&Vec<ShardChip>, &Vec<PaddedMle>, &Vec<PaddedMle>, Ext, &Vec<Ext>, usize) -> (
        LogUpGkrOutput,
        Vec<CircuitLayer<L>>,
    ),
    P: Fn(&L, &Vec<Ext>, Ext, Ext, Ext, Transcript) -> (LogupGkrRoundProof, Transcript),
>(
    s: Sponge,
    chips: &Vec<ShardChip>,
    preps: &Vec<PaddedMle>,
    mains: &Vec<PaddedMle>,
    max_log_row_count: usize,
    bits: nat,
    build: M,
    prove_round: P,
    p: LogupGkrProof,
    end: Sponge,
) -> bool {
    let dim = seed_dim(chips@);
    let s1 = challenges_sponge(s, bits, p.witness@, dim);
    let last = walk_end(p, s1);
    let point = trace_point(last.point, max_log_row_count as nat);
    let order = name_places(chips@);
    let list = p.logup_evaluations.chip_openings@;
    &&& is_grind(s, bits, p.witness@)
    &&& exists|layers: Vec<CircuitLayer<L>>|
        {
            &&& #[trigger] built_from(
                build,
                chips,
                preps,
                mains,
                s.after_pow(bits, p.witness@).drawn_ext(),
                challenge_weights(s, bits, p.witness@, dim),
                max_log_row_count,
                p.circuit_output,
                layers,
            )
            &&& p.round_proofs@.len() == proved_layers(layers@).len()
            &&& rounds_proved(
                prove_round,
                proved_layers(layers@),
                p.circuit_output,
                p.round_proofs@,
                s1,
            )
        }
    &&& evals(p.logup_evaluations.point@) == point
    &&& is_name_map(list)
    &&& list.len() == order.len()
    &&& forall|i: int|
        0 <= i < list.len() ==> {
            &&& (#[trigger] list[i]).0@ == chips@[order[i]].name@
            &&& opening_of(
                list[i].1,
                chips@[order[i]],
                mains@[order[i]],
                preps@[order[i]],
                point,
            )
        }
    &&& end == observe_openings(last.sponge, chips@.len(), gkr_pairs(list))
}

fn select_layers<L>(layers: Vec<CircuitLayer<L>>) -> (r: Vec<CircuitLayer<L>>)
    ensures
        r@ == proved_layers(layers@),
{
    let mut left = layers;
    let mut r: Vec<CircuitLayer<L>> = Vec::new();
    proof {
        assert(r@ + proved_layers(left@) =~= proved_layers(layers@));
    }
    while left.len() > 0
        invariant
            r@ + proved_layers(left@) == proved_layers(layers@),
        decreases left@.len(),
    {
        let ghost before = left@;
        let ghost had = r@;
        match left.pop() {
            Some(x) => {
                proof {
                    assert(left@ =~= before.drop_last());
                }
                if x.num_row_variables >= 1 {
                    r.push(x);
                    proof {
                        assert(r@ + proved_layers(left@) =~= had + (seq![x] + proved_layers(
                            left@,
                        )));
                    }
                }
            },
            None => {},
        }
    }
    proof {
        assert(r@ + proved_layers(left@) =~= r@);
    }
    r
}

proof fn walk_extends(start: WalkState, a: Seq<LogupGkrRoundProof>, x: LogupGkrRoundProof, vars: nat, k: nat)
    requires
        k <= a.len(),
    ensures
        walk(start, round_vals(a.push(x)), vars, k) == walk(start, round_vals(a), vars, k),
    decreases k,
{
    if k > 0 {
        walk_extends(start, a, x, vars, (k - 1) as nat);
        assert(round_vals(a.push(x))[k - 1] == round_vals(a)[k - 1]);
    }
}

/// Proves the lookup argument: the proof of work and the challenges, the circuit, the walk
/// from its output to the traces, and the openings there. `None` where no proof of work
/// exists. A round's prover leaves the transcript after the round's sumcheck, over as many
/// variables as the point has coordinates. The transcript is then the verifier's.
pub fn prove_shard_logup_gkr_rows<L, M, P>(
    chips: &Vec<ShardChip>,
    preprocessed_traces: &Vec<PaddedMle>,
    max_log_row_count: usize,
    grinding_bits: usize,
    challenger: &mut Transcript,
    shared_trace_mles: &Vec<PaddedMle>,
    build: M,
    prove_round: P,
) -> (r: Option<LogupGkrProof>) where
    M: Fn(&Vec<ShardChip>, &Vec<PaddedMle>, &Vec<PaddedMle>, Ext, &Vec<Ext>, usize) -> (
        LogUpGkrOutput,
        Vec<CircuitLayer<L>>,
    ),
    P: Fn(&L, &Vec<Ext>, Ext, Ext, Ext, Transcript) -> (LogupGkrRoundProof, Transcript),

    requires
        old(challenger).wf(),
        grinding_bits <= 30,
        arities_fit(chips@),
        chips@.len() == shared_trace_mles@.len(),
        chips@.len() == preprocessed_traces@.len(),
        pow2(max_log_row_count as nat) <= usize::MAX,
        forall|i: int|
            0 <= i < chips@.len() ==> within_cube(
                #[trigger] shared_trace_mles@[i],
                pow2(max_log_row_count as nat),
            ),
        forall|i: int|
            0 <= i < chips@.len() ==> within_cube(
                #[trigger] preprocessed_traces@[i],
                pow2(max_log_row_count as nat),
            ),
        forall|a: Ext, b: &Vec<Ext>| #[trigger]
            build.requires(
                (chips, preprocessed_traces, shared_trace_mles, a, b, max_log_row_count),
            ),
        forall|a: Ext, b: &Vec<Ext>, o: LogUpGkrOutput, layers: Vec<CircuitLayer<L>>|
            #[trigger] build.ensures(
                (chips, preprocessed_traces, shared_trace_mles, a, b, max_log_row_count),
                (o, layers),
            ) ==> circuit_fits(o, layers@, max_log_row_count as nat),
        forall|layer: &L, point: &Vec<Ext>, num: Ext, den: Ext, lambda: Ext, t: Transcript|
            t.wf() ==> #[trigger] prove_round.requires((layer, point, num, den, lambda, t)),
        forall|
            layer: &L,
            point: &Vec<Ext>,
            num: Ext,
            den: Ext,
            lambda: Ext,
            t: Transcript,
            round: LogupGkrRoundProof,
            u: Transcript,
        |
            t.wf() && #[trigger] prove_round.ensures(
                (layer, point, num, den, lambda, t),
                (round, u),
            ) ==> {
                &&& u.wf()
                &&& u@ == round.sumcheck_proof@.after(t@)
                &&& round.sumcheck_proof.point_and_eval.0@.len() == point@.len()
            },
    ensures
        final(challenger).wf(),
        match r {
            None => no_grind(old(challenger)@, grinding_bits as nat),
            Some(p) => gkr_rows_proved(
                old(challenger)@,
                chips,
                preprocessed_traces,
                shared_trace_mles,
                max_log_row_count,
                grinding_bits as nat,
                build,
                prove_round,
                p,
                final(challenger)@,
            ),
        },
{
    let (witness, challenges) = match draw_logup_challenges(chips, grinding_bits, challenger) {
        None => {
            return None;
        },
        Some(c) => c,
    };
    let ghost s1 = challenger@;
    let (output, circuit) = build(
        chips,
        preprocessed_traces,
        shared_trace_mles,
        challenges.alpha,
        &challenges.betas,
        max_log_row_count,
    );
    let ghost given = circuit;
    proof {
        assert(built_from(
            build,
            chips,
            preprocessed_traces,
            shared_trace_mles,
            challenges.alpha@,
            evals(challenges.betas@),
            max_log_row_count,
            output,
            given,
        ));
    }
    let ghost out = output;
    let layers = select_layers(circuit);
    let mut state = LayerWalk::begin(output, challenger);
    let ghost vars = ceil_log2_of(out.numerator@.len());
    let ghost start = walk_start(s1, evals(out.numerator@), evals(out.denominator@));
    proof {
        assert(evals(out.numerator@).len() == out.numerator@.len());
        assert(evals(state.walk.eval_point@).len() == state.walk.eval_point@.len());
        vars_positive(out.numerator@.len());
    }
    let mut i: usize = 0;
    while i < layers.len()
        invariant
            i <= layers@.len(),
            challenger.wf(),
            state.output == out,
            out.numerator@.len() > 1,
            vars == ceil_log2_of(out.numerator@.len()),
            vars >= 1,
            start == walk_start(s1, evals(out.numerator@), evals(out.denominator@)),
            state.walked(s1, challenger@),
            state.round_proofs@.len() == i,
            state.walk.eval_point@.len() == vars + i,
            evals(out.numerator@).len() == out.numerator@.len(),
            rounds_proved(prove_round, layers@, out, state.round_proofs@, s1),
            forall|layer: &L, point: &Vec<Ext>, num: Ext, den: Ext, lambda: Ext, t: Transcript|
                t.wf() ==> #[trigger] prove_round.requires((layer, point, num, den, lambda, t)),
            forall|
                layer: &L,
                point: &Vec<Ext>,
                num: Ext,
                den: Ext,
                lambda: Ext,
                t: Transcript,
                round: LogupGkrRoundProof,
                u: Transcript,
            |
                t.wf() && #[trigger] prove_round.ensures(
                    (layer, point, num, den, lambda, t),
                    (round, u),
                ) ==> {
                    &&& u.wf()
                    &&& u@ == round.sumcheck_proof@.after(t@)
                    &&& round.sumcheck_proof.point_and_eval.0@.len() == point@.len()
                },
        decreases layers@.len() - i,
    {
        let ghost before = challenger@;
        let ghost had = state;
        let ghost st = state.walk.at(before);
        let (lambda, _claim) = state.next_round(challenger);
        let mine = challenger.duplicate();
        let ghost t = mine;
        let (round, after) = prove_round(
            &layers[i].layer,
            &state.walk.eval_point,
            state.walk.numerator_eval,
            state.walk.denominator_eval,
            lambda,
            mine,
        );
        let ghost proved = round;
        proof {
            assert(prove_round.ensures(
                (
                    &layers@[i as int].layer,
                    &had.walk.eval_point,
                    had.walk.numerator_eval,
                    had.walk.denominator_eval,
                    lambda,
                    t,
                ),
                (round, after),
            ));
            assert(proved_at(prove_round, layers@[i as int].layer, st, round));
        }
        *challenger = after;
        state.absorb(round, challenger);
        proof {
            assert(had.walked(s1, before));
            let rs = had.round_proofs@;
            assert(state.round_proofs@ == rs.push(proved));
            assert(st == walk(start, round_vals(rs), vars, i as nat));
            assert forall|j: int| 0 <= j < state.round_proofs@.len() implies proved_at(
                prove_round,
                layers@[j].layer,
                walk(start, round_vals(state.round_proofs@), vars, j as nat),
                #[trigger] state.round_proofs@[j],
            ) by {
                walk_extends(start, rs, proved, vars, j as nat);
                if j < i {
                    assert(state.round_proofs@[j] == rs[j]);
                }
            }
            assert(state.walk.eval_point@.len() == evals(state.walk.eval_point@).len());
            let now = walk(start, round_vals(state.round_proofs@), vars, (i + 1) as nat);
            assert(state.walk.at(challenger@) == now);
            walk_extends(start, rs, proved, vars, i as nat);
            assert(round_vals(state.round_proofs@)[i as int] == round_val(proved));
            assert(proved.sumcheck_proof@.point.len()
                == proved.sumcheck_proof.point_and_eval.0@.len());
        }
        i = i + 1;
    }
    let ghost done = state;
    let ghost now = challenger@;
    let proof_out = finish_logup_gkr_rows(
        state,
        witness,
        chips,
        preprocessed_traces,
        shared_trace_mles,
        max_log_row_count,
        challenger,
    );
    proof {
        walks_agree(done, proof_out, s1, now);
        assert(built_from(
            build,
            chips,
            preprocessed_traces,
            shared_trace_mles,
            challenges.alpha@,
            evals(challenges.betas@),
            max_log_row_count,
            proof_out.circuit_output,
            given,
        ));
    }
    Some(proof_out)
}

proof fn vars_positive(n: nat)
    requires
        n > 1,
    ensures
        ceil_log2_of(n) >= 1,
{
    reveal_with_fuel(ceil_log2_of, 2);
}

/// The layers are proved from the last to the first, and those without rows to halve are left
/// out.
pub proof fn layers_are_proved_backwards<L>(a: Seq<CircuitLayer<L>>, b: Seq<CircuitLayer<L>>)
    ensures
        proved_layers(a + b) == proved_layers(b) + proved_layers(a),
        (forall|i: int| 0 <= i < b.len() ==> (#[trigger] b[i]).num_row_variables >= 1)
            ==> proved_layers(b) == b.reverse(),
        (forall|i: int| 0 <= i < b.len() ==> (#[trigger] b[i]).num_row_variables == 0)
            ==> proved_layers(b) == Seq::<CircuitLayer<L>>::empty(),
    decreases b.len(),
{
    if b.len() == 0 {
        assert(a + b =~= a);
        assert(proved_layers(b) + proved_layers(a) =~= proved_layers(a));
        assert(b.reverse() =~= proved_layers(b));
    } else {
        let c = b.drop_last();
        layers_are_proved_backwards(a, c);
        assert((a + b).drop_last() =~= a + c);
        assert((a + b).last() == b.last());
        assert forall|i: int| 0 <= i < c.len() implies #[trigger] c[i] == b[i] by {}
        if b.last().num_row_variables >= 1 {
            assert(proved_layers(a + b) =~= proved_layers(b) + proved_layers(a));
            assert(seq![b.last()] + c.reverse() =~= b.reverse());
        }
    }
}

} // verus!
