//! What an accepted proof of the folding tower says of its messages and samples.
use vstd::prelude::*;
use vstd::arithmetic::power2::pow2;
use crate::ext::{add_canon, e_one, e_pow, mul_comm, E4};
use crate::mle::esum;
use crate::transcript::Sponge;
use crate::whir::accepted::{batched_canon, batched_is_sum, message_accepted, terminal_is_sum};
use crate::whir::config::{folded_vars, pow_bits_at};
use crate::whir::replay::{ood_accepted, ood_sponge, replay_run, term_total, Replay};
use crate::whir::rounds::VState;
use crate::whir::sumcheck::{after_message, batch_coeffs};
use crate::whir::tower::Tower;

verus! {

/// The state of round `r` of a tower after `var` of its messages.
pub open spec fn tower_state(t: Tower, start: VState, r: int, var: nat) -> Replay {
    let st = t.run(start, r);
    let at = folded_vars(t.rounds, r) as int;
    replay_run(
        Replay { sponge: st.sponge, claim: st.claim, challenges: st.challenges },
        t.msgs.skip(at),
        t.rounds[r].pow_bits@,
        t.pows.skip(at),
        var,
    )
}

proof fn run_accepted(t: Tower, start: VState, r: int, k: int)
    requires
        0 <= r <= k,
        t.run_refusal(start, k) is None,
    ensures
        t.run_refusal(start, r) is None,
    decreases k,
{
    if r < k {
        run_accepted(t, start, r, k - 1);
    }
}

proof fn round_accepted(t: Tower, start: VState, r: int)
    requires
        t.rounds_refusal(start) is None,
        0 <= r < t.m(),
    ensures
        t.folds_refusal(t.run(start, r), r) is None,
        r + 1 < t.m() ==> t.samples_refusal(t.after_folds(t.run(start, r), r), r) is None,
{
    if r + 1 < t.m() {
        run_accepted(t, start, r + 1, t.m() - 1);
    }
}

/// The messages of an accepted tower chain: each one has three coefficients, adds up over zero
/// and one to the claim before it and has a proof of work after it, and the claim after it is
/// its value at the challenge drawn next.
pub proof fn accepted_tower_messages_chain(t: Tower, start: VState, r: int, var: nat)
    requires
        t.rounds_refusal(start) is None,
        0 <= r < t.m(),
        var < t.fold(r),
        folded_vars(t.rounds, r) + var < t.msgs.len(),
        t.pows.len() == t.msgs.len(),
    ensures
        ({
            let at = folded_vars(t.rounds, r) + var;
            let msg = t.msgs[at as int];
            let pow = t.pows[at as int];
            let now = tower_state(t, start, r, var);
            let next = tower_state(t, start, r, var + 1);
            let bits = if var < t.rounds[r].pow_bits@.len() {
                t.rounds[r].pow_bits@[var as int] as nat
            } else {
                0
            };
            let seen = now.sponge.observe_ext(msg[0]).observe_ext(msg[1]).observe_ext(msg[2]);
            let x = seen.after_pow(bits, pow).drawn_ext();
            &&& msg.len() == 3
            &&& msg[0] + ((msg[0] + msg[1]) + msg[2]) == now.claim
            &&& seen.pow_ok(bits, pow)
            &&& next.claim == (msg[0] + msg[1] * x) + (msg[2] * x) * x
            &&& next.challenges == now.challenges.push(x)
            &&& next.sponge == seen.after_pow(bits, pow).after_draw_ext()
        }),
{
    round_accepted(t, start, r);
    let st = t.run(start, r);
    let at = folded_vars(t.rounds, r) as int;
    message_accepted(
        Replay { sponge: st.sponge, claim: st.claim, challenges: st.challenges },
        t.msgs.skip(at),
        t.rounds[r].pow_bits@,
        t.pows.skip(at),
        var,
        t.fold(r),
        r,
        "degree-2 message"@,
    );
    assert(t.msgs.skip(at)[var as int] == t.msgs[at + var]);
    assert(t.pows.skip(at)[var as int] == t.pows[at + var]);
}

proof fn claim_canon(t: Tower, start: VState, r: int)
    requires
        start.claim.canon(),
        0 <= r,
    ensures
        t.run(start, r).claim.canon(),
        t.after_folds(t.run(start, r), r).claim.canon(),
    decreases r,
{
    let st = t.run(start, r);
    if r > 0 {
        claim_canon(t, start, r - 1);
        let before = t.after_folds(t.run(start, r - 1), r - 1);
        let c = t.commitments[r - 1];
        let a = c.answers.len();
        let batch = ood_sponge(
            before.sponge.observe_all(c.root),
            c.answers,
            t.left(r),
            a,
        ).drawn_ext();
        batched_canon(before.claim, c.answers, batch_coeffs(batch, batch, a), a as int);
    }
    let n = t.fold(r);
    if n > 0 {
        let at = folded_vars(t.rounds, r) as int;
        let msg = t.msgs.skip(at)[n - 1];
        let x = after_message(
            replay_run(
                Replay { sponge: st.sponge, claim: st.claim, challenges: st.challenges },
                t.msgs.skip(at),
                t.rounds[r].pow_bits@,
                t.pows.skip(at),
                (n - 1) as nat,
            ).sponge,
            msg,
        ).after_pow(pow_bits_at(t.rounds[r].pow_bits@, n - 1), t.pows.skip(at)[n - 1]).drawn_ext();
        add_canon(msg[0] + msg[1] * x, (msg[2] * x) * x);
    }
}

/// The samples of an accepted tower: after the messages of a round its root is absorbed, the
/// carried points are those drawn in turn before their answers, and the next claim adds the
/// answers, weighted by the powers of the challenge drawn after them.
pub proof fn accepted_tower_samples(t: Tower, start: VState, r: int)
    requires
        t.rounds_refusal(start) is None,
        start.claim.canon(),
        0 <= r,
        r + 1 < t.m(),
    ensures
        ({
            let last = tower_state(t, start, r, t.fold(r));
            let next = t.run(start, r + 1);
            let c = t.commitments[r];
            let seen = last.sponge.observe_all(c.root);
            let left = t.left(r + 1);
            let drawn = ood_sponge(seen, c.answers, left, c.answers.len());
            let batch = drawn.drawn_ext();
            &&& forall|i: int|
                0 <= i < c.answers.len() ==> #[trigger] c.points[i] == ood_sponge(
                    seen,
                    c.answers,
                    left,
                    i as nat,
                ).drawn_exts(left)
            &&& next.claim == last.claim + esum(
                c.answers.len(),
                |j: int| e_pow(batch, (j + 1) as nat) * c.answers[j],
            )
            &&& next.sponge == drawn.after_draw_ext()
            &&& next.challenges == last.challenges
            &&& next.terms.len() == t.run(start, r).terms.len() + c.answers.len()
            &&& t.run(start, 0) == start
        }),
{
    round_accepted(t, start, r);
    claim_canon(t, start, r);
    let st = t.after_folds(t.run(start, r), r);
    let c = t.commitments[r];
    let a = c.answers.len();
    let seen = st.sponge.observe_all(c.root);
    ood_accepted(seen, c.answers, c.points, t.left(r + 1), a, r + 1);
    let batch = ood_sponge(seen, c.answers, t.left(r + 1), a).drawn_ext();
    let f = |j: int| e_pow(batch, (j + 1) as nat) * c.answers[j];
    let c1 = batch_coeffs(batch, batch, a);
    assert forall|j: int| 0 <= j < a implies #[trigger] (c1[j] * c.answers[j]) == f(j) by {
        mul_comm(batch, e_pow(batch, j as nat));
    }
    batched_is_sum(st.claim, c.answers, c1, a, f);
}

/// What an accepted tower says as a whole: the revealed polynomial has the size that the
/// schedule leaves, the starting points are those drawn in turn before their answers, there
/// is one message for each folded variable and no other, and the claim in the end is the sum
/// of what the collected constraints give on the revealed polynomial.
pub proof fn accepted_tower(t: Tower, s: Sponge, point: Seq<E4>, eval: E4)
    requires
        t.refusal(s, point, eval) is None,
        eval.canon(),
    ensures
        ({
            let start = t.start(s, point, eval);
            let c = t.starting;
            let seen = s.observe_all(c.root);
            let drawn = ood_sponge(seen, c.answers, t.n, c.answers.len());
            let batch = drawn.drawn_ext();
            let end = t.end(start);
            &&& t.final_poly.len() == pow2(t.last())
            &&& forall|i: int|
                0 <= i < c.answers.len() ==> #[trigger] c.points[i] == ood_sponge(
                    seen,
                    c.answers,
                    t.n,
                    i as nat,
                ).drawn_exts(t.n)
            &&& start.claim == eval + esum(
                c.answers.len(),
                |j: int| e_pow(batch, (j + 1) as nat) * c.answers[j],
            )
            &&& start.claim.canon()
            &&& start.sponge == drawn.after_draw_ext()
            &&& start.terms[0].point == point
            &&& start.terms[0].coeff == e_one()
            &&& !start.terms[0].monomial
            &&& t.rounds_refusal(start) is None
            &&& t.msgs.len() == folded_vars(t.rounds, t.m() as int)
            &&& esum(
                end.terms.len(),
                |i: int|
                    term_total(end.terms[i], t.n, t.last(), end.challenges, t.final_poly),
            ) == end.claim
        }),
{
    let c = t.starting;
    let a = c.answers.len();
    let seen = s.observe_all(c.root);
    ood_accepted(seen, c.answers, c.points, t.n, a, 0);
    let batch = ood_sponge(seen, c.answers, t.n, a).drawn_ext();
    let f = |j: int| e_pow(batch, (j + 1) as nat) * c.answers[j];
    let c1 = batch_coeffs(batch, batch, a);
    assert forall|j: int| 0 <= j < a implies #[trigger] (c1[j] * c.answers[j]) == f(j) by {
        mul_comm(batch, e_pow(batch, j as nat));
    }
    batched_is_sum(eval, c.answers, c1, a, f);
    batched_canon(eval, c.answers, c1, a as int);
    let end = t.end(t.start(s, point, eval));
    terminal_is_sum(
        end.terms,
        t.n,
        t.last(),
        end.challenges,
        t.final_poly,
        end.terms.len(),
    );
}

} // verus!
