//! The verifier of the lookup argument.
//!
//! The argument shows that the fractions of all lookups add up to the negated digest of
//! the public values. The circuit's output is reduced layer by layer to one numerator and
//! one denominator at a point, and those are rebuilt from the chips' trace openings,
//! masked by the chips' heights.
use vstd::prelude::*;
use vstd::arithmetic::power2::{lemma2_to64, lemma_pow2_pos, lemma_pow2_unfold, pow2};
use crate::arith::{ceil_log2, ceil_log2_is_least, ceil_log2_of};
use crate::ext::{e_inv, e_zero, evals, Ext, E4};
use crate::felt::Felt;
use crate::mle::{eq_prod, eq_tab, mle_eval};
use crate::shard::error::{answer_val, gkr_error, message1, message2, text1, text2, BasefoldVerifyError,
    ShardRefusal};
use crate::shard::lookup::Lookup;
use crate::shard::openings::{gkr_pairs, observe_logup_gkr_openings, observe_openings};
use crate::shard::points::{eq_eval_host, evaluate_mle_host};
use crate::shard::rebuild::{check_last_layer, openings_fit, rebuild_refusal};
use crate::shard::sumcheck::{verify_sumcheck_host, SumcheckVal};
use crate::shard::types::{ChipOpenedValues, FoldOrientation, LogUpGkrOutput, LogupGkrProof,
    LogupGkrRoundProof, ShardChip};
use crate::transcript::{Sponge, Transcript};
use crate::whir::sumcheck::eq_table;

verus! {

/// The challenges of the lookup argument: the shift, and one weight for the kind and for
/// each value.
#[derive(Debug)]
pub struct LogupChallenges {
    /// The shift.
    pub alpha: Ext,
    /// The weights.
    pub betas: Vec<Ext>,
}

/// The largest arity of the first `k` lookups, counting the kind, and at least `floor`.
pub open spec fn max_arity(s: Seq<Lookup>, k: nat, floor: nat) -> nat
    decreases k,
{
    if k == 0 {
        floor
    } else {
        let prev = max_arity(s, (k - 1) as nat, floor);
        let a = s[k - 1].values@.len() + 1;
        if a > prev {
            a
        } else {
            prev
        }
    }
}

/// The largest arity over the first `k` chips, at least one.
pub open spec fn chips_max_arity(chips: Seq<ShardChip>, k: nat) -> nat
    decreases k,
{
    if k == 0 {
        1
    } else {
        let l = chips[k - 1].lookups;
        max_arity(
            l.receives@,
            l.receives@.len(),
            max_arity(l.sends@, l.sends@.len(), chips_max_arity(chips, (k - 1) as nat)),
        )
    }
}

fn lookups_arity(s: &Vec<Lookup>, floor: usize) -> (r: usize)
    requires
        forall|i: int| 0 <= i < s@.len() ==> (#[trigger] s@[i]).values@.len() < usize::MAX,
    ensures
        r == max_arity(s@, s@.len(), floor as nat),
{
    let mut best: usize = floor;
    let mut i: usize = 0;
    while i < s.len()
        invariant
            i <= s@.len(),
            forall|i: int| 0 <= i < s@.len() ==> (#[trigger] s@[i]).values@.len() < usize::MAX,
            best == max_arity(s@, i as nat, floor as nat),
        decreases s@.len() - i,
    {
        proof {
            assert(s@[i as int].values@.len() < usize::MAX);
        }
        let a: usize = s[i].values.len() + 1;
        if a > best {
            best = a;
        }
        i = i + 1;
    }
    best
}

/// The number of challenges from which the weights are expanded: the logarithm of the
/// largest arity, rounded up.
pub fn beta_seed_dim(chips: &Vec<ShardChip>) -> (r: usize)
    requires
        forall|c: int, i: int|
            0 <= c < chips@.len() && 0 <= i < chips@[c].lookups.sends@.len() ==> (
            #[trigger] chips@[c].lookups.sends@[i]).values@.len() < usize::MAX,
        forall|c: int, i: int|
            0 <= c < chips@.len() && 0 <= i < chips@[c].lookups.receives@.len() ==> (
            #[trigger] chips@[c].lookups.receives@[i]).values@.len() < usize::MAX,
    ensures
        r == ceil_log2_of(chips_max_arity(chips@, chips@.len())),
{
    let mut best: usize = 1;
    let mut c: usize = 0;
    while c < chips.len()
        invariant
            c <= chips@.len(),
            forall|c: int, i: int|
                0 <= c < chips@.len() && 0 <= i < chips@[c].lookups.sends@.len() ==> (
                #[trigger] chips@[c].lookups.sends@[i]).values@.len() < usize::MAX,
            forall|c: int, i: int|
                0 <= c < chips@.len() && 0 <= i < chips@[c].lookups.receives@.len() ==> (
                #[trigger] chips@[c].lookups.receives@[i]).values@.len() < usize::MAX,
            best == chips_max_arity(chips@, c as nat),
        decreases chips@.len() - c,
    {
        let l = &chips[c].lookups;
        proof {
            assert forall|i: int| 0 <= i < l.sends@.len() implies (
            #[trigger] l.sends@[i]).values@.len() < usize::MAX by {
                assert(chips@[c as int].lookups.sends@[i].values@.len() < usize::MAX);
            }
            assert forall|i: int| 0 <= i < l.receives@.len() implies (
            #[trigger] l.receives@[i]).values@.len() < usize::MAX by {
                assert(chips@[c as int].lookups.receives@[i].values@.len() < usize::MAX);
            }
        }
        let a: usize = lookups_arity(&l.sends, best);
        best = lookups_arity(&l.receives, a);
        c = c + 1;
    }
    ceil_log2(best)
}

/// Whether some lookup of a list is closed by the public values.
pub open spec fn any_closed(s: Seq<Lookup>) -> bool {
    exists|i: int| 0 <= i < s.len() && (#[trigger] s[i]).kind.closed_by_public_values
}

/// Whether some lookup of the machine is closed by the public values.
pub open spec fn has_pv_buses(chips: Seq<ShardChip>) -> bool {
    exists|c: int|
        0 <= c < chips.len() && (any_closed((#[trigger] chips[c]).lookups.sends@) || any_closed(
            chips[c].lookups.receives@,
        ))
}

fn some_closed(s: &Vec<Lookup>) -> (r: bool)
    ensures
        r == any_closed(s@),
{
    let mut i: usize = 0;
    while i < s.len()
        invariant
            i <= s@.len(),
            forall|j: int| 0 <= j < i ==> !(#[trigger] s@[j]).kind.closed_by_public_values,
        decreases s@.len() - i,
    {
        if s[i].kind.closed_by_public_values {
            return true;
        }
        i = i + 1;
    }
    false
}

/// Whether the machine has lookups that the public values close.
pub fn machine_has_pv_buses(chips: &Vec<ShardChip>) -> (r: bool)
    ensures
        r == has_pv_buses(chips@),
{
    let mut c: usize = 0;
    while c < chips.len()
        invariant
            c <= chips@.len(),
            forall|j: int|
                0 <= j < c ==> !any_closed((#[trigger] chips@[j]).lookups.sends@) && !any_closed(
                    chips@[j].lookups.receives@,
                ),
        decreases chips@.len() - c,
    {
        let l = &chips[c].lookups;
        if some_closed(&l.sends) || some_closed(&l.receives) {
            proof {
                assert(any_closed(chips@[c as int].lookups.sends@) || any_closed(
                    chips@[c as int].lookups.receives@,
                ));
            }
            return true;
        }
        c = c + 1;
    }
    false
}

/// The content of a round.
pub struct RoundVal {
    pub n0: E4,
    pub n1: E4,
    pub d0: E4,
    pub d1: E4,
    pub sumcheck: SumcheckVal,
}

/// The content of a round.
pub open spec fn round_val(r: LogupGkrRoundProof) -> RoundVal {
    RoundVal {
        n0: r.numerator_0@,
        n1: r.numerator_1@,
        d0: r.denominator_0@,
        d1: r.denominator_1@,
        sumcheck: r.sumcheck_proof@,
    }
}

/// Whether a length is a power of two.
pub open spec fn is_pow2(n: nat) -> bool {
    n == pow2(ceil_log2_of(n))
}

/// Why the circuit's output is refused, if it is.
pub open spec fn output_refusal(n: nat, d: nat) -> Option<Seq<char>> {
    if n != d {
        Some(
            text2("circuit_output numerator/denominator length mismatch: "@, n, " vs "@, d, ""@),
        )
    } else if !is_pow2(n) {
        Some(text1("circuit_output length "@, n, " is not a power of two"@))
    } else {
        None
    }
}

/// The transcript after the challenges of the lookup argument.
pub open spec fn challenges_sponge(s: Sponge, bits: nat, witness: int, dim: nat) -> Sponge {
    s.after_pow(bits, witness).after_draw_ext().after_draw_exts(dim)
}

/// The weights: the equality table of the drawn point, most significant coordinate first.
pub open spec fn challenge_weights(s: Sponge, bits: nat, witness: int, dim: nat) -> Seq<E4> {
    eq_tab(s.after_pow(bits, witness).after_draw_ext().drawn_exts(dim).reverse())
}

/// Checks the shape of the circuit's output and the proof of work, and draws the
/// challenges of the lookup argument.
pub fn sample_logup_challenges(
    gkr: &LogupGkrProof,
    grinding_bits: usize,
    beta_seed_dim: usize,
    challenger: &mut Transcript,
) -> (r: Result<LogupChallenges, BasefoldVerifyError>)
    requires
        old(challenger).wf(),
        grinding_bits <= 30,
        pow2(beta_seed_dim as nat) <= usize::MAX,
    ensures
        final(challenger).wf(),
        ({
            let s = old(challenger)@;
            let bits = grinding_bits as nat;
            let dim = beta_seed_dim as nat;
            let w = gkr.witness@;
            let shape = output_refusal(
                gkr.circuit_output.numerator@.len(),
                gkr.circuit_output.denominator@.len(),
            );
            match r {
                Ok(c) => {
                    &&& shape is None
                    &&& s.pow_ok(bits, w)
                    &&& c.alpha@ == s.after_pow(bits, w).drawn_ext()
                    &&& evals(c.betas@) == challenge_weights(s, bits, w, dim)
                    &&& c.betas@.len() == pow2(dim)
                    &&& final(challenger)@ == challenges_sponge(s, bits, w, dim)
                },
                Err(e) => {
                    ||| shape is Some && e@ == ShardRefusal::LogupGkr(shape->0)
                    ||| shape is None && !s.pow_ok(bits, w) && e@ == ShardRefusal::LogupGkr(
                        "GKR grinding witness check failed"@,
                    )
                },
            }
        }),
{
    let n: usize = gkr.circuit_output.numerator.len();
    let d: usize = gkr.circuit_output.denominator.len();
    if n != d {
        return Err(
            BasefoldVerifyError::LogupGkr(
                message2(
                    "circuit_output numerator/denominator length mismatch: ",
                    n,
                    " vs ",
                    d,
                    "",
                ),
            ),
        );
    }
    let log: usize = ceil_log2(n);
    if !reaches(n, log) {
        return Err(
            BasefoldVerifyError::LogupGkr(
                message1("circuit_output length ", n, " is not a power of two"),
            ),
        );
    }
    if !challenger.check_witness(grinding_bits, gkr.witness) {
        return Err(gkr_error("GKR grinding witness check failed"));
    }
    let alpha = challenger.sample_algebra_element();
    let seed = challenger.sample_point(beta_seed_dim);
    proof {
        assert(evals(seed@).len() == seed@.len());
    }
    let rev = reversed(seed.as_slice());
    let betas = eq_table(beta_seed_dim, rev.as_slice());
    Ok(LogupChallenges { alpha, betas })
}

/// Whether `n` is `2^log`, where `log` is its logarithm rounded up.
fn reaches(n: usize, log: usize) -> (r: bool)
    requires
        log == ceil_log2_of(n as nat),
    ensures
        r == (n == pow2(log as nat)),
{
    proof {
        lemma2_to64();
        ceil_log2_is_least(n as nat);
    }
    if n == 0 {
        proof {
            vstd::arithmetic::power2::lemma_pow2_pos(log as nat);
        }
        return false;
    }
    let mut m: usize = n;
    let mut k: usize = log;
    while k > 0
        invariant
            n == pow2(log as nat) <==> m == pow2(k as nat),
            m >= 1,
        decreases k,
    {
        proof {
            lemma_pow2_unfold(k as nat);
        }
        if m % 2 != 0 {
            return false;
        }
        m = m / 2;
        k = k - 1;
    }
    m == 1
}

/// A point with its coordinates in the opposite order.
pub fn reversed(p: &[Ext]) -> (r: Vec<Ext>)
    ensures
        evals(r@) == evals(p@).reverse(),
        r@.len() == p@.len(),
{
    let n: usize = p.len();
    let mut r: Vec<Ext> = Vec::new();
    let mut i: usize = 0;
    while i < n
        invariant
            i <= n,
            n == p@.len(),
            r@.len() == i,
            forall|j: int| 0 <= j < i ==> #[trigger] r@[j] == p@[n - 1 - j],
        decreases n - i,
    {
        r.push(p[n - 1 - i]);
        i = i + 1;
    }
    proof {
        assert(evals(r@) =~= evals(p@).reverse());
    }
    r
}

/// The sum of the first `k` fractions.
pub open spec fn fraction_sum(n: Seq<E4>, d: Seq<E4>, k: nat) -> E4
    decreases k,
{
    if k == 0 {
        e_zero()
    } else {
        fraction_sum(n, d, (k - 1) as nat) + n[k - 1] * e_inv(d[k - 1])
    }
}

fn sum_fractions(n: &Vec<Ext>, d: &Vec<Ext>) -> (r: Ext)
    requires
        n@.len() == d@.len(),
        forall|i: int| 0 <= i < d@.len() ==> (#[trigger] d@[i])@ != e_zero(),
    ensures
        r@ == fraction_sum(evals(n@), evals(d@), n@.len()),
{
    let mut acc = Ext::zero();
    let mut i: usize = 0;
    while i < n.len()
        invariant
            i <= n@.len(),
            n@.len() == d@.len(),
            forall|i: int| 0 <= i < d@.len() ==> (#[trigger] d@[i])@ != e_zero(),
            acc@ == fraction_sum(evals(n@), evals(d@), i as nat),
        decreases n@.len() - i,
    {
        proof {
            assert(d@[i as int]@ != e_zero());
        }
        acc = acc.plus(n[i].times(d[i].inverse()));
        i = i + 1;
    }
    acc
}

/// The state of the reduction: the transcript, the point, and the numerator and
/// denominator there.
pub struct WalkState {
    pub sponge: Sponge,
    pub point: Seq<E4>,
    pub num: E4,
    pub den: E4,
}

/// The state before the first round.
pub open spec fn walk_start(s: Sponge, n: Seq<E4>, d: Seq<E4>) -> WalkState {
    let seen = s.observe_exts(n).observe_exts(d);
    let vars = ceil_log2_of(n.len());
    let point = seen.drawn_exts(vars);
    WalkState {
        sponge: seen.after_draw_exts(vars),
        point,
        num: mle_eval(n, point),
        den: mle_eval(d, point),
    }
}

/// A point that pairs with a round's point.
pub open spec fn paired_point(o: FoldOrientation, p: Seq<E4>) -> Seq<E4> {
    match o {
        FoldOrientation::Msb => p,
        FoldOrientation::Lsb => p.reverse(),
    }
}

/// The value that a round's sumcheck must end with.
pub open spec fn layer_value(eq: E4, lambda: E4, r: RoundVal) -> E4 {
    eq * (lambda * (r.n0 * r.d1 + r.n1 * r.d0) + r.d0 * r.d1)
}

/// Why round `i` is refused, if it is: the claim, the sumcheck, then the value that it
/// ends with.
pub open spec fn walk_refusal(
    st: WalkState,
    r: RoundVal,
    i: nat,
    vars: nat,
    o: FoldOrientation,
) -> Option<Seq<char>> {
    let lambda = st.sponge.drawn_ext();
    let s1 = st.sponge.after_draw_ext();
    if r.sumcheck.claimed != lambda * st.num + st.den {
        Some(text1("round "@, i, ": sumcheck claimed_sum mismatch"@))
    } else {
        match r.sumcheck.refusal(s1, i + vars, 3) {
            Some(e) => Some(e),
            None => {
                let eq = eq_prod(r.sumcheck.point, paired_point(o, st.point));
                if r.sumcheck.eval != layer_value(eq, lambda, r) {
                    Some(text1("round "@, i, ": final_eval identity failed"@))
                } else {
                    None
                }
            },
        }
    }
}

/// The state after round `r`: the line challenge joins the sumcheck's point as the lowest
/// row variable.
pub open spec fn walk_step(st: WalkState, r: RoundVal, vars: nat) -> WalkState {
    let s1 = st.sponge.after_draw_ext();
    let s2 = r.sumcheck.after(s1).observe_ext(r.n0).observe_ext(r.n1).observe_ext(
        r.d0,
    ).observe_ext(r.d1);
    let line = s2.drawn_ext();
    WalkState {
        sponge: s2.after_draw_ext(),
        point: r.sumcheck.point.insert(vars - 1, line),
        num: r.n0 + (r.n1 - r.n0) * line,
        den: r.d0 + (r.d1 - r.d0) * line,
    }
}

/// The state after `k` rounds.
pub open spec fn walk(start: WalkState, rounds: Seq<RoundVal>, vars: nat, k: nat) -> WalkState
    decreases k,
{
    if k == 0 {
        start
    } else {
        walk_step(walk(start, rounds, vars, (k - 1) as nat), rounds[k - 1], vars)
    }
}

/// Why the first refused of the first `k` rounds is refused.
pub open spec fn walk_refusals(
    start: WalkState,
    rounds: Seq<RoundVal>,
    vars: nat,
    o: FoldOrientation,
    k: nat,
) -> Option<Seq<char>>
    decreases k,
{
    if k == 0 {
        None
    } else {
        match walk_refusals(start, rounds, vars, o, (k - 1) as nat) {
            Some(e) => Some(e),
            None => walk_refusal(
                walk(start, rounds, vars, (k - 1) as nat),
                rounds[k - 1],
                (k - 1) as nat,
                vars,
                o,
            ),
        }
    }
}

proof fn walk_refusals_stay(
    start: WalkState,
    rounds: Seq<RoundVal>,
    vars: nat,
    o: FoldOrientation,
    j: nat,
    k: nat,
)
    requires
        j <= k,
        walk_refusals(start, rounds, vars, o, j) is Some,
    ensures
        walk_refusals(start, rounds, vars, o, k) == walk_refusals(start, rounds, vars, o, j),
    decreases k,
{
    if j < k {
        walk_refusals_stay(start, rounds, vars, o, j, (k - 1) as nat);
    }
}

/// The coordinates of a point with one more inserted.
pub fn insert_coord(p: &Vec<Ext>, at: usize, x: Ext) -> (r: Vec<Ext>)
    requires
        at <= p@.len(),
    ensures
        evals(r@) == evals(p@).insert(at as int, x@),
        r@.len() == p@.len() + 1,
{
    let mut r: Vec<Ext> = Vec::new();
    let mut i: usize = 0;
    while i < at
        invariant
            i <= at,
            at <= p@.len(),
            r@.len() == i,
            forall|j: int| 0 <= j < i ==> #[trigger] r@[j] == p@[j],
        decreases at - i,
    {
        r.push(p[i]);
        i = i + 1;
    }
    r.push(x);
    while i < p.len()
        invariant
            at <= i <= p@.len(),
            r@.len() == i + 1,
            forall|j: int| 0 <= j < at ==> #[trigger] r@[j] == p@[j],
            r@[at as int] == x,
            forall|j: int| at < j < r@.len() ==> #[trigger] r@[j] == p@[j - 1],
        decreases p@.len() - i,
    {
        r.push(p[i]);
        i = i + 1;
    }
    proof {
        assert(evals(r@) =~= evals(p@).insert(at as int, x@));
    }
    r
}

/// The walk's state, as the verifier and the prover carry it.
#[derive(Debug)]
pub struct GkrWalk {
    /// The point.
    pub eval_point: Vec<Ext>,
    /// The numerator at the point.
    pub numerator_eval: Ext,
    /// The denominator at the point.
    pub denominator_eval: Ext,
}

impl GkrWalk {
    /// The state, with a transcript.
    pub open spec fn at(self, s: Sponge) -> WalkState {
        WalkState {
            sponge: s,
            point: evals(self.eval_point@),
            num: self.numerator_eval@,
            den: self.denominator_eval@,
        }
    }

    /// Absorbs the circuit's output, draws the first point, and evaluates the output
    /// there.
    pub fn start(output: &LogUpGkrOutput, challenger: &mut Transcript) -> (r: GkrWalk)
        requires
            old(challenger).wf(),
            output.numerator@.len() == output.denominator@.len(),
            is_pow2(output.numerator@.len()),
        ensures
            final(challenger).wf(),
            r.at(final(challenger)@) == walk_start(
                old(challenger)@,
                evals(output.numerator@),
                evals(output.denominator@),
            ),
            r.eval_point@.len() == ceil_log2_of(output.numerator@.len()),
    {
        challenger.observe_algebra_slice(output.numerator.as_slice());
        challenger.observe_algebra_slice(output.denominator.as_slice());
        let vars: usize = ceil_log2(output.numerator.len());
        let eval_point = challenger.sample_point(vars);
        proof {
            assert(evals(eval_point@).len() == eval_point@.len());
            assert(evals(output.numerator@).len() == output.numerator@.len());
        }
        let numerator_eval = evaluate_mle_host(
            output.numerator.as_slice(),
            eval_point.as_slice(),
        );
        let denominator_eval = evaluate_mle_host(
            output.denominator.as_slice(),
            eval_point.as_slice(),
        );
        GkrWalk { eval_point, numerator_eval, denominator_eval }
    }

    /// Absorbs a round's four values, draws the line challenge, and moves to the next
    /// point. The transcript is the one after the round's sumcheck.
    pub fn advance(
        &self,
        round: &LogupGkrRoundProof,
        vars: usize,
        challenger: &mut Transcript,
    ) -> (r: GkrWalk)
        requires
            old(challenger).wf(),
            1 <= vars,
            vars - 1 <= round.sumcheck_proof.point_and_eval.0@.len(),
        ensures
            final(challenger).wf(),
            forall|st: WalkState|
                round.sumcheck_proof@.after(st.sponge.after_draw_ext()) == old(challenger)@
                    ==> r.at(final(challenger)@) == #[trigger] walk_step(
                    st,
                    round_val(*round),
                    vars as nat,
                ),
            r.eval_point@.len() == round.sumcheck_proof.point_and_eval.0@.len() + 1,
    {
        let (n0, n1) = (round.numerator_0, round.numerator_1);
        let (d0, d1) = (round.denominator_0, round.denominator_1);
        challenger.observe_algebra_element(n0);
        challenger.observe_algebra_element(n1);
        challenger.observe_algebra_element(d0);
        challenger.observe_algebra_element(d1);
        let line = challenger.sample_algebra_element();
        let eval_point = insert_coord(&round.sumcheck_proof.point_and_eval.0, vars - 1, line);
        GkrWalk {
            eval_point,
            numerator_eval: n0.plus(n1.minus(n0).times(line)),
            denominator_eval: d0.plus(d1.minus(d0).times(line)),
        }
    }
}

/// The contents of the rounds.
pub open spec fn round_vals(s: Seq<LogupGkrRoundProof>) -> Seq<RoundVal> {
    Seq::new(s.len(), |i: int| round_val(s[i]))
}

/// The state after the last round of a proof.
pub open spec fn walk_end(gkr: LogupGkrProof, s: Sponge) -> WalkState {
    let n = evals(gkr.circuit_output.numerator@);
    let d = evals(gkr.circuit_output.denominator@);
    walk(
        walk_start(s, n, d),
        round_vals(gkr.round_proofs@),
        ceil_log2_of(n.len()),
        gkr.round_proofs@.len(),
    )
}

/// Why a proof of the lookup argument is refused after the challenges are drawn, if it is:
/// the balance with the public values, the number of rounds, the rounds, then the last
/// layer.
pub open spec fn gkr_refusal(
    gkr: LogupGkrProof,
    chips: Seq<ShardChip>,
    opened: Seq<ChipOpenedValues>,
    max_log_row_count: nat,
    o: FoldOrientation,
    alpha: E4,
    betas: Seq<E4>,
    pv_digest: E4,
    s: Sponge,
) -> Option<Seq<char>> {
    let n = evals(gkr.circuit_output.numerator@);
    let d = evals(gkr.circuit_output.denominator@);
    let vars = ceil_log2_of(n.len());
    let k = gkr.round_proofs@.len();
    if fraction_sum(n, d, n.len()) != e_zero() - pv_digest {
        Some("public-values balance failed (sum circuit_output num/den != -PV_digest)"@)
    } else if k + 1 != max_log_row_count {
        Some(
            text2(
                "GKR round count "@,
                k,
                " + 1 != max_log_row_count "@,
                max_log_row_count,
                " (proof must be padded to the fixed round count)"@,
            ),
        )
    } else {
        match walk_refusals(walk_start(s, n, d), round_vals(gkr.round_proofs@), vars, o, k) {
            Some(e) => Some(e),
            None => {
                let end = walk_end(gkr, s);
                rebuild_refusal(
                    chips,
                    opened,
                    evals(gkr.logup_evaluations.point@),
                    gkr.logup_evaluations.chip_openings@,
                    end.point,
                    end.num,
                    end.den,
                    alpha,
                    betas,
                    (vars - 1) as nat,
                )
            },
        }
    }
}

/// Whether a proof has a first round, and it is refused.
pub open spec fn first_round_refused(gkr: LogupGkrProof, o: FoldOrientation, s: Sponge) -> bool {
    let n = evals(gkr.circuit_output.numerator@);
    let d = evals(gkr.circuit_output.denominator@);
    &&& gkr.round_proofs@.len() > 0
    &&& walk_refusals(
        walk_start(s, n, d),
        round_vals(gkr.round_proofs@),
        ceil_log2_of(n.len()),
        o,
        1,
    ) is Some
}

/// Walks the rounds of a proof.
fn walk_rounds(
    gkr: &LogupGkrProof,
    vars: usize,
    o: FoldOrientation,
    challenger: &mut Transcript,
) -> (r: Result<GkrWalk, BasefoldVerifyError>)
    requires
        old(challenger).wf(),
        gkr.circuit_output.numerator@.len() == gkr.circuit_output.denominator@.len(),
        is_pow2(gkr.circuit_output.numerator@.len()),
        vars == ceil_log2_of(gkr.circuit_output.numerator@.len()),
        vars >= 1 || first_round_refused(*gkr, o, old(challenger)@),
    ensures
        final(challenger).wf(),
        ({
            let why = walk_refusals(
                walk_start(
                    old(challenger)@,
                    evals(gkr.circuit_output.numerator@),
                    evals(gkr.circuit_output.denominator@),
                ),
                round_vals(gkr.round_proofs@),
                vars as nat,
                o,
                gkr.round_proofs@.len(),
            );
            match r {
                Ok(w) => {
                    &&& why is None
                    &&& w.at(final(challenger)@) == walk_end(*gkr, old(challenger)@)
                    &&& w.eval_point@.len() == vars + gkr.round_proofs@.len()
                },
                Err(e) => why is Some && e@ == ShardRefusal::LogupGkr(why->0),
            }
        }),
{
    let ghost s0 = challenger@;
    let ghost n = evals(gkr.circuit_output.numerator@);
    let ghost d = evals(gkr.circuit_output.denominator@);
    let ghost start = walk_start(s0, n, d);
    let ghost rounds = round_vals(gkr.round_proofs@);
    let ghost v = vars as nat;
    let count: usize = gkr.round_proofs.len();
    proof {
        assert(n.len() == gkr.circuit_output.numerator@.len());
    }
    let mut w = GkrWalk::start(&gkr.circuit_output, challenger);
    let mut i: usize = 0;
    while i < count
        invariant
            i <= count,
            count == gkr.round_proofs@.len(),
            challenger.wf(),
            v == vars,
            vars >= 1 || walk_refusals(start, rounds, v, o, 1) is Some && count > 0,
            start == walk_start(
                old(challenger)@,
                evals(gkr.circuit_output.numerator@),
                evals(gkr.circuit_output.denominator@),
            ),
            rounds == round_vals(gkr.round_proofs@),
            w.at(challenger@) == walk(start, rounds, v, i as nat),
            walk_refusals(start, rounds, v, o, i as nat) is None,
            w.eval_point@.len() == vars + i,
        decreases count - i,
    {
        let round = &gkr.round_proofs[i];
        let ghost st = w.at(challenger@);
        let ghost rv = rounds[i as int];
        let points: usize = w.eval_point.len();
        proof {
            if vars == 0 && i > 0 {
                walk_refusals_stay(start, rounds, v, o, 1, i as nat);
            }
            assert(rv == round_val(*round));
            if walk_refusal(st, rv, i as nat, v, o) is Some {
                walk_refusals_stay(start, rounds, v, o, (i + 1) as nat, count as nat);
            }
        }
        let lambda = challenger.sample_algebra_element();
        let expected = lambda.times(w.numerator_eval).plus(w.denominator_eval);
        if !round.sumcheck_proof.claimed_sum.same(&expected) {
            return Err(
                BasefoldVerifyError::LogupGkr(
                    message1("round ", i, ": sumcheck claimed_sum mismatch"),
                ),
            );
        }
        match verify_sumcheck_host(&round.sumcheck_proof, challenger, points, 3) {
            Err(e) => {
                return Err(e);
            },
            Ok(_) => {},
        }
        let sumcheck_point = &round.sumcheck_proof.point_and_eval.0;
        proof {
            assert(rv.sumcheck.point.len() == sumcheck_point@.len());
        }
        let eq_val = match o {
            FoldOrientation::Msb => eq_eval_host(
                sumcheck_point.as_slice(),
                w.eval_point.as_slice(),
            ),
            FoldOrientation::Lsb => {
                let rev = reversed(w.eval_point.as_slice());
                eq_eval_host(sumcheck_point.as_slice(), rev.as_slice())
            },
        };
        let (n0, n1) = (round.numerator_0, round.numerator_1);
        let (d0, d1) = (round.denominator_0, round.denominator_1);
        let cross = n0.times(d1).plus(n1.times(d0));
        let expected_final = eq_val.times(lambda.times(cross).plus(d0.times(d1)));
        if !round.sumcheck_proof.point_and_eval.1.same(&expected_final) {
            return Err(
                BasefoldVerifyError::LogupGkr(
                    message1("round ", i, ": final_eval identity failed"),
                ),
            );
        }
        proof {
            assert(walk_refusal(st, rv, i as nat, v, o) is None);
            if vars == 0 {
                assert(walk_refusals(start, rounds, v, o, 0) is None);
                assert(walk_refusals(start, rounds, v, o, 1) == walk_refusal(
                    walk(start, rounds, v, 0),
                    rounds[0],
                    0,
                    v,
                    o,
                ));
            }
        }
        w = w.advance(round, vars, challenger);
        proof {
            assert(w.at(challenger@) == walk_step(st, rv, v));
        }
        i = i + 1;
    }
    Ok(w)
}

/// Why a proof of the lookup argument is refused before its challenges are drawn, if it is:
/// the shape of the circuit's output, then the proof of work.
pub open spec fn opening_refusal(gkr: LogupGkrProof, bits: nat, s: Sponge) -> Option<Seq<char>> {
    let shape = output_refusal(
        gkr.circuit_output.numerator@.len(),
        gkr.circuit_output.denominator@.len(),
    );
    if shape is Some {
        shape
    } else if !s.pow_ok(bits, gkr.witness@) {
        Some("GKR grinding witness check failed"@)
    } else {
        None
    }
}

/// Whether digests of public values can be asked for.
pub open spec fn digests<D: Fn(Ext, &Vec<Ext>, &Vec<Felt>) -> Ext>(digest: D) -> bool {
    forall|a: Ext, b: &Vec<Ext>, p: &Vec<Felt>| #[trigger] digest.requires((a, b, p))
}

/// Whether the lookups are balanced against `d`: the digest of the public values under the
/// challenges where some lookup is closed by them, else zero.
pub open spec fn digest_given<D: Fn(Ext, &Vec<Ext>, &Vec<Felt>) -> Ext>(
    digest: D,
    has_pv_buses: bool,
    alpha: E4,
    betas: Seq<E4>,
    public_values: Vec<Felt>,
    d: E4,
) -> bool {
    if has_pv_buses {
        exists|a: Ext, b: &Vec<Ext>, x: Ext|
            {
                &&& a@ == alpha
                &&& evals(b@) == betas
                &&& #[trigger] digest.ensures((a, b, &public_values), x)
                &&& x@ == d
            }
    } else {
        d == e_zero()
    }
}

/// Whether the lookup argument may be checked from drawn challenges on: the output has more
/// than one entry unless the first round is refused, and the lookups read only columns of
/// the openings. Each is asked only where nothing was refused before.
pub open spec fn gkr_fits(
    gkr: LogupGkrProof,
    chips: Seq<ShardChip>,
    opened: Seq<ChipOpenedValues>,
    max_log_row_count: nat,
    o: FoldOrientation,
    pv_digest: E4,
    s: Sponge,
) -> bool {
    let n = evals(gkr.circuit_output.numerator@);
    let d = evals(gkr.circuit_output.denominator@);
    let vars = ceil_log2_of(n.len());
    let k = gkr.round_proofs@.len();
    fraction_sum(n, d, n.len()) == e_zero() - pv_digest && k + 1 == max_log_row_count ==> {
        &&& n.len() > 1 || first_round_refused(gkr, o, s)
        &&& walk_refusals(walk_start(s, n, d), round_vals(gkr.round_proofs@), vars, o, k) is None
            ==> openings_fit(
            chips,
            opened,
            evals(gkr.logup_evaluations.point@),
            gkr.logup_evaluations.chip_openings@,
            walk_end(gkr, s).point,
            (vars - 1) as nat,
        )
    }
}

/// Whether the lookup argument may be checked: no denominator of the output is zero, and the
/// rest fits, where nothing was refused before.
pub open spec fn gkr_ready<D: Fn(Ext, &Vec<Ext>, &Vec<Felt>) -> Ext>(
    gkr: LogupGkrProof,
    chips: Seq<ShardChip>,
    opened: Seq<ChipOpenedValues>,
    max_log_row_count: nat,
    dim: nat,
    o: FoldOrientation,
    public_values: Vec<Felt>,
    has_pv_buses: bool,
    bits: nat,
    digest: D,
    s: Sponge,
) -> bool {
    let w = gkr.witness@;
    opening_refusal(gkr, bits, s) is None ==> {
        &&& forall|i: int|
            0 <= i < gkr.circuit_output.denominator@.len() ==> (
            #[trigger] gkr.circuit_output.denominator@[i])@ != e_zero()
        &&& forall|d: E4| #[trigger]
            digest_given(
                digest,
                has_pv_buses,
                s.after_pow(bits, w).drawn_ext(),
                challenge_weights(s, bits, w, dim),
                public_values,
                d,
            ) ==> gkr_fits(
                gkr,
                chips,
                opened,
                max_log_row_count,
                o,
                d,
                challenges_sponge(s, bits, w, dim),
            )
    }
}

/// Whether the verification of the lookup argument may end so: the output's shape and the
/// proof of work are checked, the challenges drawn, the digest of the public values taken
/// under them, then the balance, the rounds and the last layer are checked and the openings
/// absorbed.
pub open spec fn logup_answer<D: Fn(Ext, &Vec<Ext>, &Vec<Felt>) -> Ext>(
    gkr: LogupGkrProof,
    chips: Seq<ShardChip>,
    opened: Seq<ChipOpenedValues>,
    max_log_row_count: nat,
    dim: nat,
    o: FoldOrientation,
    public_values: Vec<Felt>,
    has_pv_buses: bool,
    bits: nat,
    digest: D,
    s: Sponge,
    r: Result<(), ShardRefusal>,
    end: Sponge,
) -> bool {
    let w = gkr.witness@;
    let alpha = s.after_pow(bits, w).drawn_ext();
    let betas = challenge_weights(s, bits, w, dim);
    let s1 = challenges_sponge(s, bits, w, dim);
    match opening_refusal(gkr, bits, s) {
        Some(e) => r == Result::<(), ShardRefusal>::Err(ShardRefusal::LogupGkr(e)),
        None => exists|d: E4|
            {
                &&& #[trigger] digest_given(
                    digest,
                    has_pv_buses,
                    alpha,
                    betas,
                    public_values,
                    d,
                )
                &&& match gkr_refusal(
                    gkr,
                    chips,
                    opened,
                    max_log_row_count,
                    o,
                    alpha,
                    betas,
                    d,
                    s1,
                ) {
                    Some(e) => r == Result::<(), ShardRefusal>::Err(ShardRefusal::LogupGkr(e)),
                    None => {
                        &&& r is Ok
                        &&& end == observe_openings(
                            walk_end(gkr, s1).sponge,
                            chips.len(),
                            gkr_pairs(gkr.logup_evaluations.chip_openings@),
                        )
                    },
                }
            },
    }
}

/// Verifies a proof of the lookup argument against the public values, whose digest under
/// the drawn challenges `digest` gives, and absorbs the openings. A denominator of zero in
/// the circuit's output has no inverse.
pub fn verify_logup_gkr_host<D: Fn(Ext, &Vec<Ext>, &Vec<Felt>) -> Ext>(
    gkr: &LogupGkrProof,
    chips: &Vec<ShardChip>,
    opened_values: &Vec<ChipOpenedValues>,
    max_log_row_count: usize,
    beta_seed_dim: usize,
    fold_orientation: FoldOrientation,
    public_values: &Vec<Felt>,
    machine_has_pv_buses: bool,
    grinding_bits: usize,
    challenger: &mut Transcript,
    digest: D,
) -> (r: Result<(), BasefoldVerifyError>)
    requires
        old(challenger).wf(),
        gkr.logup_evaluations.wf(),
        grinding_bits <= 30,
        pow2(beta_seed_dim as nat) <= usize::MAX,
        digests(digest),
        gkr_ready(
            *gkr,
            chips@,
            opened_values@,
            max_log_row_count as nat,
            beta_seed_dim as nat,
            fold_orientation,
            *public_values,
            machine_has_pv_buses,
            grinding_bits as nat,
            digest,
            old(challenger)@,
        ),
    ensures
        final(challenger).wf(),
        logup_answer(
            *gkr,
            chips@,
            opened_values@,
            max_log_row_count as nat,
            beta_seed_dim as nat,
            fold_orientation,
            *public_values,
            machine_has_pv_buses,
            grinding_bits as nat,
            digest,
            old(challenger)@,
            answer_val(r),
            final(challenger)@,
        ),
{
    let ghost s = challenger@;
    let ghost bits = grinding_bits as nat;
    let ghost dim = beta_seed_dim as nat;
    let challenges = match sample_logup_challenges(
        gkr,
        grinding_bits,
        beta_seed_dim,
        challenger,
    ) {
        Err(e) => {
            return Err(e);
        },
        Ok(c) => c,
    };
    let pv_digest = if machine_has_pv_buses {
        let x = digest(challenges.alpha, &challenges.betas, public_values);
        proof {
            assert(digest.ensures((challenges.alpha, &challenges.betas, public_values), x));
        }
        x
    } else {
        Ext::zero()
    };
    proof {
        lemma_pow2_pos(dim);
        assert(digest_given(
            digest,
            machine_has_pv_buses,
            s.after_pow(bits, gkr.witness@).drawn_ext(),
            challenge_weights(s, bits, gkr.witness@, dim),
            *public_values,
            pv_digest@,
        ));
    }
    verify_balanced_gkr(
        gkr,
        chips,
        opened_values,
        max_log_row_count,
        fold_orientation,
        &challenges,
        pv_digest,
        challenger,
    )
}

/// Verifies a proof of the lookup argument under drawn challenges, against the digest of
/// the public values (zero where no lookup is closed by them), and absorbs the openings.
/// A denominator of zero in the circuit's output has no inverse.
pub fn verify_balanced_gkr(
    gkr: &LogupGkrProof,
    chips: &Vec<ShardChip>,
    opened_values: &Vec<ChipOpenedValues>,
    max_log_row_count: usize,
    fold_orientation: FoldOrientation,
    challenges: &LogupChallenges,
    pv_digest: Ext,
    challenger: &mut Transcript,
) -> (r: Result<(), BasefoldVerifyError>)
    requires
        old(challenger).wf(),
        gkr.circuit_output.numerator@.len() == gkr.circuit_output.denominator@.len(),
        is_pow2(gkr.circuit_output.numerator@.len()),
        forall|i: int|
            0 <= i < gkr.circuit_output.denominator@.len() ==> (
            #[trigger] gkr.circuit_output.denominator@[i])@ != e_zero(),
        challenges.betas@.len() > 0,
        gkr_fits(
            *gkr,
            chips@,
            opened_values@,
            max_log_row_count as nat,
            fold_orientation,
            pv_digest@,
            old(challenger)@,
        ),
    ensures
        final(challenger).wf(),
        ({
            let why = gkr_refusal(
                *gkr,
                chips@,
                opened_values@,
                max_log_row_count as nat,
                fold_orientation,
                challenges.alpha@,
                evals(challenges.betas@),
                pv_digest@,
                old(challenger)@,
            );
            match r {
                Ok(_) => {
                    &&& why is None
                    &&& final(challenger)@ == observe_openings(
                        walk_end(*gkr, old(challenger)@).sponge,
                        chips@.len(),
                        gkr_pairs(gkr.logup_evaluations.chip_openings@),
                    )
                },
                Err(e) => why is Some && e@ == ShardRefusal::LogupGkr(why->0),
            }
        }),
{
    let output = &gkr.circuit_output;
    let count: usize = gkr.round_proofs.len();
    proof {
        assert(evals(output.numerator@).len() == output.numerator@.len());
    }
    let gkr_sum = sum_fractions(&output.numerator, &output.denominator);
    if !gkr_sum.same(&Ext::zero().minus(pv_digest)) {
        return Err(
            gkr_error(
                "public-values balance failed (sum circuit_output num/den != -PV_digest)",
            ),
        );
    }
    if max_log_row_count == 0 || count != max_log_row_count - 1 {
        return Err(
            BasefoldVerifyError::LogupGkr(
                message2(
                    "GKR round count ",
                    count,
                    " + 1 != max_log_row_count ",
                    max_log_row_count,
                    " (proof must be padded to the fixed round count)",
                ),
            ),
        );
    }
    let vars: usize = ceil_log2(output.numerator.len());
    proof {
        lemma2_to64();
        if vars == 0 {
            ceil_log2_is_least(output.numerator@.len());
        }
    }
    let w = match walk_rounds(gkr, vars, fold_orientation, challenger) {
        Err(e) => {
            return Err(e);
        },
        Ok(w) => w,
    };
    proof {
        if vars == 0 {
            walk_refusals_stay(
                walk_start(
                    old(challenger)@,
                    evals(output.numerator@),
                    evals(output.denominator@),
                ),
                round_vals(gkr.round_proofs@),
                0,
                fold_orientation,
                1,
                count as nat,
            );
        }
        lemma_pow2_unfold(vars as nat);
        assert(pow2((vars - 1) as nat) <= usize::MAX);
    }
    match check_last_layer(
        chips,
        opened_values,
        &gkr.logup_evaluations,
        &w.eval_point,
        w.numerator_eval,
        w.denominator_eval,
        challenges,
        vars - 1,
    ) {
        Err(e) => {
            return Err(e);
        },
        Ok(_) => {},
    }
    observe_logup_gkr_openings(challenger, chips.len(), &gkr.logup_evaluations);
    Ok(())
}

/// A proof of the lookup argument with another number of rounds than the verifier's row count
/// asks for is refused, whatever else it holds.
pub proof fn other_round_counts_are_refused<D: Fn(Ext, &Vec<Ext>, &Vec<Felt>) -> Ext>(
    gkr: LogupGkrProof,
    chips: Seq<ShardChip>,
    opened: Seq<ChipOpenedValues>,
    max_log_row_count: nat,
    dim: nat,
    o: FoldOrientation,
    public_values: Vec<Felt>,
    has_pv_buses: bool,
    bits: nat,
    digest: D,
    s: Sponge,
    r: Result<(), ShardRefusal>,
    end: Sponge,
)
    requires
        logup_answer(
            gkr,
            chips,
            opened,
            max_log_row_count,
            dim,
            o,
            public_values,
            has_pv_buses,
            bits,
            digest,
            s,
            r,
            end,
        ),
        gkr.round_proofs@.len() + 1 != max_log_row_count,
    ensures
        r is Err,
        r->Err_0 is LogupGkr,
{
}

} // verus!
