//! The rounds of a WHIR verifier over an interleaved commitment.
//!
//! A round replays its messages, redraws the out-of-domain points of the folded
//! polynomial, and opens the previous codeword at drawn indices. An opened row,
//! folded at the round's challenges, is a monomial evaluation of the folded
//! polynomial, so it joins the claim as one more constraint. The last round opens
//! the last codeword against the revealed polynomial, and the terminal identity
//! closes the claim.
use vstd::prelude::*;
use vstd::arithmetic::power2::{lemma2_to64, pow2};
use crate::arith::pow2_le;
use crate::dft::{domain_generator, domain_point, two_adic_generator};
use crate::ext::{e_pow, epoints, evals, fvals, Ext, E4};
use crate::merkle::Digest;
use crate::mle::{mle_eval, mono_value, pow_point, pow_point_len};
use crate::multilinear::eval_at;
use crate::transcript::{Sponge, Transcript};
use crate::whir::config::{folded_vars, folded_vars_monotone, pow_bits_get, RoundConfig, WhirConfig};
use crate::whir::messages::{leaves_val, polys_val, pows_val, shape_error, LeafOpening, ProofVal,
    SumcheckPoly, WhirProof, WhirRefusal, WhirVerifierError};
use crate::whir::monomial::{map_to_pow_lsb, mono_eval_lsb};
use crate::whir::queries::{open_query, query_refusal, query_row, Source, SourceVal};
use crate::whir::replay::{absorb_message, check_message, message_mismatch, ood_points_of, ood_sponge, push_terms, replay_ood,
    replay_refusal, replay_refusal_stays, replay_run, terminal_sum, terminal_value,
    term_fits, terms_of, terms_val, Constraint, Replay, Term};
use crate::whir::sumcheck::{add_batched, batch_coeffs, batched_claim, powers_from};

verus! {

/// The words of a verifier's refusals.
pub struct WordsVal {
    pub messages: Seq<char>,
    pub degree: Seq<char>,
    pub openings: Seq<char>,
    pub rows: Option<Seq<char>>,
}

/// The words of a verifier's refusals.
pub struct Words {
    /// A round has the wrong number of messages.
    pub messages: &'static str,
    /// A message has the wrong number of coefficients.
    pub degree: &'static str,
    /// A query phase has the wrong number of openings.
    pub openings: &'static str,
    /// A leaf has the wrong number of rows, where that is checked ahead of its tree.
    pub rows: Option<&'static str>,
}

impl View for Words {
    type V = WordsVal;

    open spec fn view(&self) -> WordsVal {
        WordsVal {
            messages: self.messages@,
            degree: self.degree@,
            openings: self.openings@,
            rows: match self.rows {
                Some(s) => Some(s@),
                None => None,
            },
        }
    }
}

/// What a verifier works on: the schedule over `n` variables, the starting
/// codeword, the proof, the root that the final queries open, and its words.
pub struct Instance {
    pub n: nat,
    pub rounds: Seq<RoundConfig>,
    pub start_rate: nat,
    pub final_queries: nat,
    pub final_pow_bits: nat,
    pub start: SourceVal,
    pub proof_val: ProofVal,
    pub final_root: Seq<int>,
    pub words: WordsVal,
}

/// The verifier's state between rounds.
pub struct VState {
    pub sponge: Sponge,
    pub claim: E4,
    pub challenges: Seq<E4>,
    pub terms: Seq<Term>,
}

/// The number of variables left of `n` after `r` rounds.
pub open spec fn left_of(n: nat, rounds: Seq<RoundConfig>, r: int) -> nat {
    (n - folded_vars(rounds, r)) as nat
}

/// The logarithm of the inverse rate of the codeword that round `r` opens.
pub open spec fn rate_of(rounds: Seq<RoundConfig>, start_rate: nat, r: int) -> nat {
    if r == 0 {
        start_rate
    } else {
        rounds[r - 1].log_inv_rate as nat
    }
}

/// Whether a schedule is within machine and field limits. A query into the starting
/// codeword opens `per_start` leaves.
#[verifier::opaque]
pub open spec fn schedule_fits(
    n: nat,
    rounds: Seq<RoundConfig>,
    start_rate: nat,
    final_queries: nat,
    final_pow_bits: nat,
    per_start: nat,
) -> bool {
    let m = rounds.len();
    &&& m > 0
    &&& folded_vars(rounds, m as int) <= n <= usize::MAX
    &&& pow2(left_of(n, rounds, m as int)) <= usize::MAX
    &&& final_pow_bits <= 30
    &&& forall|r: int|
        0 <= r < m ==> {
            &&& (#[trigger] rounds[r]).feasible()
            &&& pow2(rounds[r].folding_factor as nat) * 4 <= usize::MAX
            &&& left_of(n, rounds, r + 1) + rate_of(rounds, start_rate, r) <= 26
            &&& rounds[r].num_queries * (if r == 0 {
                per_start
            } else {
                1
            }) <= usize::MAX
        }
    &&& final_queries * (if m == 1 {
        per_start
    } else {
        1
    }) <= usize::MAX
}

/// Whether a proof has an entry for everything that a schedule asks of it.
pub open spec fn has_all_entries(rounds: Seq<RoundConfig>, p: ProofVal) -> bool {
    let m = rounds.len();
    &&& p.polys.len() >= m - 1
    &&& p.roots.len() >= m - 1
    &&& p.ood_answers.len() >= m - 1
    &&& p.openings.len() >= m - 1
    &&& p.openings.len() > 0
    &&& p.pows.len() >= folded_vars(rounds, m as int) + m - 1
}

impl Instance {
    /// The number of rounds.
    pub open spec fn m(self) -> nat {
        self.rounds.len()
    }

    /// The number of variables folded in round `r`.
    pub open spec fn fold(self, r: int) -> nat {
        self.rounds[r].folding_factor as nat
    }

    /// The number of variables left after `r` rounds.
    pub open spec fn left(self, r: int) -> nat {
        left_of(self.n, self.rounds, r)
    }

    /// The number of variables of the revealed polynomial.
    pub open spec fn last(self) -> nat {
        self.left(self.m() as int)
    }

    /// The logarithm of the inverse rate of the codeword that round `r` opens.
    pub open spec fn rate(self, r: int) -> nat {
        rate_of(self.rounds, self.start_rate, r)
    }

    /// The logarithm of the height of the codeword that round `r` opens.
    pub open spec fn codeword_log(self, r: int) -> nat {
        self.left(r + 1) + self.rate(r)
    }

    /// The codeword that round `r` opens.
    pub open spec fn source(self, r: int) -> SourceVal {
        if r == 0 {
            self.start
        } else {
            SourceVal::Single(self.proof_val.roots[r - 1], false)
        }
    }

    /// The codeword that the final queries open.
    pub open spec fn final_source(self) -> SourceVal {
        if self.m() == 1 {
            self.start
        } else {
            SourceVal::Single(self.final_root, false)
        }
    }

    /// The proofs of work from round `r` on.
    pub open spec fn pows_from(self, r: int) -> Seq<int> {
        self.proof_val.pows.skip(folded_vars(self.rounds, r) + r)
    }

    /// The messages of round `r`.
    pub open spec fn msgs(self, r: int) -> Seq<Seq<E4>> {
        if r + 1 == self.m() {
            self.proof_val.final_polys
        } else {
            self.proof_val.polys[r]
        }
    }

    /// The schedule fits, and the starting codeword is consistent.
    pub open spec fn fits(self) -> bool {
        &&& schedule_fits(
            self.n,
            self.rounds,
            self.start_rate,
            self.final_queries,
            self.final_pow_bits,
            self.start.leaves_per_query(),
        )
        &&& self.start.consistent()
    }

    /// The state after the messages of round `r`.
    pub open spec fn after_folds(self, st: VState, r: int) -> VState {
        let e = replay_run(
            Replay { sponge: st.sponge, claim: st.claim, challenges: st.challenges },
            self.msgs(r),
            self.rounds[r].pow_bits@,
            self.pows_from(r),
            self.fold(r),
        );
        VState { sponge: e.sponge, claim: e.claim, challenges: e.challenges, terms: st.terms }
    }

    /// Why the messages of round `r` are refused, if they are.
    pub open spec fn folds_refusal(self, st: VState, r: int) -> Option<WhirRefusal> {
        if self.msgs(r).len() != self.fold(r) {
            Some(WhirRefusal::IncorrectShape(self.words.messages))
        } else {
            replay_refusal(
                Replay { sponge: st.sponge, claim: st.claim, challenges: st.challenges },
                self.msgs(r),
                self.rounds[r].pow_bits@,
                self.pows_from(r),
                self.fold(r),
                r,
                self.words.degree,
            )
        }
    }

    /// The transcript after the root of round `r`.
    pub open spec fn root_sponge(self, st: VState, r: int) -> Sponge {
        st.sponge.observe_all(self.proof_val.roots[r])
    }

    /// The out-of-domain points of round `r`, where `st` is the state after its
    /// messages.
    pub open spec fn ood_points(self, st: VState, r: int) -> Seq<Seq<E4>> {
        ood_points_of(
            self.root_sponge(st, r),
            self.proof_val.ood_answers[r],
            self.left(r + 1),
        )
    }

    /// The transcript before the query proof of work of round `r`.
    pub open spec fn pow_sponge(self, st: VState, r: int) -> Sponge {
        ood_sponge(
            self.root_sponge(st, r),
            self.proof_val.ood_answers[r],
            self.left(r + 1),
            self.proof_val.ood_answers[r].len(),
        )
    }

    /// The proof of work before the queries of round `r`.
    pub open spec fn query_pow(self, r: int) -> int {
        self.pows_from(r)[self.fold(r) as int]
    }

    /// The transcript from which the query indices of round `r` are drawn.
    pub open spec fn index_sponge(self, st: VState, r: int) -> Sponge {
        self.pow_sponge(st, r).after_pow(
            self.rounds[r].queries_pow_bits as nat,
            self.query_pow(r),
        )
    }

    /// The query indices of round `r`.
    pub open spec fn indices(self, st: VState, r: int) -> Seq<int> {
        self.index_sponge(st, r).drawn_indices(
            self.codeword_log(r),
            self.rounds[r].num_queries as nat,
        )
    }

    /// The challenges of round `r`, where `st` is the state after its messages.
    pub open spec fn own_challenges(self, st: VState, r: int) -> Seq<E4> {
        st.challenges.skip(st.challenges.len() - self.fold(r))
    }

    /// Why the first `k` queries of round `r` are refused, if they are.
    pub open spec fn queries_refusal(self, st: VState, r: int, k: nat) -> Option<WhirRefusal>
        decreases k,
    {
        if k == 0 {
            None
        } else {
            match self.queries_refusal(st, r, (k - 1) as nat) {
                Some(e) => Some(e),
                None => query_refusal(
                    self.source(r),
                    self.fold(r),
                    self.codeword_log(r),
                    self.indices(st, r)[k - 1] as nat,
                    self.proof_val.openings[r],
                    (k - 1) as nat,
                    self.words.rows,
                    "merkle"@,
                ),
            }
        }
    }

    /// The values that the opened rows of round `r` fold to.
    pub open spec fn stir_values(self, st: VState, r: int) -> Seq<E4> {
        Seq::new(
            self.rounds[r].num_queries as nat,
            |q: int|
                mle_eval(
                    query_row(self.source(r), self.fold(r), self.proof_val.openings[r], q as nat),
                    self.own_challenges(st, r),
                ),
        )
    }

    /// The points at which the opened rows of round `r` are monomial evaluations.
    pub open spec fn stir_points(self, st: VState, r: int) -> Seq<Seq<E4>> {
        Seq::new(
            self.rounds[r].num_queries as nat,
            |q: int|
                pow_point(
                    domain_point(self.codeword_log(r), self.indices(st, r)[q] as nat),
                    self.left(r + 1),
                ),
        )
    }

    /// The transcript from which the batching challenge of round `r` is drawn.
    pub open spec fn batch_sponge(self, st: VState, r: int) -> Sponge {
        self.index_sponge(st, r).after_draws(self.rounds[r].num_queries as nat)
    }

    /// Why the queries of round `r` are refused, if they are: the proof of work,
    /// the number of openings, then the openings in order.
    pub open spec fn opening_refusal(self, st: VState, r: int) -> Option<WhirRefusal> {
        let nq = self.rounds[r].num_queries as nat;
        if !self.pow_sponge(st, r).pow_ok(
            self.rounds[r].queries_pow_bits as nat,
            self.query_pow(r),
        ) {
            Some(WhirRefusal::PowMismatch(r, usize::MAX as int))
        } else if self.proof_val.openings[r].len() != nq * self.source(r).leaves_per_query() {
            Some(WhirRefusal::IncorrectShape(self.words.openings))
        } else {
            self.queries_refusal(st, r, nq)
        }
    }

    /// The state after the queries of round `r`.
    pub open spec fn after_queries(self, st: VState, r: int) -> VState {
        let answers = self.proof_val.ood_answers[r];
        let batch = self.batch_sponge(st, r).drawn_ext();
        let a = answers.len();
        let q = self.rounds[r].num_queries as nat;
        let c1 = batch_coeffs(batch, batch, a);
        let c2 = batch_coeffs(e_pow(batch, a + 1), batch, q);
        VState {
            sponge: self.batch_sponge(st, r).after_draw_ext(),
            claim: batched_claim(
                batched_claim(st.claim, answers, c1, a as int),
                self.stir_values(st, r),
                c2,
                q as int,
            ),
            challenges: st.challenges,
            terms: st.terms + terms_of(false, self.ood_points(st, r), c1, self.left(r + 1))
                + terms_of(true, self.stir_points(st, r), c2, self.left(r + 1)),
        }
    }

    /// The state after `r` whole rounds.
    pub open spec fn run(self, start: VState, r: int) -> VState
        decreases r,
    {
        if r <= 0 {
            start
        } else {
            self.after_queries(self.after_folds(self.run(start, r - 1), r - 1), r - 1)
        }
    }

    /// Why one of the first `r` whole rounds is refused, if one is.
    pub open spec fn run_refusal(self, start: VState, r: int) -> Option<WhirRefusal>
        decreases r,
    {
        if r <= 0 {
            None
        } else {
            match self.run_refusal(start, r - 1) {
                Some(e) => Some(e),
                None => {
                    let st = self.run(start, r - 1);
                    match self.folds_refusal(st, r - 1) {
                        Some(e) => Some(e),
                        None => self.opening_refusal(self.after_folds(st, r - 1), r - 1),
                    }
                },
            }
        }
    }

    /// The state after the messages of the last round.
    pub open spec fn end(self, start: VState) -> VState {
        self.after_folds(self.run(start, self.m() - 1), self.m() - 1)
    }

    /// The transcript from which the final query indices are drawn.
    pub open spec fn final_sponge(self, end: VState) -> Sponge {
        end.sponge.after_pow(self.final_pow_bits, self.proof_val.final_pow)
    }

    /// The final query indices.
    pub open spec fn final_indices(self, end: VState) -> Seq<int> {
        self.final_sponge(end).drawn_indices(
            self.codeword_log(self.m() - 1),
            self.final_queries,
        )
    }

    /// Why the first `k` final queries are refused, if they are: an opening that
    /// does not authenticate, or a row that does not fold to the revealed
    /// polynomial's value.
    pub open spec fn final_queries_refusal(self, end: VState, k: nat) -> Option<WhirRefusal>
        decreases k,
    {
        if k == 0 {
            None
        } else {
            let q = (k - 1) as nat;
            let r = self.m() - 1;
            let index = self.final_indices(end)[k - 1] as nat;
            match self.final_queries_refusal(end, q) {
                Some(e) => Some(e),
                None => match query_refusal(
                    self.final_source(),
                    self.fold(r),
                    self.codeword_log(r),
                    index,
                    self.proof_val.openings.last(),
                    q,
                    None,
                    "final merkle"@,
                ) {
                    Some(e) => Some(e),
                    None => if mle_eval(
                        query_row(
                            self.final_source(),
                            self.fold(r),
                            self.proof_val.openings.last(),
                            q,
                        ),
                        self.own_challenges(end, r),
                    ) != mono_value(
                        self.proof_val.final_poly,
                        pow_point(domain_point(self.codeword_log(r), index), self.last()),
                    ) {
                        Some(WhirRefusal::TerminalMismatch)
                    } else {
                        None
                    },
                },
            }
        }
    }

    /// Why the end of the proof is refused, if it is.
    pub open spec fn end_refusal(self, end: VState) -> Option<WhirRefusal> {
        if !end.sponge.pow_ok(self.final_pow_bits, self.proof_val.final_pow) {
            Some(WhirRefusal::PowMismatch(self.m() as int, usize::MAX as int))
        } else if self.proof_val.openings.last().len() != self.final_queries
            * self.final_source().leaves_per_query() {
            Some(WhirRefusal::IncorrectShape("final query count"@))
        } else {
            match self.final_queries_refusal(end, self.final_queries) {
                Some(e) => Some(e),
                None => if terminal_sum(
                    end.terms,
                    self.n,
                    self.last(),
                    end.challenges,
                    self.proof_val.final_poly,
                    end.terms.len(),
                ) != end.claim {
                    Some(WhirRefusal::TerminalMismatch)
                } else {
                    None
                },
            }
        }
    }

    /// Whether the proof of work of message `var` of round `r` is looked up, where `st` is
    /// the state before the round: the messages before are accepted, and this one agrees
    /// with the claim.
    pub open spec fn pow_sought(self, st: VState, r: int, var: nat) -> bool {
        let begin = Replay { sponge: st.sponge, claim: st.claim, challenges: st.challenges };
        let msgs = self.msgs(r);
        let bits = self.rounds[r].pow_bits@;
        let pows = self.pows_from(r);
        let what = self.words.degree;
        &&& msgs.len() == self.fold(r)
        &&& replay_refusal(begin, msgs, bits, pows, var, r, what) is None
        &&& message_mismatch(
            replay_run(begin, msgs, bits, pows, var).claim,
            msgs[var as int],
            r,
            var as int,
            what,
        ) is None
    }

    /// Whether the proof has an entry wherever round `r` looks one up, where `st` is the
    /// state before the round. What follows a refusal is not looked up.
    pub open spec fn round_found(self, st: VState, r: int) -> bool {
        let p = self.proof_val;
        let at = folded_vars(self.rounds, r) + r;
        &&& r + 1 < self.m() ==> r < p.polys.len()
        &&& forall|var: nat|
            var < self.fold(r) && #[trigger] self.pow_sought(st, r, var) ==> at + var
                < p.pows.len()
        &&& r + 1 < self.m() && self.folds_refusal(st, r) is None ==> {
            &&& r < p.roots.len()
            &&& r < p.ood_answers.len()
            &&& at + self.fold(r) < p.pows.len()
            &&& self.pow_sponge(self.after_folds(st, r), r).pow_ok(
                self.rounds[r].queries_pow_bits as nat,
                self.query_pow(r),
            ) ==> r < p.openings.len()
        }
    }

    /// Whether the final queries are reached.
    pub open spec fn end_reached(self, start: VState) -> bool {
        &&& self.run_refusal(start, self.m() - 1) is None
        &&& self.folds_refusal(self.run(start, self.m() - 1), self.m() - 1) is None
        &&& self.end(start).sponge.pow_ok(self.final_pow_bits, self.proof_val.final_pow)
    }

    /// Whether the proof has an entry wherever one is looked up. What follows a refusal is
    /// not looked up.
    #[verifier::opaque]
    pub open spec fn entries_found(self, start: VState) -> bool {
        &&& forall|r: int|
            0 <= r < self.m() && (#[trigger] self.run_refusal(start, r)) is None
                ==> self.round_found(self.run(start, r), r)
        &&& self.end_reached(start) ==> self.proof_val.openings.len() > 0
    }

    /// Why a proof whose revealed polynomial has the right size is refused, if it is.
    pub open spec fn refusal(self, start: VState) -> Option<WhirRefusal> {
        match self.run_refusal(start, self.m() - 1) {
            Some(e) => Some(e),
            None => {
                let st = self.run(start, self.m() - 1);
                match self.folds_refusal(st, self.m() - 1) {
                    Some(e) => Some(e),
                    None => self.end_refusal(self.end(start)),
                }
            },
        }
    }
}

/// What fitting says of the whole schedule.
pub proof fn fits_overall(inst: Instance)
    requires
        inst.fits(),
    ensures
        inst.m() > 0,
        folded_vars(inst.rounds, inst.m() as int) <= inst.n <= usize::MAX,
        pow2(inst.last()) <= usize::MAX,
        inst.final_pow_bits <= 30,
        inst.final_queries * inst.final_source().leaves_per_query() <= usize::MAX,
{
    reveal(schedule_fits);
}

/// What fitting says of round `r`.
pub proof fn fits_round(inst: Instance, r: int)
    requires
        inst.fits(),
        0 <= r < inst.m(),
    ensures
        inst.rounds[r].feasible(),
        pow2(inst.fold(r)) * 4 <= usize::MAX,
        inst.codeword_log(r) <= 26,
        inst.rounds[r].num_queries * inst.source(r).leaves_per_query() <= usize::MAX,
        folded_vars(inst.rounds, r + 1) == folded_vars(inst.rounds, r) + inst.fold(r),
        folded_vars(inst.rounds, r + 1) <= folded_vars(inst.rounds, inst.m() as int),
        folded_vars(inst.rounds, inst.m() as int) <= inst.n <= usize::MAX,
{
    reveal(schedule_fits);
    folded_vars_monotone(inst.rounds, r + 1, inst.m() as int);
    assert(inst.rounds[r].feasible());
}

/// A proof with all entries has an entry wherever one is looked up.
pub proof fn all_entries_are_found(inst: Instance, start: VState)
    requires
        has_all_entries(inst.rounds, inst.proof_val),
    ensures
        inst.entries_found(start),
{
    reveal(Instance::entries_found);
    assert forall|r: int|
        0 <= r < inst.m() && (#[trigger] inst.run_refusal(start, r)) is None implies inst.round_found(
        inst.run(start, r),
        r,
    ) by {
        folded_vars_monotone(inst.rounds, r + 1, inst.m() as int);
    }
}

/// Whether `inst` is the instance of the given arguments.
pub open spec fn instance_of(
    inst: Instance,
    config: WhirConfig,
    n: usize,
    start: Source,
    words: Words,
    whir: WhirProof,
) -> bool {
    &&& inst.n == n
    &&& inst.rounds == config.round_parameters@
    &&& inst.start_rate == config.starting_log_inv_rate
    &&& inst.final_queries == config.final_queries
    &&& inst.final_pow_bits == config.final_pow_bits
    &&& inst.start == start@
    &&& inst.words == words@
    &&& inst.proof_val == whir@
}

/// Replays the messages of round `r`: the claim after them, with their challenges
/// appended to `all`.
fn replay_round(
    config: &WhirConfig,
    n: usize,
    start: &Source,
    words: &Words,
    whir: &WhirProof,
    r: usize,
    pow_at: usize,
    claim: Ext,
    all: &mut Vec<Ext>,
    challenger: &mut Transcript,
    Ghost(inst): Ghost<Instance>,
    Ghost(st): Ghost<VState>,
) -> (res: Result<Ext, WhirVerifierError>)
    requires
        instance_of(inst, *config, n, *start, *words, *whir),
        inst.fits(),
        inst.round_found(st, r as int),
        r < inst.m(),
        pow_at == folded_vars(inst.rounds, r as int) + r,
        old(challenger).wf(),
        st.sponge == old(challenger)@,
        st.claim == claim@,
        st.challenges == evals(old(all)@),
    ensures
        final(challenger).wf(),
        match res {
            Ok(c) => {
                let end = inst.after_folds(st, r as int);
                &&& inst.folds_refusal(st, r as int) is None
                &&& final(challenger)@ == end.sponge
                &&& c@ == end.claim
                &&& evals(final(all)@) == end.challenges
                &&& final(all)@.len() == old(all)@.len() + inst.fold(r as int)
            },
            Err(e) => inst.folds_refusal(st, r as int) == Some(e@),
        },
{
    let cfg = &config.round_parameters[r];
    proof {
        fits_overall(inst);
        fits_round(inst, r as int);
        assert(inst.rounds[r as int] == *cfg);
        assert(whir@.pows.len() == whir.folding_pow@.len());
    }
    let pow_total: usize = whir.folding_pow.len();
    let m: usize = config.round_parameters.len();
    let msgs: &Vec<SumcheckPoly> = if r + 1 == m {
        &whir.final_sumcheck_polys
    } else {
        proof {
            assert(whir@.polys.len() == whir.round_sumcheck_polys@.len());
        }
        &whir.round_sumcheck_polys[r]
    };
    let ghost gm = inst.msgs(r as int);
    proof {
        assert(gm == polys_val(msgs@));
        assert(gm.len() == msgs@.len());
    }
    if msgs.len() != cfg.folding_factor {
        return Err(shape_error(words.messages));
    }
    let ghost begin = Replay { sponge: st.sponge, claim: st.claim, challenges: st.challenges };
    let ghost pows = inst.pows_from(r as int);
    let ghost bits = cfg.pow_bits@;
    let mut c = claim;
    let mut var: usize = 0;
    while var < msgs.len()
        invariant
            var <= msgs@.len(),
            msgs@.len() == cfg.folding_factor,
            cfg.folding_factor == inst.fold(r as int),
            gm == polys_val(msgs@),
            gm == inst.msgs(r as int),
            gm.len() == inst.fold(r as int),
            inst.rounds[r as int].pow_bits@ == bits,
            bits == cfg.pow_bits@,
            cfg.feasible(),
            pows == inst.pows_from(r as int),
            inst.proof_val == whir@,
            whir@.pows == pows_val(whir.folding_pow@),
            pow_at == folded_vars(inst.rounds, r as int) + r,
            inst.round_found(st, r as int),
            pow_total == whir.folding_pow@.len(),
            inst.words == words@,
            begin == (Replay { sponge: st.sponge, claim: st.claim, challenges: st.challenges }),
            challenger.wf(),
            replay_refusal(begin, gm, bits, pows, var as nat, r as int, words.degree@) is None,
            ({
                let at = replay_run(begin, gm, bits, pows, var as nat);
                &&& challenger@ == at.sponge
                &&& c@ == at.claim
                &&& evals(all@) == at.challenges
            }),
            all@.len() == old(all)@.len() + var,
        decreases msgs@.len() - var,
    {
        let b: usize = pow_bits_get(&cfg.pow_bits, var);
        let ghost at = replay_run(begin, gm, bits, pows, var as nat);
        proof {
            if var < bits.len() {
                assert(bits[var as int] <= 30);
            }
            assert(gm[var as int] == evals(msgs@[var as int].0@));
        }
        match check_message(c, &msgs[var], r, var, words.degree) {
            Err(e) => {
                proof {
                    replay_refusal_stays(
                        begin,
                        gm,
                        bits,
                        pows,
                        (var + 1) as nat,
                        gm.len(),
                        r as int,
                        words.degree@,
                    );
                }
                return Err(e);
            },
            Ok(_) => {},
        }
        proof {
            assert(inst.pow_sought(st, r as int, var as nat));
            assert(whir@.pows.len() == whir.folding_pow@.len());
            assert(msgs@[var as int].0@.len() == gm[var as int].len());
        }
        let pow = whir.folding_pow[pow_at + var].0;
        proof {
            assert(pows[var as int] == pow@);
        }
        let step = absorb_message(&msgs[var], b, pow, r, var, challenger);
        match step {
            Err(e) => {
                proof {
                    replay_refusal_stays(
                        begin,
                        gm,
                        bits,
                        pows,
                        (var + 1) as nat,
                        gm.len(),
                        r as int,
                        words.degree@,
                    );
                }
                return Err(e);
            },
            Ok((next, rc)) => {
                let ghost before = all@;
                c = next;
                all.push(rc);
                proof {
                    assert(evals(all@) =~= evals(before).push(rc@));
                }
            },
        }
        var = var + 1;
    }
    Ok(c)
}

/// A refusal among the first queries is the verdict on all of them.
proof fn queries_refusal_stays(inst: Instance, st: VState, r: int, j: nat, k: nat)
    requires
        j <= k,
        inst.queries_refusal(st, r, j) is Some,
    ensures
        inst.queries_refusal(st, r, k) == inst.queries_refusal(st, r, j),
    decreases k,
{
    if j < k {
        queries_refusal_stays(inst, st, r, j, (k - 1) as nat);
    }
}

/// Replays the queries of round `r`: the points and the values of the constraints
/// that they give.
fn replay_queries(
    src: &Source,
    fold: usize,
    log_height: usize,
    left: usize,
    indices: &Vec<usize>,
    leaves: &Vec<LeafOpening>,
    own: &[Ext],
    words: &Words,
    r: usize,
    Ghost(inst): Ghost<Instance>,
    Ghost(st): Ghost<VState>,
) -> (res: Result<(Vec<Vec<Ext>>, Vec<Ext>), WhirVerifierError>)
    requires
        inst.fits(),
        inst.words == words@,
        r + 1 < inst.m(),
        src@ == inst.source(r as int),
        src@.consistent(),
        fold == inst.fold(r as int),
        log_height == inst.codeword_log(r as int),
        left == inst.left(r + 1),
        indices@.len() == inst.rounds[r as int].num_queries,
        forall|q: int|
            0 <= q < indices@.len() ==> (#[trigger] indices@[q]) as int == inst.indices(
                st,
                r as int,
            )[q],
        leaves_val(leaves@) == inst.proof_val.openings[r as int],
        leaves@.len() == indices@.len() * src@.leaves_per_query(),
        evals(own@) == inst.own_challenges(st, r as int),
        own@.len() == fold,
    ensures
        match res {
            Ok((points, values)) => {
                &&& inst.queries_refusal(st, r as int, indices@.len()) is None
                &&& epoints(points@) == inst.stir_points(st, r as int)
                &&& evals(values@) == inst.stir_values(st, r as int)
                &&& points@.len() == indices@.len()
                &&& values@.len() == indices@.len()
                &&& forall|q: int| 0 <= q < points@.len() ==> (#[trigger] points@[q])@.len() == left
            },
            Err(e) => inst.queries_refusal(st, r as int, indices@.len()) == Some(e@),
        },
{
    proof {
        lemma2_to64();
        fits_round(inst, r as int);
        pow2_le(log_height as nat, 26);
    }
    let g = two_adic_generator(log_height);
    let mut points: Vec<Vec<Ext>> = Vec::new();
    let mut values: Vec<Ext> = Vec::new();
    let mut q: usize = 0;
    while q < indices.len()
        invariant
            q <= indices@.len(),
            inst.words == words@,
            src@ == inst.source(r as int),
            src@.consistent(),
            fold == inst.fold(r as int),
            log_height == inst.codeword_log(r as int),
            pow2(fold as nat) * 4 <= usize::MAX,
            log_height <= 26,
            left == inst.left(r + 1),
            indices@.len() == inst.rounds[r as int].num_queries,
            forall|q: int|
                0 <= q < indices@.len() ==> (#[trigger] indices@[q]) as int == inst.indices(
                    st,
                    r as int,
                )[q],
            leaves_val(leaves@) == inst.proof_val.openings[r as int],
            leaves@.len() == indices@.len() * src@.leaves_per_query(),
            evals(own@) == inst.own_challenges(st, r as int),
            own@.len() == fold,
            g@ == domain_generator(log_height as nat),
            inst.queries_refusal(st, r as int, q as nat) is None,
            points@.len() == q,
            values@.len() == q,
            forall|i: int|
                0 <= i < q ==> evals((#[trigger] points@[i])@) == inst.stir_points(st, r as int)[i],
            forall|i: int| 0 <= i < q ==> (#[trigger] points@[i])@.len() == left,
            forall|i: int|
                0 <= i < q ==> (#[trigger] values@[i])@ == inst.stir_values(st, r as int)[i],
        decreases indices@.len() - q,
    {
        let idx: usize = indices[q];
        proof {
            let lpq = src@.leaves_per_query();
            assert((q + 1) * lpq <= indices@.len() * lpq) by (nonlinear_arith)
                requires
                    q + 1 <= indices@.len(),
                    lpq >= 0,
            ;
        }
        let opened = open_query(src, fold, log_height, idx, leaves, q, words.rows, "merkle");
        match opened {
            Err(e) => {
                proof {
                    queries_refusal_stays(inst, st, r as int, (q + 1) as nat, indices@.len());
                }
                return Err(e);
            },
            Ok(row) => {
                let value = eval_at(row.as_slice(), own);
                let x = g.exp_u64(idx as u64);
                let point = map_to_pow_lsb(x, left);
                proof {
                    assert(evals(point@).len() == point@.len());
                    pow_point_len(x@, left as nat);
                    assert(evals(point@) == inst.stir_points(st, r as int)[q as int]);
                    assert(value@ == inst.stir_values(st, r as int)[q as int]);
                }
                points.push(point);
                values.push(value);
            },
        }
        q = q + 1;
    }
    proof {
        assert(epoints(points@) =~= inst.stir_points(st, r as int));
        assert(evals(values@) =~= inst.stir_values(st, r as int));
    }
    Ok((points, values))
}

/// Whether every constraint is over as many variables as its point has
/// coordinates, and over at least `last` and at most `n`.
pub open spec fn terms_fit(terms: Seq<Term>, n: nat, last: nat) -> bool {
    forall|i: int| 0 <= i < terms.len() ==> term_fits(#[trigger] terms[i], n, last)
}

/// The field elements of a digest, absorbed in order.
fn observe_digest(challenger: &mut Transcript, d: &Digest)
    requires
        old(challenger).wf(),
    ensures
        final(challenger).wf(),
        final(challenger)@ == old(challenger)@.observe_all(fvals(d@)),
{
    let v = digest_felts(d);
    challenger.observe_slice(&v);
}

/// The field elements of a digest.
pub fn digest_felts(d: &Digest) -> (r: Vec<crate::felt::Felt>)
    ensures
        r@ == d@,
{
    let mut v: Vec<crate::felt::Felt> = Vec::new();
    let mut i: usize = 0;
    while i < 8
        invariant
            i <= 8,
            v@ == d@.take(i as int),
        decreases 8 - i,
    {
        v.push(d[i]);
        i = i + 1;
        proof {
            assert(d@.take(i as int) =~= d@.take(i - 1).push(d@[i - 1]));
        }
    }
    proof {
        assert(d@.take(8) =~= d@);
    }
    v
}

/// Replays round `r` after its messages: root, out-of-domain samples, proof of work,
/// queries, and the batching of the new constraints. Returns the new claim.
fn replay_openings(
    config: &WhirConfig,
    n: usize,
    start: &Source,
    words: &Words,
    whir: &WhirProof,
    r: usize,
    pow_at: usize,
    left: usize,
    log_height: usize,
    claim: Ext,
    all: &Vec<Ext>,
    constraints: &mut Vec<Constraint>,
    challenger: &mut Transcript,
    Ghost(inst): Ghost<Instance>,
    Ghost(st): Ghost<VState>,
) -> (res: Result<Ext, WhirVerifierError>)
    requires
        instance_of(inst, *config, n, *start, *words, *whir),
        inst.fits(),
        r + 1 < inst.m(),
        r < inst.proof_val.roots.len(),
        r < inst.proof_val.ood_answers.len(),
        pow_at < inst.proof_val.pows.len(),
        inst.pow_sponge(st, r as int).pow_ok(
            inst.rounds[r as int].queries_pow_bits as nat,
            inst.query_pow(r as int),
        ) ==> r < inst.proof_val.openings.len(),
        pow_at == folded_vars(inst.rounds, r as int) + r + inst.fold(r as int),
        left == inst.left(r + 1),
        log_height == inst.codeword_log(r as int),
        old(challenger).wf(),
        st.sponge == old(challenger)@,
        st.claim == claim@,
        st.challenges == evals(all@),
        st.terms == terms_val(old(constraints)@),
        all@.len() >= inst.fold(r as int),
        terms_fit(st.terms, inst.n, inst.last()),
    ensures
        final(challenger).wf(),
        match res {
            Ok(c) => {
                let end = inst.after_queries(st, r as int);
                &&& inst.opening_refusal(st, r as int) is None
                &&& final(challenger)@ == end.sponge
                &&& c@ == end.claim
                &&& terms_val(final(constraints)@) == end.terms
                &&& terms_fit(end.terms, inst.n, inst.last())
            },
            Err(e) => inst.opening_refusal(st, r as int) == Some(e@),
        },
{
    let cfg = &config.round_parameters[r];
    let fold: usize = cfg.folding_factor;
    let nq: usize = cfg.num_queries;
    proof {
        fits_overall(inst);
        fits_round(inst, r as int);
        assert(inst.rounds[r as int] == *cfg);
        assert(inst.fold(r as int) == fold);
        assert(whir@.roots.len() == whir.round_commitments@.len());
        assert(whir@.ood_answers.len() == whir.round_ood_answers@.len());
        assert(whir@.openings.len() == whir.round_query_openings@.len());
        assert(whir@.pows.len() == whir.folding_pow@.len());
    }
    observe_digest(challenger, &whir.round_commitments[r]);
    let answers = &whir.round_ood_answers[r];
    proof {
        assert(whir@.roots[r as int] == fvals(whir.round_commitments@[r as int]@));
        assert(whir@.ood_answers[r as int] == evals(answers@));
        assert(whir@.ood_answers[r as int].len() == answers@.len());
    }
    let ood_points = replay_ood(answers, left, challenger);
    let query_pow = whir.folding_pow[pow_at].0;
    proof {
        assert(inst.query_pow(r as int) == query_pow@);
    }
    if !challenger.check_witness(cfg.queries_pow_bits, query_pow) {
        return Err(WhirVerifierError::PowMismatch { round: r, var: usize::MAX });
    }
    let indices = challenger.sample_indices(log_height, nq);
    let leaves = &whir.round_query_openings[r].leaves;
    let single;
    let src: &Source = if r == 0 {
        start
    } else {
        single = Source::Single(&whir.round_commitments[r - 1], false);
        proof {
            assert(whir@.roots[r - 1] == fvals(whir.round_commitments@[r - 1]@));
        }
        &single
    };
    let per: usize = match src {
        Source::Single(_, _) => 1,
        Source::Stripes(roots, _, _) => roots.len(),
    };
    proof {
        assert(src@ == inst.source(r as int));
        assert(per == src@.leaves_per_query());
        assert(leaves_val(leaves@) == whir@.openings[r as int]);
        assert(leaves_val(leaves@).len() == leaves@.len());
        vstd::arithmetic::mul::lemma_mul_nonnegative(nq as int, per as int);
    }
    if leaves.len() != nq * per {
        return Err(shape_error(words.openings));
    }
    let own = vstd::slice::slice_subrange(all.as_slice(), all.len() - fold, all.len());
    proof {
        assert(evals(own@) =~= inst.own_challenges(st, r as int));
    }
    let (stir_points, stir_values) = match replay_queries(
        src,
        fold,
        log_height,
        left,
        &indices,
        leaves,
        own,
        words,
        r,
        Ghost(inst),
        Ghost(st),
    ) {
        Err(e) => {
            return Err(e);
        },
        Ok(t) => t,
    };
    let batch = challenger.sample_algebra_element();
    let c1 = powers_from(batch, batch, answers.len());
    let a: usize = answers.len();
    proof {
        assert(c1@.len() == evals(c1@).len());
    }
    let claim1 = add_batched(claim, answers, &c1);
    let start_coeff = batch.exp_u64(a as u64).times(batch);
    let c2 = powers_from(start_coeff, batch, nq);
    proof {
        assert(c2@.len() == evals(c2@).len());
        assert(e_pow(batch@, (a + 1) as nat) == e_pow(batch@, a as nat) * batch@);
    }
    let claim2 = add_batched(claim1, &stir_values, &c2);
    push_terms(constraints, false, &ood_points, &c1, left);
    push_terms(constraints, true, &stir_points, &c2, left);
    proof {
        let end = inst.after_queries(st, r as int);
        assert(terms_val(constraints@) == end.terms);
        assert forall|i: int| 0 <= i < end.terms.len() implies term_fits(
            #[trigger] end.terms[i],
            inst.n,
            inst.last(),
        ) by {
            let k1 = st.terms.len();
            let k2 = k1 + ood_points@.len();
            if i < k1 {
                assert(end.terms[i] == st.terms[i]);
            } else if i < k2 {
                assert(end.terms[i] == terms_of(
                    false,
                    epoints(ood_points@),
                    evals(c1@),
                    left as nat,
                )[i - k1]);
                assert(ood_points@[i - k1]@.len() == left);
            } else {
                assert(end.terms[i] == terms_of(
                    true,
                    epoints(stir_points@),
                    evals(c2@),
                    left as nat,
                )[i - k2]);
                assert(stir_points@[i - k2]@.len() == left);
            }
        }
    }
    Ok(claim2)
}

/// A refusal among the first final queries is the verdict on all of them.
proof fn final_queries_refusal_stays(inst: Instance, end: VState, j: nat, k: nat)
    requires
        j <= k,
        inst.final_queries_refusal(end, j) is Some,
    ensures
        inst.final_queries_refusal(end, k) == inst.final_queries_refusal(end, j),
    decreases k,
{
    if j < k {
        final_queries_refusal_stays(inst, end, j, (k - 1) as nat);
    }
}

/// Checks the end of a proof: proof of work, final queries, terminal identity.
fn replay_end(
    config: &WhirConfig,
    n: usize,
    start: &Source,
    words: &Words,
    whir: &WhirProof,
    final_root_at: usize,
    last: usize,
    log_height: usize,
    claim: Ext,
    all: &Vec<Ext>,
    constraints: &Vec<Constraint>,
    challenger: &mut Transcript,
    Ghost(inst): Ghost<Instance>,
    Ghost(end): Ghost<VState>,
) -> (res: Result<(), WhirVerifierError>)
    requires
        instance_of(inst, *config, n, *start, *words, *whir),
        inst.fits(),
        end.sponge.pow_ok(inst.final_pow_bits, inst.proof_val.final_pow)
            ==> inst.proof_val.openings.len() > 0,
        inst.m() > 1 ==> final_root_at < whir.round_commitments@.len() && inst.final_root == fvals(
            whir.round_commitments@[final_root_at as int]@,
        ),
        last == inst.last(),
        log_height == inst.codeword_log(inst.m() - 1),
        whir.final_poly@.len() == pow2(last as nat),
        old(challenger).wf(),
        end.sponge == old(challenger)@,
        end.claim == claim@,
        end.challenges == evals(all@),
        end.terms == terms_val(constraints@),
        all@.len() == n - last,
        all@.len() >= inst.fold(inst.m() - 1),
        terms_fit(end.terms, inst.n, inst.last()),
    ensures
        final(challenger).wf(),
        match res {
            Ok(_) => {
                &&& inst.end_refusal(end) is None
                &&& final(challenger)@ == inst.final_sponge(end).after_draws(inst.final_queries)
            },
            Err(e) => inst.end_refusal(end) == Some(e@),
        },
{
    let m: usize = config.round_parameters.len();
    proof {
        fits_overall(inst);
        fits_round(inst, inst.m() - 1);
    }
    let fold: usize = config.round_parameters[m - 1].folding_factor;
    proof {
        lemma2_to64();
        pow2_le(log_height as nat, 26);
        assert(whir@.openings.len() == whir.round_query_openings@.len());
    }
    if !challenger.check_witness(config.final_pow_bits, whir.final_pow.0) {
        return Err(WhirVerifierError::PowMismatch { round: m, var: usize::MAX });
    }
    let ghost before = challenger@;
    let count: usize = whir.round_query_openings.len();
    let leaves = &whir.round_query_openings[count - 1].leaves;
    let single;
    let src: &Source = if m == 1 {
        start
    } else {
        single = Source::Single(&whir.round_commitments[final_root_at], false);
        &single
    };
    let per: usize = match src {
        Source::Single(_, _) => 1,
        Source::Stripes(roots, _, _) => roots.len(),
    };
    let nq: usize = config.final_queries;
    proof {
        assert(src@ == inst.final_source());
        assert(leaves_val(leaves@) == whir@.openings.last());
        assert(leaves_val(leaves@).len() == leaves@.len());
        vstd::arithmetic::mul::lemma_mul_nonnegative(nq as int, per as int);
    }
    if leaves.len() != nq * per {
        return Err(shape_error("final query count"));
    }
    let indices = challenger.sample_indices(log_height, nq);
    let g = two_adic_generator(log_height);
    let own = vstd::slice::slice_subrange(all.as_slice(), all.len() - fold, all.len());
    proof {
        assert(evals(own@) =~= inst.own_challenges(end, inst.m() - 1));
        assert(forall|q: int|
            0 <= q < nq ==> (#[trigger] indices@[q]) as int == inst.final_indices(end)[q]);
    }
    let mut q: usize = 0;
    while q < nq
        invariant
            q <= nq,
            nq == inst.final_queries,
            challenger.wf(),
            end.sponge.pow_ok(inst.final_pow_bits, inst.proof_val.final_pow),
            inst.proof_val.openings.last().len() == inst.final_queries
                * inst.final_source().leaves_per_query(),
            src@ == inst.final_source(),
            src@.consistent(),
            fold == inst.fold(inst.m() - 1),
            log_height == inst.codeword_log(inst.m() - 1),
            pow2(fold as nat) * 4 <= usize::MAX,
            log_height <= 26,
            last == inst.last(),
            inst.proof_val == whir@,
            whir.final_poly@.len() == pow2(last as nat),
            indices@.len() == nq,
            forall|q: int|
                0 <= q < nq ==> (#[trigger] indices@[q]) as int == inst.final_indices(end)[q],
            leaves_val(leaves@) == inst.proof_val.openings.last(),
            leaves@.len() == nq * src@.leaves_per_query(),
            evals(own@) == inst.own_challenges(end, inst.m() - 1),
            own@.len() == fold,
            g@ == domain_generator(log_height as nat),
            inst.final_queries_refusal(end, q as nat) is None,
        decreases nq - q,
    {
        let idx: usize = indices[q];
        proof {
            let lpq = src@.leaves_per_query();
            assert((q + 1) * lpq <= nq * lpq) by (nonlinear_arith)
                requires
                    q + 1 <= nq,
                    lpq >= 0,
            ;
        }
        let opened = open_query(src, fold, log_height, idx, leaves, q, None, "final merkle");
        match opened {
            Err(e) => {
                proof {
                    final_queries_refusal_stays(inst, end, (q + 1) as nat, nq as nat);
                }
                return Err(e);
            },
            Ok(row) => {
                let folded = eval_at(row.as_slice(), own);
                let x = g.exp_u64(idx as u64);
                let point = map_to_pow_lsb(x, last);
                proof {
                    assert(evals(point@).len() == point@.len());
                    pow_point_len(x@, last as nat);
                }
                let expected = mono_eval_lsb(whir.final_poly.as_slice(), point.as_slice());
                if !folded.same(&expected) {
                    proof {
                        final_queries_refusal_stays(inst, end, (q + 1) as nat, nq as nat);
                    }
                    return Err(WhirVerifierError::TerminalMismatch);
                }
            },
        }
        q = q + 1;
    }
    proof {
        assert forall|i: int| 0 <= i < constraints@.len() implies term_fits(
            (#[trigger] constraints@[i])@,
            n as nat,
            last as nat,
        ) by {
            assert(end.terms[i] == constraints@[i]@);
        }
        assert(end.terms.len() == constraints@.len());
    }
    let total = terminal_value(constraints, n, last, all, &whir.final_poly);
    if !total.same(&claim) {
        return Err(WhirVerifierError::TerminalMismatch);
    }
    Ok(())
}

/// A refusal in the first rounds is the verdict on all of them.
proof fn run_refusal_stays(inst: Instance, start: VState, j: int, k: int)
    requires
        0 <= j <= k,
        inst.run_refusal(start, j) is Some,
    ensures
        inst.run_refusal(start, k) == inst.run_refusal(start, j),
    decreases k,
{
    if j < k {
        run_refusal_stays(inst, start, j, k - 1);
    }
}

/// Runs every round and checks the end of a proof, from a claim and its starting
/// constraints.
pub(crate) fn verify_from(
    config: &WhirConfig,
    n: usize,
    start: &Source,
    words: &Words,
    whir: &WhirProof,
    final_root_at: usize,
    claim: Ext,
    constraints: Vec<Constraint>,
    challenger: &mut Transcript,
    Ghost(inst): Ghost<Instance>,
    Ghost(st0): Ghost<VState>,
) -> (res: Result<(), WhirVerifierError>)
    requires
        instance_of(inst, *config, n, *start, *words, *whir),
        inst.fits(),
        inst.entries_found(st0),
        inst.m() > 1 && whir.round_commitments@.len() >= inst.m() - 1 ==> {
            &&& final_root_at < whir.round_commitments@.len()
            &&& inst.final_root == fvals(whir.round_commitments@[final_root_at as int]@)
        },
        whir.final_poly@.len() == pow2(inst.last()),
        old(challenger).wf(),
        st0.sponge == old(challenger)@,
        st0.claim == claim@,
        st0.challenges == Seq::<E4>::empty(),
        st0.terms == terms_val(constraints@),
        terms_fit(st0.terms, inst.n, inst.last()),
    ensures
        final(challenger).wf(),
        match res {
            Ok(_) => {
                &&& inst.refusal(st0) is None
                &&& final(challenger)@ == inst.final_sponge(inst.end(st0)).after_draws(
                    inst.final_queries,
                )
            },
            Err(e) => inst.refusal(st0) == Some(e@),
        },
{
    let m: usize = config.round_parameters.len();
    let mut constraints = constraints;
    let mut claim = claim;
    let mut all: Vec<Ext> = Vec::new();
    let mut pow_at: usize = 0;
    let mut left: usize = n;
    let mut rate: usize = config.starting_log_inv_rate;
    let mut r: usize = 0;
    let pow_total: usize = whir.folding_pow.len();
    proof {
        fits_overall(inst);
        assert(evals(all@) =~= Seq::<E4>::empty());
        assert(whir@.pows.len() == pow_total);
        assert(whir@.roots.len() == whir.round_commitments@.len());
    }
    while r + 1 < m
        invariant
            m == inst.m(),
            r < m,
            instance_of(inst, *config, n, *start, *words, *whir),
            inst.fits(),
            inst.entries_found(st0),
            whir@.roots.len() >= r,
            pow_total == whir@.pows.len(),
            challenger.wf(),
            pow_at == folded_vars(inst.rounds, r as int) + r,
            left == inst.left(r as int),
            rate == inst.rate(r as int),
            all@.len() == n - left,
            inst.run_refusal(st0, r as int) is None,
            ({
                let st = inst.run(st0, r as int);
                &&& challenger@ == st.sponge
                &&& claim@ == st.claim
                &&& evals(all@) == st.challenges
                &&& terms_val(constraints@) == st.terms
                &&& terms_fit(st.terms, inst.n, inst.last())
            }),
        decreases m - r,
    {
        let ghost st = inst.run(st0, r as int);
        proof {
            fits_overall(inst);
            fits_round(inst, r as int);
            reveal(Instance::entries_found);
            assert(inst.round_found(st, r as int));
        }
        let c1 = match replay_round(
            config,
            n,
            start,
            words,
            whir,
            r,
            pow_at,
            claim,
            &mut all,
            challenger,
            Ghost(inst),
            Ghost(st),
        ) {
            Err(e) => {
                proof {
                    assert(inst.run_refusal(st0, r + 1) == Some(e@));
                    run_refusal_stays(inst, st0, r + 1, inst.m() - 1);
                }
                return Err(e);
            },
            Ok(c) => c,
        };
        let ghost st1 = inst.after_folds(st, r as int);
        let fold: usize = config.round_parameters[r].folding_factor;
        left = left - fold;
        pow_at = pow_at + fold;
        proof {
            assert(inst.fold(r as int) == fold);

        }
        let c2 = match replay_openings(
            config,
            n,
            start,
            words,
            whir,
            r,
            pow_at,
            left,
            left + rate,
            c1,
            &all,
            &mut constraints,
            challenger,
            Ghost(inst),
            Ghost(st1),
        ) {
            Err(e) => {
                proof {
                    assert(inst.run_refusal(st0, r + 1) == Some(e@));
                    run_refusal_stays(inst, st0, r + 1, inst.m() - 1);
                }
                return Err(e);
            },
            Ok(c) => c,
        };
        claim = c2;
        pow_at = pow_at + 1;
        rate = config.round_parameters[r].log_inv_rate;
        r = r + 1;
    }
    let ghost st = inst.run(st0, r as int);
    proof {
        fits_overall(inst);
        fits_round(inst, r as int);
        reveal(Instance::entries_found);
        assert(inst.round_found(st, r as int));
    }
    let c1 = match replay_round(
        config,
        n,
        start,
        words,
        whir,
        r,
        pow_at,
        claim,
        &mut all,
        challenger,
        Ghost(inst),
        Ghost(st),
    ) {
        Err(e) => {
            return Err(e);
        },
        Ok(c) => c,
    };
    let fold: usize = config.round_parameters[r].folding_factor;
    left = left - fold;
    proof {
        assert(inst.fold(r as int) == fold);

    }
    replay_end(
        config,
        n,
        start,
        words,
        whir,
        final_root_at,
        left,
        left + rate,
        c1,
        &all,
        &constraints,
        challenger,
        Ghost(inst),
        Ghost(inst.end(st0)),
    )
}

} // verus!
