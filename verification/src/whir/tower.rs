//! The folding tower: WHIR without query openings.
//!
//! The tower folds, commits to the folded polynomial's codeword, and constrains it by
//! out-of-domain samples, round by round; it opens no codeword. Its proof carries the
//! out-of-domain points, which the verifier compares with the transcript's.
use vstd::prelude::*;
use vstd::arithmetic::power2::{lemma2_to64, lemma_pow2_pos, pow2};
use crate::arith::{ceil_log2_is_least, ceil_log2_of, log2_of_pow2, pow2_le, pow2_usize};
use crate::ext::{e_one, e_pow, epoints, evals, fvals, lift, mul_canon, Ext, E4};
use crate::felt::Felt;
use crate::merkle::{committed_matrices, matrices_val, matrix_val, merkle_commit, merkle_root,
    CommittedRows, Digest, Matrix};
use crate::mle::{dot, mle_eval_is_weighted_sum};
use crate::multilinear::{copy_exts, lift_felts};
use crate::transcript::{Sponge, Transcript};
use crate::whir::completeness::{batching_keeps_claim, dot_weight_is_terminal_sum,
    replay_of_honest_folds, sound_folder, weight_of_append};
use crate::whir::config::{folded_vars, folded_vars_monotone, pow_bits_at, pow_bits_get, RoundConfig,
    WhirConfig};
use crate::whir::encode::{base_matrix, codeword, constants, encode_interleaved_base,
    encode_interleaved_ef, ext_matrix};
use crate::whir::honest::PState;
use crate::whir::interleaved::{final_poly_error, final_poly_refusal, prover_start, seat_folder,
    starting_state, total_folds, WhirProver};
use crate::whir::messages::{shape_error, ParsedCommitment, ProofOfWork, SumcheckPoly, WhirRefusal,
    WhirVerifierError};
use crate::whir::replay::{absorb_message, accepted_points_are_found, check_message, check_ood, ood_accepted, ood_points_of, ood_refusal, ood_sponge,
    points_found, push_terms, replay_refusal, replay_refusal_stays, replay_run,
    term_fits, terminal_sum, terminal_value, terms_of, terms_val, Constraint, Replay, Term};
use crate::whir::rounds::{digest_felts, left_of, terms_fit, VState};
use crate::whir::proving::{answer_ood, answers_honest, honest_answers, honest_answers_unique};
use crate::whir::sumcheck::{absorbed, absorbed_canon, absorbed_len, add_batched, batch_coeffs,
    batched_claim, eq_tables, fold_pows_found, fold_run, fold_run_ext, fold_stuck, is_grind,
    out_pows, pow_sponge, powers_from, FoldRun, FolderVal, WhirFolder};

verus! {

/// One committed round of the tower.
pub struct RoundCommitment {
    /// The root with its out-of-domain samples.
    pub parsed: ParsedCommitment,
    /// The tree.
    pub tree: CommittedRows,
}

/// What the tower's prover gives.
pub struct RoundedProof {
    /// The starting commitment with its out-of-domain samples.
    pub starting: ParsedCommitment,
    /// The starting tree.
    pub starting_tree: CommittedRows,
    /// The commitments of every round but the last.
    pub rounds: Vec<RoundCommitment>,
    /// Every message with its proof of work, in order.
    pub round_polys: Vec<(SumcheckPoly, ProofOfWork)>,
    /// The challenge of every folded variable, in order.
    pub folding_randomness: Vec<Ext>,
    /// The revealed polynomial.
    pub final_poly: Vec<Ext>,
    /// The weight over the revealed polynomial's variables.
    pub final_weight: Vec<Ext>,
    /// The claim after every fold.
    pub final_claim: Ext,
}

/// A root, if there is one, with its out-of-domain samples.
pub struct ParsedVal {
    pub rooted: bool,
    pub root: Seq<int>,
    pub points: Seq<Seq<E4>>,
    pub answers: Seq<E4>,
}

/// The content of a commitment of one root.
pub open spec fn parsed_val(c: ParsedCommitment) -> ParsedVal {
    ParsedVal {
        rooted: c.commitment@.len() > 0,
        root: fvals(c.commitment@[0]@),
        points: epoints(c.ood_points@),
        answers: evals(c.ood_answers@),
    }
}

/// The content of the messages of a list.
pub open spec fn pair_msgs(s: Seq<(SumcheckPoly, ProofOfWork)>) -> Seq<Seq<E4>> {
    Seq::new(s.len(), |i: int| evals(s[i].0.0@))
}

/// The content of the proofs of work of a list.
pub open spec fn pair_pows(s: Seq<(SumcheckPoly, ProofOfWork)>) -> Seq<int> {
    Seq::new(s.len(), |i: int| s[i].1.0@)
}

/// What the tower's verifier works on.
pub struct Tower {
    pub n: nat,
    pub rounds: Seq<RoundConfig>,
    pub starting: ParsedVal,
    pub commitments: Seq<ParsedVal>,
    pub msgs: Seq<Seq<E4>>,
    pub pows: Seq<int>,
    pub final_poly: Seq<E4>,
}

impl Tower {
    /// The number of rounds.
    pub open spec fn m(self) -> nat {
        self.rounds.len()
    }

    /// The number of variables folded in round `r`.
    pub open spec fn fold(self, r: int) -> nat {
        self.rounds[r].folding_factor as nat
    }

    /// The number of variables left after `r` rounds.
    pub open spec fn left(self, r: int) -> nat {
        left_of(self.n, self.rounds, r)
    }

    /// The number of variables of the revealed polynomial.
    pub open spec fn last(self) -> nat {
        self.left(self.m() as int)
    }

    /// Whether the schedule is within machine and field limits.
    pub open spec fn fits(self) -> bool {
        &&& self.m() > 0
        &&& folded_vars(self.rounds, self.m() as int) <= self.n <= usize::MAX
        &&& pow2(self.last()) <= usize::MAX
        &&& forall|r: int| 0 <= r < self.m() ==> (#[trigger] self.rounds[r]).feasible()
    }

    /// The state after the messages of round `r`.
    pub open spec fn after_folds(self, st: VState, r: int) -> VState {
        let at = folded_vars(self.rounds, r) as int;
        let e = replay_run(
            Replay { sponge: st.sponge, claim: st.claim, challenges: st.challenges },
            self.msgs.skip(at),
            self.rounds[r].pow_bits@,
            self.pows.skip(at),
            self.fold(r),
        );
        VState { sponge: e.sponge, claim: e.claim, challenges: e.challenges, terms: st.terms }
    }

    /// Why the messages of round `r` are refused, if they are.
    pub open spec fn folds_refusal(self, st: VState, r: int) -> Option<WhirRefusal> {
        let at = folded_vars(self.rounds, r) as int;
        replay_refusal(
            Replay { sponge: st.sponge, claim: st.claim, challenges: st.challenges },
            self.msgs.skip(at),
            self.rounds[r].pow_bits@,
            self.pows.skip(at),
            self.fold(r),
            r,
            "degree-2 message"@,
        )
    }

    /// Why the out-of-domain points of round `r` are refused, if they are.
    pub open spec fn samples_refusal(self, st: VState, r: int) -> Option<WhirRefusal> {
        let c = self.commitments[r];
        ood_refusal(
            st.sponge.observe_all(c.root),
            c.answers,
            c.points,
            self.left(r + 1),
            c.answers.len(),
            r + 1,
        )
    }

    /// The state after the out-of-domain samples of round `r`.
    pub open spec fn after_samples(self, st: VState, r: int) -> VState {
        let c = self.commitments[r];
        let a = c.answers.len();
        let drawn = ood_sponge(st.sponge.observe_all(c.root), c.answers, self.left(r + 1), a);
        let batch = drawn.drawn_ext();
        let coeffs = batch_coeffs(batch, batch, a);
        VState {
            sponge: drawn.after_draw_ext(),
            claim: batched_claim(st.claim, c.answers, coeffs, a as int),
            challenges: st.challenges,
            terms: st.terms + terms_of(false, c.points, coeffs, self.left(r + 1)),
        }
    }

    /// The state after `r` whole rounds.
    pub open spec fn run(self, start: VState, r: int) -> VState
        decreases r,
    {
        if r <= 0 {
            start
        } else {
            self.after_samples(self.after_folds(self.run(start, r - 1), r - 1), r - 1)
        }
    }

    /// Why one of the first `r` whole rounds is refused, if one is.
    pub open spec fn run_refusal(self, start: VState, r: int) -> Option<WhirRefusal>
        decreases r,
    {
        if r <= 0 {
            None
        } else {
            match self.run_refusal(start, r - 1) {
                Some(e) => Some(e),
                None => {
                    let st = self.run(start, r - 1);
                    match self.folds_refusal(st, r - 1) {
                        Some(e) => Some(e),
                        None => self.samples_refusal(self.after_folds(st, r - 1), r - 1),
                    }
                },
            }
        }
    }

    /// The state after the messages of the last round.
    pub open spec fn end(self, start: VState) -> VState {
        self.after_folds(self.run(start, self.m() - 1), self.m() - 1)
    }

    /// The state before the rounds.
    pub open spec fn start(self, s: Sponge, point: Seq<E4>, eval: E4) -> VState {
        starting_state(
            s.observe_all(self.starting.root),
            self.n,
            point,
            eval,
            self.starting.points,
            self.starting.answers,
        )
    }

    /// Why the rounds and the terminal identity are refused, if they are.
    pub open spec fn rounds_refusal(self, start: VState) -> Option<WhirRefusal> {
        match self.run_refusal(start, self.m() - 1) {
            Some(e) => Some(e),
            None => {
                let st = self.run(start, self.m() - 1);
                let end = self.end(start);
                match self.folds_refusal(st, self.m() - 1) {
                    Some(e) => Some(e),
                    None => if self.msgs.len() != folded_vars(self.rounds, self.m() as int) {
                        Some(WhirRefusal::IncorrectShape("leftover sumcheck messages"@))
                    } else if terminal_sum(
                        end.terms,
                        self.n,
                        self.last(),
                        end.challenges,
                        self.final_poly,
                        end.terms.len(),
                    ) != end.claim {
                        Some(WhirRefusal::TerminalMismatch)
                    } else {
                        None
                    },
                }
            },
        }
    }

    /// Whether the proof has an entry wherever round `r` looks one up, where `st` is the
    /// state before the round. What follows a refusal is not looked up.
    pub open spec fn round_found(self, st: VState, r: int) -> bool {
        let at = folded_vars(self.rounds, r) as int;
        let c = self.commitments[r];
        &&& forall|var: nat|
            var < self.fold(r) && (#[trigger] replay_refusal(
                Replay { sponge: st.sponge, claim: st.claim, challenges: st.challenges },
                self.msgs.skip(at),
                self.rounds[r].pow_bits@,
                self.pows.skip(at),
                var,
                r,
                "degree-2 message"@,
            )) is None ==> at + var < self.msgs.len()
        &&& r + 1 < self.m() && self.folds_refusal(st, r) is None ==> {
            &&& r < self.commitments.len()
            &&& c.rooted
            &&& points_found(
                self.after_folds(st, r).sponge.observe_all(c.root),
                c.answers,
                c.points,
                self.left(r + 1),
            )
        }
    }

    /// Whether the proof has an entry wherever one is looked up. What follows a refusal is
    /// not looked up.
    pub open spec fn entries_found(self, s: Sponge, point: Seq<E4>, eval: E4) -> bool {
        let c = self.starting;
        let s1 = s.observe_all(c.root);
        let start = self.start(s, point, eval);
        self.final_poly.len() == pow2(self.last()) ==> {
            &&& c.rooted
            &&& points_found(s1, c.answers, c.points, self.n)
            &&& ood_refusal(s1, c.answers, c.points, self.n, c.answers.len(), 0) is None
                ==> forall|r: int|
                0 <= r < self.m() && (#[trigger] self.run_refusal(start, r)) is None
                    ==> self.round_found(self.run(start, r), r)
        }
    }

    /// Why a proof is refused, if it is.
    pub open spec fn refusal(self, s: Sponge, point: Seq<E4>, eval: E4) -> Option<WhirRefusal> {
        if self.final_poly.len() != pow2(self.last()) {
            Some(final_poly_refusal(self.final_poly.len(), self.last()))
        } else {
            match ood_refusal(
                s.observe_all(self.starting.root),
                self.starting.answers,
                self.starting.points,
                self.n,
                self.starting.answers.len(),
                0,
            ) {
                Some(e) => Some(e),
                None => self.rounds_refusal(self.start(s, point, eval)),
            }
        }
    }
}

/// The verifier of the folding tower.
#[derive(Debug)]
pub struct WhirVerifier {
    /// The schedule.
    pub config: WhirConfig,
}

/// What the tower's verifier works on, for a schedule and a proof.
pub open spec fn tower_of(config: WhirConfig, n: nat, p: RoundedProof) -> Tower {
    Tower {
        n,
        rounds: config.round_parameters@,
        starting: parsed_val(p.starting),
        commitments: Seq::new(p.rounds@.len(), |i: int| parsed_val(p.rounds@[i].parsed)),
        msgs: pair_msgs(p.round_polys@),
        pows: pair_pows(p.round_polys@),
        final_poly: evals(p.final_poly@),
    }
}

proof fn run_refusal_stays(t: Tower, start: VState, j: int, k: int)
    requires
        0 <= j <= k,
        t.run_refusal(start, j) is Some,
    ensures
        t.run_refusal(start, k) == t.run_refusal(start, j),
    decreases k,
{
    if j < k {
        run_refusal_stays(t, start, j, k - 1);
    }
}

impl WhirVerifier {
    /// A verifier for the given schedule.
    pub fn new(config: WhirConfig) -> (r: WhirVerifier)
        ensures
            r.config == config,
    {
        WhirVerifier { config }
    }

    /// Replays the messages of round `r`, from position `flat` of the proof's list.
    fn replay_folds(
        &self,
        rounded: &RoundedProof,
        r: usize,
        flat: usize,
        claim: Ext,
        all: &mut Vec<Ext>,
        challenger: &mut Transcript,
        Ghost(t): Ghost<Tower>,
        Ghost(st): Ghost<VState>,
    ) -> (res: Result<Ext, WhirVerifierError>)
        requires
            t == tower_of(self.config, t.n, *rounded),
            t.fits(),
            t.round_found(st, r as int),
            r < t.m(),
            flat == folded_vars(t.rounds, r as int),
            old(challenger).wf(),
            st.sponge == old(challenger)@,
            st.claim == claim@,
            st.challenges == evals(old(all)@),
        ensures
            final(challenger).wf(),
            match res {
                Ok(c) => {
                    let end = t.after_folds(st, r as int);
                    &&& t.folds_refusal(st, r as int) is None
                    &&& final(challenger)@ == end.sponge
                    &&& c@ == end.claim
                    &&& evals(final(all)@) == end.challenges
                    &&& final(all)@.len() == old(all)@.len() + t.fold(r as int)
                },
                Err(e) => t.folds_refusal(st, r as int) == Some(e@),
            },
    {
        let cfg = &self.config.round_parameters[r];
        let ghost msgs = t.msgs.skip(flat as int);
        let ghost pows = t.pows.skip(flat as int);
        let ghost bits = cfg.pow_bits@;
        let ghost begin = Replay { sponge: st.sponge, claim: st.claim, challenges: st.challenges };
        proof {
            assert(t.rounds[r as int].feasible());
            folded_vars_monotone(t.rounds, r + 1, t.m() as int);
            assert(t.msgs.len() == rounded.round_polys@.len());
        }
        let mut c = claim;
        let mut var: usize = 0;
        while var < cfg.folding_factor
            invariant
                var <= cfg.folding_factor,
                cfg.folding_factor == t.fold(r as int),
                flat + cfg.folding_factor <= usize::MAX,
                t.round_found(st, r as int),
                t.msgs == pair_msgs(rounded.round_polys@),
                t.pows == pair_pows(rounded.round_polys@),
                flat == folded_vars(t.rounds, r as int),
                t.rounds[r as int].pow_bits@ == bits,
                bits == cfg.pow_bits@,
                cfg.feasible(),
                msgs == t.msgs.skip(flat as int),
                pows == t.pows.skip(flat as int),
                begin == (Replay {
                    sponge: st.sponge,
                    claim: st.claim,
                    challenges: st.challenges,
                }),
                challenger.wf(),
                replay_refusal(
                    begin,
                    msgs,
                    bits,
                    pows,
                    var as nat,
                    r as int,
                    "degree-2 message"@,
                ) is None,
                ({
                    let at = replay_run(begin, msgs, bits, pows, var as nat);
                    &&& challenger@ == at.sponge
                    &&& c@ == at.claim
                    &&& evals(all@) == at.challenges
                }),
                all@.len() == old(all)@.len() + var,
            decreases cfg.folding_factor - var,
        {
            let b: usize = pow_bits_get(&cfg.pow_bits, var);
            let ghost at = replay_run(begin, msgs, bits, pows, var as nat);
            proof {
                assert(t.msgs.len() == rounded.round_polys@.len());
                assert(flat + var < t.msgs.len());
            }
            let pair = &rounded.round_polys[flat + var];
            let pow = pair.1.0;
            proof {
                if var < bits.len() {
                    assert(bits[var as int] <= 30);
                }
                assert(pows[var as int] == pow@);
                assert(msgs[var as int] == evals(pair.0.0@));
            }
            let step = match check_message(c, &pair.0, r, var, "degree-2 message") {
                Err(e) => Err(e),
                Ok(_) => {
                    proof {
                        assert(msgs[var as int].len() == pair.0.0@.len());
                    }
                    absorb_message(&pair.0, b, pow, r, var, challenger)
                },
            };
            match step {
                Err(e) => {
                    proof {
                        replay_refusal_stays(
                            begin,
                            msgs,
                            bits,
                            pows,
                            (var + 1) as nat,
                            cfg.folding_factor as nat,
                            r as int,
                            "degree-2 message"@,
                        );
                    }
                    return Err(e);
                },
                Ok((next, rc)) => {
                    let ghost before = all@;
                    c = next;
                    all.push(rc);
                    proof {
                        assert(evals(all@) =~= evals(before).push(rc@));
                    }
                },
            }
            var = var + 1;
        }
        Ok(c)
    }

    /// Replays the commitment and the out-of-domain samples of round `r`.
    fn replay_samples(
        &self,
        rounded: &RoundedProof,
        r: usize,
        left: usize,
        claim: Ext,
        constraints: &mut Vec<Constraint>,
        challenger: &mut Transcript,
        Ghost(t): Ghost<Tower>,
        Ghost(st): Ghost<VState>,
    ) -> (res: Result<Ext, WhirVerifierError>)
        requires
            t == tower_of(self.config, t.n, *rounded),
            t.fits(),
            r + 1 < t.m(),
            left == t.left(r + 1),
            t.last() <= left,
            left <= t.n,
            r < t.commitments.len(),
            t.commitments[r as int].rooted,
            points_found(
                st.sponge.observe_all(t.commitments[r as int].root),
                t.commitments[r as int].answers,
                t.commitments[r as int].points,
                t.left(r + 1),
            ),
            old(challenger).wf(),
            st.sponge == old(challenger)@,
            st.claim == claim@,
            st.terms == terms_val(old(constraints)@),
            terms_fit(st.terms, t.n, t.last()),
        ensures
            final(challenger).wf(),
            match res {
                Ok(c) => {
                    let end = t.after_samples(st, r as int);
                    &&& t.samples_refusal(st, r as int) is None
                    &&& final(challenger)@ == end.sponge
                    &&& c@ == end.claim
                    &&& terms_val(final(constraints)@) == end.terms
                    &&& terms_fit(end.terms, t.n, t.last())
                },
                Err(e) => t.samples_refusal(st, r as int) == Some(e@),
            },
    {
        proof {
            assert(t.commitments.len() == rounded.rounds@.len());
        }
        let parsed = &rounded.rounds[r].parsed;
        let m: usize = self.config.round_parameters.len();
        let ghost c = t.commitments[r as int];
        proof {
            assert(c == parsed_val(*parsed));
            assert(c.answers.len() == parsed.ood_answers@.len());
            assert(c.points.len() == parsed.ood_points@.len());
        }
        let root = digest_felts(&parsed.commitment[0]);
        challenger.observe_slice(&root);
        let ghost s1 = challenger@;
        match check_ood(&parsed.ood_answers, &parsed.ood_points, left, r + 1, challenger) {
            Err(e) => {
                return Err(e);
            },
            Ok(_) => {},
        }
        proof {
            accepted_points_are_found(s1, c.answers, c.points, left as nat, r + 1);
        }
        let batch = challenger.sample_algebra_element();
        let coeffs = powers_from(batch, batch, parsed.ood_answers.len());
        proof {
            assert(coeffs@.len() == evals(coeffs@).len());
        }
        let next = add_batched(claim, &parsed.ood_answers, &coeffs);
        push_terms(constraints, false, &parsed.ood_points, &coeffs, left);
        proof {
            let end = t.after_samples(st, r as int);
            ood_accepted(s1, c.answers, c.points, left as nat, c.answers.len(), r + 1);
            assert forall|i: int| 0 <= i < end.terms.len() implies term_fits(
                #[trigger] end.terms[i],
                t.n,
                t.last(),
            ) by {
                if i < st.terms.len() {
                    assert(end.terms[i] == st.terms[i]);
                } else {
                    let k = i - st.terms.len();
                    assert(end.terms[i] == terms_of(false, c.points, evals(coeffs@), left as nat)[k]);
                    assert(c.points[k] == ood_points_of(s1, c.answers, left as nat)[k]);
                }
            }
        }
        Ok(next)
    }

    /// Verifies the tower's proof of the value `eval` at `point`.
    pub fn verify_rounds(
        &self,
        challenger: &mut Transcript,
        point: &[Ext],
        eval: Ext,
        rounded: &RoundedProof,
    ) -> (res: Result<(), WhirVerifierError>)
        requires
            old(challenger).wf(),
            tower_of(self.config, point@.len(), *rounded).fits(),
            tower_of(self.config, point@.len(), *rounded).entries_found(
                old(challenger)@,
                evals(point@),
                eval@,
            ),
        ensures
            final(challenger).wf(),
            ({
                let t = tower_of(self.config, point@.len(), *rounded);
                match res {
                    Ok(_) => {
                        &&& t.refusal(old(challenger)@, evals(point@), eval@) is None
                        &&& final(challenger)@ == t.end(
                            t.start(old(challenger)@, evals(point@), eval@),
                        ).sponge
                    },
                    Err(e) => t.refusal(old(challenger)@, evals(point@), eval@) == Some(e@),
                }
            }),
    {
        let n: usize = point.len();
        let ghost t = tower_of(self.config, n as nat, *rounded);
        let ghost gp = evals(point@);
        let last: usize = n - total_folds(&self.config, n);
        let expect: usize = pow2_usize(last);
        proof {
            assert(t.final_poly.len() == rounded.final_poly@.len());
            assert(gp.len() == n);
        }
        if rounded.final_poly.len() != expect {
            return Err(final_poly_error(rounded.final_poly.len(), last));
        }
        let starting = &rounded.starting;
        let root = digest_felts(&starting.commitment[0]);
        challenger.observe_slice(&root);
        let ghost s1 = challenger@;
        proof {
            assert(t.starting.answers.len() == starting.ood_answers@.len());
            assert(t.starting.points.len() == starting.ood_points@.len());
        }
        match check_ood(&starting.ood_answers, &starting.ood_points, n, 0, challenger) {
            Err(e) => {
                return Err(e);
            },
            Ok(_) => {},
        }
        proof {
            accepted_points_are_found(
                s1,
                t.starting.answers,
                t.starting.points,
                n as nat,
                0,
            );
        }
        let batch = challenger.sample_algebra_element();
        let coeffs = powers_from(batch, batch, starting.ood_answers.len());
        proof {
            assert(coeffs@.len() == evals(coeffs@).len());
        }
        let mut claim = add_batched(eval, &starting.ood_answers, &coeffs);
        let mut constraints: Vec<Constraint> = Vec::new();
        constraints.push(
            Constraint::Lagrange { point: copy_exts(point), coeff: Ext::one(), vars: n },
        );
        proof {
            assert(terms_val(constraints@) =~= seq![
                Term { monomial: false, point: gp, coeff: e_one(), vars: n as nat },
            ]);
        }
        push_terms(&mut constraints, false, &starting.ood_points, &coeffs, n);
        let ghost st0 = t.start(old(challenger)@, gp, eval@);
        proof {
            let pts = t.starting.points;
            let ans = t.starting.answers;
            ood_accepted(s1, ans, pts, n as nat, ans.len(), 0);
            assert forall|i: int| 0 <= i < st0.terms.len() implies term_fits(
                #[trigger] st0.terms[i],
                t.n,
                t.last(),
            ) by {
                if i > 0 {
                    assert(st0.terms[i] == terms_of(false, pts, evals(coeffs@), n as nat)[i - 1]);
                    assert(pts[i - 1] == ood_points_of(s1, ans, n as nat)[i - 1]);
                }
            }
        }
        let m: usize = self.config.round_parameters.len();
        let mut all: Vec<Ext> = Vec::new();
        let mut flat: usize = 0;
        let mut left: usize = n;
        let mut r: usize = 0;
        proof {
            assert(evals(all@) =~= Seq::<E4>::empty());
        }
        while r + 1 < m
            invariant
                m == t.m(),
                r < m,
                t == tower_of(self.config, n as nat, *rounded),
                t.fits(),
                st0 == t.start(old(challenger)@, gp, eval@),
                gp == evals(point@),
                n == point@.len(),
                t.final_poly.len() == pow2(t.last()),
                ood_refusal(
                    old(challenger)@.observe_all(t.starting.root),
                    t.starting.answers,
                    t.starting.points,
                    t.n,
                    t.starting.answers.len(),
                    0,
                ) is None,
                t.entries_found(old(challenger)@, gp, eval@),
                challenger.wf(),
                flat == folded_vars(t.rounds, r as int),
                left == t.left(r as int),
                flat <= n,
                all@.len() == flat,
                t.run_refusal(st0, r as int) is None,
                ({
                    let st = t.run(st0, r as int);
                    &&& challenger@ == st.sponge
                    &&& claim@ == st.claim
                    &&& evals(all@) == st.challenges
                    &&& terms_val(constraints@) == st.terms
                    &&& terms_fit(st.terms, t.n, t.last())
                }),
            decreases m - r,
        {
            let ghost st = t.run(st0, r as int);
            proof {
                folded_vars_monotone(t.rounds, r + 1, t.m() as int);
                assert(folded_vars(t.rounds, r + 1) == folded_vars(t.rounds, r as int)
                    + t.rounds[r as int].folding_factor);
                assert(t.round_found(st, r as int));
            }
            let c1 = match self.replay_folds(
                rounded,
                r,
                flat,
                claim,
                &mut all,
                challenger,
                Ghost(t),
                Ghost(st),
            ) {
                Err(e) => {
                    proof {
                        assert(t.run_refusal(st0, r + 1) == Some(e@));
                        run_refusal_stays(t, st0, r + 1, t.m() - 1);
                    }
                    return Err(e);
                },
                Ok(c) => c,
            };
            let fold: usize = self.config.round_parameters[r].folding_factor;
            flat = flat + fold;
            left = left - fold;
            let c2 = match self.replay_samples(
                rounded,
                r,
                left,
                c1,
                &mut constraints,
                challenger,
                Ghost(t),
                Ghost(t.after_folds(st, r as int)),
            ) {
                Err(e) => {
                    proof {
                        assert(t.run_refusal(st0, r + 1) == Some(e@));
                        run_refusal_stays(t, st0, r + 1, t.m() - 1);
                    }
                    return Err(e);
                },
                Ok(c) => c,
            };
            claim = c2;
            r = r + 1;
        }
        let ghost st = t.run(st0, r as int);
        proof {
            assert(folded_vars(t.rounds, r + 1) == folded_vars(t.rounds, r as int)
                + t.rounds[r as int].folding_factor);
            assert(t.round_found(st, r as int));
        }
        let c1 = match self.replay_folds(
            rounded,
            r,
            flat,
            claim,
            &mut all,
            challenger,
            Ghost(t),
            Ghost(st),
        ) {
            Err(e) => {
                return Err(e);
            },
            Ok(c) => c,
        };
        let fold: usize = self.config.round_parameters[r].folding_factor;
        flat = flat + fold;
        proof {
            assert(t.msgs.len() == rounded.round_polys@.len());
        }
        if flat != rounded.round_polys.len() {
            return Err(shape_error("leftover sumcheck messages"));
        }
        proof {
            let end = t.end(st0);
            assert(end.terms.len() == constraints@.len());
            assert forall|i: int| 0 <= i < constraints@.len() implies term_fits(
                (#[trigger] constraints@[i])@,
                n as nat,
                last as nat,
            ) by {
                assert(end.terms[i] == constraints@[i]@);
            }
        }
        let total = terminal_value(&constraints, n, last, &all, &rounded.final_poly);
        if !total.same(&c1) {
            return Err(WhirVerifierError::TerminalMismatch);
        }
        Ok(())
    }
}

impl Tower {
    /// The prover's state after the folds of round `r`.
    pub open spec fn folded(self, ps: PState, r: int) -> PState {
        let e = fold_run(
            FoldRun { folder: ps.folder, sponge: ps.sponge, challenges: ps.challenges },
            self.rounds[r].pow_bits@,
            self.pows.skip(folded_vars(self.rounds, r) as int),
            self.fold(r),
        );
        PState { folder: e.folder, sponge: e.sponge, challenges: e.challenges }
    }

    /// Whether the messages and proofs of work of round `r` are honest.
    pub open spec fn honest_folds(self, ps: PState, r: int) -> bool {
        let start = FoldRun {
            folder: ps.folder,
            sponge: ps.sponge,
            challenges: ps.challenges,
        };
        let at = folded_vars(self.rounds, r) as int;
        let bits = self.rounds[r].pow_bits@;
        let pows = self.pows.skip(at);
        &&& fold_pows_found(start, bits, pows, self.fold(r))
        &&& forall|i: int|
            0 <= i < self.fold(r) ==> #[trigger] self.msgs.skip(at)[i] == fold_run(
                start,
                bits,
                pows,
                i as nat,
            ).folder.message()
    }

    /// Whether root and out-of-domain samples of round `r` are honest, where `ps` is the
    /// state after its folds.
    pub open spec fn honest_samples(self, ps: PState, r: int) -> bool {
        let c = self.commitments[r];
        let s1 = ps.sponge.observe_all(c.root);
        let left = self.left(r + 1);
        &&& c.root == merkle_root(
            seq![ext_matrix(ps.folder.f, 0, left + self.rounds[r].log_inv_rate as nat)],
        )
        &&& c.answers.len() == self.rounds[r].ood_samples
        &&& answers_honest(s1, ps.folder.f, c.answers, left)
        &&& c.points == ood_points_of(s1, c.answers, left)
    }

    /// The prover's state after the out-of-domain samples of round `r`.
    pub open spec fn sampled(self, ps: PState, r: int) -> PState {
        let c = self.commitments[r];
        let a = c.answers.len();
        let drawn = ood_sponge(ps.sponge.observe_all(c.root), c.answers, self.left(r + 1), a);
        let batch = drawn.drawn_ext();
        let coeffs = batch_coeffs(batch, batch, a);
        PState {
            folder: FolderVal {
                f: ps.folder.f,
                w: absorbed(ps.folder.w, eq_tables(c.points), coeffs, a as int),
                claim: batched_claim(ps.folder.claim, c.answers, coeffs, a as int),
            },
            sponge: drawn.after_draw_ext(),
            challenges: ps.challenges,
        }
    }

    /// The prover's state after `r` whole rounds.
    pub open spec fn climb(self, start: PState, r: int) -> PState
        decreases r,
    {
        if r <= 0 {
            start
        } else {
            self.sampled(self.folded(self.climb(start, r - 1), r - 1), r - 1)
        }
    }

    /// Whether round `r` is honest.
    pub open spec fn honest_round(self, start: PState, r: int) -> bool {
        let at = self.climb(start, r);
        self.honest_folds(at, r) && self.honest_samples(self.folded(at, r), r)
    }

    /// The prover's state after every fold.
    pub open spec fn top(self, start: PState) -> PState {
        self.folded(self.climb(start, self.m() - 1), self.m() - 1)
    }

    /// Whether messages, samples and revealed polynomial are those of an honest prover.
    pub open spec fn honest(self, start: PState) -> bool {
        let m = self.m();
        &&& self.commitments.len() == m - 1
        &&& self.msgs.len() == folded_vars(self.rounds, m as int)
        &&& self.pows.len() == self.msgs.len()
        &&& forall|r: int| 0 <= r < m - 1 ==> #[trigger] self.honest_round(start, r)
        &&& self.honest_folds(self.climb(start, m - 1), m - 1)
        &&& self.final_poly == self.top(start).folder.f
    }
}

proof fn climb_ext(a: Tower, b: Tower, start: PState, r: int)
    requires
        a.n == b.n,
        a.rounds == b.rounds,
        forall|i: int| 0 <= i < r ==> #[trigger] a.commitments[i] == b.commitments[i],
        forall|i: int|
            0 <= i < folded_vars(a.rounds, r) ==> #[trigger] a.pows[i] == b.pows[i],
        folded_vars(a.rounds, r) <= a.pows.len(),
        folded_vars(a.rounds, r) <= b.pows.len(),
    ensures
        a.climb(start, r) == b.climb(start, r),
    decreases r,
{
    if r > 0 {
        let j = r - 1;
        folded_vars_monotone(a.rounds, j, r);
        climb_ext(a, b, start, j);
        folded_ext(a, b, a.climb(start, j), j);
        assert(a.commitments[j] == b.commitments[j]);
    }
}

proof fn folded_ext(a: Tower, b: Tower, ps: PState, r: int)
    requires
        0 <= r,
        a.n == b.n,
        a.rounds == b.rounds,
        forall|i: int|
            0 <= i < folded_vars(a.rounds, r + 1) ==> #[trigger] a.pows[i] == b.pows[i],
        folded_vars(a.rounds, r + 1) <= a.pows.len(),
        folded_vars(a.rounds, r + 1) <= b.pows.len(),
    ensures
        a.folded(ps, r) == b.folded(ps, r),
{
    let at = folded_vars(a.rounds, r) as int;
    let start = FoldRun { folder: ps.folder, sponge: ps.sponge, challenges: ps.challenges };
    let pa = a.pows.skip(at);
    let pb = b.pows.skip(at);
    assert forall|i: int| 0 <= i < a.fold(r) implies #[trigger] pa[i] == pb[i] by {
        assert(a.pows[at + i] == b.pows[at + i]);
    }
    fold_run_ext(start, a.rounds[r].pow_bits@, pa, pb, a.fold(r));
}

proof fn honest_folds_ext(a: Tower, b: Tower, ps: PState, r: int)
    requires
        0 <= r,
        a.n == b.n,
        a.rounds == b.rounds,
        forall|i: int|
            0 <= i < folded_vars(a.rounds, r + 1) ==> #[trigger] a.pows[i] == b.pows[i],
        forall|i: int|
            0 <= i < folded_vars(a.rounds, r + 1) ==> #[trigger] a.msgs[i] == b.msgs[i],
        folded_vars(a.rounds, r + 1) <= a.pows.len(),
        folded_vars(a.rounds, r + 1) <= b.pows.len(),
        folded_vars(a.rounds, r + 1) <= a.msgs.len(),
        folded_vars(a.rounds, r + 1) <= b.msgs.len(),
        a.honest_folds(ps, r),
    ensures
        b.honest_folds(ps, r),
{
    let at = folded_vars(a.rounds, r) as int;
    let start = FoldRun { folder: ps.folder, sponge: ps.sponge, challenges: ps.challenges };
    let bits = a.rounds[r].pow_bits@;
    let pa = a.pows.skip(at);
    let pb = b.pows.skip(at);
    assert forall|i: int| 0 <= i < a.fold(r) implies #[trigger] pa[i] == pb[i] by {
        assert(a.pows[at + i] == b.pows[at + i]);
    }
    assert forall|i: int| 0 <= i < a.fold(r) implies is_grind(
        pow_sponge(start, bits, pb, i as nat),
        pow_bits_at(bits, i),
        #[trigger] pb[i],
    ) by {
        assert(pa[i] == pb[i]);
        fold_run_ext(start, bits, pa, pb, i as nat);
    }
    assert forall|i: int| 0 <= i < a.fold(r) implies #[trigger] b.msgs.skip(at)[i] == fold_run(
        start,
        bits,
        pb,
        i as nat,
    ).folder.message() by {
        fold_run_ext(start, bits, pa, pb, i as nat);
        assert(a.msgs[at + i] == b.msgs[at + i]);
        assert(a.msgs.skip(at)[i] == b.msgs.skip(at)[i]);
    }
}

/// An honest tower is accepted: where prover and verifier start from one transcript, the
/// prover's claim is the inner product of weight and polynomial, and the weight is that
/// of the verifier's starting constraints.
pub proof fn honest_tower_is_accepted(t: Tower, st0: VState, ps0: PState)
    requires
        t.m() > 0,
        folded_vars(t.rounds, t.m() as int) <= t.n,
        t.honest(ps0),
        st0.sponge == ps0.sponge,
        st0.claim == ps0.folder.claim,
        st0.challenges == ps0.challenges,
        sound_folder(ps0.folder, st0.terms, t.n, ps0.challenges, t.n),
    ensures
        t.rounds_refusal(st0) is None,
        t.final_poly.len() == pow2(t.last()),
{
    let r = t.m() - 1;
    assert(t.left(0) == t.n);
    climb_in_step(t, st0, ps0, r);
    tower_folds_in_step(t, t.run(st0, r), t.climb(ps0, r), r);
    let end = t.end(st0);
    reveal(sound_folder);
    dot_weight_is_terminal_sum(
        end.terms,
        t.n,
        t.last(),
        end.challenges,
        t.final_poly,
        end.terms.len(),
    );
}

#[verifier::spinoff_prover]
#[verifier::rlimit(30)]
proof fn tower_folds_in_step(t: Tower, st: VState, ps: PState, r: int)
    requires
        0 <= r < t.m(),
        folded_vars(t.rounds, t.m() as int) <= t.n,
        t.msgs.len() == folded_vars(t.rounds, t.m() as int),
        t.pows.len() == t.msgs.len(),
        st.sponge == ps.sponge,
        st.claim == ps.folder.claim,
        st.challenges == ps.challenges,
        sound_folder(ps.folder, st.terms, t.n, ps.challenges, t.left(r)),
        t.honest_folds(ps, r),
    ensures
        t.folds_refusal(st, r) is None,
        ({
            let st1 = t.after_folds(st, r);
            let ps1 = t.folded(ps, r);
            &&& st1.sponge == ps1.sponge
            &&& st1.claim == ps1.folder.claim
            &&& st1.challenges == ps1.challenges
            &&& st1.terms == st.terms
            &&& sound_folder(ps1.folder, st1.terms, t.n, ps1.challenges, t.left(r + 1))
        }),
{
    folded_vars_monotone(t.rounds, r + 1, t.m() as int);
    let at = folded_vars(t.rounds, r) as int;
    assert(folded_vars(t.rounds, r + 1) == folded_vars(t.rounds, r) + t.fold(r));
    assert(t.left(r + 1) == t.left(r) - t.fold(r));
    replay_of_honest_folds(
        FoldRun { folder: ps.folder, sponge: ps.sponge, challenges: ps.challenges },
        st.terms,
        t.n,
        t.left(r),
        t.msgs.skip(at),
        t.rounds[r].pow_bits@,
        t.pows.skip(at),
        t.fold(r),
        r,
        "degree-2 message"@,
    );
}

proof fn climb_in_step(t: Tower, st0: VState, ps0: PState, r: int)
    requires
        0 <= r < t.m(),
        folded_vars(t.rounds, t.m() as int) <= t.n,
        t.msgs.len() == folded_vars(t.rounds, t.m() as int),
        t.pows.len() == t.msgs.len(),
        forall|i: int| 0 <= i < t.m() - 1 ==> #[trigger] t.honest_round(ps0, i),
        st0.sponge == ps0.sponge,
        st0.claim == ps0.folder.claim,
        st0.challenges == ps0.challenges,
        sound_folder(ps0.folder, st0.terms, t.n, ps0.challenges, t.n),
    ensures
        t.run_refusal(st0, r) is None,
        ({
            let st = t.run(st0, r);
            let ps = t.climb(ps0, r);
            &&& st.sponge == ps.sponge
            &&& st.claim == ps.folder.claim
            &&& st.challenges == ps.challenges
            &&& sound_folder(ps.folder, st.terms, t.n, ps.challenges, t.left(r))
        }),
    decreases r,
{
    if r == 0 {
        assert(t.left(0) == t.n);
    } else {
        let j = r - 1;
        climb_in_step(t, st0, ps0, j);
        assert(t.honest_round(ps0, j));
        let st = t.run(st0, j);
        let ps = t.climb(ps0, j);
        tower_folds_in_step(t, st, ps, j);
        let st1 = t.after_folds(st, j);
        let ps1 = t.folded(ps, j);
        folded_vars_monotone(t.rounds, r, t.m() as int);
        reveal(sound_folder);
        let c = t.commitments[j];
        let s1 = ps1.sponge.observe_all(c.root);
        let left = t.left(r);
        let a = c.answers.len();
        ood_matches(s1, c.answers, c.points, left, a, r);
        let batch = ood_sponge(s1, c.answers, left, a).drawn_ext();
        let coeffs = batch_coeffs(batch, batch, a);
        assert forall|i: int| 0 <= i < coeffs.len() implies (#[trigger] coeffs[i]).canon() by {
            mul_canon(batch, e_pow(batch, i as nat));
        }
        let f = ps1.folder.f;
        let w = ps1.folder.w;
        let tables = eq_tables(c.points);
        assert forall|i: int| 0 <= i < a implies (#[trigger] tables[i]).len() == w.len() by {
            assert(c.points[i].len() == left);
        }
        assert forall|i: int| 0 <= i < a implies #[trigger] c.answers[i] == dot(tables[i], f) by {
            assert(c.points[i].len() == left);
            mle_eval_is_weighted_sum(f, c.points[i]);
        }
        batching_keeps_claim(w, f, tables, c.answers, coeffs, a as int);
        absorbed_len(w, tables, coeffs, a as int);
        absorbed_canon(w, tables, coeffs, a as int);
        weight_of_append(
            st1.terms,
            false,
            c.points,
            coeffs,
            t.n,
            ps1.challenges,
            left,
            a as int,
        );
        let terms = st1.terms + terms_of(false, c.points, coeffs, left);
        assert(terms.len() == st1.terms.len() + a);
        assert forall|i: int| 0 <= i < terms.len() implies term_fits(#[trigger] terms[i], t.n, left) by {
            if i < st1.terms.len() {
                assert(terms[i] == st1.terms[i]);
            } else {
                let k = i - st1.terms.len();
                assert(terms[i] == terms_of(false, c.points, coeffs, left)[k]);
                assert(c.points[k].len() == left);
            }
        }
    }
}

proof fn ood_matches(
    s: Sponge,
    answers: Seq<E4>,
    points: Seq<Seq<E4>>,
    vars: nat,
    k: nat,
    round: int,
)
    requires
        points == ood_points_of(s, answers, vars),
        k <= answers.len(),
    ensures
        ood_refusal(s, answers, points, vars, k, round) is None,
    decreases k,
{
    if k > 0 {
        ood_matches(s, answers, points, vars, (k - 1) as nat, round);
    }
}

/// A commitment that the prover keeps.
pub struct WhirCommitment {
    /// The root with its out-of-domain samples.
    pub parsed: ParsedCommitment,
    /// The tree.
    pub tree: CommittedRows,
}

/// The root of the flat codeword of base-field values over `n` variables.
pub open spec fn flat_root(f: Seq<int>, log_height: nat) -> Seq<int> {
    merkle_root(seq![base_matrix(f, 0, log_height)])
}

impl WhirProver {
    /// The schedule fits the tower over `n` variables.
    pub open spec fn tower_fits(&self, n: nat) -> bool {
        let rounds = self.config.round_parameters@;
        let m = rounds.len();
        &&& m > 0
        &&& folded_vars(rounds, m as int) <= n
        &&& n + self.config.starting_log_inv_rate <= 24
        &&& pow2(n + self.config.starting_log_inv_rate as nat) <= usize::MAX
        &&& forall|r: int|
            0 <= r < m ==> {
                &&& (#[trigger] rounds[r]).feasible()
                &&& r + 1 < m ==> left_of(n, rounds, r + 1) + rounds[r].log_inv_rate <= 26
                &&& r + 1 < m ==> 4 * pow2(
                    left_of(n, rounds, r + 1) + rounds[r].log_inv_rate as nat,
                ) <= usize::MAX
            }
    }

    /// Encodes and commits to the polynomial, then draws and answers the starting
    /// out-of-domain samples. The root is absorbed before the points are drawn, and
    /// each answer before the next point.
    pub fn commit_with_ood(&self, challenger: &mut Transcript, values: &Vec<Felt>) -> (r:
        WhirCommitment)
        requires
            old(challenger).wf(),
            values@.len() == pow2(ceil_log2_of(values@.len())),
            self.tower_fits(ceil_log2_of(values@.len())),
        ensures
            final(challenger).wf(),
            ({
                let n = ceil_log2_of(values@.len());
                let f = fvals(values@);
                let log = n + self.config.starting_log_inv_rate as nat;
                let s1 = old(challenger)@.observe_all(flat_root(f, log));
                let c = parsed_val(r.parsed);
                &&& r.parsed.commitment@.len() == 1
                &&& r.parsed.ood_points@.len() == r.parsed.ood_answers@.len()
                &&& c.root == flat_root(f, log)
                &&& c.answers == honest_answers(
                    s1,
                    lift(f),
                    n,
                    self.config.starting_ood_samples as nat,
                )
                &&& c.points == ood_points_of(s1, c.answers, n)
                &&& forall|i: int|
                    0 <= i < r.parsed.ood_points@.len() ==> (
                    #[trigger] r.parsed.ood_points@[i])@.len() == n
                &&& committed_matrices(r.tree) == seq![base_matrix(f, 0, log)]
                &&& final(challenger)@ == ood_sponge(s1, c.answers, n, c.answers.len())
            }),
    {
        let n: usize = crate::arith::ceil_log2(values.len());
        let ghost f = fvals(values@);
        let rate: usize = self.config.starting_log_inv_rate;
        let log: usize = n + rate;
        let matrix = encode_interleaved_base(values, 0, rate, n);
        proof {
            lemma2_to64();
            pow2_le(log as nat, 24);
            lemma_pow2_pos(log as nat);
            let m = matrix_val(matrix);
            let cw = codeword(lift(f), 0, log as nat);
            assert(lift(m.0).len() == m.0.len());
            assert forall|t: int| 0 <= t < m.0.len() implies #[trigger] m.0[t] == cw[t].c0 by {
                assert(lift(m.0)[t] == cw[t]);
            }
            assert(m.0 =~= constants(cw));
            assert(m == base_matrix(f, 0, log as nat));
        }
        let height: usize = pow2_usize(log);
        let mut matrices: Vec<Matrix> = Vec::new();
        matrices.push(matrix);
        proof {
            assert(matrices_val(matrices@) =~= seq![base_matrix(f, 0, log as nat)]);
            assert(matrices@[0].values@.len() == fvals(matrices@[0].values@).len());
        }
        let (root, tree) = merkle_commit(&matrices, height);
        let felts = digest_felts(&root);
        challenger.observe_slice(&felts);
        let ghost s1 = challenger@;
        let lifted = lift_felts(values.as_slice());
        proof {
            assert(lifted@.len() == evals(lifted@).len());
        }
        let (ood_points, ood_answers) = answer_ood(
            lifted.as_slice(),
            n,
            self.config.starting_ood_samples,
            challenger,
        );
        proof {
            let ans = evals(ood_answers@);
            honest_answers_unique(s1, lift(f), ans, n as nat, ans.len());
            assert(ans.take(ans.len() as int) =~= ans);
        }
        let mut commitment: Vec<Digest> = Vec::new();
        commitment.push(root);
        WhirCommitment { parsed: ParsedCommitment { commitment, ood_points, ood_answers }, tree }
    }

    /// Commits to the folded polynomial of round `r`, draws and answers its
    /// out-of-domain samples, and batches them into weight and claim.
    fn climb_samples(
        &self,
        r: usize,
        left: usize,
        folder: &mut WhirFolder,
        challenger: &mut Transcript,
        Ghost(t): Ghost<Tower>,
        Ghost(ps): Ghost<PState>,
    ) -> (res: RoundCommitment)
        requires
            self.tower_fits(t.n),
            t.rounds == self.config.round_parameters@,
            r + 1 < t.m(),
            left == t.left(r + 1),
            old(challenger).wf(),
            old(folder).wf(),
            old(folder).vars() == left,
            ps.folder == old(folder)@,
            ps.sponge == old(challenger)@,
        ensures
            final(challenger).wf(),
            res.parsed.commitment@.len() == 1,
            forall|u: Tower|
                u.n == t.n && u.rounds == t.rounds && u.commitments[r as int] == parsed_val(
                    res.parsed,
                ) ==> {
                    let e = #[trigger] u.sampled(ps, r as int);
                    &&& u.honest_samples(ps, r as int)
                    &&& final(folder)@ == e.folder
                    &&& final(challenger)@ == e.sponge
                },
            final(folder).wf(),
            final(folder).vars() == left,
            final(folder)@.f == old(folder)@.f,
    {
        let cfg = &self.config.round_parameters[r];
        proof {
            assert(t.rounds[r as int].feasible());
        }
        let matrix = encode_interleaved_ef(&folder.f_vec, 0, cfg.log_inv_rate, left);
        let log: usize = left + cfg.log_inv_rate;
        proof {
            lemma2_to64();
            pow2_le(log as nat, 26);
            lemma_pow2_pos(log as nat);
        }
        let height: usize = pow2_usize(log);
        let mut matrices: Vec<Matrix> = Vec::new();
        matrices.push(matrix);
        proof {
            assert(matrices_val(matrices@) =~= seq![ext_matrix(folder@.f, 0, log as nat)]);
            assert(matrices@[0].values@.len() == fvals(matrices@[0].values@).len());
        }
        let (root, tree) = merkle_commit(&matrices, height);
        let felts = digest_felts(&root);
        challenger.observe_slice(&felts);
        let (ood_points, ood_answers) = answer_ood(
            folder.f_vec.as_slice(),
            left,
            cfg.ood_samples,
            challenger,
        );
        let batch = challenger.sample_algebra_element();
        folder.add_ood_constraints(&ood_points, &ood_answers, batch);
        let mut commitment: Vec<Digest> = Vec::new();
        commitment.push(root);
        let parsed = ParsedCommitment { commitment, ood_points, ood_answers };
        proof {
            let c = parsed_val(parsed);
            assert(c.answers.len() == parsed.ood_answers@.len());
            assert forall|u: Tower|
                u.n == t.n && u.rounds == t.rounds && u.commitments[r as int] == c implies {
                let e = #[trigger] u.sampled(ps, r as int);
                &&& u.honest_samples(ps, r as int)
                &&& folder@ == e.folder
                &&& challenger@ == e.sponge
            } by {
                assert(u.left(r + 1) == left);
            }
        }
        RoundCommitment { parsed, tree }
    }

    /// Folds the variables of round `r`, appending messages and challenges.
    fn climb_folds(
        &self,
        r: usize,
        folder: &mut WhirFolder,
        all: &mut Vec<Ext>,
        round_polys: &mut Vec<(SumcheckPoly, ProofOfWork)>,
        challenger: &mut Transcript,
        Ghost(t): Ghost<Tower>,
        Ghost(start): Ghost<PState>,
    ) -> (res: bool)
        requires
            self.tower_fits(t.n),
            t.rounds == self.config.round_parameters@,
            r < t.m(),
            t.msgs == pair_msgs(old(round_polys)@),
            t.pows == pair_pows(old(round_polys)@),
            t.commitments.len() == r,
            old(round_polys)@.len() == folded_vars(t.rounds, r as int),
            old(challenger).wf(),
            old(folder).wf(),
            old(folder).vars() == t.left(r as int),
            old(folder)@ == t.climb(start, r as int).folder,
            old(challenger)@ == t.climb(start, r as int).sponge,
            evals(old(all)@) == t.climb(start, r as int).challenges,
            forall|i: int| 0 <= i < r ==> #[trigger] t.honest_round(start, i),
        ensures
            final(challenger).wf(),
            !res ==> t.stuck_at(start, r as int),
            res ==> {
                let u = Tower {
                    msgs: pair_msgs(final(round_polys)@),
                    pows: pair_pows(final(round_polys)@),
                    ..t
                };
                let ps = t.climb(start, r as int);
                let e = u.folded(ps, r as int);
                &&& u.climb(start, r as int) == ps
                &&& u.honest_folds(ps, r as int)
                &&& forall|i: int| 0 <= i < r ==> #[trigger] u.honest_round(start, i)
                &&& final(folder)@ == e.folder
                &&& final(challenger)@ == e.sponge
                &&& evals(final(all)@) == e.challenges
                &&& final(folder).wf()
                &&& final(folder).vars() == t.left(r + 1)
                &&& final(round_polys)@.len() == folded_vars(t.rounds, r + 1)
            },
    {
        let cfg = &self.config.round_parameters[r];
        let ghost ps = t.climb(start, r as int);
        proof {
            folded_vars_monotone(t.rounds, r + 1, t.m() as int);
            assert(t.rounds[r as int].feasible());
            assert(folded_vars(t.rounds, r + 1) == folded_vars(t.rounds, r as int)
                + t.rounds[r as int].folding_factor);
        }
        let ghost begin = FoldRun {
            folder: ps.folder,
            sponge: ps.sponge,
            challenges: ps.challenges,
        };
        let pairs = match folder.fold_variables(
            cfg.folding_factor,
            &cfg.pow_bits,
            challenger,
            all,
        ) {
            None => {
                return false;
            },
            Some(p) => p,
        };
        let ghost list = pairs@;
        append_pairs(round_polys, pairs);
        proof {
            let u = Tower {
                msgs: pair_msgs(round_polys@),
                pows: pair_pows(round_polys@),
                ..t
            };
            let at = folded_vars(t.rounds, r as int) as int;
            assert(u.pows.skip(at) =~= out_pows(list));
            assert forall|i: int| 0 <= i < at implies #[trigger] t.pows[i] == u.pows[i] by {}
            assert forall|i: int| 0 <= i < at implies #[trigger] t.msgs[i] == u.msgs[i] by {}
            assert forall|i: int| 0 <= i < r implies #[trigger] u.honest_round(start, i) by {
                assert(t.honest_round(start, i));
                folded_vars_monotone(t.rounds, i + 1, r as int);
                honest_round_ext(t, u, start, i);
            }
            climb_ext(t, u, start, r as int);
            assert forall|i: int| 0 <= i < t.fold(r as int) implies #[trigger] u.msgs.skip(at)[i]
                == fold_run(begin, cfg.pow_bits@, out_pows(list), i as nat).folder.message() by {
                assert(u.msgs.skip(at)[i] == evals(list[i].0.0@));
            }
        }
        true
    }

    /// Runs the folding tower over base-field values, for the claim that they have the
    /// value `eval` at `point`. `None` where some proof of work does not exist.
    #[verifier::rlimit(60)]
    #[verifier::spinoff_prover]
    pub fn prove_rounds(
        &self,
        challenger: &mut Transcript,
        values: &Vec<Felt>,
        point: &Vec<Ext>,
        eval: Ext,
    ) -> (res: Option<RoundedProof>)
        requires
            old(challenger).wf(),
            values@.len() == pow2(point@.len()),
            self.tower_fits(point@.len()),
        ensures
            final(challenger).wf(),
            ({
                let n = point@.len();
                let f = fvals(values@);
                let root = flat_root(f, n + self.config.starting_log_inv_rate as nat);
                let s1 = old(challenger)@.observe_all(root);
                let start = prover_start(
                    s1,
                    lift(f),
                    n,
                    self.config.starting_ood_samples as nat,
                    evals(point@),
                    eval@,
                );
                match res {
                    Some(p) => {
                        let t = tower_of(self.config, n, p);
                        let top = t.top(start);
                        &&& p.starting.commitment@.len() == 1
                        &&& t.starting.root == root
                        &&& t.starting.answers == honest_answers(
                            s1,
                            lift(f),
                            n,
                            self.config.starting_ood_samples as nat,
                        )
                        &&& t.starting.points == ood_points_of(s1, t.starting.answers, n)
                        &&& forall|r: int|
                            0 <= r < p.rounds@.len() ==> (
                            #[trigger] p.rounds@[r]).parsed.commitment@.len() == 1
                        &&& t.honest(start)
                        &&& evals(p.folding_randomness@) == top.challenges
                        &&& evals(p.final_weight@) == top.folder.w
                        &&& p.final_claim@ == top.folder.claim
                        &&& final(challenger)@ == top.sponge
                    },
                    None => exists|t: Tower, r: int|
                        {
                            &&& t.n == n
                            &&& t.rounds == self.config.round_parameters@
                            &&& 0 <= r < t.m()
                            &&& forall|i: int| 0 <= i < r ==> #[trigger] t.honest_round(start, i)
                            &&& #[trigger] t.stuck_at(start, r)
                        },
                }
            }),
    {
        let n: usize = point.len();
        let ghost f = fvals(values@);
        let ghost root = flat_root(f, n as nat + self.config.starting_log_inv_rate as nat);
        let ghost s1 = challenger@.observe_all(root);
        let ghost start = prover_start(
            s1,
            lift(f),
            n as nat,
            self.config.starting_ood_samples as nat,
            evals(point@),
            eval@,
        );
        let size: usize = values.len();
        proof {
            ceil_log2_is_least(pow2(n as nat));
            log2_of_pow2(pow2(n as nat), ceil_log2_of(pow2(n as nat)), n as nat);
        }
        let committed = self.commit_with_ood(challenger, values);
        proof {
            assert(evals(committed.parsed.ood_answers@).len()
                == committed.parsed.ood_answers@.len());
        }
        let mut folder = seat_folder(
            values,
            point,
            eval,
            &committed.parsed.ood_points,
            &committed.parsed.ood_answers,
            challenger,
        );
        let m: usize = self.config.round_parameters.len();
        let mut all: Vec<Ext> = Vec::new();
        let mut round_polys: Vec<(SumcheckPoly, ProofOfWork)> = Vec::new();
        let mut rounds: Vec<RoundCommitment> = Vec::new();
        let mut left: usize = n;
        let mut r: usize = 0;
        let ghost mut t = Tower {
            n: n as nat,
            rounds: self.config.round_parameters@,
            starting: parsed_val(committed.parsed),
            commitments: Seq::empty(),
            msgs: Seq::empty(),
            pows: Seq::empty(),
            final_poly: Seq::empty(),
        };
        proof {
            assert(evals(all@) =~= Seq::<E4>::empty());
            assert(pair_msgs(round_polys@) =~= Seq::<Seq<E4>>::empty());
            assert(pair_pows(round_polys@) =~= Seq::<int>::empty());
            assert(t.left(0) == n);
        }
        while r + 1 < m
            invariant
                m == t.m(),
                r < m,
                self.tower_fits(n as nat),
                t.n == n,
                t.rounds == self.config.round_parameters@,
                t.msgs == pair_msgs(round_polys@),
                t.pows == pair_pows(round_polys@),
                t.commitments == Seq::new(rounds@.len(), |i: int| parsed_val(rounds@[i].parsed)),
                rounds@.len() == r,
                round_polys@.len() == folded_vars(t.rounds, r as int),
                challenger.wf(),
                folder.wf(),
                left == t.left(r as int),
                left <= n,
                folder.vars() == left,
                forall|i: int|
                    0 <= i < rounds@.len() ==> (
                    #[trigger] rounds@[i]).parsed.commitment@.len() == 1,
                forall|i: int| 0 <= i < r ==> #[trigger] t.honest_round(start, i),
                folder@ == t.climb(start, r as int).folder,
                challenger@ == t.climb(start, r as int).sponge,
                evals(all@) == t.climb(start, r as int).challenges,
                start == prover_start(
                    s1,
                    lift(f),
                    n as nat,
                    self.config.starting_ood_samples as nat,
                    evals(point@),
                    eval@,
                ),
                s1 == old(challenger)@.observe_all(root),
                f == fvals(values@),
                n == point@.len(),
                root == flat_root(f, n as nat + self.config.starting_log_inv_rate as nat),
            decreases m - r,
        {
            let ghost before = t;
            let ghost ps = t.climb(start, r as int);
            if !self.climb_folds(
                r,
                &mut folder,
                &mut all,
                &mut round_polys,
                challenger,
                Ghost(t),
                Ghost(start),
            ) {
                return None;
            }
            let ghost middle = Tower {
                msgs: pair_msgs(round_polys@),
                pows: pair_pows(round_polys@),
                ..before
            };
            proof {
                folded_vars_monotone(t.rounds, r + 1, t.m() as int);
            }
            left = left - self.config.round_parameters[r].folding_factor;
            let ghost ps1 = middle.folded(ps, r as int);
            let round = self.climb_samples(
                r,
                left,
                &mut folder,
                challenger,
                Ghost(middle),
                Ghost(ps1),
            );
            rounds.push(round);
            proof {
                t = Tower {
                    commitments: before.commitments.push(parsed_val(round.parsed)),
                    ..middle
                };
                assert(t.commitments =~= Seq::new(
                    rounds@.len(),
                    |i: int| parsed_val(rounds@[i].parsed),
                ));
                grown_samples(middle, t, start, ps, r as int);
                let e = t.sampled(ps1, r as int);
                assert(t.honest_samples(ps1, r as int));
                assert(t.honest_round(start, r as int));
                assert(t.climb(start, r + 1) == e);
            }
            r = r + 1;
        }
        let ghost before = t;
        let ghost ps = t.climb(start, r as int);
        if !self.climb_folds(
            r,
            &mut folder,
            &mut all,
            &mut round_polys,
            challenger,
            Ghost(t),
            Ghost(start),
        ) {
            return None;
        }
        proof {
            t = Tower {
                msgs: pair_msgs(round_polys@),
                pows: pair_pows(round_polys@),
                ..before
            };
        }
        let p = RoundedProof {
            starting: committed.parsed,
            starting_tree: committed.tree,
            rounds,
            round_polys,
            folding_randomness: all,
            final_poly: folder.f_vec,
            final_weight: folder.weight,
            final_claim: folder.claimed_sum,
        };
        proof {
            let u = tower_of(self.config, n as nat, p);
            assert(u.commitments =~= t.commitments);
            grown_final(t, u, start);
        }
        Some(p)
    }
}

impl Tower {
    /// Whether an honest prover stops in round `r` for want of a proof of work.
    pub open spec fn stuck_at(self, start: PState, r: int) -> bool {
        let ps = self.climb(start, r);
        fold_stuck(
            FoldRun { folder: ps.folder, sponge: ps.sponge, challenges: ps.challenges },
            self.rounds[r].pow_bits@,
            self.fold(r),
        )
    }
}

proof fn honest_round_ext(a: Tower, b: Tower, start: PState, r: int)
    requires
        0 <= r,
        a.n == b.n,
        a.rounds == b.rounds,
        forall|i: int| 0 <= i <= r ==> #[trigger] a.commitments[i] == b.commitments[i],
        forall|i: int|
            0 <= i < folded_vars(a.rounds, r + 1) ==> #[trigger] a.pows[i] == b.pows[i],
        forall|i: int|
            0 <= i < folded_vars(a.rounds, r + 1) ==> #[trigger] a.msgs[i] == b.msgs[i],
        folded_vars(a.rounds, r + 1) <= a.pows.len(),
        folded_vars(a.rounds, r + 1) <= b.pows.len(),
        folded_vars(a.rounds, r + 1) <= a.msgs.len(),
        folded_vars(a.rounds, r + 1) <= b.msgs.len(),
        a.honest_round(start, r),
    ensures
        b.honest_round(start, r),
{
    folded_vars_monotone(a.rounds, r, r + 1);
    climb_ext(a, b, start, r);
    let at = a.climb(start, r);
    honest_folds_ext(a, b, at, r);
    folded_ext(a, b, at, r);
    assert(a.commitments[r] == b.commitments[r]);
}

/// One more commitment leaves the rounds before it as they were.
proof fn grown_samples(a: Tower, b: Tower, start: PState, ps: PState, r: int)
    requires
        0 <= r < a.m(),
        a.n == b.n,
        a.rounds == b.rounds,
        a.msgs == b.msgs,
        a.pows == b.pows,
        a.commitments.len() == r,
        forall|i: int| 0 <= i < r ==> #[trigger] a.commitments[i] == b.commitments[i],
        a.pows.len() == folded_vars(a.rounds, r + 1),
        a.msgs.len() == folded_vars(a.rounds, r + 1),
        ps == a.climb(start, r),
        a.honest_folds(ps, r),
        forall|i: int| 0 <= i < r ==> #[trigger] a.honest_round(start, i),
    ensures
        b.climb(start, r) == ps,
        b.folded(ps, r) == a.folded(ps, r),
        b.honest_folds(ps, r),
        forall|i: int| 0 <= i < r ==> #[trigger] b.honest_round(start, i),
{
    assert forall|i: int| 0 <= i < r implies #[trigger] b.honest_round(start, i) by {
        assert(a.honest_round(start, i));
        folded_vars_monotone(a.rounds, i + 1, r + 1);
        honest_round_ext(a, b, start, i);
    }
    folded_vars_monotone(a.rounds, r, r + 1);
    climb_ext(a, b, start, r);
    folded_ext(a, b, ps, r);
    honest_folds_ext(a, b, ps, r);
}

/// A tower with its revealed polynomial filled in is as honest as before.
proof fn grown_final(a: Tower, b: Tower, start: PState)
    requires
        a.m() > 0,
        a.n == b.n,
        a.rounds == b.rounds,
        a.msgs == b.msgs,
        a.pows == b.pows,
        a.commitments == b.commitments,
        a.commitments.len() == a.m() - 1,
        a.pows.len() == folded_vars(a.rounds, a.m() as int),
        a.msgs.len() == folded_vars(a.rounds, a.m() as int),
        forall|i: int| 0 <= i < a.m() - 1 ==> #[trigger] a.honest_round(start, i),
        a.honest_folds(a.climb(start, a.m() - 1), a.m() - 1),
        b.final_poly == a.top(start).folder.f,
    ensures
        b.honest(start),
        b.top(start) == a.top(start),
{
    let r = a.m() - 1;
    assert forall|i: int| 0 <= i < r implies #[trigger] b.honest_round(start, i) by {
        assert(a.honest_round(start, i));
        folded_vars_monotone(a.rounds, i + 1, a.m() as int);
        honest_round_ext(a, b, start, i);
    }
    folded_vars_monotone(a.rounds, r, a.m() as int);
    climb_ext(a, b, start, r);
    folded_ext(a, b, a.climb(start, r), r);
    honest_folds_ext(a, b, a.climb(start, r), r);
}

/// Appends messages with their proofs of work to a list.
fn append_pairs(
    list: &mut Vec<(SumcheckPoly, ProofOfWork)>,
    pairs: Vec<(SumcheckPoly, ProofOfWork)>,
)
    ensures
        pair_msgs(final(list)@) == pair_msgs(old(list)@) + pair_msgs(pairs@),
        pair_pows(final(list)@) == pair_pows(old(list)@) + pair_pows(pairs@),
        final(list)@.len() == old(list)@.len() + pairs@.len(),
{
    let ghost before = list@;
    let mut i: usize = 0;
    while i < pairs.len()
        invariant
            i <= pairs@.len(),
            list@.len() == before.len() + i,
            forall|j: int| 0 <= j < before.len() ==> #[trigger] list@[j] == before[j],
            forall|j: int|
                0 <= j < i ==> evals((#[trigger] list@[before.len() + j]).0.0@) == evals(
                    pairs@[j].0.0@,
                ),
            forall|j: int|
                0 <= j < i ==> (#[trigger] list@[before.len() + j]).1.0@ == pairs@[j].1.0@,
        decreases pairs@.len() - i,
    {
        list.push((SumcheckPoly(copy_exts(pairs[i].0.0.as_slice())), pairs[i].1));
        i = i + 1;
    }
    proof {
        let n = before.len() as int;
        assert forall|j: int| 0 <= j < list@.len() implies pair_msgs(list@)[j] == (pair_msgs(before)
            + pair_msgs(pairs@))[j] by {
            if j >= n {
                assert(list@[n + (j - n)] == list@[j]);
            }
        }
        assert forall|j: int| 0 <= j < list@.len() implies pair_pows(list@)[j] == (pair_pows(before)
            + pair_pows(pairs@))[j] by {
            if j >= n {
                assert(list@[n + (j - n)] == list@[j]);
            }
        }
        assert(pair_msgs(list@) =~= pair_msgs(before) + pair_msgs(pairs@));
        assert(pair_pows(list@) =~= pair_pows(before) + pair_pows(pairs@));
    }
}

} // verus!
