//! WHIR with the interleaved commitment, for one polynomial.
//!
//! The polynomial is read as a matrix with one row for each assignment of the high
//! variables and one column for each assignment of the `ff` low ones, and every
//! column is encoded on its own. Row `j` of the codeword holds, for each assignment
//! of the low variables, the high variables' monomial evaluation at `x_j = g^j`.
//! Folding a row at the round's challenges is then the monomial evaluation at `x_j`
//! of the folded polynomial.
use vstd::prelude::*;
use vstd::arithmetic::power2::{lemma2_to64, pow2};
use crate::arith::{ceil_log2, ceil_log2_is_least, ceil_log2_of, log2_of_pow2, pow2_le, pow2_usize};
use crate::ext::{all_canon, e_one, e_pow, epoints, evals, fvals, lift, mul_canon, Ext, E4};
use crate::felt::Felt;
use crate::merkle::{committed_matrices, matrices_val, matrix_val, merkle_commit, merkle_root,
    uniform, CommittedRows, Digest, Matrix};
use crate::mle::{dot, eq_tab, eq_weight_canon, mle_eval, mle_eval_is_weighted_sum};
use crate::multilinear::{copy_exts, lift_felts};
use crate::text::{decimal, decimal_string, join};
use crate::transcript::{Sponge, Transcript};
use crate::whir::completeness::{batching_keeps_claim, honest_proof_is_accepted, schedule_ok,
    sound_folder, weight_of_append, weight_of_first};
use crate::whir::backend::{HostBackend, RoundBackend};
use crate::whir::config::{folded_vars, folded_vars_monotone, WhirConfig};
use crate::whir::encode::{base_matrix, codeword, constants, encode_interleaved_base};
use crate::whir::honest::{Prover, PState};
use crate::whir::messages::{ProofVal, WhirProof, WhirRefusal, WhirVerifierError};
use crate::whir::proving::{answer_ood, honest_answers, honest_answers_hold, honest_answers_unique,
    prove_from, prover_fits, tree_vals, trees_shaped};
use crate::whir::queries::{Source, SourceVal};
use crate::whir::replay::{accepted_points_are_found, check_ood, ood_accepted, ood_points_of,
    ood_refusal, ood_sponge, points_found,
    push_terms, term_fits, terms_of, terms_val, Constraint, Term};
use crate::whir::rounds::{digest_felts, fits_overall, verify_from, Instance, VState, Words,
    WordsVal};
use crate::whir::sumcheck::{absorbed, absorbed_canon, absorbed_len, add_batched, batch_coeffs,
    batched_claim, batched_eq_weight, eq_tables, powers_from, FolderVal, WhirFolder};

verus! {

/// The verifier of an evaluation claim on one committed polynomial.
#[derive(Debug)]
pub struct WhirInterleavedVerifier {
    /// The schedule.
    pub config: WhirConfig,
    /// The root of the starting codeword.
    pub start_commitment: Digest,
    /// The out-of-domain points of the starting polynomial.
    pub start_ood_points: Vec<Vec<Ext>>,
    /// The values at those points.
    pub start_ood_answers: Vec<Ext>,
}

/// The refusal of a revealed polynomial of the wrong length.
pub open spec fn final_poly_refusal(len: nat, last: nat) -> WhirRefusal {
    WhirRefusal::IncorrectShape(
        (("final_poly len "@ + decimal(len)) + " != 2^"@) + decimal(last),
    )
}

/// The refusal of a revealed polynomial of the wrong length, as an error.
pub fn final_poly_error(len: usize, last: usize) -> (r: WhirVerifierError)
    ensures
        r@ == final_poly_refusal(len as nat, last as nat),
{
    let head = join("final_poly len ".to_owned(), decimal_string(len).as_str());
    let middle = join(head, " != 2^");
    WhirVerifierError::IncorrectShape(join(middle, decimal_string(last).as_str()))
}

/// The number of variables that a schedule folds, where it is at most `n`.
pub fn total_folds(config: &WhirConfig, n: usize) -> (r: usize)
    requires
        folded_vars(config.round_parameters@, config.round_parameters@.len() as int) <= n,
    ensures
        r == folded_vars(config.round_parameters@, config.round_parameters@.len() as int),
{
    let mut total: usize = 0;
    let mut i: usize = 0;
    while i < config.round_parameters.len()
        invariant
            i <= config.round_parameters@.len(),
            folded_vars(config.round_parameters@, config.round_parameters@.len() as int) <= n,
            total == folded_vars(config.round_parameters@, i as int),
        decreases config.round_parameters@.len() - i,
    {
        proof {
            folded_vars_monotone(
                config.round_parameters@,
                i + 1,
                config.round_parameters@.len() as int,
            );
        }
        total = total + config.round_parameters[i].folding_factor;
        i = i + 1;
    }
    total
}

/// The state of a verifier whose claim and starting out-of-domain answers are batched,
/// where `s` is the transcript after the starting commitment.
pub open spec fn starting_state(
    s: Sponge,
    n: nat,
    point: Seq<E4>,
    eval: E4,
    points: Seq<Seq<E4>>,
    answers: Seq<E4>,
) -> VState {
    let drawn = ood_sponge(s, answers, n, answers.len());
    let batch = drawn.drawn_ext();
    let coeffs = batch_coeffs(batch, batch, answers.len());
    VState {
        sponge: drawn.after_draw_ext(),
        claim: batched_claim(eval, answers, coeffs, answers.len() as int),
        challenges: Seq::empty(),
        terms: seq![Term { monomial: false, point, coeff: e_one(), vars: n }] + terms_of(
            false,
            points,
            coeffs,
            n,
        ),
    }
}

impl WhirInterleavedVerifier {
    /// A verifier for the given schedule and starting commitment.
    pub fn new(
        config: WhirConfig,
        start_commitment: Digest,
        start_ood_points: Vec<Vec<Ext>>,
        start_ood_answers: Vec<Ext>,
    ) -> (r: WhirInterleavedVerifier)
        ensures
            r.config == config,
            r.start_commitment == start_commitment,
            r.start_ood_points == start_ood_points,
            r.start_ood_answers == start_ood_answers,
    {
        WhirInterleavedVerifier { config, start_commitment, start_ood_points, start_ood_answers }
    }

    /// What this verifier works on, for a claim over `n` variables and a proof.
    pub open spec fn instance(&self, n: nat, p: ProofVal) -> Instance {
        let m = self.config.round_parameters@.len();
        Instance {
            n,
            rounds: self.config.round_parameters@,
            start_rate: self.config.starting_log_inv_rate as nat,
            final_queries: self.config.final_queries as nat,
            final_pow_bits: self.config.final_pow_bits as nat,
            start: SourceVal::Single(fvals(self.start_commitment@), true),
            proof_val: p,
            final_root: p.roots[m - 2],
            words: WordsVal {
                messages: "round message count"@,
                degree: "degree-2 message"@,
                openings: "query opening count"@,
                rows: None,
            },
        }
    }

    /// The verifier's state before the rounds.
    pub open spec fn start(&self, s: Sponge, point: Seq<E4>, eval: E4) -> VState {
        starting_state(
            s.observe_all(fvals(self.start_commitment@)),
            point.len(),
            point,
            eval,
            epoints(self.start_ood_points@),
            evals(self.start_ood_answers@),
        )
    }

    /// Why a proof is refused, if it is: the size of the revealed polynomial, the
    /// carried starting points, then the rounds.
    pub open spec fn refusal(
        &self,
        s: Sponge,
        point: Seq<E4>,
        eval: E4,
        p: ProofVal,
    ) -> Option<WhirRefusal> {
        let inst = self.instance(point.len(), p);
        if p.final_poly.len() != pow2(inst.last()) {
            Some(final_poly_refusal(p.final_poly.len(), inst.last()))
        } else {
            match ood_refusal(
                s.observe_all(fvals(self.start_commitment@)),
                evals(self.start_ood_answers@),
                epoints(self.start_ood_points@),
                point.len(),
                self.start_ood_answers@.len(),
                0,
            ) {
                Some(e) => Some(e),
                None => inst.refusal(self.start(s, point, eval)),
            }
        }
    }

    /// Whether a proof has an entry wherever one is looked up. What follows a refusal is not
    /// looked up.
    pub open spec fn entries_found(
        &self,
        s: Sponge,
        point: Seq<E4>,
        eval: E4,
        p: ProofVal,
    ) -> bool {
        let inst = self.instance(point.len(), p);
        let s1 = s.observe_all(fvals(self.start_commitment@));
        let answers = evals(self.start_ood_answers@);
        let points = epoints(self.start_ood_points@);
        p.final_poly.len() == pow2(inst.last()) ==> {
            &&& points_found(s1, answers, points, point.len())
            &&& ood_refusal(s1, answers, points, point.len(), answers.len(), 0) is None
                ==> inst.entries_found(self.start(s, point, eval))
        }
    }

    /// Verifies that the committed polynomial has the value `eval` at `point`.
    pub fn verify(
        &self,
        challenger: &mut Transcript,
        point: &[Ext],
        eval: Ext,
        whir: &WhirProof,
    ) -> (r: Result<(), WhirVerifierError>)
        requires
            old(challenger).wf(),
            self.instance(point@.len(), whir@).fits(),
            self.entries_found(old(challenger)@, evals(point@), eval@, whir@),
        ensures
            final(challenger).wf(),
            match r {
                Ok(_) => {
                    let inst = self.instance(point@.len(), whir@);
                    let start = self.start(old(challenger)@, evals(point@), eval@);
                    &&& self.refusal(old(challenger)@, evals(point@), eval@, whir@) is None
                    &&& final(challenger)@ == inst.final_sponge(inst.end(start)).after_draws(
                        inst.final_queries,
                    )
                },
                Err(e) => self.refusal(old(challenger)@, evals(point@), eval@, whir@) == Some(e@),
            },
    {
        let n: usize = point.len();
        let ghost inst = self.instance(n as nat, whir@);
        let ghost gp = evals(point@);
        proof {
            fits_overall(inst);
        }
        let last: usize = n - total_folds(&self.config, n);
        let expect: usize = pow2_usize(last);
        proof {
            assert(whir@.final_poly.len() == whir.final_poly@.len());
            assert(gp.len() == n);
        }
        if whir.final_poly.len() != expect {
            return Err(final_poly_error(whir.final_poly.len(), last));
        }
        let root = digest_felts(&self.start_commitment);
        challenger.observe_slice(&root);
        let ghost s1 = challenger@;
        match check_ood(&self.start_ood_answers, &self.start_ood_points, n, 0, challenger) {
            Err(e) => {
                return Err(e);
            },
            Ok(_) => {},
        }
        proof {
            accepted_points_are_found(
                s1,
                evals(self.start_ood_answers@),
                epoints(self.start_ood_points@),
                n as nat,
                0,
            );
        }
        let batch = challenger.sample_algebra_element();
        let coeffs = powers_from(batch, batch, self.start_ood_answers.len());
        proof {
            assert(coeffs@.len() == evals(coeffs@).len());
        }
        let claim = add_batched(eval, &self.start_ood_answers, &coeffs);
        let mut constraints: Vec<Constraint> = Vec::new();
        let first = Constraint::Lagrange { point: copy_exts(point), coeff: Ext::one(), vars: n };
        constraints.push(first);
        proof {
            assert(terms_val(constraints@) =~= seq![
                Term { monomial: false, point: gp, coeff: e_one(), vars: n as nat },
            ]);
        }
        push_terms(&mut constraints, false, &self.start_ood_points, &coeffs, n);
        let ghost st0 = self.start(old(challenger)@, gp, eval@);
        proof {
            let pts = epoints(self.start_ood_points@);
            let ans = evals(self.start_ood_answers@);
            ood_accepted(s1, ans, pts, n as nat, ans.len(), 0);
            assert forall|i: int| 0 <= i < st0.terms.len() implies term_fits(
                #[trigger] st0.terms[i],
                inst.n,
                inst.last(),
            ) by {
                if i > 0 {
                    assert(st0.terms[i] == terms_of(false, pts, evals(coeffs@), n as nat)[i - 1]);
                    assert(pts[i - 1] == ood_points_of(s1, ans, n as nat)[i - 1]);
                }
            }
        }
        let words = Words {
            messages: "round message count",
            degree: "degree-2 message",
            openings: "query opening count",
            rows: None,
        };
        let src = Source::Single(&self.start_commitment, true);
        let m: usize = self.config.round_parameters.len();
        let at: usize = if m > 1 {
            m - 2
        } else {
            0
        };
        proof {
            assert(whir@.roots.len() == whir.round_commitments@.len());
            assert(words@ == inst.words);
        }
        verify_from(
            &self.config,
            n,
            &src,
            &words,
            whir,
            at,
            claim,
            constraints,
            challenger,
            Ghost(inst),
            Ghost(st0),
        )
    }
}

/// The state of a prover whose claim and starting out-of-domain answers are batched,
/// where `s` is the transcript after the starting commitment.
pub open spec fn prover_start(
    s: Sponge,
    f: Seq<E4>,
    n: nat,
    samples: nat,
    point: Seq<E4>,
    eval: E4,
) -> PState {
    let answers = honest_answers(s, f, n, samples);
    let drawn = ood_sponge(s, answers, n, answers.len());
    let batch = drawn.drawn_ext();
    let coeffs = batch_coeffs(batch, batch, answers.len());
    PState {
        folder: FolderVal {
            f,
            w: absorbed(
                eq_tab(point),
                eq_tables(ood_points_of(s, answers, n)),
                coeffs,
                answers.len() as int,
            ),
            claim: batched_claim(eval, answers, coeffs, answers.len() as int),
        },
        sponge: drawn.after_draw_ext(),
        challenges: Seq::empty(),
    }
}

/// The prover of evaluation claims on one polynomial.
#[derive(Debug)]
pub struct WhirProver {
    /// The schedule.
    pub config: WhirConfig,
}

/// Batches the claim with the out-of-domain answers, and seats the folder on polynomial,
/// batched weight and batched claim.
pub(crate) fn seat_folder(
    values: &Vec<Felt>,
    point: &Vec<Ext>,
    eval: Ext,
    points: &Vec<Vec<Ext>>,
    answers: &Vec<Ext>,
    challenger: &mut Transcript,
) -> (r: WhirFolder)
    requires
        old(challenger).wf(),
        values@.len() == pow2(point@.len()),
        points@.len() == answers@.len(),
        forall|i: int|
            0 <= i < points@.len() ==> (#[trigger] points@[i])@.len() == point@.len(),
    ensures
        final(challenger).wf(),
        r.wf(),
        r.vars() == point@.len(),
        final(challenger)@ == old(challenger)@.after_draw_ext(),
        ({
            let batch = old(challenger)@.drawn_ext();
            let coeffs = batch_coeffs(batch, batch, answers@.len());
            r@ == (FolderVal {
                f: lift(fvals(values@)),
                w: absorbed(
                    eq_tab(evals(point@)),
                    eq_tables(epoints(points@)),
                    coeffs,
                    answers@.len() as int,
                ),
                claim: batched_claim(eval@, evals(answers@), coeffs, answers@.len() as int),
            })
        }),
{
    let n: usize = point.len();
    let size: usize = values.len();
    let batch = challenger.sample_algebra_element();
    let coeffs = powers_from(batch, batch, answers.len());
    proof {
        assert(coeffs@.len() == evals(coeffs@).len());
    }
    let claimed_sum = add_batched(eval, answers, &coeffs);
    let weight = batched_eq_weight(n, point, points, batch);
    let f_vec = lift_felts(values.as_slice());
    let folder = WhirFolder { f_vec, weight, claimed_sum };
    proof {
        absorbed_len(
            eq_tab(evals(point@)),
            eq_tables(epoints(points@)),
            batch_coeffs(batch@, batch@, points@.len()),
            points@.len() as int,
        );
        assert(folder.weight@.len() == evals(folder.weight@).len());
        assert(folder.f_vec@.len() == evals(folder.f_vec@).len());
        ceil_log2_is_least(pow2(n as nat));
        log2_of_pow2(pow2(n as nat), ceil_log2_of(pow2(n as nat)), n as nat);
    }
    folder
}

impl WhirProver {
    /// A prover for the given schedule.
    pub fn new(config: WhirConfig) -> (r: WhirProver)
        ensures
            r.config == config,
    {
        WhirProver { config }
    }

    /// The schedule fits a polynomial of `n` variables.
    pub open spec fn fits(&self, n: nat) -> bool {
        &&& prover_fits(
            n,
            self.config.round_parameters@,
            self.config.starting_log_inv_rate as nat,
            self.config.final_queries as nat,
            self.config.final_pow_bits as nat,
            1,
        )
        &&& self.config.round_parameters@.len() > 0
        &&& self.config.round_parameters@[0].folding_factor <= n
        &&& n - self.config.round_parameters@[0].folding_factor + self.config.starting_log_inv_rate
            <= 24
        &&& pow2(n + self.config.starting_log_inv_rate as nat) <= usize::MAX
    }

    /// The matrix of the starting codeword.
    pub open spec fn start_matrix(&self, f: Seq<int>, n: nat) -> (Seq<int>, nat) {
        let ff = self.config.round_parameters@[0].folding_factor as nat;
        base_matrix(f, ff, (n - ff + self.config.starting_log_inv_rate) as nat)
    }

    /// The root of the starting codeword.
    pub open spec fn start_root(&self, f: Seq<int>, n: nat) -> Seq<int> {
        merkle_root(seq![self.start_matrix(f, n)])
    }

    /// The starting out-of-domain answers.
    pub open spec fn start_answers(&self, s: Sponge, f: Seq<int>, n: nat) -> Seq<E4> {
        honest_answers(
            s.observe_all(self.start_root(f, n)),
            lift(f),
            n,
            self.config.starting_ood_samples as nat,
        )
    }

    /// The starting out-of-domain points.
    pub open spec fn start_points(&self, s: Sponge, f: Seq<int>, n: nat) -> Seq<Seq<E4>> {
        ood_points_of(
            s.observe_all(self.start_root(f, n)),
            self.start_answers(s, f, n),
            n,
        )
    }

    /// Encodes and commits to the polynomial, and answers the starting out-of-domain
    /// samples.
    fn commit_start(&self, challenger: &mut Transcript, values: &Vec<Felt>, n: usize) -> (r: (
        Digest,
        CommittedRows,
        Vec<Vec<Ext>>,
        Vec<Ext>,
    ))
        requires
            old(challenger).wf(),
            values@.len() == pow2(n as nat),
            self.fits(n as nat),
        ensures
            final(challenger).wf(),
            ({
                let f = fvals(values@);
                let s = old(challenger)@;
                let ff = self.config.round_parameters@[0].folding_factor as nat;
                let log = (n - ff + self.config.starting_log_inv_rate) as nat;
                &&& fvals(r.0@) == self.start_root(f, n as nat)
                &&& committed_matrices(r.1) == seq![self.start_matrix(f, n as nat)]
                &&& uniform(committed_matrices(r.1), pow2(log))
                &&& lift(self.start_matrix(f, n as nat).0) == codeword(lift(f), ff, log)
                &&& epoints(r.2@) == self.start_points(s, f, n as nat)
                &&& evals(r.3@) == self.start_answers(s, f, n as nat)
                &&& r.2@.len() == r.3@.len()
                &&& forall|i: int| 0 <= i < r.2@.len() ==> (#[trigger] r.2@[i])@.len() == n
                &&& final(challenger)@ == ood_sponge(
                    s.observe_all(fvals(r.0@)),
                    evals(r.3@),
                    n as nat,
                    r.3@.len(),
                )
            }),
    {
        let ghost f = fvals(values@);
        let ff: usize = self.config.round_parameters[0].folding_factor;
        let rate: usize = self.config.starting_log_inv_rate;
        let log: usize = n - ff + rate;
        let matrix = encode_interleaved_base(values, ff, rate, n);
        proof {
            lemma2_to64();
            pow2_le(log as nat, 24);
            vstd::arithmetic::power2::lemma_pow2_pos(ff as nat);
            vstd::arithmetic::power2::lemma_pow2_pos(log as nat);
            let m = matrix_val(matrix);
            let cw = codeword(lift(f), ff as nat, log as nat);
            assert(lift(m.0).len() == m.0.len());
            assert forall|t: int| 0 <= t < m.0.len() implies #[trigger] m.0[t] == cw[t].c0 by {
                assert(lift(m.0)[t] == cw[t]);
            }
            assert(m.0 =~= constants(cw));
            assert(m == self.start_matrix(f, n as nat));
        }
        let height: usize = pow2_usize(log);
        let mut matrices: Vec<Matrix> = Vec::new();
        matrices.push(matrix);
        proof {
            assert(matrices_val(matrices@) =~= seq![self.start_matrix(f, n as nat)]);
            assert(matrices@[0].values@.len() == fvals(matrices@[0].values@).len());
        }
        let (root, tree) = merkle_commit(&matrices, height);
        let felts = digest_felts(&root);
        challenger.observe_slice(&felts);
        let ghost s1 = challenger@;
        let lifted = lift_felts(values.as_slice());
        proof {
            assert(lifted@.len() == evals(lifted@).len());
        }
        let (points, answers) = answer_ood(
            lifted.as_slice(),
            n,
            self.config.starting_ood_samples,
            challenger,
        );
        proof {
            let ans = evals(answers@);
            honest_answers_unique(s1, lift(f), ans, n as nat, ans.len());
            assert(ans.take(ans.len() as int) =~= ans);
        }
        (root, tree, points, answers)
    }

    /// The commit phase alone: root, out-of-domain points and answers, as the verifier
    /// needs them.
    pub fn commit_interleaved_public(&self, challenger: &mut Transcript, values: &Vec<Felt>) -> (r:
        (Digest, Vec<Vec<Ext>>, Vec<Ext>))
        requires
            old(challenger).wf(),
            values@.len() == pow2(ceil_log2_of(values@.len())),
            self.fits(ceil_log2_of(values@.len())),
        ensures
            final(challenger).wf(),
            ({
                let f = fvals(values@);
                let s = old(challenger)@;
                let n = ceil_log2_of(values@.len());
                &&& fvals(r.0@) == self.start_root(f, n)
                &&& epoints(r.1@) == self.start_points(s, f, n)
                &&& evals(r.2@) == self.start_answers(s, f, n)
                &&& final(challenger)@ == ood_sponge(
                    s.observe_all(fvals(r.0@)),
                    evals(r.2@),
                    n,
                    r.2@.len(),
                )
            }),
    {
        let n: usize = ceil_log2(values.len());
        let (root, _tree, points, answers) = self.commit_start(challenger, values, n);
        (root, points, answers)
    }

    /// What the prover works on, for base-field values over `n` variables.
    pub open spec fn prover(&self, f: Seq<int>, n: nat) -> Prover {
        Prover {
            n,
            rounds: self.config.round_parameters@,
            start_rate: self.config.starting_log_inv_rate as nat,
            final_queries: self.config.final_queries as nat,
            final_pow_bits: self.config.final_pow_bits as nat,
            start: SourceVal::Single(self.start_root(f, n), true),
            trees: seq![seq![self.start_matrix(f, n)]],
        }
    }

    /// The prover's state before the rounds.
    pub open spec fn start(&self, s: Sponge, f: Seq<int>, n: nat, point: Seq<E4>, eval: E4) -> PState {
        prover_start(
            s.observe_all(self.start_root(f, n)),
            lift(f),
            n,
            self.config.starting_ood_samples as nat,
            point,
            eval,
        )
    }

    /// Proves that the polynomial has the value `eval` at `point`. `None` where some
    /// proof of work does not exist. With the true value, every verifier of this
    /// schedule and starting commitment accepts.
    pub fn prove_interleaved(
        &self,
        challenger: &mut Transcript,
        values: &Vec<Felt>,
        point: &Vec<Ext>,
        eval: Ext,
    ) -> (r: Option<WhirProof>)
        requires
            old(challenger).wf(),
            values@.len() == pow2(point@.len()),
            self.fits(point@.len()),
        ensures
            final(challenger).wf(),
            ({
                let f = fvals(values@);
                let n = point@.len();
                let pr = self.prover(f, n);
                let start = self.start(old(challenger)@, f, n, evals(point@), eval@);
                match r {
                    Some(p) => {
                        &&& pr.honest(start, p@)
                        &&& final(challenger)@ == pr.end(start, pr.all_data(p@)).sponge.after_pow(
                            pr.final_pow_bits,
                            p@.final_pow,
                        ).after_draws(pr.final_queries)
                        &&& lift(self.start_matrix(f, n).0) == codeword(
                            lift(f),
                            pr.fold(0),
                            pr.codeword_log(0),
                        )
                    },
                    None => pr.stuck(start),
                }
            }),
    {
        let n: usize = point.len();
        let ghost f = fvals(values@);
        let ghost s = challenger@;
        let ghost pr = self.prover(f, n as nat);
        let (root, tree, points, answers) = self.commit_start(challenger, values, n);
        proof {
            reveal(prover_fits);
            pow2_le(n as nat, n as nat + self.config.starting_log_inv_rate as nat);
        }
        let folder = seat_folder(values, point, eval, &points, &answers, challenger);
        let src = Source::Single(&root, true);
        let mut trees: Vec<&CommittedRows> = Vec::new();
        trees.push(&tree);
        proof {
            assert(tree_vals(trees@) =~= pr.trees);
            assert(folded_vars(pr.rounds, 1) == pr.fold(0)) by {
                reveal_with_fuel(folded_vars, 2);
            }
            assert(pr.codeword_log(0) == n - pr.fold(0) + self.config.starting_log_inv_rate);
            assert(trees_shaped(src@, tree_vals(trees@), pr.fold(0), pow2(pr.codeword_log(0))));
        }
        let backend = HostBackend { folder, trees: &trees, queue: Vec::new() };
        prove_from(&self.config, n, &src, backend, challenger, Ghost(pr))
    }
}

/// The value of a polynomial at a point, batched with its honest out-of-domain answers,
/// is the inner product of the batched weight with the polynomial.
pub proof fn starting_folder_is_sound(
    f: Seq<E4>,
    n: nat,
    point: Seq<E4>,
    points: Seq<Seq<E4>>,
    answers: Seq<E4>,
    coeffs: Seq<E4>,
)
    requires
        f.len() == pow2(n),
        all_canon(f),
        all_canon(coeffs),
        point.len() == n,
        answers.len() == points.len(),
        coeffs.len() == points.len(),
        forall|i: int| 0 <= i < points.len() ==> (#[trigger] points[i]).len() == n,
        forall|i: int| 0 <= i < points.len() ==> #[trigger] answers[i] == mle_eval(f, points[i]),
    ensures
        sound_folder(
            FolderVal {
                f,
                w: absorbed(eq_tab(point), eq_tables(points), coeffs, points.len() as int),
                claim: batched_claim(mle_eval(f, point), answers, coeffs, points.len() as int),
            },
            seq![Term { monomial: false, point, coeff: e_one(), vars: n }] + terms_of(
                false,
                points,
                coeffs,
                n,
            ),
            n,
            Seq::empty(),
            n,
        ),
{
    reveal(sound_folder);
    let k = points.len() as int;
    let w0 = eq_tab(point);
    let tables = eq_tables(points);
    mle_eval_is_weighted_sum(f, point);
    assert forall|i: int| 0 <= i < k implies (#[trigger] tables[i]).len() == w0.len() by {
        assert(points[i].len() == n);
    }
    assert forall|i: int| 0 <= i < k implies #[trigger] answers[i] == dot(tables[i], f) by {
        assert(points[i].len() == n);
        mle_eval_is_weighted_sum(f, points[i]);
    }
    batching_keeps_claim(w0, f, tables, answers, coeffs, k);
    absorbed_len(w0, tables, coeffs, k);
    assert(all_canon(w0)) by {
        assert forall|i: int| 0 <= i < w0.len() implies (#[trigger] w0[i]).canon() by {
            eq_weight_canon(point, i);
        }
    }
    absorbed_canon(w0, tables, coeffs, k);
    let first = seq![Term { monomial: false, point, coeff: e_one(), vars: n }];
    weight_of_first(point, n);
    weight_of_append(first, false, points, coeffs, n, Seq::empty(), n, k);
    let terms = first + terms_of(false, points, coeffs, n);
    assert(terms.len() == 1 + k);
    assert forall|i: int| 0 <= i < terms.len() implies term_fits(#[trigger] terms[i], n, n) by {
        if i > 0 {
            assert(terms[i] == terms_of(false, points, coeffs, n)[i - 1]);
            assert(points[i - 1].len() == n);
        }
    }
}

/// What is proved is verified: a proof of the true value of a polynomial at a point is
/// accepted by the verifier of the same schedule that holds the prover's starting
/// commitment and out-of-domain samples and starts from the same transcript.
pub proof fn interleaved_proof_is_accepted(
    prover: WhirProver,
    verifier: WhirInterleavedVerifier,
    s: Sponge,
    f: Seq<int>,
    point: Seq<E4>,
    p: ProofVal,
)
    requires
        f.len() == pow2(point.len()),
        all_canon(lift(f)),
        prover.fits(point.len()),
        verifier.config == prover.config,
        fvals(verifier.start_commitment@) == prover.start_root(f, point.len()),
        epoints(verifier.start_ood_points@) == prover.start_points(s, f, point.len()),
        evals(verifier.start_ood_answers@) == prover.start_answers(s, f, point.len()),
        lift(prover.start_matrix(f, point.len()).0) == codeword(
            lift(f),
            prover.prover(f, point.len()).fold(0),
            prover.prover(f, point.len()).codeword_log(0),
        ),
        prover.prover(f, point.len()).honest(
            prover.start(s, f, point.len(), point, mle_eval(lift(f), point)),
            p,
        ),
    ensures
        verifier.refusal(s, point, mle_eval(lift(f), point), p) is None,
{
    let n = point.len();
    let eval = mle_eval(lift(f), point);
    let pr = prover.prover(f, n);
    let inst = verifier.instance(n, p);
    let ps0 = prover.start(s, f, n, point, eval);
    let st0 = verifier.start(s, point, eval);
    let s1 = s.observe_all(prover.start_root(f, n));
    let answers = prover.start_answers(s, f, n);
    let points = prover.start_points(s, f, n);
    honest_answers_hold(s1, lift(f), n, prover.config.starting_ood_samples as nat);
    let batch = ood_sponge(s1, answers, n, answers.len()).drawn_ext();
    let coeffs = batch_coeffs(batch, batch, answers.len());
    assert forall|i: int| 0 <= i < coeffs.len() implies (#[trigger] coeffs[i]).canon() by {
        mul_canon(batch, e_pow(batch, i as nat));
    }
    assert forall|i: int| 0 <= i < points.len() implies (#[trigger] points[i]).len() == n by {}
    starting_folder_is_sound(lift(f), n, point, points, answers, coeffs);
    assert(verifier.start_ood_answers@.len() == answers.len());
    ood_matches(s1, answers, points, n, answers.len());
    assert(schedule_ok(pr)) by {
        reveal(prover_fits);
    }
    assert(folded_vars(pr.rounds, 1) == pr.fold(0)) by {
        reveal_with_fuel(folded_vars, 2);
    }
    honest_proof_is_accepted(inst, pr, st0, ps0, Seq::empty());
}

proof fn ood_matches(s: Sponge, answers: Seq<E4>, points: Seq<Seq<E4>>, vars: nat, k: nat)
    requires
        points == ood_points_of(s, answers, vars),
        k <= answers.len(),
    ensures
        ood_refusal(s, answers, points, vars, k, 0) is None,
    decreases k,
{
    if k > 0 {
        ood_matches(s, answers, points, vars, (k - 1) as nat);
    }
}

} // verus!
