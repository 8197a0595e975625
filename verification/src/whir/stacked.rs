//! WHIR over a stack of polynomials.
//!
//! Each commitment holds the stripes of one round of a caller's own protocol, all of
//! one height. Opening batches every stripe of every commitment into one virtual
//! polynomial by powers of a challenge drawn after the claims, and runs WHIR on it: a
//! query into the starting codeword opens every stripe's row, and the rows are
//! combined with the same powers.
use vstd::prelude::*;
use vstd::arithmetic::power2::{lemma2_to64, lemma_pow2_pos, pow2};
use crate::arith::{ceil_log2_is_least, ceil_log2_of, log2_of_pow2, pow2_le, pow2_usize};
use crate::ext::{add_canon, all_canon, e_one, e_pow, e_zero, epoints, evals, fvals, lift, mul_add,
    mul_zero, Ext, E4};
use crate::felt::Felt;
use crate::merkle::{committed_matrices, matrices_val, merkle_commit, merkle_root, path_val,
    rows_val, uniform, CommittedRows, Digest, Matrix};
use crate::mle::{dot, eq_tab, eq_weight_canon, esum, esum_add, esum_ext, esum_scale, esum_zero,
    mle_eval, mle_eval_is_weighted_sum, vadd, vscale};
use crate::multilinear::{copy_exts, eval_at, lift_felts};
use crate::ring::mul_left_comm;
use crate::transcript::{Sponge, Transcript};
use crate::whir::completeness::{honest_proof_is_accepted, schedule_ok, sound_folder,
    source_encodes, tree_encodes, virtual_poly, weight_of_first, zeros};
use crate::whir::backend::{HostBackend, RoundBackend};
use crate::whir::config::{folded_vars, WhirConfig};
use crate::whir::encode::{codeword, encode_interleaved_base};
use crate::whir::honest::{Prover, PState, TreeVal};
use crate::whir::interleaved::total_folds;
use crate::whir::messages::{shape_error, ProofVal, WhirProof, WhirRefusal, WhirVerifierError};
use crate::whir::proving::{answer_ood, honest_answers, honest_answers_unique, prove_from,
    prover_fits, stripe_shaped, tree_vals, trees_shaped};
use crate::whir::queries::{add_scaled_rows, counts_val, rows_combined, rows_combined_len, zero_exts,
    Source, SourceVal};
use crate::whir::replay::{ood_points_of, ood_sponge, terms_val, Constraint, Term};
use crate::whir::rounds::{left_of, schedule_fits, verify_from, Instance, VState, Words, WordsVal};
use crate::whir::sumcheck::{absorbed, absorbed_len, add_batched, batch_coeffs, batched_claim,
    batched_eq_weight, eq_tables, powers_from, FolderVal, WhirFolder};

verus! {

/// A stacked proof: the proof for the virtual polynomial, and the value of every
/// stripe of every commitment at the stack point.
#[derive(Debug)]
pub struct StackedWhirProof {
    /// The proof for the virtual polynomial.
    pub whir_proof: WhirProof,
    /// The values of the stripes, commitment by commitment.
    pub batch_evaluations: Vec<Vec<Ext>>,
}

/// The first `k` of several sequences, one after the other.
pub open spec fn flat(s: Seq<Seq<E4>>, k: int) -> Seq<E4>
    decreases k,
{
    if k <= 0 {
        Seq::empty()
    } else {
        flat(s, k - 1) + s[k - 1]
    }
}

/// The powers that combine the stripes: consecutive powers of `lambda`, commitment
/// by commitment.
pub open spec fn stripe_powers(s: Seq<Seq<E4>>, lambda: E4) -> Seq<Seq<E4>> {
    Seq::new(
        s.len(),
        |r: int| Seq::new(s[r].len(), |i: int| e_pow(lambda, (flat(s, r).len() + i) as nat)),
    )
}

/// The values of the stripes combined by consecutive powers of `lambda`.
pub open spec fn stripe_claim(values: Seq<E4>, lambda: E4) -> E4 {
    esum(values.len(), |i: int| e_pow(lambda, i as nat) * values[i])
}

/// Combines the values of the stripes by powers of `lambda`: the claim on the virtual
/// polynomial, and the power of each stripe.
pub fn batch_stripes(values: &Vec<Vec<Ext>>, lambda: Ext) -> (r: (Ext, Vec<Vec<Ext>>))
    ensures
        r.0@ == stripe_claim(flat(epoints(values@), values@.len() as int), lambda@),
        epoints(r.1@) == stripe_powers(epoints(values@), lambda@),
        r.1@.len() == values@.len(),
        forall|i: int| 0 <= i < values@.len() ==> (#[trigger] r.1@[i])@.len() == values@[i]@.len(),
{
    let ghost s = epoints(values@);
    let mut claim = Ext::zero();
    let mut lam = Ext::one();
    let mut powers: Vec<Vec<Ext>> = Vec::new();
    let mut r: usize = 0;
    while r < values.len()
        invariant
            r <= values@.len(),
            s == epoints(values@),
            claim@ == stripe_claim(flat(s, r as int), lambda@),
            lam@ == e_pow(lambda@, flat(s, r as int).len()),
            powers@.len() == r,
            forall|i: int|
                0 <= i < r ==> evals((#[trigger] powers@[i])@) == stripe_powers(s, lambda@)[i],
            forall|i: int| 0 <= i < r ==> (#[trigger] powers@[i])@.len() == values@[i]@.len(),
        decreases values@.len() - r,
    {
        let ghost before = flat(s, r as int);
        let ghost whole = flat(s, r + 1);
        let row = &values[r];
        let mut own: Vec<Ext> = Vec::new();
        let mut i: usize = 0;
        proof {
            assert(s[r as int] == evals(row@));
            assert(whole == before + s[r as int]);
            let f = |j: int| e_pow(lambda@, j as nat) * before[j];
            let g = |j: int| e_pow(lambda@, j as nat) * whole[j];
            crate::mle::esum_ext(before.len(), f, g);
        }
        while i < row.len()
            invariant
                i <= row@.len(),
                s[r as int] == evals(row@),
                whole == before + s[r as int],
                claim@ == esum(
                    before.len() + i as nat,
                    |j: int| e_pow(lambda@, j as nat) * whole[j],
                ),
                lam@ == e_pow(lambda@, before.len() + i as nat),
                own@.len() == i,
                forall|j: int|
                    0 <= j < i ==> (#[trigger] own@[j])@ == e_pow(
                        lambda@,
                        (before.len() + j) as nat,
                    ),
            decreases row@.len() - i,
        {
            proof {
                assert(whole[before.len() + i] == row@[i as int]@);
            }
            claim = claim.plus(lam.times(row[i]));
            own.push(lam);
            lam = lam.times(lambda);
            i = i + 1;
        }
        proof {
            assert(evals(own@) =~= stripe_powers(s, lambda@)[r as int]);
            assert(whole.len() == before.len() + row@.len());
        }
        powers.push(own);
        r = r + 1;
    }
    proof {
        assert(epoints(powers@) =~= stripe_powers(s, lambda@));
    }
    (claim, powers)
}

/// Absorbs the values of the stripes, commitment by commitment.
pub fn observe_stripes(values: &Vec<Vec<Ext>>, challenger: &mut Transcript)
    requires
        old(challenger).wf(),
    ensures
        final(challenger).wf(),
        final(challenger)@ == old(challenger)@.observe_exts(
            flat(epoints(values@), values@.len() as int),
        ),
{
    let ghost s0 = challenger@;
    let ghost s = epoints(values@);
    let mut r: usize = 0;
    while r < values.len()
        invariant
            r <= values@.len(),
            s == epoints(values@),
            challenger.wf(),
            challenger@ == s0.observe_exts(flat(s, r as int)),
        decreases values@.len() - r,
    {
        challenger.observe_algebra_slice(values[r].as_slice());
        proof {
            assert(s[r as int] == evals(values@[r as int]@));
            observe_exts_concat(s0, flat(s, r as int), s[r as int]);
        }
        r = r + 1;
    }
}

/// Absorbing two sequences in turn is absorbing them as one.
pub proof fn observe_exts_concat(s: Sponge, a: Seq<E4>, b: Seq<E4>)
    ensures
        s.observe_exts(a).observe_exts(b) == s.observe_exts(a + b),
    decreases b.len(),
{
    if b.len() == 0 {
        assert(a + b =~= a);
    } else {
        observe_exts_concat(s, a, b.drop_last());
        assert((a + b).drop_last() =~= a + b.drop_last());
        assert((a + b).last() == b.last());
    }
}

/// The verifier of the values of stacked polynomials at one point.
#[derive(Debug)]
pub struct StackedWhirVerifier {
    /// The schedule.
    pub config: WhirConfig,
    /// The number of variables of every stripe.
    pub log_stacking_height: u32,
}

impl StackedWhirVerifier {
    /// A verifier for the given schedule and stack height.
    pub fn new(config: WhirConfig, log_stacking_height: u32) -> (r: StackedWhirVerifier)
        ensures
            r.config == config,
            r.log_stacking_height == log_stacking_height,
    {
        StackedWhirVerifier { config, log_stacking_height }
    }

    /// What this verifier works on, for given commitments, stripe counts and powers.
    pub open spec fn instance(
        &self,
        roots: Seq<Seq<int>>,
        counts: Seq<nat>,
        powers: Seq<Seq<E4>>,
        p: ProofVal,
    ) -> Instance {
        Instance {
            n: self.log_stacking_height as nat,
            rounds: self.config.round_parameters@,
            start_rate: self.config.starting_log_inv_rate as nat,
            final_queries: self.config.final_queries as nat,
            final_pow_bits: self.config.final_pow_bits as nat,
            start: SourceVal::Stripes(roots, counts, powers),
            proof_val: p,
            final_root: p.roots.last(),
            words: WordsVal {
                messages: "round messages"@,
                degree: "degree-2"@,
                openings: "query openings"@,
                rows: Some("stripe rows"@),
            },
        }
    }

    /// The verifier's state before the rounds, and the challenge that combines the
    /// stripes.
    pub open spec fn start(&self, s: Sponge, stack_point: Seq<E4>, values: Seq<Seq<E4>>) -> (
        VState,
        E4,
    ) {
        let all = flat(values, values.len() as int);
        let seen = s.observe_exts(all);
        let lambda = seen.drawn_ext();
        (
            VState {
                sponge: seen.after_draw_ext().after_draw_ext(),
                claim: stripe_claim(all, lambda),
                challenges: Seq::empty(),
                terms: seq![
                    Term {
                        monomial: false,
                        point: stack_point,
                        coeff: e_one(),
                        vars: self.log_stacking_height as nat,
                    },
                ],
            },
            lambda,
        )
    }

    /// Why the shape of a proof is refused, if it is.
    pub open spec fn shape_refusal(
        &self,
        roots: Seq<Seq<int>>,
        counts: Seq<nat>,
        values: Seq<Seq<E4>>,
        p: ProofVal,
    ) -> Option<WhirRefusal> {
        let last = left_of(
            self.log_stacking_height as nat,
            self.config.round_parameters@,
            self.config.round_parameters@.len() as int,
        );
        if p.final_poly.len() != pow2(last) {
            Some(WhirRefusal::IncorrectShape("final_poly"@))
        } else if values.len() != counts.len() || roots.len() != counts.len() {
            Some(WhirRefusal::IncorrectShape("round count"@))
        } else if exists|i: int| 0 <= i < values.len() && (#[trigger] values[i]).len() != counts[i] {
            Some(WhirRefusal::IncorrectShape("stripe count"@))
        } else if self.config.starting_ood_samples != 0 {
            Some(
                WhirRefusal::IncorrectShape(
                    "stacked WHIR carries its OOD in round constraints; set starting_ood_samples=0"@,
                ),
            )
        } else {
            None
        }
    }

    /// Why a proof is refused, if it is: its shape, then the rounds.
    pub open spec fn refusal(
        &self,
        s: Sponge,
        roots: Seq<Seq<int>>,
        counts: Seq<nat>,
        stack_point: Seq<E4>,
        values: Seq<Seq<E4>>,
        p: ProofVal,
    ) -> Option<WhirRefusal> {
        match self.shape_refusal(roots, counts, values, p) {
            Some(e) => Some(e),
            None => {
                let (st, lambda) = self.start(s, stack_point, values);
                self.instance(roots, counts, stripe_powers(values, lambda), p).refusal(st)
            },
        }
    }

    /// Whether a proof has an entry wherever one is looked up. What follows a refusal is not
    /// looked up.
    pub open spec fn entries_found(
        &self,
        s: Sponge,
        roots: Seq<Seq<int>>,
        counts: Seq<nat>,
        stack_point: Seq<E4>,
        values: Seq<Seq<E4>>,
        p: ProofVal,
    ) -> bool {
        let (st, lambda) = self.start(s, stack_point, values);
        self.shape_refusal(roots, counts, values, p) is None ==> self.instance(
            roots,
            counts,
            stripe_powers(values, lambda),
            p,
        ).entries_found(st)
    }

    /// Verifies that every stripe of every commitment has the carried value at the
    /// stack point. `round_stripe_counts` is the number of stripes of each
    /// commitment.
    pub fn verify_trusted_evaluation(
        &self,
        commitments: &Vec<Digest>,
        round_stripe_counts: &Vec<usize>,
        stack_point: &[Ext],
        stacked: &StackedWhirProof,
        challenger: &mut Transcript,
    ) -> (r: Result<(), WhirVerifierError>)
        requires
            old(challenger).wf(),
            stack_point@.len() == self.log_stacking_height,
            schedule_fits(
                self.log_stacking_height as nat,
                self.config.round_parameters@,
                self.config.starting_log_inv_rate as nat,
                self.config.final_queries as nat,
                self.config.final_pow_bits as nat,
                commitments@.len(),
            ),
            self.entries_found(
                old(challenger)@,
                path_val(commitments@),
                counts_val(round_stripe_counts@),
                evals(stack_point@),
                epoints(stacked.batch_evaluations@),
                stacked.whir_proof@,
            ),
        ensures
            final(challenger).wf(),
            ({
                let roots = path_val(commitments@);
                let counts = counts_val(round_stripe_counts@);
                let values = epoints(stacked.batch_evaluations@);
                let p = stacked.whir_proof@;
                let why = self.refusal(
                    old(challenger)@,
                    roots,
                    counts,
                    evals(stack_point@),
                    values,
                    p,
                );
                match r {
                    Ok(_) => {
                        let (st, lambda) = self.start(old(challenger)@, evals(stack_point@), values);
                        let inst = self.instance(roots, counts, stripe_powers(values, lambda), p);
                        &&& why is None
                        &&& final(challenger)@ == inst.final_sponge(inst.end(st)).after_draws(
                            inst.final_queries,
                        )
                    },
                    Err(e) => why == Some(e@),
                }
            }),
    {
        let n: usize = self.log_stacking_height as usize;
        let whir = &stacked.whir_proof;
        let ghost roots = path_val(commitments@);
        let ghost counts = counts_val(round_stripe_counts@);
        let ghost values = epoints(stacked.batch_evaluations@);
        proof {
            reveal(schedule_fits);
        }
        let last: usize = n - total_folds(&self.config, n);
        let expect: usize = pow2_usize(last);
        proof {
            assert(whir@.final_poly.len() == whir.final_poly@.len());
            assert(roots.len() == commitments@.len());
            assert(counts.len() == round_stripe_counts@.len());
            assert(values.len() == stacked.batch_evaluations@.len());
        }
        if whir.final_poly.len() != expect {
            return Err(shape_error("final_poly"));
        }
        if stacked.batch_evaluations.len() != round_stripe_counts.len() || commitments.len()
            != round_stripe_counts.len() {
            return Err(shape_error("round count"));
        }
        let mut i: usize = 0;
        while i < stacked.batch_evaluations.len()
            invariant
                i <= stacked.batch_evaluations@.len(),
                stacked.batch_evaluations@.len() == round_stripe_counts@.len(),
                challenger.wf(),
                roots == path_val(commitments@),
                values == epoints(stacked.batch_evaluations@),
                counts == counts_val(round_stripe_counts@),
                values.len() == counts.len(),
                roots.len() == counts.len(),
                whir == &stacked.whir_proof,
                last == left_of(
                    self.log_stacking_height as nat,
                    self.config.round_parameters@,
                    self.config.round_parameters@.len() as int,
                ),
                whir@.final_poly.len() == pow2(last as nat),
                forall|j: int| 0 <= j < i ==> (#[trigger] values[j]).len() == counts[j],
            decreases stacked.batch_evaluations@.len() - i,
        {
            proof {
                assert(values[i as int].len() == stacked.batch_evaluations@[i as int]@.len());
            }
            if stacked.batch_evaluations[i].len() != round_stripe_counts[i] {
                return Err(shape_error("stripe count"));
            }
            i = i + 1;
        }
        observe_stripes(&stacked.batch_evaluations, challenger);
        let lambda = challenger.sample_algebra_element();
        let (claim, powers) = batch_stripes(&stacked.batch_evaluations, lambda);
        if self.config.starting_ood_samples != 0 {
            return Err(
                shape_error(
                    "stacked WHIR carries its OOD in round constraints; set starting_ood_samples=0",
                ),
            );
        }
        let _batch = challenger.sample_algebra_element();
        let ghost gpow = stripe_powers(values, lambda@);
        let ghost inst = self.instance(roots, counts, gpow, whir@);
        let ghost (st0, lam) = self.start(old(challenger)@, evals(stack_point@), values);
        let mut constraints: Vec<Constraint> = Vec::new();
        constraints.push(
            Constraint::Lagrange { point: copy_exts(stack_point), coeff: Ext::one(), vars: n },
        );
        let src = Source::Stripes(commitments, round_stripe_counts, &powers);
        let words = Words {
            messages: "round messages",
            degree: "degree-2",
            openings: "query openings",
            rows: Some("stripe rows"),
        };
        proof {
            assert(terms_val(constraints@) =~= st0.terms);
            assert(src@ == inst.start);
            assert(words@ == inst.words);
            assert forall|i: int| 0 <= i < roots.len() implies (#[trigger] gpow[i]).len()
                == counts[i] by {
                assert(values[i].len() == counts[i]);
            }
            assert(whir@.roots.len() == whir.round_commitments@.len());
        }
        let roots_sent: usize = whir.round_commitments.len();
        let at: usize = if roots_sent > 0 {
            roots_sent - 1
        } else {
            0
        };
        verify_from(
            &self.config,
            n,
            &src,
            &words,
            whir,
            at,
            claim,
            constraints,
            challenger,
            Ghost(inst),
            Ghost(st0),
        )
    }
}

/// What a prover keeps of one commitment.
pub struct StackedWhirProverData {
    /// The stripes as committed.
    pub stripes: Vec<Vec<Felt>>,
    /// The tree over the stripes' codewords.
    pub tree: CommittedRows,
    /// The root of the tree.
    pub commitment: Digest,
}

/// The values of several stripes.
pub open spec fn stripes_val(s: Seq<Vec<Felt>>) -> Seq<Seq<int>> {
    Seq::new(s.len(), |i: int| fvals(s[i]@))
}

/// The stripes of several commitments.
pub open spec fn data_stripes(s: Seq<&StackedWhirProverData>) -> Seq<Seq<Seq<int>>> {
    Seq::new(s.len(), |i: int| stripes_val(s[i].stripes@))
}

/// The trees of several commitments.
pub open spec fn data_trees(s: Seq<&StackedWhirProverData>) -> Seq<TreeVal> {
    Seq::new(s.len(), |i: int| committed_matrices(s[i].tree))
}

/// The roots of several commitments.
pub open spec fn data_roots(s: Seq<&StackedWhirProverData>) -> Seq<Seq<int>> {
    Seq::new(s.len(), |i: int| fvals(s[i].commitment@))
}

/// The number of stripes of several commitments.
pub open spec fn stripe_counts(s: Seq<Seq<Seq<int>>>) -> Seq<nat> {
    Seq::new(s.len(), |i: int| s[i].len())
}

/// The value of every stripe at a point.
pub open spec fn stripe_values(s: Seq<Seq<Seq<int>>>, point: Seq<E4>) -> Seq<Seq<E4>> {
    Seq::new(
        s.len(),
        |i: int| Seq::new(s[i].len(), |k: int| mle_eval(lift(s[i][k]), point)),
    )
}

/// The prover of the values of stacked polynomials at one point.
#[derive(Debug)]
pub struct StackedWhirProver {
    /// The schedule.
    pub config: WhirConfig,
    /// The number of variables of every stripe.
    pub log_stacking_height: u32,
}

impl StackedWhirProver {
    /// A prover for the given schedule and stack height.
    pub fn new(config: WhirConfig, log_stacking_height: u32) -> (r: StackedWhirProver)
        ensures
            r.config == config,
            r.log_stacking_height == log_stacking_height,
    {
        StackedWhirProver { config, log_stacking_height }
    }

    /// The number of variables that the first round folds.
    pub open spec fn first_fold(&self) -> nat {
        self.config.round_parameters@[0].folding_factor as nat
    }

    /// The logarithm of the height of the starting codewords.
    pub open spec fn start_log(&self) -> nat {
        (self.log_stacking_height - self.first_fold() + self.config.starting_log_inv_rate) as nat
    }

    /// The starting codewords are within machine and field limits.
    pub open spec fn can_commit(&self) -> bool {
        &&& self.config.round_parameters@.len() > 0
        &&& self.first_fold() <= self.log_stacking_height
        &&& self.start_log() <= 24
        &&& pow2(
            self.log_stacking_height as nat + self.config.starting_log_inv_rate as nat,
        ) <= usize::MAX
    }

    /// Whether `data` is what this prover keeps of a commitment.
    pub open spec fn holds(&self, data: StackedWhirProverData) -> bool {
        &&& data.stripes@.len() > 0
        &&& tree_encodes(
            committed_matrices(data.tree),
            stripes_val(data.stripes@),
            self.first_fold(),
            self.log_stacking_height as nat,
            self.start_log(),
        )
        &&& uniform(committed_matrices(data.tree), pow2(self.start_log()))
        &&& fvals(data.commitment@) == merkle_root(committed_matrices(data.tree))
    }

    /// Commits to one round's stripes: every stripe's codeword goes into one tree.
    pub fn commit_stripes(&self, stripes: Vec<Vec<Felt>>) -> (r: StackedWhirProverData)
        requires
            self.can_commit(),
            stripes@.len() > 0,
            forall|i: int|
                0 <= i < stripes@.len() ==> (#[trigger] stripes@[i])@.len() == pow2(
                    self.log_stacking_height as nat,
                ),
        ensures
            r.stripes == stripes,
            self.holds(r),
    {
        let n: usize = self.log_stacking_height as usize;
        let ff: usize = self.config.round_parameters[0].folding_factor;
        let rate: usize = self.config.starting_log_inv_rate;
        let log: usize = n - ff + rate;
        proof {
            lemma2_to64();
            pow2_le(log as nat, 24);
            lemma_pow2_pos(ff as nat);
            lemma_pow2_pos(log as nat);
        }
        let height: usize = pow2_usize(log);
        let mut matrices: Vec<Matrix> = Vec::new();
        let mut i: usize = 0;
        while i < stripes.len()
            invariant
                i <= stripes@.len(),
                n == self.log_stacking_height,
                ff == self.first_fold(),
                rate == self.config.starting_log_inv_rate,
                log == n - ff + rate,
                log <= 24,
                pow2(ff as nat) > 0,
                self.can_commit(),
                forall|k: int|
                    0 <= k < stripes@.len() ==> (#[trigger] stripes@[k])@.len() == pow2(n as nat),
                matrices@.len() == i,
                forall|k: int|
                    0 <= k < i ==> {
                        let m = #[trigger] matrices@[k];
                        &&& m.width == pow2(ff as nat)
                        &&& lift(fvals(m.values@)) == codeword(
                            lift(fvals(stripes@[k]@)),
                            ff as nat,
                            log as nat,
                        )
                        &&& m.values@.len() == pow2(log as nat) * pow2(ff as nat)
                    },
            decreases stripes@.len() - i,
        {
            matrices.push(encode_interleaved_base(&stripes[i], ff, rate, n));
            i = i + 1;
        }
        proof {
            let ms = matrices_val(matrices@);
            assert forall|k: int| 0 <= k < ms.len() implies (#[trigger] ms[k]).1 > 0
                && ms[k].0.len() == height * ms[k].1 by {
                assert(matrices@[k].width == pow2(ff as nat));
            }
        }
        let (commitment, tree) = merkle_commit(&matrices, height);
        let r = StackedWhirProverData { stripes, tree, commitment };
        proof {
            let ms = committed_matrices(r.tree);
            let ps = stripes_val(r.stripes@);
            assert forall|k: int| 0 <= k < ps.len() implies {
                &&& (#[trigger] ps[k]).len() == pow2(n as nat)
                &&& lift(ms[k].0) == codeword(lift(ps[k]), ff as nat, log as nat)
                &&& ms[k].1 == pow2(ff as nat)
            } by {
                assert(r.stripes@[k]@.len() == pow2(n as nat));
                assert(matrices@[k].width == pow2(ff as nat));
            }
        }
        r
    }

    /// The values of the stripes at a point.
    pub(crate) fn evaluate_stripes(&self, data: &Vec<&StackedWhirProverData>, stack_point: &[Ext]) -> (r: Vec<
        Vec<Ext>,
    >)
        requires
            stack_point@.len() == self.log_stacking_height,
            forall|i: int| 0 <= i < data@.len() ==> self.holds(*#[trigger] data@[i]),
        ensures
            epoints(r@) == stripe_values(data_stripes(data@), evals(stack_point@)),
            r@.len() == data@.len(),
    {
        let ghost want = stripe_values(data_stripes(data@), evals(stack_point@));
        let mut out: Vec<Vec<Ext>> = Vec::new();
        let mut i: usize = 0;
        while i < data.len()
            invariant
                i <= data@.len(),
                stack_point@.len() == self.log_stacking_height,
                forall|i: int| 0 <= i < data@.len() ==> self.holds(*#[trigger] data@[i]),
                want == stripe_values(data_stripes(data@), evals(stack_point@)),
                out@.len() == i,
                forall|j: int| 0 <= j < i ==> evals((#[trigger] out@[j])@) == want[j],
            decreases data@.len() - i,
        {
            let stripes = &data[i].stripes;
            let ghost own = stripes_val(stripes@);
            let mut row: Vec<Ext> = Vec::new();
            let mut k: usize = 0;
            proof {
                assert(self.holds(*data@[i as int]));
                assert(data_stripes(data@)[i as int] == own);
            }
            while k < stripes.len()
                invariant
                    k <= stripes@.len(),
                    own == stripes_val(stripes@),
                    stack_point@.len() == self.log_stacking_height,
                    forall|j: int|
                        0 <= j < own.len() ==> (#[trigger] own[j]).len() == pow2(
                            self.log_stacking_height as nat,
                        ),
                    row@.len() == k,
                    forall|j: int|
                        0 <= j < k ==> (#[trigger] row@[j])@ == mle_eval(
                            lift(own[j]),
                            evals(stack_point@),
                        ),
                decreases stripes@.len() - k,
            {
                let lifted = lift_felts(stripes[k].as_slice());
                proof {
                    assert(own[k as int] == fvals(stripes@[k as int]@));
                    assert(lifted@.len() == evals(lifted@).len());
                    assert(own[k as int].len() == pow2(self.log_stacking_height as nat));
                }
                row.push(eval_at(lifted.as_slice(), stack_point));
                k = k + 1;
            }
            proof {
                assert(evals(row@) =~= want[i as int]);
            }
            out.push(row);
            i = i + 1;
        }
        proof {
            assert(epoints(out@) =~= want);
        }
        out
    }

    /// The stripes combined by their powers.
    pub(crate) fn combine_stripes(&self, data: &Vec<&StackedWhirProverData>, powers: &Vec<Vec<Ext>>) -> (r: Vec<
        Ext,
    >)
        requires
            pow2(self.log_stacking_height as nat) <= usize::MAX,
            powers@.len() == data@.len(),
            forall|i: int| 0 <= i < data@.len() ==> self.holds(*#[trigger] data@[i]),
            forall|i: int|
                0 <= i < data@.len() ==> (#[trigger] powers@[i])@.len() == data@[i].stripes@.len(),
        ensures
            evals(r@) == virtual_poly(
                data_stripes(data@),
                epoints(powers@),
                self.log_stacking_height as nat,
                data@.len(),
            ),
            r@.len() == pow2(self.log_stacking_height as nat),
    {
        let n: usize = self.log_stacking_height as usize;
        let size: usize = pow2_usize(n);
        let ghost gs = data_stripes(data@);
        let ghost gp = epoints(powers@);
        let mut virt = zero_exts(size);
        let mut i: usize = 0;
        proof {
            assert(evals(virt@) =~= zeros(n as nat));
        }
        while i < data.len()
            invariant
                i <= data@.len(),
                n == self.log_stacking_height,
                powers@.len() == data@.len(),
                forall|i: int| 0 <= i < data@.len() ==> self.holds(*#[trigger] data@[i]),
                forall|i: int|
                    0 <= i < data@.len() ==> (#[trigger] powers@[i])@.len()
                        == data@[i].stripes@.len(),
                gs == data_stripes(data@),
                gp == epoints(powers@),
                virt@.len() == pow2(n as nat),
                evals(virt@) == virtual_poly(gs, gp, n as nat, i as nat),
            decreases data@.len() - i,
        {
            let stripes = &data[i].stripes;
            proof {
                assert(self.holds(*data@[i as int]));
                assert(gs[i as int] == stripes_val(stripes@));
                assert(rows_val(stripes@) =~= stripes_val(stripes@));
                assert(gp[i as int] == evals(powers@[i as int]@));
                assert forall|k: int| 0 <= k < stripes@.len() implies (
                #[trigger] stripes@[k])@.len() == virt@.len() by {
                    assert(stripes_val(stripes@)[k].len() == pow2(n as nat));
                }
            }
            add_scaled_rows(&mut virt, stripes, &powers[i]);
            i = i + 1;
        }
        virt
    }

    /// What the prover works on, for given stripes, trees, roots and powers.
    pub open spec fn prover(
        &self,
        trees: Seq<TreeVal>,
        roots: Seq<Seq<int>>,
        counts: Seq<nat>,
        powers: Seq<Seq<E4>>,
    ) -> Prover {
        Prover {
            n: self.log_stacking_height as nat,
            rounds: self.config.round_parameters@,
            start_rate: self.config.starting_log_inv_rate as nat,
            final_queries: self.config.final_queries as nat,
            final_pow_bits: self.config.final_pow_bits as nat,
            start: SourceVal::Stripes(roots, counts, powers),
            trees,
        }
    }

    /// The challenge that combines the stripes, and the prover's state before the
    /// rounds.
    pub open spec fn start(
        &self,
        s: Sponge,
        stripes: Seq<Seq<Seq<int>>>,
        stack_point: Seq<E4>,
    ) -> (E4, PState) {
        let n = self.log_stacking_height as nat;
        let values = stripe_values(stripes, stack_point);
        let all = flat(values, values.len() as int);
        let seen = s.observe_exts(all);
        let lambda = seen.drawn_ext();
        let f = virtual_poly(stripes, stripe_powers(values, lambda), n, stripes.len());
        let s1 = seen.after_draw_ext();
        let answers = honest_answers(s1, f, n, self.config.starting_ood_samples as nat);
        let drawn = ood_sponge(s1, answers, n, answers.len());
        let batch = drawn.drawn_ext();
        let coeffs = batch_coeffs(batch, batch, answers.len());
        (
            lambda,
            PState {
                folder: FolderVal {
                    f,
                    w: absorbed(
                        eq_tab(stack_point),
                        eq_tables(ood_points_of(s1, answers, n)),
                        coeffs,
                        answers.len() as int,
                    ),
                    claim: batched_claim(
                        stripe_claim(all, lambda),
                        answers,
                        coeffs,
                        answers.len() as int,
                    ),
                },
                sponge: drawn.after_draw_ext(),
                challenges: Seq::empty(),
            },
        )
    }

    /// The schedule fits openings of `commitments` commitments.
    pub open spec fn fits(&self, commitments: nat) -> bool {
        &&& self.can_commit()
        &&& prover_fits(
            self.log_stacking_height as nat,
            self.config.round_parameters@,
            self.config.starting_log_inv_rate as nat,
            self.config.final_queries as nat,
            self.config.final_pow_bits as nat,
            commitments,
        )
    }

    /// Proves the value of every stripe of every commitment at the stack point, by
    /// running WHIR on the stripes combined by powers of a challenge. `None` where some
    /// proof of work does not exist.
    pub fn prove_trusted_evaluation(
        &self,
        stack_point: &Vec<Ext>,
        prover_data: &Vec<&StackedWhirProverData>,
        challenger: &mut Transcript,
    ) -> (r: Option<StackedWhirProof>)
        requires
            old(challenger).wf(),
            stack_point@.len() == self.log_stacking_height,
            self.fits(prover_data@.len()),
            forall|i: int| 0 <= i < prover_data@.len() ==> self.holds(*#[trigger] prover_data@[i]),
        ensures
            final(challenger).wf(),
            ({
                let stripes = data_stripes(prover_data@);
                let values = stripe_values(stripes, evals(stack_point@));
                let (lambda, start) = self.start(old(challenger)@, stripes, evals(stack_point@));
                let pr = self.prover(
                    data_trees(prover_data@),
                    data_roots(prover_data@),
                    stripe_counts(stripes),
                    stripe_powers(values, lambda),
                );
                match r {
                    Some(out) => {
                        let p = out.whir_proof@;
                        &&& epoints(out.batch_evaluations@) == values
                        &&& pr.honest(start, p)
                        &&& final(challenger)@ == pr.end(start, pr.all_data(p)).sponge.after_pow(
                            pr.final_pow_bits,
                            p.final_pow,
                        ).after_draws(pr.final_queries)
                    },
                    None => pr.stuck(start),
                }
            }),
    {
        let n: usize = self.log_stacking_height as usize;
        let ghost stripes = data_stripes(prover_data@);
        let ghost point = evals(stack_point@);
        proof {
            lemma2_to64();
            pow2_le(n as nat, n as nat + self.config.starting_log_inv_rate as nat);
        }
        let batch_evaluations = self.evaluate_stripes(prover_data, stack_point.as_slice());
        let ghost values = stripe_values(stripes, point);
        observe_stripes(&batch_evaluations, challenger);
        let lambda = challenger.sample_algebra_element();
        let (claim, powers) = batch_stripes(&batch_evaluations, lambda);
        proof {
            assert forall|i: int| 0 <= i < prover_data@.len() implies (
            #[trigger] powers@[i])@.len() == prover_data@[i].stripes@.len() by {
                assert(epoints(batch_evaluations@)[i].len() == values[i].len());
                assert(batch_evaluations@[i]@.len() == evals(batch_evaluations@[i]@).len());
            }
        }
        let virt = self.combine_stripes(prover_data, &powers);
        let ghost s1 = challenger@;
        let (points, answers) = answer_ood(
            virt.as_slice(),
            n,
            self.config.starting_ood_samples,
            challenger,
        );
        proof {
            let ans = evals(answers@);
            honest_answers_unique(s1, evals(virt@), ans, n as nat, ans.len());
            assert(ans.take(ans.len() as int) =~= ans);
        }
        let batch = challenger.sample_algebra_element();
        let coeffs = powers_from(batch, batch, answers.len());
        proof {
            assert(evals(answers@).len() == answers@.len());
            assert(coeffs@.len() == evals(coeffs@).len());
        }
        let claimed_sum = add_batched(claim, &answers, &coeffs);
        let weight = batched_eq_weight(n, stack_point, &points, batch);
        let folder = WhirFolder { f_vec: virt, weight, claimed_sum };
        let mut roots: Vec<Digest> = Vec::new();
        let mut counts: Vec<usize> = Vec::new();
        let mut trees: Vec<&CommittedRows> = Vec::new();
        let mut i: usize = 0;
        while i < prover_data.len()
            invariant
                i <= prover_data@.len(),
                roots@.len() == i,
                counts@.len() == i,
                trees@.len() == i,
                forall|j: int|
                    0 <= j < i ==> fvals((#[trigger] roots@[j])@) == fvals(
                        prover_data@[j].commitment@,
                    ),
                forall|j: int|
                    0 <= j < i ==> (#[trigger] counts@[j]) == prover_data@[j].stripes@.len(),
                forall|j: int| 0 <= j < i ==> *(#[trigger] trees@[j]) == prover_data@[j].tree,
            decreases prover_data@.len() - i,
        {
            roots.push(prover_data[i].commitment);
            counts.push(prover_data[i].stripes.len());
            trees.push(&prover_data[i].tree);
            i = i + 1;
        }
        let src = Source::Stripes(&roots, &counts, &powers);
        let ghost gpow = stripe_powers(values, lambda@);
        let ghost pr = self.prover(
            data_trees(prover_data@),
            data_roots(prover_data@),
            stripe_counts(stripes),
            gpow,
        );
        proof {
            assert(path_val(roots@) =~= data_roots(prover_data@));
            assert(counts_val(counts@) =~= stripe_counts(stripes));
            assert(tree_vals(trees@) =~= data_trees(prover_data@));
            let w0 = eq_tab(point);
            absorbed_len(
                w0,
                eq_tables(epoints(points@)),
                batch_coeffs(batch@, batch@, points@.len()),
                points@.len() as int,
            );
            assert(folder.weight@.len() == evals(folder.weight@).len());
            assert(folder.f_vec@.len() == evals(folder.f_vec@).len());
            ceil_log2_is_least(pow2(n as nat));
            log2_of_pow2(pow2(n as nat), ceil_log2_of(pow2(n as nat)), n as nat);
            assert(folded_vars(pr.rounds, 1) == pr.fold(0)) by {
                reveal_with_fuel(folded_vars, 2);
            }
            assert(pr.codeword_log(0) == self.start_log());
            let vals = tree_vals(trees@);
            assert(src@.consistent());
            assert forall|i: int| 0 <= i < vals.len() implies uniform(
                #[trigger] vals[i],
                pow2(pr.codeword_log(0)),
            ) by {
                assert(self.holds(*prover_data@[i]));
            }
            assert forall|i: int| 0 <= i < vals.len() implies stripe_shaped(
                #[trigger] vals[i],
                counts_val(counts@)[i],
                pow2(pr.fold(0)),
            ) by {
                let data = *prover_data@[i];
                assert(self.holds(data));
                assert forall|k: int| 0 <= k < vals[i].len() implies (#[trigger] vals[i][k]).1
                    == pow2(pr.fold(0)) by {
                    assert(stripes_val(data.stripes@)[k].len() == pow2(n as nat));
                }
            }
            assert(trees_shaped(src@, vals, pr.fold(0), pow2(pr.codeword_log(0))));
        }
        let backend = HostBackend { folder, trees: &trees, queue: Vec::new() };
        match prove_from(&self.config, n, &src, backend, challenger, Ghost(pr)) {
            None => None,
            Some(whir_proof) => Some(StackedWhirProof { whir_proof, batch_evaluations }),
        }
    }
}

proof fn dot_right(w: Seq<E4>, a: Seq<E4>, k: E4, b: Seq<E4>)
    requires
        a.len() == w.len(),
        b.len() == w.len(),
    ensures
        dot(w, vadd(a, vscale(k, b))) == dot(w, a) + k * dot(w, b),
{
    let fa = |i: int| w[i] * a[i];
    let fb = |i: int| w[i] * b[i];
    let kb = |i: int| k * fb(i);
    let both = |i: int| fa(i) + kb(i);
    let got = |i: int| w[i] * vadd(a, vscale(k, b))[i];
    assert forall|i: int| 0 <= i < w.len() implies #[trigger] got(i) == both(i) by {
        mul_add(w[i], a[i], k * b[i]);
        mul_left_comm(w[i], k, b[i]);
    }
    esum_ext(w.len(), got, both);
    esum_add(w.len(), fa, kb);
    esum_scale(w.len(), k, fb);
}

/// The inner product of a weight with rows combined by consecutive powers.
proof fn dot_rows(
    w: Seq<E4>,
    acc: Seq<E4>,
    rows: Seq<Seq<int>>,
    lambda: E4,
    all: Seq<E4>,
    off: nat,
    k: nat,
)
    requires
        k <= rows.len(),
        acc.len() == w.len(),
        off + k <= all.len(),
        forall|i: int| 0 <= i < k ==> (#[trigger] rows[i]).len() == w.len(),
        forall|i: int| 0 <= i < k ==> all[off + i] == dot(w, lift(#[trigger] rows[i])),
        dot(w, acc) == esum(off, |t: int| e_pow(lambda, t as nat) * all[t]),
    ensures
        dot(
            w,
            rows_combined(
                acc,
                rows,
                Seq::new(rows.len(), |i: int| e_pow(lambda, (off + i) as nat)),
                k,
            ),
        ) == esum(off + k, |t: int| e_pow(lambda, t as nat) * all[t]),
    decreases k,
{
    let powers = Seq::new(rows.len(), |i: int| e_pow(lambda, (off + i) as nat));
    if k > 0 {
        let j = (k - 1) as nat;
        dot_rows(w, acc, rows, lambda, all, off, j);
        rows_combined_len(acc, rows, powers, j);
        assert(rows[j as int].len() == w.len());
        dot_right(w, rows_combined(acc, rows, powers, j), powers[j as int], lift(rows[j as int]));
        assert(all[(off + j) as int] == dot(w, lift(rows[j as int])));
    }
}

/// The combined claim is the inner product of the equality weight with the combined
/// polynomial.
proof fn claim_of_virtual_poly(
    stripes: Seq<Seq<Seq<int>>>,
    point: Seq<E4>,
    lambda: E4,
    n: nat,
    k: nat,
)
    requires
        point.len() == n,
        k <= stripes.len(),
        forall|i: int, j: int|
            0 <= i < stripes.len() && 0 <= j < stripes[i].len() ==> (
            #[trigger] stripes[i][j]).len() == pow2(n),
        forall|i: int, j: int|
            0 <= i < stripes.len() && 0 <= j < stripes[i].len() ==> all_canon(
                lift(#[trigger] stripes[i][j]),
            ),
    ensures
        ({
            let values = stripe_values(stripes, point);
            let v = virtual_poly(stripes, stripe_powers(values, lambda), n, k);
            &&& dot(eq_tab(point), v) == stripe_claim(flat(values, k as int), lambda)
            &&& v.len() == pow2(n)
            &&& all_canon(v)
        }),
    decreases k,
{
    let values = stripe_values(stripes, point);
    let powers = stripe_powers(values, lambda);
    let w = eq_tab(point);
    if k == 0 {
        let z = |i: int| w[i] * zeros(n)[i];
        assert forall|i: int| 0 <= i < pow2(n) implies #[trigger] z(i) == e_zero() by {
            mul_zero(w[i]);
        }
        esum_zero(pow2(n), z);
    } else {
        let j = (k - 1) as nat;
        claim_of_virtual_poly(stripes, point, lambda, n, j);
        let before = flat(values, j as int);
        let all = flat(values, k as int);
        let acc = virtual_poly(stripes, powers, n, j);
        let rows = stripes[j as int];
        assert(all == before + values[j as int]);
        let fb = |t: int| e_pow(lambda, t as nat) * before[t];
        let fa = |t: int| e_pow(lambda, t as nat) * all[t];
        esum_ext(before.len(), fb, fa);
        assert forall|i: int| 0 <= i < rows.len() implies all[before.len() + i] == dot(
            w,
            lift(#[trigger] rows[i]),
        ) by {
            assert(stripes[j as int][i].len() == pow2(n));
            assert(all_canon(lift(stripes[j as int][i])));
            mle_eval_is_weighted_sum(lift(rows[i]), point);
        }
        assert forall|i: int| 0 <= i < rows.len() implies (#[trigger] rows[i]).len() == w.len() by {
            assert(stripes[j as int][i].len() == pow2(n));
        }
        dot_rows(w, acc, rows, lambda, all, before.len(), rows.len());
        assert(powers[j as int] =~= Seq::new(
            rows.len(),
            |i: int| e_pow(lambda, (before.len() + i) as nat),
        ));
        rows_combined_len(acc, rows, powers[j as int], rows.len());
        rows_combined_canon(acc, rows, powers[j as int], rows.len());
    }
}

proof fn rows_combined_canon(acc: Seq<E4>, rows: Seq<Seq<int>>, powers: Seq<E4>, k: nat)
    requires
        all_canon(acc),
    ensures
        all_canon(rows_combined(acc, rows, powers, k)),
    decreases k,
{
    if k > 0 {
        rows_combined_canon(acc, rows, powers, (k - 1) as nat);
        let a = rows_combined(acc, rows, powers, (k - 1) as nat);
        let b = vscale(powers[k - 1], lift(rows[k - 1]));
        assert forall|i: int| 0 <= i < a.len() implies (#[trigger] vadd(a, b)[i]).canon() by {
            add_canon(a[i], b[i]);
        }
    }
}

/// Trees that encode the stripes of a stack, with powers for every stripe, encode their
/// combination.
proof fn stack_encodes(
    roots: Seq<Seq<int>>,
    trees: Seq<TreeVal>,
    powers: Seq<Seq<E4>>,
    fold: nat,
    n: nat,
    log_height: nat,
    stripes: Seq<Seq<Seq<int>>>,
)
    requires
        trees.len() == stripes.len(),
        roots.len() == stripes.len(),
        powers.len() == stripes.len(),
        forall|i: int| 0 <= i < stripes.len() ==> (#[trigger] powers[i]).len() == stripes[i].len(),
        forall|i: int|
            0 <= i < stripes.len() ==> {
                &&& (#[trigger] roots[i]) == merkle_root(trees[i])
                &&& tree_encodes(trees[i], stripes[i], fold, n, log_height)
            },
    ensures
        source_encodes(
            SourceVal::Stripes(roots, stripe_counts(stripes), powers),
            trees,
            virtual_poly(stripes, powers, n, roots.len()),
            fold,
            n,
            log_height,
            stripes,
        ),
{
    let counts = stripe_counts(stripes);
    let src = SourceVal::Stripes(roots, counts, powers);
    assert(src.consistent()) by {
        assert forall|i: int| 0 <= i < roots.len() implies (#[trigger] powers[i]).len()
            == counts[i] by {}
    }
    assert forall|i: int| 0 <= i < roots.len() implies {
        &&& (#[trigger] roots[i]) == merkle_root(trees[i])
        &&& counts[i] == trees[i].len()
        &&& tree_encodes(trees[i], stripes[i], fold, n, log_height)
    } by {}
}

/// What is proved is verified: a stacked proof is accepted by the verifier of the same
/// schedule and stack height, for the prover's commitments and stripe counts, where
/// both start from one transcript and the schedule asks for no starting out-of-domain
/// samples.
#[verifier::rlimit(60)]
#[verifier::spinoff_prover]
pub proof fn stacked_proof_is_accepted(
    prover: StackedWhirProver,
    verifier: StackedWhirVerifier,
    s: Sponge,
    stripes: Seq<Seq<Seq<int>>>,
    trees: Seq<TreeVal>,
    roots: Seq<Seq<int>>,
    stack_point: Seq<E4>,
    p: ProofVal,
)
    requires
        verifier.config == prover.config,
        verifier.log_stacking_height == prover.log_stacking_height,
        prover.config.starting_ood_samples == 0,
        stack_point.len() == prover.log_stacking_height,
        prover.fits(stripes.len()),
        trees.len() == stripes.len(),
        roots.len() == stripes.len(),
        forall|i: int|
            0 <= i < stripes.len() ==> {
                &&& (#[trigger] roots[i]) == merkle_root(trees[i])
                &&& tree_encodes(
                    trees[i],
                    stripes[i],
                    prover.first_fold(),
                    prover.log_stacking_height as nat,
                    prover.start_log(),
                )
            },
        forall|i: int, j: int|
            0 <= i < stripes.len() && 0 <= j < stripes[i].len() ==> all_canon(
                lift(#[trigger] stripes[i][j]),
            ),
        ({
            let (lambda, start) = prover.start(s, stripes, stack_point);
            prover.prover(
                trees,
                roots,
                stripe_counts(stripes),
                stripe_powers(stripe_values(stripes, stack_point), lambda),
            ).honest(start, p)
        }),
    ensures
        verifier.refusal(
            s,
            roots,
            stripe_counts(stripes),
            stack_point,
            stripe_values(stripes, stack_point),
            p,
        ) is None,
{
    let n = prover.log_stacking_height as nat;
    let counts = stripe_counts(stripes);
    let values = stripe_values(stripes, stack_point);
    let (lambda, ps0) = prover.start(s, stripes, stack_point);
    let powers = stripe_powers(values, lambda);
    let pr = prover.prover(trees, roots, counts, powers);
    let inst = verifier.instance(roots, counts, powers, p);
    let (st0, lam) = verifier.start(s, stack_point, values);
    assert forall|i: int, j: int|
        0 <= i < stripes.len() && 0 <= j < stripes[i].len() implies (
    #[trigger] stripes[i][j]).len() == pow2(n) by {
        assert(roots[i] == merkle_root(trees[i]));
    }
    claim_of_virtual_poly(stripes, stack_point, lambda, n, stripes.len());
    let w = eq_tab(stack_point);
    assert(all_canon(w)) by {
        assert forall|i: int| 0 <= i < w.len() implies (#[trigger] w[i]).canon() by {
            eq_weight_canon(stack_point, i);
        }
    }
    weight_of_first(stack_point, n);
    assert(ps0.folder.w == w);
    assert(sound_folder(ps0.folder, st0.terms, n, ps0.challenges, n)) by {
        reveal(sound_folder);
    }
    assert(schedule_ok(pr)) by {
        reveal(prover_fits);
    }
    assert(folded_vars(pr.rounds, 1) == pr.fold(0)) by {
        reveal_with_fuel(folded_vars, 2);
    }
    assert(pr.codeword_log(0) == prover.start_log());
    assert(pr.fold(0) == prover.first_fold());
    assert(powers.len() == stripes.len());
    stack_encodes(
        roots,
        trees,
        powers,
        pr.fold(0),
        n,
        pr.codeword_log(0),
        stripes,
    );
    assert(source_encodes(
        pr.start,
        pr.trees,
        ps0.folder.f,
        pr.fold(0),
        pr.n,
        pr.codeword_log(0),
        stripes,
    ));
    if inst.m() > 1 {
        assert(inst.final_root == p.roots[inst.m() - 2]);
    }
    honest_proof_is_accepted(inst, pr, st0, ps0, stripes);
}

} // verus!
