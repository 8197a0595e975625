//! Who holds the prover's vectors and trees: the host, or an engine.
use vstd::prelude::*;
use vstd::arithmetic::power2::{lemma2_to64, lemma_pow2_pos, pow2};
use crate::arith::{pow2_le, pow2_usize};
use crate::ext::{epoints, evals, fvals, Ext};
use crate::merkle::{committed_matrices, matrices_val, merkle_commit, merkle_root, uniform,
    CommittedRows, Digest, Matrix};
use crate::transcript::Transcript;
use crate::whir::config::pow_feasible;
use crate::whir::encode::{encode_interleaved_ef, ext_matrix};
use crate::whir::honest::{leaves_accepted, opened_leaves, TreeVal};
use crate::whir::messages::{leaves_val, LeafOpening, ProofOfWork, SumcheckPoly};
use crate::whir::proving::{answer_ood, answers_honest, open_trees, tree_vals};
use crate::whir::replay::{ood_points_of, ood_sponge};
use crate::whir::sumcheck::{absorbed, batch_coeffs, batched_claim, eq_tables, fold_messages,
    fold_pows_found, fold_run, fold_stuck, mono_tables, out_pows, FoldRun, FolderVal, WhirFolder};

verus! {

/// The indices of queries as integers.
pub open spec fn index_vals(s: Seq<usize>) -> Seq<int> {
    Seq::new(s.len(), |q: int| s[q] as int)
}

/// What a prover's rounds need of whoever holds the vectors and the trees.
pub trait RoundBackend: Sized {
    /// Whether the state is consistent.
    spec fn inv(&self) -> bool;

    /// Polynomial, weight and claim.
    spec fn val(&self) -> FolderVal;

    /// The number of remaining variables.
    spec fn vars(&self) -> nat;

    /// The trees of the starting codewords.
    spec fn start_trees(&self) -> Seq<TreeVal>;

    /// The trees of later codewords that are not yet opened, oldest first.
    spec fn pending(&self) -> Seq<TreeVal>;

    /// Folds `k` variables.
    fn fold_variables(
        &mut self,
        k: usize,
        pow_bits: &Vec<usize>,
        challenger: &mut Transcript,
        randomness_out: &mut Vec<Ext>,
    ) -> (r: Option<Vec<(SumcheckPoly, ProofOfWork)>>)
        requires
            old(self).inv(),
            k <= old(self).vars(),
            old(challenger).wf(),
            pow_feasible(pow_bits@),
        ensures
            final(challenger).wf(),
            ({
                let start = FoldRun {
                    folder: old(self).val(),
                    sponge: old(challenger)@,
                    challenges: evals(old(randomness_out)@),
                };
                match r {
                    Some(out) => {
                        let pows = out_pows(out@);
                        let end = fold_run(start, pow_bits@, pows, k as nat);
                        &&& out@.len() == k
                        &&& fold_pows_found(start, pow_bits@, pows, k as nat)
                        &&& fold_messages(start, pow_bits@, pows, out@)
                        &&& final(self).inv()
                        &&& final(self).val() == end.folder
                        &&& final(self).vars() == old(self).vars() - k
                        &&& final(self).start_trees() == old(self).start_trees()
                        &&& final(self).pending() == old(self).pending()
                        &&& final(challenger)@ == end.sponge
                        &&& evals(final(randomness_out)@) == end.challenges
                    },
                    None => fold_stuck(start, pow_bits@, k as nat),
                }
            }),
    ;

    /// Told after the folds of a round, and whether it is the last one.
    fn settle(&mut self, last: bool)
        requires
            old(self).inv(),
        ensures
            final(self).inv(),
            final(self).val() == old(self).val(),
            final(self).vars() == old(self).vars(),
            final(self).start_trees() == old(self).start_trees(),
            final(self).pending() == old(self).pending(),
    ;

    /// Commits to the codeword of the polynomial, `2^next_ff` values a row.
    fn commit_codeword(&mut self, next_ff: usize, log_inv_rate: usize, v: usize) -> (r: Digest)
        requires
            old(self).inv(),
            v == old(self).vars(),
            next_ff <= v,
            v - next_ff + log_inv_rate <= 26,
            4 * pow2((v + log_inv_rate) as nat) <= usize::MAX,
        ensures
            final(self).inv(),
            final(self).val() == old(self).val(),
            final(self).vars() == old(self).vars(),
            final(self).start_trees() == old(self).start_trees(),
            ({
                let tree = seq![
                    ext_matrix(
                        old(self).val().f,
                        next_ff as nat,
                        (v - next_ff + log_inv_rate) as nat,
                    ),
                ];
                &&& fvals(r@) == merkle_root(tree)
                &&& final(self).pending() == old(self).pending().push(tree)
            }),
    ;

    /// Draws out-of-domain points and answers each with the value of the polynomial.
    fn answer_samples(&mut self, v: usize, samples: usize, challenger: &mut Transcript) -> (r: (
        Vec<Vec<Ext>>,
        Vec<Ext>,
    ))
        requires
            old(self).inv(),
            v == old(self).vars(),
            old(challenger).wf(),
        ensures
            final(self).inv(),
            final(self).val() == old(self).val(),
            final(self).vars() == old(self).vars(),
            final(self).start_trees() == old(self).start_trees(),
            final(self).pending() == old(self).pending(),
            final(challenger).wf(),
            r.1@.len() == samples,
            r.0@.len() == samples,
            epoints(r.0@) == ood_points_of(old(challenger)@, evals(r.1@), v as nat),
            forall|i: int| 0 <= i < r.0@.len() ==> (#[trigger] r.0@[i])@.len() == v,
            answers_honest(old(challenger)@, old(self).val().f, evals(r.1@), v as nat),
            final(challenger)@ == ood_sponge(
                old(challenger)@,
                evals(r.1@),
                v as nat,
                samples as nat,
            ),
    ;

    /// Opens the starting codewords at several indices.
    fn open_start(&mut self, height: usize, indices: &Vec<usize>) -> (r: Vec<LeafOpening>)
        requires
            old(self).inv(),
            forall|i: int|
                0 <= i < old(self).start_trees().len() ==> uniform(
                    #[trigger] old(self).start_trees()[i],
                    height as nat,
                ),
            forall|q: int| 0 <= q < indices@.len() ==> (#[trigger] indices@[q]) < height,
            indices@.len() * old(self).start_trees().len() <= usize::MAX,
        ensures
            final(self).inv(),
            final(self).val() == old(self).val(),
            final(self).vars() == old(self).vars(),
            final(self).start_trees() == old(self).start_trees(),
            final(self).pending() == old(self).pending(),
            leaves_val(r@) == opened_leaves(old(self).start_trees(), index_vals(indices@)),
            leaves_accepted(
                old(self).start_trees(),
                height as nat,
                index_vals(indices@),
                leaves_val(r@),
            ),
            r@.len() == indices@.len() * old(self).start_trees().len(),
    ;

    /// Opens the oldest unopened later codeword at several indices.
    fn open_codeword(&mut self, height: usize, indices: &Vec<usize>) -> (r: Vec<LeafOpening>)
        requires
            old(self).inv(),
            old(self).pending().len() > 0,
            uniform(old(self).pending()[0], height as nat),
            forall|q: int| 0 <= q < indices@.len() ==> (#[trigger] indices@[q]) < height,
        ensures
            final(self).inv(),
            final(self).val() == old(self).val(),
            final(self).vars() == old(self).vars(),
            final(self).start_trees() == old(self).start_trees(),
            final(self).pending() == old(self).pending().skip(1),
            leaves_val(r@) == opened_leaves(
                seq![old(self).pending()[0]],
                index_vals(indices@),
            ),
            leaves_accepted(
                seq![old(self).pending()[0]],
                height as nat,
                index_vals(indices@),
                leaves_val(r@),
            ),
            r@.len() == indices@.len(),
    ;

    /// Folds out-of-domain constraints into weight and claim.
    fn add_samples(&mut self, points: &Vec<Vec<Ext>>, answers: &Vec<Ext>, batch: Ext)
        requires
            old(self).inv(),
            points@.len() == answers@.len(),
            forall|i: int|
                0 <= i < points@.len() ==> (#[trigger] points@[i])@.len() == old(self).vars(),
        ensures
            final(self).inv(),
            final(self).vars() == old(self).vars(),
            final(self).start_trees() == old(self).start_trees(),
            final(self).pending() == old(self).pending(),
            final(self).val() == (FolderVal {
                f: old(self).val().f,
                w: absorbed(
                    old(self).val().w,
                    eq_tables(epoints(points@)),
                    batch_coeffs(batch@, batch@, answers@.len()),
                    points@.len() as int,
                ),
                claim: batched_claim(
                    old(self).val().claim,
                    evals(answers@),
                    batch_coeffs(batch@, batch@, answers@.len()),
                    answers@.len() as int,
                ),
            }),
    ;

    /// Folds monomial constraints into weight and claim.
    fn add_queries(
        &mut self,
        points_lsb: &Vec<Vec<Ext>>,
        values: &Vec<Ext>,
        batch: Ext,
        start_coeff: Ext,
    )
        requires
            old(self).inv(),
            points_lsb@.len() == values@.len(),
            forall|i: int|
                0 <= i < points_lsb@.len() ==> (#[trigger] points_lsb@[i])@.len() == old(
                    self,
                ).vars(),
        ensures
            final(self).inv(),
            final(self).vars() == old(self).vars(),
            final(self).start_trees() == old(self).start_trees(),
            final(self).pending() == old(self).pending(),
            final(self).val() == (FolderVal {
                f: old(self).val().f,
                w: absorbed(
                    old(self).val().w,
                    mono_tables(epoints(points_lsb@)),
                    batch_coeffs(start_coeff@, batch@, values@.len()),
                    values@.len() as int,
                ),
                claim: batched_claim(
                    old(self).val().claim,
                    evals(values@),
                    batch_coeffs(start_coeff@, batch@, values@.len()),
                    values@.len() as int,
                ),
            }),
    ;

    /// The polynomial.
    fn into_poly(self) -> (r: Vec<Ext>)
        requires
            self.inv(),
        ensures
            evals(r@) == self.val().f,
    ;
}

/// Everything on the host.
pub struct HostBackend<'a> {
    /// Polynomial, weight and claim.
    pub folder: WhirFolder,
    /// The trees of the starting codewords.
    pub trees: &'a Vec<&'a CommittedRows>,
    /// The trees of later codewords that are not yet opened, oldest first.
    pub queue: Vec<CommittedRows>,
}

/// The matrices of several owned trees.
pub open spec fn owned_trees(s: Seq<CommittedRows>) -> Seq<TreeVal> {
    Seq::new(s.len(), |i: int| committed_matrices(s[i]))
}

/// Commits to the codeword of a polynomial, `2^next_ff` values a row.
pub(crate) fn commit_poly(f: &Vec<Ext>, next_ff: usize, log_inv_rate: usize, v: usize) -> (r: (
    Digest,
    CommittedRows,
))
    requires
        f@.len() == pow2(v as nat),
        next_ff <= v,
        v - next_ff + log_inv_rate <= 26,
        4 * pow2((v + log_inv_rate) as nat) <= usize::MAX,
    ensures
        ({
            let tree = seq![
                ext_matrix(evals(f@), next_ff as nat, (v - next_ff + log_inv_rate) as nat),
            ];
            &&& fvals(r.0@) == merkle_root(tree)
            &&& committed_matrices(r.1) == tree
        }),
{
    let matrix = encode_interleaved_ef(f, next_ff, log_inv_rate, v);
    let next_log: usize = v - next_ff + log_inv_rate;
    proof {
        lemma2_to64();
        pow2_le(next_log as nat, 26);
        lemma_pow2_pos(next_ff as nat);
        lemma_pow2_pos(next_log as nat);
    }
    let height: usize = pow2_usize(next_log);
    let mut matrices: Vec<Matrix> = Vec::new();
    matrices.push(matrix);
    let ghost want = seq![ext_matrix(evals(f@), next_ff as nat, next_log as nat)];
    proof {
        assert(matrices_val(matrices@) =~= want);
        assert(fvals(matrices@[0].values@).len() == matrices@[0].values@.len());
        assert(uniform(want, height as nat));
    }
    merkle_commit(&matrices, height)
}

impl<'a> RoundBackend for HostBackend<'a> {
    open spec fn inv(&self) -> bool {
        self.folder.wf()
    }

    open spec fn val(&self) -> FolderVal {
        self.folder@
    }

    open spec fn vars(&self) -> nat {
        self.folder.vars()
    }

    open spec fn start_trees(&self) -> Seq<TreeVal> {
        tree_vals(self.trees@)
    }

    open spec fn pending(&self) -> Seq<TreeVal> {
        owned_trees(self.queue@)
    }

    fn fold_variables(
        &mut self,
        k: usize,
        pow_bits: &Vec<usize>,
        challenger: &mut Transcript,
        randomness_out: &mut Vec<Ext>,
    ) -> (r: Option<Vec<(SumcheckPoly, ProofOfWork)>>) {
        self.folder.fold_variables(k, pow_bits, challenger, randomness_out)
    }

    fn settle(&mut self, last: bool) {
    }

    fn commit_codeword(&mut self, next_ff: usize, log_inv_rate: usize, v: usize) -> (r: Digest) {
        let (root, tree) = commit_poly(&self.folder.f_vec, next_ff, log_inv_rate, v);
        let ghost was = self.queue@;
        self.queue.push(tree);
        proof {
            assert(owned_trees(self.queue@) =~= owned_trees(was).push(committed_matrices(tree)));
        }
        root
    }

    fn answer_samples(&mut self, v: usize, samples: usize, challenger: &mut Transcript) -> (r: (
        Vec<Vec<Ext>>,
        Vec<Ext>,
    )) {
        answer_ood(self.folder.f_vec.as_slice(), v, samples, challenger)
    }

    fn open_start(&mut self, height: usize, indices: &Vec<usize>) -> (r: Vec<LeafOpening>) {
        proof {
            let vals = tree_vals(self.trees@);
            assert(vals.len() == self.trees@.len());
            assert forall|i: int| 0 <= i < self.trees@.len() implies uniform(
                committed_matrices(*#[trigger] self.trees@[i]),
                height as nat,
            ) by {
                assert(uniform(vals[i], height as nat));
            }
            assert(Seq::new(indices@.len(), |q: int| indices@[q] as int) =~= index_vals(indices@));
        }
        open_trees(self.trees, height, indices)
    }

    fn open_codeword(&mut self, height: usize, indices: &Vec<usize>) -> (r: Vec<LeafOpening>) {
        let ghost was = self.queue@;
        let tree = self.queue.remove(0);
        let mut one: Vec<&CommittedRows> = Vec::new();
        one.push(&tree);
        proof {
            assert(owned_trees(was)[0] == committed_matrices(was[0]));
            assert(tree_vals(one@) =~= seq![owned_trees(was)[0]]);
            assert(owned_trees(self.queue@) =~= owned_trees(was).skip(1));
            assert(Seq::new(indices@.len(), |q: int| indices@[q] as int) =~= index_vals(indices@));
        }
        let n: usize = indices.len();
        open_trees(&one, height, indices)
    }

    fn add_samples(&mut self, points: &Vec<Vec<Ext>>, answers: &Vec<Ext>, batch: Ext) {
        self.folder.add_ood_constraints(points, answers, batch);
    }

    fn add_queries(
        &mut self,
        points_lsb: &Vec<Vec<Ext>>,
        values: &Vec<Ext>,
        batch: Ext,
        start_coeff: Ext,
    ) {
        let _next = self.folder.add_monomial_constraints(points_lsb, values, batch, start_coeff);
    }

    fn into_poly(self) -> (r: Vec<Ext>) {
        self.folder.f_vec
    }
}

} // verus!
