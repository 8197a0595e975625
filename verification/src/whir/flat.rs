//! A prover whose leaves hold consecutive positions of a codeword.
//!
//! Each codeword is that of the whole polynomial, and a leaf packs `2^ff` consecutive
//! positions. The opened leaves fold to values that join the claim; their points do not
//! join the weight.
use vstd::prelude::*;
use vstd::arithmetic::power2::{lemma2_to64, lemma_pow2_adds, lemma_pow2_pos, pow2};
use crate::arith::{pow2_le, pow2_usize};
use crate::ext::{evals, fvals, lift, Ext, E4};
use crate::felt::Felt;
use crate::merkle::{committed_matrices, matrices_val, matrix_val, merkle_commit, merkle_root,
    uniform, CommittedRows, Digest, Matrix};
use crate::mle::mle_eval;
use crate::multilinear::{eval_at, lift_felts};
use crate::transcript::{Sponge, Transcript};
use crate::whir::backend::{index_vals, HostBackend, RoundBackend};
use crate::whir::config::WhirConfig;
use crate::whir::encode::{base_matrix, codeword, constants, encode_interleaved_base,
    encode_interleaved_ef, ext_matrix};
use crate::whir::honest::{leaves_accepted, opened_leaf, opened_leaves, Prover, PState, RoundData,
    TreeVal};
use crate::whir::interleaved::{prover_start, seat_folder, WhirProver};
use crate::whir::messages::{leaf_val, leaves_val, polys_val, pows_val, LeafOpening, MerkleOpening,
    ProofOfWork, ProofVal, SumcheckPoly, WhirProof};
use crate::whir::proving::{answer_ood, append_pows, flat_pows, flat_pows_ext, honest_answers_unique,
    open_trees, prove_folds, prover_overall, prover_round, row_len, tree_vals};
use crate::whir::queries::SourceVal;
use crate::whir::replay::{leaf_elements, leaf_to_ef};
use crate::whir::rounds::{digest_felts, rate_of};
use crate::whir::sumcheck::{absorbed, batch_coeffs, batched_claim, eq_tables, fold_stuck, is_grind,
    no_grind, FolderVal, WhirFolder};

verus! {

/// A schedule over the values of a polynomial, with `2^ff` positions a leaf.
pub struct Flat {
    pub pr: Prover,
    pub ff: nat,
    pub values: Seq<int>,
}

impl Flat {
    /// The logarithm of the length of the codeword that round `r` opens.
    pub open spec fn log(self, r: int) -> nat {
        self.pr.left(r) + rate_of(self.pr.rounds, self.pr.start_rate, r)
    }

    /// The tree of the codeword that round `r` opens, where `f` is the polynomial before
    /// its folds.
    pub open spec fn tree(self, f: Seq<E4>, r: int) -> TreeVal {
        if r == 0 {
            seq![(base_matrix(self.values, 0, self.log(0)).0, pow2(self.ff))]
        } else {
            seq![(ext_matrix(f, 0, self.log(r)).0, 4 * pow2(self.ff))]
        }
    }

    /// The leaves that hold drawn positions.
    pub open spec fn leaf_indices(self, drawn: Seq<int>) -> Seq<int> {
        Seq::new(drawn.len(), |q: int| drawn[q] / pow2(self.ff) as int)
    }

    /// The leaves that round `r` opens.
    pub open spec fn opened(self, s: Sponge, d: RoundData, r: int) -> Seq<int> {
        self.leaf_indices(
            self.pr.index_sponge(s, d, r).drawn_indices(
                self.log(r),
                self.pr.rounds[r].num_queries as nat,
            ),
        )
    }

    /// Whether root, answers, proof of work and openings of round `r` are honest, where
    /// `ps` is the state after its folds, and `prev` the polynomial before them.
    pub open spec fn honest_queries(
        self,
        prev: Seq<E4>,
        ps: PState,
        d: RoundData,
        r: int,
    ) -> bool {
        let f = ps.folder.f;
        let idx = self.opened(ps.sponge, d, r);
        &&& d.root == merkle_root(self.tree(f, r + 1))
        &&& d.answers.len() == self.pr.rounds[r].ood_samples
        &&& forall|i: int|
            0 <= i < d.answers.len() ==> #[trigger] d.answers[i] == mle_eval(
                f,
                self.pr.ood_points(ps.sponge, d, r)[i],
            )
        &&& is_grind(
            self.pr.pow_sponge(ps.sponge, d, r),
            self.pr.rounds[r].queries_pow_bits as nat,
            d.query_pow,
        )
        &&& d.leaves == opened_leaves(seq![self.tree(prev, r)], idx)
        &&& leaves_accepted(
            seq![self.tree(prev, r)],
            pow2((self.log(r) - self.ff) as nat),
            idx,
            d.leaves,
        )
    }

    /// The values that the opened leaves of round `r` fold to.
    pub open spec fn stir_values(self, ps: PState, d: RoundData, r: int) -> Seq<E4> {
        Seq::new(
            self.pr.rounds[r].num_queries as nat,
            |q: int|
                mle_eval(
                    leaf_elements(d.leaves[q].rows[0], r == 0),
                    self.pr.own_challenges(ps, r),
                ),
        )
    }

    /// The state after the queries of round `r`.
    pub open spec fn queried(self, ps: PState, d: RoundData, r: int) -> PState {
        let s = self.pr.index_sponge(ps.sponge, d, r).after_draws(
            self.pr.rounds[r].num_queries as nat,
        );
        let batch = s.drawn_ext();
        let a = d.answers.len();
        let q = self.pr.rounds[r].num_queries as nat;
        let c1 = batch_coeffs(batch, batch, a);
        PState {
            folder: FolderVal {
                f: ps.folder.f,
                w: absorbed(
                    ps.folder.w,
                    eq_tables(self.pr.ood_points(ps.sponge, d, r)),
                    c1,
                    a as int,
                ),
                claim: batched_claim(
                    batched_claim(ps.folder.claim, d.answers, c1, a as int),
                    self.stir_values(ps, d, r),
                    batch_coeffs(batch, batch, q),
                    q as int,
                ),
            },
            sponge: s.after_draw_ext(),
            challenges: ps.challenges,
        }
    }

    /// The state after `r` whole rounds.
    pub open spec fn run(self, start: PState, data: Seq<RoundData>, r: int) -> PState
        decreases r,
    {
        if r <= 0 {
            start
        } else {
            let d = data[r - 1];
            self.queried(self.pr.folded(self.run(start, data, r - 1), d, r - 1), d, r - 1)
        }
    }

    /// Whether round `r` is honest.
    pub open spec fn honest_round(self, start: PState, data: Seq<RoundData>, r: int) -> bool {
        let at = self.run(start, data, r);
        &&& self.pr.honest_folds(at, data[r], r)
        &&& self.honest_queries(at.folder.f, self.pr.folded(at, data[r], r), data[r], r)
    }

    /// Whether the first `r` whole rounds are honest.
    pub open spec fn honest_rounds(self, start: PState, data: Seq<RoundData>, r: int) -> bool {
        forall|i: int| 0 <= i < r ==> #[trigger] self.honest_round(start, data, i)
    }

    /// The state after the folds of the last round.
    pub open spec fn end(self, start: PState, data: Seq<RoundData>) -> PState {
        let r = self.pr.m() - 1;
        self.pr.folded(self.run(start, data, r), data[r], r)
    }

    /// The leaves that the final queries open.
    pub open spec fn final_opened(self, end: PState, final_pow: int) -> Seq<int> {
        self.leaf_indices(
            end.sponge.after_pow(self.pr.final_pow_bits, final_pow).drawn_indices(
                self.log(self.pr.m() - 1),
                self.pr.final_queries,
            ),
        )
    }

    /// Whether a proof carries the data of every round.
    pub open spec fn carries(self, p: ProofVal, data: Seq<RoundData>) -> bool {
        let m = self.pr.m();
        &&& data.len() == m
        &&& p.polys == Seq::new((m - 1) as nat, |i: int| data[i].msgs)
        &&& p.final_polys == data[m - 1].msgs
        &&& p.roots == Seq::new((m - 1) as nat, |i: int| data[i].root)
        &&& p.ood_answers == Seq::new((m - 1) as nat, |i: int| data[i].answers)
        &&& p.openings.len() == m
        &&& forall|i: int| 0 <= i < m - 1 ==> p.openings[i] == (#[trigger] data[i]).leaves
        &&& p.pows == flat_pows(data, m - 1) + data[m - 1].pows
    }

    /// Whether a proof is what an honest prover sends from a starting state, with the given
    /// data of its rounds.
    pub open spec fn honest(self, start: PState, data: Seq<RoundData>, p: ProofVal) -> bool {
        let r = self.pr.m() - 1;
        let at = self.run(start, data, r);
        let end = self.end(start, data);
        let idx = self.final_opened(end, p.final_pow);
        &&& self.carries(p, data)
        &&& self.honest_rounds(start, data, r)
        &&& self.pr.honest_folds(at, data[r], r)
        &&& p.final_poly == end.folder.f
        &&& is_grind(end.sponge, self.pr.final_pow_bits, p.final_pow)
        &&& p.openings.last() == opened_leaves(seq![self.tree(at.folder.f, r)], idx)
        &&& leaves_accepted(
            seq![self.tree(at.folder.f, r)],
            pow2((self.log(r) - self.ff) as nat),
            idx,
            p.openings.last(),
        )
    }

    /// Whether a proof is what an honest prover sends from a starting state, and `after` the
    /// transcript after it.
    pub open spec fn honest_proof(self, start: PState, p: ProofVal, after: Sponge) -> bool {
        exists|data: Seq<RoundData>|
            {
                &&& #[trigger] self.honest(start, data, p)
                &&& after == self.end(start, data).sponge.after_pow(
                    self.pr.final_pow_bits,
                    p.final_pow,
                ).after_draws(self.pr.final_queries)
            }
    }

    /// Whether an honest prover stops for want of a proof of work in the round of the last
    /// entry of `data`.
    pub open spec fn stuck_after(self, start: PState, data: Seq<RoundData>) -> bool {
        let r = data.len() - 1;
        let at = self.run(start, data, r);
        let d = data[r];
        &&& 0 <= r < self.pr.m()
        &&& self.honest_rounds(start, data, r)
        &&& {
            ||| fold_stuck(self.pr.fold_start(at), self.pr.rounds[r].pow_bits@, self.pr.fold(r))
            ||| {
                &&& r < self.pr.m() - 1
                &&& self.pr.honest_folds(at, d, r)
                &&& no_grind(
                    self.pr.pow_sponge(self.pr.folded(at, d, r).sponge, d, r),
                    self.pr.rounds[r].queries_pow_bits as nat,
                )
            }
            ||| {
                &&& r == self.pr.m() - 1
                &&& self.pr.honest_folds(at, d, r)
                &&& no_grind(self.end(start, data).sponge, self.pr.final_pow_bits)
            }
        }
    }

    /// Whether an honest prover stops for want of a proof of work.
    pub open spec fn stuck(self, start: PState) -> bool {
        exists|data: Seq<RoundData>| #[trigger] self.stuck_after(start, data)
    }

    /// The schedule is within machine and field limits, and every round that opens leaves
    /// folds as many variables as a leaf has.
    pub open spec fn fits(self) -> bool {
        &&& self.pr.fits()
        &&& self.log(0) <= 24
        &&& pow2(self.log(0)) <= usize::MAX
        &&& forall|r: int|
            0 <= r < self.pr.m() ==> {
                &&& self.ff <= #[trigger] self.log(r)
                &&& self.log(r) <= 26
                &&& 4 * pow2(self.log(r)) <= usize::MAX
            }
        &&& forall|r: int| 0 <= r < self.pr.m() - 1 ==> #[trigger] self.pr.fold(r) == self.ff
    }
}

proof fn run_ext(fl: Flat, start: PState, a: Seq<RoundData>, b: Seq<RoundData>, r: int)
    requires
        forall|i: int| 0 <= i < r ==> #[trigger] a[i] == b[i],
    ensures
        fl.run(start, a, r) == fl.run(start, b, r),
    decreases r,
{
    if r > 0 {
        run_ext(fl, start, a, b, r - 1);
        assert(a[r - 1] == b[r - 1]);
    }
}

proof fn honest_ext(fl: Flat, start: PState, a: Seq<RoundData>, b: Seq<RoundData>, r: int)
    requires
        forall|i: int| 0 <= i < r ==> #[trigger] a[i] == b[i],
        fl.honest_rounds(start, a, r),
    ensures
        fl.honest_rounds(start, b, r),
{
    assert forall|i: int| 0 <= i < r implies #[trigger] fl.honest_round(start, b, i) by {
        assert(fl.honest_round(start, a, i));
        run_ext(fl, start, a, b, i);
        assert(a[i] == b[i]);
    }
}

proof fn split_pow(log: nat, ff: nat)
    requires
        ff <= log,
    ensures
        pow2(log) == pow2((log - ff) as nat) * pow2(ff),
        pow2((log - ff) as nat) > 0,
        pow2(ff) > 0,
{
    lemma_pow2_adds((log - ff) as nat, ff);
    lemma_pow2_pos((log - ff) as nat);
    lemma_pow2_pos(ff);
}

/// Commits to the codeword of base-field values, `2^ff` positions a leaf.
fn commit_base(values: &Vec<Felt>, ff: usize, rate: usize, v: usize) -> (r: (
    Digest,
    CommittedRows,
))
    requires
        values@.len() == pow2(v as nat),
        ff <= v + rate <= 24,
        pow2((v + rate) as nat) <= usize::MAX,
    ensures
        ({
            let tree = seq![
                (base_matrix(fvals(values@), 0, (v + rate) as nat).0, pow2(ff as nat)),
            ];
            &&& fvals(r.0@) == merkle_root(tree)
            &&& committed_matrices(r.1) == tree
            &&& uniform(tree, pow2((v + rate - ff) as nat))
        }),
{
    let ghost f = fvals(values@);
    let log: usize = v + rate;
    proof {
        lemma2_to64();
        split_pow(log as nat, ff as nat);
        pow2_le(ff as nat, log as nat);
        pow2_le((log - ff) as nat, log as nat);
    }
    let matrix = encode_interleaved_base(values, 0, rate, v);
    proof {
        let m = matrix_val(matrix);
        let cw = codeword(lift(f), 0, log as nat);
        assert(lift(m.0).len() == m.0.len());
        assert forall|t: int| 0 <= t < m.0.len() implies #[trigger] m.0[t] == cw[t].c0 by {
            assert(lift(m.0)[t] == cw[t]);
        }
        assert(m.0 =~= constants(cw));
        assert(m.0.len() == pow2(log as nat)) by {
            assert(pow2(log as nat) * 1 == pow2(log as nat));
        }
    }
    let width: usize = pow2_usize(ff);
    let height: usize = pow2_usize(log - ff);
    let mut matrices: Vec<Matrix> = Vec::new();
    matrices.push(Matrix { values: matrix.values, width });
    proof {
        assert(matrices_val(matrices@) =~= seq![
            (base_matrix(f, 0, log as nat).0, pow2(ff as nat)),
        ]);
    }
    merkle_commit(&matrices, height)
}

/// Commits to the codeword of extension values, `2^ff` positions a leaf.
fn commit_ext(f: &Vec<Ext>, ff: usize, rate: usize, v: usize) -> (r: (Digest, CommittedRows))
    requires
        f@.len() == pow2(v as nat),
        ff <= v + rate <= 26,
        4 * pow2((v + rate) as nat) <= usize::MAX,
    ensures
        ({
            let tree = seq![
                (ext_matrix(evals(f@), 0, (v + rate) as nat).0, 4 * pow2(ff as nat)),
            ];
            &&& fvals(r.0@) == merkle_root(tree)
            &&& committed_matrices(r.1) == tree
            &&& uniform(tree, pow2((v + rate - ff) as nat))
        }),
{
    let log: usize = v + rate;
    proof {
        lemma2_to64();
        split_pow(log as nat, ff as nat);
        pow2_le(ff as nat, log as nat);
        pow2_le((log - ff) as nat, log as nat);
        assert(pow2((log - ff) as nat) * (4 * pow2(ff as nat)) == 4 * (pow2((log - ff) as nat)
            * pow2(ff as nat))) by (nonlinear_arith);
    }
    let matrix = encode_interleaved_ef(f, 0, rate, v);
    let width: usize = pow2_usize(ff);
    let height: usize = pow2_usize(log - ff);
    let mut matrices: Vec<Matrix> = Vec::new();
    proof {
        assert(fvals(matrix.values@).len() == matrix.values@.len());
    }
    matrices.push(Matrix { values: matrix.values, width: 4 * width });
    proof {
        assert(matrices_val(matrices@) =~= seq![
            (ext_matrix(evals(f@), 0, log as nat).0, 4 * pow2(ff as nat)),
        ]);
    }
    merkle_commit(&matrices, height)
}

/// The value that a leaf folds to.
pub fn coset_stir_value(leaf: &Vec<Felt>, base: bool, folding_randomness: &[Ext]) -> (r: Ext)
    requires
        leaf@.len() == (if base {
            pow2(folding_randomness@.len())
        } else {
            pow2(folding_randomness@.len()) * 4
        }),
    ensures
        r@ == mle_eval(leaf_elements(fvals(leaf@), base), evals(folding_randomness@)),
{
    let coset = leaf_to_ef(leaf, base);
    proof {
        assert(evals(coset@).len() == coset@.len());
        assert(fvals(leaf@).len() == leaf@.len());
    }
    eval_at(coset.as_slice(), folding_randomness)
}

/// The leaves that hold drawn positions.
fn leaves_of(indices: &Vec<usize>, ff: usize, log: usize) -> (r: Vec<usize>)
    requires
        ff <= log <= 26,
        forall|i: int| 0 <= i < indices@.len() ==> (#[trigger] indices@[i]) < pow2(log as nat),
    ensures
        r@.len() == indices@.len(),
        forall|i: int|
            0 <= i < r@.len() ==> (#[trigger] r@[i]) as int == indices@[i] as int / pow2(
                ff as nat,
            ) as int,
        forall|i: int| 0 <= i < r@.len() ==> (#[trigger] r@[i]) < pow2((log - ff) as nat),
{
    proof {
        lemma2_to64();
        pow2_le(ff as nat, 26);
        split_pow(log as nat, ff as nat);
    }
    let width: usize = pow2_usize(ff);
    let mut r: Vec<usize> = Vec::new();
    let mut i: usize = 0;
    while i < indices.len()
        invariant
            i <= indices@.len(),
            width == pow2(ff as nat),
            width > 0,
            ff <= log,
            pow2(log as nat) == pow2((log - ff) as nat) * pow2(ff as nat),
            forall|i: int| 0 <= i < indices@.len() ==> (#[trigger] indices@[i]) < pow2(log as nat),
            r@.len() == i,
            forall|j: int|
                0 <= j < i ==> (#[trigger] r@[j]) as int == indices@[j] as int / pow2(
                    ff as nat,
                ) as int,
            forall|j: int| 0 <= j < i ==> (#[trigger] r@[j]) < pow2((log - ff) as nat),
        decreases indices@.len() - i,
    {
        let x: usize = indices[i];
        proof {
            assert(x < pow2(log as nat));
            assert(x < width * pow2((log - ff) as nat)) by (nonlinear_arith)
                requires
                    x < pow2(log as nat),
                    pow2(log as nat) == pow2((log - ff) as nat) * width,
            ;
            vstd::arithmetic::div_mod::lemma_multiply_divide_lt(
                x as int,
                width as int,
                pow2((log - ff) as nat) as int,
            );
        }
        r.push(x / width);
        i = i + 1;
    }
    r
}

/// Opens one tree at the leaves that hold drawn positions.
fn open_flat(
    tree: &CommittedRows,
    indices: &Vec<usize>,
    ff: usize,
    log: usize,
    Ghost(fl): Ghost<Flat>,
) -> (r: Vec<LeafOpening>)
    requires
        ff <= log <= 26,
        fl.ff == ff,
        uniform(committed_matrices(*tree), pow2((log - ff) as nat)),
        forall|i: int| 0 <= i < indices@.len() ==> (#[trigger] indices@[i]) < pow2(log as nat),
    ensures
        ({
            let idx = fl.leaf_indices(index_vals(indices@));
            let trees = seq![committed_matrices(*tree)];
            &&& leaves_val(r@) == opened_leaves(trees, idx)
            &&& leaves_accepted(trees, pow2((log - ff) as nat), idx, leaves_val(r@))
            &&& r@.len() == indices@.len()
            &&& forall|q: int|
                0 <= q < r@.len() ==> {
                    &&& (#[trigger] r@[q]).values@.len() > 0
                    &&& r@[q].values@[0]@.len() == committed_matrices(*tree)[0].1
                }
        }),
{
    let at = leaves_of(indices, ff, log);
    proof {
        lemma2_to64();
        pow2_le((log - ff) as nat, 26);
    }
    let height: usize = pow2_usize(log - ff);
    let mut one: Vec<&CommittedRows> = Vec::new();
    one.push(tree);
    let ghost idx = fl.leaf_indices(index_vals(indices@));
    let n: usize = at.len();
    proof {
        assert(tree_vals(one@) =~= seq![committed_matrices(*tree)]);
        assert(Seq::new(at@.len(), |q: int| at@[q] as int) =~= idx);
    }
    let leaves = open_trees(&one, height, &at);
    proof {
        let t = committed_matrices(*tree);
        assert forall|q: int| 0 <= q < leaves@.len() implies {
            &&& (#[trigger] leaves@[q]).values@.len() > 0
            &&& leaves@[q].values@[0]@.len() == t[0].1
        } by {
            let v = leaf_val(leaves@[q]);
            assert(leaves_val(leaves@)[q] == v);
            assert(leaves@.len() == idx.len());
            assert(q % 1 == 0 && q / 1 == q);
            assert(v == opened_leaf(t, idx[q]));
            assert(idx[q] == at@[q] as int);
            row_len(t[0], idx[q], height as nat);
            assert(v.rows.len() == leaves@[q].values@.len());
            assert(v.rows[0] == fvals(leaves@[q].values@[0]@));
            assert(fvals(leaves@[q].values@[0]@).len() == leaves@[q].values@[0]@.len());
        }
    }
    leaves
}

/// What one round gives.
struct FlatOut {
    root: Digest,
    tree: CommittedRows,
    answers: Vec<Ext>,
    query_pow: ProofOfWork,
    leaves: Vec<LeafOpening>,
}

spec fn out_data(o: FlatOut, msgs: Seq<Seq<E4>>, pows: Seq<int>) -> RoundData {
    RoundData {
        msgs,
        pows,
        root: fvals(o.root@),
        answers: evals(o.answers@),
        query_pow: o.query_pow.0@,
        leaves: leaves_val(o.leaves@),
    }
}

/// Finishes round `r` after its folds.
fn flat_queries(
    config: &WhirConfig,
    r: usize,
    left: usize,
    log: usize,
    ff: usize,
    tree: &CommittedRows,
    folder: &mut WhirFolder,
    all: &Vec<Ext>,
    challenger: &mut Transcript,
    Ghost(fl): Ghost<Flat>,
    Ghost(prev): Ghost<Seq<E4>>,
    Ghost(ps): Ghost<PState>,
    Ghost(msgs): Ghost<Seq<Seq<E4>>>,
    Ghost(pows): Ghost<Seq<int>>,
) -> (res: Option<FlatOut>)
    requires
        fl.fits(),
        fl.ff == ff,
        fl.pr.rounds == config.round_parameters@,
        r + 1 < fl.pr.m(),
        left == fl.pr.left(r + 1),
        log == fl.log(r as int),
        committed_matrices(*tree) == fl.tree(prev, r as int),
        uniform(committed_matrices(*tree), pow2((log - ff) as nat)),
        old(challenger).wf(),
        old(folder).wf(),
        old(folder).vars() == left,
        all@.len() >= fl.pr.fold(r as int),
        ps.folder == old(folder)@,
        ps.sponge == old(challenger)@,
        ps.challenges == evals(all@),
    ensures
        final(challenger).wf(),
        match res {
            Some(o) => {
                let d = out_data(o, msgs, pows);
                let e = fl.queried(ps, d, r as int);
                &&& fl.honest_queries(prev, ps, d, r as int)
                &&& final(folder)@ == e.folder
                &&& final(folder).wf()
                &&& final(folder).vars() == left
                &&& final(challenger)@ == e.sponge
                &&& committed_matrices(o.tree) == fl.tree(final(folder)@.f, r + 1)
                &&& uniform(committed_matrices(o.tree), pow2((fl.log(r + 1) - ff) as nat))
            },
            None => exists|d: RoundData|
                {
                    &&& d.msgs == msgs
                    &&& d.pows == pows
                    &&& no_grind(
                        #[trigger] fl.pr.pow_sponge(ps.sponge, d, r as int),
                        fl.pr.rounds[r as int].queries_pow_bits as nat,
                    )
                },
        },
{
    let ghost pr = fl.pr;
    proof {
        prover_overall(pr);
        prover_round(pr, r as int);
        prover_round(pr, r + 1);
        assert(ff <= fl.log(r as int));
        assert(ff <= fl.log(r + 1));
        assert(pr.fold(r as int) == ff);
    }
    let cfg = &config.round_parameters[r];
    let nq: usize = cfg.num_queries;
    let ghost gf = folder@.f;
    let (root, next) = commit_ext(&folder.f_vec, ff, cfg.log_inv_rate, left);
    let root_felts = digest_felts(&root);
    challenger.observe_slice(&root_felts);
    let (ood_points, answers) = answer_ood(
        folder.f_vec.as_slice(),
        left,
        cfg.ood_samples,
        challenger,
    );
    let ghost partial = RoundData {
        msgs,
        pows,
        root: fvals(root@),
        answers: evals(answers@),
        query_pow: 0,
        leaves: Seq::empty(),
    };
    proof {
        assert(evals(answers@).len() == answers@.len());
        assert(challenger@ == pr.pow_sponge(ps.sponge, partial, r as int));
    }
    let query_pow = match challenger.grind(cfg.queries_pow_bits) {
        None => {
            proof {
                assert(no_grind(
                    pr.pow_sponge(ps.sponge, partial, r as int),
                    pr.rounds[r as int].queries_pow_bits as nat,
                ));
            }
            return None;
        },
        Some(w) => w,
    };
    let indices = challenger.sample_indices(log, nq);
    proof {
        crate::felt::felt_canonical(query_pow);
    }
    let leaves = open_flat(tree, &indices, ff, log, Ghost(fl));
    let ghost d = RoundData {
        msgs,
        pows,
        root: fvals(root@),
        answers: evals(answers@),
        query_pow: query_pow@,
        leaves: leaves_val(leaves@),
    };
    proof {
        assert(pr.pow_sponge(ps.sponge, d, r as int) == pr.pow_sponge(
            ps.sponge,
            partial,
            r as int,
        ));
        assert(index_vals(indices@) =~= pr.index_sponge(ps.sponge, d, r as int).drawn_indices(
            log as nat,
            nq as nat,
        ));
        assert(fl.opened(ps.sponge, d, r as int) == fl.leaf_indices(index_vals(indices@)));
    }
    let n: usize = all.len();
    let own = vstd::slice::slice_subrange(all.as_slice(), n - ff, n);
    proof {
        assert(evals(own@) =~= pr.own_challenges(ps, r as int));
        assert(evals(own@).len() == own@.len());
    }
    let ghost want = fl.stir_values(ps, d, r as int);
    let mut stir_values: Vec<Ext> = Vec::new();
    let mut q: usize = 0;
    while q < nq
        invariant
            q <= nq,
            nq == leaves@.len(),
            want == fl.stir_values(ps, d, r as int),
            nq == fl.pr.rounds[r as int].num_queries,
            d.leaves == leaves_val(leaves@),
            own@.len() == ff,
            evals(own@) == fl.pr.own_challenges(ps, r as int),
            forall|q: int|
                0 <= q < leaves@.len() ==> {
                    &&& (#[trigger] leaves@[q]).values@.len() > 0
                    &&& leaves@[q].values@[0]@.len() == (if r == 0 {
                        pow2(ff as nat)
                    } else {
                        4 * pow2(ff as nat)
                    })
                },
            stir_values@.len() == q,
            forall|j: int| 0 <= j < q ==> (#[trigger] stir_values@[j])@ == want[j],
        decreases nq - q,
    {
        proof {
            assert(leaves@[q as int].values@.len() > 0);
        }
        let v = coset_stir_value(&leaves[q].values[0], r == 0, own);
        proof {
            assert(d.leaves[q as int].rows[0] == fvals(leaves@[q as int].values@[0]@));
        }
        stir_values.push(v);
        q = q + 1;
    }
    proof {
        assert(evals(stir_values@) =~= want);
    }
    let batch = challenger.sample_algebra_element();
    folder.add_ood_constraints(&ood_points, &answers, batch);
    let (_coeffs, _next) = folder.monomial_coeffs(&stir_values, batch, batch);
    let out = FlatOut { root, tree: next, answers, query_pow: ProofOfWork(query_pow), leaves };
    proof {
        assert(out_data(out, msgs, pows) == d);
        assert(fl.honest_queries(prev, ps, d, r as int));
        let e = fl.queried(ps, d, r as int);
        assert(folder@.claim == e.folder.claim);
        assert(folder@.w == e.folder.w);
    }
    Some(out)
}

impl WhirProver {
    /// The schedule over the values of a polynomial of `n` variables.
    pub open spec fn flat(&self, f: Seq<int>, n: nat) -> Flat {
        Flat {
            pr: Prover {
                n,
                rounds: self.config.round_parameters@,
                start_rate: self.config.starting_log_inv_rate as nat,
                final_queries: self.config.final_queries as nat,
                final_pow_bits: self.config.final_pow_bits as nat,
                start: SourceVal::Single(Seq::empty(), true),
                trees: Seq::empty(),
            },
            ff: self.config.round_parameters@[0].folding_factor as nat,
            values: f,
        }
    }

    /// The prover's state before the rounds.
    pub open spec fn flat_start(
        &self,
        s: Sponge,
        f: Seq<int>,
        n: nat,
        point: Seq<E4>,
        eval: E4,
    ) -> PState {
        let fl = self.flat(f, n);
        prover_start(
            s.observe_all(merkle_root(fl.tree(lift(f), 0))),
            lift(f),
            n,
            self.config.starting_ood_samples as nat,
            point,
            eval,
        )
    }
}

/// One more honest round.
proof fn extend(fl: Flat, start: PState, before: Seq<RoundData>, d: RoundData, r: int)
    requires
        before.len() == r,
        0 <= r,
        fl.honest_rounds(start, before, r),
        ({
            let ps = fl.run(start, before, r);
            &&& fl.pr.honest_folds(ps, d, r)
            &&& fl.honest_queries(ps.folder.f, fl.pr.folded(ps, d, r), d, r)
        }),
    ensures
        ({
            let data = before.push(d);
            let ps = fl.run(start, before, r);
            &&& fl.honest_rounds(start, data, r + 1)
            &&& fl.run(start, data, r + 1) == fl.queried(fl.pr.folded(ps, d, r), d, r)
            &&& flat_pows(data, r + 1) == (flat_pows(before, r) + d.pows).push(d.query_pow)
        }),
{
    let data = before.push(d);
    run_ext(fl, start, before, data, r);
    honest_ext(fl, start, before, data, r);
    assert(fl.honest_round(start, data, r));
    flat_pows_ext(before, data, r);
}

/// A stop for want of a proof of work in round `r`.
proof fn stuck_here(fl: Flat, start: PState, before: Seq<RoundData>, d: RoundData, r: int)
    requires
        before.len() == r,
        0 <= r < fl.pr.m(),
        fl.honest_rounds(start, before, r),
        ({
            let at = fl.run(start, before, r);
            ||| fold_stuck(fl.pr.fold_start(at), fl.pr.rounds[r].pow_bits@, fl.pr.fold(r))
            ||| {
                &&& r < fl.pr.m() - 1
                &&& fl.pr.honest_folds(at, d, r)
                &&& no_grind(
                    fl.pr.pow_sponge(fl.pr.folded(at, d, r).sponge, d, r),
                    fl.pr.rounds[r].queries_pow_bits as nat,
                )
            }
            ||| {
                &&& r == fl.pr.m() - 1
                &&& fl.pr.honest_folds(at, d, r)
                &&& no_grind(fl.pr.folded(at, d, r).sponge, fl.pr.final_pow_bits)
            }
        }),
    ensures
        fl.stuck(start),
{
    let data = before.push(d);
    run_ext(fl, start, before, data, r);
    honest_ext(fl, start, before, data, r);
    assert(fl.stuck_after(start, data));
}

spec fn no_data() -> RoundData {
    RoundData {
        msgs: Seq::empty(),
        pows: Seq::empty(),
        root: Seq::empty(),
        answers: Seq::empty(),
        query_pow: 0,
        leaves: Seq::empty(),
    }
}

impl WhirProver {
    /// Proves that the polynomial has the value `eval` at `point`, with `2^ff` consecutive
    /// positions of a codeword in a leaf, where `ff` is the number of variables that the
    /// first round folds. `None` where some proof of work does not exist.
    #[verifier::rlimit(60)]
    #[verifier::spinoff_prover]
    pub fn prove(
        &self,
        challenger: &mut Transcript,
        values: &Vec<Felt>,
        point: &Vec<Ext>,
        eval: Ext,
    ) -> (res: Option<WhirProof>)
        requires
            old(challenger).wf(),
            values@.len() == pow2(point@.len()),
            self.config.round_parameters@.len() > 0,
            self.flat(fvals(values@), point@.len()).fits(),
        ensures
            final(challenger).wf(),
            ({
                let f = fvals(values@);
                let n = point@.len();
                let fl = self.flat(f, n);
                let start = self.flat_start(old(challenger)@, f, n, evals(point@), eval@);
                match res {
                    Some(p) => fl.honest_proof(start, p@, final(challenger)@),
                    None => fl.stuck(start),
                }
            }),
    {
        let n: usize = point.len();
        let config = &self.config;
        let m: usize = config.round_parameters.len();
        let ff: usize = config.round_parameters[0].folding_factor;
        let ghost gv = fvals(values@);
        let ghost fl = self.flat(gv, n as nat);
        let ghost pr = fl.pr;
        proof {
            prover_overall(pr);
            prover_round(pr, 0);
            assert(pr.left(0) == n);
            assert(ff <= fl.log(0));
            assert(fl.log(0) == n + config.starting_log_inv_rate);
        }
        let (root0, tree0) = commit_base(values, ff, config.starting_log_inv_rate, n);
        let felts = digest_felts(&root0);
        challenger.observe_slice(&felts);
        let ghost s1 = challenger@;
        let lifted = lift_felts(values.as_slice());
        proof {
            assert(lifted@.len() == evals(lifted@).len());
            assert(fvals(values@).len() == values@.len());
            assert(lift(gv).len() == gv.len());
        }
        let (points, answers) = answer_ood(
            lifted.as_slice(),
            n,
            config.starting_ood_samples,
            challenger,
        );
        proof {
            let ans = evals(answers@);
            honest_answers_unique(s1, lift(gv), ans, n as nat, ans.len());
            assert(ans.take(ans.len() as int) =~= ans);
        }
        let folder = seat_folder(values, point, eval, &points, &answers, challenger);
        let ghost start = self.flat_start(old(challenger)@, gv, n as nat, evals(point@), eval@);
        let no_trees: Vec<&CommittedRows> = Vec::new();
        let mut backend = HostBackend { folder, trees: &no_trees, queue: Vec::new() };
        let mut all: Vec<Ext> = Vec::new();
        let mut left: usize = n;
        let mut rate: usize = config.starting_log_inv_rate;
        let mut tree = tree0;
        let mut round_sumcheck_polys: Vec<Vec<SumcheckPoly>> = Vec::new();
        let mut round_ood_answers: Vec<Vec<Ext>> = Vec::new();
        let mut round_commitments: Vec<Digest> = Vec::new();
        let mut round_query_openings: Vec<MerkleOpening> = Vec::new();
        let mut folding_pow: Vec<ProofOfWork> = Vec::new();
        let mut r: usize = 0;
        let ghost mut data: Seq<RoundData> = Seq::empty();
        proof {
            assert(evals(all@) =~= Seq::<E4>::empty());
            assert(pows_val(folding_pow@) =~= Seq::<int>::empty());
            assert(fl.run(start, data, 0) == start);
        }
        while r + 1 < m
            invariant
                m == pr.m(),
                r < m,
                fl.fits(),
                fl.ff == ff,
                fl.pr == pr,
                pr.n == n,
                pr.rounds == config.round_parameters@,
                pr.start_rate == config.starting_log_inv_rate,
                config == self.config,
                fl == self.flat(fvals(values@), point@.len()),
                start == self.flat_start(
                    old(challenger)@,
                    fvals(values@),
                    point@.len(),
                    evals(point@),
                    eval@,
                ),
                challenger.wf(),
                data.len() == r,
                left == pr.left(r as int),
                rate == rate_of(pr.rounds, pr.start_rate, r as int),
                all@.len() == n - left,
                backend.inv(),
                backend.vars() == left,
                fl.honest_rounds(start, data, r as int),
                backend.val() == fl.run(start, data, r as int).folder,
                challenger@ == fl.run(start, data, r as int).sponge,
                evals(all@) == fl.run(start, data, r as int).challenges,
                committed_matrices(tree) == fl.tree(backend.val().f, r as int),
                uniform(committed_matrices(tree), pow2((fl.log(r as int) - ff) as nat)),
                round_sumcheck_polys@.len() == r,
                round_ood_answers@.len() == r,
                round_commitments@.len() == r,
                round_query_openings@.len() == r,
                forall|i: int| 0 <= i < r ==> polys_val(round_sumcheck_polys@[i]@) == (
                #[trigger] data[i]).msgs,
                forall|i: int| 0 <= i < r ==> evals(round_ood_answers@[i]@) == (
                #[trigger] data[i]).answers,
                forall|i: int| 0 <= i < r ==> fvals(round_commitments@[i]@) == (
                #[trigger] data[i]).root,
                forall|i: int| 0 <= i < r ==> leaves_val(round_query_openings@[i].leaves@) == (
                #[trigger] data[i]).leaves,
                pows_val(folding_pow@) == flat_pows(data, r as int),
            decreases m - r,
        {
            proof {
                prover_round(pr, r as int);
                assert(ff <= fl.log(r as int));
                assert(pr.fold(r as int) == ff);
            }
            let ghost ps = fl.run(start, data, r as int);
            let (polys, pows) = match prove_folds(
                config,
                r,
                &mut backend,
                &mut all,
                challenger,
                Ghost(pr),
                Ghost(ps),
            ) {
                None => {
                    proof {
                        stuck_here(fl, start, data, no_data(), r as int);
                    }
                    return None;
                },
                Some(t) => t,
            };
            let log: usize = left + rate;
            left = left - ff;
            let ghost gpolys = polys_val(polys@);
            let ghost gpows = pows_val(pows@);
            let ghost partial = RoundData { msgs: gpolys, pows: gpows, ..no_data() };
            let ghost ps1 = pr.folded(ps, partial, r as int);
            let out = match flat_queries(
                config,
                r,
                left,
                log,
                ff,
                &tree,
                &mut backend.folder,
                &all,
                challenger,
                Ghost(fl),
                Ghost(ps.folder.f),
                Ghost(ps1),
                Ghost(gpolys),
                Ghost(gpows),
            ) {
                None => {
                    proof {
                        let d = choose|d: RoundData|
                            {
                                &&& d.msgs == gpolys
                                &&& d.pows == gpows
                                &&& no_grind(
                                    #[trigger] pr.pow_sponge(ps1.sponge, d, r as int),
                                    pr.rounds[r as int].queries_pow_bits as nat,
                                )
                            };
                        assert(pr.folded(ps, d, r as int) == ps1);
                        stuck_here(fl, start, data, d, r as int);
                    }
                    return None;
                },
                Some(o) => o,
            };
            let ghost d = out_data(out, gpolys, gpows);
            let ghost before = data;
            proof {
                assert(pr.folded(ps, d, r as int) == ps1);
                extend(fl, start, before, d, r as int);
                data = before.push(d);
            }
            append_pows(&mut folding_pow, &pows);
            let ghost was = folding_pow@;
            folding_pow.push(out.query_pow);
            proof {
                assert(pows_val(folding_pow@) =~= pows_val(was).push(d.query_pow));
            }
            round_sumcheck_polys.push(polys);
            round_ood_answers.push(out.answers);
            round_commitments.push(out.root);
            round_query_openings.push(MerkleOpening { leaves: out.leaves });
            tree = out.tree;
            rate = config.round_parameters[r].log_inv_rate;
            r = r + 1;
        }
        proof {
            prover_round(pr, r as int);
            assert(ff <= fl.log(r as int));
        }
        let ghost ps = fl.run(start, data, r as int);
        let ghost opened = fl.tree(ps.folder.f, r as int);
        let (polys, pows) = match prove_folds(
            config,
            r,
            &mut backend,
            &mut all,
            challenger,
            Ghost(pr),
            Ghost(ps),
        ) {
            None => {
                proof {
                    stuck_here(fl, start, data, no_data(), r as int);
                }
                return None;
            },
            Some(t) => t,
        };
        let log: usize = left + rate;
        let ghost last = RoundData {
            msgs: polys_val(polys@),
            pows: pows_val(pows@),
            ..no_data()
        };
        let ghost pend = pr.folded(ps, last, r as int);
        let final_pow = match challenger.grind(config.final_pow_bits) {
            None => {
                proof {
                    stuck_here(fl, start, data, last, r as int);
                }
                return None;
            },
            Some(w) => w,
        };
        let indices = challenger.sample_indices(log, config.final_queries);
        proof {
            crate::felt::felt_canonical(final_pow);
            assert(index_vals(indices@) =~= pend.sponge.after_pow(
                pr.final_pow_bits,
                final_pow@,
            ).drawn_indices(log as nat, pr.final_queries));
        }
        let final_leaves = open_flat(&tree, &indices, ff, log, Ghost(fl));
        let ghost gleaves = leaves_val(final_leaves@);
        round_query_openings.push(MerkleOpening { leaves: final_leaves });
        append_pows(&mut folding_pow, &pows);
        let p = WhirProof {
            round_sumcheck_polys,
            round_ood_answers,
            round_commitments,
            round_query_openings,
            final_poly: backend.into_poly(),
            final_sumcheck_polys: polys,
            folding_pow,
            final_pow: ProofOfWork(final_pow),
        };
        proof {
            let v = p@;
            let full = data.push(last);
            run_ext(fl, start, data, full, r as int);
            honest_ext(fl, start, data, full, r as int);
            flat_pows_ext(data, full, r as int);
            assert(fl.end(start, full) == pend);
            assert(v.pows == flat_pows(full, r as int) + last.pows);
            assert(v.polys =~= Seq::new((m - 1) as nat, |i: int| full[i].msgs)) by {
                assert forall|i: int| 0 <= i < m - 1 implies v.polys[i] == full[i].msgs by {
                    assert(full[i] == data[i]);
                }
            }
            assert(v.roots =~= Seq::new((m - 1) as nat, |i: int| full[i].root)) by {
                assert forall|i: int| 0 <= i < m - 1 implies v.roots[i] == full[i].root by {
                    assert(full[i] == data[i]);
                }
            }
            assert(v.ood_answers =~= Seq::new((m - 1) as nat, |i: int| full[i].answers)) by {
                assert forall|i: int| 0 <= i < m - 1 implies v.ood_answers[i]
                    == full[i].answers by {
                    assert(full[i] == data[i]);
                }
            }
            assert forall|i: int| 0 <= i < m - 1 implies v.openings[i] == (
            #[trigger] full[i]).leaves by {
                assert(full[i] == data[i]);
                assert(v.openings[i] == leaves_val(p.round_query_openings@[i].leaves@));
            }
            assert(v.openings.last() == gleaves);
            assert(fl.carries(v, full));
            assert(fl.honest(start, full, v));
            assert(challenger@ == pend.sponge.after_pow(
                pr.final_pow_bits,
                final_pow@,
            ).after_draws(pr.final_queries));
            assert(v.final_pow == final_pow@);
            assert(fl.honest_proof(start, v, challenger@));
        }
        Some(p)
    }
}

} // verus!
