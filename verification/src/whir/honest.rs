//! What an honest prover sends.
//!
//! The prover's rounds mirror the verifier's: fold the round's variables, commit to
//! the folded polynomial's codeword, answer out-of-domain samples, open the previous
//! codeword at drawn indices, and batch the new constraints into weight and claim.
use vstd::prelude::*;
use vstd::arithmetic::power2::pow2;
use crate::dft::domain_point;
use crate::ext::{e_pow, E4};
use crate::merkle::{matrix_row, merkle_accepts, merkle_path, merkle_root, widths_of};
use crate::mle::{mle_eval, pow_point};
use crate::transcript::Sponge;
use crate::whir::config::{folded_vars, RoundConfig};
use crate::whir::encode::ext_matrix;
use crate::whir::messages::{LeafVal, ProofVal};
use crate::whir::queries::{query_row, SourceVal};
use crate::whir::replay::{ood_points_of, ood_sponge};
use crate::whir::rounds::{left_of, rate_of};
use crate::whir::sumcheck::{absorbed, batch_coeffs, batched_claim, eq_tables, fold_pows_found,
    fold_run, fold_stuck, is_grind, mono_tables, no_grind, FoldRun, FolderVal};

verus! {

/// The matrices of one tree.
pub type TreeVal = Seq<(Seq<int>, nat)>;

/// What the prover sends in one round.
pub struct RoundData {
    pub msgs: Seq<Seq<E4>>,
    pub pows: Seq<int>,
    pub root: Seq<int>,
    pub answers: Seq<E4>,
    pub query_pow: int,
    pub leaves: Seq<LeafVal>,
}

/// The prover's state between rounds.
pub struct PState {
    pub folder: FolderVal,
    pub sponge: Sponge,
    pub challenges: Seq<E4>,
}

/// The leaf opened at one index of a tree.
pub open spec fn opened_leaf(tree: TreeVal, index: int) -> LeafVal {
    LeafVal {
        rows: Seq::new(tree.len(), |k: int| matrix_row(tree[k], index)),
        path: merkle_path(tree, index as nat),
    }
}

/// The leaves opened at several indices of several trees, index by index.
pub open spec fn opened_leaves(trees: Seq<TreeVal>, indices: Seq<int>) -> Seq<LeafVal> {
    Seq::new(
        indices.len() * trees.len(),
        |t: int| opened_leaf(trees[t % trees.len() as int], indices[t / trees.len() as int]),
    )
}

/// Whether every leaf of `opened_leaves` authenticates against the root of its tree.
pub open spec fn leaves_accepted(
    trees: Seq<TreeVal>,
    height: nat,
    indices: Seq<int>,
    leaves: Seq<LeafVal>,
) -> bool {
    forall|t: int|
        0 <= t < leaves.len() ==> {
            let tree = trees[t % trees.len() as int];
            merkle_accepts(
                merkle_root(tree),
                widths_of(tree),
                height,
                indices[t / trees.len() as int] as nat,
                (#[trigger] leaves[t]).rows,
                leaves[t].path,
            )
        }
}

/// A prover's schedule over `n` variables, its starting codeword, and the trees that
/// hold it.
pub struct Prover {
    pub n: nat,
    pub rounds: Seq<RoundConfig>,
    pub start_rate: nat,
    pub final_queries: nat,
    pub final_pow_bits: nat,
    pub start: SourceVal,
    pub trees: Seq<TreeVal>,
}

impl Prover {
    /// The number of rounds.
    pub open spec fn m(self) -> nat {
        self.rounds.len()
    }

    /// The number of variables folded in round `r`.
    pub open spec fn fold(self, r: int) -> nat {
        self.rounds[r].folding_factor as nat
    }

    /// The number of variables left after `r` rounds.
    pub open spec fn left(self, r: int) -> nat {
        left_of(self.n, self.rounds, r)
    }

    /// The logarithm of the height of the codeword that round `r` opens.
    pub open spec fn codeword_log(self, r: int) -> nat {
        self.left(r + 1) + rate_of(self.rounds, self.start_rate, r)
    }

    /// The codeword that round `r` opens.
    pub open spec fn source(self, data: Seq<RoundData>, r: int) -> SourceVal {
        if r == 0 {
            self.start
        } else {
            SourceVal::Single(data[r - 1].root, false)
        }
    }

    /// The trees that round `r` opens: the starting ones, or the codeword of the
    /// polynomial folded in round `r - 1`.
    pub open spec fn open_trees(self, ps: Seq<E4>, r: int) -> Seq<TreeVal> {
        if r == 0 {
            self.trees
        } else {
            seq![seq![ext_matrix(ps, self.fold(r), self.codeword_log(r))]]
        }
    }

    /// The run of folding rounds of round `r`.
    pub open spec fn fold_start(self, ps: PState) -> FoldRun {
        FoldRun { folder: ps.folder, sponge: ps.sponge, challenges: ps.challenges }
    }

    /// The state after the folds of round `r`.
    pub open spec fn folded(self, ps: PState, d: RoundData, r: int) -> PState {
        let e = fold_run(self.fold_start(ps), self.rounds[r].pow_bits@, d.pows, self.fold(r));
        PState { folder: e.folder, sponge: e.sponge, challenges: e.challenges }
    }

    /// Whether the messages and proofs of work of round `r` are honest.
    pub open spec fn honest_folds(self, ps: PState, d: RoundData, r: int) -> bool {
        let start = self.fold_start(ps);
        let bits = self.rounds[r].pow_bits@;
        &&& d.msgs.len() == self.fold(r)
        &&& d.pows.len() == self.fold(r)
        &&& fold_pows_found(start, bits, d.pows, self.fold(r))
        &&& forall|i: int|
            0 <= i < self.fold(r) ==> #[trigger] d.msgs[i] == fold_run(
                start,
                bits,
                d.pows,
                i as nat,
            ).folder.message()
    }

    /// The transcript after the root and the out-of-domain answers of round `r`.
    pub open spec fn pow_sponge(self, s: Sponge, d: RoundData, r: int) -> Sponge {
        ood_sponge(s.observe_all(d.root), d.answers, self.left(r + 1), d.answers.len())
    }

    /// The out-of-domain points of round `r`.
    pub open spec fn ood_points(self, s: Sponge, d: RoundData, r: int) -> Seq<Seq<E4>> {
        ood_points_of(s.observe_all(d.root), d.answers, self.left(r + 1))
    }

    /// The transcript from which the query indices of round `r` are drawn.
    pub open spec fn index_sponge(self, s: Sponge, d: RoundData, r: int) -> Sponge {
        self.pow_sponge(s, d, r).after_pow(self.rounds[r].queries_pow_bits as nat, d.query_pow)
    }

    /// The query indices of round `r`.
    pub open spec fn indices(self, s: Sponge, d: RoundData, r: int) -> Seq<int> {
        self.index_sponge(s, d, r).drawn_indices(
            self.codeword_log(r),
            self.rounds[r].num_queries as nat,
        )
    }

    /// Whether root, answers, proof of work and openings of round `r` are honest,
    /// where `ps` is the state after its folds, and `prev` the polynomial before them.
    pub open spec fn honest_queries(
        self,
        prev: Seq<E4>,
        ps: PState,
        d: RoundData,
        r: int,
    ) -> bool {
        let f = ps.folder.f;
        &&& d.root == merkle_root(self.open_trees(f, r + 1)[0])
        &&& d.answers.len() == self.rounds[r].ood_samples
        &&& forall|i: int|
            0 <= i < d.answers.len() ==> #[trigger] d.answers[i] == mle_eval(
                f,
                self.ood_points(ps.sponge, d, r)[i],
            )
        &&& is_grind(
            self.pow_sponge(ps.sponge, d, r),
            self.rounds[r].queries_pow_bits as nat,
            d.query_pow,
        )
        &&& d.leaves == opened_leaves(
            self.open_trees(prev, r),
            self.indices(ps.sponge, d, r),
        )
        &&& leaves_accepted(
            self.open_trees(prev, r),
            pow2(self.codeword_log(r)),
            self.indices(ps.sponge, d, r),
            d.leaves,
        )
    }

    /// The challenges of round `r`, where `ps` is the state after its folds.
    pub open spec fn own_challenges(self, ps: PState, r: int) -> Seq<E4> {
        ps.challenges.skip(ps.challenges.len() - self.fold(r))
    }

    /// The values that the opened rows of round `r` fold to.
    pub open spec fn stir_values(
        self,
        data: Seq<RoundData>,
        ps: PState,
        d: RoundData,
        r: int,
    ) -> Seq<E4> {
        Seq::new(
            self.rounds[r].num_queries as nat,
            |q: int|
                mle_eval(
                    query_row(self.source(data, r), self.fold(r), d.leaves, q as nat),
                    self.own_challenges(ps, r),
                ),
        )
    }

    /// The points at which the opened rows of round `r` are monomial evaluations.
    pub open spec fn stir_points(self, ps: PState, d: RoundData, r: int) -> Seq<Seq<E4>> {
        Seq::new(
            self.rounds[r].num_queries as nat,
            |q: int|
                pow_point(
                    domain_point(
                        self.codeword_log(r),
                        self.indices(ps.sponge, d, r)[q] as nat,
                    ),
                    self.left(r + 1),
                ),
        )
    }

    /// The transcript from which the batching challenge of round `r` is drawn.
    pub open spec fn batch_sponge(self, ps: PState, d: RoundData, r: int) -> Sponge {
        self.index_sponge(ps.sponge, d, r).after_draws(self.rounds[r].num_queries as nat)
    }

    /// The state after the queries of round `r`.
    pub open spec fn queried(
        self,
        data: Seq<RoundData>,
        ps: PState,
        d: RoundData,
        r: int,
    ) -> PState {
        let batch = self.batch_sponge(ps, d, r).drawn_ext();
        let a = d.answers.len();
        let q = self.rounds[r].num_queries as nat;
        let c1 = batch_coeffs(batch, batch, a);
        let c2 = batch_coeffs(e_pow(batch, a + 1), batch, q);
        PState {
            folder: FolderVal {
                f: ps.folder.f,
                w: absorbed(
                    absorbed(
                        ps.folder.w,
                        eq_tables(self.ood_points(ps.sponge, d, r)),
                        c1,
                        a as int,
                    ),
                    mono_tables(self.stir_points(ps, d, r)),
                    c2,
                    q as int,
                ),
                claim: batched_claim(
                    batched_claim(ps.folder.claim, d.answers, c1, a as int),
                    self.stir_values(data, ps, d, r),
                    c2,
                    q as int,
                ),
            },
            sponge: self.batch_sponge(ps, d, r).after_draw_ext(),
            challenges: ps.challenges,
        }
    }

    /// The state after `r` whole rounds.
    pub open spec fn run(self, start: PState, data: Seq<RoundData>, r: int) -> PState
        decreases r,
    {
        if r <= 0 {
            start
        } else {
            let d = data[r - 1];
            let at = self.run(start, data, r - 1);
            self.queried(data, self.folded(at, d, r - 1), d, r - 1)
        }
    }

    /// Whether round `r` is honest.
    pub open spec fn honest_round(self, start: PState, data: Seq<RoundData>, r: int) -> bool {
        let at = self.run(start, data, r);
        &&& self.honest_folds(at, data[r], r)
        &&& self.honest_queries(at.folder.f, self.folded(at, data[r], r), data[r], r)
    }

    /// Whether the first `r` whole rounds are honest.
    pub open spec fn honest_rounds(self, start: PState, data: Seq<RoundData>, r: int) -> bool {
        forall|i: int| 0 <= i < r ==> #[trigger] self.honest_round(start, data, i)
    }

    /// The state after the folds of the last round.
    pub open spec fn end(self, start: PState, data: Seq<RoundData>) -> PState {
        let r = self.m() - 1;
        self.folded(self.run(start, data, r), data[r], r)
    }

    /// What a proof says of round `r`.
    pub open spec fn data_of(self, p: ProofVal, r: int) -> RoundData {
        let base = (folded_vars(self.rounds, r) + r) as int;
        RoundData {
            msgs: if r + 1 == self.m() {
                p.final_polys
            } else {
                p.polys[r]
            },
            pows: p.pows.subrange(base, base + self.fold(r)),
            root: p.roots[r],
            answers: p.ood_answers[r],
            query_pow: p.pows[base + self.fold(r)],
            leaves: p.openings[r],
        }
    }

    /// What a proof says of every round.
    pub open spec fn all_data(self, p: ProofVal) -> Seq<RoundData> {
        Seq::new(self.m(), |r: int| self.data_of(p, r))
    }

    /// The final query indices.
    pub open spec fn final_indices(self, end: PState, final_pow: int) -> Seq<int> {
        end.sponge.after_pow(self.final_pow_bits, final_pow).drawn_indices(
            self.codeword_log(self.m() - 1),
            self.final_queries,
        )
    }

    /// Whether the leaves that the final queries open are honest.
    pub open spec fn honest_end(
        self,
        prev: Seq<E4>,
        end: PState,
        final_pow: int,
        leaves: Seq<LeafVal>,
    ) -> bool {
        let r = self.m() - 1;
        let trees = self.open_trees(prev, r);
        &&& is_grind(end.sponge, self.final_pow_bits, final_pow)
        &&& leaves == opened_leaves(trees, self.final_indices(end, final_pow))
        &&& leaves_accepted(
            trees,
            pow2(self.codeword_log(r)),
            self.final_indices(end, final_pow),
            leaves,
        )
    }

    /// Whether a proof is what an honest prover sends from a starting state.
    pub open spec fn honest(self, start: PState, p: ProofVal) -> bool {
        let data = self.all_data(p);
        let m = self.m();
        let r = m - 1;
        &&& p.polys.len() == m - 1
        &&& p.roots.len() == m - 1
        &&& p.ood_answers.len() == m - 1
        &&& p.openings.len() == m
        &&& p.pows.len() == folded_vars(self.rounds, m as int) + m - 1
        &&& self.honest_rounds(start, data, r)
        &&& self.honest_folds(self.run(start, data, r), data[r], r)
        &&& p.final_poly == self.end(start, data).folder.f
        &&& self.honest_end(
            self.run(start, data, r).folder.f,
            self.end(start, data),
            p.final_pow,
            p.openings.last(),
        )
    }

    /// Whether an honest prover stops for want of a proof of work.
    pub open spec fn stuck(self, start: PState) -> bool {
        exists|data: Seq<RoundData>| #[trigger] self.stuck_after(start, data)
    }

    /// Whether an honest prover stops for want of a proof of work in the round of the
    /// last entry of `data`: in its folds, before its queries, or before the final
    /// queries.
    pub open spec fn stuck_after(self, start: PState, data: Seq<RoundData>) -> bool {
        let r = data.len() - 1;
        let at = self.run(start, data, r);
        let d = data[r];
        &&& 0 <= r < self.m()
        &&& self.honest_rounds(start, data, r)
        &&& {
            ||| fold_stuck(self.fold_start(at), self.rounds[r].pow_bits@, self.fold(r))
            ||| {
                &&& r < self.m() - 1
                &&& self.honest_folds(at, d, r)
                &&& no_grind(
                    self.pow_sponge(self.folded(at, d, r).sponge, d, r),
                    self.rounds[r].queries_pow_bits as nat,
                )
            }
            ||| {
                &&& r == self.m() - 1
                &&& self.honest_folds(at, d, r)
                &&& no_grind(self.end(start, data).sponge, self.final_pow_bits)
            }
        }
    }
}

} // verus!
