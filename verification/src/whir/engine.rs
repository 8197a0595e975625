//! A prover that leaves its large vectors and trees to an engine.
use vstd::prelude::*;
use vstd::arithmetic::power2::{lemma2_to64, lemma_pow2_unfold, pow2};
use crate::arith::{ceil_log2_is_least, ceil_log2_of, log2_of_pow2, pow2_le, pow2_usize};
use crate::ext::{epoints, evals, fvals, Ext, E4};
use crate::merkle::{committed_matrices, merkle_root, path_val, uniform, CommittedRows, Digest};
use crate::mle::{eq_tab, fold, mle_eval, round_c0, round_c2};
use crate::transcript::Transcript;
use crate::whir::backend::{commit_poly, index_vals, RoundBackend};
use crate::whir::config::{folded_vars, pow_bits_get, pow_feasible};
use crate::whir::encode::ext_matrix;
use crate::whir::honest::{leaves_accepted, opened_leaves, TreeVal};
use crate::whir::messages::{leaves_val, LeafOpening, ProofOfWork, SumcheckPoly};
use crate::whir::proving::{answer_ood, honest_answers, ood_ext, open_trees, prove_from,
    stripe_shaped, tree_vals, trees_shaped};
use crate::whir::replay::{ood_points_of, ood_sponge};
use crate::whir::completeness::{virtual_poly, virtual_poly_len};
use crate::whir::queries::{counts_val, Source};
use crate::whir::stacked::{batch_stripes, data_roots, data_stripes, data_trees, observe_stripes,
    stripe_counts, stripe_powers, stripe_values, stripes_val, StackedWhirProof, StackedWhirProver,
    StackedWhirProverData};
use crate::whir::sumcheck::{absorbed, absorbed_len, after_message, eq_tables, fold_messages,
    fold_pows_found, fold_run, fold_run_ext, fold_stuck, is_grind, lemma_extend_run, mono_tables,
    no_grind, out_pows, FoldRun, FolderVal, WhirFolder};

verus! {

/// The number of tables that are absorbed: as many as there are points and coefficients.
pub open spec fn absorb_count(points: nat, coeffs: nat) -> int {
    if points <= coeffs {
        points as int
    } else {
        coeffs as int
    }
}

/// Polynomial and weight.
pub struct Held {
    pub f: Seq<E4>,
    pub w: Seq<E4>,
}

/// Holds the stripes, their trees, and the vectors that the prover folds, and serves what
/// the prover would compute from them.
pub trait WhirRound0Engine: Sized {
    /// The stripes, commitment by commitment.
    spec fn stripes(&self) -> Seq<Seq<Seq<int>>>;

    /// The trees over the stripes' codewords.
    spec fn trees(&self) -> Seq<TreeVal>;

    /// Polynomial and weight, while the engine keeps them.
    spec fn held(&self) -> Option<Held>;

    /// The polynomial that was handed out last.
    spec fn handed(&self) -> Seq<E4>;

    /// The trees of later codewords that are not yet opened, oldest first.
    spec fn pending(&self) -> Seq<TreeVal>;

    /// The number of variables of a stripe.
    spec fn stack_vars(&self) -> nat;

    /// Whether the engine is in a state to serve.
    spec fn ready(&self) -> bool;

    /// The values of all stripes at the stack point.
    fn stripe_evals(&mut self, stack_point: &[Ext]) -> (r: Vec<Vec<Ext>>)
        requires
            old(self).ready(),
            stack_point@.len() == old(self).stack_vars(),
        ensures
            final(self).ready(),
            final(self).stack_vars() == old(self).stack_vars(),
            epoints(r@) == stripe_values(old(self).stripes(), evals(stack_point@)),
            final(self).stripes() == old(self).stripes(),
            final(self).trees() == old(self).trees(),
            final(self).held() == old(self).held(),
            final(self).handed() == old(self).handed(),
            final(self).pending() == old(self).pending(),
    ;

    /// Combines the stripes by powers of `lambda`, and weighs them by the equality table of
    /// the stack point.
    fn init(&mut self, lambda: Ext, stack_point: &[Ext])
        requires
            old(self).ready(),
            stack_point@.len() == old(self).stack_vars(),
        ensures
            final(self).ready(),
            final(self).held() == Some(
                Held {
                    f: virtual_poly(
                        old(self).stripes(),
                        stripe_powers(
                            stripe_values(old(self).stripes(), evals(stack_point@)),
                            lambda@,
                        ),
                        stack_point@.len(),
                        old(self).stripes().len(),
                    ),
                    w: eq_tab(evals(stack_point@)),
                },
            ),
            final(self).stripes() == old(self).stripes(),
            final(self).trees() == old(self).trees(),
            final(self).handed() == old(self).handed(),
            final(self).pending() == old(self).pending(),
    ;

    /// The constant and quadratic coefficients of the next message.
    fn c0_c2(&mut self) -> (r: (Ext, Ext))
        requires
            old(self).ready(),
            old(self).held() is Some,
        ensures
            final(self).ready(),
            r.0@ == round_c0(old(self).held()->0.f, old(self).held()->0.w),
            r.1@ == round_c2(old(self).held()->0.f, old(self).held()->0.w),
            final(self).stripes() == old(self).stripes(),
            final(self).trees() == old(self).trees(),
            final(self).held() == old(self).held(),
            final(self).handed() == old(self).handed(),
            final(self).pending() == old(self).pending(),
    ;

    /// Folds polynomial and weight by a challenge.
    fn apply_rc(&mut self, rc: Ext)
        requires
            old(self).ready(),
            old(self).held() is Some,
        ensures
            final(self).ready(),
            final(self).held() == Some(
                Held {
                    f: fold(old(self).held()->0.f, rc@),
                    w: fold(old(self).held()->0.w, rc@),
                },
            ),
            final(self).stripes() == old(self).stripes(),
            final(self).trees() == old(self).trees(),
            final(self).handed() == old(self).handed(),
            final(self).pending() == old(self).pending(),
    ;

    /// Hands out polynomial and weight.
    fn extract(&mut self) -> (r: (Vec<Ext>, Vec<Ext>))
        requires
            old(self).ready(),
            old(self).held() is Some,
        ensures
            final(self).ready(),
            evals(r.0@) == old(self).held()->0.f,
            evals(r.1@) == old(self).held()->0.w,
            final(self).held() is None,
            final(self).handed() == old(self).held()->0.f,
            final(self).stripes() == old(self).stripes(),
            final(self).trees() == old(self).trees(),
            final(self).pending() == old(self).pending(),
    ;

    /// Whether the engine would rather keep vectors of `len` entries.
    fn keep_resident(&self, len: usize) -> (r: bool);

    /// The value of the polynomial at a point.
    fn eval_resident(&mut self, point_lsb: &[Ext]) -> (r: Ext)
        requires
            old(self).ready(),
            old(self).held() is Some,
            old(self).held()->0.f.len() == pow2(point_lsb@.len()),
        ensures
            final(self).ready(),
            r@ == mle_eval(old(self).held()->0.f, evals(point_lsb@)),
            final(self).stripes() == old(self).stripes(),
            final(self).trees() == old(self).trees(),
            final(self).held() == old(self).held(),
            final(self).handed() == old(self).handed(),
            final(self).pending() == old(self).pending(),
    ;

    /// Opens every tree over the stripes at several indices, index by index.
    fn open_queries(&mut self, indices: &Vec<usize>, height: usize) -> (r: Vec<LeafOpening>)
        requires
            old(self).ready(),
            forall|i: int|
                0 <= i < old(self).trees().len() ==> uniform(
                    #[trigger] old(self).trees()[i],
                    height as nat,
                ),
            forall|q: int| 0 <= q < indices@.len() ==> (#[trigger] indices@[q]) < height,
            indices@.len() * old(self).trees().len() <= usize::MAX,
        ensures
            final(self).ready(),
            leaves_val(r@) == opened_leaves(old(self).trees(), index_vals(indices@)),
            leaves_accepted(
                old(self).trees(),
                height as nat,
                index_vals(indices@),
                leaves_val(r@),
            ),
            r@.len() == indices@.len() * old(self).trees().len(),
            final(self).stripes() == old(self).stripes(),
            final(self).trees() == old(self).trees(),
            final(self).held() == old(self).held(),
            final(self).handed() == old(self).handed(),
            final(self).pending() == old(self).pending(),
    ;

    /// Commits to the codeword of the polynomial that the engine keeps, or handed out last,
    /// `2^next_ff` values a row, where it has `v` variables. `None` declines.
    fn commit_folded(&mut self, next_ff: usize, log_inv_rate: usize, v: usize) -> (r: Option<
        Digest,
    >)
        requires
            old(self).ready(),
            next_ff <= v,
            v - next_ff + log_inv_rate <= 26,
            4 * pow2((v + log_inv_rate) as nat) <= usize::MAX,
        ensures
            final(self).ready(),
            final(self).stripes() == old(self).stripes(),
            final(self).trees() == old(self).trees(),
            final(self).held() == old(self).held(),
            final(self).handed() == old(self).handed(),
            ({
                let f = if old(self).held() is Some {
                    old(self).held()->0.f
                } else {
                    old(self).handed()
                };
                let tree = seq![
                    ext_matrix(f, next_ff as nat, (v - next_ff + log_inv_rate) as nat),
                ];
                match r {
                    Some(root) => {
                        &&& f.len() == pow2(v as nat)
                        &&& fvals(root@) == merkle_root(tree)
                        &&& final(self).pending() == old(self).pending().push(tree)
                    },
                    None => final(self).pending() == old(self).pending(),
                }
            }),
    ;

    /// Opens the oldest unopened later codeword at several indices.
    fn open_folded_queries(&mut self, indices: &Vec<usize>, height: usize) -> (r: Vec<LeafOpening>)
        requires
            old(self).ready(),
            old(self).pending().len() > 0,
            uniform(old(self).pending()[0], height as nat),
            forall|q: int| 0 <= q < indices@.len() ==> (#[trigger] indices@[q]) < height,
        ensures
            final(self).ready(),
            leaves_val(r@) == opened_leaves(
                seq![old(self).pending()[0]],
                index_vals(indices@),
            ),
            leaves_accepted(
                seq![old(self).pending()[0]],
                height as nat,
                index_vals(indices@),
                leaves_val(r@),
            ),
            r@.len() == indices@.len(),
            final(self).stripes() == old(self).stripes(),
            final(self).trees() == old(self).trees(),
            final(self).held() == old(self).held(),
            final(self).handed() == old(self).handed(),
            final(self).pending() == old(self).pending().skip(1),
    ;

    /// Adds the monomial tables of points to the weight: the engine's own while it keeps
    /// one, which it may not decline, else the given one. `false` declines.
    fn absorb_monomials(
        &mut self,
        weight: &mut Vec<Ext>,
        points_lsb: &Vec<Vec<Ext>>,
        coeffs: &Vec<Ext>,
    ) -> (r: bool)
        requires
            old(self).ready(),
            ({
                let w = if old(self).held() is Some {
                    old(self).held()->0.w.len()
                } else {
                    old(weight)@.len()
                };
                forall|i: int|
                    0 <= i < points_lsb@.len() ==> w == pow2((#[trigger] points_lsb@[i])@.len())
            }),
        ensures
            final(self).ready(),
            final(self).stripes() == old(self).stripes(),
            final(self).trees() == old(self).trees(),
            final(self).handed() == old(self).handed(),
            final(self).pending() == old(self).pending(),
            ({
                let tables = mono_tables(epoints(points_lsb@));
                let n = absorb_count(points_lsb@.len(), coeffs@.len());
                match old(self).held() {
                    Some(h) => {
                        &&& r
                        &&& final(weight)@ == old(weight)@
                        &&& final(self).held() == Some(
                            Held { f: h.f, w: absorbed(h.w, tables, evals(coeffs@), n) },
                        )
                    },
                    None => {
                        &&& final(self).held() is None
                        &&& r ==> evals(final(weight)@) == absorbed(
                            evals(old(weight)@),
                            tables,
                            evals(coeffs@),
                            n,
                        )
                        &&& !r ==> final(weight)@ == old(weight)@
                    },
                }
            }),
    ;

    /// Adds the equality tables of points to the weight, under the same rules.
    fn absorb_ood(
        &mut self,
        weight: &mut Vec<Ext>,
        points_lsb: &Vec<Vec<Ext>>,
        coeffs: &Vec<Ext>,
    ) -> (r: bool)
        requires
            old(self).ready(),
            ({
                let w = if old(self).held() is Some {
                    old(self).held()->0.w.len()
                } else {
                    old(weight)@.len()
                };
                forall|i: int|
                    0 <= i < points_lsb@.len() ==> w == pow2((#[trigger] points_lsb@[i])@.len())
            }),
        ensures
            final(self).ready(),
            final(self).stripes() == old(self).stripes(),
            final(self).trees() == old(self).trees(),
            final(self).handed() == old(self).handed(),
            final(self).pending() == old(self).pending(),
            ({
                let tables = eq_tables(epoints(points_lsb@));
                let n = absorb_count(points_lsb@.len(), coeffs@.len());
                match old(self).held() {
                    Some(h) => {
                        &&& r
                        &&& final(weight)@ == old(weight)@
                        &&& final(self).held() == Some(
                            Held { f: h.f, w: absorbed(h.w, tables, evals(coeffs@), n) },
                        )
                    },
                    None => {
                        &&& final(self).held() is None
                        &&& r ==> evals(final(weight)@) == absorbed(
                            evals(old(weight)@),
                            tables,
                            evals(coeffs@),
                            n,
                        )
                        &&& !r ==> final(weight)@ == old(weight)@
                    },
                }
            }),
    ;
}

/// An engine, and what it has handed to the host.
pub struct EngineBackend<E: WhirRound0Engine> {
    /// The engine.
    pub engine: E,
    /// Whether the engine keeps polynomial and weight; then those of the folder are empty.
    pub resident: bool,
    /// The claim, and polynomial and weight once they are handed out.
    pub folder: WhirFolder,
    /// The number of remaining variables.
    pub left: usize,
    /// The unopened later codewords, oldest first: the tree of one that the host
    /// committed to, and none for one that the engine did.
    pub queue: Vec<Option<CommittedRows>>,
}

/// The number of the first `k` codewords that the engine committed to.
pub open spec fn engine_count(q: Seq<Option<CommittedRows>>, k: int) -> nat
    decreases k,
{
    if k <= 0 {
        0
    } else {
        engine_count(q, k - 1) + if q[k - 1] is None {
            1nat
        } else {
            0nat
        }
    }
}

/// The tree of unopened codeword `i`.
pub open spec fn queued_tree(
    q: Seq<Option<CommittedRows>>,
    engine: Seq<TreeVal>,
    i: int,
) -> TreeVal {
    match q[i] {
        Some(t) => committed_matrices(t),
        None => engine[engine_count(q, i) as int],
    }
}

/// The trees of all unopened codewords.
pub open spec fn queued_trees(q: Seq<Option<CommittedRows>>, engine: Seq<TreeVal>) -> Seq<
    TreeVal,
> {
    Seq::new(q.len(), |i: int| queued_tree(q, engine, i))
}

proof fn engine_count_prefix(a: Seq<Option<CommittedRows>>, b: Seq<Option<CommittedRows>>, k: int)
    requires
        0 <= k <= a.len(),
        k <= b.len(),
        forall|i: int| 0 <= i < k ==> #[trigger] a[i] == b[i],
    ensures
        engine_count(a, k) == engine_count(b, k),
    decreases k,
{
    if k > 0 {
        engine_count_prefix(a, b, k - 1);
        assert(a[k - 1] == b[k - 1]);
    }
}

proof fn engine_count_grows(q: Seq<Option<CommittedRows>>, a: int, b: int)
    requires
        0 <= a <= b,
    ensures
        engine_count(q, a) <= engine_count(q, b),
    decreases b - a,
{
    if a < b {
        engine_count_grows(q, a, b - 1);
    }
}

proof fn engine_count_skip(q: Seq<Option<CommittedRows>>, k: int)
    requires
        q.len() > 0,
        0 <= k < q.len(),
    ensures
        engine_count(q, k + 1) == engine_count(q.skip(1), k) + engine_count(q, 1),
    decreases k,
{
    if k > 0 {
        engine_count_skip(q, k - 1);
        assert(q.skip(1)[k - 1] == q[k]);
    }
}

proof fn queue_push(
    q: Seq<Option<CommittedRows>>,
    e: Seq<TreeVal>,
    x: Option<CommittedRows>,
    tree: TreeVal,
)
    requires
        engine_count(q, q.len() as int) == e.len(),
        x matches Some(t) ==> committed_matrices(t) == tree,
    ensures
        ({
            let e2 = if x is None {
                e.push(tree)
            } else {
                e
            };
            &&& queued_trees(q.push(x), e2) == queued_trees(q, e).push(tree)
            &&& engine_count(q.push(x), (q.len() + 1) as int) == e2.len()
        }),
{
    let e2 = if x is None {
        e.push(tree)
    } else {
        e
    };
    let q2 = q.push(x);
    engine_count_prefix(q, q2, q.len() as int);
    assert forall|i: int| 0 <= i < q2.len() implies queued_trees(q2, e2)[i] == queued_trees(
        q,
        e,
    ).push(tree)[i] by {
        if i < q.len() {
            engine_count_prefix(q, q2, i);
            assert(q2[i] == q[i]);
            if q[i] is None {
                engine_count_grows(q, i + 1, q.len() as int);
            }
        }
    }
    assert(queued_trees(q2, e2) =~= queued_trees(q, e).push(tree));
}

proof fn queue_pop(q: Seq<Option<CommittedRows>>, e: Seq<TreeVal>)
    requires
        q.len() > 0,
        engine_count(q, q.len() as int) == e.len(),
    ensures
        ({
            let e2 = if q[0] is None {
                e.skip(1)
            } else {
                e
            };
            &&& q[0] is None ==> e.len() > 0 && queued_trees(q, e)[0] == e[0]
            &&& q[0] matches Some(t) ==> queued_trees(q, e)[0] == committed_matrices(t)
            &&& queued_trees(q.skip(1), e2) == queued_trees(q, e).skip(1)
            &&& engine_count(q.skip(1), q.len() - 1) == e2.len()
        }),
{
    let e2 = if q[0] is None {
        e.skip(1)
    } else {
        e
    };
    let q2 = q.skip(1);
    assert(engine_count(q, 0) == 0);
    assert(engine_count(q, 1) == (if q[0] is None {
        1nat
    } else {
        0nat
    }));
    engine_count_grows(q, 1, q.len() as int);
    engine_count_skip(q, q.len() - 1);
    assert forall|i: int| 0 <= i < q2.len() implies queued_trees(q2, e2)[i] == queued_trees(
        q,
        e,
    ).skip(1)[i] by {
        engine_count_skip(q, i);
        assert(q2[i] == q[i + 1]);
        if q[i + 1] is None {
            engine_count_grows(q, i + 2, q.len() as int);
        }
    }
    assert(queued_trees(q2, e2) =~= queued_trees(q, e).skip(1));
}

proof fn pow2_less(a: nat, b: nat)
    requires
        a < b,
    ensures
        pow2(a) < pow2(b),
{
    vstd::arithmetic::power2::lemma_pow2_strictly_increases(a, b);
}

impl<E: WhirRound0Engine> EngineBackend<E> {
    /// The vectors are where the flag says, the polynomial handed out is the folder's, and
    /// the engine has as many unopened codewords as the queue says.
    pub open spec fn consistent(&self) -> bool {
        &&& self.engine.ready()
        &&& self.resident == (self.engine.held() is Some)
        &&& pow2(self.left as nat) <= usize::MAX
        &&& match self.engine.held() {
            Some(h) => h.f.len() == pow2(self.left as nat) && h.w.len() == pow2(self.left as nat),
            None => {
                &&& self.folder.wf()
                &&& self.folder.vars() == self.left
                &&& self.engine.handed().len() >= pow2(self.left as nat)
                &&& self.engine.handed().len() == pow2(self.left as nat) ==> self.engine.handed()
                    == self.folder@.f
            },
        }
        &&& engine_count(self.queue@, self.queue@.len() as int) == self.engine.pending().len()
    }

    /// Polynomial, weight and claim.
    pub open spec fn current(&self) -> FolderVal {
        match self.engine.held() {
            Some(h) => FolderVal { f: h.f, w: h.w, claim: self.folder.claimed_sum@ },
            None => self.folder@,
        }
    }

    /// Takes polynomial and weight from the engine, if it keeps them.
    fn take_vectors(&mut self)
        requires
            old(self).consistent(),
        ensures
            final(self).consistent(),
            !final(self).resident,
            final(self).current() == old(self).current(),
            final(self).left == old(self).left,
            final(self).queue@ == old(self).queue@,
            final(self).engine.trees() == old(self).engine.trees(),
            final(self).engine.pending() == old(self).engine.pending(),
    {
        if self.resident {
            let (f, w) = self.engine.extract();
            proof {
                let n = self.left as nat;
                assert(evals(f@).len() == f@.len());
                assert(evals(w@).len() == w@.len());
                ceil_log2_is_least(pow2(n));
                log2_of_pow2(pow2(n), ceil_log2_of(pow2(n)), n);
            }
            let claimed_sum = self.folder.claimed_sum;
            self.folder = WhirFolder { f_vec: f, weight: w, claimed_sum };
            self.resident = false;
        }
    }

    /// Folds one variable on the engine.
    fn fold_resident(&mut self, bits: usize, challenger: &mut Transcript) -> (r: Option<
        (SumcheckPoly, ProofOfWork, Ext),
    >)
        requires
            old(self).consistent(),
            old(self).resident,
            old(self).left > 0,
            old(challenger).wf(),
            bits <= 30,
        ensures
            final(challenger).wf(),
            ({
                let seek = after_message(old(challenger)@, old(self).current().message());
                match r {
                    Some((g, pow, c)) => {
                        let s = seek.after_pow(bits as nat, pow.0@);
                        &&& evals(g.0@) == old(self).current().message()
                        &&& is_grind(seek, bits as nat, pow.0@)
                        &&& c@ == s.drawn_ext()
                        &&& final(challenger)@ == s.after_draw_ext()
                        &&& final(self).consistent()
                        &&& final(self).resident
                        &&& final(self).current() == old(self).current().folded(c@)
                        &&& final(self).left == old(self).left - 1
                        &&& final(self).queue@ == old(self).queue@
                        &&& final(self).engine.trees() == old(self).engine.trees()
                        &&& final(self).engine.pending() == old(self).engine.pending()
                    },
                    None => no_grind(seek, bits as nat),
                }
            }),
    {
        let ghost at = self.current();
        let (c0, c2) = self.engine.c0_c2();
        let c1 = self.folder.claimed_sum.minus(c0.double()).minus(c2);
        let mut g: Vec<Ext> = Vec::new();
        g.push(c0);
        g.push(c1);
        g.push(c2);
        proof {
            assert(evals(g@) =~= at.message());
        }
        challenger.observe_algebra_element(c0);
        challenger.observe_algebra_element(c1);
        challenger.observe_algebra_element(c2);
        let pow = match challenger.grind(bits) {
            None => {
                return None;
            },
            Some(w) => w,
        };
        let r = challenger.sample_algebra_element();
        self.folder.claimed_sum = c0.plus(c1.times(r)).plus(c2.times(r).times(r));
        proof {
            lemma_pow2_unfold(self.left as nat);
            crate::felt::felt_canonical(pow);
        }
        self.engine.apply_rc(r);
        self.left = self.left - 1;
        Some((SumcheckPoly(g), ProofOfWork(pow), r))
    }
}

impl<E: WhirRound0Engine> RoundBackend for EngineBackend<E> {
    open spec fn inv(&self) -> bool {
        self.consistent()
    }

    open spec fn val(&self) -> FolderVal {
        self.current()
    }

    open spec fn vars(&self) -> nat {
        self.left as nat
    }

    open spec fn start_trees(&self) -> Seq<TreeVal> {
        self.engine.trees()
    }

    open spec fn pending(&self) -> Seq<TreeVal> {
        queued_trees(self.queue@, self.engine.pending())
    }

    fn fold_variables(
        &mut self,
        k: usize,
        pow_bits: &Vec<usize>,
        challenger: &mut Transcript,
        randomness_out: &mut Vec<Ext>,
    ) -> (r: Option<Vec<(SumcheckPoly, ProofOfWork)>>) {
        if !self.resident {
            let r = self.folder.fold_variables(k, pow_bits, challenger, randomness_out);
            match r {
                None => {
                    return None;
                },
                Some(out) => {
                    proof {
                        if k > 0 {
                            pow2_less((self.left - k) as nat, self.left as nat);
                        } else {
                            assert(self.folder@ == old(self).folder@);
                        }
                    }
                    self.left = self.left - k;
                    return Some(out);
                },
            }
        }
        let ghost start = FoldRun {
            folder: self.current(),
            sponge: challenger@,
            challenges: evals(randomness_out@),
        };
        let ghost n = self.left;
        let mut out: Vec<(SumcheckPoly, ProofOfWork)> = Vec::new();
        let mut round: usize = 0;
        while round < k
            invariant
                round <= k,
                k <= n,
                n == old(self).left,
                challenger.wf(),
                pow_feasible(pow_bits@),
                self.consistent(),
                self.resident,
                self.left == n - round,
                self.queue@ == old(self).queue@,
                self.engine.trees() == old(self).engine.trees(),
                self.engine.pending() == old(self).engine.pending(),
                start == (FoldRun {
                    folder: old(self).current(),
                    sponge: old(challenger)@,
                    challenges: evals(old(randomness_out)@),
                }),
                out@.len() == round,
                fold_pows_found(start, pow_bits@, out_pows(out@), round as nat),
                fold_messages(start, pow_bits@, out_pows(out@), out@),
                ({
                    let at = fold_run(start, pow_bits@, out_pows(out@), round as nat);
                    &&& self.current() == at.folder
                    &&& challenger@ == at.sponge
                    &&& evals(randomness_out@) == at.challenges
                }),
            decreases k - round,
        {
            let bits: usize = pow_bits_get(pow_bits, round);
            let ghost before = out_pows(out@);
            proof {
                if round < pow_bits@.len() {
                    assert(pow_bits@[round as int] <= 30);
                }
            }
            let (g, pow, c) = match self.fold_resident(bits, challenger) {
                None => {
                    proof {
                        assert(before.len() < k);
                        assert(fold_stuck(start, pow_bits@, k as nat));
                    }
                    return None;
                },
                Some(t) => t,
            };
            let ghost out0 = out@;
            out.push((g, pow));
            randomness_out.push(c);
            proof {
                let after = out_pows(out@);
                assert(after =~= before.push(pow.0@));
                lemma_extend_run(start, pow_bits@, before, pow.0@);
                let end = fold_run(start, pow_bits@, after, (round + 1) as nat);
                assert(evals(randomness_out@) =~= end.challenges);
                assert forall|i: int| 0 <= i < out@.len() implies evals((#[trigger] out@[i]).0.0@)
                    == fold_run(start, pow_bits@, after, i as nat).folder.message() by {
                    fold_run_ext(start, pow_bits@, before, after, i as nat);
                    if i < round {
                        assert(out@[i] == out0[i]);
                    }
                }
            }
            round = round + 1;
        }
        Some(out)
    }

    fn settle(&mut self, last: bool)
        ensures
            last ==> !final(self).resident,
            !old(self).resident ==> *final(self) == *old(self),
            old(self).resident && !last ==> call_ensures(
                E::keep_resident,
                (&old(self).engine, pow2(old(self).left as nat) as usize),
                final(self).resident,
            ),
            final(self).resident ==> *final(self) == *old(self),
            final(self).queue@ == old(self).queue@,
    {
        if self.resident {
            let len: usize = pow2_usize(self.left);
            if last || !self.engine.keep_resident(len) {
                self.take_vectors();
            }
        }
    }

    fn commit_codeword(&mut self, next_ff: usize, log_inv_rate: usize, v: usize) -> (r: Digest) {
        let ghost tree = seq![
            ext_matrix(self.current().f, next_ff as nat, (v - next_ff + log_inv_rate) as nat),
        ];
        let ghost q = self.queue@;
        let ghost e = self.engine.pending();
        match self.engine.commit_folded(next_ff, log_inv_rate, v) {
            Some(root) => {
                self.queue.push(None);
                proof {
                    queue_push(q, e, None, tree);
                }
                root
            },
            None => {
                self.take_vectors();
                let (root, kept) = commit_poly(&self.folder.f_vec, next_ff, log_inv_rate, v);
                self.queue.push(Some(kept));
                proof {
                    queue_push(q, e, Some(kept), tree);
                }
                root
            },
        }
    }

    fn answer_samples(&mut self, v: usize, samples: usize, challenger: &mut Transcript) -> (r: (
        Vec<Vec<Ext>>,
        Vec<Ext>,
    )) {
        if !self.resident {
            return answer_ood(self.folder.f_vec.as_slice(), v, samples, challenger);
        }
        let ghost s = challenger@;
        let ghost gf = self.current().f;
        let ghost vars = v as nat;
        let mut points: Vec<Vec<Ext>> = Vec::new();
        let mut answers: Vec<Ext> = Vec::new();
        let mut k: usize = 0;
        while k < samples
            invariant
                k <= samples,
                vars == v,
                challenger.wf(),
                self.consistent(),
                self.resident,
                self.left == old(self).left,
                self.left == v,
                self.queue@ == old(self).queue@,
                self.current() == old(self).current(),
                self.engine.trees() == old(self).engine.trees(),
                self.engine.pending() == old(self).engine.pending(),
                gf == self.current().f,
                points@.len() == k,
                answers@.len() == k,
                challenger@ == ood_sponge(s, evals(answers@), vars, k as nat),
                forall|i: int|
                    0 <= i < k ==> evals((#[trigger] points@[i])@) == ood_points_of(
                        s,
                        evals(answers@),
                        vars,
                    )[i],
                forall|i: int| 0 <= i < k ==> (#[trigger] points@[i])@.len() == v,
                forall|i: int|
                    0 <= i < k ==> (#[trigger] answers@[i])@ == mle_eval(
                        gf,
                        ood_points_of(s, evals(answers@), vars)[i],
                    ),
            decreases samples - k,
        {
            let pt = challenger.sample_point(v);
            proof {
                assert(evals(pt@).len() == pt@.len());
            }
            let ans = self.engine.eval_resident(pt.as_slice());
            challenger.observe_algebra_element(ans);
            let ghost old_answers = evals(answers@);
            let ghost old_list = answers@;
            let ghost old_points = points@;
            points.push(pt);
            answers.push(ans);
            proof {
                let new_answers = evals(answers@);
                assert forall|i: int| 0 <= i < k implies #[trigger] old_answers[i]
                    == new_answers[i] by {}
                assert forall|i: nat| i <= k implies #[trigger] ood_sponge(s, old_answers, vars, i)
                    == ood_sponge(s, new_answers, vars, i) by {
                    ood_ext(s, old_answers, new_answers, vars, i);
                }
                assert forall|i: int| 0 <= i < k implies ood_points_of(s, old_answers, vars)[i]
                    == #[trigger] ood_points_of(s, new_answers, vars)[i] by {
                    assert(ood_sponge(s, old_answers, vars, i as nat) == ood_sponge(
                        s,
                        new_answers,
                        vars,
                        i as nat,
                    ));
                }
                assert(ood_sponge(s, old_answers, vars, k as nat) == ood_sponge(
                    s,
                    new_answers,
                    vars,
                    k as nat,
                ));
                assert forall|i: int| 0 <= i < k + 1 implies evals((#[trigger] points@[i])@)
                    == ood_points_of(s, new_answers, vars)[i] by {
                    if i < k {
                        assert(points@[i] == old_points[i]);
                        assert(ood_points_of(s, old_answers, vars)[i] == ood_points_of(
                            s,
                            new_answers,
                            vars,
                        )[i]);
                    }
                }
                assert forall|i: int| 0 <= i < k + 1 implies (#[trigger] answers@[i])@ == mle_eval(
                    gf,
                    ood_points_of(s, new_answers, vars)[i],
                ) by {
                    if i < k {
                        assert(answers@[i] == old_list[i]);
                        assert(ood_points_of(s, old_answers, vars)[i] == ood_points_of(
                            s,
                            new_answers,
                            vars,
                        )[i]);
                    }
                }
            }
            k = k + 1;
        }
        proof {
            assert(epoints(points@) =~= ood_points_of(s, evals(answers@), vars));
            assert forall|i: int| 0 <= i < evals(answers@).len() implies #[trigger] evals(
                answers@,
            )[i] == mle_eval(gf, ood_points_of(s, evals(answers@), vars)[i]) by {
                assert(evals(answers@)[i] == answers@[i]@);
            }
        }
        (points, answers)
    }

    fn open_start(&mut self, height: usize, indices: &Vec<usize>) -> (r: Vec<LeafOpening>) {
        self.engine.open_queries(indices, height)
    }

    fn open_codeword(&mut self, height: usize, indices: &Vec<usize>) -> (r: Vec<LeafOpening>) {
        let ghost q = self.queue@;
        let ghost e = self.engine.pending();
        proof {
            queue_pop(q, e);
        }
        let first = self.queue.remove(0);
        proof {
            assert(self.queue@ =~= q.skip(1));
        }
        match first {
            None => self.engine.open_folded_queries(indices, height),
            Some(tree) => {
                let mut one: Vec<&CommittedRows> = Vec::new();
                one.push(&tree);
                proof {
                    assert(tree_vals(one@) =~= seq![queued_trees(q, e)[0]]);
                    assert(Seq::new(indices@.len(), |q: int| indices@[q] as int) =~= index_vals(
                        indices@,
                    ));
                }
                let n: usize = indices.len();
                open_trees(&one, height, indices)
            },
        }
    }

    fn add_samples(&mut self, points: &Vec<Vec<Ext>>, answers: &Vec<Ext>, batch: Ext) {
        let coeffs = self.folder.ood_coeffs(answers, batch);
        proof {
            assert(coeffs@.len() == evals(coeffs@).len());
            if !self.resident {
                assert(evals(self.folder.weight@).len() == self.folder.weight@.len());
            }
        }
        let ghost w0 = if self.resident {
            self.engine.held()->0.w
        } else {
            self.folder@.w
        };
        proof {
            absorbed_len(
                w0,
                eq_tables(epoints(points@)),
                evals(coeffs@),
                absorb_count(points@.len(), coeffs@.len()),
            );
        }
        let done = self.engine.absorb_ood(&mut self.folder.weight, points, &coeffs);
        proof {
            assert(evals(self.folder.weight@).len() == self.folder.weight@.len());
        }
        if !done {
            self.folder.absorb_eq_tables(points, &coeffs);
        }
    }

    fn add_queries(
        &mut self,
        points_lsb: &Vec<Vec<Ext>>,
        values: &Vec<Ext>,
        batch: Ext,
        start_coeff: Ext,
    ) {
        let (coeffs, _next) = self.folder.monomial_coeffs(values, batch, start_coeff);
        proof {
            assert(coeffs@.len() == evals(coeffs@).len());
        }
        let ghost w0 = if self.resident {
            self.engine.held()->0.w
        } else {
            self.folder@.w
        };
        proof {
            absorbed_len(
                w0,
                mono_tables(epoints(points_lsb@)),
                evals(coeffs@),
                absorb_count(points_lsb@.len(), coeffs@.len()),
            );
        }
        let done = self.engine.absorb_monomials(&mut self.folder.weight, points_lsb, &coeffs);
        proof {
            assert(evals(self.folder.weight@).len() == self.folder.weight@.len());
        }
        if !done {
            self.folder.absorb_monomial_tables(points_lsb, &coeffs);
        }
    }

    fn into_poly(self) -> (r: Vec<Ext>) {
        let mut s = self;
        s.take_vectors();
        s.folder.f_vec
    }
}

/// Whether an engine, if there is one, holds the given stripes and trees, and the schedule
/// is one that an engine can serve: at least two rounds, and no starting out-of-domain
/// samples.
pub open spec fn engine_fits<E: WhirRound0Engine>(
    prover: StackedWhirProver,
    data: Seq<&StackedWhirProverData>,
    engine: Option<E>,
) -> bool {
    match engine {
        None => true,
        Some(e) => {
            &&& e.ready()
            &&& e.stack_vars() == prover.log_stacking_height
            &&& e.stripes() == data_stripes(data)
            &&& e.trees() == data_trees(data)
            &&& e.pending().len() == 0
            &&& prover.config.starting_ood_samples == 0
            &&& prover.config.round_parameters@.len() >= 2
        },
    }
}

impl StackedWhirProver {
    /// Proves the value of every stripe of every commitment at the stack point, as
    /// [`Self::prove_trusted_evaluation`] does, with an engine that holds the stripes.
    fn prove_on_engine<E: WhirRound0Engine>(
        &self,
        stack_point: &Vec<Ext>,
        prover_data: &Vec<&StackedWhirProverData>,
        challenger: &mut Transcript,
        engine: E,
    ) -> (r: Option<StackedWhirProof>)
        requires
            old(challenger).wf(),
            stack_point@.len() == self.log_stacking_height,
            self.fits(prover_data@.len()),
            forall|i: int| 0 <= i < prover_data@.len() ==> self.holds(*#[trigger] prover_data@[i]),
            engine_fits(*self, prover_data@, Some(engine)),
        ensures
            final(challenger).wf(),
            ({
                let stripes = data_stripes(prover_data@);
                let values = stripe_values(stripes, evals(stack_point@));
                let (lambda, start) = self.start(old(challenger)@, stripes, evals(stack_point@));
                let pr = self.prover(
                    data_trees(prover_data@),
                    data_roots(prover_data@),
                    stripe_counts(stripes),
                    stripe_powers(values, lambda),
                );
                match r {
                    Some(out) => {
                        let p = out.whir_proof@;
                        &&& epoints(out.batch_evaluations@) == values
                        &&& pr.honest(start, p)
                        &&& final(challenger)@ == pr.end(start, pr.all_data(p)).sponge.after_pow(
                            pr.final_pow_bits,
                            p.final_pow,
                        ).after_draws(pr.final_queries)
                    },
                    None => pr.stuck(start),
                }
            }),
    {
        let n: usize = self.log_stacking_height as usize;
        let ghost stripes = data_stripes(prover_data@);
        let ghost point = evals(stack_point@);
        let mut engine = engine;
        proof {
            lemma2_to64();
            pow2_le(n as nat, n as nat + self.config.starting_log_inv_rate as nat);
        }
        let batch_evaluations = engine.stripe_evals(stack_point.as_slice());
        let ghost values = stripe_values(stripes, point);
        observe_stripes(&batch_evaluations, challenger);
        let lambda = challenger.sample_algebra_element();
        let (claim, powers) = batch_stripes(&batch_evaluations, lambda);
        let ghost s1 = challenger@;
        let batch = challenger.sample_algebra_element();
        engine.init(lambda, stack_point.as_slice());
        let folder = WhirFolder { f_vec: Vec::new(), weight: Vec::new(), claimed_sum: claim };
        let mut roots: Vec<Digest> = Vec::new();
        let mut counts: Vec<usize> = Vec::new();
        let mut i: usize = 0;
        while i < prover_data.len()
            invariant
                i <= prover_data@.len(),
                roots@.len() == i,
                counts@.len() == i,
                forall|j: int|
                    0 <= j < i ==> fvals((#[trigger] roots@[j])@) == fvals(
                        prover_data@[j].commitment@,
                    ),
                forall|j: int|
                    0 <= j < i ==> (#[trigger] counts@[j]) == prover_data@[j].stripes@.len(),
            decreases prover_data@.len() - i,
        {
            roots.push(prover_data[i].commitment);
            counts.push(prover_data[i].stripes.len());
            i = i + 1;
        }
        let src = Source::Stripes(&roots, &counts, &powers);
        let ghost gpow = stripe_powers(values, lambda@);
        let ghost pr = self.prover(
            data_trees(prover_data@),
            data_roots(prover_data@),
            stripe_counts(stripes),
            gpow,
        );
        let backend = EngineBackend {
            engine,
            resident: true,
            folder,
            left: n,
            queue: Vec::new(),
        };
        proof {
            assert(path_val(roots@) =~= data_roots(prover_data@));
            assert(counts_val(counts@) =~= stripe_counts(stripes));
            assert(folded_vars(pr.rounds, 1) == pr.fold(0)) by {
                reveal_with_fuel(folded_vars, 2);
            }
            assert(pr.codeword_log(0) == self.start_log());
            let vals = data_trees(prover_data@);
            assert forall|i: int| 0 <= i < prover_data@.len() implies (
            #[trigger] powers@[i])@.len() == prover_data@[i].stripes@.len() by {
                assert(epoints(batch_evaluations@)[i].len() == values[i].len());
                assert(batch_evaluations@[i]@.len() == evals(batch_evaluations@[i]@).len());
            }
            assert(src@.consistent());
            assert forall|i: int| 0 <= i < vals.len() implies uniform(
                #[trigger] vals[i],
                pow2(pr.codeword_log(0)),
            ) by {
                assert(self.holds(*prover_data@[i]));
            }
            assert forall|i: int| 0 <= i < vals.len() implies stripe_shaped(
                #[trigger] vals[i],
                counts_val(counts@)[i],
                pow2(pr.fold(0)),
            ) by {
                let data = *prover_data@[i];
                assert(self.holds(data));
                assert forall|k: int| 0 <= k < vals[i].len() implies (#[trigger] vals[i][k]).1
                    == pow2(pr.fold(0)) by {
                    assert(stripes_val(data.stripes@)[k].len() == pow2(n as nat));
                }
            }
            assert(trees_shaped(src@, vals, pr.fold(0), pow2(pr.codeword_log(0))));
            virtual_poly_len(stripes, gpow, n as nat, stripes.len());
            assert(honest_answers(s1, backend.current().f, n as nat, 0) =~= Seq::<E4>::empty());
            assert(evals(stack_point@).len() == n);
            let (lam, start) = self.start(old(challenger)@, stripes, point);
            assert(lam == lambda@);
            assert(start.folder == backend.current());
            assert(start.sponge == challenger@);
            assert(backend.queue@.len() == 0);
            assert(backend.consistent());
        }
        match prove_from(&self.config, n, &src, backend, challenger, Ghost(pr)) {
            None => None,
            Some(whir_proof) => Some(StackedWhirProof { whir_proof, batch_evaluations }),
        }
    }

    /// Proves the value of every stripe of every commitment at the stack point. With an
    /// engine, which holds the stripes and their trees, the transcript and the proof are
    /// those of the host.
    pub fn prove_trusted_evaluation_with_engine<E: WhirRound0Engine>(
        &self,
        stack_point: &Vec<Ext>,
        prover_data: &Vec<&StackedWhirProverData>,
        challenger: &mut Transcript,
        engine: Option<E>,
    ) -> (r: Option<StackedWhirProof>)
        requires
            old(challenger).wf(),
            stack_point@.len() == self.log_stacking_height,
            self.fits(prover_data@.len()),
            forall|i: int| 0 <= i < prover_data@.len() ==> self.holds(*#[trigger] prover_data@[i]),
            engine_fits(*self, prover_data@, engine),
        ensures
            final(challenger).wf(),
            ({
                let stripes = data_stripes(prover_data@);
                let values = stripe_values(stripes, evals(stack_point@));
                let (lambda, start) = self.start(old(challenger)@, stripes, evals(stack_point@));
                let pr = self.prover(
                    data_trees(prover_data@),
                    data_roots(prover_data@),
                    stripe_counts(stripes),
                    stripe_powers(values, lambda),
                );
                match r {
                    Some(out) => {
                        let p = out.whir_proof@;
                        &&& epoints(out.batch_evaluations@) == values
                        &&& pr.honest(start, p)
                        &&& final(challenger)@ == pr.end(start, pr.all_data(p)).sponge.after_pow(
                            pr.final_pow_bits,
                            p.final_pow,
                        ).after_draws(pr.final_queries)
                    },
                    None => pr.stuck(start),
                }
            }),
    {
        match engine {
            None => self.prove_trusted_evaluation(stack_point, prover_data, challenger),
            Some(e) => self.prove_on_engine(stack_point, prover_data, challenger, e),
        }
    }
}

} // verus!
