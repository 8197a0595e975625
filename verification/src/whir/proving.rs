//! The rounds of a WHIR prover over an interleaved commitment.
use vstd::prelude::*;
use vstd::arithmetic::power2::{lemma2_to64, lemma_pow2_pos, pow2};
use crate::arith::{pow2_le, pow2_usize};
use crate::dft::{domain_generator, domain_point, two_adic_generator};
use crate::ext::{e_pow, epoints, evals, fvals, Ext, E4};
use crate::merkle::{committed_matrices, matrix_row, merkle_accepts, merkle_open, merkle_root,
    uniform, widths_of, CommittedRows, Digest};
use crate::mle::{mle_eval, pow_point, pow_point_len};
use crate::multilinear::{copy_exts, eval_at};
use crate::transcript::{Sponge, Transcript};
use crate::whir::backend::{index_vals, RoundBackend};
use crate::whir::config::{folded_vars, folded_vars_monotone, RoundConfig, WhirConfig};
use crate::whir::encode::{cell_bound, ext_matrix};
use crate::whir::honest::{leaves_accepted, opened_leaf, opened_leaves, Prover, PState, RoundData,
    TreeVal};
use crate::whir::messages::{leaf_val, leaves_val, polys_val, pows_val, LeafOpening, LeafVal,
    MerkleOpening, ProofOfWork, SumcheckPoly, WhirProof};
use crate::whir::monomial::map_to_pow_lsb;
use crate::whir::queries::{leaf_at, leaf_fits, query_row, read_query, rows_fit, Source, SourceVal};
use crate::whir::replay::{ood_points_of, ood_sponge};
use crate::whir::rounds::{digest_felts, left_of, rate_of};
use crate::whir::sumcheck::{fold_run, fold_run_challenges, fold_stuck, no_grind, out_pows};

verus! {

/// The matrices of several trees.
pub open spec fn tree_vals(trees: Seq<&CommittedRows>) -> Seq<TreeVal> {
    Seq::new(trees.len(), |i: int| committed_matrices(*trees[i]))
}

/// Opens several trees at several indices, index by index.
pub(crate) fn open_trees(trees: &Vec<&CommittedRows>, height: usize, indices: &Vec<usize>) -> (r: Vec<
    LeafOpening,
>)
    requires
        forall|i: int|
            0 <= i < trees@.len() ==> uniform(
                committed_matrices(*#[trigger] trees@[i]),
                height as nat,
            ),
        forall|q: int| 0 <= q < indices@.len() ==> (#[trigger] indices@[q]) < height,
        indices@.len() * trees@.len() <= usize::MAX,
    ensures
        ({
            let idx = Seq::new(indices@.len(), |q: int| indices@[q] as int);
            &&& leaves_val(r@) == opened_leaves(tree_vals(trees@), idx)
            &&& leaves_accepted(tree_vals(trees@), height as nat, idx, leaves_val(r@))
            &&& r@.len() == indices@.len() * trees@.len()
        }),
{
    let ghost vals = tree_vals(trees@);
    let ghost idx = Seq::new(indices@.len(), |q: int| indices@[q] as int);
    let ghost want = opened_leaves(vals, idx);
    let per: usize = trees.len();
    let mut out: Vec<LeafOpening> = Vec::new();
    let mut q: usize = 0;
    proof {
        vstd::arithmetic::mul::lemma_mul_basics(per as int);
    }
    while q < indices.len()
        invariant
            q <= indices@.len(),
            per == trees@.len(),
            vals == tree_vals(trees@),
            idx == Seq::new(indices@.len(), |q: int| indices@[q] as int),
            want == opened_leaves(vals, idx),
            forall|i: int|
                0 <= i < trees@.len() ==> uniform(
                    committed_matrices(*#[trigger] trees@[i]),
                    height as nat,
                ),
            forall|q: int| 0 <= q < indices@.len() ==> (#[trigger] indices@[q]) < height,
            out@.len() == q * per,
            forall|t: int| 0 <= t < out@.len() ==> leaf_val(#[trigger] out@[t]) == want[t],
            forall|t: int|
                0 <= t < out@.len() ==> tree_accepts(
                    vals[t % per as int],
                    height as nat,
                    idx[t / per as int],
                    leaf_val(#[trigger] out@[t]),
                ),
        decreases indices@.len() - q,
    {
        let mut i: usize = 0;
        while i < trees.len()
            invariant
                i <= trees@.len(),
                q < indices@.len(),
                per == trees@.len(),
                vals == tree_vals(trees@),
                idx == Seq::new(indices@.len(), |q: int| indices@[q] as int),
                want == opened_leaves(vals, idx),
                forall|i: int|
                    0 <= i < trees@.len() ==> uniform(
                        committed_matrices(*#[trigger] trees@[i]),
                        height as nat,
                    ),
                forall|q: int| 0 <= q < indices@.len() ==> (#[trigger] indices@[q]) < height,
                out@.len() == q * per + i,
                forall|t: int| 0 <= t < out@.len() ==> leaf_val(#[trigger] out@[t]) == want[t],
                forall|t: int|
                    0 <= t < out@.len() ==> tree_accepts(
                        vals[t % per as int],
                        height as nat,
                        idx[t / per as int],
                        leaf_val(#[trigger] out@[t]),
                    ),
            decreases trees@.len() - i,
        {
            let index: usize = indices[q];
            let (values, path) = merkle_open(trees[i], index, height);
            let leaf = LeafOpening { values, path };
            proof {
                let t = q * per + i;
                cell_bound(q as int, i as int, indices@.len() as int, per as int);
                let tree = committed_matrices(*trees@[i as int]);
                assert(vals[i as int] == tree);
                assert(leaf_val(leaf).rows =~= opened_leaf(tree, index as int).rows);
                assert(leaf_val(leaf) == want[t]);
            }
            out.push(leaf);
            i = i + 1;
        }
        q = q + 1;
        proof {
            assert(q * per == (q - 1) * per + per) by (nonlinear_arith);
        }
    }
    proof {
        assert(leaves_val(out@) =~= want);
        assert forall|t: int| 0 <= t < leaves_val(out@).len() implies ({
            let tree = vals[t % vals.len() as int];
            merkle_accepts(
                merkle_root(tree),
                widths_of(tree),
                height as nat,
                idx[t / vals.len() as int] as nat,
                (#[trigger] leaves_val(out@)[t]).rows,
                leaves_val(out@)[t].path,
            )
        }) by {
            assert(tree_accepts(
                vals[t % per as int],
                height as nat,
                idx[t / per as int],
                leaf_val(out@[t]),
            ));
        }
    }
    out
}

/// Whether a leaf authenticates against the root of a tree.
pub open spec fn tree_accepts(tree: TreeVal, height: nat, index: int, leaf: LeafVal) -> bool {
    merkle_accepts(
        merkle_root(tree),
        widths_of(tree),
        height,
        index as nat,
        leaf.rows,
        leaf.path,
    )
}

/// Out-of-domain samples depend on the answers before them only.
pub(crate) proof fn ood_ext(s: Sponge, a: Seq<E4>, b: Seq<E4>, vars: nat, k: nat)
    requires
        forall|i: int| 0 <= i < k ==> #[trigger] a[i] == b[i],
    ensures
        ood_sponge(s, a, vars, k) == ood_sponge(s, b, vars, k),
    decreases k,
{
    if k > 0 {
        ood_ext(s, a, b, vars, (k - 1) as nat);
        assert(a[k - 1] == b[k - 1]);
    }
}

/// Whether answers are the values of `f` at the points that the transcript gives.
pub open spec fn answers_honest(
    s: Sponge,
    f: Seq<E4>,
    answers: Seq<E4>,
    vars: nat,
) -> bool {
    forall|i: int|
        0 <= i < answers.len() ==> #[trigger] answers[i] == mle_eval(
            f,
            ood_points_of(s, answers, vars)[i],
        )
}

/// Draws out-of-domain points and answers each with the value of the polynomial.
pub fn answer_ood(f: &[Ext], vars: usize, samples: usize, challenger: &mut Transcript) -> (r: (
    Vec<Vec<Ext>>,
    Vec<Ext>,
))
    requires
        old(challenger).wf(),
        f@.len() == pow2(vars as nat),
    ensures
        final(challenger).wf(),
        r.1@.len() == samples,
        r.0@.len() == samples,
        epoints(r.0@) == ood_points_of(old(challenger)@, evals(r.1@), vars as nat),
        forall|i: int| 0 <= i < r.0@.len() ==> (#[trigger] r.0@[i])@.len() == vars,
        answers_honest(old(challenger)@, evals(f@), evals(r.1@), vars as nat),
        final(challenger)@ == ood_sponge(
            old(challenger)@,
            evals(r.1@),
            vars as nat,
            samples as nat,
        ),
{
    let ghost s = challenger@;
    let ghost gf = evals(f@);
    let mut points: Vec<Vec<Ext>> = Vec::new();
    let mut answers: Vec<Ext> = Vec::new();
    let mut k: usize = 0;
    while k < samples
        invariant
            k <= samples,
            challenger.wf(),
            gf == evals(f@),
            f@.len() == pow2(vars as nat),
            points@.len() == k,
            answers@.len() == k,
            challenger@ == ood_sponge(s, evals(answers@), vars as nat, k as nat),
            forall|i: int|
                0 <= i < k ==> evals((#[trigger] points@[i])@) == ood_points_of(
                    s,
                    evals(answers@),
                    vars as nat,
                )[i],
            forall|i: int| 0 <= i < k ==> (#[trigger] points@[i])@.len() == vars,
            forall|i: int|
                0 <= i < k ==> (#[trigger] answers@[i])@ == mle_eval(
                    gf,
                    ood_points_of(s, evals(answers@), vars as nat)[i],
                ),
        decreases samples - k,
    {
        let pt = challenger.sample_point(vars);
        proof {
            assert(evals(pt@).len() == pt@.len());
        }
        let ans = eval_at(f, pt.as_slice());
        challenger.observe_algebra_element(ans);
        let ghost old_answers = evals(answers@);
        let ghost old_list = answers@;
        let ghost old_points = points@;
        points.push(pt);
        answers.push(ans);
        proof {
            let new_answers = evals(answers@);
            assert forall|i: int| 0 <= i < k implies #[trigger] old_answers[i] == new_answers[i] by {}
            assert forall|i: nat| i <= k implies #[trigger] ood_sponge(
                s,
                old_answers,
                vars as nat,
                i,
            ) == ood_sponge(s, new_answers, vars as nat, i) by {
                ood_ext(s, old_answers, new_answers, vars as nat, i);
            }
            assert forall|i: int| 0 <= i < k implies ood_points_of(
                s,
                old_answers,
                vars as nat,
            )[i] == #[trigger] ood_points_of(s, new_answers, vars as nat)[i] by {
                assert(ood_sponge(s, old_answers, vars as nat, i as nat) == ood_sponge(
                    s,
                    new_answers,
                    vars as nat,
                    i as nat,
                ));
            }
            assert(ood_sponge(s, old_answers, vars as nat, k as nat) == ood_sponge(
                s,
                new_answers,
                vars as nat,
                k as nat,
            ));
            assert forall|i: int| 0 <= i < k + 1 implies evals((#[trigger] points@[i])@)
                == ood_points_of(s, new_answers, vars as nat)[i] by {
                if i < k {
                    assert(points@[i] == old_points[i]);
                    assert(ood_points_of(s, old_answers, vars as nat)[i] == ood_points_of(
                        s,
                        new_answers,
                        vars as nat,
                    )[i]);
                }
            }
            assert forall|i: int| 0 <= i < k + 1 implies (#[trigger] answers@[i])@ == mle_eval(
                gf,
                ood_points_of(s, new_answers, vars as nat)[i],
            ) by {
                if i < k {
                    assert(answers@[i] == old_list[i]);
                    assert(ood_points_of(s, old_answers, vars as nat)[i] == ood_points_of(
                        s,
                        new_answers,
                        vars as nat,
                    )[i]);
                }
            }
        }
        k = k + 1;
    }
    proof {
        assert(epoints(points@) =~= ood_points_of(s, evals(answers@), vars as nat));
        assert forall|i: int| 0 <= i < evals(answers@).len() implies #[trigger] evals(answers@)[i]
            == mle_eval(gf, ood_points_of(s, evals(answers@), vars as nat)[i]) by {
            assert(evals(answers@)[i] == answers@[i]@);
        }
    }
    (points, answers)
}

/// Reads the rows of every query, and folds each at the round's challenges: the points
/// and values of the constraints.
fn stir_constraints(
    src: &Source,
    fold: usize,
    log_height: usize,
    left: usize,
    indices: &Vec<usize>,
    leaves: &Vec<LeafOpening>,
    own: &[Ext],
) -> (r: (Vec<Vec<Ext>>, Vec<Ext>))
    requires
        src@.consistent(),
        log_height <= 26,
        pow2(fold as nat) * 4 <= usize::MAX,
        leaves@.len() == indices@.len() * src@.leaves_per_query(),
        own@.len() == fold,
        forall|q: nat|
            q < indices@.len() ==> #[trigger] rows_fit(
                src@,
                fold as nat,
                leaves_val(leaves@),
                q,
            ),
    ensures
        r.0@.len() == indices@.len(),
        r.1@.len() == indices@.len(),
        forall|q: int|
            0 <= q < indices@.len() ==> evals((#[trigger] r.0@[q])@) == pow_point(
                domain_point(log_height as nat, indices@[q] as nat),
                left as nat,
            ),
        forall|q: int| 0 <= q < indices@.len() ==> (#[trigger] r.0@[q])@.len() == left,
        forall|q: int|
            0 <= q < indices@.len() ==> (#[trigger] r.1@[q])@ == mle_eval(
                query_row(src@, fold as nat, leaves_val(leaves@), q as nat),
                evals(own@),
            ),
{
    let g = two_adic_generator(log_height);
    let ghost gl = leaves_val(leaves@);
    let mut points: Vec<Vec<Ext>> = Vec::new();
    let mut values: Vec<Ext> = Vec::new();
    let mut q: usize = 0;
    while q < indices.len()
        invariant
            q <= indices@.len(),
            src@.consistent(),
            pow2(fold as nat) * 4 <= usize::MAX,
            leaves@.len() == indices@.len() * src@.leaves_per_query(),
            own@.len() == fold,
            gl == leaves_val(leaves@),
            g@ == domain_generator(log_height as nat),
            forall|q: nat|
                q < indices@.len() ==> #[trigger] rows_fit(src@, fold as nat, gl, q),
            points@.len() == q,
            values@.len() == q,
            forall|i: int|
                0 <= i < q ==> evals((#[trigger] points@[i])@) == pow_point(
                    domain_point(log_height as nat, indices@[i] as nat),
                    left as nat,
                ),
            forall|i: int| 0 <= i < q ==> (#[trigger] points@[i])@.len() == left,
            forall|i: int|
                0 <= i < q ==> (#[trigger] values@[i])@ == mle_eval(
                    query_row(src@, fold as nat, gl, i as nat),
                    evals(own@),
                ),
        decreases indices@.len() - q,
    {
        let idx: usize = indices[q];
        proof {
            let lpq = src@.leaves_per_query();
            assert((q + 1) * lpq <= indices@.len() * lpq) by (nonlinear_arith)
                requires
                    q + 1 <= indices@.len(),
                    lpq >= 0,
            ;
            assert(rows_fit(src@, fold as nat, gl, q as nat));
        }
        let row = read_query(src, fold, leaves, q);
        let value = eval_at(row.as_slice(), own);
        let x = g.exp_u64(idx as u64);
        let point = map_to_pow_lsb(x, left);
        proof {
            assert(evals(point@).len() == point@.len());
            pow_point_len(x@, left as nat);
        }
        points.push(point);
        values.push(value);
        q = q + 1;
    }
    (points, values)
}

/// The codeword of a polynomial fills its matrix.
proof fn ext_matrix_uniform(f: Seq<E4>, ff: nat, log: nat)
    ensures
        uniform(seq![ext_matrix(f, ff, log)], pow2(log)),
{
    lemma_pow2_pos(ff);
    lemma_pow2_pos(log);
    assert(4 * (pow2(log) * pow2(ff)) == pow2(log) * (4 * pow2(ff))) by (nonlinear_arith);
}

/// Whether trees hold rows of the widths that a source asks for.
pub open spec fn trees_shaped(
    src: SourceVal,
    trees: Seq<TreeVal>,
    fold: nat,
    height: nat,
) -> bool {
    &&& src.consistent()
    &&& trees.len() == src.leaves_per_query()
    &&& forall|i: int| 0 <= i < trees.len() ==> uniform(#[trigger] trees[i], height)
    &&& match src {
        SourceVal::Single(_, base) => {
            trees[0][0].1 == (if base {
                pow2(fold)
            } else {
                pow2(fold) * 4
            })
        },
        SourceVal::Stripes(_, counts, _) => forall|i: int|
            0 <= i < trees.len() ==> stripe_shaped(#[trigger] trees[i], counts[i], pow2(fold)),
    }
}

/// Whether a tree holds `count` matrices of the given width.
pub open spec fn stripe_shaped(tree: TreeVal, count: nat, width: nat) -> bool {
    tree.len() == count && forall|k: int| 0 <= k < tree.len() ==> (#[trigger] tree[k]).1 == width
}

/// The length of an opened row is the width of its matrix.
pub proof fn row_len(m: (Seq<int>, nat), i: int, height: nat)
    requires
        m.0.len() == height * m.1,
        0 <= i < height,
    ensures
        matrix_row(m, i).len() == m.1,
{
    assert(0 <= i * m.1) by (nonlinear_arith)
        requires
            0 <= i,
    ;
    assert((i + 1) * m.1 == i * m.1 + m.1) by (nonlinear_arith);
    assert((i + 1) * m.1 <= height * m.1) by (nonlinear_arith)
        requires
            i + 1 <= height,
    ;
}

/// Opened leaves hold rows of the widths that their source asks for.
proof fn opened_rows_fit(
    src: SourceVal,
    trees: Seq<TreeVal>,
    fold: nat,
    height: nat,
    indices: Seq<int>,
    q: nat,
)
    requires
        trees_shaped(src, trees, fold, height),
        q < indices.len(),
        forall|i: int| 0 <= i < indices.len() ==> 0 <= (#[trigger] indices[i]) < height,
    ensures
        rows_fit(src, fold, opened_leaves(trees, indices), q),
{
    let leaves = opened_leaves(trees, indices);
    let idx = indices[q as int];
    match src {
        SourceVal::Single(_, base) => {
            cell_bound(q as int, 0, indices.len() as int, 1);
            assert(q as int % 1 == 0 && q as int / 1 == q as int);
            assert(leaves[q as int] == opened_leaf(trees[0], idx));
            assert(uniform(trees[0], height));
            row_len(trees[0][0], idx, height);
        },
        SourceVal::Stripes(roots, counts, _) => {
            let per = roots.len();
            assert forall|i: int| 0 <= i < per implies leaf_fits(
                #[trigger] leaf_at(leaves, per, q, i),
                counts[i],
                pow2(fold),
            ) by {
                cell_bound(q as int, i, indices.len() as int, per as int);
                let leaf = leaf_at(leaves, per, q, i);
                assert(leaf == opened_leaf(trees[i], idx));
                assert(uniform(trees[i], height));
                assert(stripe_shaped(trees[i], counts[i], pow2(fold)));
                assert forall|k: int| 0 <= k < leaf.rows.len() implies (
                #[trigger] leaf.rows[k]).len() == pow2(fold) by {
                    assert(trees[i][k].1 == pow2(fold));
                    row_len(trees[i][k], idx, height);
                }
            }
        },
    }
}

/// A prover's schedule is within machine and field limits.
#[verifier::opaque]
pub open spec fn prover_fits(
    n: nat,
    rounds: Seq<RoundConfig>,
    start_rate: nat,
    final_queries: nat,
    final_pow_bits: nat,
    per_start: nat,
) -> bool {
    let m = rounds.len();
    &&& m > 0
    &&& folded_vars(rounds, m as int) <= n <= usize::MAX
    &&& final_pow_bits <= 30
    &&& forall|r: int|
        0 <= r < m ==> {
            &&& (#[trigger] rounds[r]).feasible()
            &&& pow2(rounds[r].folding_factor as nat) * 4 <= usize::MAX
            &&& left_of(n, rounds, r + 1) + rate_of(rounds, start_rate, r) <= 26
            &&& rounds[r].num_queries * (if r == 0 {
                per_start
            } else {
                1
            }) <= usize::MAX
            &&& r + 1 < m ==> 4 * pow2(left_of(n, rounds, r + 1) + rounds[r].log_inv_rate as nat)
                <= usize::MAX
        }
    &&& final_queries * (if m == 1 {
        per_start
    } else {
        1
    }) <= usize::MAX
}

impl Prover {
    /// The schedule fits.
    pub open spec fn fits(self) -> bool {
        prover_fits(
            self.n,
            self.rounds,
            self.start_rate,
            self.final_queries,
            self.final_pow_bits,
            self.start.leaves_per_query(),
        )
    }
}

/// What fitting says of the whole schedule.
pub proof fn prover_overall(pr: Prover)
    requires
        pr.fits(),
    ensures
        pr.m() > 0,
        folded_vars(pr.rounds, pr.m() as int) <= pr.n <= usize::MAX,
        pr.final_pow_bits <= 30,
        pr.final_queries * (if pr.m() == 1 {
            pr.start.leaves_per_query()
        } else {
            1
        }) <= usize::MAX,
{
    reveal(prover_fits);
}

/// What fitting says of round `r`.
pub proof fn prover_round(pr: Prover, r: int)
    requires
        pr.fits(),
        0 <= r < pr.m(),
    ensures
        pr.rounds[r].feasible(),
        pow2(pr.fold(r)) * 4 <= usize::MAX,
        pr.codeword_log(r) <= 26,
        pr.rounds[r].num_queries * (if r == 0 {
            pr.start.leaves_per_query()
        } else {
            1
        }) <= usize::MAX,
        r + 1 < pr.m() ==> 4 * pow2(pr.left(r + 1) + pr.rounds[r].log_inv_rate as nat) <= usize::MAX,
        folded_vars(pr.rounds, r + 1) == folded_vars(pr.rounds, r) + pr.fold(r),
        folded_vars(pr.rounds, r + 1) <= folded_vars(pr.rounds, pr.m() as int),
        folded_vars(pr.rounds, pr.m() as int) <= pr.n <= usize::MAX,
        pr.left(r) == pr.left(r + 1) + pr.fold(r),
{
    reveal(prover_fits);
    folded_vars_monotone(pr.rounds, r + 1, pr.m() as int);
    assert(pr.rounds[r].feasible());
}

/// What one round of the prover gives.
struct RoundOut {
    polys: Vec<SumcheckPoly>,
    pows: Vec<ProofOfWork>,
    root: Digest,
    answers: Vec<Ext>,
    query_pow: ProofOfWork,
    leaves: Vec<LeafOpening>,
}

spec fn round_out_val(o: RoundOut) -> RoundData {
    RoundData {
        msgs: polys_val(o.polys@),
        pows: pows_val(o.pows@),
        root: fvals(o.root@),
        answers: evals(o.answers@),
        query_pow: o.query_pow.0@,
        leaves: leaves_val(o.leaves@),
    }
}

/// The messages and the witnesses of a list of pairs.
fn split_pairs(pairs: Vec<(SumcheckPoly, ProofOfWork)>) -> (r: (Vec<SumcheckPoly>, Vec<
    ProofOfWork,
>))
    ensures
        r.0@.len() == pairs@.len(),
        r.1@.len() == pairs@.len(),
        pows_val(r.1@) == out_pows(pairs@),
        forall|i: int| 0 <= i < pairs@.len() ==> evals((#[trigger] r.0@[i]).0@) == evals(
            pairs@[i].0.0@,
        ),
{
    let mut polys: Vec<SumcheckPoly> = Vec::new();
    let mut pows: Vec<ProofOfWork> = Vec::new();
    let mut i: usize = 0;
    while i < pairs.len()
        invariant
            i <= pairs@.len(),
            polys@.len() == i,
            pows@.len() == i,
            forall|j: int| 0 <= j < i ==> (#[trigger] pows@[j]).0@ == pairs@[j].1.0@,
            forall|j: int| 0 <= j < i ==> evals((#[trigger] polys@[j]).0@) == evals(pairs@[j].0.0@),
        decreases pairs@.len() - i,
    {
        polys.push(SumcheckPoly(copy_exts(pairs[i].0.0.as_slice())));
        pows.push(pairs[i].1);
        i = i + 1;
    }
    proof {
        assert(pows_val(pows@) =~= out_pows(pairs@));
    }
    (polys, pows)
}

/// Folds the variables of round `r`, and returns its messages with their proofs of
/// work.
pub(crate) fn prove_folds<B: RoundBackend>(
    config: &WhirConfig,
    r: usize,
    backend: &mut B,
    all: &mut Vec<Ext>,
    challenger: &mut Transcript,
    Ghost(pr): Ghost<Prover>,
    Ghost(ps): Ghost<PState>,
) -> (res: Option<(Vec<SumcheckPoly>, Vec<ProofOfWork>)>)
    requires
        pr.fits(),
        pr.rounds == config.round_parameters@,
        r < pr.m(),
        old(challenger).wf(),
        old(backend).inv(),
        old(backend).vars() == pr.left(r as int),
        ps.folder == old(backend).val(),
        ps.sponge == old(challenger)@,
        ps.challenges == evals(old(all)@),
    ensures
        final(challenger).wf(),
        match res {
            Some((polys, pows)) => {
                &&& polys@.len() == pr.fold(r as int)
                &&& pows@.len() == pr.fold(r as int)
                &&& final(backend).inv()
                &&& final(backend).vars() == pr.left(r + 1)
                &&& final(backend).start_trees() == old(backend).start_trees()
                &&& final(backend).pending() == old(backend).pending()
                &&& final(all)@.len() == old(all)@.len() + pr.fold(r as int)
                &&& forall|d: RoundData|
                    d.msgs == polys_val(polys@) && d.pows == pows_val(pows@) ==> {
                        let e = #[trigger] pr.folded(ps, d, r as int);
                        &&& pr.honest_folds(ps, d, r as int)
                        &&& final(backend).val() == e.folder
                        &&& final(challenger)@ == e.sponge
                        &&& evals(final(all)@) == e.challenges
                    }
            },
            None => fold_stuck(
                pr.fold_start(ps),
                pr.rounds[r as int].pow_bits@,
                pr.fold(r as int),
            ),
        },
{
    proof {
        prover_round(pr, r as int);
    }
    let cfg = &config.round_parameters[r];
    let ghost start = pr.fold_start(ps);
    let pairs = match backend.fold_variables(
        cfg.folding_factor,
        &cfg.pow_bits,
        challenger,
        all,
    ) {
        None => {
            return None;
        },
        Some(p) => p,
    };
    let ghost list = pairs@;
    let (polys, pows) = split_pairs(pairs);
    proof {
        let gp = out_pows(list);
        let bits = cfg.pow_bits@;
        fold_run_challenges(start, bits, gp, pr.fold(r as int));
        assert(evals(all@).len() == all@.len());
        assert(evals(old(all)@).len() == old(all)@.len());
        assert forall|d: RoundData|
            d.msgs == polys_val(polys@) && d.pows == pows_val(pows@) implies ({
            let e = #[trigger] pr.folded(ps, d, r as int);
            &&& pr.honest_folds(ps, d, r as int)
            &&& backend.val() == e.folder
            &&& challenger@ == e.sponge
            &&& evals(all@) == e.challenges
        }) by {
            assert forall|i: int| 0 <= i < pr.fold(r as int) implies #[trigger] d.msgs[i]
                == fold_run(start, bits, d.pows, i as nat).folder.message() by {
                assert(d.msgs[i] == evals(polys@[i].0@));
                assert(evals(list[i].0.0@) == fold_run(start, bits, gp, i as nat).folder.message());
            }
        }
    }
    Some((polys, pows))
}

/// Finishes round `r` after its folds: commits to the folded polynomial's codeword,
/// answers out-of-domain samples, opens the previous codeword, and batches the new
/// constraints.
fn prove_queries<B: RoundBackend>(
    config: &WhirConfig,
    r: usize,
    left: usize,
    log_height: usize,
    src: &Source,
    polys: Vec<SumcheckPoly>,
    pows: Vec<ProofOfWork>,
    backend: &mut B,
    all: &Vec<Ext>,
    challenger: &mut Transcript,
    Ghost(pr): Ghost<Prover>,
    Ghost(data): Ghost<Seq<RoundData>>,
    Ghost(prev): Ghost<Seq<E4>>,
    Ghost(ps): Ghost<PState>,
) -> (res: Option<RoundOut>)
    requires
        pr.fits(),
        pr.rounds == config.round_parameters@,
        r + 1 < pr.m(),
        left == pr.left(r + 1),
        log_height == pr.codeword_log(r as int),
        src@ == pr.source(data, r as int),
        r == 0 ==> old(backend).start_trees() == pr.open_trees(prev, 0) && old(
            backend,
        ).pending().len() == 0,
        r > 0 ==> old(backend).pending() == pr.open_trees(prev, r as int),
        trees_shaped(
            src@,
            pr.open_trees(prev, r as int),
            pr.fold(r as int),
            pow2(log_height as nat),
        ),
        old(challenger).wf(),
        old(backend).inv(),
        old(backend).vars() == left,
        all@.len() >= pr.fold(r as int),
        ps.folder == old(backend).val(),
        ps.sponge == old(challenger)@,
        ps.challenges == evals(all@),
    ensures
        final(challenger).wf(),
        match res {
            Some(o) => {
                let d = round_out_val(o);
                let e = pr.queried(data, ps, d, r as int);
                &&& o.polys == polys
                &&& o.pows == pows
                &&& pr.honest_queries(prev, ps, d, r as int)
                &&& final(backend).val() == e.folder
                &&& final(backend).inv()
                &&& final(backend).vars() == left
                &&& final(challenger)@ == e.sponge
                &&& final(backend).start_trees() == old(backend).start_trees()
                &&& final(backend).pending() == pr.open_trees(final(backend).val().f, r + 1)
                &&& uniform(final(backend).pending()[0], pow2(pr.codeword_log(r + 1)))
            },
            None => exists|d: RoundData|
                {
                    &&& d.msgs == polys_val(polys@)
                    &&& d.pows == pows_val(pows@)
                    &&& no_grind(
                        #[trigger] pr.pow_sponge(ps.sponge, d, r as int),
                        pr.rounds[r as int].queries_pow_bits as nat,
                    )
                },
        },
{
    proof {
        prover_overall(pr);
        prover_round(pr, r as int);
        prover_round(pr, r + 1);
    }
    let cfg = &config.round_parameters[r];
    let m: usize = config.round_parameters.len();
    let next_ff: usize = config.round_parameters[r + 1].folding_factor;
    let fold: usize = cfg.folding_factor;
    let nq: usize = cfg.num_queries;
    let ghost gf = backend.val().f;
    let next_log: usize = left - next_ff + cfg.log_inv_rate;
    proof {
        lemma2_to64();
        pow2_le(next_log as nat, 26);
        pow2_le(log_height as nat, 26);
        lemma_pow2_pos(next_ff as nat);
        lemma_pow2_pos(next_log as nat);
        assert(next_log == pr.codeword_log(r + 1));
    }
    let ghost tree = seq![ext_matrix(gf, next_ff as nat, next_log as nat)];
    let ghost was_pending = backend.pending();
    let root = backend.commit_codeword(next_ff, cfg.log_inv_rate, left);
    proof {
        assert(pr.open_trees(gf, r + 1) == seq![tree]);
        ext_matrix_uniform(gf, next_ff as nat, next_log as nat);
    }
    let root_felts = digest_felts(&root);
    challenger.observe_slice(&root_felts);
    let ghost s1 = challenger@;
    let (ood_points, answers) = backend.answer_samples(left, cfg.ood_samples, challenger);
    let ghost partial = RoundData {
        msgs: polys_val(polys@),
        pows: pows_val(pows@),
        root: fvals(root@),
        answers: evals(answers@),
        query_pow: 0,
        leaves: Seq::empty(),
    };
    proof {
        assert(evals(answers@).len() == answers@.len());
        assert(challenger@ == pr.pow_sponge(ps.sponge, partial, r as int));
    }
    let query_pow = match challenger.grind(cfg.queries_pow_bits) {
        None => {
            proof {
                assert(no_grind(
                    pr.pow_sponge(ps.sponge, partial, r as int),
                    pr.rounds[r as int].queries_pow_bits as nat,
                ));
            }
            return None;
        },
        Some(w) => w,
    };
    let indices = challenger.sample_indices(log_height, nq);
    let height: usize = pow2_usize(log_height);
    let ghost idx = index_vals(indices@);
    let ghost opened = pr.open_trees(prev, r as int);
    proof {
        crate::felt::felt_canonical(query_pow);
        if r > 0 {
            assert(opened.len() == 1);
            assert(backend.pending()[0] == opened[0]);
            assert(seq![backend.pending()[0]] =~= opened);
        }
    }
    let leaves = if r == 0 {
        backend.open_start(height, &indices)
    } else {
        backend.open_codeword(height, &indices)
    };
    proof {
        if r == 0 {
            assert(backend.pending() =~= seq![tree]);
        } else {
            assert(was_pending.push(tree).skip(1) =~= seq![tree]);
        }
    }
    let ghost d = RoundData {
        msgs: polys_val(polys@),
        pows: pows_val(pows@),
        root: fvals(root@),
        answers: evals(answers@),
        query_pow: query_pow@,
        leaves: leaves_val(leaves@),
    };
    proof {
        assert(pr.pow_sponge(ps.sponge, d, r as int) == pr.pow_sponge(
            ps.sponge,
            partial,
            r as int,
        ));
        assert(idx =~= pr.indices(ps.sponge, d, r as int));
        assert forall|q: nat| q < indices@.len() implies #[trigger] rows_fit(
            src@,
            fold as nat,
            leaves_val(leaves@),
            q,
        ) by {
            opened_rows_fit(src@, opened, fold as nat, height as nat, idx, q);
        }
    }
    let own = vstd::slice::slice_subrange(all.as_slice(), all.len() - fold, all.len());
    proof {
        assert(evals(own@) =~= pr.own_challenges(ps, r as int));
    }
    let (stir_points, stir_values) = stir_constraints(
        src,
        fold,
        log_height,
        left,
        &indices,
        &leaves,
        own,
    );
    proof {
        assert(epoints(stir_points@) =~= pr.stir_points(ps, d, r as int)) by {
            assert forall|q: int| 0 <= q < nq implies epoints(stir_points@)[q] == pr.stir_points(
                ps,
                d,
                r as int,
            )[q] by {
                assert(indices@[q] as int == idx[q]);
                assert(evals(stir_points@[q]@) == pow_point(
                    domain_point(log_height as nat, indices@[q] as nat),
                    left as nat,
                ));
            }
        }
        assert(evals(stir_values@) =~= pr.stir_values(data, ps, d, r as int));
    }
    let batch = challenger.sample_algebra_element();
    backend.add_samples(&ood_points, &answers, batch);
    let a: usize = answers.len();
    let start_coeff = batch.exp_u64(a as u64).times(batch);
    proof {
        assert(e_pow(batch@, (a + 1) as nat) == e_pow(batch@, a as nat) * batch@);
    }
    backend.add_queries(&stir_points, &stir_values, batch, start_coeff);
    let out = RoundOut {
        polys,
        pows,
        root,
        answers,
        query_pow: ProofOfWork(query_pow),
        leaves,
    };
    proof {
        assert(round_out_val(out) == d);
        assert(pr.honest_queries(prev, ps, d, r as int));
    }
    Some(out)
}

/// A prover's run depends on the data of its own rounds only.
proof fn run_ext(pr: Prover, start: PState, a: Seq<RoundData>, b: Seq<RoundData>, r: int)
    requires
        forall|i: int| 0 <= i < r ==> #[trigger] a[i] == b[i],
    ensures
        pr.run(start, a, r) == pr.run(start, b, r),
    decreases r,
{
    if r > 0 {
        run_ext(pr, start, a, b, r - 1);
        assert(a[r - 1] == b[r - 1]);
        if r > 1 {
            assert(a[r - 2] == b[r - 2]);
        }
    }
}

/// Honesty of the first rounds depends on their data only.
proof fn honest_ext(pr: Prover, start: PState, a: Seq<RoundData>, b: Seq<RoundData>, r: int)
    requires
        forall|i: int| 0 <= i < r ==> #[trigger] a[i] == b[i],
        pr.honest_rounds(start, a, r),
    ensures
        pr.honest_rounds(start, b, r),
{
    assert forall|i: int| 0 <= i < r implies #[trigger] pr.honest_round(start, b, i) by {
        assert(pr.honest_round(start, a, i));
        run_ext(pr, start, a, b, i);
        assert(a[i] == b[i]);
    }
}

/// The proofs of work of the first `k` whole rounds, in order.
pub open spec fn flat_pows(data: Seq<RoundData>, k: int) -> Seq<int>
    decreases k,
{
    if k <= 0 {
        Seq::empty()
    } else {
        (flat_pows(data, k - 1) + data[k - 1].pows).push(data[k - 1].query_pow)
    }
}

pub proof fn flat_pows_ext(a: Seq<RoundData>, b: Seq<RoundData>, k: int)
    requires
        forall|i: int| 0 <= i < k ==> #[trigger] a[i] == b[i],
    ensures
        flat_pows(a, k) == flat_pows(b, k),
    decreases k,
{
    if k > 0 {
        flat_pows_ext(a, b, k - 1);
        assert(a[k - 1] == b[k - 1]);
    }
}

proof fn flat_pows_len(pr: Prover, data: Seq<RoundData>, k: int)
    requires
        0 <= k <= data.len(),
        forall|i: int| 0 <= i < k ==> (#[trigger] data[i]).pows.len() == pr.fold(i),
    ensures
        flat_pows(data, k).len() == folded_vars(pr.rounds, k) + k,
    decreases k,
{
    if k > 0 {
        flat_pows_len(pr, data, k - 1);
        assert(data[k - 1].pows.len() == pr.fold(k - 1));
    }
}

/// The proofs of work of round `i`, found back in the whole list.
proof fn flat_pows_find(pr: Prover, data: Seq<RoundData>, k: int, i: int, rest: Seq<int>)
    requires
        0 <= i < k <= data.len(),
        forall|j: int| 0 <= j < k ==> (#[trigger] data[j]).pows.len() == pr.fold(j),
    ensures
        ({
            let all = flat_pows(data, k) + rest;
            let base = (folded_vars(pr.rounds, i) + i) as int;
            &&& all.subrange(base, base + pr.fold(i)) == data[i].pows
            &&& all[base + pr.fold(i)] == data[i].query_pow
        }),
    decreases k,
{
    let all = flat_pows(data, k) + rest;
    let base = (folded_vars(pr.rounds, i) + i) as int;
    flat_pows_len(pr, data, i);
    assert(data[i].pows.len() == pr.fold(i));
    if i == k - 1 {
        assert(all.subrange(base, base + pr.fold(i)) =~= data[i].pows);
    } else {
        let d = data[k - 1];
        let more = d.pows.push(d.query_pow) + rest;
        flat_pows_find(pr, data, k - 1, i, more);
        assert(all =~= flat_pows(data, k - 1) + more);
    }
}

/// Appends proofs of work to a list.
pub(crate) fn append_pows(list: &mut Vec<ProofOfWork>, pows: &Vec<ProofOfWork>)
    ensures
        pows_val(final(list)@) == pows_val(old(list)@) + pows_val(pows@),
{
    let ghost before = list@;
    let ghost new = pows_val(pows@);
    let mut i: usize = 0;
    proof {
        assert(pows_val(before) + new.take(0) =~= pows_val(before));
    }
    while i < pows.len()
        invariant
            i <= pows@.len(),
            new == pows_val(pows@),
            pows_val(list@) == pows_val(before) + new.take(i as int),
        decreases pows@.len() - i,
    {
        let ghost was = list@;
        list.push(pows[i]);
        proof {
            assert(pows_val(list@) =~= pows_val(was).push(new[i as int]));
            assert(pows_val(before) + new.take(i + 1) =~= (pows_val(before) + new.take(
                i as int,
            )).push(new[i as int]));
        }
        i = i + 1;
    }
    proof {
        assert(new.take(i as int) =~= new);
    }
}

/// One more honest round.
proof fn extend_data(
    pr: Prover,
    start: PState,
    before: Seq<RoundData>,
    d: RoundData,
    r: int,
)
    requires
        before.len() == r,
        0 <= r,
        pr.honest_rounds(start, before, r),
        ({
            let ps = pr.run(start, before, r);
            &&& pr.honest_folds(ps, d, r)
            &&& pr.honest_queries(ps.folder.f, pr.folded(ps, d, r), d, r)
        }),
    ensures
        ({
            let data = before.push(d);
            let ps = pr.run(start, before, r);
            &&& pr.honest_rounds(start, data, r + 1)
            &&& pr.run(start, data, r + 1) == pr.queried(before, pr.folded(ps, d, r), d, r)
            &&& flat_pows(data, r + 1) == (flat_pows(before, r) + d.pows).push(d.query_pow)
        }),
{
    let data = before.push(d);
    let ps = pr.run(start, before, r);
    run_ext(pr, start, before, data, r);
    honest_ext(pr, start, before, data, r);
    assert(pr.source(before, r) == pr.source(data, r));
    assert(pr.queried(before, pr.folded(ps, d, r), d, r) == pr.queried(
        data,
        pr.folded(ps, d, r),
        d,
        r,
    ));
    assert(pr.honest_round(start, data, r));
    flat_pows_ext(before, data, r);
}

/// Runs the last round and the final queries, and assembles the proof.
fn finish<B: RoundBackend>(
    config: &WhirConfig,
    r: usize,
    left: usize,
    rate: usize,
    backend: B,
    all: Vec<Ext>,
    challenger: &mut Transcript,
    round_sumcheck_polys: Vec<Vec<SumcheckPoly>>,
    round_ood_answers: Vec<Vec<Ext>>,
    round_commitments: Vec<Digest>,
    round_query_openings: Vec<MerkleOpening>,
    folding_pow: Vec<ProofOfWork>,
    Ghost(pr): Ghost<Prover>,
    Ghost(start): Ghost<PState>,
    Ghost(data): Ghost<Seq<RoundData>>,
) -> (res: Option<WhirProof>)
    requires
        pr.fits(),
        r + 1 == pr.m(),
        pr.rounds == config.round_parameters@,
        pr.final_queries == config.final_queries,
        pr.final_pow_bits == config.final_pow_bits,
        left == pr.left(r as int),
        rate == rate_of(pr.rounds, pr.start_rate, r as int),
        old(challenger).wf(),
        backend.inv(),
        backend.vars() == left,
        data.len() == r,
        pr.honest_rounds(start, data, r as int),
        backend.val() == pr.run(start, data, r as int).folder,
        old(challenger)@ == pr.run(start, data, r as int).sponge,
        evals(all@) == pr.run(start, data, r as int).challenges,
        r == 0 ==> backend.start_trees() == pr.trees && pr.trees.len()
            == pr.start.leaves_per_query(),
        r > 0 ==> backend.pending() == pr.open_trees(backend.val().f, r as int),
        forall|i: int|
            0 <= i < pr.open_trees(backend.val().f, r as int).len() ==> uniform(
                #[trigger] pr.open_trees(backend.val().f, r as int)[i],
                pow2(pr.codeword_log(r as int)),
            ),
        round_sumcheck_polys@.len() == r,
        round_ood_answers@.len() == r,
        round_commitments@.len() == r,
        round_query_openings@.len() == r,
        forall|i: int| 0 <= i < r ==> polys_val(round_sumcheck_polys@[i]@) == (
        #[trigger] data[i]).msgs,
        forall|i: int| 0 <= i < r ==> evals(round_ood_answers@[i]@) == (#[trigger] data[i]).answers,
        forall|i: int| 0 <= i < r ==> fvals(round_commitments@[i]@) == (#[trigger] data[i]).root,
        forall|i: int| 0 <= i < r ==> leaves_val(round_query_openings@[i].leaves@) == (
        #[trigger] data[i]).leaves,
        forall|i: int| 0 <= i < r ==> (#[trigger] data[i]).pows.len() == pr.fold(i),
        pows_val(folding_pow@) == flat_pows(data, r as int),
    ensures
        final(challenger).wf(),
        match res {
            Some(p) => {
                &&& pr.honest(start, p@)
                &&& final(challenger)@ == pr.end(start, pr.all_data(p@)).sponge.after_pow(
                    pr.final_pow_bits,
                    p@.final_pow,
                ).after_draws(pr.final_queries)
            },
            None => pr.stuck(start),
        },
{
    let mut backend = backend;
    let ghost opened = pr.open_trees(backend.val().f, r as int);
    let mut all = all;
    let mut round_query_openings = round_query_openings;
    let mut folding_pow = folding_pow;
    proof {
        prover_overall(pr);
    }
    proof {
        prover_round(pr, r as int);
    }
    let ghost ps = pr.run(start, data, r as int);
    let (polys, pows) = match prove_folds(
        config,
        r,
        &mut backend,
        &mut all,
        challenger,
        Ghost(pr),
        Ghost(ps),
    ) {
        None => {
            proof {
                let any = RoundData {
                    msgs: Seq::empty(),
                    pows: Seq::empty(),
                    root: Seq::empty(),
                    answers: Seq::empty(),
                    query_pow: 0,
                    leaves: Seq::empty(),
                };
                let stuck = data.push(any);
                run_ext(pr, start, data, stuck, r as int);
                honest_ext(pr, start, data, stuck, r as int);
                assert(pr.stuck_after(start, stuck));
            }
            return None;
        },
        Some(t) => t,
    };
    let fold: usize = config.round_parameters[r].folding_factor;
    let log_height: usize = left - fold + rate;
    let ghost last = RoundData {
        msgs: polys_val(polys@),
        pows: pows_val(pows@),
        root: Seq::empty(),
        answers: Seq::empty(),
        query_pow: 0,
        leaves: Seq::empty(),
    };
    let ghost pend = pr.folded(ps, last, r as int);
    backend.settle(true);
    let final_pow = match challenger.grind(config.final_pow_bits) {
        None => {
            proof {
                let stuck = data.push(last);
                run_ext(pr, start, data, stuck, r as int);
                honest_ext(pr, start, data, stuck, r as int);
                assert(pr.end(start, stuck) == pend);
                assert(pr.stuck_after(start, stuck));
            }
            return None;
        },
        Some(w) => w,
    };
    let nq: usize = config.final_queries;
    proof {
        lemma2_to64();
        pow2_le(log_height as nat, 26);
        crate::felt::felt_canonical(final_pow);
    }
    let indices = challenger.sample_indices(log_height, nq);
    let height: usize = pow2_usize(log_height);
    let ghost idx = index_vals(indices@);
    proof {
        assert(idx =~= pr.final_indices(pend, final_pow@));
    }
    proof {
        if r > 0 {
            assert(opened.len() == 1);
            assert(backend.pending()[0] == opened[0]);
            assert(seq![backend.pending()[0]] =~= opened);
        }
    }
    let final_leaves = if r == 0 {
        backend.open_start(height, &indices)
    } else {
        backend.open_codeword(height, &indices)
    };
    let ghost gleaves = leaves_val(final_leaves@);
    round_query_openings.push(MerkleOpening { leaves: final_leaves });
    append_pows(&mut folding_pow, &pows);
    let p = WhirProof {
        round_sumcheck_polys,
        round_ood_answers,
        round_commitments,
        round_query_openings,
        final_poly: backend.into_poly(),
        final_sumcheck_polys: polys,
        folding_pow,
        final_pow: ProofOfWork(final_pow),
    };
    proof {
        let v = p@;
        let found = pr.all_data(v);
        flat_pows_len(pr, data, r as int);
        assert(v.pows == flat_pows(data, r as int) + last.pows);
        assert forall|j: int| 0 <= j < r implies #[trigger] data[j] == found[j] by {
            flat_pows_find(pr, data, r as int, j, last.pows);
            assert(v.polys[j] == polys_val(p.round_sumcheck_polys@[j]@));
            assert(v.ood_answers[j] == evals(p.round_ood_answers@[j]@));
            assert(v.roots[j] == fvals(p.round_commitments@[j]@));
            assert(v.openings[j] == leaves_val(p.round_query_openings@[j].leaves@));
            assert(found[j].pows == data[j].pows);
        }
        run_ext(pr, start, data, found, r as int);
        honest_ext(pr, start, data, found, r as int);
        let fin = found[r as int];
        assert(fin.msgs == last.msgs);
        assert(fin.pows =~= last.pows) by {
            assert(last.pows.len() == pr.fold(r as int));
        }
        assert(pr.folded(ps, fin, r as int) == pend);
        assert(pr.honest_folds(ps, fin, r as int));
        assert(pr.end(start, found) == pend);
        assert(v.openings.last() == gleaves);
        assert(pr.honest_end(ps.folder.f, pend, v.final_pow, v.openings.last()));
    }
    Some(p)
}

/// Runs every round of the prover and assembles the proof. `None` where some proof of
/// work does not exist.
#[verifier::rlimit(40)]
pub(crate) fn prove_from<B: RoundBackend>(
    config: &WhirConfig,
    n: usize,
    src: &Source,
    initial: B,
    challenger: &mut Transcript,
    Ghost(pr): Ghost<Prover>,
) -> (res: Option<WhirProof>)
    requires
        pr.fits(),
        pr.n == n,
        pr.rounds == config.round_parameters@,
        pr.start_rate == config.starting_log_inv_rate,
        pr.final_queries == config.final_queries,
        pr.final_pow_bits == config.final_pow_bits,
        pr.start == src@,
        pr.trees == initial.start_trees(),
        initial.pending().len() == 0,
        trees_shaped(src@, pr.trees, pr.fold(0), pow2(pr.codeword_log(0))),
        initial.inv(),
        initial.vars() == n,
        old(challenger).wf(),
    ensures
        final(challenger).wf(),
        ({
            let start = PState {
                folder: initial.val(),
                sponge: old(challenger)@,
                challenges: Seq::empty(),
            };
            match res {
                Some(p) => {
                    &&& pr.honest(start, p@)
                    &&& final(challenger)@ == pr.end(start, pr.all_data(p@)).sponge.after_pow(
                        pr.final_pow_bits,
                        p@.final_pow,
                    ).after_draws(pr.final_queries)
                },
                None => pr.stuck(start),
            }
        }),
{
    let ghost start = PState {
        folder: initial.val(),
        sponge: challenger@,
        challenges: Seq::empty(),
    };
    let m: usize = config.round_parameters.len();
    let mut backend = initial;
    let mut all: Vec<Ext> = Vec::new();
    let mut left: usize = n;
    let mut rate: usize = config.starting_log_inv_rate;
    let mut round_sumcheck_polys: Vec<Vec<SumcheckPoly>> = Vec::new();
    let mut round_ood_answers: Vec<Vec<Ext>> = Vec::new();
    let mut round_commitments: Vec<Digest> = Vec::new();
    let mut round_query_openings: Vec<MerkleOpening> = Vec::new();
    let mut folding_pow: Vec<ProofOfWork> = Vec::new();
    let mut r: usize = 0;
    let ghost mut data: Seq<RoundData> = Seq::empty();
    proof {
        prover_overall(pr);
        assert(evals(all@) =~= Seq::<E4>::empty());
        assert(pows_val(folding_pow@) =~= Seq::<int>::empty());
        assert(pr.left(0) == n);
    }
    while r + 1 < m
        invariant
            m == pr.m(),
            r < m,
            pr.fits(),
            pr.n == n,
            pr.rounds == config.round_parameters@,
            pr.start_rate == config.starting_log_inv_rate,
            pr.final_queries == config.final_queries,
            pr.final_pow_bits == config.final_pow_bits,
            pr.start == src@,
            pr.trees == backend.start_trees(),
            trees_shaped(src@, pr.trees, pr.fold(0), pow2(pr.codeword_log(0))),
            challenger.wf(),
            start == (PState {
                folder: initial.val(),
                sponge: old(challenger)@,
                challenges: Seq::empty(),
            }),
            data.len() == r,
            left == pr.left(r as int),
            rate == rate_of(pr.rounds, pr.start_rate, r as int),
            all@.len() == n - left,
            backend.inv(),
            backend.vars() == left,
            pr.honest_rounds(start, data, r as int),
            backend.val() == pr.run(start, data, r as int).folder,
            challenger@ == pr.run(start, data, r as int).sponge,
            evals(all@) == pr.run(start, data, r as int).challenges,
            r == 0 ==> backend.pending().len() == 0,
            r > 0 ==> backend.pending() == pr.open_trees(backend.val().f, r as int) && uniform(
                backend.pending()[0],
                pow2(pr.codeword_log(r as int)),
            ),
            round_sumcheck_polys@.len() == r,
            round_ood_answers@.len() == r,
            round_commitments@.len() == r,
            round_query_openings@.len() == r,
            forall|i: int| 0 <= i < r ==> polys_val(round_sumcheck_polys@[i]@) == (
            #[trigger] data[i]).msgs,
            forall|i: int| 0 <= i < r ==> evals(round_ood_answers@[i]@) == (
            #[trigger] data[i]).answers,
            forall|i: int| 0 <= i < r ==> fvals(round_commitments@[i]@) == (
            #[trigger] data[i]).root,
            forall|i: int| 0 <= i < r ==> leaves_val(round_query_openings@[i].leaves@) == (
            #[trigger] data[i]).leaves,
            forall|i: int| 0 <= i < r ==> (#[trigger] data[i]).pows.len() == pr.fold(i),
            pows_val(folding_pow@) == flat_pows(data, r as int),
        decreases m - r,
    {
        proof {
            prover_round(pr, r as int);
        }
        let ghost ps = pr.run(start, data, r as int);
        let (polys, pows) = match prove_folds(
            config,
            r,
            &mut backend,
            &mut all,
            challenger,
            Ghost(pr),
            Ghost(ps),
        ) {
            None => {
                proof {
                    let any = RoundData {
                        msgs: Seq::empty(),
                        pows: Seq::empty(),
                        root: Seq::empty(),
                        answers: Seq::empty(),
                        query_pow: 0,
                        leaves: Seq::empty(),
                    };
                    let stuck = data.push(any);
                    run_ext(pr, start, data, stuck, r as int);
                    honest_ext(pr, start, data, stuck, r as int);
                    assert(pr.stuck_after(start, stuck));
                }
                return None;
            },
            Some(t) => t,
        };
        backend.settle(false);
        let fold: usize = config.round_parameters[r].folding_factor;
        left = left - fold;
        let log_height: usize = left + rate;
        let ghost partial = RoundData {
            msgs: polys_val(polys@),
            pows: pows_val(pows@),
            root: Seq::empty(),
            answers: Seq::empty(),
            query_pow: 0,
            leaves: Seq::empty(),
        };
        let ghost ps1 = pr.folded(ps, partial, r as int);
        let ghost gpolys = polys_val(polys@);
        let ghost gpows = pows_val(pows@);
        let single;
        let open_src: &Source = if r == 0 {
            src
        } else {
            single = Source::Single(&round_commitments[r - 1], false);
            &single
        };
        proof {
            if r > 0 {
                assert(fvals(round_commitments@[r - 1]@) == data[r - 1].root);
            }
            assert(open_src@ == pr.source(data, r as int));
            assert(trees_shaped(
                open_src@,
                pr.open_trees(ps.folder.f, r as int),
                pr.fold(r as int),
                pow2(log_height as nat),
            ));
        }
        let out = match prove_queries(
            config,
            r,
            left,
            log_height,
            open_src,
            polys,
            pows,
            &mut backend,
            &all,
            challenger,
            Ghost(pr),
            Ghost(data),
            Ghost(ps.folder.f),
            Ghost(ps1),
        ) {
            None => {
                proof {
                    let d = choose|d: RoundData|
                        {
                            &&& d.msgs == gpolys
                            &&& d.pows == gpows
                            &&& no_grind(
                                #[trigger] pr.pow_sponge(ps1.sponge, d, r as int),
                                pr.rounds[r as int].queries_pow_bits as nat,
                            )
                        };
                    let stuck = data.push(d);
                    run_ext(pr, start, data, stuck, r as int);
                    honest_ext(pr, start, data, stuck, r as int);
                    assert(pr.folded(ps, d, r as int) == ps1);
                    assert(pr.stuck_after(start, stuck));
                }
                return None;
            },
            Some(o) => o,
        };
        let ghost d = round_out_val(out);
        let ghost before = data;
        proof {
            assert(pr.folded(ps, d, r as int) == ps1);
            extend_data(pr, start, before, d, r as int);
            data = before.push(d);
        }
        append_pows(&mut folding_pow, &out.pows);
        let ghost was = folding_pow@;
        folding_pow.push(out.query_pow);
        proof {
            assert(pows_val(folding_pow@) =~= pows_val(was).push(d.query_pow));
        }
        round_sumcheck_polys.push(out.polys);
        round_ood_answers.push(out.answers);
        round_commitments.push(out.root);
        round_query_openings.push(MerkleOpening { leaves: out.leaves });
        rate = config.round_parameters[r].log_inv_rate;
        r = r + 1;
    }
    proof {
        prover_round(pr, r as int);
        let ps = pr.run(start, data, r as int);
        let vals = pr.open_trees(ps.folder.f, r as int);
        assert forall|i: int| 0 <= i < vals.len() implies uniform(
            #[trigger] vals[i],
            pow2(pr.codeword_log(r as int)),
        ) by {
            if r > 0 {
                assert(vals.len() == 1);
                assert(backend.pending()[0] == vals[0]);
            }
        }
    }
    finish(
        config,
        r,
        left,
        rate,
        backend,
        all,
        challenger,
        round_sumcheck_polys,
        round_ood_answers,
        round_commitments,
        round_query_openings,
        folding_pow,
        Ghost(pr),
        Ghost(start),
        Ghost(data),
    )
}

/// The values of `f` at the first `k` out-of-domain points that the transcript gives.
pub open spec fn honest_answers(s: Sponge, f: Seq<E4>, vars: nat, k: nat) -> Seq<E4>
    decreases k,
{
    if k == 0 {
        Seq::empty()
    } else {
        let prev = honest_answers(s, f, vars, (k - 1) as nat);
        prev.push(mle_eval(f, ood_sponge(s, prev, vars, prev.len()).drawn_exts(vars)))
    }
}

/// Honest answers are determined by the transcript and the polynomial.
pub proof fn honest_answers_unique(s: Sponge, f: Seq<E4>, answers: Seq<E4>, vars: nat, k: nat)
    requires
        answers_honest(s, f, answers, vars),
        k <= answers.len(),
    ensures
        answers.take(k as int) == honest_answers(s, f, vars, k),
    decreases k,
{
    if k == 0 {
        assert(answers.take(0) =~= Seq::<E4>::empty());
    } else {
        let j = (k - 1) as nat;
        honest_answers_unique(s, f, answers, vars, j);
        let prev = honest_answers(s, f, vars, j);
        assert(prev.len() == j);
        assert forall|i: int| 0 <= i < j implies #[trigger] prev[i] == answers[i] by {
            assert(answers.take(j as int)[i] == answers[i]);
        }
        ood_ext(s, prev, answers, vars, j);
        assert(answers[j as int] == mle_eval(f, ood_points_of(s, answers, vars)[j as int]));
        assert(answers.take(k as int) =~= prev.push(answers[j as int]));
    }
}

/// The honest answers are honest.
pub proof fn honest_answers_hold(s: Sponge, f: Seq<E4>, vars: nat, k: nat)
    ensures
        honest_answers(s, f, vars, k).len() == k,
        answers_honest(s, f, honest_answers(s, f, vars, k), vars),
    decreases k,
{
    if k > 0 {
        let j = (k - 1) as nat;
        honest_answers_hold(s, f, vars, j);
        let prev = honest_answers(s, f, vars, j);
        let now = honest_answers(s, f, vars, k);
        assert forall|i: int| 0 <= i < k implies #[trigger] now[i] == mle_eval(
            f,
            ood_points_of(s, now, vars)[i],
        ) by {
            ood_ext(s, prev, now, vars, i as nat);
            if i < j {
                assert(now[i] == prev[i]);
                assert(prev[i] == mle_eval(f, ood_points_of(s, prev, vars)[i]));
            }
        }
    }
}

} // verus!
