//! The folding sumcheck run to its end.
use vstd::prelude::*;
use vstd::arithmetic::power2::{lemma2_to64, pow2};
use crate::ext::{all_canon, epoints, evals, fvals, lift, Ext, E4};
use crate::felt::Felt;
use crate::mle::{dot, eq_tab, esum, fold_canon, round_keeps_claim};
use crate::transcript::{Sponge, Transcript};
use crate::whir::config::pow_bits_at;
use crate::whir::interleaved::seat_folder;
use crate::whir::messages::{ProofOfWork, SumcheckPoly};
use crate::whir::sumcheck::{absorbed, batch_coeffs, batched_claim, eq_tables, fold_messages,
    fold_pows_found, fold_run, no_grind, out_pows, pow_sponge, FoldRun, FolderVal};

verus! {

/// What the folding sumcheck gives.
#[derive(Debug)]
pub struct WhirFold {
    /// Every message with its proof of work.
    pub round_polys: Vec<(SumcheckPoly, ProofOfWork)>,
    /// Every challenge.
    pub folding_randomness: Vec<Ext>,
    /// The claim at the end.
    pub final_claim: Ext,
    /// The polynomial at the challenges.
    pub folded_f: Ext,
    /// The weight at the challenges.
    pub folded_weight: Ext,
}

/// The folder and the transcript from which every variable is folded: the claim batched
/// with the out-of-domain answers, and the weight with the equality tables of their points.
pub open spec fn fold_seat(
    s: Sponge,
    f: Seq<E4>,
    point: Seq<E4>,
    points: Seq<Seq<E4>>,
    answers: Seq<E4>,
    claim: E4,
) -> FoldRun {
    let batch = s.drawn_ext();
    let coeffs = batch_coeffs(batch, batch, answers.len());
    FoldRun {
        folder: FolderVal {
            f,
            w: absorbed(eq_tab(point), eq_tables(points), coeffs, answers.len() as int),
            claim: batched_claim(claim, answers, coeffs, answers.len() as int),
        },
        sponge: s.after_draw_ext(),
        challenges: Seq::empty(),
    }
}

proof fn free_work(s: Sponge)
    ensures
        s.pow_ok(0, 0),
{
    reveal(Sponge::pow_ok);
    reveal(Sponge::drawn_bits);
    lemma2_to64();
}

/// Folds every variable, without proof of work.
pub fn prove_fold(
    values: &Vec<Felt>,
    query_point: &Vec<Ext>,
    ood_points: &Vec<Vec<Ext>>,
    ood_answers: &Vec<Ext>,
    claim: Ext,
    challenger: &mut Transcript,
) -> (r: WhirFold)
    requires
        old(challenger).wf(),
        values@.len() == pow2(query_point@.len()),
        ood_points@.len() == ood_answers@.len(),
        forall|i: int|
            0 <= i < ood_points@.len() ==> (#[trigger] ood_points@[i])@.len() == query_point@.len(),
    ensures
        final(challenger).wf(),
        ({
            let n = query_point@.len();
            let start = fold_seat(
                old(challenger)@,
                lift(fvals(values@)),
                evals(query_point@),
                epoints(ood_points@),
                evals(ood_answers@),
                claim@,
            );
            let pows = out_pows(r.round_polys@);
            let end = fold_run(start, Seq::empty(), pows, n);
            &&& r.round_polys@.len() == n
            &&& fold_pows_found(start, Seq::empty(), pows, n)
            &&& fold_messages(start, Seq::empty(), pows, r.round_polys@)
            &&& evals(r.folding_randomness@) == end.challenges
            &&& r.final_claim@ == end.folder.claim
            &&& seq![r.folded_f@] == end.folder.f
            &&& seq![r.folded_weight@] == end.folder.w
            &&& final(challenger)@ == end.sponge
        }),
{
    let n: usize = query_point.len();
    let mut folder = seat_folder(
        values,
        query_point,
        claim,
        ood_points,
        ood_answers,
        challenger,
    );
    let ghost start = FoldRun {
        folder: folder@,
        sponge: challenger@,
        challenges: Seq::empty(),
    };
    let bits: Vec<usize> = Vec::new();
    let mut folding_randomness: Vec<Ext> = Vec::new();
    proof {
        assert(evals(folding_randomness@) =~= Seq::<E4>::empty());
        assert(bits@ =~= Seq::<usize>::empty());
        assert(evals(ood_answers@).len() == ood_answers@.len());
    }
    let round_polys = match folder.fold_variables(n, &bits, challenger, &mut folding_randomness) {
        Some(p) => p,
        None => {
            proof {
                let pows = choose|pows: Seq<int>|
                    {
                        &&& (#[trigger] pows.len()) < n
                        &&& fold_pows_found(start, bits@, pows, pows.len())
                        &&& no_grind(
                            pow_sponge(start, bits@, pows, pows.len()),
                            pow_bits_at(bits@, pows.len() as int),
                        )
                    };
                free_work(pow_sponge(start, bits@, pows, pows.len()));
                assert(false);
            }
            Vec::new()
        },
    };
    proof {
        lemma2_to64();
        assert(folder.f_vec@.len() == 1);
        assert(evals(folder.f_vec@) =~= seq![folder.f_vec@[0]@]);
        assert(evals(folder.weight@) =~= seq![folder.weight@[0]@]);
    }
    WhirFold {
        round_polys,
        folding_randomness,
        final_claim: folder.claimed_sum,
        folded_f: folder.f_vec[0],
        folded_weight: folder.weight[0],
    }
}

/// Folding keeps the claim: where the claim is the inner product of weight and polynomial,
/// it still is after any number of folds, whatever the challenges.
pub proof fn folds_keep_claim(start: FoldRun, bits: Seq<usize>, pows: Seq<int>, n: nat, k: nat)
    requires
        k <= n,
        start.folder.f.len() == pow2(n),
        start.folder.w.len() == pow2(n),
        all_canon(start.folder.f),
        all_canon(start.folder.w),
        start.folder.honest(),
    ensures
        ({
            let at = fold_run(start, bits, pows, k).folder;
            &&& at.honest()
            &&& at.f.len() == pow2((n - k) as nat)
            &&& at.w.len() == pow2((n - k) as nat)
            &&& all_canon(at.f)
            &&& all_canon(at.w)
        }),
    decreases k,
{
    if k > 0 {
        folds_keep_claim(start, bits, pows, n, (k - 1) as nat);
        let prev = fold_run(start, bits, pows, (k - 1) as nat).folder;
        let at = fold_run(start, bits, pows, k);
        let r = at.challenges.last();
        vstd::arithmetic::power2::lemma_pow2_unfold((n - (k - 1)) as nat);
        round_keeps_claim(prev.f, prev.w, r);
        fold_canon(prev.f, r);
        fold_canon(prev.w, r);
    }
}

/// Folding every variable reduces the claim to one product: the weight times the
/// polynomial, both at the challenges.
pub proof fn folds_reduce_the_claim(start: FoldRun, bits: Seq<usize>, pows: Seq<int>, n: nat)
    requires
        start.folder.f.len() == pow2(n),
        start.folder.w.len() == pow2(n),
        all_canon(start.folder.f),
        all_canon(start.folder.w),
        start.folder.honest(),
    ensures
        ({
            let end = fold_run(start, bits, pows, n).folder;
            end.claim == end.w[0] * end.f[0]
        }),
{
    folds_keep_claim(start, bits, pows, n, n);
    let end = fold_run(start, bits, pows, n).folder;
    lemma2_to64();
    let g = |i: int| end.w[i] * end.f[i];
    assert(dot(end.w, end.f) == esum(1, g));
    assert(esum(1, g) == esum(0, g) + g(0));
    crate::ext::mul_canon(end.w[0], end.f[0]);
    crate::ext::add_zero(g(0));
}

} // verus!
