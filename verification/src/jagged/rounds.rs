//! The prover of an opening over several commitments, under either scheme.
//!
//! Stacks of stripes open where every commitment keeps its stripes; with any missing, the
//! other scheme opens them all.
use vstd::prelude::*;
use vstd::arithmetic::power2::pow2;
use crate::arith::{ceil_log2, ceil_log2_is_least, ceil_log2_of, pow2_usize, twos_in, twos_in_pow2};
use crate::ext::{evals, fvals, Ext, E4};
use crate::felt::Felt;
use crate::jagged::bundle::JaggedBasefoldBundleGeneric;
use crate::jagged::layout::{concatenate_rounds, layout_of, round_vals, rounds_fit, total,
    JaggedOpenRound, RoundVal};
use crate::jagged::linear::{bundle_answer, bundle_describes, core_proved, laid_out,
    prove_jagged_basefold_linear_core, prove_jagged_basefold_rounds, rounds_held, DenseLayout};
use crate::jagged::opening::{areas_with, effective_area, group_dim, missing, open_dim};
use crate::jagged::packing::nats;
use crate::jagged::prove::{all_of, assemble_bundle, stripes_at_hand};
use crate::merkle::Digest;
use crate::transcript::{Sponge, Transcript};
use crate::whir::jagged::{JaggedCommit, JaggedWhirProverData};
use crate::whir::schedule::is_core_schedule;
use crate::whir::stacked::StackedWhirProver;

verus! {

/// What is kept of one commitment.
pub struct KeptRound<'a> {
    /// The commitment's root.
    pub root: Digest,
    /// The committed cells.
    pub cells: &'a Vec<Felt>,
    /// The logarithm of the height of a stripe.
    pub log_stacking_height: u32,
    /// The stripes and their tree, where they are kept.
    pub whir_data: Option<&'a JaggedWhirProverData>,
}

/// Which commitments keep their stripes.
pub open spec fn kept_flags(kept: Seq<KeptRound>) -> Seq<bool> {
    Seq::new(kept.len(), |i: int| kept[i].whir_data is Some)
}

/// What is kept of the stripes of all commitments.
pub open spec fn kept_datas<'a>(kept: Seq<KeptRound<'a>>) -> Seq<&'a JaggedWhirProverData> {
    Seq::new(kept.len(), |i: int| kept[i].whir_data->0)
}

/// The cells of the first `k` commitments, one after the other.
pub open spec fn cells_to(kept: Seq<KeptRound>, k: int) -> Seq<int>
    decreases k,
{
    if k <= 0 {
        Seq::empty()
    } else {
        cells_to(kept, k - 1) + fvals(kept[k - 1].cells@)
    }
}

/// The cells of all commitments, one after the other, then zeros.
pub open spec fn padded_cells_of(kept: Seq<KeptRound>, log: nat) -> Seq<int> {
    let all = cells_to(kept, kept.len() as int);
    all + Seq::new((pow2(log) - all.len()) as nat, |i: int| 0int)
}

/// The numbers of cells of all commitments.
pub open spec fn round_areas(rounds: Seq<JaggedOpenRound>) -> Seq<usize> {
    Seq::new(rounds.len(), |i: int| rounds[i].area)
}

/// Whether a bundle was made in turn under the other scheme: the reduction and the
/// evaluation of the layout on the laid columns and the cells of all commitments, then the
/// opening at the reduced point, extended to address every stripe.
pub open spec fn other_opened<
    R,
    E,
    B,
    F: Fn(&DenseLayout, &Vec<Ext>, Transcript) -> (R, Vec<Ext>, Transcript),
    G: Fn(&Vec<usize>, &Vec<Ext>, &Vec<Ext>, &Vec<Ext>, Transcript) -> (E, Transcript),
    H: Fn(Vec<Ext>, Transcript) -> (B, Transcript),
>(
    s: Sponge,
    rounds: Seq<JaggedOpenRound>,
    kept: Seq<KeptRound>,
    z_row: &Vec<Ext>,
    reduce: F,
    evaluate: G,
    open: H,
    reduction: R,
    jagged_eval: E,
    opening: B,
    end: Sponge,
) -> bool {
    let laid = laid_out(rounds, evals(z_row@));
    let dim = open_dim(nats(round_areas(rounds)), kept[0].log_stacking_height as nat);
    exists|context: DenseLayout|
        {
            &&& context.layout@ == laid
            &&& fvals(context.dense@) == padded_cells_of(kept, ceil_log2_of(laid.base))
            &&& #[trigger] core_proved(
                s,
                context,
                context.layout.offsets@,
                z_row,
                pow2(dim),
                reduce,
                evaluate,
                open,
                reduction,
                jagged_eval,
                opening,
                end,
            )
        }
}

/// Whether every commitment has as many cells as its columns and padding take.
pub open spec fn cells_kept(rounds: Seq<JaggedOpenRound>, kept: Seq<KeptRound>) -> bool {
    &&& kept.len() == rounds.len()
    &&& forall|i: int| 0 <= i < kept.len() ==> (#[trigger] kept[i]).cells@.len() == rounds[i].area
}

proof fn cells_len(rounds: Seq<JaggedOpenRound>, kept: Seq<KeptRound>, z_row: Seq<E4>, k: int)
    requires
        cells_kept(rounds, kept),
        0 <= k <= kept.len(),
    ensures
        cells_to(kept, k).len() == layout_of(round_vals(rounds), z_row, k).base,
        layout_of(round_vals(rounds), z_row, k).base == total(nats(round_areas(rounds)).take(k)),
    decreases k,
{
    let areas = nats(round_areas(rounds));
    if k > 0 {
        cells_len(rounds, kept, z_row, k - 1);
        assert(kept[k - 1].cells@.len() == rounds[k - 1].area);
        assert(areas.take(k).drop_last() =~= areas.take(k - 1));
        assert(areas.take(k).last() == rounds[k - 1].area as nat);
    } else {
        assert(areas.take(0) =~= Seq::<nat>::empty());
    }
}

fn flags_of(kept: &Vec<KeptRound>) -> (r: Vec<bool>)
    ensures
        r@ == kept_flags(kept@),
{
    let mut r: Vec<bool> = Vec::new();
    let mut i: usize = 0;
    while i < kept.len()
        invariant
            i <= kept@.len(),
            r@.len() == i,
            forall|j: int| 0 <= j < i ==> #[trigger] r@[j] == (kept@[j].whir_data is Some),
        decreases kept@.len() - i,
    {
        r.push(kept[i].whir_data.is_some());
        i = i + 1;
    }
    proof {
        assert(r@ =~= kept_flags(kept@));
    }
    r
}

fn datas_of<'a>(kept: &Vec<KeptRound<'a>>) -> (r: Vec<&'a JaggedWhirProverData>)
    requires
        all_of(kept_flags(kept@)),
    ensures
        r@ == kept_datas(kept@),
{
    let mut r: Vec<&'a JaggedWhirProverData> = Vec::new();
    let mut i: usize = 0;
    while i < kept.len()
        invariant
            i <= kept@.len(),
            all_of(kept_flags(kept@)),
            r@.len() == i,
            forall|j: int| 0 <= j < i ==> #[trigger] r@[j] == kept@[j].whir_data->0,
        decreases kept@.len() - i,
    {
        proof {
            assert(kept_flags(kept@)[i as int]);
        }
        match kept[i].whir_data {
            Some(d) => {
                r.push(d);
            },
            None => {},
        }
        i = i + 1;
    }
    proof {
        assert(r@ =~= kept_datas(kept@));
    }
    r
}

fn pad_cells(kept: &Vec<KeptRound>, log: usize) -> (r: Vec<Felt>)
    requires
        pow2(log as nat) <= usize::MAX,
        cells_to(kept@, kept@.len() as int).len() <= pow2(log as nat),
    ensures
        fvals(r@) == padded_cells_of(kept@, log as nat),
{
    let mut r: Vec<Felt> = Vec::new();
    let mut i: usize = 0;
    proof {
        assert(fvals(r@) =~= cells_to(kept@, 0));
    }
    while i < kept.len()
        invariant
            i <= kept@.len(),
            fvals(r@) == cells_to(kept@, i as int),
        decreases kept@.len() - i,
    {
        let ghost before = r@;
        let mut part = crate::transcript::copy_felts(kept[i].cells);
        let ghost added = part@;
        r.append(&mut part);
        proof {
            assert(added == kept@[i as int].cells@);
            assert(fvals(r@) =~= fvals(before) + fvals(added));
        }
        i = i + 1;
    }
    let size: usize = pow2_usize(log);
    let zero = Felt::zero();
    let n: usize = r.len();
    let ghost first = r@;
    proof {
        assert(fvals(r@).len() == r@.len());
    }
    let mut j: usize = n;
    while j < size
        invariant
            n <= j <= size,
            first.len() == n,
            zero@ == 0,
            r@.len() == j,
            forall|k: int| 0 <= k < n ==> #[trigger] r@[k] == first[k],
            forall|k: int| n <= k < j ==> (#[trigger] r@[k])@ == 0,
        decreases size - j,
    {
        r.push(zero);
        j = j + 1;
    }
    proof {
        assert(fvals(r@) =~= padded_cells_of(kept@, log as nat));
    }
    r
}

fn areas_of(rounds: &Vec<JaggedOpenRound>) -> (r: Vec<usize>)
    ensures
        r@ == round_areas(rounds@),
{
    let mut r: Vec<usize> = Vec::new();
    let mut i: usize = 0;
    while i < rounds.len()
        invariant
            i <= rounds@.len(),
            r@.len() == i,
            forall|j: int| 0 <= j < i ==> #[trigger] r@[j] == rounds@[j].area,
        decreases rounds@.len() - i,
    {
        r.push(rounds[i].area);
        i = i + 1;
    }
    proof {
        assert(r@ =~= round_areas(rounds@));
    }
    r
}

/// The roots of all commitments.
pub open spec fn all_roots(kept: Seq<KeptRound>) -> Seq<Digest> {
    Seq::new(kept.len(), |i: int| kept[i].root)
}

fn roots_before_last(kept: &Vec<KeptRound>) -> (r: Vec<Digest>)
    requires
        kept@.len() > 0,
    ensures
        r@ == all_roots(kept@).drop_last(),
{
    let mut r: Vec<Digest> = Vec::new();
    let mut i: usize = 0;
    while i < kept.len() - 1
        invariant
            kept@.len() > 0,
            i <= kept@.len() - 1,
            r@.len() == i,
            forall|j: int| 0 <= j < i ==> #[trigger] r@[j] == kept@[j].root,
        decreases kept@.len() - i,
    {
        r.push(kept[i].root);
        i = i + 1;
    }
    proof {
        assert(r@ =~= all_roots(kept@).drop_last());
    }
    r
}

/// What the prover of stacks asks of the commitments that it opens.
pub open spec fn stacks_fit(
    prover: StackedWhirProver,
    rounds: Seq<RoundVal>,
    kept: Seq<KeptRound>,
) -> bool {
    &&& 3 <= prover.log_stacking_height <= 25
    &&& is_core_schedule(prover.config, prover.log_stacking_height as nat)
    &&& 71 * rounds.len() <= usize::MAX
    &&& rounds_held(prover, rounds, kept_datas(kept))
    &&& prover.log_stacking_height == kept_datas(kept)[0].log_stacking_height
}

/// Proves an opening over the commitments of several rounds, the last of which is the main
/// one: lays their columns end to end, runs the reduction and the evaluation of the layout
/// on the cells of all, opens the reduced point, and assembles the bundle. Where every
/// commitment keeps its stripes, a prover of the production schedule opens them, the bundle
/// has a placeholder for the other scheme, and the answer is `None` where some proof of
/// work does not exist; else the other scheme opens.
pub fn prove_jagged_basefold_rounds_generic<R, E, B, F, G, H>(
    rounds: &Vec<JaggedOpenRound>,
    kept: &Vec<KeptRound>,
    prover: &StackedWhirProver,
    commit: JaggedCommit,
    z_row: &Vec<Ext>,
    challenger: &mut Transcript,
    placeholder: B,
    reduce: F,
    evaluate: G,
    open: H,
) -> (r: Option<JaggedBasefoldBundleGeneric<R, E, B>>) where
    F: Fn(&DenseLayout, &Vec<Ext>, Transcript) -> (R, Vec<Ext>, Transcript),
    G: Fn(&Vec<usize>, &Vec<Ext>, &Vec<Ext>, &Vec<Ext>, Transcript) -> (E, Transcript),
    H: Fn(Vec<Ext>, Transcript) -> (B, Transcript),

    requires
        old(challenger).wf(),
        rounds@.len() > 0,
        pow2(z_row@.len()) <= usize::MAX,
        rounds_fit(round_vals(rounds@), evals(z_row@)),
        pow2(ceil_log2_of(laid_out(rounds@, evals(z_row@)).base)) <= usize::MAX,
        cells_kept(rounds@, kept@),
        pow2(
            open_dim(nats(round_areas(rounds@)), kept@[0].log_stacking_height as nat),
        ) <= usize::MAX,
        all_of(kept_flags(kept@)) ==> stacks_fit(*prover, round_vals(rounds@), kept@),
        forall|c: &DenseLayout, z: &Vec<Ext>, t: Transcript|
            t.wf() ==> #[trigger] reduce.requires((c, z, t)),
        forall|c: &DenseLayout, z: &Vec<Ext>, t: Transcript, x: R, p: Vec<Ext>, u: Transcript|
            t.wf() && #[trigger] reduce.ensures((c, z, t), (x, p, u)) ==> u.wf(),
        forall|o: &Vec<usize>, z: &Vec<Ext>, b: &Vec<Ext>, t: Transcript|
            t.wf() ==> #[trigger] evaluate.requires((o, z_row, z, b, t)),
        forall|o: &Vec<usize>, z: &Vec<Ext>, b: &Vec<Ext>, t: Transcript, x: E, u: Transcript|
            t.wf() && #[trigger] evaluate.ensures((o, z_row, z, b, t), (x, u)) ==> u.wf(),
        forall|p: Vec<Ext>, t: Transcript| t.wf() ==> #[trigger] open.requires((p, t)),
        forall|p: Vec<Ext>, t: Transcript, x: B, u: Transcript|
            t.wf() && #[trigger] open.ensures((p, t), (x, u)) ==> u.wf(),
    ensures
        final(challenger).wf(),
        all_of(kept_flags(kept@)) ==> bundle_answer(
            old(challenger)@,
            *prover,
            rounds@,
            kept_datas(kept@),
            commit,
            z_row,
            placeholder,
            reduce,
            evaluate,
            r,
            final(challenger)@,
        ),
        !all_of(kept_flags(kept@)) ==> {
            &&& r is Some
            &&& bundle_describes(r->0, rounds@, all_roots(kept@), commit, evals(z_row@))
            &&& r->0.whir_proof is None
            &&& other_opened(
                old(challenger)@,
                rounds@,
                kept@,
                z_row,
                reduce,
                evaluate,
                open,
                r->0.reduction,
                r->0.jagged_eval,
                r->0.basefold_proof,
                final(challenger)@,
            )
        },
{
    let ghost s = challenger@;
    let flags = flags_of(kept);
    if stripes_at_hand(&flags) {
        let datas = datas_of(kept);
        return prove_jagged_basefold_rounds(
            rounds,
            &datas,
            prover,
            commit,
            z_row,
            challenger,
            placeholder,
            reduce,
            evaluate,
        );
    }
    let layout = concatenate_rounds(rounds, z_row.as_slice());
    let ghost laid = layout@;
    let ghost areas = nats(round_areas(rounds@));
    proof {
        assert(laid == laid_out(rounds@, evals(z_row@)));
        cells_len(rounds@, kept@, evals(z_row@), rounds@.len() as int);
        ceil_log2_is_least(layout.total_values as nat);
        assert(areas.take(rounds@.len() as int) =~= areas);
        vstd::arithmetic::power2::lemma_pow2_pos(
            open_dim(areas, kept@[0].log_stacking_height as nat),
        );
    }
    let log: usize = ceil_log2(layout.total_values);
    let dense = pad_cells(kept, log);
    let area: usize = effective_area(&areas_of(rounds), kept[0].log_stacking_height);
    let context = DenseLayout { layout, dense };
    let (reduction, jagged_eval, opening) = prove_jagged_basefold_linear_core(
        &context,
        &context.layout.offsets,
        z_row,
        area,
        challenger,
        reduce,
        evaluate,
        open,
    );
    proof {
        assert(other_opened(
            s,
            rounds@,
            kept@,
            z_row,
            reduce,
            evaluate,
            open,
            reduction,
            jagged_eval,
            opening,
            challenger@,
        ));
    }
    let preceding = roots_before_last(kept);
    let b = assemble_bundle(
        reduction,
        opening,
        None,
        jagged_eval,
        context.layout,
        rounds,
        commit,
        preceding,
    );
    Some(b)
}

/// Both sides open at one point and from one transcript: from a reduced point, the prover
/// under the other scheme draws as many coordinates as a verifier that knows the areas of
/// the same commitments.
pub proof fn both_sides_open_at_one_point(
    rounds: Seq<JaggedOpenRound>,
    preceding: Seq<(Digest, usize)>,
    commit: JaggedCommit,
    s: Sponge,
    z: Seq<E4>,
)
    requires
        round_areas(rounds) == areas_with(preceding, commit.area),
    ensures
        ({
            let lsh = commit.log_stacking_height as nat;
            let area = pow2(open_dim(nats(round_areas(rounds)), lsh));
            let proved = missing(z.len(), twos_in(area));
            let verified = missing(z.len(), group_dim(preceding, commit));
            &&& z + s.drawn_exts(proved) == z + s.drawn_exts(verified)
            &&& s.after_draw_exts(proved) == s.after_draw_exts(verified)
        }),
{
    twos_in_pow2(
        open_dim(nats(round_areas(rounds)), commit.log_stacking_height as nat),
    );
}

} // verus!
