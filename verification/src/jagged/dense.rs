//! The cells of all commitments as one polynomial, and its value at the opened point.
use vstd::prelude::*;
use vstd::arithmetic::power2::{lemma_pow2_adds, lemma_pow2_pos, pow2};
use crate::arith::ceil_log2_is_least;
use crate::ext::{lift, E4};
use crate::jagged::bundle::JaggedBasefoldBundleGeneric;
use crate::jagged::claims::OpeningClaim;
use crate::jagged::groups::{group_opened, proved_bundle_opens, stack_of};
use crate::jagged::linear::whir_opened;
use crate::jagged::opening::{areas_with, data_areas, missing, open_dim, open_point, reduced_end,
    roots_with, stripe_adjusted, stripes_of};
use crate::jagged::packing::nats;
use crate::jagged::prove::dense_cells;
use crate::ext::epoints;
use crate::merkle::Digest;
use crate::mle::mle_eval;
use crate::transcript::{Sponge, Transcript};
use crate::whir::jagged::{cells_flat, rounds_roots, rounds_stripes, stacked_poly, stacked_value,
    stacked_value_is_long_value, stripes_flat, JaggedWhirProverData};
use crate::whir::stacked::{flat, stripe_values, stripes_val, StackedWhirProver};

verus! {

/// The stripes of the first `k` commitments, one after the other.
pub open spec fn all_stripes(datas: Seq<&JaggedWhirProverData>, k: int) -> Seq<Seq<int>>
    decreases k,
{
    if k <= 0 {
        Seq::empty()
    } else {
        all_stripes(datas, k - 1) + stripes_val(datas[k - 1].stacked_data.stripes@)
    }
}

/// Whether every stripe has `n` cells, and the areas are those of the stripes.
pub open spec fn whole_stripes(datas: Seq<&JaggedWhirProverData>, n: nat) -> bool {
    forall|i: int|
        0 <= i < datas.len() ==> {
            &&& (#[trigger] datas[i]).area as nat == datas[i].stacked_data.stripes@.len() * n
            &&& forall|j: int|
                0 <= j < datas[i].stacked_data.stripes@.len() ==> (
                #[trigger] stripes_val(datas[i].stacked_data.stripes@)[j]).len() == n
        }
}

proof fn cells_of_concat(a: Seq<Seq<int>>, b: Seq<Seq<int>>, k: int)
    requires
        0 <= k <= b.len(),
    ensures
        cells_flat(a + b, a.len() + k) == cells_flat(a, a.len() as int) + cells_flat(b, k),
    decreases k,
{
    if k == 0 {
        cells_of_prefix(a + b, a, a.len() as int);
        assert(cells_flat(a, a.len() as int) + cells_flat(b, 0) =~= cells_flat(
            a,
            a.len() as int,
        ));
    } else {
        cells_of_concat(a, b, k - 1);
        assert((a + b)[a.len() + k - 1] == b[k - 1]);
        assert(cells_flat(a, a.len() as int) + (cells_flat(b, k - 1) + b[k - 1]) =~= (cells_flat(
            a,
            a.len() as int,
        ) + cells_flat(b, k - 1)) + b[k - 1]);
    }
}

proof fn cells_of_prefix(a: Seq<Seq<int>>, b: Seq<Seq<int>>, k: int)
    requires
        0 <= k <= a.len(),
        k <= b.len(),
        forall|i: int| 0 <= i < k ==> a[i] == b[i],
    ensures
        cells_flat(a, k) == cells_flat(b, k),
    decreases k,
{
    if k > 0 {
        cells_of_prefix(a, b, k - 1);
    }
}

/// The cells of all commitments are those of all stripes.
proof fn flat_is_all_stripes(datas: Seq<&JaggedWhirProverData>, k: int)
    requires
        0 <= k <= datas.len(),
    ensures
        stripes_flat(datas, k) == cells_flat(
            all_stripes(datas, k),
            all_stripes(datas, k).len() as int,
        ),
    decreases k,
{
    if k > 0 {
        flat_is_all_stripes(datas, k - 1);
        let a = all_stripes(datas, k - 1);
        let b = stripes_val(datas[k - 1].stacked_data.stripes@);
        cells_of_concat(a, b, b.len() as int);
    }
}

/// A cell of equally long stripes.
proof fn cell_of_stripe(s: Seq<Seq<int>>, n: nat, k: int, x: int)
    requires
        n > 0,
        0 <= k <= s.len(),
        forall|i: int| 0 <= i < s.len() ==> (#[trigger] s[i]).len() == n,
    ensures
        cells_flat(s, k).len() == k * n,
        0 <= x < k * n ==> x / (n as int) < k && cells_flat(s, k)[x] == s[x / n as int][x
            % n as int],
    decreases k,
{
    if k > 0 {
        cell_of_stripe(s, n, k - 1, x);
        assert(s[k - 1].len() == n);
        assert((k - 1) * n + n == k * n) by (nonlinear_arith);
        if 0 <= x < k * n && x >= (k - 1) * n {
            vstd::arithmetic::div_mod::lemma_fundamental_div_mod_converse(
                x,
                n as int,
                k - 1,
                x - (k - 1) * n,
            );
        }
    } else {
        assert(k * n == 0) by (nonlinear_arith)
            requires
                k == 0,
        ;
    }
}

proof fn all_stripes_whole(datas: Seq<&JaggedWhirProverData>, n: nat, k: int)
    requires
        n > 0,
        whole_stripes(datas, n),
        0 <= k <= datas.len(),
    ensures
        forall|i: int|
            0 <= i < all_stripes(datas, k).len() ==> (#[trigger] all_stripes(datas, k)[i]).len()
                == n,
    decreases k,
{
    if k > 0 {
        all_stripes_whole(datas, n, k - 1);
        let a = all_stripes(datas, k - 1);
        let b = stripes_val(datas[k - 1].stacked_data.stripes@);
        assert forall|i: int| 0 <= i < (a + b).len() implies (#[trigger] (a + b)[i]).len() == n by {
            if i < a.len() {
                assert(a[i].len() == n);
            } else {
                assert(datas[k - 1].area as nat == datas[k - 1].stacked_data.stripes@.len() * n);
                assert(b[i - a.len()].len() == n);
            }
        }
    }
}

proof fn stripes_counted(datas: Seq<&JaggedWhirProverData>, lsh: nat, k: int)
    requires
        whole_stripes(datas, pow2(lsh)),
        0 <= k <= datas.len(),
    ensures
        stripes_of(nats(data_areas(datas)).take(k), lsh) == all_stripes(datas, k).len(),
    decreases k,
{
    let areas = nats(data_areas(datas));
    lemma_pow2_pos(lsh);
    if k > 0 {
        stripes_counted(datas, lsh, k - 1);
        assert(areas.take(k).drop_last() =~= areas.take(k - 1));
        let m = datas[k - 1].stacked_data.stripes@.len();
        let n = pow2(lsh);
        assert(datas[k - 1].area as nat == m * n);
        assert(areas.take(k).last() == m * n);
        vstd::arithmetic::div_mod::lemma_div_by_multiple(m as int, n as int);
    } else {
        assert(areas.take(0) =~= Seq::<nat>::empty());
    }
}

/// The stripes' values, commitment by commitment, are those of all stripes.
proof fn flat_values(datas: Seq<&JaggedWhirProverData>, low: Seq<E4>, k: int)
    requires
        0 <= k <= datas.len(),
    ensures
        flat(stripe_values(rounds_stripes(datas), low), k) == Seq::new(
            all_stripes(datas, k).len(),
            |i: int| mle_eval(lift(all_stripes(datas, k)[i]), low),
        ),
    decreases k,
{
    let vals = stripe_values(rounds_stripes(datas), low);
    let whole = Seq::new(
        all_stripes(datas, k).len(),
        |i: int| mle_eval(lift(all_stripes(datas, k)[i]), low),
    );
    if k > 0 {
        flat_values(datas, low, k - 1);
        let a = all_stripes(datas, k - 1);
        let b = stripes_val(datas[k - 1].stacked_data.stripes@);
        assert(rounds_stripes(datas)[k - 1] == b);
        assert(vals[k - 1].len() == b.len());
        assert(flat(vals, k) =~= whole) by {
            assert forall|i: int| 0 <= i < whole.len() implies flat(vals, k)[i] == whole[i] by {
                if i < a.len() {
                    assert((a + b)[i] == a[i]);
                } else {
                    assert((a + b)[i] == b[i - a.len()]);
                    assert(vals[k - 1][i - a.len()] == mle_eval(lift(b[i - a.len()]), low));
                }
            }
        }
    } else {
        assert(flat(vals, k) =~= whole);
    }
}

/// The value of the cells of all commitments, padded with zeros, is the one that the
/// stripes' values give: the low coordinates of the point address a cell of a stripe, the
/// high ones the stripe.
pub proof fn dense_value_is_stacked(
    datas: Seq<&JaggedWhirProverData>,
    lsh: nat,
    low: Seq<E4>,
    high: Seq<E4>,
)
    requires
        whole_stripes(datas, pow2(lsh)),
        low.len() == lsh,
        all_stripes(datas, datas.len() as int).len() <= pow2(high.len()),
    ensures
        mle_eval(lift(dense_cells(datas, (lsh + high.len()) as nat)), low + high) == stacked_value(
            stripe_values(rounds_stripes(datas), low),
            high,
        ),
{
    let n = pow2(lsh);
    let count = pow2(high.len());
    let k = datas.len() as int;
    let all = all_stripes(datas, k);
    let lifted = Seq::new(all.len(), |i: int| lift(all[i]));
    lemma_pow2_pos(lsh);
    lemma_pow2_adds(lsh, high.len());
    all_stripes_whole(datas, n, k);
    flat_is_all_stripes(datas, k);
    flat_values(datas, low, k);
    assert forall|i: int| 0 <= i < lifted.len() implies (#[trigger] lifted[i]).len() == n by {
        assert(all[i].len() == n);
    }
    stacked_value_is_long_value(lifted, low, high);
    let dense = dense_cells(datas, (lsh + high.len()) as nat);
    let poly = stacked_poly(lifted, n, count);
    cell_of_stripe(all, n, all.len() as int, 0);
    assert(all.len() * n <= n * count) by (nonlinear_arith)
        requires
            all.len() <= count,
    ;
    assert(lift(dense) =~= poly) by {
        assert forall|x: int| 0 <= x < n * count implies lift(dense)[x] == poly[x] by {
            cell_of_stripe(all, n, all.len() as int, x);
            if x < all.len() * n {
                let r = x % n as int;
                vstd::arithmetic::div_mod::lemma_mod_bound(x, n as int);
                vstd::arithmetic::div_mod::lemma_div_pos_is_pos(x, n as int);
                assert(all[x / n as int].len() == n);
            } else {
                vstd::arithmetic::div_mod::lemma_fundamental_div_mod(x, n as int);
                assert(x / (n as int) >= all.len()) by (nonlinear_arith)
                    requires
                        x >= all.len() * n,
                        x == n * (x / (n as int)) + x % (n as int),
                        x % (n as int) < n,
                        n > 0,
                ;
            }
        }
    }
    let vals = Seq::new(lifted.len(), |i: int| mle_eval(lifted[i], low));
    let values = stripe_values(rounds_stripes(datas), low);
    assert(flat(values, k) =~= vals);
    assert(values.len() == k);
}

/// A point that addresses every cell is opened as it is, at the value as it is.
proof fn whole_point(s: Sponge, datas: Seq<&JaggedWhirProverData>, lsh: nat, z: Seq<E4>, q: E4)
    requires
        z.len() == open_dim(nats(data_areas(datas)), lsh),
    ensures
        open_point(s, datas, lsh, z) == z,
        stripe_adjusted(q, z, z.len(), lsh) == q,
        lsh <= z.len(),
{
    assert(missing(z.len(), open_dim(nats(data_areas(datas)), lsh)) == 0);
    assert(s.drawn_exts(0) =~= Seq::<E4>::empty());
    assert(open_point(s, datas, lsh, z) =~= z);
}

/// The true value is accepted: a bundle whose stacked proof is the honest opening of the
/// prover's commitments at a point that addresses every cell passes for the value of the
/// cells of all commitments at that point.
#[verifier::spinoff_prover]
#[verifier::rlimit(40)]
pub proof fn true_value_is_accepted<
    R,
    E,
    B,
    O: Fn(&OpeningClaim, &B, Transcript) -> (bool, Transcript),
>(
    prover: StackedWhirProver,
    s: Sponge,
    datas: Seq<&JaggedWhirProverData>,
    b: JaggedBasefoldBundleGeneric<R, E, B>,
    preceding: Seq<(Digest, usize)>,
    z: Seq<E4>,
    end: Sponge,
    open_other: O,
)
    requires
        datas.len() > 0,
        prover.config.starting_ood_samples == 0,
        prover.fits(datas.len()),
        forall|i: int|
            0 <= i < datas.len() ==> prover.holds((#[trigger] datas[i]).stacked_data),
        whole_stripes(datas, pow2(prover.log_stacking_height as nat)),
        b.commit.log_stacking_height == prover.log_stacking_height,
        roots_with(preceding, b.commit.original_commitment) == rounds_roots(datas),
        areas_with(preceding, b.commit.area) == data_areas(datas),
        b.whir_proof is Some,
        z.len() == open_dim(nats(data_areas(datas)), prover.log_stacking_height as nat),
        whir_opened(prover, s, datas, z, b.whir_proof->0, end),
    ensures
        ({
            let values = epoints(b.whir_proof->0.batch_evaluations@);
            let p = b.whir_proof->0.whir_proof@;
            group_opened(
                b.commit,
                b.basefold_proof,
                stack_of(b, prover.config, 0),
                preceding,
                open_other,
                s,
                z,
                mle_eval(lift(dense_cells(datas, z.len())), z),
                true,
                reduced_end(prover.config, s, preceding, b.commit, z, values, p),
            )
        }),
{
    let lsh = prover.log_stacking_height as nat;
    let areas = nats(data_areas(datas));
    let k = datas.len() as int;
    let q = mle_eval(lift(dense_cells(datas, z.len())), z);
    let low = z.take(lsh as int);
    let high = z.skip(lsh as int);
    assert(z =~= low + high);
    assert(areas.take(k) =~= areas);
    stripes_counted(datas, lsh, k);
    ceil_log2_is_least(stripes_of(areas, lsh));
    dense_value_is_stacked(datas, lsh, low, high);
    whole_point(s, datas, lsh, z, q);
    assert forall|i: int| 0 <= i < datas.len() implies {
        &&& prover.holds((#[trigger] datas[i]).stacked_data)
        &&& datas[i].area as nat == datas[i].stacked_data.stripes@.len() * pow2(lsh)
    } by {}
    proved_bundle_opens(prover, s, datas, b, preceding, z, q, end, open_other);
}

} // verus!
