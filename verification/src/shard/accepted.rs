//! What an accepted shard proof has passed, part by part.
use vstd::prelude::*;
use crate::ext::{evals, fvals, Ext, E4};
use crate::felt::Felt;
use crate::shard::error::ShardRefusal;
use crate::shard::gkr::{challenge_weights, gkr_refusal, logup_answer, walk_end};
use crate::shard::openings::{gkr_pairs, observe_openings, prologue};
use crate::shard::names::{entry_value, has_entry};
use crate::shard::types::{ChipOpenedValues, FoldOrientation, LogupGkrProof, ShardChip};
use crate::shard::verify::{constraints_answer, lookups_answer, seed_dim, shape_refusal,
    BasefoldShardProof};
use crate::shard::zerocheck::{zerocheck_answer, ConstraintValues};
use crate::transcript::Sponge;

verus! {

/// What an accepted verification of the lookup argument has passed: its output has as many
/// numerators as denominators, a power of two of them, the proof of work is one, the argument
/// is accepted under the challenges drawn after it, where the public values count by their
/// digest under these challenges, or not at all where no lookup is closed by them, and the
/// transcript in the end has absorbed the openings after the walk.
pub proof fn accepted_logup_has_passed<D: Fn(Ext, &Vec<Ext>, &Vec<Felt>) -> Ext>(
    gkr: LogupGkrProof,
    chips: Seq<ShardChip>,
    opened: Seq<ChipOpenedValues>,
    max_log_row_count: nat,
    dim: nat,
    o: FoldOrientation,
    public_values: Vec<Felt>,
    has_pv_buses: bool,
    bits: nat,
    digest: D,
    s: Sponge,
    end: Sponge,
) -> (d: E4)
    requires
        logup_answer(
            gkr,
            chips,
            opened,
            max_log_row_count,
            dim,
            o,
            public_values,
            has_pv_buses,
            bits,
            digest,
            s,
            Ok(()),
            end,
        ),
    ensures
        ({
            let n = gkr.circuit_output.numerator@.len();
            let ready = s.after_pow(bits, gkr.witness@);
            let alpha = ready.drawn_ext();
            let betas = challenge_weights(s, bits, gkr.witness@, dim);
            let s1 = ready.after_draw_ext().after_draw_exts(dim);
            &&& n == gkr.circuit_output.denominator@.len()
            &&& exists|k: nat| n == #[trigger] vstd::arithmetic::power2::pow2(k)
            &&& s.pow_ok(bits, gkr.witness@)
            &&& if has_pv_buses {
                exists|a: Ext, b: &Vec<Ext>, x: Ext|
                    {
                        &&& a@ == alpha
                        &&& evals(b@) == betas
                        &&& #[trigger] digest.ensures((a, b, &public_values), x)
                        &&& x@ == d
                    }
            } else {
                d == crate::ext::e_zero()
            }
            &&& gkr_refusal(gkr, chips, opened, max_log_row_count, o, alpha, betas, d, s1) is None
            &&& end == observe_openings(
                walk_end(gkr, s1).sponge,
                chips.len(),
                gkr_pairs(gkr.logup_evaluations.chip_openings@),
            )
        }),
{
    let ready = s.after_pow(bits, gkr.witness@);
    let alpha = ready.drawn_ext();
    let betas = challenge_weights(s, bits, gkr.witness@, dim);
    let s1 = ready.after_draw_ext().after_draw_exts(dim);
    let n = gkr.circuit_output.numerator@.len();
    assert(n == vstd::arithmetic::power2::pow2(crate::arith::ceil_log2_of(n)));
    choose|d: E4|
        {
            &&& #[trigger] crate::shard::gkr::digest_given(
                digest,
                has_pv_buses,
                alpha,
                betas,
                public_values,
                d,
            )
            &&& gkr_refusal(gkr, chips, opened, max_log_row_count, o, alpha, betas, d, s1) is None
            &&& end == observe_openings(
                walk_end(gkr, s1).sponge,
                chips.len(),
                gkr_pairs(gkr.logup_evaluations.chip_openings@),
            )
        }
}

/// A shard's arguments are checked on its own parts: the lookup argument on the transcript
/// that has absorbed the public values, the main commitment and every chip's height by name,
/// zero where there is none, with the weights expanded from as many challenges as the widest
/// lookup takes; the constraint argument with the openings of the lookup argument and the
/// opened values.
pub proof fn shard_arguments_are_its_own<
    R,
    E,
    B,
    D: Fn(Ext, &Vec<Ext>, &Vec<Felt>) -> Ext,
    C: Fn(&ShardChip, &ChipOpenedValues, Ext, &Vec<Felt>) -> ConstraintValues,
>(
    s: Sponge,
    chips: Seq<ShardChip>,
    p: BasefoldShardProof<R, E, B>,
    max_log_row_count: nat,
    bits: nat,
    core_rev: bool,
    digest: D,
    fold: C,
    r: Result<(), ShardRefusal>,
    end: Sponge,
)
    ensures
        lookups_answer(s, chips, p, max_log_row_count, bits, digest, r, end) == logup_answer(
            p.logup_gkr_proof,
            chips,
            p.opened_values@,
            max_log_row_count,
            seed_dim(chips),
            p.fold_orientation,
            p.public_values,
            exists|c: int, i: int|
                0 <= c < chips.len() && (0 <= i < chips[c].lookups.sends@.len() && (
                #[trigger] chips[c].lookups.at(
                    i,
                )).0.kind.closed_by_public_values || chips[c].lookups.sends@.len() <= i
                    < chips[c].lookups.sends@.len() + chips[c].lookups.receives@.len()
                    && chips[c].lookups.at(i).0.kind.closed_by_public_values),
            bits,
            digest,
            prologue(
                s,
                fvals(p.public_values@),
                fvals(p.main_commitment@),
                chips,
                Seq::new(
                    chips.len(),
                    |i: int|
                        if has_entry(p.chip_heights@, chips[i].name@) {
                            entry_value(p.chip_heights@, chips[i].name@) as nat
                        } else {
                            0
                        },
                ),
            ),
            r,
            end,
        ),
        constraints_answer(s, chips, p, max_log_row_count, core_rev, fold, r, end)
            == zerocheck_answer(
            chips,
            p.zerocheck_proof@,
            p.logup_gkr_proof.logup_evaluations,
            p.public_values,
            max_log_row_count,
            core_rev,
            p.opened_values@,
            fold,
            s,
            r,
            end,
        ),
{
    let heights = Seq::new(
        chips.len(),
        |i: int|
            if has_entry(p.chip_heights@, chips[i].name@) {
                entry_value(p.chip_heights@, chips[i].name@) as nat
            } else {
                0
            },
    );
    assert(crate::shard::verify::heights_by_name(chips, p.chip_heights@) =~= heights);
    let any = exists|c: int, i: int|
        0 <= c < chips.len() && (0 <= i < chips[c].lookups.sends@.len() && (
        #[trigger] chips[c].lookups.at(i)).0.kind.closed_by_public_values
            || chips[c].lookups.sends@.len() <= i < chips[c].lookups.sends@.len()
            + chips[c].lookups.receives@.len()
            && chips[c].lookups.at(i).0.kind.closed_by_public_values);
    if crate::shard::gkr::has_pv_buses(chips) {
        let c = choose|c: int|
            0 <= c < chips.len() && (crate::shard::gkr::any_closed(
                (#[trigger] chips[c]).lookups.sends@,
            ) || crate::shard::gkr::any_closed(chips[c].lookups.receives@));
        let l = chips[c].lookups;
        if crate::shard::gkr::any_closed(l.sends@) {
            let i = choose|i: int|
                0 <= i < l.sends@.len() && (#[trigger] l.sends@[i]).kind.closed_by_public_values;
            assert(l.at(i).0 == l.sends@[i]);
            assert(chips[c].lookups.at(i).0.kind.closed_by_public_values);
        } else {
            let i = choose|i: int|
                0 <= i < l.receives@.len() && (
                #[trigger] l.receives@[i]).kind.closed_by_public_values;
            let j = i + l.sends@.len();
            assert(l.at(j).0 == l.receives@[i]);
            assert(chips[c].lookups.at(j).0.kind.closed_by_public_values);
        }
        assert(any);
    }
    if any {
        let (c, i) = choose|c: int, i: int|
            0 <= c < chips.len() && (0 <= i < chips[c].lookups.sends@.len() && (
            #[trigger] chips[c].lookups.at(i)).0.kind.closed_by_public_values
                || chips[c].lookups.sends@.len() <= i < chips[c].lookups.sends@.len()
                + chips[c].lookups.receives@.len()
                && chips[c].lookups.at(i).0.kind.closed_by_public_values);
        let l = chips[c].lookups;
        if i < l.sends@.len() {
            assert(l.sends@[i].kind.closed_by_public_values);
            assert(crate::shard::gkr::any_closed(l.sends@));
        } else {
            assert(l.receives@[i - l.sends@.len()].kind.closed_by_public_values);
            assert(crate::shard::gkr::any_closed(l.receives@));
        }
        assert(crate::shard::gkr::has_pv_buses(chips));
    }
}

/// The shape of a proof is accepted exactly where it has the given number of public values and
/// one entry of openings for each chip; and where it is not, the first of these counts.
pub proof fn shape_is_accepted_where_it_fits<R, E, B>(
    chips: Seq<ShardChip>,
    p: BasefoldShardProof<R, E, B>,
    num_pv_elts: nat,
)
    ensures
        ({
            let pvs = p.public_values@.len();
            let openings = p.logup_gkr_proof.logup_evaluations.chip_openings@.len();
            &&& (shape_refusal(chips, p, num_pv_elts) is None) == (pvs == num_pv_elts && openings
                == chips.len())
            &&& pvs != num_pv_elts ==> shape_refusal(chips, p, num_pv_elts) == Some(
                ShardRefusal::PublicValuesLengthMismatch(num_pv_elts as int, pvs as int),
            )
            &&& pvs == num_pv_elts && openings != chips.len() ==> shape_refusal(
                chips,
                p,
                num_pv_elts,
            ) == Some(ShardRefusal::ChipCountMismatch(chips.len() as int, openings as int))
        }),
{
}

/// The number of challenges that the weights are expanded from is the least that gives a
/// weight to the kind and to every value of every lookup.
pub proof fn every_value_has_a_weight(chips: Seq<ShardChip>, c: int, i: int)
    requires
        0 <= c < chips.len(),
        0 <= i < chips[c].lookups.count(),
    ensures
        chips[c].lookups.at(i).0.values@.len() + 1 <= vstd::arithmetic::power2::pow2(
            seed_dim(chips),
        ),
{
    let a = crate::shard::gkr::chips_max_arity(chips, chips.len());
    crate::arith::ceil_log2_is_least(a);
    arity_bounds(chips, chips.len(), c, i);
}

proof fn arity_bounds(chips: Seq<ShardChip>, k: nat, c: int, i: int)
    requires
        0 <= c < k <= chips.len(),
        0 <= i < chips[c].lookups.count(),
    ensures
        chips[c].lookups.at(i).0.values@.len() + 1 <= crate::shard::gkr::chips_max_arity(chips, k),
    decreases k,
{
    let l = chips[k - 1].lookups;
    let before = crate::shard::gkr::chips_max_arity(chips, (k - 1) as nat);
    let mid = crate::shard::gkr::max_arity(l.sends@, l.sends@.len(), before);
    floor_kept(l.sends@, l.sends@.len(), before);
    floor_kept(l.receives@, l.receives@.len(), mid);
    if c < k - 1 {
        arity_bounds(chips, (k - 1) as nat, c, i);
    } else if i < l.sends@.len() {
        arity_counted(l.sends@, l.sends@.len(), before, i);
    } else {
        arity_counted(l.receives@, l.receives@.len(), mid, i - l.sends@.len());
    }
}

proof fn floor_kept(s: Seq<crate::shard::lookup::Lookup>, k: nat, floor: nat)
    ensures
        crate::shard::gkr::max_arity(s, k, floor) >= floor,
    decreases k,
{
    if k > 0 {
        floor_kept(s, (k - 1) as nat, floor);
    }
}

proof fn arity_counted(s: Seq<crate::shard::lookup::Lookup>, k: nat, floor: nat, i: int)
    requires
        0 <= i < k,
    ensures
        crate::shard::gkr::max_arity(s, k, floor) >= s[i].values@.len() + 1,
    decreases k,
{
    if i < k - 1 {
        arity_counted(s, (k - 1) as nat, floor, i);
    }
}

/// The weights are no more than are needed: where some lookup has values, the number of
/// weights that is rounded up to a power of two is that of a lookup.
pub proof fn some_lookup_needs_all_weights(chips: Seq<ShardChip>, k: nat) -> (at: (int, int))
    requires
        k <= chips.len(),
        crate::shard::gkr::chips_max_arity(chips, k) != 1,
    ensures
        0 <= at.0 < k,
        0 <= at.1 < chips[at.0].lookups.count(),
        chips[at.0].lookups.at(at.1).0.values@.len() + 1 == crate::shard::gkr::chips_max_arity(
            chips,
            k,
        ),
    decreases k,
{
    let l = chips[k - 1].lookups;
    let before = crate::shard::gkr::chips_max_arity(chips, (k - 1) as nat);
    let mid = crate::shard::gkr::max_arity(l.sends@, l.sends@.len(), before);
    let all = crate::shard::gkr::max_arity(l.receives@, l.receives@.len(), mid);
    if all == before {
        some_lookup_needs_all_weights(chips, (k - 1) as nat)
    } else if all == mid {
        (k - 1, arity_reached(l.sends@, l.sends@.len(), before))
    } else {
        (k - 1, l.sends@.len() + arity_reached(l.receives@, l.receives@.len(), mid))
    }
}

proof fn arity_reached(s: Seq<crate::shard::lookup::Lookup>, k: nat, floor: nat) -> (i: int)
    requires
        k <= s.len(),
        crate::shard::gkr::max_arity(s, k, floor) != floor,
    ensures
        0 <= i < k,
        crate::shard::gkr::max_arity(s, k, floor) == s[i].values@.len() + 1,
    decreases k,
{
    if crate::shard::gkr::max_arity(s, k, floor) == s[k - 1].values@.len() + 1 {
        k - 1
    } else {
        arity_reached(s, (k - 1) as nat, floor)
    }
}

} // verus!
