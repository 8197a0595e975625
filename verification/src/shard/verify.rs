//! The verifier of a shard proof: the prologue, the lookup argument, the constraint
//! argument, and the layout of the committed columns.
use vstd::prelude::*;
use vstd::arithmetic::power2::pow2;
use crate::arith::ceil_log2_of;
use crate::ext::{evals, fvals, Ext};
use crate::felt::Felt;
use crate::jagged::bundle::{main_heights, main_round_counts, main_widths, EvaluationProof,
    JaggedBasefoldBundleGeneric};
use crate::jagged::claims::{opens, reduces, replays, OpeningClaim, ReductionClaim};
use crate::jagged::groups::{partitions, weighs};
use crate::jagged::hash_bind::{area_of, bind_refusal, bound_digest, check_hash_bind};
use crate::jagged::layout::lesser;
use crate::jagged::packing::{columns_before, JaggedChipInfo};
use crate::merkle::Digest;
use crate::septic::curve::SepticCurve;
use crate::shard::error::{answer_val, BasefoldVerifyError, ShardRefusal};
use crate::shard::gkr::{beta_seed_dim, challenges_sponge, chips_max_arity, digests, gkr_ready,
    has_pv_buses, logup_answer, machine_has_pv_buses, verify_logup_gkr_host, walk_end};
use crate::shard::host::{pcs_answer, pcs_fits, verify_jagged_pcs_host};
use crate::shard::names::find_entry;
use crate::shard::openings::{as_nats, gkr_pairs, observe_openings, observe_prologue, prologue,
    zerocheck_pairs};
use crate::shard::residual::height_of;
use crate::shard::sumcheck::PartialSumcheckProof;
use crate::shard::places::{is_name_map, stands_for_map};
use crate::shard::types::{ChipOpenedValues, FoldOrientation, LogupGkrProof, ShardChip};
use crate::shard::zerocheck::{folds_constraints, verify_zerocheck_host, widths_fit,
    zerocheck_answer, ConstraintValues};
use crate::transcript::{Sponge, Transcript};
use crate::whir::config::WhirConfig;

verus! {

/// The logarithm of the number of rows that every chip is padded to.
pub const CORE_MAX_LOG_ROW_COUNT: usize = 22;

/// A shard proof.
pub struct BasefoldShardProof<R, E, B> {
    /// The public values.
    pub public_values: Vec<Felt>,
    /// The digest of the main commitment bound to its layout.
    pub main_commitment: Digest,
    /// The lookup argument.
    pub logup_gkr_proof: LogupGkrProof,
    /// The constraint argument.
    pub zerocheck_proof: PartialSumcheckProof,
    /// The columns at the reduced point, in the order of the chips' names.
    pub opened_values: Vec<ChipOpenedValues>,
    /// The heights, by name: each name once, in the order of the names.
    pub chip_heights: Vec<(String, usize)>,
    /// The opening.
    pub evaluation_proof: EvaluationProof<R, E, B>,
    /// How the rounds of the lookup argument pair their points.
    pub fold_orientation: FoldOrientation,
    /// The cumulative sums, by name: each name once, in the order of the names.
    pub chip_cumulative_sums: Vec<(String, ChipCumulativeSums)>,
    /// The heights of the chips, commitment by commitment.
    pub row_counts: Vec<Vec<usize>>,
    /// The numbers of padding columns, commitment by commitment.
    pub padding_column_counts: Vec<usize>,
    /// The heights of the padding columns, commitment by commitment.
    pub padding_row_heights: Vec<Vec<Felt>>,
    /// The root that the main commitment opens against.
    pub jagged_original_commitment: Digest,
    /// The root that the preprocessed commitment opens against, zeros where there is none.
    pub preprocessed_original_commitment: Digest,
    /// The heights of the preprocessed chips.
    pub preprocessed_row_counts: Vec<Felt>,
}

impl<R, E, B> BasefoldShardProof<R, E, B> {
    /// Whether the lists by name stand for maps by name.
    pub open spec fn wf(self) -> bool {
        &&& self.logup_gkr_proof.logup_evaluations.wf()
        &&& is_name_map(self.chip_heights@)
        &&& is_name_map(self.chip_cumulative_sums@)
    }

    /// Whether the lists by name stand for maps by name.
    pub fn is_well_formed(&self) -> (r: bool)
        ensures
            r == self.wf(),
    {
        stands_for_map(&self.logup_gkr_proof.logup_evaluations.chip_openings) && stands_for_map(
            &self.chip_heights,
        ) && stands_for_map(&self.chip_cumulative_sums)
    }
}

/// The cumulative sums of a chip's lookups.
#[derive(Debug)]
pub struct ChipCumulativeSums {
    /// The sum of the lookups within a shard.
    pub local: Ext,
    /// The sum of the lookups between shards.
    pub global: SepticCurve<Felt>,
}

/// A verifier of shard proofs.
#[derive(Clone, Debug)]
pub struct BasefoldShardVerifier {
    /// The logarithm of the number of rows that every chip is padded to.
    pub max_log_row_count: usize,
}

/// The heights of the chips in a list of heights by name.
pub open spec fn heights_by_name(chips: Seq<ShardChip>, heights: Seq<(String, usize)>) -> Seq<nat> {
    Seq::new(chips.len(), |i: int| height_of(heights, chips[i].name@))
}

fn collect_heights(chips: &Vec<ShardChip>, heights: &Vec<(String, usize)>) -> (r: Vec<usize>)
    ensures
        as_nats(r@) == heights_by_name(chips@, heights@),
        r@.len() == chips@.len(),
{
    let mut r: Vec<usize> = Vec::new();
    let mut i: usize = 0;
    while i < chips.len()
        invariant
            i <= chips@.len(),
            r@.len() == i,
            forall|j: int|
                0 <= j < i ==> #[trigger] r@[j] == height_of(heights@, chips@[j].name@),
        decreases chips@.len() - i,
    {
        let h: usize = match find_entry(heights, &chips[i].name) {
            Some(at) => heights[at].1,
            None => 0,
        };
        r.push(h);
        i = i + 1;
    }
    proof {
        assert(as_nats(r@) =~= heights_by_name(chips@, heights@));
    }
    r
}

/// Whether the arities of the lookups are machine numbers.
pub open spec fn arities_fit(chips: Seq<ShardChip>) -> bool {
    &&& forall|c: int, i: int|
        0 <= c < chips.len() && 0 <= i < chips[c].lookups.sends@.len() ==> (
        #[trigger] chips[c].lookups.sends@[i]).values@.len() < usize::MAX
    &&& forall|c: int, i: int|
        0 <= c < chips.len() && 0 <= i < chips[c].lookups.receives@.len() ==> (
        #[trigger] chips[c].lookups.receives@[i]).values@.len() < usize::MAX
    &&& pow2(seed_dim(chips)) <= usize::MAX
}

/// The number of challenges from which the weights are expanded.
pub open spec fn seed_dim(chips: Seq<ShardChip>) -> nat {
    ceil_log2_of(chips_max_arity(chips, chips.len()))
}

/// The transcript after the prologue of a proof.
pub open spec fn proof_prologue<R, E, B>(
    s: Sponge,
    chips: Seq<ShardChip>,
    p: BasefoldShardProof<R, E, B>,
) -> Sponge {
    prologue(
        s,
        fvals(p.public_values@),
        fvals(p.main_commitment@),
        chips,
        heights_by_name(chips, p.chip_heights@),
    )
}

/// The transcript after the challenges of the lookup argument.
pub open spec fn lookup_sponge<R, E, B>(
    s: Sponge,
    chips: Seq<ShardChip>,
    p: BasefoldShardProof<R, E, B>,
    bits: nat,
) -> Sponge {
    challenges_sponge(
        proof_prologue(s, chips, p),
        bits,
        p.logup_gkr_proof.witness@,
        seed_dim(chips),
    )
}

/// The transcript after the lookup argument.
pub open spec fn constraint_sponge<R, E, B>(
    s: Sponge,
    chips: Seq<ShardChip>,
    p: BasefoldShardProof<R, E, B>,
) -> Sponge {
    observe_openings(
        walk_end(p.logup_gkr_proof, s).sponge,
        chips.len(),
        gkr_pairs(p.logup_gkr_proof.logup_evaluations.chip_openings@),
    )
}

/// The transcript after the constraint argument.
pub open spec fn shard_sponge<R, E, B>(
    s: Sponge,
    chips: Seq<ShardChip>,
    p: BasefoldShardProof<R, E, B>,
    bits: nat,
) -> Sponge {
    let s2 = constraint_sponge(lookup_sponge(s, chips, p, bits), chips, p);
    observe_openings(
        p.zerocheck_proof@.after(s2.after_draw_ext().after_draw_ext().after_draw_ext()),
        chips.len(),
        zerocheck_pairs(p.opened_values@),
    )
}

/// Why the shape of a proof is refused, if it is: the number of public values, then the
/// number of openings.
pub open spec fn shape_refusal<R, E, B>(
    chips: Seq<ShardChip>,
    p: BasefoldShardProof<R, E, B>,
    num_pv_elts: nat,
) -> Option<ShardRefusal> {
    let openings = p.logup_gkr_proof.logup_evaluations.chip_openings@.len();
    if p.public_values@.len() != num_pv_elts {
        Some(
            ShardRefusal::PublicValuesLengthMismatch(
                num_pv_elts as int,
                p.public_values@.len() as int,
            ),
        )
    } else if openings != chips.len() {
        Some(ShardRefusal::ChipCountMismatch(chips.len() as int, openings as int))
    } else {
        None
    }
}

/// Why the layout of a proof's bundle is refused, if it is: it is not the one that the main
/// commitment was bound to.
pub open spec fn layout_refusal<R, E, B>(p: BasefoldShardProof<R, E, B>) -> Option<Seq<char>> {
    match p.evaluation_proof {
        EvaluationProof::Bundle(b) => bind_refusal(
            fvals(b.commit.original_commitment@),
            fvals(p.main_commitment@),
            main_heights(b.packing),
            main_widths(b.packing),
        ),
        _ => None,
    }
}

/// Whether the columns of a proof's bundle add up to a machine number.
pub open spec fn layout_fits<R, E, B>(p: BasefoldShardProof<R, E, B>) -> bool {
    match p.evaluation_proof {
        EvaluationProof::Bundle(b) => columns_before(
            b.packing.column_counts@,
            b.packing.column_counts@.len() as int,
        ) <= usize::MAX,
        _ => true,
    }
}

/// Whether the verification of a proof's lookup argument may end so.
pub open spec fn lookups_answer<R, E, B, D: Fn(Ext, &Vec<Ext>, &Vec<Felt>) -> Ext>(
    s: Sponge,
    chips: Seq<ShardChip>,
    p: BasefoldShardProof<R, E, B>,
    max_log_row_count: nat,
    bits: nat,
    digest: D,
    r: Result<(), ShardRefusal>,
    end: Sponge,
) -> bool {
    logup_answer(
        p.logup_gkr_proof,
        chips,
        p.opened_values@,
        max_log_row_count,
        seed_dim(chips),
        p.fold_orientation,
        p.public_values,
        has_pv_buses(chips),
        bits,
        digest,
        proof_prologue(s, chips, p),
        r,
        end,
    )
}

/// Whether the verification of a proof's constraint argument may end so.
pub open spec fn constraints_answer<
    R,
    E,
    B,
    C: Fn(&ShardChip, &ChipOpenedValues, Ext, &Vec<Felt>) -> ConstraintValues,
>(
    s: Sponge,
    chips: Seq<ShardChip>,
    p: BasefoldShardProof<R, E, B>,
    max_log_row_count: nat,
    core_rev: bool,
    fold: C,
    r: Result<(), ShardRefusal>,
    end: Sponge,
) -> bool {
    zerocheck_answer(
        chips,
        p.zerocheck_proof@,
        p.logup_gkr_proof.logup_evaluations,
        p.public_values,
        max_log_row_count,
        core_rev,
        p.opened_values@,
        fold,
        s,
        r,
        end,
    )
}

/// Whether the verification of a proof's layout and opening may end so.
pub open spec fn opening_answer<
    R,
    E,
    B,
    P: Fn(&Vec<JaggedChipInfo>) -> Vec<Vec<usize>>,
    W: Fn(&Vec<Ext>) -> Vec<Ext>,
    F: Fn(&R, &ReductionClaim, Transcript) -> (Option<(Vec<Ext>, Ext)>, Transcript),
    L: Fn(&E, Transcript) -> Transcript,
    O: Fn(&OpeningClaim, &B, Transcript) -> (bool, Transcript),
>(
    s: Sponge,
    chips: Seq<ShardChip>,
    dims: Seq<(String, usize)>,
    key: Seq<int>,
    p: BasefoldShardProof<R, E, B>,
    config: WhirConfig,
    partition: P,
    weights: W,
    reduce: F,
    replay: L,
    open_other: O,
    r: Result<(), ShardRefusal>,
    end: Sponge,
) -> bool {
    match layout_refusal(p) {
        Some(e) => r == Result::<(), ShardRefusal>::Err(ShardRefusal::JaggedPcs(e)),
        None => pcs_answer(
            key,
            chips,
            dims,
            evals(p.zerocheck_proof.point_and_eval.0@),
            p.evaluation_proof,
            p.opened_values@,
            config,
            partition,
            weights,
            reduce,
            replay,
            open_other,
            s,
            r,
            end,
        ),
    }
}

/// Whether the verification of a shard proof may end so. The shape, the lookup argument, the
/// constraint argument, then the layout and the opening are checked in turn, on one
/// transcript; the first refusal is the answer, and a proof that none of them refuses is
/// accepted. A refusal for its shape leaves the transcript as it was.
pub open spec fn shard_answer<
    R,
    E,
    B,
    D: Fn(Ext, &Vec<Ext>, &Vec<Felt>) -> Ext,
    C: Fn(&ShardChip, &ChipOpenedValues, Ext, &Vec<Felt>) -> ConstraintValues,
    P: Fn(&Vec<JaggedChipInfo>) -> Vec<Vec<usize>>,
    W: Fn(&Vec<Ext>) -> Vec<Ext>,
    F: Fn(&R, &ReductionClaim, Transcript) -> (Option<(Vec<Ext>, Ext)>, Transcript),
    L: Fn(&E, Transcript) -> Transcript,
    O: Fn(&OpeningClaim, &B, Transcript) -> (bool, Transcript),
>(
    s: Sponge,
    chips: Seq<ShardChip>,
    dims: Seq<(String, usize)>,
    key: Seq<int>,
    p: BasefoldShardProof<R, E, B>,
    max_log_row_count: nat,
    num_pv_elts: nat,
    bits: nat,
    core_rev: bool,
    config: WhirConfig,
    digest: D,
    fold: C,
    partition: P,
    weights: W,
    reduce: F,
    replay: L,
    open_other: O,
    r: Result<(), ShardRefusal>,
    end: Sponge,
) -> bool {
    match shape_refusal(chips, p, num_pv_elts) {
        Some(e) => r == Result::<(), ShardRefusal>::Err(e) && end == s,
        None => exists|first: Result<(), ShardRefusal>, s1: Sponge|
            {
                &&& #[trigger] lookups_answer(
                    s,
                    chips,
                    p,
                    max_log_row_count,
                    bits,
                    digest,
                    first,
                    s1,
                )
                &&& if first is Err {
                    r == first
                } else {
                    after_lookups(
                        s1,
                        chips,
                        dims,
                        key,
                        p,
                        max_log_row_count,
                        core_rev,
                        config,
                        fold,
                        partition,
                        weights,
                        reduce,
                        replay,
                        open_other,
                        r,
                        end,
                    )
                }
            },
    }
}

/// Whether the verification of a shard proof may end so after its lookup argument.
pub open spec fn after_lookups<
    R,
    E,
    B,
    C: Fn(&ShardChip, &ChipOpenedValues, Ext, &Vec<Felt>) -> ConstraintValues,
    P: Fn(&Vec<JaggedChipInfo>) -> Vec<Vec<usize>>,
    W: Fn(&Vec<Ext>) -> Vec<Ext>,
    F: Fn(&R, &ReductionClaim, Transcript) -> (Option<(Vec<Ext>, Ext)>, Transcript),
    L: Fn(&E, Transcript) -> Transcript,
    O: Fn(&OpeningClaim, &B, Transcript) -> (bool, Transcript),
>(
    s: Sponge,
    chips: Seq<ShardChip>,
    dims: Seq<(String, usize)>,
    key: Seq<int>,
    p: BasefoldShardProof<R, E, B>,
    max_log_row_count: nat,
    core_rev: bool,
    config: WhirConfig,
    fold: C,
    partition: P,
    weights: W,
    reduce: F,
    replay: L,
    open_other: O,
    r: Result<(), ShardRefusal>,
    end: Sponge,
) -> bool {
    exists|second: Result<(), ShardRefusal>, s2: Sponge|
        {
            &&& #[trigger] constraints_answer(
                s,
                chips,
                p,
                max_log_row_count,
                core_rev,
                fold,
                second,
                s2,
            )
            &&& if second is Err {
                r == second
            } else {
                opening_answer(
                    s2,
                    chips,
                    dims,
                    key,
                    p,
                    config,
                    partition,
                    weights,
                    reduce,
                    replay,
                    open_other,
                    r,
                    end,
                )
            }
        }
}

/// Whether a shard proof may be verified: every part is within machine limits and is there,
/// where nothing before it was refused.
pub open spec fn shard_fits<
    R,
    E,
    B,
    D: Fn(Ext, &Vec<Ext>, &Vec<Felt>) -> Ext,
    C: Fn(&ShardChip, &ChipOpenedValues, Ext, &Vec<Felt>) -> ConstraintValues,
    P: Fn(&Vec<JaggedChipInfo>) -> Vec<Vec<usize>>,
>(
    s: Sponge,
    chips: Seq<ShardChip>,
    dims: Seq<(String, usize)>,
    key: Seq<int>,
    p: BasefoldShardProof<R, E, B>,
    max_log_row_count: nat,
    num_pv_elts: nat,
    bits: nat,
    core_rev: bool,
    config: WhirConfig,
    digest: D,
    fold: C,
    partition: P,
) -> bool {
    shape_refusal(chips, p, num_pv_elts) is None ==> {
        &&& gkr_ready(
            p.logup_gkr_proof,
            chips,
            p.opened_values@,
            max_log_row_count,
            seed_dim(chips),
            p.fold_orientation,
            p.public_values,
            has_pv_buses(chips),
            bits,
            digest,
            proof_prologue(s, chips, p),
        )
        &&& forall|s1: Sponge, s2: Sponge| #[trigger]
            lookups_answer(s, chips, p, max_log_row_count, bits, digest, Ok(()), s1)
                && #[trigger] constraints_answer(
                s1,
                chips,
                p,
                max_log_row_count,
                core_rev,
                fold,
                Ok(()),
                s2,
            ) ==> opening_fits_limits(chips, dims, key, p, config, partition)
    }
}

/// Whether the layout and the opening of a proof are within machine limits and there, as far
/// as they are looked at.
pub open spec fn opening_fits_limits<R, E, B, P: Fn(&Vec<JaggedChipInfo>) -> Vec<Vec<usize>>>(
    chips: Seq<ShardChip>,
    dims: Seq<(String, usize)>,
    key: Seq<int>,
    p: BasefoldShardProof<R, E, B>,
    config: WhirConfig,
    partition: P,
) -> bool {
    &&& layout_fits(p)
    &&& layout_refusal(p) is None ==> pcs_fits(
        key,
        chips,
        dims,
        evals(p.zerocheck_proof.point_and_eval.0@),
        p.evaluation_proof,
        p.opened_values@,
        config,
        partition,
    )
}

impl BasefoldShardVerifier {
    /// A verifier for shards padded to `2^22` rows.
    pub fn production_default() -> (r: BasefoldShardVerifier)
        ensures
            r.max_log_row_count == 22,
    {
        BasefoldShardVerifier { max_log_row_count: CORE_MAX_LOG_ROW_COUNT }
    }

    /// A verifier for shards padded to `2^max_log_row_count` rows.
    pub fn with_params(max_log_row_count: usize) -> (r: BasefoldShardVerifier)
        ensures
            r.max_log_row_count == max_log_row_count,
    {
        BasefoldShardVerifier { max_log_row_count }
    }

    /// Checks the shape of a proof and absorbs its prologue.
    pub fn open_moves<R, E, B>(
        &self,
        chips: &Vec<ShardChip>,
        shard: &BasefoldShardProof<R, E, B>,
        num_pv_elts: usize,
        challenger: &mut Transcript,
    ) -> (r: Result<(), BasefoldVerifyError>)
        requires
            old(challenger).wf(),
            shard.wf(),
        ensures
            final(challenger).wf(),
            match shape_refusal(chips@, *shard, num_pv_elts as nat) {
                Some(e) => {
                    &&& answer_val(r) == Result::<(), ShardRefusal>::Err(e)
                    &&& final(challenger)@ == old(challenger)@
                },
                None => {
                    &&& r is Ok
                    &&& final(challenger)@ == proof_prologue(old(challenger)@, chips@, *shard)
                },
            },
    {
        let got: usize = shard.public_values.len();
        if got != num_pv_elts {
            return Err(
                BasefoldVerifyError::PublicValuesLengthMismatch { expected: num_pv_elts, got },
            );
        }
        let openings: usize = shard.logup_gkr_proof.logup_evaluations.chip_openings.len();
        if openings != chips.len() {
            return Err(
                BasefoldVerifyError::ChipCountMismatch { expected: chips.len(), got: openings },
            );
        }
        let heights = collect_heights(chips, &shard.chip_heights);
        observe_prologue(
            challenger,
            &shard.public_values,
            &shard.main_commitment,
            chips,
            &heights,
        );
        Ok(())
    }

    /// Checks that the layout of a proof's bundle is the one that the main commitment was
    /// bound to.
    pub fn check_layout<R, E, B>(&self, shard: &BasefoldShardProof<R, E, B>) -> (r: Result<
        (),
        BasefoldVerifyError,
    >)
        requires
            layout_fits(*shard),
        ensures
            match layout_refusal(*shard) {
                Some(e) => answer_val(r) == Result::<(), ShardRefusal>::Err(
                    ShardRefusal::JaggedPcs(e),
                ),
                None => r is Ok,
            },
    {
        match &shard.evaluation_proof {
            EvaluationProof::Bundle(b) => {
                let (rows, cols) = main_round_counts(&b.packing);
                check_hash_bind(
                    b.commit.original_commitment,
                    &shard.main_commitment,
                    &rows,
                    &cols,
                )
            },
            _ => Ok(()),
        }
    }

    /// Verifies a shard proof: its shape, its lookup argument, its constraint argument, the
    /// layout of its columns and its opening, in turn. `digest` gives the digest of the
    /// public values under the challenges of the lookup argument, `fold` the constraints of
    /// a chip batched by a challenge, `partition` the groups that columns open in, `weights`
    /// the weights of the columns at a column point; `reduce` checks a group's reduction,
    /// `replay` runs the transcript through the evaluation of its layout, and `open_other`
    /// checks an opening under the other scheme.
    #[verifier::rlimit(60)]
    #[verifier::spinoff_prover]
    pub fn verify_shard<R, E, B, D, C, P, W, F, L, O>(
        &self,
        chips: &Vec<ShardChip>,
        prep_chip_dims: &Vec<(String, usize)>,
        key_commitment: &Digest,
        shard: &BasefoldShardProof<R, E, B>,
        challenger: &mut Transcript,
        num_pv_elts: usize,
        grinding_bits: usize,
        core_rev: bool,
        config: WhirConfig,
        digest: D,
        fold: C,
        partition: P,
        weights: W,
        reduce: F,
        replay: L,
        open_other: O,
    ) -> (r: Result<(), BasefoldVerifyError>) where
        D: Fn(Ext, &Vec<Ext>, &Vec<Felt>) -> Ext,
        C: Fn(&ShardChip, &ChipOpenedValues, Ext, &Vec<Felt>) -> ConstraintValues,
        P: Fn(&Vec<JaggedChipInfo>) -> Vec<Vec<usize>>,
        W: Copy + Fn(&Vec<Ext>) -> Vec<Ext>,
        F: Copy + Fn(&R, &ReductionClaim, Transcript) -> (Option<(Vec<Ext>, Ext)>, Transcript),
        L: Copy + Fn(&E, Transcript) -> Transcript,
        O: Copy + Fn(&OpeningClaim, &B, Transcript) -> (bool, Transcript),

        requires
            old(challenger).wf(),
            shard.wf(),
            grinding_bits <= 30,
            arities_fit(chips@),
            widths_fit(chips@),
            digests(digest),
            folds_constraints(fold),
            partitions(partition),
            weighs(weights),
            reduces(reduce),
            replays(replay),
            opens(open_other),
            shard_fits(
                old(challenger)@,
                chips@,
                prep_chip_dims@,
                fvals(key_commitment@),
                *shard,
                self.max_log_row_count as nat,
                num_pv_elts as nat,
                grinding_bits as nat,
                core_rev,
                config,
                digest,
                fold,
                partition,
            ),
        ensures
            final(challenger).wf(),
            shard_answer(
                old(challenger)@,
                chips@,
                prep_chip_dims@,
                fvals(key_commitment@),
                *shard,
                self.max_log_row_count as nat,
                num_pv_elts as nat,
                grinding_bits as nat,
                core_rev,
                config,
                digest,
                fold,
                partition,
                weights,
                reduce,
                replay,
                open_other,
                answer_val(r),
                final(challenger)@,
            ),
    {
        let ghost s = challenger@;
        let ghost m = self.max_log_row_count as nat;
        let ghost bits = grinding_bits as nat;
        match self.open_moves(chips, shard, num_pv_elts, challenger) {
            Err(e) => {
                return Err(e);
            },
            Ok(_) => {},
        }
        let dim: usize = beta_seed_dim(chips);
        let first = verify_logup_gkr_host(
            &shard.logup_gkr_proof,
            chips,
            &shard.opened_values,
            self.max_log_row_count,
            dim,
            shard.fold_orientation,
            &shard.public_values,
            machine_has_pv_buses(chips),
            grinding_bits,
            challenger,
            digest,
        );
        let ghost s1 = challenger@;
        proof {
            assert(lookups_answer(s, chips@, *shard, m, bits, digest, answer_val(first), s1));
        }
        match first {
            Err(e) => {
                return Err(e);
            },
            Ok(_) => {},
        }
        proof {
            accepted_lookups_are_opened(s, chips@, *shard, m, bits, digest, s1);
        }
        let second = verify_zerocheck_host(
            chips,
            &shard.zerocheck_proof,
            &shard.logup_gkr_proof.logup_evaluations,
            &shard.public_values,
            self.max_log_row_count,
            core_rev,
            challenger,
            &shard.opened_values,
            fold,
        );
        let ghost s2 = challenger@;
        proof {
            assert(constraints_answer(
                s1,
                chips@,
                *shard,
                m,
                core_rev,
                fold,
                answer_val(second),
                s2,
            ));
        }
        match second {
            Err(e) => {
                return Err(e);
            },
            Ok(_) => {},
        }
        match self.check_layout(shard) {
            Err(e) => {
                return Err(e);
            },
            Ok(_) => {},
        }
        verify_jagged_pcs_host(
            key_commitment,
            chips,
            prep_chip_dims,
            shard.zerocheck_proof.point_and_eval.0.as_slice(),
            &shard.evaluation_proof,
            &shard.opened_values,
            config,
            challenger,
            partition,
            weights,
            reduce,
            replay,
            open_other,
        )
    }
}

/// A proof whose lookup argument is accepted has opened columns for every chip.
proof fn accepted_lookups_are_opened<R, E, B, D: Fn(Ext, &Vec<Ext>, &Vec<Felt>) -> Ext>(
    s: Sponge,
    chips: Seq<ShardChip>,
    p: BasefoldShardProof<R, E, B>,
    max_log_row_count: nat,
    bits: nat,
    digest: D,
    s1: Sponge,
)
    requires
        lookups_answer(s, chips, p, max_log_row_count, bits, digest, Ok(()), s1),
    ensures
        p.opened_values@.len() == chips.len(),
        p.logup_gkr_proof.round_proofs@.len() + 1 == max_log_row_count,
        s1 == constraint_sponge(lookup_sponge(s, chips, p, bits), chips, p),
{
}

/// What an accepted shard has passed: its shape, its lookup argument and its constraint
/// argument are accepted, and its layout and its opening are, on the transcript that a
/// prover opens its commitments on.
pub proof fn accepted_shards_are_opened<
    R,
    E,
    B,
    D: Fn(Ext, &Vec<Ext>, &Vec<Felt>) -> Ext,
    C: Fn(&ShardChip, &ChipOpenedValues, Ext, &Vec<Felt>) -> ConstraintValues,
    P: Fn(&Vec<JaggedChipInfo>) -> Vec<Vec<usize>>,
    W: Fn(&Vec<Ext>) -> Vec<Ext>,
    F: Fn(&R, &ReductionClaim, Transcript) -> (Option<(Vec<Ext>, Ext)>, Transcript),
    L: Fn(&E, Transcript) -> Transcript,
    O: Fn(&OpeningClaim, &B, Transcript) -> (bool, Transcript),
>(
    s: Sponge,
    chips: Seq<ShardChip>,
    dims: Seq<(String, usize)>,
    key: Seq<int>,
    p: BasefoldShardProof<R, E, B>,
    max_log_row_count: nat,
    num_pv_elts: nat,
    bits: nat,
    core_rev: bool,
    config: WhirConfig,
    digest: D,
    fold: C,
    partition: P,
    weights: W,
    reduce: F,
    replay: L,
    open_other: O,
    end: Sponge,
)
    requires
        shard_answer(
            s,
            chips,
            dims,
            key,
            p,
            max_log_row_count,
            num_pv_elts,
            bits,
            core_rev,
            config,
            digest,
            fold,
            partition,
            weights,
            reduce,
            replay,
            open_other,
            Ok(()),
            end,
        ),
    ensures
        shape_refusal(chips, p, num_pv_elts) is None,
        ({
            let s1 = constraint_sponge(lookup_sponge(s, chips, p, bits), chips, p);
            let s2 = shard_sponge(s, chips, p, bits);
            &&& lookups_answer(s, chips, p, max_log_row_count, bits, digest, Ok(()), s1)
            &&& constraints_answer(s1, chips, p, max_log_row_count, core_rev, fold, Ok(()), s2)
            &&& opening_answer(
                s2,
                chips,
                dims,
                key,
                p,
                config,
                partition,
                weights,
                reduce,
                replay,
                open_other,
                Ok(()),
                end,
            )
        }),
{
    let ok = Result::<(), ShardRefusal>::Ok(());
    let (first, s1) = choose|first: Result<(), ShardRefusal>, s1: Sponge|
        {
            &&& #[trigger] lookups_answer(s, chips, p, max_log_row_count, bits, digest, first, s1)
            &&& if first is Err {
                ok == first
            } else {
                after_lookups(
                    s1,
                    chips,
                    dims,
                    key,
                    p,
                    max_log_row_count,
                    core_rev,
                    config,
                    fold,
                    partition,
                    weights,
                    reduce,
                    replay,
                    open_other,
                    ok,
                    end,
                )
            }
        };
    assert(first is Ok);
    assert(first->Ok_0 == ());
    assert(first == ok);
    accepted_lookups_are_opened(s, chips, p, max_log_row_count, bits, digest, s1);
}

/// A proof is bound to the row count of its verifier: one with another number of rounds in
/// the lookup argument, or another dimension of the reduced point, is refused.
pub proof fn other_cubes_are_refused<
    R,
    E,
    B,
    D: Fn(Ext, &Vec<Ext>, &Vec<Felt>) -> Ext,
    C: Fn(&ShardChip, &ChipOpenedValues, Ext, &Vec<Felt>) -> ConstraintValues,
    P: Fn(&Vec<JaggedChipInfo>) -> Vec<Vec<usize>>,
    W: Fn(&Vec<Ext>) -> Vec<Ext>,
    F: Fn(&R, &ReductionClaim, Transcript) -> (Option<(Vec<Ext>, Ext)>, Transcript),
    L: Fn(&E, Transcript) -> Transcript,
    O: Fn(&OpeningClaim, &B, Transcript) -> (bool, Transcript),
>(
    s: Sponge,
    chips: Seq<ShardChip>,
    dims: Seq<(String, usize)>,
    key: Seq<int>,
    p: BasefoldShardProof<R, E, B>,
    max_log_row_count: nat,
    num_pv_elts: nat,
    bits: nat,
    core_rev: bool,
    config: WhirConfig,
    digest: D,
    fold: C,
    partition: P,
    weights: W,
    reduce: F,
    replay: L,
    open_other: O,
    r: Result<(), ShardRefusal>,
    end: Sponge,
)
    requires
        shard_answer(
            s,
            chips,
            dims,
            key,
            p,
            max_log_row_count,
            num_pv_elts,
            bits,
            core_rev,
            config,
            digest,
            fold,
            partition,
            weights,
            reduce,
            replay,
            open_other,
            r,
            end,
        ),
        p.logup_gkr_proof.round_proofs@.len() + 1 != max_log_row_count
            || p.zerocheck_proof.point_and_eval.0@.len() != max_log_row_count,
    ensures
        r is Err,
{
    if r is Ok {
        assert(r == Result::<(), ShardRefusal>::Ok(()));
        accepted_shards_are_opened(
            s,
            chips,
            dims,
            key,
            p,
            max_log_row_count,
            num_pv_elts,
            bits,
            core_rev,
            config,
            digest,
            fold,
            partition,
            weights,
            reduce,
            replay,
            open_other,
            end,
        );
        let s1 = constraint_sponge(lookup_sponge(s, chips, p, bits), chips, p);
        accepted_lookups_are_opened(s, chips, p, max_log_row_count, bits, digest, s1);
        assert(p.zerocheck_proof@.point.len() == p.zerocheck_proof.point_and_eval.0@.len());
    }
}

/// What an accepted proof commits to is tied to its layout: the digest that the transcript
/// absorbed is that of the commitment's root bound to the heights and numbers of columns
/// of the main groups, whose cells are between none and `2^30`.
pub proof fn accepted_layout_is_bound<
    R,
    E,
    B,
    D: Fn(Ext, &Vec<Ext>, &Vec<Felt>) -> Ext,
    C: Fn(&ShardChip, &ChipOpenedValues, Ext, &Vec<Felt>) -> ConstraintValues,
    P: Fn(&Vec<JaggedChipInfo>) -> Vec<Vec<usize>>,
    W: Fn(&Vec<Ext>) -> Vec<Ext>,
    F: Fn(&R, &ReductionClaim, Transcript) -> (Option<(Vec<Ext>, Ext)>, Transcript),
    L: Fn(&E, Transcript) -> Transcript,
    O: Fn(&OpeningClaim, &B, Transcript) -> (bool, Transcript),
>(
    s: Sponge,
    chips: Seq<ShardChip>,
    dims: Seq<(String, usize)>,
    key: Seq<int>,
    p: BasefoldShardProof<R, E, B>,
    b: JaggedBasefoldBundleGeneric<R, E, B>,
    max_log_row_count: nat,
    num_pv_elts: nat,
    bits: nat,
    core_rev: bool,
    config: WhirConfig,
    digest: D,
    fold: C,
    partition: P,
    weights: W,
    reduce: F,
    replay: L,
    open_other: O,
    end: Sponge,
)
    requires
        p.evaluation_proof == EvaluationProof::Bundle(b),
        shard_answer(
            s,
            chips,
            dims,
            key,
            p,
            max_log_row_count,
            num_pv_elts,
            bits,
            core_rev,
            config,
            digest,
            fold,
            partition,
            weights,
            reduce,
            replay,
            open_other,
            Ok(()),
            end,
        ),
    ensures
        fvals(p.main_commitment@) == bound_digest(
            fvals(b.commit.original_commitment@),
            main_heights(b.packing),
            main_widths(b.packing),
        ),
        ({
            let n = lesser(main_heights(b.packing).len(), main_widths(b.packing).len());
            0 < area_of(main_heights(b.packing), main_widths(b.packing), n as int) < 0x40000000
        }),
{
    accepted_shards_are_opened(
        s,
        chips,
        dims,
        key,
        p,
        max_log_row_count,
        num_pv_elts,
        bits,
        core_rev,
        config,
        digest,
        fold,
        partition,
        weights,
        reduce,
        replay,
        open_other,
        end,
    );
}

} // verus!
