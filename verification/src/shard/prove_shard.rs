//! The prover of a shard, given the provers of its parts.
use vstd::prelude::*;
use vstd::arithmetic::power2::pow2;
use crate::air::machine::LookupScope;
use crate::ext::{e_zero, epoints, evals, fvals, Ext, E4};
use crate::felt::Felt;
use crate::jagged::bundle::EvaluationProof;
use crate::jagged::layout::JaggedOpenRound;
use crate::jagged::packing::JaggedChipInfo;
use crate::merkle::Digest;
use crate::septic::curve::SepticCurve;
use crate::septic::digest::global_sum;
use crate::shard::gkr_prove::within_cube;
use crate::shard::gkr_rows::{circuit_fits, gkr_rows_proved, prove_shard_logup_gkr_rows,
    CircuitLayer};
use crate::shard::host::chip_index;
use crate::shard::openings::{observe_transcript_prologue, prologue, raw_heights, PaddedMle};
use crate::shard::prove::{are_rounds, assemble_basefold_shard_proof, build_chip_cumulative_sums,
    close_constraints, counts_derived, derived_parts, open_heights, picked, prep_round_fits,
    preprocessed_round, prove_trusted_evaluations, sum_cells, transcripts_agree, CommittedSide};
use crate::shard::residual::{committed_dims, compute_residual_y_openings, distinct_names,
    height_at, height_of, holds_heights, opened_at, opened_matches, residual_claims,
    residual_fits, residual_of, trace_width};
use crate::shard::names::sorted_chips;
use crate::shard::places::name_places;
use crate::shard::sumcheck::PartialSumcheckProof;
use crate::shard::types::{FoldOrientation, LogUpEvaluations, LogUpGkrOutput, LogupGkrRoundProof,
    ShardChip};
use crate::shard::verify::{arities_fit, shard_sponge, BasefoldShardProof};
use crate::transcript::{Sponge, Transcript};
use crate::whir::sumcheck::no_grind;

verus! {

/// The traces of a shard, and what is known of them.
pub struct ShardData {
    /// The chips.
    pub chips: Vec<ShardChip>,
    /// Where the chips' lookups are answered.
    pub scopes: Vec<LookupScope>,
    /// The preprocessed traces.
    pub preprocessed_traces: Vec<PaddedMle>,
    /// The main traces.
    pub main_traces: Vec<PaddedMle>,
    /// The last cells of main traces that are held elsewhere.
    pub chip_cum_tails: Vec<Option<Vec<Felt>>>,
    /// The preprocessed commitment.
    pub preprocessed: CommittedSide,
    /// The main commitment, where it was made before.
    pub commit_data: Option<MainCommit>,
}

/// A main commitment.
pub struct MainCommit {
    /// The digest of the commitment bound to its layout.
    pub main_commitment: Digest,
    /// Its layout.
    pub side: CommittedSide,
}

/// The heights of the traces whose rows are held elsewhere, none for the others.
pub open spec fn heights_elsewhere(traces: Seq<PaddedMle>) -> Seq<Option<usize>> {
    Seq::new(
        traces.len(),
        |i: int|
            if traces[i].inner is None {
                traces[i].metadata_height
            } else {
                None
            },
    )
}

impl ShardData {
    /// The width and height of chip `i` in the main commitment.
    pub open spec fn dims(self, trace_at_z: Seq<(String, Vec<Ext>)>, i: int) -> (nat, nat) {
        committed_dims(
            self.chips@[i],
            self.main_traces@[i],
            self.preprocessed_traces@[i],
            trace_at_z,
            height_at(heights_elsewhere(self.main_traces@), i),
        )
    }

    /// Whether there is one of each for every chip, the names are distinct, and every trace
    /// is within the cube.
    pub open spec fn wf(self, max_log_row_count: nat) -> bool {
        &&& self.chips@.len() > 0
        &&& self.scopes@.len() == self.chips@.len()
        &&& self.preprocessed_traces@.len() == self.chips@.len()
        &&& self.main_traces@.len() == self.chips@.len()
        &&& self.chip_cum_tails@.len() == self.chips@.len()
        &&& distinct_names(self.chips@)
        &&& arities_fit(self.chips@)
        &&& pow2(max_log_row_count) <= usize::MAX
        &&& forall|i: int|
            0 <= i < self.chips@.len() ==> within_cube(
                #[trigger] self.main_traces@[i],
                pow2(max_log_row_count),
            )
        &&& forall|i: int|
            0 <= i < self.chips@.len() ==> within_cube(
                #[trigger] self.preprocessed_traces@[i],
                pow2(max_log_row_count),
            )
    }

    /// The groups of the preprocessed commitment.
    pub open spec fn infos(self) -> Seq<JaggedChipInfo> {
        self.preprocessed.packing.chip_infos@
    }

    /// Whether the columns at a reduced point cover the commitments' columns.
    pub open spec fn covered_by(self, trace_at_z: Seq<(String, Vec<Ext>)>, use_rev: bool) -> bool {
        &&& prep_round_fits(self.chips@, self.infos(), trace_at_z)
        &&& forall|i: int|
            0 <= i < self.chips@.len() ==> residual_fits(
                #[trigger] self.chips@[i],
                self.dims(trace_at_z, i),
                trace_width(self.preprocessed_traces@[i]),
                trace_at_z,
                use_rev,
            )
    }

    /// Whether `rounds` open the preprocessed commitment, with the traces and the first
    /// columns of the chips that it names, and a main commitment, with the columns of every
    /// chip, at a point: the claims are the columns at the reduced point.
    pub open spec fn opened_by(
        self,
        side: CommittedSide,
        trace_at_z: Seq<(String, Vec<Ext>)>,
        point: Seq<E4>,
        rounds: Seq<JaggedOpenRound>,
    ) -> bool {
        are_rounds(
            rounds,
            Seq::new(
                self.infos().len(),
                |i: int|
                    self.preprocessed_traces@[chip_index(
                        self.chips@,
                        self.infos()[i].name@,
                        0,
                    ) as int],
            ),
            Seq::new(
                self.infos().len(),
                |i: int|
                    residual_of(trace_at_z, self.infos()[i].name@).take(
                        self.infos()[i].column_count as int,
                    ),
            ),
            self.preprocessed,
            self.main_traces@,
            side,
            point,
            Seq::new(
                self.chips@.len(),
                |i: int|
                    residual_claims(
                        self.dims(trace_at_z, i),
                        trace_width(self.preprocessed_traces@[i]),
                        residual_of(trace_at_z, self.chips@[i].name@),
                    ),
            ),
            heights_elsewhere(self.main_traces@),
        )
    }

    /// Whether a main commitment is the shard's: the one that was made before, or else one
    /// that `commit` makes of the traces.
    pub open spec fn committed<
        K: Fn(&Vec<ShardChip>, &Vec<PaddedMle>, bool) -> MainCommit,
    >(self, commit: K, core_rev: bool, c: MainCommit) -> bool {
        match self.commit_data {
            Some(given) => c == given,
            None => commit.ensures((&self.chips, &self.main_traces, core_rev), c),
        }
    }
}

/// Whether a constraint argument was proved from a transcript, and gave the columns at its
/// reduced point.
pub open spec fn constraints_proved<
    Z: Fn(
        &ShardData,
        &Vec<Felt>,
        &LogUpEvaluations,
        Ext,
        Ext,
        usize,
        bool,
        Transcript,
    ) -> (PartialSumcheckProof, Vec<(String, Vec<Ext>)>, Transcript),
>(
    zerocheck: Z,
    data: ShardData,
    public_values: Vec<Felt>,
    max_log_row_count: usize,
    core_rev: bool,
    s: Sponge,
    evaluations: LogUpEvaluations,
    proved: PartialSumcheckProof,
    trace_at_z: Vec<(String, Vec<Ext>)>,
) -> bool {
    exists|alpha: Ext, batch: Ext, before: Transcript, after: Transcript|
        {
            &&& alpha@ == s.drawn_ext()
            &&& batch@ == s.after_draw_ext().drawn_ext()
            &&& before.wf()
            &&& before@ == s.after_draw_ext().after_draw_ext()
            &&& #[trigger] zerocheck.ensures(
                (
                    &data,
                    &public_values,
                    &evaluations,
                    alpha,
                    batch,
                    max_log_row_count,
                    core_rev,
                    before,
                ),
                (proved, trace_at_z, after),
            )
        }
}

/// Whether commitments were opened from a transcript.
pub open spec fn commitments_opened<
    R,
    E,
    B,
    O: Fn(Vec<JaggedOpenRound>, &Vec<Ext>, Transcript) -> (EvaluationProof<R, E, B>, Transcript),
>(
    open: O,
    data: ShardData,
    side: CommittedSide,
    trace_at_z: Seq<(String, Vec<Ext>)>,
    s: Sponge,
    p: BasefoldShardProof<R, E, B>,
    end: Sponge,
) -> bool {
    exists|rounds: Vec<JaggedOpenRound>, point: &Vec<Ext>, before: Transcript, after: Transcript|
        {
            &&& data.opened_by(side, trace_at_z, evals(point@), rounds@)
            &&& *point == p.zerocheck_proof.point_and_eval.0
            &&& before.wf()
            &&& before@ == s
            &&& #[trigger] open.ensures((rounds, point, before), (p.evaluation_proof, after))
            &&& after@ == end
        }
}

/// Whether a shard proof was made in turn from a transcript. The commitments are opened on
/// the very transcript that a verifier of the proof has reached.
pub open spec fn shard_proved<
    L,
    R,
    E,
    B,
    K: Fn(&Vec<ShardChip>, &Vec<PaddedMle>, bool) -> MainCommit,
    M: Fn(&Vec<ShardChip>, &Vec<PaddedMle>, &Vec<PaddedMle>, Ext, &Vec<Ext>, usize) -> (
        LogUpGkrOutput,
        Vec<CircuitLayer<L>>,
    ),
    P: Fn(&L, &Vec<Ext>, Ext, Ext, Ext, Transcript) -> (LogupGkrRoundProof, Transcript),
    Z: Fn(
        &ShardData,
        &Vec<Felt>,
        &LogUpEvaluations,
        Ext,
        Ext,
        usize,
        bool,
        Transcript,
    ) -> (PartialSumcheckProof, Vec<(String, Vec<Ext>)>, Transcript),
    O: Fn(Vec<JaggedOpenRound>, &Vec<Ext>, Transcript) -> (EvaluationProof<R, E, B>, Transcript),
    N: Fn(&Vec<usize>, &Vec<usize>, usize) -> (Vec<usize>, usize),
>(
    s: Sponge,
    data: &ShardData,
    max_log_row_count: usize,
    bits: nat,
    core_rev: bool,
    commit: K,
    build: M,
    prove_round: P,
    zerocheck: Z,
    open: O,
    derive: N,
    zero: SepticCurve<Felt>,
    p: BasefoldShardProof<R, E, B>,
    end: Sponge,
) -> bool {
    let chips = data.chips@;
    let start = prologue(
        s,
        fvals(p.public_values@),
        fvals(p.main_commitment@),
        chips,
        raw_heights(data.main_traces@),
    );
    exists|main: MainCommit, middle: Sponge, trace_at_z: Vec<(String, Vec<Ext>)>|
        {
            &&& #[trigger] data.committed(commit, core_rev, main)
            &&& p.main_commitment == main.main_commitment
            &&& #[trigger] gkr_rows_proved(
                start,
                &data.chips,
                &data.preprocessed_traces,
                &data.main_traces,
                max_log_row_count,
                bits,
                build,
                prove_round,
                p.logup_gkr_proof,
                middle,
            )
            &&& #[trigger] constraints_proved(
                zerocheck,
                *data,
                p.public_values,
                max_log_row_count,
                core_rev,
                middle,
                p.logup_gkr_proof.logup_evaluations,
                p.zerocheck_proof,
                trace_at_z,
            )
            &&& commitments_opened(
                open,
                *data,
                main.side,
                trace_at_z@,
                shard_sponge(s, chips, p, bits),
                p,
                end,
            )
            &&& p.fold_orientation == FoldOrientation::Msb
            &&& holds_heights(p.chip_heights@, chips, raw_heights(data.main_traces@), chips.len())
            &&& p.opened_values@.len() == chips.len()
            &&& forall|i: int|
                0 <= i < p.opened_values@.len() ==> opened_matches(
                    #[trigger] p.opened_values@[i],
                    opened_at(chips, trace_at_z@, i),
                    height_of(p.chip_heights@, chips[sorted_chips(chips)[i]].name@),
                    max_log_row_count as nat,
                )
            &&& p.wf()
            &&& p.chip_cumulative_sums@.len() == name_places(chips).len()
            &&& forall|i: int|
                0 <= i < p.chip_cumulative_sums@.len() ==> {
                    let c = name_places(chips)[i];
                    &&& (#[trigger] p.chip_cumulative_sums@[i]).0@ == chips[c].name@
                    &&& p.chip_cumulative_sums@[i].1.local@ == e_zero()
                    &&& p.chip_cumulative_sums@[i].1.global@ == global_sum(
                        data.scopes@[c],
                        sum_cells(data.main_traces@[c], data.chip_cum_tails@[c]),
                        zero@,
                    )
                }
            &&& derived_parts(p)
            &&& counts_derived(derive, p)
        }
}

/// Proves a shard: commits to the traces unless that was done before, absorbs the prologue,
/// proves the lookup argument and the constraint argument, absorbs the columns at the
/// reduced point, opens the commitments there, and assembles the proof. `None` where the proof of work of the lookup argument does not
/// exist. The prover of the constraints draws one challenge and leaves the transcript after
/// its sumcheck.
#[verifier::rlimit(60)]
#[verifier::spinoff_prover]
pub fn prove_shard_with_data<L, R, E, B, K, M, P, Z, O, N>(
    data: &ShardData,
    public_values: Vec<Felt>,
    max_log_row_count: usize,
    grinding_bits: usize,
    core_rev: bool,
    zero: SepticCurve<Felt>,
    challenger: &mut Transcript,
    commit: K,
    build: M,
    prove_round: P,
    zerocheck: Z,
    open: O,
    derive: N,
) -> (r: Option<BasefoldShardProof<R, E, B>>) where
    K: Fn(&Vec<ShardChip>, &Vec<PaddedMle>, bool) -> MainCommit,
    M: Fn(&Vec<ShardChip>, &Vec<PaddedMle>, &Vec<PaddedMle>, Ext, &Vec<Ext>, usize) -> (
        LogUpGkrOutput,
        Vec<CircuitLayer<L>>,
    ),
    P: Fn(&L, &Vec<Ext>, Ext, Ext, Ext, Transcript) -> (LogupGkrRoundProof, Transcript),
    Z: Fn(
        &ShardData,
        &Vec<Felt>,
        &LogUpEvaluations,
        Ext,
        Ext,
        usize,
        bool,
        Transcript,
    ) -> (PartialSumcheckProof, Vec<(String, Vec<Ext>)>, Transcript),
    O: Fn(Vec<JaggedOpenRound>, &Vec<Ext>, Transcript) -> (EvaluationProof<R, E, B>, Transcript),
    N: Fn(&Vec<usize>, &Vec<usize>, usize) -> (Vec<usize>, usize),

    requires
        old(challenger).wf(),
        grinding_bits <= 30,
        max_log_row_count < usize::MAX,
        data.wf(max_log_row_count as nat),
        data.commit_data is None ==> commit.requires((&data.chips, &data.main_traces, core_rev)),
        forall|c: &Vec<usize>, o: &Vec<usize>, t: usize| #[trigger] derive.requires((c, o, t)),
        forall|a: Ext, b: &Vec<Ext>| #[trigger]
            build.requires(
                (
                    &data.chips,
                    &data.preprocessed_traces,
                    &data.main_traces,
                    a,
                    b,
                    max_log_row_count,
                ),
            ),
        forall|a: Ext, b: &Vec<Ext>, o: LogUpGkrOutput, layers: Vec<CircuitLayer<L>>|
            #[trigger] build.ensures(
                (
                    &data.chips,
                    &data.preprocessed_traces,
                    &data.main_traces,
                    a,
                    b,
                    max_log_row_count,
                ),
                (o, layers),
            ) ==> circuit_fits(o, layers@, max_log_row_count as nat),
        forall|layer: &L, point: &Vec<Ext>, num: Ext, den: Ext, lambda: Ext, t: Transcript|
            t.wf() ==> #[trigger] prove_round.requires((layer, point, num, den, lambda, t)),
        forall|
            layer: &L,
            point: &Vec<Ext>,
            num: Ext,
            den: Ext,
            lambda: Ext,
            t: Transcript,
            round: LogupGkrRoundProof,
            u: Transcript,
        |
            t.wf() && #[trigger] prove_round.ensures(
                (layer, point, num, den, lambda, t),
                (round, u),
            ) ==> {
                &&& u.wf()
                &&& u@ == round.sumcheck_proof@.after(t@)
                &&& round.sumcheck_proof.point_and_eval.0@.len() == point@.len()
            },
        forall|e: &LogUpEvaluations, a: Ext, b: Ext, t: Transcript|
            t.wf() ==> #[trigger] zerocheck.requires(
                (data, &public_values, e, a, b, max_log_row_count, core_rev, t),
            ),
        forall|
            e: &LogUpEvaluations,
            a: Ext,
            b: Ext,
            t: Transcript,
            p: PartialSumcheckProof,
            at_z: Vec<(String, Vec<Ext>)>,
            u: Transcript,
        |
            t.wf() && #[trigger] zerocheck.ensures(
                (data, &public_values, e, a, b, max_log_row_count, core_rev, t),
                (p, at_z, u),
            ) ==> {
                &&& u.wf()
                &&& u@ == p@.after(t@.after_draw_ext())
                &&& data.covered_by(at_z@, core_rev)
            },
        forall|c: Vec<JaggedOpenRound>, point: &Vec<Ext>, t: Transcript|
            t.wf() ==> #[trigger] open.requires((c, point, t)),
        forall|
            c: Vec<JaggedOpenRound>,
            point: &Vec<Ext>,
            t: Transcript,
            e: EvaluationProof<R, E, B>,
            u: Transcript,
        |
            t.wf() && #[trigger] open.ensures((c, point, t), (e, u)) ==> u.wf(),
    ensures
        final(challenger).wf(),
        match r {
            None => exists|main: MainCommit| #[trigger]
                data.committed(commit, core_rev, main) && no_grind(
                    prologue(
                        old(challenger)@,
                        fvals(public_values@),
                        fvals(main.main_commitment@),
                        data.chips@,
                        raw_heights(data.main_traces@),
                    ),
                    grinding_bits as nat,
                ),
            Some(p) => {
                &&& p.public_values == public_values
                &&& shard_proved(
                    old(challenger)@,
                    data,
                    max_log_row_count,
                    grinding_bits as nat,
                    core_rev,
                    commit,
                    build,
                    prove_round,
                    zerocheck,
                    open,
                    derive,
                    zero,
                    p,
                    final(challenger)@,
                )
            },
        },
{
    let ghost s = challenger@;
    let ghost bits = grinding_bits as nat;
    let built: MainCommit;
    let main: &MainCommit = match &data.commit_data {
        Some(c) => c,
        None => {
            built = commit(&data.chips, &data.main_traces, core_rev);
            &built
        },
    };
    proof {
        assert(data.committed(commit, core_rev, *main));
    }
    observe_transcript_prologue(
        challenger,
        &public_values,
        &main.main_commitment,
        &data.chips,
        &data.main_traces,
    );
    let gkr = match prove_shard_logup_gkr_rows(
        &data.chips,
        &data.preprocessed_traces,
        max_log_row_count,
        grinding_bits,
        challenger,
        &data.main_traces,
        build,
        prove_round,
    ) {
        None => {
            return None;
        },
        Some(p) => p,
    };
    let ghost middle = challenger@;
    let alpha = challenger.sample_algebra_element();
    let batch = challenger.sample_algebra_element();
    let mine = challenger.duplicate();
    let ghost t1 = mine;
    let (proved, trace_at_z, after) = zerocheck(
        data,
        &public_values,
        &gkr.logup_evaluations,
        alpha,
        batch,
        max_log_row_count,
        core_rev,
        mine,
    );
    proof {
        assert(zerocheck.ensures(
            (
                data,
                &public_values,
                &gkr.logup_evaluations,
                alpha,
                batch,
                max_log_row_count,
                core_rev,
                t1,
            ),
            (proved, trace_at_z, after),
        ));
        assert(constraints_proved(
            zerocheck,
            *data,
            public_values,
            max_log_row_count,
            core_rev,
            middle,
            gkr.logup_evaluations,
            proved,
            trace_at_z,
        ));
        assert(data.covered_by(trace_at_z@, core_rev));
    }
    *challenger = after;
    let (chip_heights, opened_values) = close_constraints(
        challenger,
        &data.chips,
        &data.main_traces,
        &trace_at_z,
        max_log_row_count,
    );
    let heights = open_heights(&data.main_traces);
    proof {
        assert(heights@ =~= heights_elsewhere(data.main_traces@));
    }
    let (preprocessed_chips, preprocessed_claims) = preprocessed_round(
        &data.chips,
        &data.preprocessed.packing.chip_infos,
        &trace_at_z,
    );
    let main_claims = compute_residual_y_openings(
        &data.chips,
        &data.main_traces,
        &data.preprocessed_traces,
        &trace_at_z,
        &gkr.logup_evaluations,
        &heights,
        core_rev,
    );
    proof {
        let infos = data.infos();
        assert forall|i: int| 0 <= i < preprocessed_chips@.len() implies (
        #[trigger] preprocessed_chips@[i]) < data.preprocessed_traces@.len() by {
            assert(chip_index(data.chips@, infos[i].name@, 0) < data.chips@.len());
        }
        assert(picked(data.preprocessed_traces@, preprocessed_chips@) =~= Seq::new(
            infos.len(),
            |i: int|
                data.preprocessed_traces@[chip_index(data.chips@, infos[i].name@, 0) as int],
        ));
        assert(epoints(preprocessed_claims@) =~= Seq::new(
            infos.len(),
            |i: int|
                residual_of(trace_at_z@, infos[i].name@).take(infos[i].column_count as int),
        ));
        assert(epoints(main_claims@) =~= Seq::new(
            data.chips@.len(),
            |i: int|
                residual_claims(
                    data.dims(trace_at_z@, i),
                    trace_width(data.preprocessed_traces@[i]),
                    residual_of(trace_at_z@, data.chips@[i].name@),
                ),
        ));
    }
    let rounds = prove_trusted_evaluations(
        &data.preprocessed_traces,
        &preprocessed_chips,
        preprocessed_claims,
        &data.preprocessed,
        &data.main_traces,
        &main.side,
        proved.point_and_eval.0.as_slice(),
        main_claims,
        &heights,
    );
    let ghost opened = rounds;
    proof {
        assert(data.opened_by(
            main.side,
            trace_at_z@,
            evals(proved.point_and_eval.0@),
            opened@,
        ));
    }
    let ghost reached = challenger@;
    let mine = challenger.duplicate();
    let ghost t2 = mine;
    let (evaluation_proof, end) = open(rounds, &proved.point_and_eval.0, mine);
    proof {
        assert(open.ensures((opened, &proved.point_and_eval.0, t2), (evaluation_proof, end)));
    }
    *challenger = end;
    let sums = build_chip_cumulative_sums(
        &data.chips,
        &data.scopes,
        &data.main_traces,
        &data.chip_cum_tails,
        zero,
    );
    let p = assemble_basefold_shard_proof(
        public_values,
        main.main_commitment,
        gkr,
        proved,
        opened_values,
        chip_heights,
        sums,
        evaluation_proof,
        FoldOrientation::Msb,
        derive,
    );
    proof {
        let chips = data.chips@;
        assert forall|i: int|
            #![trigger p.opened_values@[i]]
            0 <= i < p.opened_values@.len() implies (
            evals(p.opened_values@[i].preprocessed@),
            evals(p.opened_values@[i].main@),
        ) == opened_at(chips, trace_at_z@, i) by {
            assert(opened_matches(
                p.opened_values@[i],
                opened_at(chips, trace_at_z@, i),
                height_of(p.chip_heights@, chips[sorted_chips(chips)[i]].name@),
                max_log_row_count as nat,
            ));
        }
        transcripts_agree(s, chips, data.main_traces@, trace_at_z@, p, bits);
        assert(reached == shard_sponge(s, chips, p, bits));
        assert(commitments_opened(
            open,
            *data,
            main.side,
            trace_at_z@,
            shard_sponge(s, chips, p, bits),
            p,
            challenger@,
        ));
        assert(shard_proved(
            s,
            data,
            max_log_row_count,
            bits,
            core_rev,
            commit,
            build,
            prove_round,
            zerocheck,
            open,
            derive,
            zero,
            p,
            challenger@,
        ));
    }
    Some(p)
}

} // verus!
