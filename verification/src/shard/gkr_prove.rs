//! The prover of the lookup argument, around the circuit's layers: the challenges, the walk
//! from layer to layer, and the trace openings at the point where it ends.
use vstd::prelude::*;
use vstd::arithmetic::power2::pow2;
use crate::arith::{ceil_log2, ceil_log2_of};
use crate::ext::{e_zero, embed, evals, fvals, Ext, E4};
use crate::felt::Felt;
use crate::mle::{eq_tab, esum};
use crate::multilinear::copy_exts;
use crate::shard::gkr::{beta_seed_dim, challenge_weights, challenges_sponge, is_pow2, reversed,
    round_val, round_vals, walk, walk_end, walk_start, walk_step, GkrWalk, LogupChallenges,
    RoundVal, WalkState};
use crate::shard::lookup::{table_height, Trace};
use crate::shard::names::as_ints;
use crate::shard::places::{find_name_places, is_name_map, name_lt, name_places, name_places_hold};
use crate::shard::openings::{gkr_pairs, observe_logup_gkr_openings, observe_openings, PaddedMle};
use crate::shard::rebuild::zeros;
use crate::shard::types::{opt_evals, ChipEvaluation, LogUpEvaluations, LogUpGkrOutput,
    LogupGkrProof, LogupGkrRoundProof, ShardChip};
use crate::shard::verify::{arities_fit, seed_dim};
use crate::transcript::{Sponge, Transcript};
use crate::whir::encode::cell_bound;
use crate::whir::queries::zero_exts;
use crate::whir::sumcheck::{eq_table, is_grind, no_grind};

verus! {

/// Finds the proof of work and draws the challenges of the lookup argument. `None` where no
/// proof of work exists.
pub fn draw_logup_challenges(
    chips: &Vec<ShardChip>,
    grinding_bits: usize,
    challenger: &mut Transcript,
) -> (r: Option<(Felt, LogupChallenges)>)
    requires
        old(challenger).wf(),
        grinding_bits <= 30,
        arities_fit(chips@),
    ensures
        final(challenger).wf(),
        ({
            let s = old(challenger)@;
            let bits = grinding_bits as nat;
            let dim = seed_dim(chips@);
            match r {
                Some((witness, c)) => {
                    &&& is_grind(s, bits, witness@)
                    &&& c.alpha@ == s.after_pow(bits, witness@).drawn_ext()
                    &&& evals(c.betas@) == challenge_weights(s, bits, witness@, dim)
                    &&& c.betas@.len() == pow2(dim)
                    &&& final(challenger)@ == challenges_sponge(s, bits, witness@, dim)
                },
                None => no_grind(s, bits),
            }
        }),
{
    let witness = match challenger.grind(grinding_bits) {
        None => {
            return None;
        },
        Some(w) => w,
    };
    let alpha = challenger.sample_algebra_element();
    let dim: usize = beta_seed_dim(chips);
    let seed = challenger.sample_point(dim);
    proof {
        crate::felt::felt_canonical(witness);
        assert(evals(seed@).len() == seed@.len());
    }
    let rev = reversed(seed.as_slice());
    let betas = eq_table(dim, rev.as_slice());
    Some((witness, LogupChallenges { alpha, betas }))
}

/// The prover's state between the layers.
pub struct LayerWalk {
    /// The circuit's output.
    pub output: LogUpGkrOutput,
    /// The rounds so far.
    pub round_proofs: Vec<LogupGkrRoundProof>,
    /// The point, numerator and denominator.
    pub walk: GkrWalk,
}

impl LayerWalk {
    /// The number of variables of the circuit's output.
    pub open spec fn vars(self) -> nat {
        ceil_log2_of(self.output.numerator@.len())
    }

    /// Whether the state is that of a walk over the rounds so far, which began from `s`.
    pub open spec fn walked(self, s: Sponge, now: Sponge) -> bool {
        let n = evals(self.output.numerator@);
        let d = evals(self.output.denominator@);
        &&& self.output.numerator@.len() == self.output.denominator@.len()
        &&& is_pow2(self.output.numerator@.len())
        &&& self.walk.at(now) == walk(
            walk_start(s, n, d),
            round_vals(self.round_proofs@),
            self.vars(),
            self.round_proofs@.len(),
        )
    }

    /// Absorbs the circuit's output and draws the first point.
    pub fn begin(output: LogUpGkrOutput, challenger: &mut Transcript) -> (r: LayerWalk)
        requires
            old(challenger).wf(),
            output.numerator@.len() == output.denominator@.len(),
            is_pow2(output.numerator@.len()),
        ensures
            final(challenger).wf(),
            r.output == output,
            r.round_proofs@.len() == 0,
            r.walked(old(challenger)@, final(challenger)@),
    {
        let w = GkrWalk::start(&output, challenger);
        proof {
            assert(evals(output.numerator@).len() == output.numerator@.len());
        }
        LayerWalk { output, round_proofs: Vec::new(), walk: w }
    }

    /// Draws the challenge that batches numerator and denominator in the next round, and
    /// the claim of that round's sumcheck.
    pub fn next_round(&self, challenger: &mut Transcript) -> (r: (Ext, Ext))
        requires
            old(challenger).wf(),
        ensures
            final(challenger).wf(),
            r.0@ == old(challenger)@.drawn_ext(),
            r.1@ == r.0@ * self.walk.numerator_eval@ + self.walk.denominator_eval@,
            final(challenger)@ == old(challenger)@.after_draw_ext(),
    {
        let lambda = challenger.sample_algebra_element();
        (lambda, lambda.times(self.walk.numerator_eval).plus(self.walk.denominator_eval))
    }

    /// Absorbs a round and moves to the next point. The transcript is the one after the
    /// round's sumcheck.
    pub fn absorb(&mut self, round: LogupGkrRoundProof, challenger: &mut Transcript)
        requires
            old(challenger).wf(),
            old(self).output.numerator@.len() > 1,
            old(self).vars() - 1 <= round.sumcheck_proof.point_and_eval.0@.len(),
        ensures
            final(challenger).wf(),
            final(self).output == old(self).output,
            final(self).round_proofs@ == old(self).round_proofs@.push(round),
            forall|s: Sponge, before: Sponge|
                #[trigger] old(self).walked(s, before) && round.sumcheck_proof@.after(
                    before.after_draw_ext(),
                ) == old(challenger)@ ==> final(self).walked(s, final(challenger)@),
    {
        let vars: usize = ceil_log2(self.output.numerator.len());
        proof {
            if vars == 0 {
                vstd::arithmetic::power2::lemma2_to64();
            }
        }
        let ghost was = *self;
        let next = self.walk.advance(&round, vars, challenger);
        proof {
            assert forall|s: Sponge, before: Sponge|
                #[trigger] was.walked(s, before) && round.sumcheck_proof@.after(
                    before.after_draw_ext(),
                ) == old(challenger)@ implies next.at(challenger@) == walk(
                walk_start(s, evals(was.output.numerator@), evals(was.output.denominator@)),
                round_vals(was.round_proofs@.push(round)),
                was.vars(),
                was.round_proofs@.len() + 1,
            ) by {
                let start = walk_start(
                    s,
                    evals(was.output.numerator@),
                    evals(was.output.denominator@),
                );
                let a = round_vals(was.round_proofs@);
                let b = round_vals(was.round_proofs@.push(round));
                let k = was.round_proofs@.len();
                walk_prefix(start, a, b, was.vars(), k);
                let st = was.walk.at(before);
                assert(next.at(challenger@) == walk_step(st, round_val(round), vars as nat));
                assert(b[k as int] == round_val(round));
            }
        }
        self.walk = next;
        self.round_proofs.push(round);
    }
}

proof fn walk_prefix(start: WalkState, a: Seq<RoundVal>, b: Seq<RoundVal>, vars: nat, k: nat)
    requires
        k <= a.len(),
        k <= b.len(),
        forall|i: int| 0 <= i < k ==> #[trigger] a[i] == b[i],
    ensures
        walk(start, a, vars, k) == walk(start, b, vars, k),
    decreases k,
{
    if k > 0 {
        walk_prefix(start, a, b, vars, (k - 1) as nat);
        assert(a[k - 1] == b[k - 1]);
    }
}

/// A column of a trace at a point, least significant coordinate first, the rows past the
/// trace being zero.
pub open spec fn column_at(values: Seq<int>, width: nat, c: int, point: Seq<E4>) -> E4 {
    let t = eq_tab(point);
    esum(table_height(values.len(), width), |row: int| t[row] * embed(values[row * width + c]))
}

/// All columns of a trace at a point.
pub open spec fn columns_at(values: Seq<int>, width: nat, point: Seq<E4>) -> Seq<E4> {
    Seq::new(width, |c: int| column_at(values, width, c, point))
}

/// The columns of a trace at a point.
pub fn evaluate_trace_columns_at_point(t: &Trace, point: &[Ext]) -> (r: Vec<Ext>)
    requires
        pow2(point@.len()) <= usize::MAX,
        table_height(t.values@.len(), t.width as nat) <= pow2(point@.len()),
    ensures
        evals(r@) == columns_at(fvals(t.values@), t.width as nat, evals(point@)),
{
    let w: usize = t.width;
    let height: usize = if w == 0 {
        0
    } else {
        t.values.len() / w
    };
    let ghost p = evals(point@);
    let ghost vals = fvals(t.values@);
    let len: usize = t.values.len();
    let table = eq_table(point.len(), point);
    proof {
        assert(p.len() == point@.len());
        assert(evals(table@).len() == table@.len());
        assert(vals.len() == t.values@.len());
        if w > 0 {
            vstd::arithmetic::div_mod::lemma_fundamental_div_mod(len as int, w as int);
            assert(height * w <= len) by (nonlinear_arith)
                requires
                    len == w as int * (height as int) + len as int % (w as int),
                    len as int % (w as int) >= 0,
            ;
        }
    }
    let mut r: Vec<Ext> = Vec::new();
    let mut c: usize = 0;
    while c < w
        invariant
            c <= w,
            w == t.width,
            len == t.values@.len(),
            vals == fvals(t.values@),
            vals.len() == len,
            p == evals(point@),
            evals(table@) == eq_tab(p),
            table@.len() == pow2(p.len()),
            height == table_height(len as nat, w as nat),
            height <= pow2(p.len()),
            w > 0 ==> height * w <= len,
            r@.len() == c,
            forall|j: int| 0 <= j < c ==> (#[trigger] r@[j])@ == column_at(vals, w as nat, j, p),
        decreases w - c,
    {
        let ghost g = |row: int| eq_tab(p)[row] * embed(vals[row * w + c]);
        let mut acc = Ext::zero();
        let mut row: usize = 0;
        while row < height
            invariant
                row <= height,
                c < w,
                w == t.width,
                len == t.values@.len(),
                vals == fvals(t.values@),
                evals(table@) == eq_tab(p),
                table@.len() == pow2(p.len()),
                height <= pow2(p.len()),
                height * w <= len,
                g == (|row: int| eq_tab(p)[row] * embed(vals[row * w + c])),
                acc@ == esum(row as nat, g),
            decreases height - row,
        {
            proof {
                cell_bound(row as int, c as int, height as int, w as int);
                assert(0 <= row * w) by (nonlinear_arith);
            }
            let cell = Ext::from_base(t.values[row * w + c]);
            acc = acc.plus(table[row].times(cell));
            row = row + 1;
        }
        r.push(acc);
        c = c + 1;
    }
    proof {
        assert(evals(r@) =~= columns_at(vals, w as nat, p));
    }
    r
}

/// The opening of one chip: its columns at the point, zeros for main columns that are held
/// elsewhere, and none for absent preprocessed ones.
pub open spec fn opening_of(
    e: ChipEvaluation,
    chip: ShardChip,
    main: PaddedMle,
    prep: PaddedMle,
    point: Seq<E4>,
) -> bool {
    &&& e.log_degree == ceil_log2_of(open_height(main))
    &&& e.main_trace_evaluations_full is Some
    &&& opt_evals(e.main_trace_evaluations_full) == (match main.inner {
        Some(t) => columns_at(fvals(t.values@), t.width as nat, point),
        None => zeros(chip.width as nat),
    })
    &&& match prep.inner {
        Some(t) => {
            &&& e.preprocessed_trace_evaluations_full is Some
            &&& opt_evals(e.preprocessed_trace_evaluations_full) == columns_at(
                fvals(t.values@),
                t.width as nat,
                point,
            )
        },
        None => e.preprocessed_trace_evaluations_full is None,
    }
}

/// The height of a trace, one where nothing is known of it.
pub open spec fn open_height(pm: PaddedMle) -> nat {
    match pm.inner {
        Some(t) => table_height(t.values@.len(), t.width as nat),
        None => match pm.metadata_height {
            Some(h) => h as nat,
            None => 1,
        },
    }
}

/// Whether the rows of a trace are within the cube.
pub open spec fn within_cube(pm: PaddedMle, cube: nat) -> bool {
    pm.inner matches Some(t) ==> table_height(t.values@.len(), t.width as nat) <= cube
}

fn open_chip(chip: &ShardChip, main: &PaddedMle, prep: &PaddedMle, point: &[Ext]) -> (r:
    ChipEvaluation)
    requires
        pow2(point@.len()) <= usize::MAX,
        within_cube(*main, pow2(point@.len())),
        within_cube(*prep, pow2(point@.len())),
    ensures
        opening_of(r, *chip, *main, *prep, evals(point@)),
{
    let height: usize = match &main.inner {
        Some(t) => if t.width == 0 {
            0
        } else {
            t.values.len() / t.width
        },
        None => match main.metadata_height {
            Some(h) => h,
            None => 1,
        },
    };
    let columns = match &main.inner {
        Some(t) => evaluate_trace_columns_at_point(t, point),
        None => {
            let z = zero_exts(chip.width);
            proof {
                assert(evals(z@) =~= zeros(chip.width as nat));
            }
            z
        },
    };
    let prep_columns = match &prep.inner {
        Some(t) => Some(evaluate_trace_columns_at_point(t, point)),
        None => None,
    };
    let log: usize = ceil_log2(height);
    ChipEvaluation {
        log_degree: log as u8,
        main_trace_evaluations_full: Some(columns),
        preprocessed_trace_evaluations_full: prep_columns,
    }
}

/// The last coordinates of a point, as many as there are rows variables, below zeros where
/// the point has fewer.
pub open spec fn trace_point(point: Seq<E4>, vars: nat) -> Seq<E4> {
    if point.len() >= vars {
        point.skip(point.len() - vars)
    } else {
        zeros((vars - point.len()) as nat) + point
    }
}

fn trace_coords(point: &Vec<Ext>, vars: usize) -> (r: Vec<Ext>)
    ensures
        evals(r@) == trace_point(evals(point@), vars as nat),
{
    let n: usize = point.len();
    if n >= vars {
        let r = copy_exts(vstd::slice::slice_subrange(point.as_slice(), n - vars, n));
        proof {
            assert(evals(r@) =~= evals(point@).skip(n - vars));
        }
        r
    } else {
        let mut r = zero_exts(vars - n);
        let ghost z = r@;
        let mut rest = copy_exts(point.as_slice());
        r.append(&mut rest);
        proof {
            assert(evals(z) =~= zeros((vars - n) as nat));
            assert(evals(r@) =~= evals(z) + evals(point@));
        }
        r
    }
}

/// Opens every chip at the end of the walk, in the order of the chips' names, assembles the
/// proof, and absorbs the openings. The chips' names are distinct, and the walk ends at a
/// point of at least as many coordinates as there are row variables.
pub fn finish_logup_gkr_rows(
    done: LayerWalk,
    witness: Felt,
    chips: &Vec<ShardChip>,
    preprocessed_traces: &Vec<PaddedMle>,
    shared_trace_mles: &Vec<PaddedMle>,
    max_log_row_count: usize,
    challenger: &mut Transcript,
) -> (r: LogupGkrProof)
    requires
        old(challenger).wf(),
        chips@.len() == shared_trace_mles@.len(),
        chips@.len() == preprocessed_traces@.len(),
        done.walk.eval_point@.len() >= max_log_row_count,
        pow2(max_log_row_count as nat) <= usize::MAX,
        forall|i: int|
            0 <= i < chips@.len() ==> within_cube(
                #[trigger] shared_trace_mles@[i],
                pow2(max_log_row_count as nat),
            ),
        forall|i: int|
            0 <= i < chips@.len() ==> within_cube(
                #[trigger] preprocessed_traces@[i],
                pow2(max_log_row_count as nat),
            ),
    ensures
        final(challenger).wf(),
        r.circuit_output == done.output,
        r.round_proofs == done.round_proofs,
        r.witness == witness,
        ({
            let point = trace_point(evals(done.walk.eval_point@), max_log_row_count as nat);
            let order = name_places(chips@);
            let list = r.logup_evaluations.chip_openings@;
            &&& evals(r.logup_evaluations.point@) == point
            &&& is_name_map(list)
            &&& list.len() == order.len()
            &&& forall|i: int|
                0 <= i < list.len() ==> {
                    &&& (#[trigger] list[i]).0@ == chips@[order[i]].name@
                    &&& opening_of(
                        list[i].1,
                        chips@[order[i]],
                        shared_trace_mles@[order[i]],
                        preprocessed_traces@[order[i]],
                        point,
                    )
                }
            &&& final(challenger)@ == observe_openings(
                old(challenger)@,
                chips@.len(),
                gkr_pairs(list),
            )
        }),
{
    let point = trace_coords(&done.walk.eval_point, max_log_row_count);
    let ghost gp = evals(point@);
    proof {
        assert(gp.len() == point@.len());
        assert(evals(done.walk.eval_point@).len() == done.walk.eval_point@.len());
        assert(gp.len() == max_log_row_count);
    }
    let order = find_name_places(chips);
    let ghost o = as_ints(order@);
    proof {
        name_places_hold(chips@);
    }
    let mut chip_openings: Vec<(String, ChipEvaluation)> = Vec::new();
    let mut i: usize = 0;
    while i < order.len()
        invariant
            i <= order@.len(),
            o == as_ints(order@),
            o == name_places(chips@),
            forall|i: int| 0 <= i < order@.len() ==> (#[trigger] order@[i]) < chips@.len(),
            chips@.len() == shared_trace_mles@.len(),
            chips@.len() == preprocessed_traces@.len(),
            gp == evals(point@),
            point@.len() == max_log_row_count,
            pow2(max_log_row_count as nat) <= usize::MAX,
            forall|i: int|
                0 <= i < chips@.len() ==> within_cube(
                    #[trigger] shared_trace_mles@[i],
                    pow2(max_log_row_count as nat),
                ),
            forall|i: int|
                0 <= i < chips@.len() ==> within_cube(
                    #[trigger] preprocessed_traces@[i],
                    pow2(max_log_row_count as nat),
                ),
            chip_openings@.len() == i,
            forall|j: int|
                0 <= j < i ==> {
                    &&& (#[trigger] chip_openings@[j]).0@ == chips@[o[j]].name@
                    &&& opening_of(
                        chip_openings@[j].1,
                        chips@[o[j]],
                        shared_trace_mles@[o[j]],
                        preprocessed_traces@[o[j]],
                        gp,
                    )
                },
        decreases order@.len() - i,
    {
        proof {
            assert(o[i as int] == order@[i as int]);
        }
        let at: usize = order[i];
        proof {
            assert(within_cube(
                shared_trace_mles@[at as int],
                pow2(max_log_row_count as nat),
            ));
            assert(within_cube(
                preprocessed_traces@[at as int],
                pow2(max_log_row_count as nat),
            ));
        }
        let e = open_chip(
            &chips[at],
            &shared_trace_mles[at],
            &preprocessed_traces[at],
            point.as_slice(),
        );
        chip_openings.push((chips[at].name.clone(), e));
        i = i + 1;
    }
    proof {
        assert forall|i: int, j: int| 0 <= i < j < chip_openings@.len() implies name_lt(
            (#[trigger] chip_openings@[i]).0@,
            (#[trigger] chip_openings@[j]).0@,
        ) by {
            assert(name_lt(chips@[o[i]].name@, chips@[o[j]].name@));
        }
    }
    let logup_evaluations = LogUpEvaluations { point, chip_openings };
    observe_logup_gkr_openings(challenger, chips.len(), &logup_evaluations);
    LogupGkrProof {
        circuit_output: done.output,
        round_proofs: done.round_proofs,
        logup_evaluations,
        witness,
    }
}

/// Prover and verifier walk alike: the state that the prover's walk ends in is the one that
/// the verifier's walk over the finished proof ends in.
pub proof fn walks_agree(done: LayerWalk, gkr: LogupGkrProof, s: Sponge, now: Sponge)
    requires
        done.walked(s, now),
        gkr.circuit_output == done.output,
        gkr.round_proofs == done.round_proofs,
    ensures
        walk_end(gkr, s) == done.walk.at(now),
{
    assert(evals(done.output.numerator@).len() == done.output.numerator@.len());
}

/// The point of the traces is made of the last coordinates of the point of the last layer:
/// what is left of it when the coordinates of the lookups are taken off. Where there are too
/// few coordinates, zeros stand in front of them.
pub proof fn trace_point_is_the_rest(lookups: Seq<E4>, rows: Seq<E4>, short: nat)
    ensures
        trace_point(lookups + rows, rows.len()) == rows,
        trace_point(rows, short + rows.len()) == Seq::new(short, |i: int| e_zero()) + rows,
{
    assert((lookups + rows).skip(lookups.len() as int) =~= rows);
    assert(trace_point(rows, short + rows.len()) =~= Seq::new(short, |i: int| e_zero()) + rows);
}

} // verus!
