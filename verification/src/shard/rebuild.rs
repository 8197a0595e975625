//! Rebuilding the last layer of the lookup argument from the chips' trace openings.
use vstd::prelude::*;
use vstd::arithmetic::power2::pow2;
use crate::arith::pow2_usize;
use crate::ext::{e_one, e_zero, evals, Ext, E4};
use crate::mle::mle_eval;
use crate::multilinear::{copy_exts, same_point};
use crate::shard::error::{gkr_error, message2, text2, BasefoldVerifyError, ShardRefusal};
use crate::shard::gkr::{reversed, LogupChallenges};
use crate::shard::lookup::Lookup;
use crate::shard::names::{entry_index, find_entry};
use crate::shard::points::{evaluate_mle_host, full_geq, full_geq_host};
use crate::shard::types::{opt_evals, opt_len, ChipEvaluation, ChipOpenedValues, LogUpEvaluations, ShardChip};
use crate::text::join;
use crate::whir::queries::zero_exts;

verus! {

/// `n` zeros.
pub open spec fn zeros(n: nat) -> Seq<E4> {
    Seq::new(n, |i: int| e_zero())
}

/// `n` ones.
pub open spec fn ones(n: nat) -> Seq<E4> {
    Seq::new(n, |i: int| e_one())
}

/// The fraction of a lookup at a point: the fraction of the opened columns with the
/// padding rows, whose share is `geq`, replaced by the fraction zero over one.
pub open spec fn masked_fraction(
    l: Lookup,
    prep: Seq<E4>,
    main: Seq<E4>,
    geq: E4,
    is_send: bool,
    alpha: E4,
    betas: Seq<E4>,
) -> (E4, E4) {
    let seen = l.ext_fraction(prep, main, alpha, betas);
    let pad = l.ext_fraction(zeros(prep.len()), zeros(main.len()), alpha, betas);
    let num = seen.0 - pad.0 * geq;
    (
        if is_send {
            num
        } else {
            e_zero() - num
        },
        seen.1 + (e_one() - pad.1) * geq,
    )
}

/// The masked fractions of a list of lookups.
pub open spec fn masked_list(
    s: Seq<Lookup>,
    prep: Seq<E4>,
    main: Seq<E4>,
    geq: E4,
    is_send: bool,
    alpha: E4,
    betas: Seq<E4>,
) -> Seq<(E4, E4)> {
    Seq::new(s.len(), |i: int| masked_fraction(s[i], prep, main, geq, is_send, alpha, betas))
}

/// The masked fractions of a chip: what it sends, then what it receives.
pub open spec fn chip_fractions(
    chip: ShardChip,
    e: ChipEvaluation,
    geq: E4,
    alpha: E4,
    betas: Seq<E4>,
) -> Seq<(E4, E4)> {
    let prep = opt_evals(e.preprocessed_trace_evaluations_full);
    let main = opt_evals(e.main_trace_evaluations_full);
    masked_list(chip.lookups.sends@, prep, main, geq, true, alpha, betas) + masked_list(
        chip.lookups.receives@,
        prep,
        main,
        geq,
        false,
        alpha,
        betas,
    )
}

/// The trace point as the height mask reads it: reversed, below a zero.
pub open spec fn extended_point(trace_point: Seq<E4>) -> Seq<E4> {
    seq![e_zero()] + trace_point.reverse()
}

/// Why the opening of chip `c` is refused, if it is.
pub open spec fn chip_refusal(
    chip: ShardChip,
    opening: ChipOpenedValues,
    openings: Seq<(String, ChipEvaluation)>,
    dim: nat,
) -> Option<Seq<char>> {
    if opening.degree().len() != dim {
        Some(
            text2(
                ("reconstruction: chip '"@ + chip.name@) + "' degree dim "@,
                opening.degree().len(),
                " != point_extended dim "@,
                dim,
                ""@,
            ),
        )
    } else if entry_index(openings, chip.name@, 0) >= openings.len() {
        Some(("reconstruction: no chip_opening for chip '"@ + chip.name@) + "'"@)
    } else {
        None
    }
}

/// Why the first refused of the first `k` chips is refused.
pub open spec fn chips_refusal(
    chips: Seq<ShardChip>,
    opened: Seq<ChipOpenedValues>,
    openings: Seq<(String, ChipEvaluation)>,
    dim: nat,
    k: nat,
) -> Option<Seq<char>>
    decreases k,
{
    if k == 0 {
        None
    } else {
        match chips_refusal(chips, opened, openings, dim, (k - 1) as nat) {
            Some(e) => Some(e),
            None => chip_refusal(chips[k - 1], opened[k - 1], openings, dim),
        }
    }
}

proof fn chips_refusal_stays(
    chips: Seq<ShardChip>,
    opened: Seq<ChipOpenedValues>,
    openings: Seq<(String, ChipEvaluation)>,
    dim: nat,
    j: nat,
    k: nat,
)
    requires
        j <= k,
        chips_refusal(chips, opened, openings, dim, j) is Some,
    ensures
        chips_refusal(chips, opened, openings, dim, k) == chips_refusal(
            chips,
            opened,
            openings,
            dim,
            j,
        ),
    decreases k,
{
    if j < k {
        chips_refusal_stays(chips, opened, openings, dim, j, (k - 1) as nat);
    }
}

/// The masked fractions of the first `k` chips, one chip after the other.
pub open spec fn rebuilt(
    chips: Seq<ShardChip>,
    opened: Seq<ChipOpenedValues>,
    openings: Seq<(String, ChipEvaluation)>,
    ext_point: Seq<E4>,
    alpha: E4,
    betas: Seq<E4>,
    k: nat,
) -> Seq<(E4, E4)>
    decreases k,
{
    if k == 0 {
        Seq::empty()
    } else {
        let c = chips[k - 1];
        let e = openings[entry_index(openings, c.name@, 0) as int].1;
        let geq = full_geq(opened[k - 1].degree(), ext_point);
        rebuilt(chips, opened, openings, ext_point, alpha, betas, (k - 1) as nat) + chip_fractions(
            c,
            e,
            geq,
            alpha,
            betas,
        )
    }
}

/// The numerators, padded with zeros.
pub open spec fn padded_nums(s: Seq<(E4, E4)>, width: nat) -> Seq<E4> {
    Seq::new(s.len(), |i: int| s[i].0) + zeros((width - s.len()) as nat)
}

/// The denominators, padded with ones.
pub open spec fn padded_dens(s: Seq<(E4, E4)>, width: nat) -> Seq<E4> {
    Seq::new(s.len(), |i: int| s[i].1) + ones((width - s.len()) as nat)
}

/// Whether the lookups of a chip read only columns of its opening.
pub open spec fn opening_fits(chip: ShardChip, openings: Seq<(String, ChipEvaluation)>) -> bool {
    let i = entry_index(openings, chip.name@, 0);
    i < openings.len() ==> chip.lookups.fits(
        opt_len(openings[i as int].1.preprocessed_trace_evaluations_full),
        opt_len(openings[i as int].1.main_trace_evaluations_full),
    )
}

/// Whether the lookups read only columns of the openings, for the chips that are looked at.
pub open spec fn openings_fit(
    chips: Seq<ShardChip>,
    opened: Seq<ChipOpenedValues>,
    point: Seq<E4>,
    openings: Seq<(String, ChipEvaluation)>,
    eval_point: Seq<E4>,
    axis: nat,
) -> bool {
    let trace_point = eval_point.skip(axis as int);
    point == trace_point && opened.len() == chips.len() ==> chips_fit(
        chips,
        opened,
        openings,
        extended_point(trace_point).len(),
    )
}

/// Whether the lookups of every chip read only columns of its opening, up to the first chip
/// that is refused.
pub open spec fn chips_fit(
    chips: Seq<ShardChip>,
    opened: Seq<ChipOpenedValues>,
    openings: Seq<(String, ChipEvaluation)>,
    dim: nat,
) -> bool {
    forall|c: int|
        0 <= c < chips.len() && chips_refusal(chips, opened, openings, dim, (c + 1) as nat) is None
            ==> opening_fits(#[trigger] chips[c], openings)
}

/// Why the last layer is refused, if it is.
pub open spec fn rebuild_refusal(
    chips: Seq<ShardChip>,
    opened: Seq<ChipOpenedValues>,
    point: Seq<E4>,
    openings: Seq<(String, ChipEvaluation)>,
    eval_point: Seq<E4>,
    num: E4,
    den: E4,
    alpha: E4,
    betas: Seq<E4>,
    axis: nat,
) -> Option<Seq<char>> {
    let trace_point = eval_point.skip(axis as int);
    let ext_point = extended_point(trace_point);
    if point != trace_point {
        Some("reconstruction: logup_evaluations.point != reduced trace_point"@)
    } else if opened.len() != chips.len() {
        Some(
            text2(
                "reconstruction: opened_values chip count "@,
                opened.len(),
                " != chips "@,
                chips.len(),
                ""@,
            ),
        )
    } else {
        match chips_refusal(chips, opened, openings, ext_point.len(), chips.len()) {
            Some(e) => Some(e),
            None => {
                let all = rebuilt(chips, opened, openings, ext_point, alpha, betas, chips.len());
                if all.len() > pow2(axis) {
                    Some(
                        text2(
                            "reconstruction: interaction axis "@,
                            pow2(axis),
                            " is narrower than the chips' raw interaction total "@,
                            all.len(),
                            ""@,
                        ),
                    )
                } else if num != mle_eval(
                    padded_nums(all, pow2(axis)),
                    eval_point.take(axis as int),
                ) {
                    Some(
                        "last-layer reconstruction: numerator mismatch (degree-masked height-soundness assert)"@,
                    )
                } else if den != mle_eval(
                    padded_dens(all, pow2(axis)),
                    eval_point.take(axis as int),
                ) {
                    Some(
                        "last-layer reconstruction: denominator mismatch (degree-masked height-soundness assert)"@,
                    )
                } else {
                    None
                }
            },
        }
    }
}

/// Appends the masked fractions of a list of lookups.
fn push_masked(
    s: &Vec<Lookup>,
    prep: &[Ext],
    main: &[Ext],
    geq: Ext,
    is_send: bool,
    ch: &LogupChallenges,
    nums: &mut Vec<Ext>,
    dens: &mut Vec<Ext>,
)
    requires
        ch.betas@.len() > 0,
        forall|i: int|
            0 <= i < s@.len() ==> (#[trigger] s@[i]).fits(prep@.len(), main@.len()),
        old(nums)@.len() == old(dens)@.len(),
    ensures
        pairs(final(nums)@, final(dens)@) == pairs(old(nums)@, old(dens)@) + masked_list(
            s@,
            evals(prep@),
            evals(main@),
            geq@,
            is_send,
            ch.alpha@,
            evals(ch.betas@),
        ),
        final(nums)@.len() == final(dens)@.len(),
        final(nums)@.len() == old(nums)@.len() + s@.len(),
{
    let pad_main = zero_exts(main.len());
    let pad_prep = zero_exts(prep.len());
    let ghost gp = evals(prep@);
    let ghost gm = evals(main@);
    let ghost gb = evals(ch.betas@);
    let ghost before = pairs(nums@, dens@);
    let ghost start = nums@.len();
    proof {
        assert(evals(pad_main@) =~= zeros(gm.len()));
        assert(evals(pad_prep@) =~= zeros(gp.len()));
    }
    let one = Ext::one();
    let mut i: usize = 0;
    proof {
        assert(before + masked_list(s@, gp, gm, geq@, is_send, ch.alpha@, gb).take(0) =~= before);
    }
    while i < s.len()
        invariant
            i <= s@.len(),
            ch.betas@.len() > 0,
            forall|i: int|
                0 <= i < s@.len() ==> (#[trigger] s@[i]).fits(prep@.len(), main@.len()),
            gp == evals(prep@),
            gm == evals(main@),
            gb == evals(ch.betas@),
            evals(pad_main@) == zeros(gm.len()),
            evals(pad_prep@) == zeros(gp.len()),
            pad_main@.len() == main@.len(),
            pad_prep@.len() == prep@.len(),
            one@ == e_one(),
            nums@.len() == dens@.len(),
            nums@.len() == start + i,
            pairs(nums@, dens@) == before + masked_list(
                s@,
                gp,
                gm,
                geq@,
                is_send,
                ch.alpha@,
                gb,
            ).take(i as int),
        decreases s@.len() - i,
    {
        let (real_num, real_den) = s[i].eval(prep, main, ch.alpha, ch.betas.as_slice());
        let (pad_num, pad_den) = s[i].eval(
            pad_prep.as_slice(),
            pad_main.as_slice(),
            ch.alpha,
            ch.betas.as_slice(),
        );
        let num = real_num.minus(pad_num.times(geq));
        let den = real_den.plus(one.minus(pad_den).times(geq));
        let ghost was = pairs(nums@, dens@);
        nums.push(
            if is_send {
                num
            } else {
                Ext::zero().minus(num)
            },
        );
        dens.push(den);
        proof {
            let all = masked_list(s@, gp, gm, geq@, is_send, ch.alpha@, gb);
            assert(all.take(i + 1) =~= all.take(i as int).push(all[i as int]));
            assert(pairs(nums@, dens@) =~= was.push(all[i as int]));
            assert(pairs(nums@, dens@) =~= before + all.take(i + 1));
        }
        i = i + 1;
    }
    proof {
        let all = masked_list(s@, gp, gm, geq@, is_send, ch.alpha@, gb);
        assert(all.take(s@.len() as int) =~= all);
    }
}

/// Numerators and denominators side by side.
pub open spec fn pairs(n: Seq<Ext>, d: Seq<Ext>) -> Seq<(E4, E4)> {
    Seq::new(n.len(), |i: int| (n[i]@, d[i]@))
}

fn opt_slice(v: &Option<Vec<Ext>>) -> (r: Vec<Ext>)
    ensures
        evals(r@) == opt_evals(*v),
        r@.len() == opt_len(*v),
{
    match v {
        Some(x) => copy_exts(x.as_slice()),
        None => {
            let r: Vec<Ext> = Vec::new();
            proof {
                assert(evals(r@) =~= Seq::<E4>::empty());
            }
            r
        },
    }
}

/// Pads a list to a width with a value.
fn pad_to(v: &mut Vec<Ext>, width: usize, x: Ext)
    requires
        old(v)@.len() <= width,
    ensures
        final(v)@.len() == width,
        forall|i: int| 0 <= i < old(v)@.len() ==> #[trigger] final(v)@[i] == old(v)@[i],
        forall|i: int| old(v)@.len() <= i < width ==> #[trigger] final(v)@[i] == x,
{
    let n: usize = v.len();
    let mut i: usize = n;
    while i < width
        invariant
            n <= i <= width,
            n == old(v)@.len(),
            v@.len() == i,
            forall|i: int| 0 <= i < n ==> #[trigger] v@[i] == old(v)@[i],
            forall|j: int| n <= j < i ==> #[trigger] v@[j] == x,
        decreases width - i,
    {
        v.push(x);
        i = i + 1;
    }
}

/// The masked fractions of all chips, or why a chip's opening is refused.
fn rebuild_fractions(
    chips: &Vec<ShardChip>,
    opened: &Vec<ChipOpenedValues>,
    openings: &Vec<(String, ChipEvaluation)>,
    ext_point: &Vec<Ext>,
    ch: &LogupChallenges,
) -> (r: Result<(Vec<Ext>, Vec<Ext>), BasefoldVerifyError>)
    requires
        opened@.len() == chips@.len(),
        ch.betas@.len() > 0,
        chips_fit(chips@, opened@, openings@, ext_point@.len()),
    ensures
        ({
            let why = chips_refusal(
                chips@,
                opened@,
                openings@,
                ext_point@.len(),
                chips@.len(),
            );
            match r {
                Ok((n, d)) => {
                    &&& why is None
                    &&& n@.len() == d@.len()
                    &&& pairs(n@, d@) == rebuilt(
                        chips@,
                        opened@,
                        openings@,
                        evals(ext_point@),
                        ch.alpha@,
                        evals(ch.betas@),
                        chips@.len(),
                    )
                },
                Err(e) => why is Some && e@ == ShardRefusal::LogupGkr(why->0),
            }
        }),
{
    let ghost p = evals(ext_point@);
    let ghost gb = evals(ch.betas@);
    let dim: usize = ext_point.len();
    let mut nums: Vec<Ext> = Vec::new();
    let mut dens: Vec<Ext> = Vec::new();
    let mut c: usize = 0;
    proof {
        assert(pairs(nums@, dens@) =~= Seq::<(E4, E4)>::empty());
    }
    while c < chips.len()
        invariant
            c <= chips@.len(),
            opened@.len() == chips@.len(),
            ch.betas@.len() > 0,
            p == evals(ext_point@),
            gb == evals(ch.betas@),
            dim == ext_point@.len(),
            chips_fit(chips@, opened@, openings@, dim as nat),
            chips_refusal(chips@, opened@, openings@, dim as nat, c as nat) is None,
            nums@.len() == dens@.len(),
            pairs(nums@, dens@) == rebuilt(
                chips@,
                opened@,
                openings@,
                p,
                ch.alpha@,
                gb,
                c as nat,
            ),
        decreases chips@.len() - c,
    {
        let chip = &chips[c];
        let opening = &opened[c];
        let degree: Vec<Ext> = if opening.quotient.len() > 0 {
            copy_exts(opening.quotient[0].as_slice())
        } else {
            Vec::new()
        };
        proof {
            assert(evals(degree@) =~= opening.degree());
            assert(evals(degree@).len() == degree@.len());
            if chip_refusal(*chip, *opening, openings@, dim as nat) is Some {
                chips_refusal_stays(
                    chips@,
                    opened@,
                    openings@,
                    dim as nat,
                    (c + 1) as nat,
                    chips@.len(),
                );
            } else {
                assert(chips_refusal(
                    chips@,
                    opened@,
                    openings@,
                    dim as nat,
                    (c + 1) as nat,
                ) is None);
                assert(opening_fits(chips@[c as int], openings@));
            }
        }
        if degree.len() != dim {
            let head = join(
                join("reconstruction: chip '".to_owned(), chip.name.as_str()),
                "' degree dim ",
            );
            return Err(
                BasefoldVerifyError::LogupGkr(
                    message2(head.as_str(), degree.len(), " != point_extended dim ", dim, ""),
                ),
            );
        }
        let geq = full_geq_host(degree.as_slice(), ext_point.as_slice());
        match find_entry(openings, &chip.name) {
            None => {
                let head = join(
                    "reconstruction: no chip_opening for chip '".to_owned(),
                    chip.name.as_str(),
                );
                return Err(BasefoldVerifyError::LogupGkr(join(head, "'")));
            },
            Some(at) => {
                let e = &openings[at].1;
                let main = opt_slice(&e.main_trace_evaluations_full);
                let prep = opt_slice(&e.preprocessed_trace_evaluations_full);
                let ghost was = pairs(nums@, dens@);
                push_masked(
                    &chip.lookups.sends,
                    prep.as_slice(),
                    main.as_slice(),
                    geq,
                    true,
                    ch,
                    &mut nums,
                    &mut dens,
                );
                push_masked(
                    &chip.lookups.receives,
                    prep.as_slice(),
                    main.as_slice(),
                    geq,
                    false,
                    ch,
                    &mut nums,
                    &mut dens,
                );
                proof {
                    assert(pairs(nums@, dens@) =~= was + chip_fractions(
                        *chip,
                        *e,
                        geq@,
                        ch.alpha@,
                        gb,
                    ));
                }
            },
        }
        c = c + 1;
    }
    Ok((nums, dens))
}

/// Rebuilds the last layer from the openings and compares it with the end of the walk.
pub fn check_last_layer(
    chips: &Vec<ShardChip>,
    opened: &Vec<ChipOpenedValues>,
    evaluations: &LogUpEvaluations,
    eval_point: &Vec<Ext>,
    num: Ext,
    den: Ext,
    ch: &LogupChallenges,
    axis: usize,
) -> (r: Result<(), BasefoldVerifyError>)
    requires
        axis <= eval_point@.len(),
        pow2(axis as nat) <= usize::MAX,
        ch.betas@.len() > 0,
        openings_fit(
            chips@,
            opened@,
            evals(evaluations.point@),
            evaluations.chip_openings@,
            evals(eval_point@),
            axis as nat,
        ),
    ensures
        ({
            let why = rebuild_refusal(
                chips@,
                opened@,
                evals(evaluations.point@),
                evaluations.chip_openings@,
                evals(eval_point@),
                num@,
                den@,
                ch.alpha@,
                evals(ch.betas@),
                axis as nat,
            );
            match r {
                Ok(_) => why is None,
                Err(e) => why is Some && e@ == ShardRefusal::LogupGkr(why->0),
            }
        }),
{
    let ghost ep = evals(eval_point@);
    let n: usize = eval_point.len();
    let trace_point = vstd::slice::slice_subrange(eval_point.as_slice(), axis, n);
    let interaction_point = vstd::slice::slice_subrange(eval_point.as_slice(), 0, axis);
    proof {
        assert(evals(trace_point@) =~= ep.skip(axis as int));
        assert(evals(interaction_point@) =~= ep.take(axis as int));
    }
    if !same_point(evaluations.point.as_slice(), trace_point) {
        return Err(gkr_error("reconstruction: logup_evaluations.point != reduced trace_point"));
    }
    if opened.len() != chips.len() {
        return Err(
            BasefoldVerifyError::LogupGkr(
                message2(
                    "reconstruction: opened_values chip count ",
                    opened.len(),
                    " != chips ",
                    chips.len(),
                    "",
                ),
            ),
        );
    }
    let mut ext_point: Vec<Ext> = Vec::new();
    ext_point.push(Ext::zero());
    let mut rest = reversed(trace_point);
    ext_point.append(&mut rest);
    proof {
        assert(evals(ext_point@) =~= extended_point(ep.skip(axis as int)));
        assert(ext_point@.len() == extended_point(ep.skip(axis as int)).len());
    }
    let (mut nums, mut dens) = match rebuild_fractions(
        chips,
        opened,
        &evaluations.chip_openings,
        &ext_point,
        ch,
    ) {
        Err(e) => {
            return Err(e);
        },
        Ok(x) => x,
    };
    let ghost all = pairs(nums@, dens@);
    let width: usize = pow2_usize(axis);
    if nums.len() > width {
        return Err(
            BasefoldVerifyError::LogupGkr(
                message2(
                    "reconstruction: interaction axis ",
                    width,
                    " is narrower than the chips' raw interaction total ",
                    nums.len(),
                    "",
                ),
            ),
        );
    }
    pad_to(&mut nums, width, Ext::zero());
    pad_to(&mut dens, width, Ext::one());
    proof {
        assert(evals(nums@) =~= padded_nums(all, pow2(axis as nat)));
        assert(evals(dens@) =~= padded_dens(all, pow2(axis as nat)));
    }
    if !num.same(&evaluate_mle_host(nums.as_slice(), interaction_point)) {
        return Err(
            gkr_error(
                "last-layer reconstruction: numerator mismatch (degree-masked height-soundness assert)",
            ),
        );
    }
    if !den.same(&evaluate_mle_host(dens.as_slice(), interaction_point)) {
        return Err(
            gkr_error(
                "last-layer reconstruction: denominator mismatch (degree-masked height-soundness assert)",
            ),
        );
    }
    Ok(())
}

} // verus!
