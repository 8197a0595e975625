//! The verifier's replay of a WHIR transcript.
//!
//! The verifiers share these steps: replaying the messages of a round, redrawing
//! out-of-domain points, batching constraints into the claim, and the terminal
//! identity over the constraints collected on the way.
use vstd::prelude::*;
use vstd::arithmetic::power2::pow2;
use crate::ext::{e_zero, epoints, evals, fvals, lift, mul_assoc, mul_canon, mul_one, Ext, E4};
use crate::felt::Felt;
use crate::mle::{ends_sum, eq_prod, mle_eval, mono_prod, mono_value, quadratic};
use crate::multilinear::{copy_exts, eval_at, lift_felts, same_point};
use crate::ring::eq1;
use crate::transcript::{Sponge, Transcript};
use crate::whir::config::pow_bits_at;
use crate::whir::messages::{shape_error, SumcheckPoly, WhirRefusal, WhirVerifierError};
use crate::whir::monomial::mono_eval_lsb;
use crate::whir::sumcheck::after_message;

verus! {

/// The state of a replay: transcript, claim, and the challenges drawn.
pub struct Replay {
    pub sponge: Sponge,
    pub claim: E4,
    pub challenges: Seq<E4>,
}

/// The state after one accepted message with its proof of work.
pub open spec fn replay_step(at: Replay, msg: Seq<E4>, bits: nat, pow: int) -> Replay {
    let s = after_message(at.sponge, msg).after_pow(bits, pow);
    let r = s.drawn_ext();
    Replay {
        sponge: s.after_draw_ext(),
        claim: quadratic(msg[0], msg[1], msg[2], r),
        challenges: at.challenges.push(r),
    }
}

/// The state after `k` messages.
pub open spec fn replay_run(
    start: Replay,
    msgs: Seq<Seq<E4>>,
    bits: Seq<usize>,
    pows: Seq<int>,
    k: nat,
) -> Replay
    decreases k,
{
    if k == 0 {
        start
    } else {
        replay_step(
            replay_run(start, msgs, bits, pows, (k - 1) as nat),
            msgs[k - 1],
            pow_bits_at(bits, k - 1),
            pows[k - 1],
        )
    }
}

/// Why a message is refused before its proof of work is looked up, if it is: its number of
/// coefficients, then the sum of its two ends.
pub open spec fn message_mismatch(
    claim: E4,
    msg: Seq<E4>,
    round: int,
    var: int,
    what: Seq<char>,
) -> Option<WhirRefusal> {
    if msg.len() != 3 {
        Some(WhirRefusal::IncorrectShape(what))
    } else if ends_sum(msg[0], msg[1], msg[2]) != claim {
        Some(WhirRefusal::SumcheckMismatch(round, var))
    } else {
        None
    }
}

/// Why a message is refused, if it is: its number of coefficients, the sum of its
/// two ends, then its proof of work.
pub open spec fn message_refusal(
    at: Replay,
    msg: Seq<E4>,
    bits: nat,
    pow: int,
    round: int,
    var: int,
    what: Seq<char>,
) -> Option<WhirRefusal> {
    match message_mismatch(at.claim, msg, round, var, what) {
        Some(e) => Some(e),
        None => if !after_message(at.sponge, msg).pow_ok(bits, pow) {
            Some(WhirRefusal::PowMismatch(round, var))
        } else {
            None
        },
    }
}

/// Why the first of `k` messages that is refused is refused.
pub open spec fn replay_refusal(
    start: Replay,
    msgs: Seq<Seq<E4>>,
    bits: Seq<usize>,
    pows: Seq<int>,
    k: nat,
    round: int,
    what: Seq<char>,
) -> Option<WhirRefusal>
    decreases k,
{
    if k == 0 {
        None
    } else {
        match replay_refusal(start, msgs, bits, pows, (k - 1) as nat, round, what) {
            Some(e) => Some(e),
            None => message_refusal(
                replay_run(start, msgs, bits, pows, (k - 1) as nat),
                msgs[k - 1],
                pow_bits_at(bits, k - 1),
                pows[k - 1],
                round,
                k - 1,
                what,
            ),
        }
    }
}

/// A refusal among the first messages is a refusal of the whole round.
pub proof fn replay_refusal_stays(
    start: Replay,
    msgs: Seq<Seq<E4>>,
    bits: Seq<usize>,
    pows: Seq<int>,
    j: nat,
    k: nat,
    round: int,
    what: Seq<char>,
)
    requires
        j <= k,
        replay_refusal(start, msgs, bits, pows, j, round, what) is Some,
    ensures
        replay_refusal(start, msgs, bits, pows, k, round, what) == replay_refusal(
            start,
            msgs,
            bits,
            pows,
            j,
            round,
            what,
        ),
    decreases k,
{
    if j < k {
        replay_refusal_stays(start, msgs, bits, pows, j, (k - 1) as nat, round, what);
    }
}

/// Checks a message against the claim.
pub fn check_message(claim: Ext, poly: &SumcheckPoly, round: usize, var: usize, what: &str) -> (r:
    Result<(), WhirVerifierError>)
    ensures
        ({
            let why = message_mismatch(
                claim@,
                evals(poly.0@),
                round as int,
                var as int,
                what@,
            );
            match r {
                Ok(_) => why is None,
                Err(e) => why == Some(e@),
            }
        }),
{
    let ghost m = evals(poly.0@);
    if poly.0.len() != 3 {
        return Err(shape_error(what));
    }
    let (c0, c1, c2) = (poly.0[0], poly.0[1], poly.0[2]);
    proof {
        assert(m[0] == c0@ && m[1] == c1@ && m[2] == c2@);
    }
    if !c0.plus(c0.plus(c1).plus(c2)).same(&claim) {
        return Err(WhirVerifierError::SumcheckMismatch { round, var });
    }
    Ok(())
}

/// Absorbs a message of three coefficients and its proof of work: the claim and the
/// challenge after it, or the refusal.
pub fn absorb_message(
    poly: &SumcheckPoly,
    bits: usize,
    pow: Felt,
    round: usize,
    var: usize,
    challenger: &mut Transcript,
) -> (r: Result<(Ext, Ext), WhirVerifierError>)
    requires
        old(challenger).wf(),
        bits <= 30,
        poly.0@.len() == 3,
    ensures
        final(challenger).wf(),
        ({
            let msg = evals(poly.0@);
            let s = after_message(old(challenger)@, msg);
            let rc = s.after_pow(bits as nat, pow@).drawn_ext();
            match r {
                Ok((c, x)) => {
                    &&& s.pow_ok(bits as nat, pow@)
                    &&& c@ == quadratic(msg[0], msg[1], msg[2], rc)
                    &&& x@ == rc
                    &&& final(challenger)@ == s.after_pow(bits as nat, pow@).after_draw_ext()
                },
                Err(e) => {
                    &&& !s.pow_ok(bits as nat, pow@)
                    &&& e@ == WhirRefusal::PowMismatch(round as int, var as int)
                },
            }
        }),
{
    let ghost m = evals(poly.0@);
    let (c0, c1, c2) = (poly.0[0], poly.0[1], poly.0[2]);
    proof {
        assert(m[0] == c0@ && m[1] == c1@ && m[2] == c2@);
    }
    challenger.observe_algebra_element(c0);
    challenger.observe_algebra_element(c1);
    challenger.observe_algebra_element(c2);
    if !challenger.check_witness(bits, pow) {
        return Err(WhirVerifierError::PowMismatch { round, var });
    }
    let rc = challenger.sample_algebra_element();
    let next = c0.plus(c1.times(rc)).plus(c2.times(rc).times(rc));
    Ok((next, rc))
}

/// The transcript after the first `k` out-of-domain samples: a point of `vars`
/// coordinates is drawn and its answer absorbed, in turn.
pub open spec fn ood_sponge(s: Sponge, answers: Seq<E4>, vars: nat, k: nat) -> Sponge
    decreases k,
{
    if k == 0 {
        s
    } else {
        ood_sponge(s, answers, vars, (k - 1) as nat).after_draw_exts(vars).observe_ext(
            answers[k - 1],
        )
    }
}

/// The out-of-domain points that the transcript gives.
pub open spec fn ood_points_of(s: Sponge, answers: Seq<E4>, vars: nat) -> Seq<Seq<E4>> {
    Seq::new(
        answers.len(),
        |i: int| ood_sponge(s, answers, vars, i as nat).drawn_exts(vars),
    )
}

/// Redraws the out-of-domain points while absorbing the answers.
pub fn replay_ood(answers: &Vec<Ext>, vars: usize, challenger: &mut Transcript) -> (r: Vec<
    Vec<Ext>,
>)
    requires
        old(challenger).wf(),
    ensures
        final(challenger).wf(),
        epoints(r@) == ood_points_of(old(challenger)@, evals(answers@), vars as nat),
        final(challenger)@ == ood_sponge(
            old(challenger)@,
            evals(answers@),
            vars as nat,
            answers@.len(),
        ),
        forall|i: int| 0 <= i < r@.len() ==> (#[trigger] r@[i])@.len() == vars,
        r@.len() == answers@.len(),
{
    let ghost s = challenger@;
    let ghost ans = evals(answers@);
    let mut r: Vec<Vec<Ext>> = Vec::new();
    let mut k: usize = 0;
    while k < answers.len()
        invariant
            k <= answers@.len(),
            ans == evals(answers@),
            challenger.wf(),
            challenger@ == ood_sponge(s, ans, vars as nat, k as nat),
            r@.len() == k,
            forall|i: int| 0 <= i < k ==> (#[trigger] r@[i])@.len() == vars,
            forall|i: int|
                0 <= i < k ==> evals((#[trigger] r@[i])@) == ood_points_of(s, ans, vars as nat)[i],
        decreases answers@.len() - k,
    {
        let pt = challenger.sample_point(vars);
        proof {
            assert(evals(pt@).len() == pt@.len());
        }
        challenger.observe_algebra_element(answers[k]);
        r.push(pt);
        k = k + 1;
    }
    proof {
        assert(epoints(r@) =~= ood_points_of(s, ans, vars as nat));
    }
    r
}

/// The first sample whose carried point is not the one the transcript gives.
pub open spec fn ood_refusal(
    s: Sponge,
    answers: Seq<E4>,
    points: Seq<Seq<E4>>,
    vars: nat,
    k: nat,
    round: int,
) -> Option<WhirRefusal>
    decreases k,
{
    if k == 0 {
        None
    } else {
        match ood_refusal(s, answers, points, vars, (k - 1) as nat, round) {
            Some(e) => Some(e),
            None => if ood_points_of(s, answers, vars)[k - 1] != points[k - 1] {
                Some(WhirRefusal::OodPointMismatch(round, k - 1))
            } else {
                None
            },
        }
    }
}

/// A mismatch among the first samples is the verdict on all of them.
pub proof fn ood_refusal_stays(
    s: Sponge,
    answers: Seq<E4>,
    points: Seq<Seq<E4>>,
    vars: nat,
    j: nat,
    k: nat,
    round: int,
)
    requires
        j <= k,
        ood_refusal(s, answers, points, vars, j, round) is Some,
    ensures
        ood_refusal(s, answers, points, vars, k, round) == ood_refusal(
            s,
            answers,
            points,
            vars,
            j,
            round,
        ),
    decreases k,
{
    if j < k {
        ood_refusal_stays(s, answers, points, vars, j, (k - 1) as nat, round);
    }
}

/// Without a mismatch, the carried points are those of the transcript.
pub proof fn ood_accepted(
    s: Sponge,
    answers: Seq<E4>,
    points: Seq<Seq<E4>>,
    vars: nat,
    k: nat,
    round: int,
)
    requires
        k <= answers.len(),
        ood_refusal(s, answers, points, vars, k, round) is None,
    ensures
        forall|i: int| 0 <= i < k ==> #[trigger] points[i] == ood_points_of(s, answers, vars)[i],
    decreases k,
{
    if k > 0 {
        ood_accepted(s, answers, points, vars, (k - 1) as nat, round);
    }
}

/// Whether there is a carried point wherever one is compared: for each answer, unless one
/// before is refused.
pub open spec fn points_found(
    s: Sponge,
    answers: Seq<E4>,
    points: Seq<Seq<E4>>,
    vars: nat,
) -> bool {
    points.len() < answers.len() ==> ood_refusal(s, answers, points, vars, points.len(), 0) is Some
}

proof fn ood_refusal_any_round(
    s: Sponge,
    answers: Seq<E4>,
    points: Seq<Seq<E4>>,
    vars: nat,
    k: nat,
    a: int,
    b: int,
)
    ensures
        ood_refusal(s, answers, points, vars, k, a) is Some == ood_refusal(
            s,
            answers,
            points,
            vars,
            k,
            b,
        ) is Some,
    decreases k,
{
    if k > 0 {
        ood_refusal_any_round(s, answers, points, vars, (k - 1) as nat, a, b);
    }
}

/// Accepted points are found.
pub proof fn accepted_points_are_found(
    s: Sponge,
    answers: Seq<E4>,
    points: Seq<Seq<E4>>,
    vars: nat,
    round: int,
)
    requires
        points_found(s, answers, points, vars),
        ood_refusal(s, answers, points, vars, answers.len(), round) is None,
    ensures
        answers.len() <= points.len(),
{
    if points.len() < answers.len() {
        ood_refusal_any_round(s, answers, points, vars, answers.len(), 0, round);
        ood_refusal_stays(s, answers, points, vars, points.len(), answers.len(), 0);
    }
}

/// Redraws the out-of-domain points, compares them with the carried ones, and
/// absorbs the answers. There is a carried point for each answer, unless one before is
/// refused.
pub fn check_ood(
    answers: &Vec<Ext>,
    points: &Vec<Vec<Ext>>,
    vars: usize,
    round: usize,
    challenger: &mut Transcript,
) -> (r: Result<(), WhirVerifierError>)
    requires
        old(challenger).wf(),
        points_found(old(challenger)@, evals(answers@), epoints(points@), vars as nat),
    ensures
        final(challenger).wf(),
        ({
            let why = ood_refusal(
                old(challenger)@,
                evals(answers@),
                epoints(points@),
                vars as nat,
                answers@.len(),
                round as int,
            );
            match r {
                Ok(_) => {
                    &&& why is None
                    &&& final(challenger)@ == ood_sponge(
                        old(challenger)@,
                        evals(answers@),
                        vars as nat,
                        answers@.len(),
                    )
                },
                Err(e) => why == Some(e@),
            }
        }),
{
    let ghost s = challenger@;
    let ghost ans = evals(answers@);
    let ghost pts = epoints(points@);
    let mut k: usize = 0;
    while k < answers.len()
        invariant
            k <= answers@.len(),
            points_found(s, ans, pts, vars as nat),
            s == old(challenger)@,
            ans == evals(answers@),
            pts == epoints(points@),
            challenger.wf(),
            challenger@ == ood_sponge(s, ans, vars as nat, k as nat),
            ood_refusal(s, ans, pts, vars as nat, k as nat, round as int) is None,
        decreases answers@.len() - k,
    {
        let pt = challenger.sample_point(vars);
        proof {
            assert(evals(pt@) == ood_points_of(s, ans, vars as nat)[k as int]);
            assert(ans.len() == answers@.len());
            assert(pts.len() == points@.len());
            if k >= pts.len() {
                if ood_refusal(s, ans, pts, vars as nat, pts.len(), 0) is Some {
                    ood_refusal_stays(s, ans, pts, vars as nat, pts.len(), k as nat, 0);
                }
                ood_refusal_any_round(s, ans, pts, vars as nat, k as nat, 0, round as int);
            }
        }
        if !same_point(pt.as_slice(), points[k].as_slice()) {
            proof {
                ood_refusal_stays(s, ans, pts, vars as nat, (k + 1) as nat, ans.len(), round as int);
            }
            return Err(WhirVerifierError::OodPointMismatch { round, sample: k });
        }
        challenger.observe_algebra_element(answers[k]);
        k = k + 1;
    }
    Ok(())
}

/// A constraint that the verifier collects: at which point, in which basis, with
/// which coefficient, and over how many variables it was added.
pub struct Term {
    pub monomial: bool,
    pub point: Seq<E4>,
    pub coeff: E4,
    pub vars: nat,
}

/// A collected constraint.
#[derive(Debug)]
pub enum Constraint {
    /// An evaluation in the Lagrange basis.
    Lagrange {
        /// The point, variable 0 first.
        point: Vec<Ext>,
        /// The batching coefficient.
        coeff: Ext,
        /// The number of variables when it was added.
        vars: usize,
    },
    /// An evaluation in the monomial basis.
    Monomial {
        /// The point, variable 0 first.
        point: Vec<Ext>,
        /// The batching coefficient.
        coeff: Ext,
        /// The number of variables when it was added.
        vars: usize,
    },
}

impl View for Constraint {
    type V = Term;

    open spec fn view(&self) -> Term {
        match self {
            Constraint::Lagrange { point, coeff, vars } => Term {
                monomial: false,
                point: evals(point@),
                coeff: coeff@,
                vars: *vars as nat,
            },
            Constraint::Monomial { point, coeff, vars } => Term {
                monomial: true,
                point: evals(point@),
                coeff: coeff@,
                vars: *vars as nat,
            },
        }
    }
}

/// The content of several constraints.
pub open spec fn terms_val(s: Seq<Constraint>) -> Seq<Term> {
    Seq::new(s.len(), |i: int| s[i]@)
}

/// The constraints of several points, one for each coefficient.
pub open spec fn terms_of(
    monomial: bool,
    points: Seq<Seq<E4>>,
    coeffs: Seq<E4>,
    vars: nat,
) -> Seq<Term> {
    Seq::new(
        coeffs.len(),
        |i: int| Term { monomial, point: points[i], coeff: coeffs[i], vars },
    )
}

/// Appends constraints for several points, one for each coefficient.
pub fn push_terms(
    constraints: &mut Vec<Constraint>,
    monomial: bool,
    points: &Vec<Vec<Ext>>,
    coeffs: &Vec<Ext>,
    vars: usize,
)
    requires
        coeffs@.len() <= points@.len(),
    ensures
        terms_val(final(constraints)@) == terms_val(old(constraints)@) + terms_of(
            monomial,
            epoints(points@),
            evals(coeffs@),
            vars as nat,
        ),
{
    let ghost before = terms_val(constraints@);
    let ghost new = terms_of(monomial, epoints(points@), evals(coeffs@), vars as nat);
    let mut k: usize = 0;
    proof {
        assert(before + new.take(0) =~= before);
    }
    while k < coeffs.len()
        invariant
            k <= coeffs@.len(),
            coeffs@.len() <= points@.len(),
            new == terms_of(monomial, epoints(points@), evals(coeffs@), vars as nat),
            terms_val(constraints@) == before + new.take(k as int),
        decreases coeffs@.len() - k,
    {
        let point = copy_exts(points[k].as_slice());
        let coeff = coeffs[k];
        let ghost was = constraints@;
        let c = if monomial {
            Constraint::Monomial { point, coeff, vars }
        } else {
            Constraint::Lagrange { point, coeff, vars }
        };
        constraints.push(c);
        proof {
            assert(c@ == new[k as int]);
            assert(terms_val(constraints@) =~= terms_val(was).push(c@));
            assert(before + new.take(k + 1) =~= (before + new.take(k as int)).push(new[k as int]));
        }
        k = k + 1;
    }
    proof {
        assert(new.take(k as int) =~= new);
    }
}

/// The product of the equality polynomials of two points' coordinates.
pub fn lagrange_eq(a: &[Ext], b: &[Ext]) -> (r: Ext)
    requires
        a@.len() == b@.len(),
    ensures
        r@ == eq_prod(evals(a@), evals(b@)),
{
    let ghost pa = evals(a@);
    let ghost pb = evals(b@);
    let mut acc = Ext::one();
    let mut i: usize = 0;
    proof {
        assert(pa.skip(0) =~= pa);
        assert(pb.skip(0) =~= pb);
        eq_prod_canon(pa, pb);
        mul_one(eq_prod(pa, pb));
    }
    while i < a.len()
        invariant
            i <= a@.len(),
            a@.len() == b@.len(),
            pa == evals(a@),
            pb == evals(b@),
            acc@ * eq_prod(pa.skip(i as int), pb.skip(i as int)) == eq_prod(pa, pb),
            acc@.canon(),
        decreases a@.len() - i,
    {
        let (x, y) = (a[i], b[i]);
        let ghost before = acc@;
        let factor = x.times(y).plus(Ext::one().minus(x).times(Ext::one().minus(y)));
        acc = acc.times(factor);
        proof {
            let sa = pa.skip(i as int);
            let sb = pb.skip(i as int);
            assert(sa.skip(1) =~= pa.skip(i + 1));
            assert(sb.skip(1) =~= pb.skip(i + 1));
            assert(sa[0] == x@ && sb[0] == y@);
            mul_assoc(before, factor@, eq_prod(pa.skip(i + 1), pb.skip(i + 1)));
            mul_canon(before, factor@);
        }
        i = i + 1;
    }
    proof {
        mul_one(acc@);
    }
    acc
}

/// A product of equality polynomials is canonical.
pub proof fn eq_prod_canon(a: Seq<E4>, b: Seq<E4>)
    ensures
        eq_prod(a, b).canon(),
{
    if a.len() > 0 {
        mul_canon(eq1(a[0], b[0]), eq_prod(a.skip(1), b.skip(1)));
    }
}

/// The product over the coordinates of `(1 - b) + b * a`: the Lagrange fold of a
/// monomial table.
pub fn monomial_fold(a: &[Ext], b: &[Ext]) -> (r: Ext)
    requires
        a@.len() == b@.len(),
    ensures
        r@ == mono_prod(evals(a@), evals(b@)),
{
    crate::whir::monomial::full_monomial_basis_eq(a, b)
}

/// What a constraint contributes to the terminal identity, where `all` are the
/// challenges of every folded variable and `final_poly` the revealed polynomial
/// over the last `last` of `n` variables.
pub open spec fn term_total(
    t: Term,
    n: nat,
    last: nat,
    all: Seq<E4>,
    final_poly: Seq<E4>,
) -> E4 {
    let k = t.vars - last;
    let head = t.point.take(k);
    let tail = t.point.skip(k);
    let drawn = all.subrange(n - t.vars, n - t.vars + k);
    (t.coeff * (if t.monomial {
        mono_prod(head, drawn)
    } else {
        eq_prod(head, drawn)
    })) * (if t.monomial {
        mono_value(final_poly, tail)
    } else {
        mle_eval(final_poly, tail)
    })
}

/// The sum of the contributions of the first `k` constraints.
pub open spec fn terminal_sum(
    terms: Seq<Term>,
    n: nat,
    last: nat,
    all: Seq<E4>,
    final_poly: Seq<E4>,
    k: nat,
) -> E4
    decreases k,
{
    if k == 0 {
        e_zero()
    } else {
        terminal_sum(terms, n, last, all, final_poly, (k - 1) as nat) + term_total(
            terms[k - 1],
            n,
            last,
            all,
            final_poly,
        )
    }
}

/// Whether a constraint is over at least `last` and at most `n` variables, with one
/// coordinate for each.
pub open spec fn term_fits(t: Term, n: nat, last: nat) -> bool {
    t.point.len() == t.vars && last <= t.vars <= n
}

/// The right-hand side of the terminal identity.
pub fn terminal_value(
    constraints: &Vec<Constraint>,
    n: usize,
    last: usize,
    all: &Vec<Ext>,
    final_poly: &Vec<Ext>,
) -> (r: Ext)
    requires
        last <= n,
        all@.len() == n - last,
        final_poly@.len() == pow2(last as nat),
        forall|i: int|
            0 <= i < constraints@.len() ==> term_fits(
                (#[trigger] constraints@[i])@,
                n as nat,
                last as nat,
            ),
    ensures
        r@ == terminal_sum(
            terms_val(constraints@),
            n as nat,
            last as nat,
            evals(all@),
            evals(final_poly@),
            constraints@.len(),
        ),
{
    let ghost terms = terms_val(constraints@);
    let ghost ga = evals(all@);
    let ghost gf = evals(final_poly@);
    let mut total = Ext::zero();
    let mut i: usize = 0;
    while i < constraints.len()
        invariant
            i <= constraints@.len(),
            last <= n,
            all@.len() == n - last,
            final_poly@.len() == pow2(last as nat),
            forall|j: int|
                0 <= j < constraints@.len() ==> term_fits(
                    (#[trigger] constraints@[j])@,
                    n as nat,
                    last as nat,
                ),
            terms == terms_val(constraints@),
            ga == evals(all@),
            gf == evals(final_poly@),
            total@ == terminal_sum(terms, n as nat, last as nat, ga, gf, i as nat),
        decreases constraints@.len() - i,
    {
        let c = &constraints[i];
        proof {
            assert(term_fits(constraints@[i as int]@, n as nat, last as nat));
        }
        let part = match c {
            Constraint::Lagrange { point, coeff, vars } => {
                let k: usize = *vars - last;
                let from: usize = n - *vars;
                proof {
                    assert(point@.len() == evals(point@).len());
                }
                let head = vstd::slice::slice_subrange(point.as_slice(), 0, k);
                let tail = vstd::slice::slice_subrange(point.as_slice(), k, point.len());
                let drawn = vstd::slice::slice_subrange(all.as_slice(), from, from + k);
                proof {
                    assert(evals(head@) =~= evals(point@).take(k as int));
                    assert(evals(tail@) =~= evals(point@).skip(k as int));
                    assert(evals(drawn@) =~= ga.subrange(from as int, from + k));
                }
                let eq_part = lagrange_eq(head, drawn);
                let f_part = eval_at(final_poly.as_slice(), tail);
                coeff.times(eq_part).times(f_part)
            },
            Constraint::Monomial { point, coeff, vars } => {
                let k: usize = *vars - last;
                let from: usize = n - *vars;
                proof {
                    assert(point@.len() == evals(point@).len());
                }
                let head = vstd::slice::slice_subrange(point.as_slice(), 0, k);
                let tail = vstd::slice::slice_subrange(point.as_slice(), k, point.len());
                let drawn = vstd::slice::slice_subrange(all.as_slice(), from, from + k);
                proof {
                    assert(evals(head@) =~= evals(point@).take(k as int));
                    assert(evals(tail@) =~= evals(point@).skip(k as int));
                    assert(evals(drawn@) =~= ga.subrange(from as int, from + k));
                }
                let fold_part = monomial_fold(head, drawn);
                let f_part = mono_eval_lsb(final_poly.as_slice(), tail);
                coeff.times(fold_part).times(f_part)
            },
        };
        proof {
            assert(part@ == term_total(terms[i as int], n as nat, last as nat, ga, gf));
        }
        total = total.plus(part);
        i = i + 1;
    }
    total
}

/// One opened row as extension elements: constants for a base-field row, else four
/// coefficients for each element.
pub open spec fn leaf_elements(leaf: Seq<int>, base: bool) -> Seq<E4> {
    if base {
        lift(leaf)
    } else {
        Seq::new(
            leaf.len() / 4,
            |i: int|
                E4 {
                    c0: leaf[4 * i],
                    c1: leaf[4 * i + 1],
                    c2: leaf[4 * i + 2],
                    c3: leaf[4 * i + 3],
                },
        )
    }
}

/// Reads one opened row as extension elements.
pub fn leaf_to_ef(leaf: &Vec<Felt>, base: bool) -> (r: Vec<Ext>)
    ensures
        evals(r@) == leaf_elements(fvals(leaf@), base),
{
    if base {
        return lift_felts(leaf.as_slice());
    }
    let n: usize = leaf.len() / 4;
    let mut r: Vec<Ext> = Vec::new();
    let mut i: usize = 0;
    while i < n
        invariant
            i <= n,
            n == leaf@.len() / 4,
            4 * n <= usize::MAX,
            r@.len() == i,
            forall|j: int|
                0 <= j < i ==> (#[trigger] r@[j])@ == leaf_elements(fvals(leaf@), false)[j],
        decreases n - i,
    {
        r.push(
            Ext { c0: leaf[4 * i], c1: leaf[4 * i + 1], c2: leaf[4 * i + 2], c3: leaf[4 * i + 3] },
        );
        i = i + 1;
    }
    proof {
        assert(evals(r@) =~= leaf_elements(fvals(leaf@), false));
    }
    r
}

} // verus!
