//! The sumcheck verifier.
use vstd::prelude::*;
use crate::ext::{e_one, e_zero, evals, Ext, E4};
use crate::mle::univariate;
use crate::multilinear::same_point;
use crate::shard::error::{gkr_error, message1, message2, message3, text1, text2, text3,
    BasefoldVerifyError, ShardRefusal};
use crate::shard::points::eval_coeffs_host;
use crate::transcript::{Sponge, Transcript};

verus! {

/// A univariate polynomial, by its coefficients, lowest first.
#[derive(Debug)]
pub struct UnivariatePolynomial {
    /// The coefficients.
    pub coefficients: Vec<Ext>,
}

/// A sumcheck that stops at an evaluation claim.
#[derive(Debug)]
pub struct PartialSumcheckProof {
    /// The polynomial of every round.
    pub univariate_polys: Vec<UnivariatePolynomial>,
    /// The sum claimed.
    pub claimed_sum: Ext,
    /// The point that the sumcheck reduces to, and the value claimed there.
    pub point_and_eval: (Vec<Ext>, Ext),
}

/// The content of a sumcheck proof.
pub struct SumcheckVal {
    pub polys: Seq<Seq<E4>>,
    pub claimed: E4,
    pub point: Seq<E4>,
    pub eval: E4,
}

impl View for PartialSumcheckProof {
    type V = SumcheckVal;

    open spec fn view(&self) -> SumcheckVal {
        SumcheckVal {
            polys: Seq::new(
                self.univariate_polys@.len(),
                |i: int| evals(self.univariate_polys@[i].coefficients@),
            ),
            claimed: self.claimed_sum@,
            point: evals(self.point_and_eval.0@),
            eval: self.point_and_eval.1@,
        }
    }
}

/// The sum of a polynomial over zero and one.
pub open spec fn poly_ends(c: Seq<E4>) -> E4 {
    univariate(c, e_zero()) + univariate(c, e_one())
}

impl SumcheckVal {
    /// The transcript after the polynomials of the first `k` rounds, with a challenge
    /// drawn between any two.
    pub open spec fn sponge(self, s: Sponge, k: nat) -> Sponge
        decreases k,
    {
        if k == 0 {
            s
        } else if k == 1 {
            s.observe_exts(self.polys[0])
        } else {
            self.sponge(s, (k - 1) as nat).after_draw_ext().observe_exts(self.polys[k - 1])
        }
    }

    /// The challenge drawn after the polynomials of the first `k` rounds.
    pub open spec fn challenge(self, s: Sponge, k: nat) -> E4 {
        self.sponge(s, k).drawn_ext()
    }

    /// The transcript after the last challenge.
    pub open spec fn after(self, s: Sponge) -> Sponge {
        self.sponge(s, self.polys.len()).after_draw_ext()
    }

    /// The challenges, last one first.
    pub open spec fn reduced_point(self, s: Sponge) -> Seq<E4> {
        Seq::new(self.polys.len(), |j: int| self.challenge(s, (self.polys.len() - j) as nat))
    }

    /// Why the shape is refused, if it is.
    pub open spec fn shape_refusal(self, variables: nat) -> Option<Seq<char>> {
        let n = self.polys.len();
        if n != variables {
            Some(text2("sumcheck proof has "@, n, " rounds, expected "@, variables, ""@))
        } else if self.point.len() != variables {
            Some(
                text2(
                    "sumcheck point_and_eval.0 has dim "@,
                    self.point.len(),
                    ", expected "@,
                    variables,
                    ""@,
                ),
            )
        } else if n == 0 {
            Some("sumcheck has zero rounds \u{2014} invalid proof shape"@)
        } else {
            None
        }
    }

    /// Why round `k` is refused, if it is: the number of coefficients, then the sum over
    /// zero and one.
    pub open spec fn round_refusal(self, s: Sponge, degree: nat, k: nat) -> Option<Seq<char>> {
        let c = self.polys[k as int];
        if c.len() != degree + 1 {
            Some(
                text3(
                    "sumcheck round "@,
                    k,
                    " poly has "@,
                    c.len(),
                    " coefficients, expected "@,
                    degree + 1,
                    ""@,
                ),
            )
        } else if k == 0 {
            if poly_ends(c) != self.claimed {
                Some("sumcheck first-round inconsistency with claimed_sum"@)
            } else {
                None
            }
        } else if univariate(self.polys[k - 1], self.challenge(s, k)) != poly_ends(c) {
            Some(text1("sumcheck round-"@, k, " consistency failed"@))
        } else {
            None
        }
    }

    /// Why the first refused of the first `k` rounds is refused.
    pub open spec fn rounds_refusal(self, s: Sponge, degree: nat, k: nat) -> Option<Seq<char>>
        decreases k,
    {
        if k == 0 {
            None
        } else {
            match self.rounds_refusal(s, degree, (k - 1) as nat) {
                Some(e) => Some(e),
                None => self.round_refusal(s, degree, (k - 1) as nat),
            }
        }
    }

    /// Why the sumcheck is refused, if it is: its shape, its rounds, the point it claims
    /// to reduce to, then the value there.
    pub open spec fn refusal(self, s: Sponge, variables: nat, degree: nat) -> Option<Seq<char>> {
        let n = self.polys.len();
        match self.shape_refusal(variables) {
            Some(e) => Some(e),
            None => match self.rounds_refusal(s, degree, n) {
                Some(e) => Some(e),
                None => if self.reduced_point(s) != self.point {
                    Some("sumcheck reduced point doesn't match sampled challenges"@)
                } else if univariate(self.polys[n - 1], self.challenge(s, n)) != self.eval {
                    Some("sumcheck final eval doesn't match recomputed value"@)
                } else {
                    None
                },
            },
        }
    }
}

proof fn rounds_refusal_stays(v: SumcheckVal, s: Sponge, degree: nat, j: nat, k: nat)
    requires
        j <= k,
        v.rounds_refusal(s, degree, j) is Some,
    ensures
        v.rounds_refusal(s, degree, k) == v.rounds_refusal(s, degree, j),
    decreases k,
{
    if j < k {
        rounds_refusal_stays(v, s, degree, j, (k - 1) as nat);
    }
}

/// Verifies a sumcheck of the given number of variables and degree. Every refusal is one
/// of the lookup argument.
pub fn verify_sumcheck_host(
    sumcheck: &PartialSumcheckProof,
    challenger: &mut Transcript,
    expected_num_variables: usize,
    expected_degree: usize,
) -> (r: Result<(), BasefoldVerifyError>)
    requires
        old(challenger).wf(),
        expected_degree < usize::MAX,
    ensures
        final(challenger).wf(),
        match r {
            Ok(_) => {
                &&& sumcheck@.refusal(
                    old(challenger)@,
                    expected_num_variables as nat,
                    expected_degree as nat,
                ) is None
                &&& final(challenger)@ == sumcheck@.after(old(challenger)@)
            },
            Err(e) => {
                let why = sumcheck@.refusal(
                    old(challenger)@,
                    expected_num_variables as nat,
                    expected_degree as nat,
                );
                why is Some && e@ == ShardRefusal::LogupGkr(why->0)
            },
        },
{
    let ghost v = sumcheck@;
    let ghost s = challenger@;
    let ghost deg = expected_degree as nat;
    let n: usize = sumcheck.univariate_polys.len();
    proof {
        assert(v.point.len() == sumcheck.point_and_eval.0@.len());
        assert(v.polys.len() == n);
    }
    if n != expected_num_variables {
        return Err(
            BasefoldVerifyError::LogupGkr(
                message2("sumcheck proof has ", n, " rounds, expected ", expected_num_variables, ""),
            ),
        );
    }
    if sumcheck.point_and_eval.0.len() != expected_num_variables {
        return Err(
            BasefoldVerifyError::LogupGkr(
                message2(
                    "sumcheck point_and_eval.0 has dim ",
                    sumcheck.point_and_eval.0.len(),
                    ", expected ",
                    expected_num_variables,
                    "",
                ),
            ),
        );
    }
    if n == 0 {
        return Err(gkr_error("sumcheck has zero rounds \u{2014} invalid proof shape"));
    }
    let mut drawn: Vec<Ext> = Vec::new();
    let mut k: usize = 0;
    while k < n
        invariant
            k <= n,
            n == v.polys.len(),
            n > 0,
            v == sumcheck@,
            s == old(challenger)@,
            deg == expected_degree,
            expected_degree < usize::MAX,
            v.shape_refusal(expected_num_variables as nat) is None,
            n == sumcheck.univariate_polys@.len(),
            challenger.wf(),
            challenger@ == v.sponge(s, k as nat),
            v.rounds_refusal(s, deg, k as nat) is None,
            drawn@.len() == (if k == 0 {
                0
            } else {
                k - 1
            }),
            forall|j: int|
                0 <= j < drawn@.len() ==> (#[trigger] drawn@[j])@ == v.challenge(
                    s,
                    (j + 1) as nat,
                ),
        decreases n - k,
    {
        let curr = &sumcheck.univariate_polys[k];
        let ghost c = v.polys[k as int];
        proof {
            assert(c == evals(curr.coefficients@));
            assert(c.len() == curr.coefficients@.len());
        }
        let alpha = if k == 0 {
            Ext::zero()
        } else {
            challenger.sample_algebra_element()
        };
        if curr.coefficients.len() != expected_degree + 1 {
            proof {
                rounds_refusal_stays(v, s, deg, (k + 1) as nat, n as nat);
            }
            return Err(
                BasefoldVerifyError::LogupGkr(
                    message3(
                        "sumcheck round ",
                        k,
                        " poly has ",
                        curr.coefficients.len(),
                        " coefficients, expected ",
                        expected_degree + 1,
                        "",
                    ),
                ),
            );
        }
        let at_0 = eval_coeffs_host(curr.coefficients.as_slice(), Ext::zero());
        let at_1 = eval_coeffs_host(curr.coefficients.as_slice(), Ext::one());
        let ends = at_0.plus(at_1);
        if k == 0 {
            if !ends.same(&sumcheck.claimed_sum) {
                proof {
                    rounds_refusal_stays(v, s, deg, (k + 1) as nat, n as nat);
                }
                return Err(gkr_error("sumcheck first-round inconsistency with claimed_sum"));
            }
        } else {
            let prev = &sumcheck.univariate_polys[k - 1];
            proof {
                assert(v.polys[k - 1] == evals(prev.coefficients@));
            }
            let at_alpha = eval_coeffs_host(prev.coefficients.as_slice(), alpha);
            if !at_alpha.same(&ends) {
                proof {
                    rounds_refusal_stays(v, s, deg, (k + 1) as nat, n as nat);
                }
                return Err(
                    BasefoldVerifyError::LogupGkr(
                        message1("sumcheck round-", k, " consistency failed"),
                    ),
                );
            }
            drawn.push(alpha);
        }
        challenger.observe_algebra_slice(curr.coefficients.as_slice());
        k = k + 1;
    }
    let last = challenger.sample_algebra_element();
    drawn.push(last);
    let mut point: Vec<Ext> = Vec::new();
    let mut j: usize = 0;
    while j < n
        invariant
            j <= n,
            n == v.polys.len(),
            drawn@.len() == n,
            forall|i: int|
                0 <= i < n ==> (#[trigger] drawn@[i])@ == v.challenge(s, (i + 1) as nat),
            point@.len() == j,
            forall|i: int|
                0 <= i < j ==> (#[trigger] point@[i])@ == v.challenge(s, (n - i) as nat),
        decreases n - j,
    {
        point.push(drawn[n - 1 - j]);
        j = j + 1;
    }
    proof {
        assert(evals(point@) =~= v.reduced_point(s));
    }
    if !same_point(point.as_slice(), sumcheck.point_and_eval.0.as_slice()) {
        return Err(gkr_error("sumcheck reduced point doesn't match sampled challenges"));
    }
    let poly = &sumcheck.univariate_polys[n - 1];
    proof {
        assert(v.polys[n - 1] == evals(poly.coefficients@));
    }
    let value = eval_coeffs_host(poly.coefficients.as_slice(), last);
    if !value.same(&sumcheck.point_and_eval.1) {
        return Err(gkr_error("sumcheck final eval doesn't match recomputed value"));
    }
    Ok(())
}

} // verus!
