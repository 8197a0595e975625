//! Evaluation of multilinear polynomials.
use vstd::prelude::*;
use vstd::arithmetic::power2::{lemma2_to64, lemma_pow2_unfold, pow2};
use crate::ext::{evals, fvals, lift, Ext};
use crate::felt::Felt;
use crate::mle::{fold_all, mle_eval};
use crate::whir::sumcheck::fold_in_place;

verus! {

/// A copy of a sequence of extension elements.
pub fn copy_exts(s: &[Ext]) -> (r: Vec<Ext>)
    ensures
        r@ == s@,
{
    let mut r: Vec<Ext> = Vec::new();
    let mut i: usize = 0;
    while i < s.len()
        invariant
            i <= s@.len(),
            r@ == s@.take(i as int),
        decreases s@.len() - i,
    {
        r.push(s[i]);
        i = i + 1;
        proof {
            assert(s@.take(i as int) =~= s@.take(i - 1).push(s@[i - 1]));
        }
    }
    proof {
        assert(s@.take(i as int) =~= s@);
    }
    r
}

/// Base-field values as constants of the extension.
pub fn lift_felts(s: &[Felt]) -> (r: Vec<Ext>)
    ensures
        evals(r@) == lift(fvals(s@)),
{
    let mut r: Vec<Ext> = Vec::new();
    let mut i: usize = 0;
    while i < s.len()
        invariant
            i <= s@.len(),
            r@.len() == i,
            forall|j: int| 0 <= j < i ==> (#[trigger] r@[j])@ == lift(fvals(s@))[j],
        decreases s@.len() - i,
    {
        r.push(Ext::from_base(s[i]));
        i = i + 1;
    }
    proof {
        assert(evals(r@) =~= lift(fvals(s@)));
    }
    r
}

/// The multilinear extension of `values` at `point`, variable 0 first.
pub fn eval_at(values: &[Ext], point: &[Ext]) -> (r: Ext)
    requires
        values@.len() == pow2(point@.len()),
    ensures
        r@ == mle_eval(evals(values@), evals(point@)),
{
    let ghost p = evals(point@);
    let ghost f = evals(values@);
    let mut cur = copy_exts(values);
    let mut i: usize = 0;
    proof {
        assert(p.skip(0) =~= p);
    }
    while i < point.len()
        invariant
            i <= point@.len(),
            p == evals(point@),
            cur@.len() == pow2((point@.len() - i) as nat),
            fold_all(evals(cur@), p.skip(i as int)) == fold_all(f, p),
        decreases point@.len() - i,
    {
        proof {
            lemma_pow2_unfold((point@.len() - i) as nat);
            let s = p.skip(i as int);
            assert(s[0] == point@[i as int]@);
            assert(s.skip(1) =~= p.skip(i + 1));
        }
        fold_in_place(&mut cur, point[i]);
        i = i + 1;
    }
    proof {
        lemma2_to64();
        assert(p.skip(i as int).len() == 0);
        assert(evals(cur@)[0] == cur@[0]@);
    }
    cur[0]
}

/// Whether two points are equal.
pub fn same_point(a: &[Ext], b: &[Ext]) -> (r: bool)
    ensures
        r == (evals(a@) == evals(b@)),
{
    if a.len() != b.len() {
        proof {
            assert(evals(a@).len() != evals(b@).len());
        }
        return false;
    }
    let mut i: usize = 0;
    while i < a.len()
        invariant
            i <= a@.len(),
            a@.len() == b@.len(),
            forall|j: int| 0 <= j < i ==> (#[trigger] a@[j])@ == b@[j]@,
        decreases a@.len() - i,
    {
        if !a[i].same(&b[i]) {
            proof {
                assert(evals(a@)[i as int] != evals(b@)[i as int]);
            }
            return false;
        }
        i = i + 1;
    }
    proof {
        assert(evals(a@) =~= evals(b@));
    }
    true
}

} // verus!
