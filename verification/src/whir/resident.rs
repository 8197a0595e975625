//! An engine on the host: it keeps the vectors while they are large.
use vstd::prelude::*;
use vstd::arithmetic::power2::{lemma2_to64, pow2};
use crate::arith::{ceil_log2_is_least, ceil_log2_of, log2_of_pow2, pow2_le};
use crate::ext::{epoints, evals, Ext, E4};
use crate::merkle::{committed_matrices, uniform, CommittedRows, Digest};
use crate::multilinear::{copy_exts, eval_at};
use crate::whir::backend::{commit_poly, index_vals, owned_trees};
use crate::whir::engine::{Held, WhirRound0Engine};
use crate::whir::honest::TreeVal;
use crate::whir::messages::LeafOpening;
use crate::whir::proving::{open_trees, tree_vals};
use crate::whir::stacked::{batch_stripes, data_stripes, data_trees, stripe_values,
    StackedWhirProver, StackedWhirProverData};
use crate::whir::sumcheck::{eq_table, fold_in_place, WhirFolder};

verus! {

/// An engine on the host. It keeps vectors of more than `keep_above` entries.
pub struct ResidentEngine<'a> {
    prover: &'a StackedWhirProver,
    data: &'a Vec<&'a StackedWhirProverData>,
    keep_above: usize,
    resident: bool,
    folder: WhirFolder,
    given: Vec<Ext>,
    queue: Vec<CommittedRows>,
}

impl<'a> ResidentEngine<'a> {
    /// The length up to which vectors are handed out.
    pub closed spec fn threshold(&self) -> nat {
        self.keep_above as nat
    }

    /// An engine over what a prover keeps of its commitments.
    pub fn new(
        prover: &'a StackedWhirProver,
        data: &'a Vec<&'a StackedWhirProverData>,
        keep_above: usize,
    ) -> (r: ResidentEngine<'a>)
        requires
            prover.can_commit(),
            forall|i: int| 0 <= i < data@.len() ==> prover.holds(*#[trigger] data@[i]),
        ensures
            r.ready(),
            r.stripes() == data_stripes(data@),
            r.trees() == data_trees(data@),
            r.pending().len() == 0,
            r.stack_vars() == prover.log_stacking_height,
            r.threshold() == keep_above,
            r.held() is None,
            r.handed().len() == 0,
    {
        ResidentEngine {
            prover,
            data,
            keep_above,
            resident: false,
            folder: WhirFolder { f_vec: Vec::new(), weight: Vec::new(), claimed_sum: Ext::zero() },
            given: Vec::new(),
            queue: Vec::new(),
        }
    }
}

impl<'a> WhirRound0Engine for ResidentEngine<'a> {
    closed spec fn stripes(&self) -> Seq<Seq<Seq<int>>> {
        data_stripes(self.data@)
    }

    closed spec fn trees(&self) -> Seq<TreeVal> {
        data_trees(self.data@)
    }

    closed spec fn held(&self) -> Option<Held> {
        if self.resident {
            Some(Held { f: self.folder@.f, w: self.folder@.w })
        } else {
            None
        }
    }

    closed spec fn handed(&self) -> Seq<E4> {
        evals(self.given@)
    }

    closed spec fn pending(&self) -> Seq<TreeVal> {
        owned_trees(self.queue@)
    }

    closed spec fn stack_vars(&self) -> nat {
        self.prover.log_stacking_height as nat
    }

    closed spec fn ready(&self) -> bool {
        &&& self.prover.can_commit()
        &&& forall|i: int| 0 <= i < self.data@.len() ==> self.prover.holds(*#[trigger] self.data@[i])
        &&& self.resident ==> self.folder.f_vec@.len() == self.folder.weight@.len()
    }

    fn stripe_evals(&mut self, stack_point: &[Ext]) -> (r: Vec<Vec<Ext>>) {
        proof {
            lemma2_to64();
            pow2_le(
                self.prover.log_stacking_height as nat,
                self.prover.log_stacking_height as nat
                    + self.prover.config.starting_log_inv_rate as nat,
            );
        }
        self.prover.evaluate_stripes(self.data, stack_point)
    }

    fn init(&mut self, lambda: Ext, stack_point: &[Ext]) {
        let n: usize = self.prover.log_stacking_height as usize;
        let ghost stripes = data_stripes(self.data@);
        let ghost values = stripe_values(stripes, evals(stack_point@));
        proof {
            lemma2_to64();
            pow2_le(n as nat, n as nat + self.prover.config.starting_log_inv_rate as nat);
        }
        let found = self.prover.evaluate_stripes(self.data, stack_point);
        let (_claim, powers) = batch_stripes(&found, lambda);
        proof {
            assert forall|i: int| 0 <= i < self.data@.len() implies (
            #[trigger] powers@[i])@.len() == self.data@[i].stripes@.len() by {
                assert(epoints(found@)[i].len() == values[i].len());
                assert(found@[i]@.len() == evals(found@[i]@).len());
                assert(epoints(powers@)[i].len() == powers@[i]@.len());
            }
        }
        let f_vec = self.prover.combine_stripes(self.data, &powers);
        let weight = eq_table(n, stack_point);
        proof {
            assert(evals(weight@).len() == weight@.len());
            assert(evals(stack_point@).len() == n);
        }
        self.folder = WhirFolder { f_vec, weight, claimed_sum: Ext::zero() };
        self.resident = true;
    }

    fn c0_c2(&mut self) -> (r: (Ext, Ext)) {
        self.folder.round_coefficients()
    }

    fn apply_rc(&mut self, rc: Ext) {
        fold_in_place(&mut self.folder.f_vec, rc);
        fold_in_place(&mut self.folder.weight, rc);
    }

    fn extract(&mut self) -> (r: (Vec<Ext>, Vec<Ext>)) {
        let f = copy_exts(self.folder.f_vec.as_slice());
        let w = copy_exts(self.folder.weight.as_slice());
        self.given = copy_exts(self.folder.f_vec.as_slice());
        self.resident = false;
        (f, w)
    }

    fn keep_resident(&self, len: usize) -> (r: bool)
        ensures
            r == (len > self.threshold()),
    {
        len > self.keep_above
    }

    fn eval_resident(&mut self, point_lsb: &[Ext]) -> (r: Ext) {
        proof {
            assert(evals(self.folder.f_vec@).len() == self.folder.f_vec@.len());
        }
        eval_at(self.folder.f_vec.as_slice(), point_lsb)
    }

    fn open_queries(&mut self, indices: &Vec<usize>, height: usize) -> (r: Vec<LeafOpening>) {
        let mut trees: Vec<&CommittedRows> = Vec::new();
        let mut i: usize = 0;
        while i < self.data.len()
            invariant
                i <= self.data@.len(),
                trees@.len() == i,
                forall|j: int| 0 <= j < i ==> *(#[trigger] trees@[j]) == self.data@[j].tree,
            decreases self.data@.len() - i,
        {
            trees.push(&self.data[i].tree);
            i = i + 1;
        }
        proof {
            assert(tree_vals(trees@) =~= data_trees(self.data@));
            assert forall|i: int| 0 <= i < trees@.len() implies uniform(
                committed_matrices(*#[trigger] trees@[i]),
                height as nat,
            ) by {
                assert(uniform(data_trees(self.data@)[i], height as nat));
            }
            assert(Seq::new(indices@.len(), |q: int| indices@[q] as int) =~= index_vals(indices@));
        }
        open_trees(&trees, height, indices)
    }

    fn commit_folded(&mut self, next_ff: usize, log_inv_rate: usize, v: usize) -> (r: Option<
        Digest,
    >)
        ensures
            r is Some <==> (if old(self).held() is Some {
                old(self).held()->0.f
            } else {
                old(self).handed()
            }).len() == pow2(v as nat),
            final(self).threshold() == old(self).threshold(),
    {
        let len: usize = if self.resident {
            self.folder.f_vec.len()
        } else {
            self.given.len()
        };
        proof {
            pow2_le(v as nat, (v + log_inv_rate) as nat);
            assert(evals(self.folder.f_vec@).len() == self.folder.f_vec@.len());
            assert(evals(self.given@).len() == self.given@.len());
        }
        let size: usize = crate::arith::pow2_usize(v);
        if len != size {
            return None;
        }
        let (root, tree) = if self.resident {
            commit_poly(&self.folder.f_vec, next_ff, log_inv_rate, v)
        } else {
            commit_poly(&self.given, next_ff, log_inv_rate, v)
        };
        let ghost was = self.queue@;
        self.queue.push(tree);
        proof {
            assert(owned_trees(self.queue@) =~= owned_trees(was).push(committed_matrices(tree)));
        }
        Some(root)
    }

    fn open_folded_queries(&mut self, indices: &Vec<usize>, height: usize) -> (r: Vec<
        LeafOpening,
    >) {
        let ghost was = self.queue@;
        let tree = self.queue.remove(0);
        let mut one: Vec<&CommittedRows> = Vec::new();
        one.push(&tree);
        proof {
            assert(owned_trees(was)[0] == committed_matrices(was[0]));
            assert(tree_vals(one@) =~= seq![owned_trees(was)[0]]);
            assert(owned_trees(self.queue@) =~= owned_trees(was).skip(1));
            assert(Seq::new(indices@.len(), |q: int| indices@[q] as int) =~= index_vals(indices@));
        }
        let n: usize = indices.len();
        open_trees(&one, height, indices)
    }

    fn absorb_monomials(
        &mut self,
        weight: &mut Vec<Ext>,
        points_lsb: &Vec<Vec<Ext>>,
        coeffs: &Vec<Ext>,
    ) -> (r: bool) {
        if !self.resident {
            return false;
        }
        if points_lsb.len() == 0 {
            return true;
        }
        proof {
            self.seated(points_lsb@);
        }
        self.folder.absorb_monomial_tables(points_lsb, coeffs);
        true
    }

    fn absorb_ood(
        &mut self,
        weight: &mut Vec<Ext>,
        points_lsb: &Vec<Vec<Ext>>,
        coeffs: &Vec<Ext>,
    ) -> (r: bool) {
        if !self.resident {
            return false;
        }
        if points_lsb.len() == 0 {
            return true;
        }
        proof {
            self.seated(points_lsb@);
        }
        self.folder.absorb_eq_tables(points_lsb, coeffs);
        true
    }
}

impl<'a> ResidentEngine<'a> {
    proof fn seated(&self, points: Seq<Vec<Ext>>)
        requires
            self.ready(),
            self.resident,
            points.len() > 0,
            forall|i: int|
                0 <= i < points.len() ==> self.folder@.w.len() == pow2((#[trigger] points[i])@.len()),
        ensures
            self.folder.wf(),
            forall|i: int|
                0 <= i < points.len() ==> (#[trigger] points[i])@.len() == self.folder.vars(),
    {
        assert(self.folder@.w.len() == self.folder.weight@.len());
        assert forall|i: int| 0 <= i < points.len() implies (#[trigger] points[i])@.len()
            == self.folder.vars() by {
            let n = points[i]@.len();
            ceil_log2_is_least(pow2(n));
            log2_of_pow2(pow2(n), ceil_log2_of(pow2(n)), n);
        }
        assert(self.folder@.w.len() == pow2(points[0]@.len()));
        assert(points[0]@.len() == self.folder.vars());
    }
}

} // verus!
