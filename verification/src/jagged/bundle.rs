//! A proof of a jagged opening.
use vstd::prelude::*;
use crate::ext::Ext;
use crate::jagged::packing::{copy_counts, jagged_counts_from_packing, columns_before,
    group_heights, nats, PackingMeta};
use crate::merkle::Digest;
use crate::whir::jagged::JaggedCommit;
use crate::whir::stacked::StackedWhirProof;

verus! {

/// A proof of a jagged opening, in one or more groups. The first group's parts stand in
/// fields of their own. `R` is the proof of a reduction, `E` that of an evaluation of the
/// layout, and `B` an opening of another scheme.
pub struct JaggedBasefoldBundleGeneric<R, E, B> {
    /// The reduction of the first group.
    pub reduction: R,
    /// The opening of the first group under the other scheme.
    pub basefold_proof: B,
    /// The opening of the first group.
    pub whir_proof: Option<StackedWhirProof>,
    /// The claims for each group of columns.
    pub y_per_chip: Vec<Vec<Ext>>,
    /// The commitment of the first group.
    pub commit: JaggedCommit,
    /// The layout of the first group.
    pub packing: PackingMeta,
    /// The evaluation of the first group's layout.
    pub jagged_eval: E,
    /// The roots of the commitments before the last one.
    pub preceding_commits: Vec<Digest>,
    /// The reductions of the other groups.
    pub extra_reduction: Vec<R>,
    /// The openings of the other groups.
    pub extra_basefold_proof: Vec<B>,
    /// The commitments of the other groups.
    pub extra_commit: Vec<JaggedCommit>,
    /// The layouts of the other groups.
    pub extra_packing: Vec<PackingMeta>,
    /// The evaluations of the other groups' layouts.
    pub extra_jagged_eval: Vec<E>,
    /// Which groups of columns each group holds; empty for one group of all.
    pub groups: Vec<Vec<usize>>,
}

/// The opening of a shard proof.
pub enum EvaluationProof<R, E, B> {
    /// There is none.
    Empty,
    /// A serialized opening.
    Bytes {
        /// The number of bytes.
        len: usize,
        /// What they stand for, if they stand for an opening.
        decoded: Option<JaggedBasefoldBundleGeneric<R, E, B>>,
    },
    /// An opening.
    Bundle(JaggedBasefoldBundleGeneric<R, E, B>),
}

/// The numbers of several lists.
pub open spec fn lists(s: Seq<Vec<usize>>) -> Seq<Seq<usize>> {
    Seq::new(s.len(), |i: int| s[i]@)
}

/// Which groups of columns each group holds: one group of all where none is named.
pub open spec fn groups_of(groups: Seq<Vec<usize>>, n: nat) -> Seq<Seq<usize>> {
    if groups.len() == 0 {
        seq![Seq::new(n, |i: int| i as usize)]
    } else {
        lists(groups)
    }
}

impl<R, E, B> JaggedBasefoldBundleGeneric<R, E, B> {
    /// Whether the bundle has one group, of all.
    pub open spec fn single(self) -> bool {
        &&& self.groups@.len() == 0
        &&& self.extra_reduction@.len() == 0
        &&& self.extra_basefold_proof@.len() == 0
        &&& self.extra_commit@.len() == 0
        &&& self.extra_packing@.len() == 0
        &&& self.extra_jagged_eval@.len() == 0
    }

    /// The number of groups.
    pub fn num_groups(&self) -> (r: usize)
        requires
            self.extra_reduction@.len() < usize::MAX,
        ensures
            r == 1 + self.extra_reduction@.len(),
    {
        1 + self.extra_reduction.len()
    }

    /// The reduction of group `g`.
    pub fn reduction_g(&self, g: usize) -> (r: &R)
        requires
            g <= self.extra_reduction@.len(),
        ensures
            *r == (if g == 0 {
                self.reduction
            } else {
                self.extra_reduction@[g - 1]
            }),
    {
        if g == 0 {
            &self.reduction
        } else {
            &self.extra_reduction[g - 1]
        }
    }

    /// The opening of group `g` under the other scheme.
    pub fn basefold_proof_g(&self, g: usize) -> (r: &B)
        requires
            g <= self.extra_basefold_proof@.len(),
        ensures
            *r == (if g == 0 {
                self.basefold_proof
            } else {
                self.extra_basefold_proof@[g - 1]
            }),
    {
        if g == 0 {
            &self.basefold_proof
        } else {
            &self.extra_basefold_proof[g - 1]
        }
    }

    /// The commitment of group `g`.
    pub fn commit_g(&self, g: usize) -> (r: &JaggedCommit)
        requires
            g <= self.extra_commit@.len(),
        ensures
            *r == (if g == 0 {
                self.commit
            } else {
                self.extra_commit@[g - 1]
            }),
    {
        if g == 0 {
            &self.commit
        } else {
            &self.extra_commit[g - 1]
        }
    }

    /// The layout of group `g`.
    pub fn packing_g(&self, g: usize) -> (r: &PackingMeta)
        requires
            g <= self.extra_packing@.len(),
        ensures
            *r == (if g == 0 {
                self.packing
            } else {
                self.extra_packing@[g - 1]
            }),
    {
        if g == 0 {
            &self.packing
        } else {
            &self.extra_packing[g - 1]
        }
    }

    /// The evaluation of group `g`'s layout.
    pub fn jagged_eval_g(&self, g: usize) -> (r: &E)
        requires
            g <= self.extra_jagged_eval@.len(),
        ensures
            *r == (if g == 0 {
                self.jagged_eval
            } else {
                self.extra_jagged_eval@[g - 1]
            }),
    {
        if g == 0 {
            &self.jagged_eval
        } else {
            &self.extra_jagged_eval[g - 1]
        }
    }

    /// Which groups of columns each group holds: one group of all where none is named.
    pub fn groups_or_identity(&self, n_chips: usize) -> (r: Vec<Vec<usize>>)
        ensures
            lists(r@) == groups_of(self.groups@, n_chips as nat),
    {
        let mut r: Vec<Vec<usize>> = Vec::new();
        if self.groups.len() == 0 {
            let mut all: Vec<usize> = Vec::new();
            let mut i: usize = 0;
            while i < n_chips
                invariant
                    i <= n_chips,
                    all@.len() == i,
                    forall|j: int| 0 <= j < i ==> #[trigger] all@[j] == j,
                decreases n_chips - i,
            {
                all.push(i);
                i = i + 1;
            }
            r.push(all);
            proof {
                assert(all@ =~= Seq::new(n_chips as nat, |i: int| i as usize));
                assert(lists(r@) =~= groups_of(self.groups@, n_chips as nat));
            }
            return r;
        }
        let mut g: usize = 0;
        while g < self.groups.len()
            invariant
                g <= self.groups@.len(),
                r@.len() == g,
                forall|j: int| 0 <= j < g ==> (#[trigger] r@[j])@ == self.groups@[j]@,
            decreases self.groups@.len() - g,
        {
            r.push(copy_counts(&self.groups[g]));
            g = g + 1;
        }
        proof {
            assert(lists(r@) =~= groups_of(self.groups@, n_chips as nat));
        }
        r
    }

    /// Whether the proof's groups are the expected ones, and it has parts for as many.
    pub fn covers(&self, expected_groups: &Vec<Vec<usize>>, n_chips: usize) -> (r: bool)
        requires
            self.extra_reduction@.len() < usize::MAX,
        ensures
            r == (groups_of(self.groups@, n_chips as nat) == lists(expected_groups@) && 1
                + self.extra_reduction@.len() == expected_groups@.len()),
    {
        let mine = self.groups_or_identity(n_chips);
        let ghost a = groups_of(self.groups@, n_chips as nat);
        let ghost b = lists(expected_groups@);
        proof {
            assert(a.len() == mine@.len());
            assert(b.len() == expected_groups@.len());
        }
        if mine.len() != expected_groups.len() {
            return false;
        }
        let mut g: usize = 0;
        while g < mine.len()
            invariant
                g <= mine@.len(),
                mine@.len() == expected_groups@.len(),
                a == lists(mine@),
                b == lists(expected_groups@),
                a == groups_of(self.groups@, n_chips as nat),
                forall|j: int| 0 <= j < g ==> #[trigger] a[j] == b[j],
            decreases mine@.len() - g,
        {
            if !same_counts(&mine[g], &expected_groups[g]) {
                proof {
                    assert(a[g as int] != b[g as int]);
                }
                return false;
            }
            g = g + 1;
        }
        proof {
            assert(a =~= b);
        }
        self.num_groups() == mine.len()
    }
}

/// Whether two lists of numbers are equal.
pub fn same_counts(a: &Vec<usize>, b: &Vec<usize>) -> (r: bool)
    ensures
        r == (a@ == b@),
{
    if a.len() != b.len() {
        return false;
    }
    let mut i: usize = 0;
    while i < a.len()
        invariant
            i <= a@.len(),
            a@.len() == b@.len(),
            forall|j: int| 0 <= j < i ==> #[trigger] a@[j] == b@[j],
        decreases a@.len() - i,
    {
        if a[i] != b[i] {
            return false;
        }
        i = i + 1;
    }
    proof {
        assert(a@ =~= b@);
    }
    true
}

/// The heights of the groups that the last commitment holds.
pub open spec fn main_heights(packing: PackingMeta) -> Seq<nat> {
    if packing.round_counts@.len() > 0 {
        let last = packing.round_counts@.last()@;
        Seq::new(last.len(), |i: int| last[i].0 as nat)
    } else {
        group_heights(packing.offsets@, packing.total_values as nat, packing.column_counts@)
    }
}

/// The numbers of columns of the groups that the last commitment holds.
pub open spec fn main_widths(packing: PackingMeta) -> Seq<nat> {
    if packing.round_counts@.len() > 0 {
        let last = packing.round_counts@.last()@;
        Seq::new(last.len(), |i: int| last[i].1 as nat)
    } else {
        nats(packing.column_counts@)
    }
}

/// The heights and numbers of columns of the groups that the last commitment holds. A
/// layout of one commitment need not name them apart.
pub fn main_round_counts(packing: &PackingMeta) -> (r: (Vec<usize>, Vec<usize>))
    requires
        packing.round_counts@.len() == 0 ==> columns_before(
            packing.column_counts@,
            packing.column_counts@.len() as int,
        ) <= usize::MAX,
    ensures
        nats(r.0@) == main_heights(*packing),
        nats(r.1@) == main_widths(*packing),
{
    let n: usize = packing.round_counts.len();
    if n == 0 {
        return jagged_counts_from_packing(packing);
    }
    let last = &packing.round_counts[n - 1];
    let mut rows: Vec<usize> = Vec::new();
    let mut cols: Vec<usize> = Vec::new();
    let mut i: usize = 0;
    while i < last.len()
        invariant
            i <= last@.len(),
            rows@.len() == i,
            cols@.len() == i,
            forall|j: int| 0 <= j < i ==> #[trigger] rows@[j] == last@[j].0,
            forall|j: int| 0 <= j < i ==> #[trigger] cols@[j] == last@[j].1,
        decreases last@.len() - i,
    {
        rows.push(last[i].0);
        cols.push(last[i].1);
        i = i + 1;
    }
    proof {
        assert(nats(rows@) =~= main_heights(*packing));
        assert(nats(cols@) =~= main_widths(*packing));
    }
    (rows, cols)
}

} // verus!
