//! The KoalaBear prime field.
//!
//! A [`Felt`] always holds the canonical representative of its residue class,
//! and its view is that residue as a mathematical integer.
use vstd::prelude::*;
use vstd::arithmetic::div_mod::{lemma_mod_add_multiples_vanish, lemma_mod_twice, lemma_small_mod};
use p3_field::{Field, PrimeCharacteristicRing, PrimeField32};
use p3_koala_bear::KoalaBear;

verus! {

/// The order of the field, `2^31 - 2^24 + 1`.
pub const ORDER: u32 = 2130706433;

/// The order of the field as an integer.
pub open spec fn order() -> int {
    2130706433
}

/// The canonical representative of `x` modulo the field order.
pub open spec fn reduce(x: int) -> int {
    x % order()
}

/// Whether `x` is a canonical representative.
pub open spec fn canonical(x: int) -> bool {
    0 <= x < order()
}

/// The sum of two residues.
pub open spec fn fadd(a: int, b: int) -> int {
    reduce(a + b)
}

/// The difference of two residues.
pub open spec fn fsub(a: int, b: int) -> int {
    reduce(a - b)
}

/// The product of two residues.
pub open spec fn fmul(a: int, b: int) -> int {
    reduce(a * b)
}

/// An element of the KoalaBear field.
#[derive(Clone, Copy, Debug)]
pub struct Felt {
    v: u32,
}

impl View for Felt {
    type V = int;

    closed spec fn view(&self) -> int {
        reduce(self.v as int)
    }
}

impl Felt {
    #[verifier::type_invariant]
    closed spec fn inv(self) -> bool {
        self.v < 2130706433
    }

    /// The residue class of `x`.
    pub fn new(x: u32) -> (r: Felt)
        ensures
            r@ == reduce(x as int),
    {
        let v: u32 = x % ORDER;
        proof {
            lemma_mod_twice(x as int, order());
        }
        Felt { v }
    }

    /// The residue class of a machine-size count.
    pub fn from_usize(x: usize) -> (r: Felt)
        ensures
            r@ == reduce(x as int),
    {
        let v: u32 = (x as u64 % ORDER as u64) as u32;
        proof {
            lemma_mod_twice(x as int, order());
        }
        Felt { v }
    }

    /// The additive identity.
    pub fn zero() -> (r: Felt)
        ensures
            r@ == 0,
    {
        Felt { v: 0 }
    }

    /// The multiplicative identity.
    pub fn one() -> (r: Felt)
        ensures
            r@ == 1,
    {
        Felt { v: 1 }
    }

    /// The canonical representative.
    pub fn value(&self) -> (r: u32)
        ensures
            r as int == self@,
            r < ORDER,
    {
        proof {
            use_type_invariant(self);
            lemma_small_mod(self.v as nat, order() as nat);
        }
        self.v
    }

    /// Field addition.
    pub fn plus(self, other: Felt) -> (r: Felt)
        ensures
            r@ == fadd(self@, other@),
    {
        let a: u64 = self.value() as u64;
        let b: u64 = other.value() as u64;
        let v: u32 = ((a + b) % ORDER as u64) as u32;
        proof {
            lemma_mod_twice(a as int + b as int, order());
        }
        Felt { v }
    }

    /// Field subtraction.
    pub fn minus(self, other: Felt) -> (r: Felt)
        ensures
            r@ == fsub(self@, other@),
    {
        let a: u64 = self.value() as u64;
        let b: u64 = other.value() as u64;
        let v: u32 = ((a + ORDER as u64 - b) % ORDER as u64) as u32;
        proof {
            lemma_mod_add_multiples_vanish(a - b, order());
            lemma_mod_twice(a - b, order());
        }
        Felt { v }
    }

    /// Field multiplication.
    pub fn times(self, other: Felt) -> (r: Felt)
        ensures
            r@ == fmul(self@, other@),
    {
        let a: u64 = self.value() as u64;
        let b: u64 = other.value() as u64;
        proof {
            assert(0 <= a * b <= 2130706432 * 2130706432) by (nonlinear_arith)
                requires
                    a <= 2130706432,
                    b <= 2130706432,
            ;
        }
        let v: u32 = ((a * b) % ORDER as u64) as u32;
        proof {
            lemma_mod_twice(a * b, order());
        }
        Felt { v }
    }

    /// The multiplicative inverse, or `None` for zero.
    pub fn try_inverse(self) -> (r: Option<Felt>)
        ensures
            r is None <==> self@ == 0,
            r matches Some(i) ==> fmul(self@, i@) == 1,
    {
        let x: u32 = self.value();
        if x == 0 {
            None
        } else {
            let v: u32 = koala_bear_inverse(x);
            proof {
                lemma_small_mod(v as nat, order() as nat);
            }
            Some(Felt { v })
        }
    }

    /// Whether two elements are the same residue.
    pub fn same(&self, other: &Felt) -> (r: bool)
        ensures
            r == (self@ == other@),
    {
        self.value() == other.value()
    }
}

impl PartialEq for Felt {
    fn eq(&self, other: &Felt) -> (r: bool) {
        self.same(other)
    }
}

impl vstd::std_specs::cmp::PartialEqSpecImpl for Felt {
    open spec fn obeys_eq_spec() -> bool {
        true
    }

    open spec fn eq_spec(&self, other: &Felt) -> bool {
        self@ == other@
    }
}

/// A residue is canonical.
pub broadcast proof fn felt_canonical(x: Felt)
    ensures
        0 <= #[trigger] x@ < order(),
{
}

/// `p3_field::Field::inverse` on `KoalaBear`: the multiplicative inverse of a
/// nonzero element. The claim is that its product with the argument is one.
#[verifier::external_body]
fn koala_bear_inverse(x: u32) -> (r: u32)
    requires
        0 < x < ORDER,
    ensures
        r < ORDER,
        fmul(x as int, r as int) == 1,
{
    KoalaBear::from_u32(x).inverse().as_canonical_u32()
}

} // verus!
