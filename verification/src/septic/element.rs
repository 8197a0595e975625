//! Elements of the septic extension.
//!
//! Roots and inverses go through the norm: with `f` the map that sends `z` to `z^p`, the
//! product of an element with its images under `f` lies in the base field.
use vstd::prelude::*;
use vstd::arithmetic::div_mod::{lemma_mod_multiples_vanish, lemma_mod_twice, lemma_small_mod};
use p3_field::{PrimeCharacteristicRing, PrimeField32};
use p3_koala_bear::KoalaBear;
use crate::felt::{canonical, felt_canonical, fmul, order, reduce, Felt};
use crate::septic::norm::{nonzero_has_norm, norm_means_nonzero, squares_have_roots};
use crate::septic::field::{lemma_mul_formula, mul_assoc, mul_canon, mul_comm, mul_one, mul_zero,
    poly_reduce, s_embed, s_gen, s_one, s_pow, s_zero, S7};

verus! {

/// An element of the septic extension: the coefficients of `1, z, .., z^6`.
#[derive(Clone, Copy, Debug)]
pub struct SepticExtension<T>(pub [T; 7]);

impl View for SepticExtension<Felt> {
    type V = S7;

    open spec fn view(&self) -> S7 {
        S7 {
            c0: self.0@[0]@,
            c1: self.0@[1]@,
            c2: self.0@[2]@,
            c3: self.0@[3]@,
            c4: self.0@[4]@,
            c5: self.0@[5]@,
            c6: self.0@[6]@,
        }
    }
}

/// The coefficients of an element are canonical.
pub proof fn septic_canon(x: SepticExtension<Felt>)
    ensures
        x@.canon(),
{
    broadcast use felt_canonical;

}

/// The power of a square is the even power.
pub proof fn pow_square(x: S7, n: nat)
    ensures
        s_pow(x * x, n) == s_pow(x, 2 * n),
    decreases n,
{
    if n > 0 {
        pow_square(x, (n - 1) as nat);
        let y = s_pow(x, (2 * n - 2) as nat);
        mul_assoc(y, x, x);
        assert(s_pow(x, (2 * n - 1) as nat) == y * x);
    }
}

/// A power is canonical.
pub proof fn pow_canon(x: S7, n: nat)
    ensures
        s_pow(x, n).canon(),
{
    if n > 0 {
        mul_canon(s_pow(x, (n - 1) as nat), x);
    }
}

/// A product with a residue of the base field scales every coefficient.
pub proof fn embed_mul(k: int, a: S7)
    ensures
        s_embed(k) * a == poly_reduce(crate::septic::field::poly_scale(k, a)),
{
    reveal(S7::spec_mul);
    lemma_mul_formula(s_embed(k), a);
    broadcast use vstd::arithmetic::mul::group_mul_basics;

}

/// Embedding keeps products.
pub proof fn embed_product(a: int, b: int)
    ensures
        s_embed(a) * s_embed(b) == s_embed(fmul(a, b)),
{
    embed_mul(a, s_embed(b));
    lemma_small_mod(0, order() as nat);
    broadcast use vstd::arithmetic::mul::group_mul_basics;

}

fn mul_wide(a: Felt, b: Felt) -> (r: u128)
    ensures
        r == a@ * b@,
        r <= 2130706432 * 2130706432,
{
    let x: u64 = a.value() as u64;
    let y: u64 = b.value() as u64;
    proof {
        assert(0 <= x * y <= 2130706432 * 2130706432) by (nonlinear_arith)
            requires
                x <= 2130706432,
                y <= 2130706432,
        ;
    }
    (x * y) as u128
}

/// The residue class of a difference of two sums of products.
fn settle(up: u128, down: u128) -> (r: Felt)
    requires
        up <= 100 * 2130706433 * 2130706433,
        down <= 16 * 2130706433 * 2130706433,
    ensures
        r@ == reduce(up - down),
{
    let wide: u128 = up + 16 * 2130706433 * 2130706433 - down;
    let m: u128 = wide % 2130706433;
    proof {
        lemma_mod_multiples_vanish(34091302928, up - down, order());
        assert(order() * 34091302928 + (up - down) == wide);
        lemma_mod_twice(up - down, order());
    }
    Felt::new(m as u32)
}

impl SepticExtension<Felt> {
    /// The element with the given coefficients.
    pub fn from_base_slice(c: &[Felt; 7]) -> (r: Self)
        ensures
            r.0 == *c,
    {
        SepticExtension(*c)
    }

    /// The additive identity.
    pub fn zero() -> (r: Self)
        ensures
            r@ == s_zero(),
    {
        SepticExtension([Felt::zero(); 7])
    }

    /// The embedding of a base-field element.
    pub fn from_base(x: Felt) -> (r: Self)
        ensures
            r@ == s_embed(x@),
    {
        let z = Felt::zero();
        SepticExtension([x, z, z, z, z, z, z])
    }

    /// The multiplicative identity.
    pub fn one() -> (r: Self)
        ensures
            r@ == s_one(),
    {
        Self::from_base(Felt::one())
    }

    /// The generator `z`.
    pub fn generator() -> (r: Self)
        ensures
            r@ == s_gen(),
    {
        let z = Felt::zero();
        SepticExtension([z, Felt::one(), z, z, z, z, z])
    }

    /// Addition.
    pub fn plus(self, other: Self) -> (r: Self)
        ensures
            r@ == self@ + other@,
    {
        proof {
            reveal(S7::spec_add);
        }
        let a = self.0;
        let b = other.0;
        SepticExtension([
            a[0].plus(b[0]),
            a[1].plus(b[1]),
            a[2].plus(b[2]),
            a[3].plus(b[3]),
            a[4].plus(b[4]),
            a[5].plus(b[5]),
            a[6].plus(b[6]),
        ])
    }

    /// Subtraction.
    pub fn minus(self, other: Self) -> (r: Self)
        ensures
            r@ == self@ - other@,
    {
        proof {
            reveal(S7::spec_sub);
        }
        let a = self.0;
        let b = other.0;
        SepticExtension([
            a[0].minus(b[0]),
            a[1].minus(b[1]),
            a[2].minus(b[2]),
            a[3].minus(b[3]),
            a[4].minus(b[4]),
            a[5].minus(b[5]),
            a[6].minus(b[6]),
        ])
    }

    /// The additive inverse.
    pub fn neg(self) -> (r: Self)
        ensures
            r@ == s_zero() - self@,
    {
        Self::zero().minus(self)
    }

    /// Multiplication.
    pub fn times(self, other: Self) -> (r: Self)
        ensures
            r@ == self@ * other@,
    {
        proof {
            reveal(S7::spec_mul);
            lemma_mul_formula(self@, other@);
        }
        let a = self.0;
        let b = other.0;
        let t0: u128 = mul_wide(a[0], b[0]);
        let t1: u128 = mul_wide(a[0], b[1]) + mul_wide(a[1], b[0]);
        let t2: u128 = mul_wide(a[0], b[2]) + mul_wide(a[1], b[1]) + mul_wide(a[2], b[0]);
        let t3: u128 = mul_wide(a[0], b[3]) + mul_wide(a[1], b[2]) + mul_wide(a[2], b[1]) + mul_wide(a[3], b[0]);
        let t4: u128 = mul_wide(a[0], b[4]) + mul_wide(a[1], b[3]) + mul_wide(a[2], b[2]) + mul_wide(a[3], b[1]) + mul_wide(a[4], b[0]);
        let t5: u128 = mul_wide(a[0], b[5]) + mul_wide(a[1], b[4]) + mul_wide(a[2], b[3]) + mul_wide(a[3], b[2]) + mul_wide(a[4], b[1]) + mul_wide(a[5], b[0]);
        let t6: u128 = mul_wide(a[0], b[6]) + mul_wide(a[1], b[5]) + mul_wide(a[2], b[4]) + mul_wide(a[3], b[3]) + mul_wide(a[4], b[2]) + mul_wide(a[5], b[1]) + mul_wide(a[6], b[0]);
        let t7: u128 = mul_wide(a[1], b[6]) + mul_wide(a[2], b[5]) + mul_wide(a[3], b[4]) + mul_wide(a[4], b[3]) + mul_wide(a[5], b[2]) + mul_wide(a[6], b[1]);
        let t8: u128 = mul_wide(a[2], b[6]) + mul_wide(a[3], b[5]) + mul_wide(a[4], b[4]) + mul_wide(a[5], b[3]) + mul_wide(a[6], b[2]);
        let t9: u128 = mul_wide(a[3], b[6]) + mul_wide(a[4], b[5]) + mul_wide(a[5], b[4]) + mul_wide(a[6], b[3]);
        let t10: u128 = mul_wide(a[4], b[6]) + mul_wide(a[5], b[5]) + mul_wide(a[6], b[4]);
        let t11: u128 = mul_wide(a[5], b[6]) + mul_wide(a[6], b[5]);
        let t12: u128 = mul_wide(a[6], b[6]);
        SepticExtension([
            settle(t0 + 8 * t7, 0),
            settle(t1 + 8 * t8, 2 * t7),
            settle(t2 + 8 * t9, 2 * t8),
            settle(t3 + 8 * t10, 2 * t9),
            settle(t4 + 8 * t11, 2 * t10),
            settle(t5 + 8 * t12, 2 * t11),
            settle(t6, 2 * t12),
        ])
    }

    /// The square.
    pub fn square(self) -> (r: Self)
        ensures
            r@ == self@ * self@,
    {
        self.times(self)
    }

    /// The cube.
    pub fn cube(self) -> (r: Self)
        ensures
            r@ == (self@ * self@) * self@,
    {
        self.times(self).times(self)
    }

    /// The product with a base-field element.
    pub fn scaled(self, k: Felt) -> (r: Self)
        ensures
            r@ == s_embed(k@) * self@,
    {
        proof {
            embed_mul(k@, self@);
        }
        let a = self.0;
        SepticExtension([
            k.times(a[0]),
            k.times(a[1]),
            k.times(a[2]),
            k.times(a[3]),
            k.times(a[4]),
            k.times(a[5]),
            k.times(a[6]),
        ])
    }

    /// The `n`-th power.
    pub fn power(self, n: u64) -> (r: Self)
        ensures
            r@ == s_pow(self@, n as nat),
    {
        let mut acc = Self::one();
        let mut base = self;
        let mut k: u64 = n;
        proof {
            septic_canon(self);
            pow_canon(self@, n as nat);
            mul_one(s_pow(self@, n as nat));
        }
        while k > 0
            invariant
                acc@ * s_pow(base@, k as nat) == s_pow(self@, n as nat),
                acc@.canon(),
            decreases k,
        {
            let ghost b = base@;
            let ghost a = acc@;
            let half: u64 = k / 2;
            proof {
                pow_square(b, half as nat);
            }
            if k % 2 == 1 {
                acc = acc.times(base);
                proof {
                    mul_canon(a, b);
                    mul_assoc(a, b, s_pow(b * b, half as nat));
                    mul_comm(b, s_pow(b * b, half as nat));
                    assert(s_pow(b, k as nat) == s_pow(b, (2 * half) as nat) * b);
                }
            }
            base = base.times(base);
            k = half;
        }
        proof {
            mul_one(acc@);
        }
        acc
    }

    /// Whether two elements are equal.
    pub fn same(&self, other: &Self) -> (r: bool)
        ensures
            r == (self@ == other@),
    {
        let a = self.0;
        let b = other.0;
        a[0].same(&b[0]) && a[1].same(&b[1]) && a[2].same(&b[2]) && a[3].same(&b[3]) && a[4].same(
            &b[4],
        ) && a[5].same(&b[5]) && a[6].same(&b[6])
    }

    /// Whether the highest coefficient is zero.
    pub fn is_exception(&self) -> (r: bool)
        ensures
            r == (self@.c6 == 0),
    {
        self.0[6].value() == 0
    }

    /// Whether the highest coefficient is in the lower half of the nonzero residues.
    pub fn is_receive(&self) -> (r: bool)
        ensures
            r == (1 <= self@.c6 <= 1065353216),
    {
        let v: u32 = self.0[6].value();
        1 <= v && v <= 1065353216
    }

    /// Whether the highest coefficient is in the upper half of the nonzero residues.
    pub fn is_send(&self) -> (r: bool)
        ensures
            r == (1065353217 <= self@.c6),
    {
        let v: u32 = self.0[6].value();
        1065353217 <= v
    }
}

/// The image of `z` under the map: `z^p`.
pub open spec fn frob_gen() -> S7 {
    s_pow(s_gen(), 2130706433)
}

/// The map that sends `z` to `z^p` and keeps the base field, on the first `k`
/// coefficients of an element.
pub open spec fn frob_part(x: S7, k: nat) -> S7
    decreases k,
{
    if k == 0 {
        s_zero()
    } else {
        frob_part(x, (k - 1) as nat) + s_embed(coeff(x, k - 1)) * s_pow(
            frob_gen(),
            (k - 1) as nat,
        )
    }
}

/// Coefficient `i` of an element.
pub open spec fn coeff(x: S7, i: int) -> int {
    if i == 0 {
        x.c0
    } else if i == 1 {
        x.c1
    } else if i == 2 {
        x.c2
    } else if i == 3 {
        x.c3
    } else if i == 4 {
        x.c4
    } else if i == 5 {
        x.c5
    } else {
        x.c6
    }
}

/// The map that sends `z` to `z^p` and keeps the base field.
pub open spec fn frob(x: S7) -> S7 {
    frob_part(x, 7)
}

/// The powers of `z^p`.
pub struct Frobenius {
    powers: [SepticExtension<Felt>; 7],
}

impl View for Frobenius {
    type V = Seq<S7>;

    closed spec fn view(&self) -> Seq<S7> {
        Seq::new(7, |i: int| self.powers@[i]@)
    }
}

impl Frobenius {
    #[verifier::type_invariant]
    spec fn inv(self) -> bool {
        forall|i: int| 0 <= i < 7 ==> (#[trigger] self.powers@[i])@ == s_pow(frob_gen(), i as nat)
    }

    /// The powers of `z^p`, from the zeroth to the sixth.
    pub fn new() -> (r: Frobenius)
        ensures
            r@ == Seq::new(7, |i: int| s_pow(frob_gen(), i as nat)),
    {
        let w = SepticExtension::<Felt>::generator().power(2130706433);
        let one = SepticExtension::<Felt>::one();
        let w1 = one.times(w);
        let w2 = w1.times(w);
        let w3 = w2.times(w);
        let w4 = w3.times(w);
        let w5 = w4.times(w);
        let w6 = w5.times(w);
        proof {
            reveal_with_fuel(s_pow, 8);
        }
        let r = Frobenius { powers: [one, w1, w2, w3, w4, w5, w6] };
        proof {
            assert(r@ =~= Seq::new(7, |i: int| s_pow(frob_gen(), i as nat)));
        }
        r
    }

    /// The map that sends `z` to `z^p` and keeps the base field.
    pub fn apply(&self, x: SepticExtension<Felt>) -> (r: SepticExtension<Felt>)
        ensures
            r@ == frob(x@),
    {
        proof {
            use_type_invariant(self);
        }
        let mut acc = SepticExtension::<Felt>::zero();
        let mut i: usize = 0;
        while i < 7
            invariant
                i <= 7,
                acc@ == frob_part(x@, i as nat),
                forall|i: int|
                    0 <= i < 7 ==> (#[trigger] self.powers@[i])@ == s_pow(frob_gen(), i as nat),
            decreases 7 - i,
        {
            proof {
                assert(x.0@[i as int]@ == coeff(x@, i as int));
            }
            acc = acc.plus(self.powers[i].scaled(x.0[i]));
            i = i + 1;
        }
        acc
    }
}

/// The product of the images of an element under the first, third and fifth power of the
/// map.
pub open spec fn odd_images(x: S7) -> S7 {
    frob(x * frob(frob(x * frob(frob(x)))))
}

/// The product of the images of an element under every power of the map but the zeroth.
pub open spec fn conjugates(x: S7) -> S7 {
    odd_images(x) * frob(odd_images(x))
}

/// The norm of an element, where it lies in the base field.
pub open spec fn norm(x: S7) -> int {
    (x * conjugates(x)).c0
}

/// Whether the norm of an element lies in the base field and is not zero.
pub open spec fn has_norm(x: S7) -> bool {
    x * conjugates(x) == s_embed(norm(x)) && norm(x) != 0
}

/// The inverse of an element that has one.
pub open spec fn s_inv(x: S7) -> S7 {
    choose|y: S7| y.canon() && x * y == s_one()
}

/// An inverse is unique.
pub proof fn inverse_unique(x: S7, y: S7)
    requires
        y.canon(),
        x * y == s_one(),
    ensures
        s_inv(x) == y,
{
    let w = s_inv(x);
    assert(w.canon() && x * w == s_one());
    mul_one(w);
    mul_one(y);
    mul_comm(x, w);
    mul_assoc(w, x, y);
}

/// A square root of an element up to its norm: its square is the norm times the element.
pub open spec fn half_power(x: S7) -> S7 {
    s_pow(odd_images(x), 1065353217) * x
}

/// Whether a residue is a square.
pub open spec fn is_square(n: int) -> bool {
    exists|r: int| canonical(r) && #[trigger] fmul(r, r) == n
}

/// Whether an element is a square.
pub open spec fn has_root(x: S7) -> bool {
    exists|y: S7| y.canon() && #[trigger] (y * y) == x
}

/// Whether the root of an element is found by its norm.
pub open spec fn root_found(x: S7) -> bool {
    x == s_zero() || {
        &&& norm(x) != 0
        &&& half_power(x) * half_power(x) == s_embed(norm(x)) * x
        &&& is_square(norm(x))
    }
}

/// `KoalaBear::try_sqrt`: a square root where there is one. The claim is that the result
/// squares to the argument, and that there is none only where no residue does.
#[verifier::external_body]
fn koala_bear_sqrt(x: u32) -> (r: Option<u32>)
    requires
        x < 2130706433,
    ensures
        match r {
            Some(y) => y < 2130706433 && fmul(y as int, y as int) == x,
            None => !is_square(x as int),
        },
{
    KoalaBear::from_u32(x).try_sqrt().map(|y| y.as_canonical_u32())
}

impl SepticExtension<Felt> {
    fn odd_product(self, f: &Frobenius) -> (r: Self)
        ensures
            r@ == odd_images(self@),
    {
        let a = self.times(f.apply(f.apply(self)));
        f.apply(self.times(f.apply(f.apply(a))))
    }

    /// The inverse, by the norm. Only zero has none.
    pub fn try_inverse(self, f: &Frobenius) -> (r: Option<Self>)
        ensures
            r is Some <==> self@ != s_zero(),
            r matches Some(i) ==> self@ * i@ == s_one() && i@ == s_inv(self@),
    {
        proof {
            septic_canon(self);
            if self@ != s_zero() {
                nonzero_has_norm(self@);
            } else if has_norm(self@) {
                norm_means_nonzero(self@);
            }
        }
        let odd = self.odd_product(f);
        let conj = odd.times(f.apply(odd));
        let prod = self.times(conj);
        let n = prod.0[0];
        proof {
            septic_canon(conj);
        }
        if !prod.same(&Self::from_base(n)) {
            return None;
        }
        match n.try_inverse() {
            None => None,
            Some(i) => {
                let r = conj.scaled(i);
                proof {
                    mul_comm(s_embed(i@), conj@);
                    mul_assoc(self@, conj@, s_embed(i@));
                    embed_product(n@, i@);
                    septic_canon(r);
                    inverse_unique(self@, r@);
                }
                Some(r)
            },
        }
    }

    /// A square root, by the norm. `None` where there is none.
    pub fn sqrt(self, f: &Frobenius) -> (r: Option<Self>)
        ensures
            match r {
                Some(y) => y@ * y@ == self@,
                None => !has_root(self@),
            },
    {
        let r = self.find_root(f);
        proof {
            if r is None && has_root(self@) {
                let y = choose|y: S7| y.canon() && #[trigger] (y * y) == self@;
                squares_have_roots(self@, y);
            }
        }
        r
    }

    fn find_root(self, f: &Frobenius) -> (r: Option<Self>)
        ensures
            r is Some <==> root_found(self@),
            r matches Some(y) ==> y@ * y@ == self@,
    {
        if self.same(&Self::zero()) {
            proof {
                mul_zero(s_zero());
            }
            return Some(Self::zero());
        }
        let odd = self.odd_product(f);
        let h = odd.power(1065353217).times(self);
        let n = self.times(odd.times(f.apply(odd))).0[0];
        let x: u32 = n.value();
        proof {
            assert(n@ == norm(self@));
            assert(h@ == half_power(self@));
            assert(x as int == n@);
        }
        if x == 0 || !h.square().same(&self.scaled(n)) {
            return None;
        }
        match koala_bear_sqrt(x) {
            None => None,
            Some(root) => {
                let root = Felt::new(root);
                proof {
                    lemma_small_mod(root@ as nat, order() as nat);
                    assert(canonical(root@) && fmul(root@, root@) == n@);
                    assert(is_square(n@));
                    if root@ == 0 {
                        lemma_small_mod(0, order() as nat);
                        assert(0int * 0 == 0);
                        assert(fmul(0, 0) == (0int * 0) % order());
                    }
                    assert(root@ != 0);
                }
                proof {
                    assert(root_found(self@));
                }
                match root.try_inverse() {
                    None => None,
                    Some(i) => {
                        let y = h.scaled(i);
                        proof {
                            septic_canon(self);
                            root_squares(h@, self@, n@, root@, i@);
                        }
                        Some(y)
                    },
                }
            },
        }
    }
}

proof fn root_squares(h: S7, x: S7, n: int, root: int, i: int)
    requires
        x.canon(),
        canonical(n),
        h * h == s_embed(n) * x,
        fmul(root, root) == n,
        fmul(root, i) == 1,
    ensures
        (s_embed(i) * h) * (s_embed(i) * h) == x,
{
    let e = s_embed(i);
    mul_comm(e, h);
    mul_assoc(e, h, e * h);
    mul_comm(h, e * h);
    mul_assoc(e, h, h);
    mul_assoc(e, e, h * h);
    mul_assoc(e * e, s_embed(n), x);
    embed_product(i, i);
    embed_product(fmul(i, i), n);
    inverse_squares(root, i, n);
    mul_one(x);
}

proof fn inverse_squares(root: int, i: int, n: int)
    requires
        fmul(root, root) == n,
        fmul(root, i) == 1,
    ensures
        fmul(fmul(i, i), n) == 1,
{
    let p = order();
    vstd::arithmetic::div_mod::lemma_mul_mod_noop(i * i, root * root, p);
    vstd::arithmetic::div_mod::lemma_mul_mod_noop(root * i, root * i, p);
    assert((i * i) * (root * root) == (root * i) * (root * i)) by (nonlinear_arith);
    lemma_small_mod(1, p as nat);
}

} // verus!
