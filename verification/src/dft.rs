//! Discrete Fourier transforms of the columns of a matrix, by
//! `p3_dft::Radix2DitParallel`.
use vstd::prelude::*;
use vstd::arithmetic::power2::pow2;
use p3_dft::{Radix2DitParallel, TwoAdicSubgroupDft};
use p3_field::extension::BinomialExtensionField;
use p3_field::{BasedVectorSpace, PrimeCharacteristicRing, PrimeField32, TwoAdicField};
use p3_koala_bear::KoalaBear;
use p3_matrix::dense::RowMajorMatrix;
use p3_matrix::Matrix;
use crate::ext::{e_pow, evals, fvals, lift, Ext, E4};
use crate::felt::Felt;
use crate::mle::univariate;

verus! {

/// The quartic extension.
type Quartic = BinomialExtensionField<KoalaBear, 4>;

/// Column `c` of a row-major matrix.
pub open spec fn column(values: Seq<E4>, width: nat, c: int) -> Seq<E4> {
    Seq::new(values.len() / width, |i: int| values[i * width + c])
}

/// The coefficients of the generator of order `2^bits` that
/// `TwoAdicField::two_adic_generator` gives for the quartic extension.
pub uninterp spec fn quartic_two_adic_generator(bits: nat) -> (int, int, int, int);

/// The generator of the domain of order `2^bits`.
pub open spec fn domain_generator(bits: nat) -> E4 {
    let g = quartic_two_adic_generator(bits);
    E4 { c0: g.0, c1: g.1, c2: g.2, c3: g.3 }
}

/// `TwoAdicField::two_adic_generator` on the quartic extension of `KoalaBear`, whose
/// two-adicity is 26. The claim is that the result depends on `bits` alone.
#[verifier::external_body]
fn two_adic_generator_call(bits: usize) -> (r: Ext)
    requires
        bits <= 26,
    ensures
        (r.c0@, r.c1@, r.c2@, r.c3@) == quartic_two_adic_generator(bits as nat),
{
    let g = Quartic::two_adic_generator(bits);
    let c: &[KoalaBear] = g.as_basis_coefficients_slice();
    let back = |k: KoalaBear| Felt::new(k.as_canonical_u32());
    Ext { c0: back(c[0]), c1: back(c[1]), c2: back(c[2]), c3: back(c[3]) }
}

/// The generator of the domain of order `2^bits`.
pub fn two_adic_generator(bits: usize) -> (r: Ext)
    requires
        bits <= 26,
    ensures
        r@ == domain_generator(bits as nat),
{
    two_adic_generator_call(bits)
}

/// Point `j` of the domain of order `2^log_height`.
pub open spec fn domain_point(log_height: nat, j: nat) -> E4 {
    e_pow(domain_generator(log_height), j)
}

/// Whether `out` holds, column by column, the values on the domain of the
/// polynomials whose coefficients are the columns of `coeffs`.
pub open spec fn is_dft(coeffs: Seq<E4>, width: nat, log_height: nat, out: Seq<E4>) -> bool {
    &&& out.len() == coeffs.len()
    &&& forall|j: int, c: int|
        0 <= j < pow2(log_height) && 0 <= c < width ==> #[trigger] out[j * width + c]
            == univariate(column(coeffs, width, c), domain_point(log_height, j as nat))
}

/// `TwoAdicSubgroupDft::dft_batch` of `Radix2DitParallel` over `KoalaBear`, in
/// natural order. The claim is that each column of the result is the polynomial
/// with that column's coefficients, evaluated at the powers of the subgroup's
/// generator, which for orders up to `2^24` is that of the extension as well.
#[verifier::external_body]
pub(crate) fn dft_base(coeffs: &Vec<Felt>, width: usize, log_height: usize) -> (r: Vec<Felt>)
    requires
        width > 0,
        log_height <= 24,
        coeffs@.len() == pow2(log_height as nat) * width,
    ensures
        is_dft(lift(fvals(coeffs@)), width as nat, log_height as nat, lift(fvals(r@))),
{
    let values: Vec<KoalaBear> = coeffs.iter().map(|f| KoalaBear::from_u32(f.value())).collect();
    let dft = Radix2DitParallel::<KoalaBear>::default();
    let out = dft.dft_batch(RowMajorMatrix::new(values, width)).to_row_major_matrix();
    out.values.iter().map(|k| Felt::new(k.as_canonical_u32())).collect()
}

/// `TwoAdicSubgroupDft::dft_batch` of `Radix2DitParallel` over the quartic
/// extension, in natural order. The claim is that each column of the result is the
/// polynomial with that column's coefficients, evaluated at the powers of the
/// subgroup's generator.
#[verifier::external_body]
pub(crate) fn dft_ext(coeffs: &Vec<Ext>, width: usize, log_height: usize) -> (r: Vec<Ext>)
    requires
        width > 0,
        log_height <= 26,
        coeffs@.len() == pow2(log_height as nat) * width,
    ensures
        is_dft(evals(coeffs@), width as nat, log_height as nat, evals(r@)),
{
    let ef = |e: &Ext| {
        Quartic::new([e.c0, e.c1, e.c2, e.c3].map(|f| KoalaBear::from_u32(f.value())))
    };
    let matrix = RowMajorMatrix::new(coeffs.iter().map(ef).collect(), width);
    let out = Radix2DitParallel::<Quartic>::default().dft_batch(matrix).to_row_major_matrix();
    let back = |e: &Quartic| {
        let c: &[KoalaBear] = e.as_basis_coefficients_slice();
        let [c0, c1, c2, c3] = core::array::from_fn(|i| Felt::new(c[i].as_canonical_u32()));
        Ext { c0, c1, c2, c3 }
    };
    out.values.iter().map(back).collect()
}

} // verus!
