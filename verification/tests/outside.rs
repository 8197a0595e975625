//! The library beside the outside crates that it calls.
use p3_challenger::{CanObserve, CanSample, CanSampleBits, DuplexChallenger, FieldChallenger,
    GrindingChallenger};
use p3_commit::Mmcs;
use p3_field::extension::BinomialExtensionField;
use p3_field::{BasedVectorSpace, Field, PrimeCharacteristicRing, PrimeField32, TwoAdicField};
use p3_koala_bear::{default_koalabear_poseidon2_16, KoalaBear, Poseidon2KoalaBear};
use p3_matrix::dense::RowMajorMatrix;
use p3_merkle_tree::MerkleTreeMmcs;
use p3_symmetric::{CryptographicHasher, PaddingFreeSponge, PseudoCompressionFunction,
    TruncatedPermutation};
use zkm_pcs::dft::two_adic_generator;
use zkm_pcs::ext::Ext;
use zkm_pcs::felt::Felt;
use zkm_pcs::jagged::hash_bind::{jagged_geometry_hash, jagged_hash_bind_modified};
use zkm_pcs::transcript::Transcript;
use zkm_pcs::whir::encode::{encode_interleaved_base, encode_interleaved_ef};
use zkm_pcs::whir::schedule::whir_config_for_stack;
use zkm_pcs::whir::stacked::StackedWhirProver;

type Quartic = BinomialExtensionField<KoalaBear, 4>;
type Challenger = DuplexChallenger<KoalaBear, Poseidon2KoalaBear<16>, 16, 8>;
type Hash = PaddingFreeSponge<Poseidon2KoalaBear<16>, 16, 8, 8>;
type Compress = TruncatedPermutation<Poseidon2KoalaBear<16>, 2, 8, 16>;
type Tree = MerkleTreeMmcs<
    <KoalaBear as Field>::Packing,
    <KoalaBear as Field>::Packing,
    Hash,
    Compress,
    2,
    8,
>;

fn kb(f: Felt) -> KoalaBear {
    KoalaBear::from_u32(f.value())
}

fn felt(k: KoalaBear) -> Felt {
    Felt::new(k.as_canonical_u32())
}

fn quartic(e: Ext) -> Quartic {
    let c: [KoalaBear; 4] = [kb(e.c0), kb(e.c1), kb(e.c2), kb(e.c3)];
    Quartic::from_basis_coefficients_fn(|i| c[i])
}

fn ext(q: Quartic) -> Ext {
    let c: &[KoalaBear] = q.as_basis_coefficients_slice();
    Ext { c0: felt(c[0]), c1: felt(c[1]), c2: felt(c[2]), c3: felt(c[3]) }
}

fn some_ext(seed: u32) -> Ext {
    Ext {
        c0: Felt::new(seed.wrapping_mul(2654435761) >> 1),
        c1: Felt::new(seed + 17),
        c2: Felt::new(seed.wrapping_mul(40503) >> 1),
        c3: Felt::new(2130706432 - seed),
    }
}

#[test]
fn transcripts_are_duplex_challengers() {
    let mut theirs = Challenger::new(default_koalabear_poseidon2_16());
    let mut mine = Transcript::new();
    for i in 0..21u32 {
        theirs.observe(KoalaBear::from_u32(i * i));
        mine.observe(Felt::new(i * i));
        if i % 5 == 3 {
            let s: KoalaBear = theirs.sample();
            assert_eq!(mine.sample(), felt(s));
        }
    }
    let e = some_ext(5);
    theirs.observe_algebra_element(quartic(e));
    mine.observe_algebra_element(e);
    for _ in 0..3 {
        let s: Quartic = theirs.sample_algebra_element();
        assert_eq!(mine.sample_algebra_element(), ext(s));
    }
    for bits in [1usize, 7, 20] {
        assert_eq!(mine.sample_bits(bits), theirs.sample_bits(bits));
    }
}

#[test]
fn proofs_of_work_pass_on_both_sides() {
    let mut theirs = Challenger::new(default_koalabear_poseidon2_16());
    let mut mine = Transcript::new();
    theirs.observe(KoalaBear::from_u32(4));
    mine.observe(Felt::new(4));
    let w = mine.grind(6).unwrap();
    assert!(theirs.check_witness(6, kb(w)));
    let s: KoalaBear = theirs.sample();
    assert_eq!(mine.sample(), felt(s));
    // The smallest witness is found.
    for smaller in 0..w.value() {
        let mut t = Transcript::new();
        t.observe(Felt::new(4));
        assert!(!t.check_witness(6, Felt::new(smaller)));
    }
}

#[test]
fn extension_arithmetic_is_that_of_the_quartic_extension() {
    for i in 1..20u32 {
        let a = some_ext(i);
        let b = some_ext(i * 31 + 7);
        assert_eq!(a.times(b), ext(quartic(a) * quartic(b)));
        assert_eq!(a.plus(b), ext(quartic(a) + quartic(b)));
        assert_eq!(a.minus(b), ext(quartic(a) - quartic(b)));
        assert_eq!(a.inverse(), ext(quartic(a).inverse()));
        assert_eq!(a.times(a.inverse()), Ext::one());
    }
}

#[test]
fn base_inverses_are_those_of_the_field() {
    for x in [1u32, 2, 3, 1000003, 2130706432] {
        let f = Felt::new(x);
        assert_eq!(f.try_inverse().unwrap(), felt(kb(f).inverse()));
    }
    assert!(Felt::zero().try_inverse().is_none());
}

#[test]
fn generators_have_their_order() {
    for bits in [0usize, 1, 5, 24, 26] {
        let g = two_adic_generator(bits);
        assert_eq!(g, ext(Quartic::two_adic_generator(bits)));
        assert_eq!(g.exp_u64(1 << bits), Ext::one());
    }
}

#[test]
fn layouts_are_hashed_and_compressed() {
    let perm = default_koalabear_poseidon2_16();
    let felts: Vec<KoalaBear> =
        [2u32, 5, 6, 3, 4].iter().map(|x| KoalaBear::from_u32(*x)).collect();
    let hash = Hash::new(perm.clone()).hash_iter(felts);
    assert_eq!(jagged_geometry_hash(&[5, 6], &[3, 4]).map(kb), hash);
    let root = [Felt::new(8); 8];
    let bound = Compress::new(perm).compress([root.map(kb), hash]);
    assert_eq!(jagged_hash_bind_modified(root, &[5, 6], &[3, 4]).map(kb), bound);
}

#[test]
fn stripes_are_committed_in_one_tree() {
    let prover = StackedWhirProver::new(whir_config_for_stack(4, 2, 0), 4);
    let stripes: Vec<Vec<Felt>> = (0..2u32)
        .map(|k| (0..16u32).map(|i| Felt::new(100 * k + i * i)).collect())
        .collect();
    let matrices: Vec<RowMajorMatrix<KoalaBear>> = stripes
        .iter()
        .map(|s| {
            let m = encode_interleaved_base(s, 2, 1, 4);
            RowMajorMatrix::new(m.values.iter().map(|f| kb(*f)).collect(), m.width)
        })
        .collect();
    let data = prover.commit_stripes(stripes);
    let perm = default_koalabear_poseidon2_16();
    let tree = Tree::new(Hash::new(perm.clone()), Compress::new(perm), 0);
    let (cap, _) = tree.commit(matrices);
    assert_eq!(data.commitment.map(kb), cap[0]);
}

#[test]
fn extension_codewords_are_evaluations() {
    // Three variables in one fold: eight columns, two rows.
    let values: Vec<Ext> = (0..8u32).map(|i| some_ext(i + 1)).collect();
    let m = encode_interleaved_ef(&values, 3, 1, 3);
    assert_eq!(m.width, 32);
    assert_eq!(m.values.len(), 64);
    // A fold of all variables leaves constants: both rows are the values.
    for row in 0..2 {
        for (i, v) in values.iter().enumerate() {
            let at = row * 32 + 4 * i;
            assert_eq!(m.values[at..at + 4].to_vec(), vec![v.c0, v.c1, v.c2, v.c3]);
        }
    }
    // No fold: the polynomial with these coefficients at the points of the domain.
    let m = encode_interleaved_ef(&values, 0, 1, 3);
    let g = two_adic_generator(4);
    let x = g.exp_u64(3);
    let mut want = Ext::zero();
    for v in values.iter().rev() {
        want = want.times(x).plus(*v);
    }
    assert_eq!(
        m.values[12..16].to_vec(),
        vec![want.c0, want.c1, want.c2, want.c3]
    );
}
