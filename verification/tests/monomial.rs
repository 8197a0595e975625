//! Monomial evaluations and codewords.
use rand::rngs::StdRng;
use rand::{Rng, SeedableRng};
use zkm_pcs::dft::two_adic_generator;
use zkm_pcs::ext::Ext;
use zkm_pcs::felt::Felt;
use zkm_pcs::whir::encode::encode_interleaved_base;
use zkm_pcs::whir::monomial::{full_monomial_basis_eq, map_to_pow, mono_eval, monomial_partial_eq};

fn clamp(r: &mut StdRng) -> Felt {
    Felt::new(r.gen::<u32>() & 0x3FFF_FFFF)
}

fn rand_ef(r: &mut StdRng) -> Ext {
    Ext { c0: clamp(r), c1: clamp(r), c2: clamp(r), c3: clamp(r) }
}

#[test]
fn keystone_mono_eval_is_univariate() {
    let m = 5usize;
    let mut rng = StdRng::seed_from_u64(0x1);
    let coeffs: Vec<Felt> = (0..(1usize << m)).map(|_| clamp(&mut rng)).collect();
    for _ in 0..8 {
        let x = rand_ef(&mut rng);
        let mut uni = Ext::zero();
        let mut xp = Ext::one();
        for &c in &coeffs {
            uni = uni.plus(xp.times(Ext::from_base(c)));
            xp = xp.times(x);
        }
        assert_eq!(mono_eval(&coeffs, &map_to_pow(x, m)), uni);
    }
}

#[test]
fn keystone_codeword_is_mono_eval() {
    let m = 4usize;
    let log_blowup = 2usize;
    let mut rng = StdRng::seed_from_u64(0x2);
    let coeffs: Vec<Felt> = (0..(1usize << m)).map(|_| clamp(&mut rng)).collect();
    let log_h = m + log_blowup;
    let evals = encode_interleaved_base(&coeffs, 0, log_blowup, m);
    let g = two_adic_generator(log_h);
    for j in [0usize, 1, 5, 11, 30] {
        let cj = Ext::from_base(evals.values[j]);
        let x = g.exp_u64(j as u64);
        assert_eq!(cj, mono_eval(&coeffs, &map_to_pow(x, m)), "codeword[{j}] != mono_eval");
    }
}

#[test]
fn full_monomial_eq_matches_partial() {
    let m = 4usize;
    let mut rng = StdRng::seed_from_u64(0x3);
    let a: Vec<Ext> = (0..m).map(|_| rand_ef(&mut rng)).collect();
    let b: Vec<Ext> = (0..m).map(|_| rand_ef(&mut rng)).collect();
    let wa = monomial_partial_eq(&a);
    let mut sum = Ext::zero();
    for (i, w) in wa.iter().enumerate() {
        let mut p = Ext::one();
        for (j, &bj) in b.iter().enumerate() {
            let bit = (i >> (m - 1 - j)) & 1;
            p = p.times(if bit == 1 { bj } else { Ext::one().minus(bj) });
        }
        sum = sum.plus(w.times(p));
    }
    assert_eq!(full_monomial_basis_eq(&a, &b), sum);
}
