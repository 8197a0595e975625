//! The septic extension and its curve.
use zkm_pcs::felt::Felt;
use zkm_pcs::septic::curve::{SepticCurve, SepticCurveComplete};
use zkm_pcs::septic::element::{Frobenius, SepticExtension};

fn septic(c: [u32; 7]) -> SepticExtension<Felt> {
    SepticExtension::from_base_slice(&c.map(Felt::new))
}

fn year_point() -> SepticCurve<Felt> {
    let x = septic([0x2013, 0x2015, 0x2016, 0x2023, 0x2024, 0x2016, 0x2017]);
    SepticCurve::<Felt>::lift_x(x).0
}

#[test]
fn test_lift_x1() {
    let x = septic([1511106837, 0, 0, 0, 0, 0, 0]);
    let (curve_point, _) = SepticCurve::<Felt>::lift_x(x);
    assert!(curve_point.check_on_point());
    println!("{curve_point:?}");
}

#[test]
fn test_lift_x() {
    let x = septic([0x2013, 0x2015, 0x2016, 0x2023, 0x2024, 0x2016, 0x2017]);
    let (curve_point, _) = SepticCurve::<Felt>::lift_x(x);
    assert!(curve_point.check_on_point());
}

#[test]
fn test_double() {
    let double_point = year_point().double();
    assert!(double_point.check_on_point());
}

#[test]
fn lift_x_cost() {
    let n = 20_000u32;
    let mut acc = 0u64;
    for i in 0..n {
        let mut c = [0u32; 7];
        for (j, slot) in c.iter_mut().enumerate() {
            *slot = i.wrapping_mul(2654435761).wrapping_add(j as u32 * 40503) & 0xFFFF;
        }
        let (p, off) = SepticCurve::<Felt>::lift_x(septic(c));
        acc += off as u64 + p.x.0[0].value() as u64;
    }
    println!("LIFT_X_BENCH n={n} acc={acc}");
}

#[test]
fn lifted_points_are_received() {
    let p = year_point();
    assert!(p.y.is_receive());
    assert!(!p.y.is_send());
    assert!(!p.y.is_exception());
    assert!(p.neg().y.is_send());
}

#[test]
fn lifting_offsets_the_highest_coefficient() {
    let m = septic([5, 4, 3, 2, 1, 6, 7]);
    let (p, off) = SepticCurve::<Felt>::lift_x(m);
    assert_eq!(p.x.0[6], Felt::new(7 * 256 + off as u32));
    assert_eq!(p.x.0[0], Felt::new(5));
}

#[test]
fn dummy_point_is_on_the_curve() {
    let p = SepticCurve::<Felt>::dummy();
    assert!(p.check_on_point());
    assert_eq!(p.x.0[0], Felt::new(1706420302));
    assert_eq!(p.y.0[6], Felt::new(74267719));
}

#[test]
fn z_to_the_seventh_is_eight_minus_two_z() {
    let z = SepticExtension::<Felt>::generator();
    let two_z = z.scaled(Felt::new(2));
    let expected = SepticExtension::<Felt>::from_base(Felt::new(8)).minus(two_z);
    assert!(z.power(7).same(&expected));
}

#[test]
fn inverses_multiply_to_one() {
    let f = Frobenius::new();
    let x = septic([1, 2, 3, 4, 5, 6, 7]);
    let i = x.try_inverse(&f).unwrap();
    assert!(x.times(i).same(&SepticExtension::<Felt>::one()));
    assert!(SepticExtension::<Felt>::zero().try_inverse(&f).is_none());
}

#[test]
fn roots_square_to_their_argument() {
    let f = Frobenius::new();
    let x = septic([1, 2, 3, 4, 5, 6, 7]);
    let root = x.square().sqrt(&f).unwrap();
    assert!(root.square().same(&x.square()));
    // Three generates the base field's units, so it is no square, and neither is three
    // times a square.
    assert!(x.square().scaled(Felt::new(3)).sqrt(&f).is_none());
}

#[test]
fn sums_stay_on_the_curve_and_check() {
    let p = year_point();
    let q = SepticCurve::<Felt>::dummy();
    let s = p.add_incomplete(q);
    assert!(s.check_on_point());
    let zero = SepticExtension::<Felt>::zero();
    assert!(SepticCurve::<Felt>::sum_checker_x(p, q, s).same(&zero));
    assert!(SepticCurve::<Felt>::sum_checker_y(p, q, s).same(&zero));
    assert!(!SepticCurve::<Felt>::sum_checker_x(p, q, p).same(&zero));
    let back = s.sub_incomplete(q);
    assert!(back.x.same(&p.x) && back.y.same(&p.y));
    let mut t = p;
    t.add_assign(q);
    assert!(t.x.same(&s.x) && t.y.same(&s.y));
    t.sub_assign(q);
    assert!(t.x.same(&p.x) && t.y.same(&p.y));
}

#[test]
fn complete_sums_handle_infinity() {
    let p = year_point();
    let inf = SepticCurveComplete::<Felt>::Infinity;
    let a = SepticCurveComplete::Affine(p);
    assert!(inf.is_infinity());
    assert!(a.plus(inf).point().x.same(&p.x));
    assert!(inf.plus(a).point().y.same(&p.y));
    assert!(a.plus(SepticCurveComplete::Affine(p.neg())).is_infinity());
    assert!(a.plus(a).point().x.same(&p.double().x));
}

#[test]
fn convert_maps_every_coefficient() {
    let p = SepticCurve::<Felt>::dummy();
    let q = SepticCurve::<u32>::convert(p, |f: Felt| f.value());
    assert_eq!(q.x.0[2], 148224806);
    assert_eq!(q.y.0[0], 942390502);
}

#[test]
fn sums_without_a_slope_are_none() {
    let p = year_point();
    assert!(p.try_add(p).is_none());
    let q = p.try_double().unwrap();
    assert!(q.check_on_point());
    assert_eq!(q.x.0, p.double().x.0);
    let r = p.try_add(q).unwrap();
    assert!(r.check_on_point());
    // The sum does not depend on the order.
    let s = q.try_add(p).unwrap();
    assert_eq!(r.x.0, s.x.0);
    assert_eq!(r.y.0, s.y.0);
    let flat = SepticCurve { x: p.x, y: septic([0; 7]) };
    assert!(flat.try_double().is_none());
}

#[test]
fn the_map_raises_to_the_order_and_comes_back() {
    let f = Frobenius::new();
    let x = septic([9, 8, 7, 6, 5, 4, 3]);
    assert!(f.apply(x).same(&x.power(2130706433)));
    let mut y = x;
    for _ in 0..7 {
        y = f.apply(y);
    }
    assert!(y.same(&x));
    let w = f.apply(SepticExtension::<Felt>::generator());
    assert_eq!(w.0[0], Felt::new(587483156));
    assert_eq!(w.0[6], Felt::new(1763169463));
}

#[test]
fn every_square_has_two_roots() {
    let f = Frobenius::new();
    for i in 0..20u32 {
        let x = septic([i, 3 * i, 1, i * i, 0, 7, i]);
        let root = x.square().sqrt(&f).unwrap();
        assert!(root.same(&x) || root.same(&x.neg()));
    }
}
