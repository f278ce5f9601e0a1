use ray_tracer::scalar::Scalar;

fn sc(x: f64) -> Scalar {
    Scalar::from_bits(x.to_bits())
}

fn num(s: Scalar) -> f64 {
    f64::from_bits(s.to_bits())
}

fn samples() -> Vec<f64> {
    let mut all = vec![
        0.0,
        -0.0,
        1.0,
        -1.0,
        0.1,
        -0.1,
        0.5,
        2.5,
        -2.5,
        1e-9,
        -1e-9,
        1e300,
        -1e300,
        5e-324,
        -5e-324,
        f64::MIN_POSITIVE,
        -f64::MIN_POSITIVE,
        f64::MAX,
        f64::MIN,
        f64::EPSILON,
        f64::INFINITY,
        f64::NEG_INFINITY,
        f64::NAN,
        -f64::NAN,
        f64::from_bits(0x7ff0_0000_0000_0001),
        f64::from_bits(0xfff0_0000_0000_0001),
        f64::from_bits(0x7fff_ffff_ffff_ffff),
        f64::from_bits(0xffff_ffff_ffff_ffff),
        std::f64::consts::PI,
        -std::f64::consts::E,
    ];
    let mut bits: u64 = 3;
    while bits < 0x7ff0_0000_0000_0000 {
        all.push(f64::from_bits(bits));
        all.push(-f64::from_bits(bits));
        bits = bits + bits / 2 + 12345;
    }
    all
}

#[test]
fn encodings_go_in_and_out_unchanged() {
    for x in samples() {
        assert_eq!(sc(x).to_bits(), x.to_bits());
        assert_eq!(num(sc(x)).to_bits(), x.to_bits());
    }
    assert_eq!(Scalar::from_bits(0x3ff0_0000_0000_0000).to_bits(), 1.0_f64.to_bits());
}

#[test]
fn classes_agree_with_the_machine() {
    for x in samples() {
        assert_eq!(sc(x).is_nan(), x.is_nan(), "is_nan at {:e}", x);
        assert_eq!(sc(x).is_sign_negative(), x.is_sign_negative(), "sign at {:e}", x);
        assert_eq!(sc(x).is_zero(), x == 0.0, "zero at {:e}", x);
    }
}

#[test]
fn negation_agrees_with_the_machine() {
    for x in samples() {
        assert_eq!(sc(x).neg().to_bits(), (-x).to_bits(), "at {:e}", x);
        assert_eq!(sc(x).neg().neg().to_bits(), x.to_bits(), "at {:e}", x);
    }
    assert_eq!(num(sc(3.0).neg()), -3.0);
    assert_eq!(sc(0.0).neg().to_bits(), 0x8000_0000_0000_0000);
}

#[test]
fn comparisons_agree_with_the_machine() {
    let all = samples();
    for &a in &all {
        for &b in &all {
            assert_eq!(sc(a).lt(sc(b)), a < b, "{:e} < {:e}", a, b);
            assert_eq!(sc(a).le(sc(b)), a <= b, "{:e} <= {:e}", a, b);
            assert_eq!(sc(a).gt(sc(b)), a > b, "{:e} > {:e}", a, b);
            assert_eq!(sc(a).ge(sc(b)), a >= b, "{:e} >= {:e}", a, b);
            assert_eq!(sc(a).eq(sc(b)), a == b, "{:e} == {:e}", a, b);
        }
    }
}

#[test]
fn both_zeros_are_the_same_number() {
    assert!(sc(0.0).eq(sc(-0.0)));
    assert!(!sc(-0.0).lt(sc(0.0)));
    assert!(sc(-0.0).ge(sc(0.0)));
    assert!(sc(0.0).le(sc(-0.0)));
}

#[test]
fn what_is_not_a_number_compares_with_nothing() {
    let nan = sc(f64::NAN);
    for x in samples() {
        assert!(!nan.lt(sc(x)));
        assert!(!nan.le(sc(x)));
        assert!(!nan.gt(sc(x)));
        assert!(!nan.ge(sc(x)));
        assert!(!nan.eq(sc(x)));
        assert!(!sc(x).lt(nan));
        assert!(!sc(x).eq(nan));
    }
}

#[test]
fn numbers_are_ordered_and_negation_mirrors_the_order() {
    let all = samples();
    for &a in &all {
        for &b in &all {
            if a.is_nan() || b.is_nan() {
                continue;
            }
            let below = sc(a).lt(sc(b));
            let same = sc(a).eq(sc(b));
            let above = sc(b).lt(sc(a));
            assert_eq!(u8::from(below) + u8::from(same) + u8::from(above), 1);
            assert_eq!(sc(a).le(sc(b)), !above);
            assert_eq!(below, sc(b).neg().lt(sc(a).neg()));
        }
    }
    assert!(sc(1.0).lt(sc(2.0)) && sc(2.0).lt(sc(2.5)) && sc(1.0).lt(sc(2.5)));
}

#[test]
fn places_agree_with_the_machine() {
    for x in samples() {
        assert_eq!(sc(x).to_index(), x as usize, "at {:e}", x);
    }
    let mut x = -3.0_f64;
    while x < 70000.0 {
        assert_eq!(sc(x).to_index(), x as usize, "at {}", x);
        x += 0.37;
    }
    for k in 0..64 {
        let n = (1u64 << k) as f64;
        for y in [n, f64::from_bits(n.to_bits() - 1), f64::from_bits(n.to_bits() + 1), n + 0.5, n * 1.5] {
            assert_eq!(sc(y).to_index(), y as usize, "at {:e}", y);
        }
    }
}

#[test]
fn places_of_chosen_numbers() {
    assert_eq!(sc(0.0).to_index(), 0);
    assert_eq!(sc(-0.0).to_index(), 0);
    assert_eq!(sc(0.999999).to_index(), 0);
    assert_eq!(sc(1.0).to_index(), 1);
    assert_eq!(sc(549.75).to_index(), 549);
    assert_eq!(sc(-1.0).to_index(), 0);
    assert_eq!(sc(-1e30).to_index(), 0);
    assert_eq!(sc(f64::NAN).to_index(), 0);
    assert_eq!(sc(f64::NEG_INFINITY).to_index(), 0);
    assert_eq!(sc(f64::INFINITY).to_index(), usize::MAX);
    assert_eq!(sc(1e300).to_index(), usize::MAX);
    assert_eq!(sc(9007199254740993.0).to_index(), 9007199254740992);
    assert_eq!(sc(4503599627370497.0).to_index(), 4503599627370497);
    assert_eq!(sc(18446744073709551615.0).to_index(), usize::MAX);
    assert_eq!(sc(5e-324).to_index(), 0);
}
