use eight_ball::binary64::Float;

fn fl(x: f64) -> Float {
    Float::from_bits(x.to_bits())
}

fn same(got: Float, want: f64) -> bool {
    if want.is_nan() {
        got.is_nan()
    } else {
        got.to_bits() == want.to_bits()
    }
}

fn samples() -> Vec<f64> {
    let mut v = vec![
        0.0,
        -0.0,
        1.0,
        -1.0,
        0.5,
        2.0,
        3.0,
        0.1,
        0.2,
        0.3,
        1e-6,
        1.0 - 1e-6,
        0.8,
        0.9,
        1e300,
        -1e300,
        1e-300,
        5e-324,
        -5e-324,
        2.2250738585072014e-308,
        2.225073858507201e-308,
        1.7976931348623157e308,
        -1.7976931348623157e308,
        f64::INFINITY,
        f64::NEG_INFINITY,
        f64::NAN,
        1.0000000000000002,
        0.9999999999999999,
        4503599627370496.0,
        9007199254740992.0,
        9007199254740993.0,
        1e16,
        1e-16,
        3.141592653589793,
        2.718281828459045,
    ];
    let mut state: u64 = 0x9E37_79B9_7F4A_7C15;
    for _ in 0..40 {
        state = state.wrapping_mul(6364136223846793005).wrapping_add(1442695040888963407);
        v.push(f64::from_bits(state));
        state = state.wrapping_mul(6364136223846793005).wrapping_add(1442695040888963407);
        // a number of ordinary size
        v.push(((state >> 11) as f64) / 9007199254740992.0 * 8.0 - 4.0);
    }
    v
}

#[test]
fn add_agrees_with_the_hardware() {
    let v = samples();
    for &a in v.iter() {
        for &b in v.iter() {
            assert!(same(fl(a).add(fl(b)), a + b), "{:e} + {:e}", a, b);
        }
    }
}

#[test]
fn sub_agrees_with_the_hardware() {
    let v = samples();
    for &a in v.iter() {
        for &b in v.iter() {
            assert!(same(fl(a).sub(fl(b)), a - b), "{:e} - {:e}", a, b);
        }
    }
}

#[test]
fn mul_agrees_with_the_hardware() {
    let v = samples();
    for &a in v.iter() {
        for &b in v.iter() {
            assert!(same(fl(a).mul(fl(b)), a * b), "{:e} * {:e}", a, b);
        }
    }
}

#[test]
fn div_agrees_with_the_hardware() {
    let v = samples();
    for &a in v.iter() {
        for &b in v.iter() {
            assert!(same(fl(a).div(fl(b)), a / b), "{:e} / {:e}", a, b);
        }
    }
}

#[test]
fn sqrt_agrees_with_the_hardware() {
    let v = samples();
    for &a in v.iter() {
        assert!(same(fl(a).sqrt(), a.sqrt()), "sqrt {:e}", a);
        let p = a * a;
        assert!(same(fl(p).sqrt(), p.sqrt()), "sqrt {:e}", p);
    }
}

#[test]
fn comparisons_agree_with_the_hardware() {
    let v = samples();
    for &a in v.iter() {
        for &b in v.iter() {
            assert_eq!(fl(a).lt(fl(b)), a < b, "{:e} < {:e}", a, b);
            assert_eq!(fl(a).le(fl(b)), a <= b, "{:e} <= {:e}", a, b);
        }
        assert_eq!(fl(a).is_positive(), a > 0.0);
        assert_eq!(fl(a).neg().to_bits(), (-a).to_bits());
        assert_eq!(fl(a).abs().to_bits(), a.abs().to_bits());
    }
}

#[test]
fn ties_go_to_the_even_significand() {
    // 2^53 + 1 lies midway between 2^53 and 2^53 + 2
    let big = 9007199254740992.0f64;
    assert_eq!(fl(big).add(fl(1.0)).to_bits(), big.to_bits());
    assert_eq!(fl(big + 2.0).add(fl(1.0)).to_bits(), (big + 4.0).to_bits());
}

#[test]
fn overflow_gives_infinity_and_underflow_is_gradual() {
    let max = f64::MAX;
    assert_eq!(fl(max).add(fl(max)).to_bits(), f64::INFINITY.to_bits());
    assert_eq!(fl(max).mul(fl(2.0)).to_bits(), f64::INFINITY.to_bits());
    let tiny = 5e-324f64;
    assert_eq!(fl(tiny).div(fl(2.0)).to_bits(), 0);
    assert_eq!(fl(tiny).mul(fl(0.75)).to_bits(), tiny.to_bits());
    assert_eq!(fl(3.0 * tiny).div(fl(2.0)).to_bits(), (2.0 * tiny).to_bits());
}

#[test]
fn whole_numbers_convert_as_the_hardware_does() {
    let wholes: [u64; 12] = [
        0,
        1,
        2,
        3,
        10,
        4503599627370496,
        9007199254740992,
        9007199254740993,
        9007199254740995,
        18446744073709551615,
        18446744073709550591,
        1 << 63,
    ];
    for &n in wholes.iter() {
        assert_eq!(Float::from_u64(n).to_bits(), (n as f64).to_bits(), "{}", n);
        assert_eq!(Float::from_usize(n as usize).to_bits(), ((n as usize) as f64).to_bits());
    }
    for &x in samples().iter() {
        assert_eq!(fl(x).to_u64(), x as u64, "{:e}", x);
        assert_eq!(fl(x).to_usize(), x as usize, "{:e}", x);
        let big = x * 1e15;
        assert_eq!(fl(big).to_u64(), big as u64, "{:e}", big);
    }
    assert_eq!(fl(2.5).to_usize(), 2);
    assert_eq!(fl(0.999).to_usize(), 0);
    assert_eq!(fl(-3.0).to_usize(), 0);
    assert_eq!(fl(f64::NAN).to_usize(), 0);
    assert_eq!(fl(1e300).to_u64(), u64::MAX);
    assert_eq!(fl(18446744073709551616.0).to_u64(), u64::MAX);
    assert_eq!(fl(18446744073709549568.0).to_u64(), 18446744073709549568);
}

#[test]
fn parts_of_a_double() {
    assert!(fl(-1.5).sign_bit());
    assert!(!fl(1.5).sign_bit());
    assert!(fl(-0.0).sign_bit());
    assert_eq!(fl(-1.5).magnitude_bits(), 1.5f64.to_bits());
    assert_eq!(Float::from_parts(true, 1.5f64.to_bits()).to_bits(), (-1.5f64).to_bits());
    assert_eq!(Float::zero().to_bits(), 0.0f64.to_bits());
    assert_eq!(Float::one().to_bits(), 1.0f64.to_bits());
    assert!(fl(f64::NAN).is_nan() && !fl(f64::INFINITY).is_nan());
    assert!(fl(f64::NEG_INFINITY).is_infinite() && !fl(1.0).is_infinite());
    assert!(fl(1.0).is_finite() && !fl(f64::INFINITY).is_finite() && !fl(f64::NAN).is_finite());
    assert!(fl(-0.0).is_zero() && fl(0.0).is_zero() && !fl(5e-324).is_zero());
    assert_eq!(fl(-0.0).total_key_exec(), -1);
    assert_eq!(fl(0.0).total_key_exec(), 0);
    assert!(fl(-1.0).total_key_exec() < fl(-0.0).total_key_exec());
    assert!(fl(1.0).total_key_exec() < fl(f64::INFINITY).total_key_exec());
}

/// Pairs of doubles of every kind: any bits; exponents close to each other,
/// so that sums cancel and align; and the smallest and largest exponents.
fn many_pairs(count: usize) -> Vec<(f64, f64)> {
    let mut state: u64 = 0x0123_4567_89AB_CDEF;
    let mut next = move || {
        state = state.wrapping_mul(6364136223846793005).wrapping_add(1442695040888963407);
        state ^ (state >> 29)
    };
    let mut pairs = Vec::new();
    for k in 0..count {
        let a = next();
        let b = next();
        let pair = match k % 4 {
            0 => (a, b),
            1 => {
                // the exponent of b within 64 of that of a
                let ea = (a >> 52) & 0x7FF;
                let shift = (next() % 129) as i64 - 64;
                let eb = (ea as i64 + shift).clamp(0, 0x7FE) as u64;
                (a, (b & 0x800F_FFFF_FFFF_FFFF) | (eb << 52))
            }
            2 => {
                // around the smallest exponents
                let ea = next() % 60;
                let eb = next() % 60;
                ((a & 0x800F_FFFF_FFFF_FFFF) | (ea << 52), (b & 0x800F_FFFF_FFFF_FFFF) | (eb << 52))
            }
            _ => {
                // around the largest exponents
                let ea = 0x7FE - next() % 60;
                let eb = 0x7FE - next() % 60;
                ((a & 0x800F_FFFF_FFFF_FFFF) | (ea << 52), (b & 0x800F_FFFF_FFFF_FFFF) | (eb << 52))
            }
        };
        pairs.push((f64::from_bits(pair.0), f64::from_bits(pair.1)));
    }
    pairs
}

#[test]
fn sums_agree_with_the_hardware_on_many_doubles() {
    for (a, b) in many_pairs(40000) {
        assert!(same(fl(a).add(fl(b)), a + b), "{:e} + {:e}", a, b);
        assert!(same(fl(a).sub(fl(b)), a - b), "{:e} - {:e}", a, b);
    }
}

#[test]
fn products_agree_with_the_hardware_on_many_doubles() {
    for (a, b) in many_pairs(40000) {
        assert!(same(fl(a).mul(fl(b)), a * b), "{:e} * {:e}", a, b);
        // products that land among the smallest doubles
        let small = b * 1e-300;
        assert!(same(fl(a).mul(fl(small)), a * small), "{:e} * {:e}", a, small);
    }
}

#[test]
fn quotients_agree_with_the_hardware_on_many_doubles() {
    for (a, b) in many_pairs(40000) {
        assert!(same(fl(a).div(fl(b)), a / b), "{:e} / {:e}", a, b);
        let big = b * 1e300;
        assert!(same(fl(a).div(fl(big)), a / big), "{:e} / {:e}", a, big);
    }
}

#[test]
fn roots_agree_with_the_hardware_on_many_doubles() {
    for (a, b) in many_pairs(40000) {
        assert!(same(fl(a).sqrt(), a.sqrt()), "sqrt {:e}", a);
        let square = b * b;
        assert!(same(fl(square).sqrt(), square.sqrt()), "sqrt {:e}", square);
    }
}

#[test]
fn order_agrees_with_the_hardware_on_many_doubles() {
    for (a, b) in many_pairs(40000) {
        assert_eq!(fl(a).lt(fl(b)), a < b, "{:e} < {:e}", a, b);
        assert_eq!(fl(a).le(fl(b)), a <= b, "{:e} <= {:e}", a, b);
        assert_eq!(
            fl(a).total_key_exec() < fl(b).total_key_exec(),
            a.total_cmp(&b) == std::cmp::Ordering::Less
        );
    }
}
