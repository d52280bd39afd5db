use limb32::{div_u4, DivisionByZero, Int32, NegativeOperand, Number};

#[test]
fn round_trip_extremes() {
    for x in [0i32, 1, -1, i32::MAX, i32::MIN, 0x7F, 0x80, -0x80] {
        assert_eq!(x, Int32::from(x).to_native(), "round trip: {}", x);
    }
}

#[test]
fn neg_involution_min() {
    // the most negative value negates to itself, and negating twice
    // restores any value
    let mut n = Int32::from(i32::MIN);
    n.neg();
    assert_eq!(n, i32::MIN.into());

    for x in [0i32, 5, -5, i32::MAX, i32::MIN, 256] {
        let mut n = Int32::from(x);
        n.neg();
        n.neg();
        assert_eq!(n, x.into(), "involution: {}", x);
    }
}

#[test]
fn add_inverse_is_zero() {
    for x in [0i32, 1, -1, i32::MAX, i32::MIN, 0x12345678] {
        let mut negated = Int32::from(x);
        negated.neg();
        let mut n = Int32::from(x);
        n.add(&negated);
        assert_eq!(n, 0.into(), "inverse: {}", x);
    }
}

#[test]
fn wraparound_extremes() {
    let mut n = Int32::from(i32::MAX);
    n.add(&Int32::from(1));
    assert_eq!(n, i32::MIN.into());

    let mut n = Int32::from(i32::MIN);
    n.sub(&Int32::from(1));
    assert_eq!(n, i32::MAX.into());

    let mut n = Int32::from(i32::MIN);
    n.mul(&Int32::from(-1));
    assert_eq!(n, i32::MIN.wrapping_mul(-1).into());

    let mut n = Int32::from(0x10000);
    n.mul(&Int32::from(0x10000));
    assert_eq!(n, 0.into());
}

#[test]
fn divide_by_zero_signals() {
    for x in [0i32, 1, -1, i32::MAX, i32::MIN] {
        let mut n = Int32::from(x);
        assert_eq!(n.div(&Int32::from(0)), Err(DivisionByZero), "zero divisor: {}", x);
        assert_eq!(n, x.into(), "receiver untouched: {}", x);
    }
}

#[test]
fn divide_min_by_minus_one_wraps() {
    let mut n = Int32::from(i32::MIN);
    n.div(&Int32::from(-1)).unwrap();
    assert_eq!(n, i32::MIN.into());
}

#[test]
fn divide_exact_values() {
    let cases = [
        (100, 16, 6),
        (7, 7, 1),
        (-100, 7, -14),
        (100, -7, -14),
        (-100, -7, 14),
        (i32::MAX, 2, i32::MAX / 2),
        (i32::MIN, 2, i32::MIN / 2),
        (i32::MIN, 1, i32::MIN),
    ];
    for (a, b, want) in cases {
        let mut n = Int32::from(a);
        n.div(&Int32::from(b)).unwrap();
        assert_eq!(n, want.into(), "divide: {} / {}", a, b);
    }
}

#[test]
fn div_u4_concrete_paths() {
    // single-nibble divisor: 100 / 3 == 33
    let q = div_u4(
        [4, 6, 0, 0, 0, 0, 0, 0, 0, 0, 0, 0, 0, 0, 0, 0],
        [3, 0, 0, 0, 0, 0, 0, 0],
    );
    assert_eq!(q[0], 1);
    assert_eq!(q[1], 2);
    // multi-nibble divisor: 0x1234 / 0x56 == 0x36
    let q = div_u4(
        [4, 3, 2, 1, 0, 0, 0, 0, 0, 0, 0, 0, 0, 0, 0, 0],
        [6, 5, 0, 0, 0, 0, 0, 0],
    );
    assert_eq!(q[0], 6);
    assert_eq!(q[1], 3);
    assert_eq!(q[2], 0);
}

#[test]
fn sqrt_negative_signals() {
    for x in [-1i32, -100, i32::MIN] {
        let mut n = Int32::from(x);
        assert_eq!(n.sqrt(), Err(NegativeOperand), "negative operand: {}", x);
        assert_eq!(n, x.into(), "receiver untouched: {}", x);
    }
}

#[test]
fn sqrt_zero_and_squares() {
    let mut n = Int32::from(0);
    n.sqrt().unwrap();
    assert_eq!(n, 0.into());

    for x in [1i32, 4, 9, 100, 10000, 46340 * 46340] {
        let mut n = Int32::from(x);
        n.sqrt().unwrap();
        let want = (x as f64).sqrt() as i32;
        assert_eq!(n, want.into(), "sqrt: {}", x);
    }
}

#[test]
fn sqrt_near_square_overshoots() {
    // the fixed twenty-iteration scheme oscillates between the floor root
    // and its successor on inputs one below a perfect square, and lands on
    // the successor for 99: the result is the twentieth iterate, not the
    // floor of the real square root
    let mut n = Int32::from(99);
    n.sqrt().unwrap();
    assert_eq!(n, 10.into());
}

#[test]
fn number_from_scales() {
    assert_eq!(Number::from(1), Number(Int32::from(0x1_0000)));
    assert_eq!(Number::from(-1), Number(Int32::from(-0x1_0000)));
    assert_eq!(Number::from(0), Number(Int32::from(0)));
    assert_eq!(Number::from(i16::MIN), Number(Int32::from((i16::MIN as i32) << 16)));
}

#[test]
fn number_sub_matches_raw() {
    let mut n = Number(Int32::from(131072));
    n.sub(&Number(Int32::from(16384)));
    assert_eq!(n, Number(Int32::from(131072 - 16384)));

    let mut n = Number::from(1);
    n.sub(&Number::from(2));
    assert_eq!(n, Number::from(-1));
}

#[test]
fn number_divide_by_zero_signals() {
    let mut n = Number(Int32::from(42));
    assert_eq!(n.div(&Number(Int32::from(0))), Err(DivisionByZero));
    assert_eq!(n, Number(Int32::from(42)));
}

#[test]
fn number_mul_fraction() {
    // 0.5 * 0.5 == 0.25 in raw Q16.16 patterns
    let half = 0x8000;
    let mut n = Number(Int32::from(half));
    n.mul(&Number(Int32::from(half)));
    assert_eq!(n, Number(Int32::from(0x4000)));
}

#[test]
fn number_div_negative() {
    let mut n = Number(Int32::from(-131072));
    n.div(&Number(Int32::from(16384))).unwrap();
    assert_eq!(n, Number(Int32::from(-524288)));
}
