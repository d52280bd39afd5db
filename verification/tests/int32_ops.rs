use limb32::{div_u4, Int32};
use rand::Rng;

#[test]
fn from() {
    assert_eq!(Int32::from(1), Int32 { parts: [1, 0, 0, 0] });

    assert_eq!(Int32::from(-1), Int32 { parts: [0xFF, 0xFF, 0xFF, 0xFF] });
}

#[test]
fn neg() {
    let mut n = Int32::from(1);
    n.neg();
    assert_eq!(n, (-1).into());

    n = Int32::from(0x00000100);
    n.neg();
    assert_eq!(n, (-0x00000100).into());

    n = Int32::from(0x00010000);
    n.neg();
    assert_eq!(n, (-0x00010000).into());

    n = Int32::from(0x01000000);
    n.neg();
    assert_eq!(n, (-0x01000000).into());

    n = Int32::from(0x00000000);
    n.neg();
    assert_eq!(n, (-0x00000000).into());

    n = Int32::from(0x06666666);
    n.neg();
    assert_eq!(n, (-0x06666666).into());

    let a = rand::random::<i32>();
    let mut n = Int32::from(a);
    n.neg();
    assert_eq!(n, (a.wrapping_neg()).into(), "negate: -{}", a);
}

#[test]
fn int32_add() {
    let mut n = Int32::from(1);
    n.add(&Int32::from(1));
    assert_eq!(n, 2.into());

    n = Int32::from(0x06996699);
    n.add(&Int32::from(0x09669966));
    assert_eq!(n, 0x0FFFFFFF.into());

    n = Int32::from(1);
    n.add(&Int32::from(0xFF));
    assert_eq!(n, 0x100.into());

    n = Int32::from(1);
    n.add(&Int32::from(0xFFFF));
    assert_eq!(n, 0x10000.into());

    n = Int32::from(1);
    n.add(&Int32::from(0xFFFFFF));
    assert_eq!(n, 0x1000000.into());

    n = Int32::from(-1);
    n.add(&Int32::from(1));
    assert_eq!(n, 0.into());

    n = Int32::from(0x09999999);
    n.add(&Int32::from(-0x06666666));
    assert_eq!(n, (0x03333333).into());

    let (a, b) = (rand::random::<i32>(), rand::random::<i32>());
    let mut n = Int32::from(a);
    n.add(&Int32::from(b));
    assert_eq!(n, (a.wrapping_add(b)).into(), "add: {} + {}", a, b);
}

#[test]
fn sub() {
    let mut n = Int32::from(1);
    n.sub(&Int32::from(1));
    assert_eq!(n, 0.into());

    n = Int32::from(0x09999999);
    n.sub(&Int32::from(0x06666666));
    assert_eq!(n, 0x03333333.into());

    n = Int32::from(0x100);
    n.sub(&Int32::from(1));
    assert_eq!(n, 0xFF.into());

    n = Int32::from(0x10000);
    n.sub(&Int32::from(1));
    assert_eq!(n, 0xFFFF.into());

    n = Int32::from(0x1000000);
    n.sub(&Int32::from(1));
    assert_eq!(n, 0xFFFFFF.into());

    n = Int32::from(0);
    n.sub(&Int32::from(1));
    assert_eq!(n, (-1).into());

    let (a, b) = (rand::random::<i32>(), rand::random::<i32>());
    let mut n = Int32::from(a);
    n.sub(&Int32::from(b));
    assert_eq!(n, (a.wrapping_sub(b)).into(), "subtract: {} - {}", a, b);
}

#[test]
fn int32_mul() {
    let mut n = Int32::from(68375);
    n.mul(&Int32::from(2317));
    assert_eq!(n, 158424875.into());

    let mut n = Int32::from(68375);
    n.mul(&Int32::from(0));
    assert_eq!(n, 0.into());

    let mut n = Int32::from(68375);
    n.mul(&Int32::from(1));
    assert_eq!(n, 68375.into());

    let mut n = Int32::from(1);
    n.mul(&Int32::from(2317));
    assert_eq!(n, 2317.into());

    let mut n = Int32::from(68375);
    n.mul(&Int32::from(-2317));
    assert_eq!(n, (-158424875).into());

    let mut n = Int32::from(-68375);
    n.mul(&Int32::from(2317));
    assert_eq!(n, (-158424875).into());

    let mut n = Int32::from(-68375);
    n.mul(&Int32::from(-2317));
    assert_eq!(n, 158424875.into());

    let mut n = Int32::from(0xFF);
    n.mul(&Int32::from(0xFF));
    assert_eq!(n, (0xFF * 0xFF).into());

    let mut n = Int32::from(-0xFF);
    n.mul(&Int32::from(-0xFF));
    assert_eq!(n, (0xFF * 0xFF).into());

    for _ in 0..100 {
        let (a, b) = (rand::random::<i32>(), rand::random::<i32>());
        let mut n = Int32::from(a);
        n.mul(&Int32::from(b));
        assert_eq!(n, (a.wrapping_mul(b)).into(), "multiply: {} * {}", a, b);
    }
}

#[test]
fn div_u4_vsize1() {
    for _ in 0..100 {
        let (a, b) = (
            rand::thread_rng().gen_range(0..i32::MAX),
            rand::thread_rng().gen_range(1..16),
        );

        let got = div_u4(
            [
                ((a >> 0) & 0x0F) as i16,
                ((a >> 4) & 0x0F) as i16,
                ((a >> 8) & 0x0F) as i16,
                ((a >> 12) & 0x0F) as i16,
                ((a >> 16) & 0x0F) as i16,
                ((a >> 20) & 0x0F) as i16,
                ((a >> 24) & 0x0F) as i16,
                ((a >> 28) & 0x0F) as i16,
                0,
                0,
                0,
                0,
                0,
                0,
                0,
                0,
            ],
            [b, 0, 0, 0, 0, 0, 0, 0],
        );

        let want = [
            (((a / b as i32) >> 0) & 0x0F) as i16,
            (((a / b as i32) >> 4) & 0x0F) as i16,
            (((a / b as i32) >> 8) & 0x0F) as i16,
            (((a / b as i32) >> 12) & 0x0F) as i16,
            (((a / b as i32) >> 16) & 0x0F) as i16,
            (((a / b as i32) >> 20) & 0x0F) as i16,
            (((a / b as i32) >> 24) & 0x0F) as i16,
            (((a / b as i32) >> 28) & 0x0F) as i16,
            0,
            0,
            0,
            0,
            0,
            0,
            0,
            0,
        ];

        assert_eq!(got, want, "divide: {} / {}", a, b);
    }
}

#[test]
fn div_u4_vsizen() {
    for _ in 0..100 {
        let (a, b) = (
            rand::thread_rng().gen_range(0..i32::MAX),
            rand::thread_rng().gen_range(1..i32::MAX),
        );

        let got = div_u4(
            [
                ((a >> 0) & 0x0F) as i16,
                ((a >> 4) & 0x0F) as i16,
                ((a >> 8) & 0x0F) as i16,
                ((a >> 12) & 0x0F) as i16,
                ((a >> 16) & 0x0F) as i16,
                ((a >> 20) & 0x0F) as i16,
                ((a >> 24) & 0x0F) as i16,
                ((a >> 28) & 0x0F) as i16,
                0,
                0,
                0,
                0,
                0,
                0,
                0,
                0,
            ],
            [
                ((b >> 0) & 0x0F) as i16,
                ((b >> 4) & 0x0F) as i16,
                ((b >> 8) & 0x0F) as i16,
                ((b >> 12) & 0x0F) as i16,
                ((b >> 16) & 0x0F) as i16,
                ((b >> 20) & 0x0F) as i16,
                ((b >> 24) & 0x0F) as i16,
                ((b >> 28) & 0x0F) as i16,
            ],
        );

        let want = [
            (((a / b as i32) >> 0) & 0x0F) as i16,
            (((a / b as i32) >> 4) & 0x0F) as i16,
            (((a / b as i32) >> 8) & 0x0F) as i16,
            (((a / b as i32) >> 12) & 0x0F) as i16,
            (((a / b as i32) >> 16) & 0x0F) as i16,
            (((a / b as i32) >> 20) & 0x0F) as i16,
            (((a / b as i32) >> 24) & 0x0F) as i16,
            (((a / b as i32) >> 28) & 0x0F) as i16,
            0,
            0,
            0,
            0,
            0,
            0,
            0,
            0,
        ];

        assert_eq!(got, want, "divide: {} / {}", a, b);
    }
}

#[test]
fn int32_div() {
    let mut n = Int32::from(781);
    n.div(&Int32::from(330519)).unwrap();
    assert_eq!(n, 0.into());

    let mut n = Int32::from(330519);
    n.div(&Int32::from(781)).unwrap();
    assert_eq!(n, 423.into());

    let mut n = Int32::from(1);
    n.div(&Int32::from(1)).unwrap();
    assert_eq!(n, 1.into());

    let mut n = Int32::from(-1);
    n.div(&Int32::from(1)).unwrap();
    assert_eq!(n, (-1).into());

    let mut n = Int32::from(1);
    n.div(&Int32::from(-1)).unwrap();
    assert_eq!(n, (-1).into());

    let mut n = Int32::from(256);
    n.div(&Int32::from(3)).unwrap();
    assert_eq!(n, 85.into());

    let mut n = Int32::from(1543938581);
    n.div(&Int32::from(-623681255)).unwrap();
    assert_eq!(n, (1543938581 / -623681255).into());

    let mut n = Int32::from(884474092);
    n.div(&Int32::from(13586197)).unwrap();
    assert_eq!(n, (884474092 / 13586197).into());

    for _ in 0..100 {
        let (a, b) = (rand::random::<i32>(), rand::random::<i32>());
        let mut n = Int32::from(a);
        n.div(&Int32::from(b)).unwrap();
        assert_eq!(n, (a / b).into(), "divide: {} / {}", a, b);
    }
}

#[test]
fn sqrt() {
    let mut n = Int32::from(1);
    n.sqrt().unwrap();
    assert_eq!(n, 1.into());

    let mut n = Int32::from(4);
    n.sqrt().unwrap();
    assert_eq!(n, 2.into());

    for _ in 0..100 {
        let a = rand::random::<i32>() & 0x7FFFFFFF;
        let mut n = Int32::from(a);
        n.sqrt().unwrap();
        assert_eq!(n, ((a as f64).sqrt() as i32).into(), "sqrt: {}", a);
    }
}
