use limb32::{Int32, Number};

#[test]
fn number_add() {
    let mut n = Number::from(1);
    n.add(&Number::from(1));
    assert_eq!(n, 2.into());
}

#[test]
fn number_mul() {
    let mut n = Number(Int32::from(131072));
    n.mul(&Number(Int32::from(16384)));
    assert_eq!(n, Number(Int32::from(32768)));

    let mut n = Number::from(2);
    n.mul(&Number::from(2));
    assert_eq!(n, Number::from(4));

    let mut n = Number(Int32::from(-1630363593));
    n.mul(&Number(Int32::from(702874066)));
    let want = ((-1630363593 as i64) * (702874066 as i64) >> 16) as i32;
    assert_eq!(n, Number(Int32::from(want)));

    for _ in 0..100 {
        let (a, b) = (rand::random::<i32>(), rand::random::<i32>());
        let mut n = Number(Int32::from(a));
        n.mul(&Number(Int32::from(b)));
        let want = ((a as i64).wrapping_mul(b as i64) >> 16) as i32;
        assert_eq!(n, Number(Int32::from(want)), "multiply: {} * {}", a, b);
    }
}

#[test]
fn number_div() {
    let mut n = Number(Int32::from(131072));
    n.div(&Number(Int32::from(16384))).unwrap();
    assert_eq!(n, Number(Int32::from(524288)));

    for _ in 0..100 {
        let (a, b) = (rand::random::<i32>(), rand::random::<i32>());
        let mut n = Number(Int32::from(a));
        n.div(&Number(Int32::from(b))).unwrap();
        let want = (((a as i64) << 16) / (b as i64)) as i32;
        assert_eq!(n, Number(Int32::from(want)), "divide: {} / {}", a, b);
    }
}
