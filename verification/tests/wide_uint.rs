use amm_core::math::mul_div_floor;
use amm_core::uint256::U256;

fn pt(a: &U256) -> primitive_types::U256 {
    primitive_types::U256([a.w0, a.w1, a.w2, a.w3])
}

fn from_pt(a: primitive_types::U256) -> U256 {
    U256 { w0: a.0[0], w1: a.0[1], w2: a.0[2], w3: a.0[3] }
}

#[test]
fn carry_arithmetic_matches_reference() {
    let mut x: u128 = 0x853c49e6748fea9b;
    let mut step = || {
        x = x.wrapping_mul(6364136223846793005).wrapping_add(1442695040888963407);
        x
    };
    for _ in 0..300 {
        let a = from_pt(pt(&U256::from_u128(step())) << ((step() % 3) as usize * 64));
        let b = from_pt(pt(&U256::from_u128(step())) << ((step() % 3) as usize * 64));
        let (sum, carry) = a.overflowing_add(&b);
        let (esum, ecarry) = pt(&a).overflowing_add(pt(&b));
        assert_eq!(pt(&sum), esum);
        assert_eq!(carry, ecarry);
        let (diff, borrow) = a.overflowing_sub(&b);
        let (ediff, eborrow) = pt(&a).overflowing_sub(pt(&b));
        assert_eq!(pt(&diff), ediff);
        assert_eq!(borrow, eborrow);
        assert_eq!(a.lt(&b), pt(&a) < pt(&b));
        assert_eq!(a.le(&b), pt(&a) <= pt(&b));
        assert_eq!(a.low_u32() as u64, pt(&a).low_u64() & 0xffffffff);
    }
}

#[test]
fn saturating_and_checked_sums() {
    let max = U256::max_value();
    assert_eq!(max.saturating_add(&U256::one()), max);
    assert!(max.checked_add(&U256::one()).is_none());
    let two = U256::one().saturating_add(&U256::one());
    assert_eq!(two, U256::from_u64(2));
    assert_eq!(max.checked_add(&U256::zero()).unwrap(), max);
    assert!(max.sub_unchecked(&max).is_zero());
}

#[test]
fn full_products_survive_the_double_width() {
    // (2^128 - 1)^2 / 2^128 only fits because the product is formed in full
    let a = U256::from_u128(u128::MAX);
    let c = U256 { w0: 0, w1: 0, w2: 1, w3: 0 };
    let r = mul_div_floor(&a, &a, &c);
    let expect = primitive_types::U256::try_from(pt(&a).full_mul(pt(&a)) >> 128usize).unwrap();
    assert_eq!(pt(&r), expect);
}
