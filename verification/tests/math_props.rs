use amm_core::math::{
    is_sqrt_price_valid, is_tick_valid, max_sqrt_price, min_sqrt_price, mul_div, mul_div_ceil,
    mul_div_floor, sqrt_price_at_tick, sqrt_price_to_price, tick_at_sqrt_price, MAX_TICK, MIN_TICK,
};
use amm_core::uint256::U256;

fn u(x: u128) -> U256 {
    U256::from_u128(x)
}

fn pt(a: &U256) -> primitive_types::U256 {
    primitive_types::U256([a.w0, a.w1, a.w2, a.w3])
}

fn from_pt(a: primitive_types::U256) -> U256 {
    U256 { w0: a.0[0], w1: a.0[1], w2: a.0[2], w3: a.0[3] }
}

#[test]
fn boundary_values() {
    assert_eq!(sqrt_price_at_tick(MIN_TICK), min_sqrt_price());
    assert_eq!(sqrt_price_at_tick(MAX_TICK), max_sqrt_price());
    assert_eq!(min_sqrt_price(), U256 { w0: 0x1000276a3, w1: 0, w2: 0, w3: 0 });
    assert_eq!(
        max_sqrt_price(),
        U256 { w0: 0x5d951d5263988d26, w1: 0xefd1fc6a50648849, w2: 0xfffd8963, w3: 0 }
    );
    // tick 0 is a price of exactly one: sqrt price 2^96
    assert_eq!(sqrt_price_at_tick(0), U256 { w0: 0, w1: 0x100000000, w2: 0, w3: 0 });
}

#[test]
fn out_of_range_inputs_are_rejected() {
    assert!(is_tick_valid(MIN_TICK) && is_tick_valid(MAX_TICK) && is_tick_valid(0));
    assert!(!is_tick_valid(MIN_TICK - 1));
    assert!(!is_tick_valid(MAX_TICK + 1));
    assert!(is_sqrt_price_valid(&min_sqrt_price()));
    assert!(is_sqrt_price_valid(&max_sqrt_price()));
    assert!(!is_sqrt_price_valid(&U256::zero()));
    assert!(!is_sqrt_price_valid(&u(0x1000276a2)));
    let above = from_pt(pt(&max_sqrt_price()) + primitive_types::U256::one());
    assert!(!is_sqrt_price_valid(&above));
    assert!(!is_sqrt_price_valid(&U256::max_value()));
}

#[test]
fn round_trip_sampled_over_full_range() {
    let mut t = MIN_TICK;
    while t <= MAX_TICK {
        let p = sqrt_price_at_tick(t);
        assert!(is_sqrt_price_valid(&p), "price out of range at tick {t}");
        assert_eq!(tick_at_sqrt_price(p), t, "round trip failed at tick {t}");
        t += 997;
    }
    for t in [MIN_TICK, -887271, -100000, -2, -1, 0, 1, 2, 100000, 887271, MAX_TICK] {
        assert_eq!(tick_at_sqrt_price(sqrt_price_at_tick(t)), t);
    }
}

#[test]
fn monotonic_in_the_tick() {
    let mut t = MIN_TICK;
    let mut prev = sqrt_price_at_tick(t);
    while t < MAX_TICK {
        let next_t = if t + 991 <= MAX_TICK { t + 991 } else { MAX_TICK };
        let next = sqrt_price_at_tick(next_t);
        assert!(prev.lt(&next), "not strictly increasing between {t} and {next_t}");
        prev = next;
        t = next_t;
    }
    // consecutive ticks around interesting points
    for t in [MIN_TICK, -100001, -1, 0, 100000, MAX_TICK - 1] {
        assert!(sqrt_price_at_tick(t).lt(&sqrt_price_at_tick(t + 1)));
    }
}

#[test]
fn floor_property_at_sampled_prices() {
    let one = primitive_types::U256::one();
    for t in [MIN_TICK, -54321, -1, 0, 1, 12345, MAX_TICK - 1] {
        let p = sqrt_price_at_tick(t);
        // prices just around a grid point
        for probe in [pt(&p), pt(&p) + one, pt(&p) + 12345u64] {
            let probe = from_pt(probe);
            if !is_sqrt_price_valid(&probe) {
                continue;
            }
            let tt = tick_at_sqrt_price(probe);
            let at = sqrt_price_at_tick(tt);
            assert!(at.le(&probe), "floor overshoots at tick {t}");
            if tt < MAX_TICK {
                assert!(probe.lt(&sqrt_price_at_tick(tt + 1)), "floor not tight at tick {t}");
            }
        }
    }
    assert_eq!(tick_at_sqrt_price(min_sqrt_price()), MIN_TICK);
    assert_eq!(tick_at_sqrt_price(max_sqrt_price()), MAX_TICK);
}

#[test]
fn mul_div_exact_values() {
    let (floor, ceil) = mul_div(&u(6), &u(7), &u(4));
    assert_eq!(floor, u(10));
    assert_eq!(ceil, u(11));
    let (floor, ceil) = mul_div(&u(6), &u(6), &u(4));
    assert_eq!(floor, u(9));
    assert_eq!(ceil, u(9));
    assert_eq!(mul_div_floor(&u(1), &u(1), &u(2)), U256::zero());
    assert_eq!(mul_div_ceil(&u(1), &u(1), &u(2)), u(1));
}

#[test]
fn mul_div_against_reference_bignums() {
    // a deterministic pseudo-random walk, checked against primitive-types
    let mut x: u128 = 0x2545f4914f6cdd1d;
    let mut step = || {
        x = x.wrapping_mul(6364136223846793005).wrapping_add(1442695040888963407);
        x
    };
    for _ in 0..200 {
        let a = u(step());
        let b = u(step());
        let c = u(step() | 1);
        let (floor, ceil) = mul_div(&a, &b, &c);
        let full = pt(&a).full_mul(pt(&b));
        let (q, m) = full.div_mod(primitive_types::U512::from(pt(&c)));
        assert_eq!(pt(&floor), primitive_types::U256::try_from(q).unwrap());
        let expect_ceil = if m.is_zero() { q } else { q + 1 };
        assert_eq!(pt(&ceil), primitive_types::U256::try_from(expect_ceil).unwrap());
        let d = ceil.sub_unchecked(&floor);
        assert!(d.is_zero() || d == U256::one());
        assert_eq!(mul_div_floor(&a, &b, &c), floor);
        assert_eq!(mul_div_ceil(&a, &b, &c), ceil);
    }
}

#[test]
fn price_of_tick_zero_is_one() {
    let s = sqrt_price_at_tick(0);
    let p = sqrt_price_to_price(s);
    // one, in 128 fractional bits
    assert_eq!(p, U256 { w0: 0, w1: 0, w2: 1, w3: 0 });
    // the minimum valid sqrt price still squares to a nonzero price
    let pmin = sqrt_price_to_price(min_sqrt_price());
    assert!(!pmin.is_zero());
    assert!(U256::one().le(&pmin));
}
