use amm_core::amm::PoolState;
use amm_core::common::{Pairs, PoolPairsMap, Side};
use amm_core::limit_orders;
use amm_core::math::{max_sqrt_price, min_sqrt_price, sqrt_price_at_tick};
use amm_core::range_orders;
use amm_core::rpc::{AskBidMap, LimitOrder, PoolOrders, RangeOrder, Rpc};
use amm_core::uint256::U256;

fn u(x: u128) -> U256 {
    U256::from_u128(x)
}

fn tick0_pool(fee: u32) -> PoolState {
    PoolState {
        limit_orders: limit_orders::PoolState::new(fee).unwrap(),
        range_orders: range_orders::PoolState::new(fee, sqrt_price_at_tick(0)).unwrap(),
    }
}

#[test]
fn fee_cap_is_enforced() {
    assert!(limit_orders::PoolState::validate_fees(500_000));
    assert!(!limit_orders::PoolState::validate_fees(500_001));
    assert!(range_orders::PoolState::validate_fees(500_000));
    assert!(!range_orders::PoolState::validate_fees(500_001));
    assert!(limit_orders::PoolState::new(500_001).is_err());
    assert!(limit_orders::PoolState::new(500_000).is_ok());
    assert!(range_orders::PoolState::new(500_001, sqrt_price_at_tick(0)).is_err());
    assert!(range_orders::PoolState::new(500_000, sqrt_price_at_tick(0)).is_ok());
    assert!(range_orders::PoolState::new(0, U256::zero()).is_err());
}

#[test]
fn one_limit_order_end_to_end() {
    // one limit order selling 100 units of Quote at tick 0, price exactly 1:1
    let mut pool = tick0_pool(0);
    pool.collect_and_mint_limit_order(&0, Side::Buy, 0, u(100)).unwrap();
    // selling 50 units of Base buys exactly 50 units of Quote
    let (bought, unsold) = pool.swap(Side::Sell, u(50), None);
    assert_eq!(bought, u(50));
    assert_eq!(unsold, U256::zero());
    // the remaining 50 still fill; beyond that input goes unsold
    let (bought, unsold) = pool.swap(Side::Sell, u(80), None);
    assert_eq!(bought, u(50));
    assert_eq!(unsold, u(30));
}

#[test]
fn limit_order_mint_rejections() {
    let mut pool = tick0_pool(0);
    assert!(matches!(
        pool.collect_and_mint_limit_order(&0, Side::Buy, 887_273, u(1)),
        Err(limit_orders::PositionError::InvalidTick)
    ));
    assert!(matches!(
        pool.collect_and_mint_limit_order(&0, Side::Buy, 0, U256::zero()),
        Err(limit_orders::PositionError::Other(limit_orders::MintError::ZeroAmount))
    ));
    assert!(matches!(
        pool.collect_and_mint_limit_order(&0, Side::Buy, 0, U256 { w0: 0, w1: 0, w2: 1, w3: 0 }),
        Err(limit_orders::PositionError::Other(limit_orders::MintError::MaximumAmount))
    ));
    let info = pool.collect_and_mint_limit_order(&7, Side::Sell, 10, u(42)).unwrap();
    assert_eq!(info.1.amount, u(42));
    assert!(info.0.fees.is_zero());
}

#[test]
fn range_order_mint_rejections() {
    let mut pool = tick0_pool(0);
    let debit = |_amounts: PoolPairsMap<U256>| Result::<(), &'static str>::Ok(());
    assert!(matches!(
        pool.collect_and_mint_range_order(
            &0,
            10,
            10,
            range_orders::Size::Liquidity { liquidity: 1 },
            debit
        ),
        Err(range_orders::PositionError::InvalidTickRange)
    ));
    assert!(matches!(
        pool.collect_and_mint_range_order(
            &0,
            -887_273,
            10,
            range_orders::Size::Liquidity { liquidity: 1 },
            debit
        ),
        Err(range_orders::PositionError::InvalidTickRange)
    ));
    assert!(matches!(
        pool.collect_and_mint_range_order(
            &0,
            -10,
            10,
            range_orders::Size::Liquidity { liquidity: 0 },
            debit
        ),
        Err(range_orders::PositionError::Other(range_orders::MintError::InvalidLiquidity))
    ));
    let refuse = |_amounts: PoolPairsMap<U256>| Result::<(), &'static str>::Err("no funds");
    assert!(matches!(
        pool.collect_and_mint_range_order(
            &0,
            -10,
            10,
            range_orders::Size::Liquidity { liquidity: 1000 },
            refuse
        ),
        Err(range_orders::PositionError::Other(range_orders::MintError::CallbackFailed(
            "no funds"
        )))
    ));
    let ok = pool
        .collect_and_mint_range_order(
            &0,
            -10,
            10,
            range_orders::Size::Liquidity { liquidity: 1000 },
            debit,
        )
        .unwrap();
    assert_eq!(ok.1, 1000);
}

#[test]
fn range_mint_debits_both_assets_at_mid_price() {
    let mut pool = tick0_pool(0);
    let debit = |amounts: PoolPairsMap<U256>| Result::<PoolPairsMap<U256>, &'static str>::Ok(amounts);
    let (amounts, _, _, _) = pool
        .collect_and_mint_range_order(
            &0,
            -1000,
            1000,
            range_orders::Size::Liquidity { liquidity: 1_000_000_000 },
            debit,
        )
        .unwrap();
    // a symmetric range around the current price owes roughly equal amounts
    // of both assets, and certainly a nonzero amount of each
    assert!(!amounts.base.is_zero());
    assert!(!amounts.quote.is_zero());
}

#[test]
fn tie_break_prefers_limit_orders_and_makes_progress() {
    let mut pool = tick0_pool(0);
    // a limit order selling Quote at tick 0, and range liquidity whose
    // current price is exactly the same sqrt price
    pool.collect_and_mint_limit_order(&0, Side::Buy, 0, u(1_000)).unwrap();
    let debit = |_amounts: PoolPairsMap<U256>| Result::<(), &'static str>::Ok(());
    pool.collect_and_mint_range_order(
        &1,
        -100,
        100,
        range_orders::Size::Liquidity { liquidity: 1_000_000_000_000 },
        debit,
    )
    .unwrap();
    let range_price_before = pool.range_orders.current_sqrt_price;
    assert_eq!(range_price_before, sqrt_price_at_tick(0));
    // both sources quote sqrt_price_at_tick(0); the limit order must fill
    // first, so the range price does not move
    let (bought, unsold) = pool.swap(Side::Sell, u(10), None);
    assert_eq!(bought, u(10));
    assert!(unsold.is_zero());
    assert_eq!(pool.range_orders.current_sqrt_price, range_price_before);
    // exhausting the book spills over into the range liquidity and still
    // terminates with progress
    let (bought2, unsold2) = pool.swap(Side::Sell, u(10_000), None);
    assert!(unsold2.is_zero());
    assert!(u(990).le(&bought2));
    assert!(pool.range_orders.current_sqrt_price.lt(&range_price_before));
}

#[test]
fn swap_against_range_orders_matches_reference_step() {
    let mut pool = tick0_pool(0);
    let debit = |_amounts: PoolPairsMap<U256>| Result::<(), &'static str>::Ok(());
    let liq: u128 = 1_000_000_000_000_000_000;
    pool.collect_and_mint_range_order(
        &0,
        -1000,
        1000,
        range_orders::Size::Liquidity { liquidity: liq },
        debit,
    )
    .unwrap();
    let input: u128 = 1_000_000;
    let (bought, unsold) = pool.swap(Side::Sell, u(input), None);
    assert!(unsold.is_zero());
    // reference computation of the same partial step with another bignum
    // library: s' = l96*s / (l96 + in*s), out = liq*(s - s') / 2^96
    let s = primitive_types::U256::from(1u128) << 96usize;
    let l96 = primitive_types::U256::from(liq) << 96;
    let num = primitive_types::U512::from(l96) * primitive_types::U512::from(s);
    let den = primitive_types::U512::from(l96)
        + primitive_types::U256::from(input).full_mul(s);
    let s2 = primitive_types::U256::try_from(num / den).unwrap();
    let expect = (primitive_types::U256::from(liq).full_mul(s - s2))
        >> 96usize;
    let expect = primitive_types::U256::try_from(expect).unwrap();
    assert_eq!(primitive_types::U256([bought.w0, bought.w1, bought.w2, bought.w3]), expect);
    // conservation: the price moved down, and the output is close to the
    // input at a price of one
    assert!(pool.range_orders.current_sqrt_price.lt(&sqrt_price_at_tick(0)));
    assert!(bought.le(&u(input)));
}

#[test]
fn conservation_and_no_panic_on_adversarial_amounts() {
    let mut pool = tick0_pool(100);
    pool.collect_and_mint_limit_order(&0, Side::Buy, 5, u(123_456)).unwrap();
    pool.collect_and_mint_limit_order(&1, Side::Sell, -7, u(77)).unwrap();
    let debit = |_amounts: PoolPairsMap<U256>| Result::<(), &'static str>::Ok(());
    pool.collect_and_mint_range_order(
        &2,
        -50,
        50,
        range_orders::Size::Liquidity { liquidity: u128::MAX },
        debit,
    )
    .unwrap();
    for amount in [U256::zero(), u(1), u(u128::MAX), U256::max_value()] {
        for side in [Side::Sell, Side::Buy] {
            let mut p = pool.clone();
            let (bought, unsold) = p.swap(side, amount, None);
            assert!(unsold.le(&amount));
            if amount.is_zero() {
                assert!(bought.is_zero() && unsold.is_zero());
            }
        }
    }
}

#[test]
fn randomized_mints_and_swaps_terminate() {
    let mut x: u128 = 0x9e3779b97f4a7c15;
    let mut step = || {
        x = x.wrapping_mul(6364136223846793005).wrapping_add(1442695040888963407);
        x
    };
    let mut pool = tick0_pool(0);
    let debit = |_amounts: PoolPairsMap<U256>| Result::<(), &'static str>::Ok(());
    for i in 0..60 {
        match step() % 4 {
            0 => {
                let tick = (step() % 2_000_000) as i32 - 1_000_000;
                let side = if step() % 2 == 0 { Side::Buy } else { Side::Sell };
                let _ = pool.collect_and_mint_limit_order(&(i as i32), side, tick, u(step()));
            }
            1 => {
                let lo = (step() % 2_000_000) as i32 - 1_000_000;
                let hi = lo.saturating_add((step() % 10_000) as i32);
                let _ = pool.collect_and_mint_range_order(
                    &(i as i32),
                    lo,
                    hi,
                    range_orders::Size::Liquidity { liquidity: step() },
                    debit,
                );
            }
            _ => {
                let side = if step() % 2 == 0 { Side::Buy } else { Side::Sell };
                let amount = if step() % 8 == 0 {
                    U256::max_value()
                } else {
                    u(step())
                };
                let limit = if step() % 3 == 0 {
                    None
                } else if step() % 2 == 0 {
                    Some(min_sqrt_price())
                } else {
                    Some(max_sqrt_price())
                };
                let (_bought, unsold) = pool.swap(side, amount, limit);
                assert!(unsold.le(&amount));
            }
        }
    }
}

#[test]
fn snapshot_orders_are_selected_by_side() {
    let ask = LimitOrder {
        lp: String::from("a"),
        id: u(1),
        tick: 5,
        sell_amount: u(500),
        fees_earned: U256::zero(),
        original_sell_amount: u(500),
    };
    let bid = LimitOrder {
        lp: String::from("b"),
        id: u(2),
        tick: -5,
        sell_amount: u(700),
        fees_earned: U256::zero(),
        original_sell_amount: u(700),
    };
    let range = RangeOrder {
        lp: String::from("c"),
        id: u(3),
        range_start: -10,
        range_end: 10,
        liquidity: 12345,
        fees_earned: PoolPairsMap { base: U256::zero(), quote: U256::zero() },
    };
    let rpc = Rpc {
        result: PoolOrders {
            limit_orders: AskBidMap { asks: vec![ask], bids: vec![bid] },
            range_orders: vec![range],
        },
    };
    let (limits, ranges) = rpc.clone().into_pool_orders(&Side::Buy);
    assert_eq!(limits, vec![(5, u(500))]);
    assert_eq!(ranges, vec![((-10, 10), 12345u128)]);
    let (limits, _) = rpc.into_pool_orders(&Side::Sell);
    assert_eq!(limits, vec![(-5, u(700))]);
}

#[test]
fn map_with_pair_applies_to_both_slots() {
    let m = PoolPairsMap { base: 2u64, quote: 3u64 };
    let doubled = m.map_with_pair(|_pair, v| v * 2);
    assert_eq!(doubled.base, 4);
    assert_eq!(doubled.quote, 6);
    let m2 = PoolPairsMap::from_array([10u64, 20u64]);
    assert_eq!(m2.base, 10);
    assert_eq!(m2.quote, 20);
}

#[test]
fn side_and_pair_negation() {
    assert_eq!(Side::Buy.to_sold_pair(), Pairs::Quote);
    assert_eq!(Side::Sell.to_sold_pair(), Pairs::Base);
    assert_eq!(Side::Buy.not(), Side::Sell);
    assert_eq!(Side::Sell.not(), Side::Buy);
    assert_eq!(Pairs::Base.not(), Pairs::Quote);
    assert_eq!(Pairs::Quote.not(), Pairs::Base);
    assert_eq!(Pairs::Base.sell_order(), Side::Sell);
    assert_eq!(Pairs::Quote.sell_order(), Side::Buy);
}

#[test]
fn price_limit_excludes_worse_orders() {
    // two quote-selling orders; a limit at tick 50 makes the tick-0 order
    // untouchable for a base seller, while the tick-100 order still fills
    let mut pool = tick0_pool(0);
    pool.collect_and_mint_limit_order(&0, Side::Buy, 0, u(5_000)).unwrap();
    pool.collect_and_mint_limit_order(&1, Side::Buy, 100, u(1_000)).unwrap();
    let limit = sqrt_price_at_tick(50);
    let offered = u(1_000_000_000);
    let (bought, unsold) = pool.swap(Side::Sell, offered, Some(limit));
    assert_eq!(bought, u(1_000));
    // the base spent is exactly what the tick-100 order costs
    let p100 = sqrt_price_at_tick(100);
    let p100 = primitive_types::U256([p100.w0, p100.w1, p100.w2, p100.w3]);
    let price128 = primitive_types::U256::try_from(
        p100.full_mul(p100) >> 64usize,
    )
    .unwrap();
    let (q, m) = primitive_types::U256::from(1000u64)
        .full_mul(primitive_types::U256::from(1u8) << 128usize)
        .div_mod(primitive_types::U512::from(price128));
    let used = if m.is_zero() { q } else { q + 1 };
    let used = primitive_types::U256::try_from(used).unwrap();
    let expect_unsold = primitive_types::U256::from(1_000_000_000u64) - used;
    assert_eq!(
        primitive_types::U256([unsold.w0, unsold.w1, unsold.w2, unsold.w3]),
        expect_unsold
    );
    // without the limit the cheaper order fills too
    let (bought2, _unsold2) = pool.swap(Side::Sell, offered, None);
    assert_eq!(bought2, u(5_000));
}
