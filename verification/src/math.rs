//! Fixed-point tick and price arithmetic.
//!
//! Prices are square roots in Q64.96 format; ticks index the geometric grid
//! with ratio 1.0001. `sqrt_price_at_tick` is specified exactly by the spec
//! function `spec_sqrt_price_at_tick`, which mirrors the per-bit constant
//! multiplication; `tick_at_sqrt_price` is specified as a floor of that map.

use vstd::prelude::*;

verus! {

use vstd::arithmetic::power2::pow2;
use vstd::arithmetic::power2::lemma2_to64;
use vstd::arithmetic::power2::lemma2_to64_rest;
use vstd::arithmetic::power2::lemma_pow2_adds;
use vstd::arithmetic::mul::lemma_mul_inequality;
use vstd::arithmetic::mul::lemma_mul_upper_bound;
use vstd::arithmetic::div_mod::lemma_multiply_divide_lt;
use vstd::arithmetic::div_mod::lemma_div_is_ordered;
use vstd::arithmetic::div_mod::lemma_fundamental_div_mod;
use vstd::arithmetic::div_mod::lemma_fundamental_div_mod_converse;
use crate::uint256::U256;
use crate::uint256::U512;
use crate::uint256::full_mul;
use crate::uint256::div_mod;
use crate::uint256::shr256;
use crate::uint256::shl256;
use crate::uint256::shr512;

/// An amount of an asset in its smallest indivisible unit.
pub type Amount = U256;
/// `log_1.0001(price)` rounded to an integer.
pub type Tick = i32;
/// The square root of a price as a fixed point number with 96 fractional bits.
pub type SqrtPriceQ64F96 = U256;
/// A price as a fixed point number with 128 fractional bits.
pub type Price = U256;

/// The number of fractional bits in a [`SqrtPriceQ64F96`].
pub const SQRT_PRICE_FRACTIONAL_BITS: u32 = 96;
/// The number of fractional bits in a [`Price`].
pub const PRICE_FRACTIONAL_BITS: u32 = 128;

/// The lowest tick accepted by `sqrt_price_at_tick`: log base 1.0001 of 2^-128.
pub const MIN_TICK: Tick = -887272;
/// The highest tick accepted by `sqrt_price_at_tick`: log base 1.0001 of 2^128.
pub const MAX_TICK: Tick = 887272;

/// The value of `sqrt_price_at_tick(MIN_TICK)`, the lowest valid sqrt price.
pub open spec fn min_sqrt_price_value() -> nat {
    4295128739
}

/// The value of `sqrt_price_at_tick(MAX_TICK)`, the highest valid sqrt price.
pub open spec fn max_sqrt_price_value() -> nat {
    0xfffd8963efd1fc6a506488495d951d5263988d26nat
}

/// The lowest valid sqrt price, as a value.
pub fn min_sqrt_price() -> (r: SqrtPriceQ64F96)
    ensures
        r@ == min_sqrt_price_value(),
{
    U256 { w0: 0x1000276a3, w1: 0, w2: 0, w3: 0 }
}

/// The highest valid sqrt price, as a value.
pub fn max_sqrt_price() -> (r: SqrtPriceQ64F96)
    ensures
        r@ == max_sqrt_price_value(),
{
    U256 { w0: 0x5d951d5263988d26, w1: 0xefd1fc6a50648849, w2: 0xfffd8963, w3: 0 }
}

pub open spec fn spec_is_tick_valid(tick: int) -> bool {
    MIN_TICK <= tick <= MAX_TICK
}

pub open spec fn spec_is_sqrt_price_valid(sqrt_price: nat) -> bool {
    min_sqrt_price_value() <= sqrt_price <= max_sqrt_price_value()
}

/// True exactly when `tick` lies in the closed valid range.
pub fn is_tick_valid(tick: Tick) -> (r: bool)
    ensures
        r == spec_is_tick_valid(tick as int),
{
    MIN_TICK <= tick && tick <= MAX_TICK
}

/// True exactly when `sqrt_price` lies in the closed valid range.
pub fn is_sqrt_price_valid(sqrt_price: &SqrtPriceQ64F96) -> (r: bool)
    ensures
        r == spec_is_sqrt_price_valid(sqrt_price@),
{
    let lo = min_sqrt_price();
    let hi = max_sqrt_price();
    lo.le(sqrt_price) && sqrt_price.le(&hi)
}

/// The per-bit constants: `tick_constant(i)` is `1.0001^(-2^(i-1))` scaled by
/// 2^128 (for `i == 0`, the half-step `1.0001^(-1/2)`).
pub open spec fn tick_constant(i: int) -> nat {
    if i == 0 {
        0xfffcb933bd6fad37aa2d162d1a594001
    } else if i == 1 {
        0xfff97272373d413259a46990580e213a
    } else if i == 2 {
        0xfff2e50f5f656932ef12357cf3c7fdcc
    } else if i == 3 {
        0xffe5caca7e10e4e61c3624eaa0941cd0
    } else if i == 4 {
        0xffcb9843d60f6159c9db58835c926644
    } else if i == 5 {
        0xff973b41fa98c081472e6896dfb254c0
    } else if i == 6 {
        0xff2ea16466c96a3843ec78b326b52861
    } else if i == 7 {
        0xfe5dee046a99a2a811c461f1969c3053
    } else if i == 8 {
        0xfcbe86c7900a88aedcffc83b479aa3a4
    } else if i == 9 {
        0xf987a7253ac413176f2b074cf7815e54
    } else if i == 10 {
        0xf3392b0822b70005940c7a398e4b70f3
    } else if i == 11 {
        0xe7159475a2c29b7443b29c7fa6e889d9
    } else if i == 12 {
        0xd097f3bdfd2022b8845ad8f792aa5825
    } else if i == 13 {
        0xa9f746462d870fdf8a65dc1f90e061e5
    } else if i == 14 {
        0x70d869a156d2a1b890bb3df62baf32f7
    } else if i == 15 {
        0x31be135f97d08fd981231505542fcfa6
    } else if i == 16 {
        0x9aa508b5b7a84e1c677de54f3e99bc9
    } else if i == 17 {
        0x5d6af8dedb81196699c329225ee604
    } else if i == 18 {
        0x2216e584f5fa1ea926041bedfe98
    } else if i == 19 {
        0x48a170391f7dc42444e8fa2
    } else {
        0
    }
}

/// Whether bit `i` of `abs_tick` is set.
pub open spec fn tick_bit(abs_tick: nat, i: nat) -> bool {
    (abs_tick / pow2(i)) % 2 == 1
}

/// The 128-fractional-bit ratio `1.0001^(-abs_tick/2) * 2^128` after the
/// per-bit steps `0 ..= i` have been applied.
pub open spec fn ratio_after(abs_tick: nat, i: nat) -> nat
    decreases i,
{
    if i == 0 {
        if tick_bit(abs_tick, 0) {
            tick_constant(0)
        } else {
            0x100000000000000000000000000000000nat
        }
    } else {
        let prev = ratio_after(abs_tick, (i - 1) as nat);
        if tick_bit(abs_tick, i) {
            (prev * tick_constant(i as int)) / 0x100000000000000000000000000000000nat
        } else {
            prev
        }
    }
}

/// What `sqrt_price_at_tick` returns: the ratio for `|tick|`, inverted for
/// positive ticks, narrowed from 128 to 96 fractional bits rounding up.
pub open spec fn spec_sqrt_price_at_tick(tick: int) -> nat {
    let abs_tick = (if tick < 0 { -tick } else { tick }) as nat;
    let ratio = ratio_after(abs_tick, 19);
    let q = if tick > 0 {
        if ratio == 0 {
            0nat
        } else {
            0xffffffffffffffffffffffffffffffffffffffffffffffffffffffffffffffffnat / ratio
        }
    } else {
        ratio
    };
    q / 0x100000000 + (if q % 0x100000000 == 0 {
        0nat
    } else {
        1nat
    })
}

/// One step of the ratio chain keeps the value bounded by 2^128.
proof fn lemma_ratio_step(prev: nat, c: nat)
    requires
        prev <= 0x100000000000000000000000000000000nat,
        c < 0x100000000000000000000000000000000nat,
    ensures
        prev * c < 0x1000000000000000000000000000000000000000000000000000000000000000000000000000000000000000000000000nat,
        (prev * c) / 0x100000000000000000000000000000000nat < 0x100000000000000000000000000000000nat,
{
    lemma_mul_upper_bound(prev as int, 0x100000000000000000000000000000000int, c as int, 0x100000000000000000000000000000000int - 1);
    lemma_multiply_divide_lt(prev as int * c as int, 0x100000000000000000000000000000000int, 0x100000000000000000000000000000000int);
}

/// Multiply two 256-bit values and shift the 512-bit product right by 128.
fn mul_shr128(a: &U256, b: &U256) -> (r: U256)
    requires
        a@ * b@ < 0x1000000000000000000000000000000000000000000000000000000000000000000000000000000000000000000000000nat,
    ensures
        r@ == (a@ * b@) / 0x100000000000000000000000000000000nat,
{
    let p = full_mul(a, b);
    let s = shr512(&p, 128);
    proof {
        lemma2_to64();
        lemma_pow2_adds(64, 64);
        assert(pow2(128) == 0x100000000000000000000000000000000nat);
        lemma_multiply_divide_lt(p@ as int, 0x100000000000000000000000000000000int, 0x10000000000000000000000000000000000000000000000000000000000000000int);
    }
    s.low_u256()
}

/// One step of the binary exponentiation: multiply in `tick_constant(i)`
/// when bit `i` of `abs_tick` is set.
fn ratio_chain_step(abs_tick: u32, i: u32, bit: u32, c: u128, r: U256) -> (out: U256)
    requires
        1 <= i <= 19,
        bit as nat == pow2(i as nat),
        c as nat == tick_constant(i as int),
        r@ == ratio_after(abs_tick as nat, (i - 1) as nat),
        r@ <= 0x100000000000000000000000000000000nat,
    ensures
        out@ == ratio_after(abs_tick as nat, i as nat),
        out@ <= 0x100000000000000000000000000000000nat,
{
    proof {
        vstd::arithmetic::power2::lemma_pow2_pos(i as nat);
    }
    let sel: bool = (abs_tick / bit) % 2 == 1;
    proof {
        assert(sel == tick_bit(abs_tick as nat, i as nat));
    }
    if sel {
        proof {
            lemma_ratio_step(r@, c as nat);
        }
        mul_shr128(&r, &U256::from_u128(c))
    } else {
        r
    }
}

/// The ratio `1.0001^(-abs_tick/2)` in 128 fractional bits, by binary
/// exponentiation over the 20 per-bit constants.
fn tick_ratio(abs_tick: u32) -> (r: U256)
    requires
        abs_tick <= 0xfffff,
    ensures
        r@ == ratio_after(abs_tick as nat, 19),
        r@ <= 0x100000000000000000000000000000000nat,
{
    proof {
        lemma2_to64();
    }
    let mut r: U256 = if abs_tick % 2 == 1 {
        U256::from_u128(0xfffcb933bd6fad37aa2d162d1a594001)
    } else {
        U256 { w0: 0, w1: 0, w2: 1, w3: 0 }
    };
    proof {
        assert(pow2(0) == 1);
        assert(tick_bit(abs_tick as nat, 0) == (abs_tick % 2 == 1));
    }
    assert(r@ == ratio_after(abs_tick as nat, 0));
    assert(r@ <= 0x100000000000000000000000000000000nat);
    r = ratio_chain_step(abs_tick, 1, 0x2, 0xfff97272373d413259a46990580e213a, r);
    r = ratio_chain_step(abs_tick, 2, 0x4, 0xfff2e50f5f656932ef12357cf3c7fdcc, r);
    r = ratio_chain_step(abs_tick, 3, 0x8, 0xffe5caca7e10e4e61c3624eaa0941cd0, r);
    r = ratio_chain_step(abs_tick, 4, 0x10, 0xffcb9843d60f6159c9db58835c926644, r);
    r = ratio_chain_step(abs_tick, 5, 0x20, 0xff973b41fa98c081472e6896dfb254c0, r);
    r = ratio_chain_step(abs_tick, 6, 0x40, 0xff2ea16466c96a3843ec78b326b52861, r);
    r = ratio_chain_step(abs_tick, 7, 0x80, 0xfe5dee046a99a2a811c461f1969c3053, r);
    r = ratio_chain_step(abs_tick, 8, 0x100, 0xfcbe86c7900a88aedcffc83b479aa3a4, r);
    r = ratio_chain_step(abs_tick, 9, 0x200, 0xf987a7253ac413176f2b074cf7815e54, r);
    r = ratio_chain_step(abs_tick, 10, 0x400, 0xf3392b0822b70005940c7a398e4b70f3, r);
    r = ratio_chain_step(abs_tick, 11, 0x800, 0xe7159475a2c29b7443b29c7fa6e889d9, r);
    r = ratio_chain_step(abs_tick, 12, 0x1000, 0xd097f3bdfd2022b8845ad8f792aa5825, r);
    r = ratio_chain_step(abs_tick, 13, 0x2000, 0xa9f746462d870fdf8a65dc1f90e061e5, r);
    r = ratio_chain_step(abs_tick, 14, 0x4000, 0x70d869a156d2a1b890bb3df62baf32f7, r);
    r = ratio_chain_step(abs_tick, 15, 0x8000, 0x31be135f97d08fd981231505542fcfa6, r);
    r = ratio_chain_step(abs_tick, 16, 0x10000, 0x9aa508b5b7a84e1c677de54f3e99bc9, r);
    r = ratio_chain_step(abs_tick, 17, 0x20000, 0x5d6af8dedb81196699c329225ee604, r);
    r = ratio_chain_step(abs_tick, 18, 0x40000, 0x2216e584f5fa1ea926041bedfe98, r);
    r = ratio_chain_step(abs_tick, 19, 0x80000, 0x48a170391f7dc42444e8fa2, r);
    r
}

/// The sqrt price of the tick grid point, in Q64.96.
///
/// Exact contract: the result is `spec_sqrt_price_at_tick(tick)`.
pub fn sqrt_price_at_tick(tick: Tick) -> (r: SqrtPriceQ64F96)
    requires
        spec_is_tick_valid(tick as int),
    ensures
        r@ == spec_sqrt_price_at_tick(tick as int),
        r@ >= 1,
{
    let abs_tick: u32 = if tick >= 0 {
        tick as u32
    } else {
        (-(tick as i64)) as u32
    };
    let ratio = tick_ratio(abs_tick);
    proof {
        lemma_ratio_positive(abs_tick as nat);
    }
    let q: U256 = if tick > 0 {
        if ratio.is_zero() {
            U256::zero()
        } else {
            let (d, m) = div_mod(&U512::from_u256(&U256::max_value()), &U512::from_u256(&ratio));
            proof {
                lemma_div_is_ordered(0, 0xffffffffffffffffffffffffffffffffffffffffffffffffffffffffffffffffint, ratio@ as int);
                lemma_multiply_divide_lt((0xffffffffffffffffffffffffffffffffffffffffffffffffffffffffffffffffnat) as int, ratio@ as int, 0x10000000000000000000000000000000000000000000000000000000000000000int);
                vstd::arithmetic::mul::lemma_mul_increases(ratio@ as int, 0x10000000000000000000000000000000000000000000000000000000000000000int);
                vstd::arithmetic::div_mod::lemma_div_is_ordered_by_denominator(
                    0xffffffffffffffffffffffffffffffffffffffffffffffffffffffffffffffffint,
                    ratio@ as int,
                    0x100000000000000000000000000000000int,
                );
            }
            d.low_u256()
        }
    } else {
        ratio
    };
    let shifted = shr256(&q, 32);
    proof {
        lemma2_to64();
        assert(pow2(32) == 0x100000000);
        crate::uint256::lemma_u256_bound(q);
        lemma_div_is_ordered(q@ as int, 0xffffffffffffffffffffffffffffffffffffffffffffffffffffffffffffffffint, 0x100000000int);
    }
    proof {
        lemma_div_is_ordered(0x149b7873d84d48int, q@ as int, 0x100000000int);
    }
    let low = q.low_u32();
    if low == 0 {
        shifted
    } else {
        let (s, _o) = shifted.overflowing_add(&U256::one());
        s
    }
}


/// The ratio chain never collapses: each per-bit constant removes less than
/// half of the value, so after all the steps the ratio still exceeds 2^64.
pub proof fn lemma_ratio_positive(abs_tick: nat)
    ensures
        ratio_after(abs_tick, 19) >= 0x149b7873d84d48nat,
{
    assert(ratio_after(abs_tick, 0) >= 0xfffcb933bd6fad37aa2d162d1a594001nat);
    assert(ratio_after(abs_tick, 1) >= 0xfff62bbb6d458ec3c792106391dc463enat) by {
        if tick_bit(abs_tick, 1) {
            lemma_mul_inequality(0xfffcb933bd6fad37aa2d162d1a594001int, ratio_after(abs_tick, 0) as int, 0xfff97272373d413259a46990580e213aint);
            lemma_div_is_ordered(
                0xfffcb933bd6fad37aa2d162d1a594001int * 0xfff97272373d413259a46990580e213aint,
                ratio_after(abs_tick, 0) as int * 0xfff97272373d413259a46990580e213aint,
                0x100000000000000000000000000000000int,
            );
        }
    }
    assert(ratio_after(abs_tick, 2) >= 0xffe9114b9cf28d394c3203dbd44eb085nat) by {
        if tick_bit(abs_tick, 2) {
            lemma_mul_inequality(0xfff62bbb6d458ec3c792106391dc463eint, ratio_after(abs_tick, 1) as int, 0xfff2e50f5f656932ef12357cf3c7fdccint);
            lemma_div_is_ordered(
                0xfff62bbb6d458ec3c792106391dc463eint * 0xfff2e50f5f656932ef12357cf3c7fdccint,
                ratio_after(abs_tick, 1) as int * 0xfff2e50f5f656932ef12357cf3c7fdccint,
                0x100000000000000000000000000000000int,
            );
        }
    }
    assert(ratio_after(abs_tick, 3) >= 0xffcede6f1d8be90b88f350424e84e5b7nat) by {
        if tick_bit(abs_tick, 3) {
            lemma_mul_inequality(0xffe9114b9cf28d394c3203dbd44eb085int, ratio_after(abs_tick, 2) as int, 0xffe5caca7e10e4e61c3624eaa0941cd0int);
            lemma_div_is_ordered(
                0xffe9114b9cf28d394c3203dbd44eb085int * 0xffe5caca7e10e4e61c3624eaa0941cd0int,
                ratio_after(abs_tick, 2) as int * 0xffe5caca7e10e4e61c3624eaa0941cd0int,
                0x100000000000000000000000000000000int,
            );
        }
    }
    assert(ratio_after(abs_tick, 4) >= 0xff9a80c1ada7480b1daa871d7c4d9b36nat) by {
        if tick_bit(abs_tick, 4) {
            lemma_mul_inequality(0xffcede6f1d8be90b88f350424e84e5b7int, ratio_after(abs_tick, 3) as int, 0xffcb9843d60f6159c9db58835c926644int);
            lemma_div_is_ordered(
                0xffcede6f1d8be90b88f350424e84e5b7int * 0xffcb9843d60f6159c9db58835c926644int,
                ratio_after(abs_tick, 3) as int * 0xffcb9843d60f6159c9db58835c926644int,
                0x100000000000000000000000000000000int,
            );
        }
    }
    assert(ratio_after(abs_tick, 5) >= 0xff31e58d5a53c84fc142023ec1b1dfd7nat) by {
        if tick_bit(abs_tick, 5) {
            lemma_mul_inequality(0xff9a80c1ada7480b1daa871d7c4d9b36int, ratio_after(abs_tick, 4) as int, 0xff973b41fa98c081472e6896dfb254c0int);
            lemma_div_is_ordered(
                0xff9a80c1ada7480b1daa871d7c4d9b36int * 0xff973b41fa98c081472e6896dfb254c0int,
                ratio_after(abs_tick, 4) as int * 0xff973b41fa98c081472e6896dfb254c0int,
                0x100000000000000000000000000000000int,
            );
        }
    }
    assert(ratio_after(abs_tick, 6) >= 0xfe612f8183b1ea21b72fb71b03542ae4nat) by {
        if tick_bit(abs_tick, 6) {
            lemma_mul_inequality(0xff31e58d5a53c84fc142023ec1b1dfd7int, ratio_after(abs_tick, 5) as int, 0xff2ea16466c96a3843ec78b326b52861int);
            lemma_div_is_ordered(
                0xff31e58d5a53c84fc142023ec1b1dfd7int * 0xff2ea16466c96a3843ec78b326b52861int,
                ratio_after(abs_tick, 5) as int * 0xff2ea16466c96a3843ec78b326b52861int,
                0x100000000000000000000000000000000int,
            );
        }
    }
    assert(ratio_after(abs_tick, 7) >= 0xfcc1c2f380536bc67ee1ff564d1080b2nat) by {
        if tick_bit(abs_tick, 7) {
            lemma_mul_inequality(0xfe612f8183b1ea21b72fb71b03542ae4int, ratio_after(abs_tick, 6) as int, 0xfe5dee046a99a2a811c461f1969c3053int);
            lemma_div_is_ordered(
                0xfe612f8183b1ea21b72fb71b03542ae4int * 0xfe5dee046a99a2a811c461f1969c3053int,
                ratio_after(abs_tick, 6) as int * 0xfe5dee046a99a2a811c461f1969c3053int,
                0x100000000000000000000000000000000int,
            );
        }
    }
    assert(ratio_after(abs_tick, 8) >= 0xf98ad8c8d7ecc0a3f8a42c9724cffb6anat) by {
        if tick_bit(abs_tick, 8) {
            lemma_mul_inequality(0xfcc1c2f380536bc67ee1ff564d1080b2int, ratio_after(abs_tick, 7) as int, 0xfcbe86c7900a88aedcffc83b479aa3a4int);
            lemma_div_is_ordered(
                0xfcc1c2f380536bc67ee1ff564d1080b2int * 0xfcbe86c7900a88aedcffc83b479aa3a4int,
                ratio_after(abs_tick, 7) as int * 0xfcbe86c7900a88aedcffc83b479aa3a4int,
                0x100000000000000000000000000000000int,
            );
        }
    }
    assert(ratio_after(abs_tick, 9) >= 0xf33c480189b415235ad119427d89a1f6nat) by {
        if tick_bit(abs_tick, 9) {
            lemma_mul_inequality(0xf98ad8c8d7ecc0a3f8a42c9724cffb6aint, ratio_after(abs_tick, 8) as int, 0xf987a7253ac413176f2b074cf7815e54int);
            lemma_div_is_ordered(
                0xf98ad8c8d7ecc0a3f8a42c9724cffb6aint * 0xf987a7253ac413176f2b074cf7815e54int,
                ratio_after(abs_tick, 8) as int * 0xf987a7253ac413176f2b074cf7815e54int,
                0x100000000000000000000000000000000int,
            );
        }
    }
    assert(ratio_after(abs_tick, 10) >= 0xe71889a85903fd03cb7cc40bdf371a9cnat) by {
        if tick_bit(abs_tick, 10) {
            lemma_mul_inequality(0xf33c480189b415235ad119427d89a1f6int, ratio_after(abs_tick, 9) as int, 0xf3392b0822b70005940c7a398e4b70f3int);
            lemma_div_is_ordered(
                0xf33c480189b415235ad119427d89a1f6int * 0xf3392b0822b70005940c7a398e4b70f3int,
                ratio_after(abs_tick, 9) as int * 0xf3392b0822b70005940c7a398e4b70f3int,
                0x100000000000000000000000000000000int,
            );
        }
    }
    assert(ratio_after(abs_tick, 11) >= 0xd09a9f3e93db5812d4820c2fc67a3e3anat) by {
        if tick_bit(abs_tick, 11) {
            lemma_mul_inequality(0xe71889a85903fd03cb7cc40bdf371a9cint, ratio_after(abs_tick, 10) as int, 0xe7159475a2c29b7443b29c7fa6e889d9int);
            lemma_div_is_ordered(
                0xe71889a85903fd03cb7cc40bdf371a9cint * 0xe7159475a2c29b7443b29c7fa6e889d9int,
                ratio_after(abs_tick, 10) as int * 0xe7159475a2c29b7443b29c7fa6e889d9int,
                0x100000000000000000000000000000000int,
            );
        }
    }
    assert(ratio_after(abs_tick, 12) >= 0xa9f973345b9e647c4163af91d00b255fnat) by {
        if tick_bit(abs_tick, 12) {
            lemma_mul_inequality(0xd09a9f3e93db5812d4820c2fc67a3e3aint, ratio_after(abs_tick, 11) as int, 0xd097f3bdfd2022b8845ad8f792aa5825int);
            lemma_div_is_ordered(
                0xd09a9f3e93db5812d4820c2fc67a3e3aint * 0xd097f3bdfd2022b8845ad8f792aa5825int,
                ratio_after(abs_tick, 11) as int * 0xd097f3bdfd2022b8845ad8f792aa5825int,
                0x100000000000000000000000000000000int,
            );
        }
    }
    assert(ratio_after(abs_tick, 13) >= 0x70d9db6485f04ddd567e07c7b89f8e7cnat) by {
        if tick_bit(abs_tick, 13) {
            lemma_mul_inequality(0xa9f973345b9e647c4163af91d00b255fint, ratio_after(abs_tick, 12) as int, 0xa9f746462d870fdf8a65dc1f90e061e5int);
            lemma_div_is_ordered(
                0xa9f973345b9e647c4163af91d00b255fint * 0xa9f746462d870fdf8a65dc1f90e061e5int,
                ratio_after(abs_tick, 12) as int * 0xa9f746462d870fdf8a65dc1f90e061e5int,
                0x100000000000000000000000000000000int,
            );
        }
    }
    assert(ratio_after(abs_tick, 14) >= 0x31beb65d91af63ae717a760be3b374dcnat) by {
        if tick_bit(abs_tick, 14) {
            lemma_mul_inequality(0x70d9db6485f04ddd567e07c7b89f8e7cint, ratio_after(abs_tick, 13) as int, 0x70d869a156d2a1b890bb3df62baf32f7int);
            lemma_div_is_ordered(
                0x70d9db6485f04ddd567e07c7b89f8e7cint * 0x70d869a156d2a1b890bb3df62baf32f7int,
                ratio_after(abs_tick, 13) as int * 0x70d869a156d2a1b890bb3df62baf32f7int,
                0x100000000000000000000000000000000int,
            );
        }
    }
    assert(ratio_after(abs_tick, 15) >= 0x9aa7036fd2355429c4030b032e1cf71nat) by {
        if tick_bit(abs_tick, 15) {
            lemma_mul_inequality(0x31beb65d91af63ae717a760be3b374dcint, ratio_after(abs_tick, 14) as int, 0x31be135f97d08fd981231505542fcfa6int);
            lemma_div_is_ordered(
                0x31beb65d91af63ae717a760be3b374dcint * 0x31be135f97d08fd981231505542fcfa6int,
                ratio_after(abs_tick, 14) as int * 0x31be135f97d08fd981231505542fcfa6int,
                0x100000000000000000000000000000000int,
            );
        }
    }
    assert(ratio_after(abs_tick, 16) >= 0x5d6c2af97aaa8de0e5a6bf23f5e547nat) by {
        if tick_bit(abs_tick, 16) {
            lemma_mul_inequality(0x9aa7036fd2355429c4030b032e1cf71int, ratio_after(abs_tick, 15) as int, 0x9aa508b5b7a84e1c677de54f3e99bc9int);
            lemma_div_is_ordered(
                0x9aa7036fd2355429c4030b032e1cf71int * 0x9aa508b5b7a84e1c677de54f3e99bc9int,
                ratio_after(abs_tick, 15) as int * 0x9aa508b5b7a84e1c677de54f3e99bc9int,
                0x100000000000000000000000000000000int,
            );
        }
    }
    assert(ratio_after(abs_tick, 17) >= 0x221755388a6658e120f4a3c503cfnat) by {
        if tick_bit(abs_tick, 17) {
            lemma_mul_inequality(0x5d6c2af97aaa8de0e5a6bf23f5e547int, ratio_after(abs_tick, 16) as int, 0x5d6af8dedb81196699c329225ee604int);
            lemma_div_is_ordered(
                0x5d6c2af97aaa8de0e5a6bf23f5e547int * 0x5d6af8dedb81196699c329225ee604int,
                ratio_after(abs_tick, 16) as int * 0x5d6af8dedb81196699c329225ee604int,
                0x100000000000000000000000000000000int,
            );
        }
    }
    assert(ratio_after(abs_tick, 18) >= 0x48a25e36942a4fc0c1f899fnat) by {
        if tick_bit(abs_tick, 18) {
            lemma_mul_inequality(0x221755388a6658e120f4a3c503cfint, ratio_after(abs_tick, 17) as int, 0x2216e584f5fa1ea926041bedfe98int);
            lemma_div_is_ordered(
                0x221755388a6658e120f4a3c503cfint * 0x2216e584f5fa1ea926041bedfe98int,
                ratio_after(abs_tick, 17) as int * 0x2216e584f5fa1ea926041bedfe98int,
                0x100000000000000000000000000000000int,
            );
        }
    }
    assert(ratio_after(abs_tick, 19) >= 0x149b7873d84d48nat) by {
        if tick_bit(abs_tick, 19) {
            lemma_mul_inequality(0x48a25e36942a4fc0c1f899fint, ratio_after(abs_tick, 18) as int, 0x48a170391f7dc42444e8fa2int);
            lemma_div_is_ordered(
                0x48a25e36942a4fc0c1f899fint * 0x48a170391f7dc42444e8fa2int,
                ratio_after(abs_tick, 18) as int * 0x48a170391f7dc42444e8fa2int,
                0x100000000000000000000000000000000int,
            );
        }
    }
}

/// The images of the extreme ticks are the extreme sqrt prices.
pub proof fn lemma_sqrt_price_boundaries()
    ensures
        spec_sqrt_price_at_tick(MIN_TICK as int) == min_sqrt_price_value(),
        spec_sqrt_price_at_tick(MAX_TICK as int) == max_sqrt_price_value(),
{
    lemma2_to64();
    assert(ratio_after(887272, 0) == 0x100000000000000000000000000000000nat);
    assert(ratio_after(887272, 1) == 0x100000000000000000000000000000000nat);
    assert(ratio_after(887272, 2) == 0x100000000000000000000000000000000nat);
    assert(ratio_after(887272, 3) == 0xffe5caca7e10e4e61c3624eaa0941cd0nat);
    assert(ratio_after(887272, 4) == 0xffe5caca7e10e4e61c3624eaa0941cd0nat);
    assert(ratio_after(887272, 5) == 0xff7d10c63a977157da4140deb6f31a7bnat);
    assert(ratio_after(887272, 6) == 0xfeac1d4052f7714818b490c1138ea058nat);
    assert(ratio_after(887272, 7) == 0xfd0c3654da9e033741d1a9f93707f6f6nat);
    assert(ratio_after(887272, 8) == 0xf9d459c5817dbafa9e376ae84dcfeb8bnat);
    assert(ratio_after(887272, 9) == 0xf9d459c5817dbafa9e376ae84dcfeb8bnat);
    assert(ratio_after(887272, 10) == 0xf9d459c5817dbafa9e376ae84dcfeb8bnat);
    assert(ratio_after(887272, 11) == 0xe183ac4e25d5949966242a64e9c80e2fnat);
    assert(ratio_after(887272, 12) == 0xe183ac4e25d5949966242a64e9c80e2fnat);
    assert(ratio_after(887272, 13) == 0xe183ac4e25d5949966242a64e9c80e2fnat);
    assert(ratio_after(887272, 14) == 0xe183ac4e25d5949966242a64e9c80e2fnat);
    assert(ratio_after(887272, 15) == 0x2bd1a4c5d2a1181aca1ef15e64c2e3cfnat);
    assert(ratio_after(887272, 16) == 0x1a785cbbdc050483e3be5812760be73nat);
    assert(ratio_after(887272, 17) == 0x1a785cbbdc050483e3be5812760be73nat);
    assert(ratio_after(887272, 18) == 0x3865a6455d07d2bc87c5956d2enat);
    assert(ratio_after(887272, 19) == 0x1000276a221a17501nat);
    assert(ratio_after(887272, 19) == 0x1000276a221a17501nat);
    assert(0xffffffffffffffffffffffffffffffffffffffffffffffffffffffffffffffffnat / 0x1000276a221a17501nat == 0xfffd8963efd1fc6a506488495d951d5263988d25fa78259anat);
}

/// The ceiling of `x / c` is the floor plus one exactly when `c` does not
/// divide `x`.
pub proof fn lemma_ceil_div(x: nat, c: nat)
    requires
        c > 0,
    ensures
        (x + c - 1) / (c as int) == x / c + (if x % c == 0 {
            0int
        } else {
            1int
        }),
{
    lemma_fundamental_div_mod(x as int, c as int);
    let q = x as int / c as int;
    let r = x as int % c as int;
    vstd::arithmetic::mul::lemma_mul_is_commutative(c as int, q);
    if r == 0 {
        lemma_fundamental_div_mod_converse(x + c - 1, c as int, q, c - 1);
    } else {
        vstd::arithmetic::mul::lemma_mul_is_distributive_add_other_way(c as int, q, 1);
        lemma_fundamental_div_mod_converse(x + c - 1, c as int, q + 1, r - 1);
    }
}

/// The floor and the ceiling of `a*b/c` bracket the exact quotient and
/// differ by at most one.
pub proof fn lemma_mul_div_properties(a: nat, b: nat, c: nat)
    requires
        c > 0,
    ensures
        (a * b) / c <= (a * b + c - 1) / (c as int),
        (a * b + c - 1) / (c as int) <= (a * b) / c + 1,
        ((a * b) / c) * c <= a * b,
        a * b < ((a * b) / c + 1) * c,
        (a * b) % c == 0 ==> (a * b + c - 1) / (c as int) == (a * b) / c,
        (a * b) % c != 0 ==> (a * b + c - 1) / (c as int) == (a * b) / c + 1,
{
    lemma_ceil_div((a * b) as nat, c);
    lemma_fundamental_div_mod((a * b) as int, c as int);
    vstd::arithmetic::mul::lemma_mul_is_distributive_add_other_way(
        c as int,
        ((a * b) / c) as int,
        1,
    );
}

/// Both `a*b/c` rounded down and rounded up: the double-width product is
/// formed first, so the multiplication cannot overflow.
pub fn mul_div(a: &U256, b: &U256, c: &U256) -> (r: (U256, U256))
    requires
        c@ > 0,
        (a@ * b@ + c@ - 1) / (c@ as int) < 0x10000000000000000000000000000000000000000000000000000000000000000int,
    ensures
        r.0@ == (a@ * b@) / c@,
        r.1@ == (a@ * b@ + c@ - 1) / (c@ as int),
{
    let p = full_mul(a, b);
    let (d, m) = div_mod(&p, &U512::from_u256(c));
    proof {
        lemma_ceil_div(a@ * b@, c@);
        lemma_div_is_ordered((a@ * b@) as int, a@ * b@ + c@ - 1, c@ as int);
        vstd::arithmetic::div_mod::lemma_mod_division_less_than_divisor(
            (a@ * b@) as int,
            c@ as int,
        );
    }
    let floor = d.low_u256();
    if m.is_zero() {
        (floor, floor)
    } else {
        let (ceil, _o) = floor.overflowing_add(&U256::one());
        (floor, ceil)
    }
}

/// `a*b/c` rounded down.
pub fn mul_div_floor(a: &U256, b: &U256, c: &U256) -> (r: U256)
    requires
        c@ > 0,
        (a@ * b@) / c@ < 0x10000000000000000000000000000000000000000000000000000000000000000nat,
    ensures
        r@ == (a@ * b@) / c@,
{
    let p = full_mul(a, b);
    let (d, _m) = div_mod(&p, &U512::from_u256(c));
    d.low_u256()
}

/// `a*b/c` rounded up.
pub fn mul_div_ceil(a: &U256, b: &U256, c: &U256) -> (r: U256)
    requires
        c@ > 0,
        (a@ * b@ + c@ - 1) / (c@ as int) < 0x10000000000000000000000000000000000000000000000000000000000000000int,
    ensures
        r@ == (a@ * b@ + c@ - 1) / (c@ as int),
{
    let (_floor, ceil) = mul_div(a, b, c);
    ceil
}

/// Square a sqrt price and rescale from 2*96 to 128 fractional bits.
///
/// The result is never zero for a valid input: the smallest valid sqrt price
/// exceeds 2^32, so its square exceeds the 2^64 divisor.
pub fn sqrt_price_to_price(sqrt_price: SqrtPriceQ64F96) -> (r: Price)
    requires
        spec_is_sqrt_price_valid(sqrt_price@),
    ensures
        r@ == (sqrt_price@ * sqrt_price@) / 0x10000000000000000,
        r@ > 0,
{
    proof {
        lemma_mul_upper_bound(sqrt_price@ as int, 0xfffd8963efd1fc6a506488495d951d5263988d26int, sqrt_price@ as int, 0xfffd8963efd1fc6a506488495d951d5263988d26int);
        lemma_multiply_divide_lt((sqrt_price@ * sqrt_price@) as int, 0x10000000000000000int, 0x10000000000000000000000000000000000000000000000000000000000000000int);
        lemma_mul_inequality(4295128739int, sqrt_price@ as int, 4295128739int);
        lemma_mul_inequality(4295128739int, sqrt_price@ as int, sqrt_price@ as int);
        assert(sqrt_price@ * sqrt_price@ >= 4295128739nat * 4295128739nat);
        lemma_div_is_ordered((4295128739nat * 4295128739nat) as int, (sqrt_price@ * sqrt_price@) as int, 0x10000000000000000int);
        assert((4295128739nat * 4295128739nat) / 0x10000000000000000 >= 1);
    }
    mul_div_floor(&sqrt_price, &sqrt_price, &U256::from_u128(0x10000000000000000))
}

/// One fractional bit of the base-2 logarithm: square the normalized
/// mantissa; the squared value's 129th bit is the next bit of the logarithm.
fn log2_fraction_step(m: u128) -> (r: (u128, bool))
    requires
        m >= 0x80000000000000000000000000000000,
    ensures
        r.0 >= 0x80000000000000000000000000000000,
{
    let sq = full_mul(&U256::from_u128(m), &U256::from_u128(m));
    let sh = shr512(&sq, 127);
    proof {
        lemma2_to64();
        lemma2_to64_rest();
        lemma_pow2_adds(64, 63);
        assert(pow2(127) == 0x80000000000000000000000000000000nat);
        lemma_mul_inequality(0x80000000000000000000000000000000int, m as int, 0x80000000000000000000000000000000int);
        lemma_mul_inequality(0x80000000000000000000000000000000int, m as int, m as int);
        vstd::arithmetic::mul::lemma_mul_is_commutative(m as int, 0x80000000000000000000000000000000int);
        assert(m as nat * m as nat >= 0x4000000000000000000000000000000000000000000000000000000000000000nat);
        lemma_div_is_ordered(0x4000000000000000000000000000000000000000000000000000000000000000int, (m as nat * m as nat) as int, 0x80000000000000000000000000000000int);
        assert(sh@ >= 0x80000000000000000000000000000000nat);
        lemma_mul_upper_bound(m as int, 0x100000000000000000000000000000000int - 1, m as int, 0x100000000000000000000000000000000int - 1);
        lemma_multiply_divide_lt((m as nat * m as nat) as int, 0x80000000000000000000000000000000int, 0x200000000000000000000000000000000int);
        assert(sh@ < 0x200000000000000000000000000000000nat);
        if sh.high_half() != 0 {
            assert(sh.high_half() * 0x10000000000000000000000000000000000000000000000000000000000000000nat >= 0x10000000000000000000000000000000000000000000000000000000000000000nat);
        }
        if sh.w3 != 0 {
            assert(sh.w3 as nat * 0x1000000000000000000000000000000000000000000000000nat >= 0x1000000000000000000000000000000000000000000000000nat);
        }
        assert(sh.w3 == 0 && sh.high_half() == 0 && sh.w2 <= 1);
    }
    if sh.w2 == 1 {
        let sh2 = shr512(&sh, 1);
        proof {
            lemma2_to64();
            assert(sh@ >= 0x100000000000000000000000000000000nat);
            lemma_div_is_ordered(0x100000000000000000000000000000000int, sh@ as int, 2);
            lemma_multiply_divide_lt(sh@ as int, 2, 0x100000000000000000000000000000000int);
        }
        (sh2.low_u128(), true)
    } else {
        proof {
            assert(sh@ < 0x100000000000000000000000000000000nat);
        }
        (sh.low_u128(), false)
    }
}

/// The index of the most significant set bit of a nonzero 64-bit value.
fn msb64(v: u64) -> (k: u32)
    requires
        v >= 1,
    ensures
        k < 64,
        pow2(k as nat) <= v as nat,
        (v as nat) < pow2((k + 1) as nat),
{
    let mut k: u32 = 0;
    let mut m: u64 = v;
    proof {
        lemma2_to64();
        lemma2_to64_rest();
        vstd::arithmetic::power2::lemma_pow2_pos(0);
    }
    while m >= 2
        invariant
            1 <= m,
            k < 64,
            m as nat == v as nat / pow2(k as nat),
        decreases m,
    {
        proof {
            lemma2_to64();
            lemma2_to64_rest();
            vstd::arithmetic::power2::lemma_pow2_pos(k as nat);
            lemma_pow2_adds(k as nat, 1);
            vstd::arithmetic::div_mod::lemma_div_denominator(
                v as int,
                pow2(k as nat) as int,
                2,
            );
            if k >= 63 {
                assert(pow2(63) == 0x8000000000000000);
                lemma_div_is_ordered(v as int, 0xffffffffffffffffint, 0x8000000000000000int);
            }
        }
        m = m / 2;
        k = k + 1;
    }
    proof {
        vstd::arithmetic::power2::lemma_pow2_pos(k as nat);
        lemma_fundamental_div_mod(v as int, pow2(k as nat) as int);
        vstd::arithmetic::div_mod::lemma_mod_division_less_than_divisor(
            v as int,
            pow2(k as nat) as int,
        );
        lemma_pow2_adds(k as nat, 1);
        lemma2_to64();
    }
    k
}

/// The index of the most significant set bit of a nonzero 256-bit value.
fn msb256(x: &U256) -> (k: u32)
    requires
        x@ >= 1,
    ensures
        k < 256,
        pow2(k as nat) <= x@,
        x@ < pow2((k + 1) as nat),
{
    proof {
        lemma2_to64();
        lemma_pow2_adds(64, 64);
        lemma_pow2_adds(128, 64);
    }
    if x.w3 != 0 {
        let k3 = msb64(x.w3);
        proof {
            lemma_pow2_adds(k3 as nat, 192);
            lemma_pow2_adds((k3 + 1) as nat, 192);
            lemma_mul_inequality(pow2(k3 as nat) as int, x.w3 as int, 0x1000000000000000000000000000000000000000000000000int);
            lemma_mul_inequality(x.w3 as int + 1, pow2((k3 + 1) as nat) as int, 0x1000000000000000000000000000000000000000000000000int);
            assert(x@ < (x.w3 as nat + 1) * 0x1000000000000000000000000000000000000000000000000nat);
        }
        192 + k3
    } else if x.w2 != 0 {
        let k2 = msb64(x.w2);
        proof {
            lemma_pow2_adds(k2 as nat, 128);
            lemma_pow2_adds((k2 + 1) as nat, 128);
            lemma_mul_inequality(pow2(k2 as nat) as int, x.w2 as int, 0x100000000000000000000000000000000int);
            lemma_mul_inequality(x.w2 as int + 1, pow2((k2 + 1) as nat) as int, 0x100000000000000000000000000000000int);
            assert(x@ < (x.w2 as nat + 1) * 0x100000000000000000000000000000000nat);
        }
        128 + k2
    } else if x.w1 != 0 {
        let k1 = msb64(x.w1);
        proof {
            lemma_pow2_adds(k1 as nat, 64);
            lemma_pow2_adds((k1 + 1) as nat, 64);
            lemma_mul_inequality(pow2(k1 as nat) as int, x.w1 as int, 0x10000000000000000int);
            lemma_mul_inequality(x.w1 as int + 1, pow2((k1 + 1) as nat) as int, 0x10000000000000000int);
            assert(x@ < (x.w1 as nat + 1) * 0x10000000000000000);
        }
        64 + k1
    } else {
        msb64(x.w0)
    }
}

/// The most significant bit index and the mantissa normalized to
/// `[2^127, 2^128)`.
fn normalize_mantissa(x: &U256) -> (r: (u32, u128))
    requires
        1 <= x@,
    ensures
        r.0 < 256,
        r.1 >= 0x80000000000000000000000000000000,
{
    let k = msb256(x);
    proof {
        lemma2_to64();
        lemma2_to64_rest();
        lemma_pow2_adds(64, 63);
        lemma_pow2_adds(64, 64);
        assert(pow2(127) == 0x80000000000000000000000000000000nat);
        assert(pow2(128) == 0x100000000000000000000000000000000nat);
    }
    let mant: u128 = if k >= 128 {
        let sh = shr256(x, k - 127);
        proof {
            vstd::arithmetic::power2::lemma_pow2_pos((k - 127) as nat);
            lemma_pow2_adds((k - 127) as nat, 128);
            lemma_multiply_divide_lt(x@ as int, pow2((k - 127) as nat) as int, 0x100000000000000000000000000000000int);
            lemma_div_is_ordered(pow2(k as nat) as int, x@ as int, pow2((k - 127) as nat) as int);
            vstd::arithmetic::power2::lemma_pow2_subtracts((k - 127) as nat, k as nat);
        }
        sh.low_u128()
    } else {
        let sh = shl256(x, 127 - k);
        proof {
            vstd::arithmetic::power2::lemma_pow2_pos((127 - k) as nat);
            lemma_pow2_adds((k + 1) as nat, (127 - k) as nat);
            vstd::arithmetic::mul::lemma_mul_strict_inequality(
                x@ as int,
                pow2((k + 1) as nat) as int,
                pow2((127 - k) as nat) as int,
            );
            vstd::arithmetic::mul::lemma_mul_is_commutative(
                pow2((k + 1) as nat) as int,
                pow2((127 - k) as nat) as int,
            );
            lemma_mul_inequality(pow2(k as nat) as int, x@ as int, pow2((127 - k) as nat) as int);
            vstd::arithmetic::mul::lemma_mul_is_commutative(
                pow2(k as nat) as int,
                pow2((127 - k) as nat) as int,
            );
            lemma_pow2_adds(k as nat, (127 - k) as nat);
            vstd::arithmetic::div_mod::lemma_small_mod(
                (x@ * pow2((127 - k) as nat)) as nat,
                0x10000000000000000000000000000000000000000000000000000000000000000nat,
            );
        }
        sh.low_u128()
    };
    (k, mant)
}

/// A coarse base-2 logarithm of a Q64.128 value, as a sign and a Q63.64
/// magnitude with 14 fractional bits: enough that the tick estimate errs by
/// at most one.
#[verifier::rlimit(100)]
fn log2_q63f64(x: &U256) -> (r: (bool, u128))
    requires
        1 <= x@,
    ensures
        r.1 <= 0x800000000000000000,
{
    let (k, mant) = normalize_mantissa(x);
    let mut m: u128 = mant;
    let mut frac: u64 = 0;
    let mut bit: u64 = 0x8000000000000000;
    let mut idx: u32 = 0;
    proof {
        lemma2_to64();
        lemma2_to64_rest();
    }
    while idx < 14
        invariant
            idx <= 14,
            m >= 0x80000000000000000000000000000000,
            bit as nat == pow2((63 - idx) as nat),
            frac as nat + 2 * bit as nat <= 0x10000000000000000,
        decreases 14 - idx,
    {
        let (m2, big) = log2_fraction_step(m);
        m = m2;
        if big {
            frac = frac + bit;
        }
        proof {
            vstd::arithmetic::power2::lemma_pow2_adds((62 - idx) as nat, 1);
            lemma2_to64();
        }
        bit = bit / 2;
        idx = idx + 1;
    }
    if k >= 128 {
        let il2: u128 = (k - 128) as u128;
        (false, il2 * 0x10000000000000000 + frac as u128)
    } else {
        let il2: u128 = (128 - k) as u128;
        (true, il2 * 0x10000000000000000 - frac as u128)
    }
}

/// The greatest tick whose sqrt price does not exceed the argument.
///
/// The estimate from the logarithm is corrected by direct comparison with
/// `sqrt_price_at_tick`, so the result provably satisfies the floor
/// characterization whatever the estimate's error.
pub fn tick_at_sqrt_price(sqrt_price: SqrtPriceQ64F96) -> (t: Tick)
    requires
        spec_is_sqrt_price_valid(sqrt_price@),
    ensures
        spec_is_tick_valid(t as int),
        spec_sqrt_price_at_tick(t as int) <= sqrt_price@,
        t < MAX_TICK ==> sqrt_price@ < spec_sqrt_price_at_tick(t as int + 1),
{
    let xq = shl256(&sqrt_price, 32);
    proof {
        lemma2_to64();
        assert(pow2(32) == 0x100000000);
        lemma_mul_inequality(sqrt_price@ as int, 0xfffd8963efd1fc6a506488495d951d5263988d26int, 0x100000000int);
        vstd::arithmetic::div_mod::lemma_small_mod((sqrt_price@ * 0x100000000) as nat, 0x10000000000000000000000000000000000000000000000000000000000000000nat);
        lemma_mul_inequality(1, sqrt_price@ as int, 0x100000000int);
    }
    let (neg, mag) = log2_q63f64(&xq);
    let e1: u128 = mag / 16384;
    let e2: u128 = e1 * 930372912988;
    let e3: u128 = e2 / 75557863725914323419136;
    let est: i32 = if e3 > 887272 {
        887272
    } else {
        e3 as i32
    };
    let mut t: Tick = if neg {
        -est
    } else {
        est
    };
    loop
        invariant
            MIN_TICK <= t <= MAX_TICK,
            spec_is_sqrt_price_valid(sqrt_price@),
        ensures
            MIN_TICK <= t <= MAX_TICK,
            spec_sqrt_price_at_tick(t as int) <= sqrt_price@,
        decreases t - MIN_TICK,
    {
        let cur = sqrt_price_at_tick(t);
        if cur.le(&sqrt_price) {
            break;
        }
        proof {
            lemma_sqrt_price_boundaries();
            assert(t > MIN_TICK);
        }
        t = t - 1;
    }
    loop
        invariant
            MIN_TICK <= t <= MAX_TICK,
            spec_sqrt_price_at_tick(t as int) <= sqrt_price@,
            spec_is_sqrt_price_valid(sqrt_price@),
        ensures
            MIN_TICK <= t <= MAX_TICK,
            spec_sqrt_price_at_tick(t as int) <= sqrt_price@,
            t == MAX_TICK || sqrt_price@ < spec_sqrt_price_at_tick(t as int + 1),
        decreases MAX_TICK - t,
    {
        if t == MAX_TICK {
            break;
        }
        let nxt = sqrt_price_at_tick(t + 1);
        if !nxt.le(&sqrt_price) {
            break;
        }
        t = t + 1;
    }
    t
}

} // verus!
