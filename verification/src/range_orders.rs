//! The concentrated-liquidity ("range order") engine: positions provide
//! liquidity over a tick range, and the pool price moves continuously through
//! them as swaps execute.
//!
//! Positions store the sqrt prices of both bounds, validated at mint, so the
//! swap math only ever sees prices known to be in range.

use vstd::prelude::*;

verus! {

use crate::common::LiquidityProvider;
use crate::common::Pairs;
use crate::common::PoolPairsMap;
use crate::math::Amount;
use crate::math::SqrtPriceQ64F96;
use crate::math::Tick;
use crate::math::is_tick_valid;
use crate::math::is_sqrt_price_valid;
use crate::math::min_sqrt_price;
use crate::math::max_sqrt_price;
use crate::math::min_sqrt_price_value;
use crate::math::max_sqrt_price_value;
use crate::math::spec_is_tick_valid;
use crate::math::spec_is_sqrt_price_valid;
use crate::math::spec_sqrt_price_at_tick;
use crate::math::sqrt_price_at_tick;
use crate::math::mul_div_floor;
use crate::math::mul_div_ceil;
use crate::math::lemma_ceil_div;
use crate::uint256::U256;
use crate::uint256::U512;
use crate::uint256::full_mul;
use crate::uint256::div_mod;
use crate::uint256::shl256;
use crate::uint256::lemma_u256_bound;
use crate::MAX_LP_FEE;
use vstd::arithmetic::mul::lemma_mul_inequality;
use vstd::arithmetic::mul::lemma_mul_upper_bound;
use vstd::arithmetic::mul::lemma_mul_strictly_positive;
use vstd::arithmetic::mul::lemma_mul_is_commutative;
use vstd::arithmetic::div_mod::lemma_multiply_divide_lt;
use vstd::arithmetic::div_mod::lemma_div_is_ordered;
use vstd::arithmetic::div_mod::lemma_div_is_ordered_by_denominator;
use vstd::arithmetic::div_mod::lemma_div_nonincreasing;
use vstd::arithmetic::div_mod::lemma_div_denominator;
use vstd::arithmetic::div_mod::lemma_div_multiples_vanish;
use vstd::arithmetic::div_mod::lemma_fundamental_div_mod;
use vstd::arithmetic::power2::lemma2_to64;
use vstd::arithmetic::power2::lemma_pow2_adds;

/// The unit of liquidity provided over a range.
pub type Liquidity = u128;

/// Why a pool could not be built.
#[derive(Clone, Copy, Debug, PartialEq, Eq, Structural)]
pub enum NewError {
    InvalidFeeAmount,
    InvalidInitialPrice,
}

/// Why a position could not be minted: a bad size, or the caller's debit
/// callback refused the owed amounts.
#[derive(Clone, Copy, Debug, PartialEq, Eq)]
pub enum MintError<E> {
    InvalidLiquidity,
    CallbackFailed(E),
}

/// A position-level failure: the tick range is unusable, or an inner error.
#[derive(Clone, Copy, Debug, PartialEq, Eq)]
pub enum PositionError<E> {
    InvalidTickRange,
    Other(E),
}

/// Fees accrued by a position when it is collected. This engine does not
/// model fee growth, so both amounts are always zero.
#[derive(Clone, Copy, Debug, PartialEq, Eq)]
pub struct Collected {
    pub fees: PoolPairsMap<Amount>,
}

/// The state of a position after a mint.
#[derive(Clone, Copy, Debug, PartialEq, Eq, Structural)]
pub struct PositionInfo {
    pub liquidity: Liquidity,
}

/// How a minted order is sized.
#[derive(Clone, Copy, Debug, PartialEq, Eq, Structural)]
pub enum Size {
    Liquidity { liquidity: Liquidity },
}

/// One range order: `liquidity` active between the two ticks.
#[derive(Clone, Copy, Debug, PartialEq, Eq, Structural)]
pub struct Position {
    pub lp: LiquidityProvider,
    pub lower_tick: Tick,
    pub upper_tick: Tick,
    pub lower_sqrt: SqrtPriceQ64F96,
    pub upper_sqrt: SqrtPriceQ64F96,
    pub liquidity: Liquidity,
}

impl Position {
    pub open spec fn valid(self) -> bool {
        &&& spec_is_tick_valid(self.lower_tick as int)
        &&& spec_is_tick_valid(self.upper_tick as int)
        &&& self.lower_tick < self.upper_tick
        &&& self.lower_sqrt@ == spec_sqrt_price_at_tick(self.lower_tick as int)
        &&& self.upper_sqrt@ == spec_sqrt_price_at_tick(self.upper_tick as int)
        &&& spec_is_sqrt_price_valid(self.lower_sqrt@)
        &&& spec_is_sqrt_price_valid(self.upper_sqrt@)
        &&& self.lower_sqrt@ < self.upper_sqrt@
        &&& 1 <= self.liquidity
    }
}

pub open spec fn valid_positions(s: Seq<Position>) -> bool {
    forall|i: int| 0 <= i < s.len() ==> (#[trigger] s[i]).valid()
}

/// Some position's range begins strictly below `cur`: a falling price meets
/// liquidity before running out.
pub open spec fn has_reach_below(s: Seq<Position>, cur: nat) -> bool {
    exists|i: int| 0 <= i < s.len() && (#[trigger] s[i]).lower_sqrt@ < cur
}

/// Some position is active at `cur` on the way down.
pub open spec fn has_active_below(s: Seq<Position>, cur: nat) -> bool {
    exists|i: int|
        0 <= i < s.len() && (#[trigger] s[i]).lower_sqrt@ < cur && cur <= s[i].upper_sqrt@
}

/// Some position's range ends strictly above `cur`: a rising price meets
/// liquidity before running out.
pub open spec fn has_reach_above(s: Seq<Position>, cur: nat) -> bool {
    exists|i: int| 0 <= i < s.len() && (#[trigger] s[i]).upper_sqrt@ > cur
}

/// Some position is active at `cur` on the way up.
pub open spec fn has_active_above(s: Seq<Position>, cur: nat) -> bool {
    exists|i: int|
        0 <= i < s.len() && (#[trigger] s[i]).upper_sqrt@ > cur && s[i].lower_sqrt@ <= cur
}

/// The price at which a falling swap next interacts with a position whose
/// range begins below `cur`: its lower bound if it is active, else its upper.
pub open spec fn below_candidate(p: Position, cur: nat) -> nat {
    if cur <= p.upper_sqrt@ {
        p.lower_sqrt@
    } else {
        p.upper_sqrt@
    }
}

/// As `below_candidate`, for a rising swap.
pub open spec fn above_candidate(p: Position, cur: nat) -> nat {
    if p.lower_sqrt@ <= cur {
        p.upper_sqrt@
    } else {
        p.lower_sqrt@
    }
}

/// A mint request the engine itself accepts: the ticks, their prices, and
/// the liquidity are all usable. Only the debit callback can refuse it.
pub open spec fn mint_range_acceptable(lower: int, upper: int, size: Size) -> bool {
    &&& spec_is_tick_valid(lower)
    &&& spec_is_tick_valid(upper)
    &&& lower < upper
    &&& size->Liquidity_liquidity >= 1
    &&& spec_is_sqrt_price_valid(spec_sqrt_price_at_tick(lower))
    &&& spec_is_sqrt_price_valid(spec_sqrt_price_at_tick(upper))
    &&& spec_sqrt_price_at_tick(lower) < spec_sqrt_price_at_tick(upper)
}

/// The current price clamped into a range.
pub open spec fn clamped_price(cur: nat, ls: nat, us: nat) -> nat {
    if cur < ls {
        ls
    } else if us < cur {
        us
    } else {
        cur
    }
}

/// The Base a mint debits: `liq * 2^96 * (upper - cp) / (upper * cp)`
/// rounded up, at the clamped current price `cp`.
pub open spec fn mint_base_owed(liq: nat, cur: nat, ls: nat, us: nat) -> nat {
    let cp = clamped_price(cur, ls, us);
    ((liq * 0x1000000000000000000000000nat * (us - cp) + us * cp - 1) / (us * cp) as int) as nat
}

/// The Quote a mint debits: `liq * (cp - lower) / 2^96` rounded up.
pub open spec fn mint_quote_owed(liq: nat, cur: nat, ls: nat, us: nat) -> nat {
    let cp = clamped_price(cur, ls, us);
    ((liq * (cp - ls) + 0x1000000000000000000000000nat - 1) / 0x1000000000000000000000000int) as nat
}

/// The range-order pool: the current sqrt price and the open positions.
#[derive(Clone, Debug)]
pub struct PoolState {
    pub fee_hundredth_pips: u32,
    pub current_sqrt_price: SqrtPriceQ64F96,
    pub positions: Vec<Position>,
}

impl PoolState {
    pub open spec fn wf(self) -> bool {
        &&& self.fee_hundredth_pips <= MAX_LP_FEE
        &&& spec_is_sqrt_price_valid(self.current_sqrt_price@)
        &&& valid_positions(self.positions@)
    }

    /// A fee is valid when it does not exceed half of one unit.
    pub fn validate_fees(fee_hundredth_pips: u32) -> (r: bool)
        ensures
            r == (fee_hundredth_pips <= MAX_LP_FEE),
    {
        fee_hundredth_pips <= MAX_LP_FEE
    }

    /// An empty pool at `initial_sqrt_price`; fails exactly when the fee is
    /// over the cap or the price is out of range.
    pub fn new(fee_hundredth_pips: u32, initial_sqrt_price: SqrtPriceQ64F96) -> (r: Result<
        Self,
        NewError,
    >)
        ensures
            r is Ok <==> (fee_hundredth_pips <= MAX_LP_FEE && spec_is_sqrt_price_valid(
                initial_sqrt_price@,
            )),
            r is Ok ==> r->Ok_0.wf() && r->Ok_0.fee_hundredth_pips == fee_hundredth_pips
                && r->Ok_0.current_sqrt_price == initial_sqrt_price && r->Ok_0.positions@.len()
                == 0,
    {
        if fee_hundredth_pips > MAX_LP_FEE {
            return Err(NewError::InvalidFeeAmount);
        }
        if !is_sqrt_price_valid(&initial_sqrt_price) {
            return Err(NewError::InvalidInitialPrice);
        }
        Ok(PoolState { fee_hundredth_pips, current_sqrt_price: initial_sqrt_price, positions: Vec::new() })
    }

    /// The price the next unit would trade at in direction `SD`: the current
    /// price if liquidity is active there, else the nearest price ahead where
    /// liquidity resumes; `None` when no liquidity lies ahead at all.
    pub fn current_sqrt_price<SD: crate::common::SwapDirection>(&self) -> (r: Option<
        SqrtPriceQ64F96,
    >)
        requires
            self.wf(),
        ensures
            r is Some ==> spec_is_sqrt_price_valid(r->Some_0@),
            self.positions@.len() == 0 ==> r is None,
            SD::spec_input_side() == Pairs::Base ==> (r is Some <==> has_reach_below(
                self.positions@,
                self.current_sqrt_price@,
            )),
            SD::spec_input_side() == Pairs::Quote ==> (r is Some <==> has_reach_above(
                self.positions@,
                self.current_sqrt_price@,
            )),
            SD::spec_input_side() == Pairs::Base && has_active_below(
                self.positions@,
                self.current_sqrt_price@,
            ) ==> r == Some(self.current_sqrt_price),
            SD::spec_input_side() == Pairs::Quote && has_active_above(
                self.positions@,
                self.current_sqrt_price@,
            ) ==> r == Some(self.current_sqrt_price),
            SD::spec_input_side() == Pairs::Base && r is Some && !has_active_below(
                self.positions@,
                self.current_sqrt_price@,
            ) ==> has_active_below(self.positions@, r->Some_0@) && r->Some_0@
                < self.current_sqrt_price@,
            SD::spec_input_side() == Pairs::Quote && r is Some && !has_active_above(
                self.positions@,
                self.current_sqrt_price@,
            ) ==> has_active_above(self.positions@, r->Some_0@) && r->Some_0@
                > self.current_sqrt_price@,
            SD::spec_input_side() == Pairs::Base && r is Some && !has_active_below(
                self.positions@,
                self.current_sqrt_price@,
            ) ==> forall|k: int|
                0 <= k < self.positions@.len() && (#[trigger] self.positions@[k]).lower_sqrt@
                    < self.current_sqrt_price@ ==> below_candidate(
                    self.positions@[k],
                    self.current_sqrt_price@,
                ) <= r->Some_0@,
            SD::spec_input_side() == Pairs::Quote && r is Some && !has_active_above(
                self.positions@,
                self.current_sqrt_price@,
            ) ==> forall|k: int|
                0 <= k < self.positions@.len() && (#[trigger] self.positions@[k]).upper_sqrt@
                    > self.current_sqrt_price@ ==> above_candidate(
                    self.positions@[k],
                    self.current_sqrt_price@,
                ) >= r->Some_0@,
    {
        match SD::input_side() {
            Pairs::Base => {
                let (liq, boundary) = self.seg_below();
                if liq > 0 {
                    Some(self.current_sqrt_price)
                } else {
                    match boundary {
                        Some(b) => Some(b),
                        None => None,
                    }
                }
            },
            Pairs::Quote => {
                let (liq, boundary) = self.seg_above();
                if liq > 0 {
                    Some(self.current_sqrt_price)
                } else {
                    match boundary {
                        Some(b) => Some(b),
                        None => None,
                    }
                }
            },
        }
    }

    /// The liquidity active just below the current price, and the nearest
    /// position boundary strictly below it.
    fn seg_below(&self) -> (r: (u128, Option<SqrtPriceQ64F96>))
        requires
            self.wf(),
        ensures
            r.1 is Some ==> spec_is_sqrt_price_valid(r.1->Some_0@) && r.1->Some_0@
                < self.current_sqrt_price@,
            r.1 is Some <==> has_reach_below(self.positions@, self.current_sqrt_price@),
            r.0 > 0 <==> has_active_below(self.positions@, self.current_sqrt_price@),
            self.positions@.len() == 0 ==> r.0 == 0 && r.1 is None,
            r.0 == 0 && r.1 is Some ==> has_active_below(self.positions@, r.1->Some_0@),
            r.1 is Some ==> forall|k: int|
                0 <= k < self.positions@.len() && (#[trigger] self.positions@[k]).lower_sqrt@
                    < self.current_sqrt_price@ ==> below_candidate(
                    self.positions@[k],
                    self.current_sqrt_price@,
                ) <= r.1->Some_0@,
    {
        let cur = self.current_sqrt_price;
        let mut liq: u128 = 0;
        let mut boundary: Option<SqrtPriceQ64F96> = None;
        let mut j: usize = 0;
        while j < self.positions.len()
            invariant
                j <= self.positions@.len(),
                valid_positions(self.positions@),
                cur == self.current_sqrt_price,
                boundary is Some ==> spec_is_sqrt_price_valid(boundary->Some_0@)
                    && boundary->Some_0@ < cur@,
                boundary is None ==> forall|k: int|
                    0 <= k < j ==> !((#[trigger] self.positions@[k]).lower_sqrt@ < cur@),
                boundary is Some ==> has_reach_below(self.positions@, cur@),
                liq == 0 ==> forall|k: int|
                    0 <= k < j ==> !((#[trigger] self.positions@[k]).lower_sqrt@ < cur@ && cur@
                        <= self.positions@[k].upper_sqrt@),
                liq > 0 ==> has_active_below(self.positions@, cur@),
                liq == 0 && boundary is Some ==> has_active_below(
                    self.positions@,
                    boundary->Some_0@,
                ),
                boundary is Some ==> forall|k: int|
                    0 <= k < j && (#[trigger] self.positions@[k]).lower_sqrt@ < cur@
                        ==> below_candidate(self.positions@[k], cur@) <= boundary->Some_0@,
            decreases self.positions@.len() - j,
        {
            let p = &self.positions[j];
            if p.lower_sqrt.lt(&cur) {
                let active = cur.le(&p.upper_sqrt);
                if active {
                    liq = if liq <= u128::MAX - p.liquidity {
                        liq + p.liquidity
                    } else {
                        u128::MAX
                    };
                }
                let cand = if active {
                    p.lower_sqrt
                } else {
                    p.upper_sqrt
                };
                boundary = match boundary {
                    None => Some(cand),
                    Some(b) => {
                        if b.lt(&cand) {
                            Some(cand)
                        } else {
                            Some(b)
                        }
                    },
                };
            }
            j = j + 1;
        }
        (liq, boundary)
    }

    /// The liquidity active just above the current price, and the nearest
    /// position boundary strictly above it.
    fn seg_above(&self) -> (r: (u128, Option<SqrtPriceQ64F96>))
        requires
            self.wf(),
        ensures
            r.1 is Some ==> spec_is_sqrt_price_valid(r.1->Some_0@) && r.1->Some_0@
                > self.current_sqrt_price@,
            r.1 is Some <==> has_reach_above(self.positions@, self.current_sqrt_price@),
            r.0 > 0 <==> has_active_above(self.positions@, self.current_sqrt_price@),
            self.positions@.len() == 0 ==> r.0 == 0 && r.1 is None,
            r.0 == 0 && r.1 is Some ==> has_active_above(self.positions@, r.1->Some_0@),
            r.1 is Some ==> forall|k: int|
                0 <= k < self.positions@.len() && (#[trigger] self.positions@[k]).upper_sqrt@
                    > self.current_sqrt_price@ ==> above_candidate(
                    self.positions@[k],
                    self.current_sqrt_price@,
                ) >= r.1->Some_0@,
    {
        let cur = self.current_sqrt_price;
        let mut liq: u128 = 0;
        let mut boundary: Option<SqrtPriceQ64F96> = None;
        let mut j: usize = 0;
        while j < self.positions.len()
            invariant
                j <= self.positions@.len(),
                valid_positions(self.positions@),
                cur == self.current_sqrt_price,
                boundary is Some ==> spec_is_sqrt_price_valid(boundary->Some_0@)
                    && boundary->Some_0@ > cur@,
                boundary is None ==> forall|k: int|
                    0 <= k < j ==> !((#[trigger] self.positions@[k]).upper_sqrt@ > cur@),
                boundary is Some ==> has_reach_above(self.positions@, cur@),
                liq == 0 ==> forall|k: int|
                    0 <= k < j ==> !((#[trigger] self.positions@[k]).upper_sqrt@ > cur@
                        && self.positions@[k].lower_sqrt@ <= cur@),
                liq > 0 ==> has_active_above(self.positions@, cur@),
                liq == 0 && boundary is Some ==> has_active_above(
                    self.positions@,
                    boundary->Some_0@,
                ),
                boundary is Some ==> forall|k: int|
                    0 <= k < j && (#[trigger] self.positions@[k]).upper_sqrt@ > cur@
                        ==> above_candidate(self.positions@[k], cur@) >= boundary->Some_0@,
            decreases self.positions@.len() - j,
        {
            let p = &self.positions[j];
            if cur.lt(&p.upper_sqrt) {
                let active = p.lower_sqrt.le(&cur);
                if active {
                    liq = if liq <= u128::MAX - p.liquidity {
                        liq + p.liquidity
                    } else {
                        u128::MAX
                    };
                }
                let cand = if active {
                    p.upper_sqrt
                } else {
                    p.lower_sqrt
                };
                boundary = match boundary {
                    None => Some(cand),
                    Some(b) => {
                        if cand.lt(&b) {
                            Some(cand)
                        } else {
                            Some(b)
                        }
                    },
                };
            }
            j = j + 1;
        }
        (liq, boundary)
    }

    /// Sell up to `amount` in direction `SD` without moving the price past
    /// `sqrt_price_limit` (the direction's worst price when absent). Returns
    /// the bought amount and the unsold remainder.
    pub fn swap<SD: crate::common::SwapDirection>(
        &mut self,
        amount: Amount,
        sqrt_price_limit: Option<SqrtPriceQ64F96>,
    ) -> (r: (Amount, Amount))
        requires
            old(self).wf(),
        ensures
            final(self).wf(),
            final(self).fee_hundredth_pips == old(self).fee_hundredth_pips,
            final(self).positions@ == old(self).positions@,
            r.1@ <= amount@,
            amount@ == 0 ==> r.0@ == 0 && r.1@ == 0,
            final(self).current_sqrt_price == old(self).current_sqrt_price || (
            SD::spec_more_unfavorable(
                final(self).current_sqrt_price@,
                old(self).current_sqrt_price@,
            ) && !SD::spec_more_unfavorable(
                final(self).current_sqrt_price@,
                match sqrt_price_limit {
                    Some(l) => l@,
                    None => SD::spec_worst_sqrt_price(),
                },
            )),
            r.1@ < amount@ ==> (SD::spec_input_side() == Pairs::Base ==> has_reach_below(
                old(self).positions@,
                old(self).current_sqrt_price@,
            )) && (SD::spec_input_side() == Pairs::Quote ==> has_reach_above(
                old(self).positions@,
                old(self).current_sqrt_price@,
            )),
            amount@ > 0 && SD::spec_input_side() == Pairs::Base && (match sqrt_price_limit {
                Some(l) => l@,
                None => SD::spec_worst_sqrt_price(),
            }) < old(self).current_sqrt_price@ && (exists|i: int|
                0 <= i < old(self).positions@.len() && (#[trigger] old(
                    self,
                ).positions@[i]).lower_sqrt@ < old(self).current_sqrt_price@ && old(
                    self,
                ).positions@[i].upper_sqrt@ > (match sqrt_price_limit {
                    Some(l) => l@,
                    None => SD::spec_worst_sqrt_price(),
                })) ==> r.1@ < amount@,
            amount@ > 0 && SD::spec_input_side() == Pairs::Quote && (match sqrt_price_limit {
                Some(l) => l@,
                None => SD::spec_worst_sqrt_price(),
            }) > old(self).current_sqrt_price@ && (exists|i: int|
                0 <= i < old(self).positions@.len() && (#[trigger] old(
                    self,
                ).positions@[i]).upper_sqrt@ > old(self).current_sqrt_price@ && old(
                    self,
                ).positions@[i].lower_sqrt@ < (match sqrt_price_limit {
                    Some(l) => l@,
                    None => SD::spec_worst_sqrt_price(),
                })) ==> r.1@ < amount@,
    {
        proof {
            SD::lemma_direction_consistent();
        }
        let bound = match sqrt_price_limit {
            Some(l) => l,
            None => SD::worst_sqrt_price(),
        };
        match SD::input_side() {
            Pairs::Base => self.swap_base_to_quote(amount, bound),
            Pairs::Quote => self.swap_quote_to_base(amount, bound),
        }
    }

    /// Sell Base: the sqrt price falls toward `bound_in`.
    #[verifier::rlimit(100)]
    fn swap_base_to_quote(&mut self, amount: Amount, bound_in: SqrtPriceQ64F96) -> (r: (
        Amount,
        Amount,
    ))
        requires
            old(self).wf(),
        ensures
            final(self).wf(),
            final(self).fee_hundredth_pips == old(self).fee_hundredth_pips,
            final(self).positions@ == old(self).positions@,
            r.1@ <= amount@,
            amount@ == 0 ==> r.0@ == 0 && r.1@ == 0,
            final(self).current_sqrt_price == old(self).current_sqrt_price
                || (final(self).current_sqrt_price@ < old(self).current_sqrt_price@
                && final(self).current_sqrt_price@ >= bound_in@),
            r.1@ < amount@ ==> has_reach_below(
                old(self).positions@,
                old(self).current_sqrt_price@,
            ),
            amount@ > 0 && bound_in@ < old(self).current_sqrt_price@ && (exists|i: int|
                0 <= i < old(self).positions@.len() && (#[trigger] old(
                    self,
                ).positions@[i]).lower_sqrt@ < old(self).current_sqrt_price@ && old(
                    self,
                ).positions@[i].upper_sqrt@ > bound_in@) ==> r.1@ < amount@,
    {
        let minp = min_sqrt_price();
        let bound = if bound_in.lt(&minp) {
            minp
        } else {
            bound_in
        };
        let p96 = U256 { w0: 0, w1: 0x100000000, w2: 0, w3: 0 };
        proof {
            assert(p96@ == 0x1000000000000000000000000nat);
        }
        let mut remaining = amount;
        let mut out = U256::zero();
        loop
            invariant
                self.wf(),
                self.fee_hundredth_pips == old(self).fee_hundredth_pips,
                self.positions@ == old(self).positions@,
                remaining@ <= amount@,
                amount@ == 0 ==> out@ == 0 && remaining@ == 0,
                p96@ == 0x1000000000000000000000000nat,
                bound@ >= min_sqrt_price_value(),
                bound@ >= bound_in@,
                self.current_sqrt_price@ <= old(self).current_sqrt_price@,
                self.current_sqrt_price == old(self).current_sqrt_price
                    || self.current_sqrt_price@ >= bound_in@,
                remaining@ < amount@ ==> has_reach_below(
                    old(self).positions@,
                    old(self).current_sqrt_price@,
                ),
                remaining@ == amount@ ==> self.current_sqrt_price == old(self).current_sqrt_price
                    || (has_active_below(self.positions@, self.current_sqrt_price@) && bound@
                    < self.current_sqrt_price@),
            ensures
                remaining@ < amount@ || amount@ == 0 || !(bound@ < old(
                    self,
                ).current_sqrt_price@ && (exists|i: int|
                    0 <= i < old(self).positions@.len() && (#[trigger] old(
                        self,
                    ).positions@[i]).lower_sqrt@ < old(self).current_sqrt_price@ && old(
                        self,
                    ).positions@[i].upper_sqrt@ > bound@)),
            decreases remaining@, self.current_sqrt_price@,
        {
            if remaining.is_zero() {
                break;
            }
            if !bound.lt(&self.current_sqrt_price) {
                break;
            }
            let cur = self.current_sqrt_price;
            let (liq, boundary) = self.seg_below();
            if liq == 0 {
                match boundary {
                    Some(b) => {
                        if bound.lt(&b) {
                            proof {
                                let j = choose|j: int|
                                    0 <= j < self.positions@.len() && (#[trigger] self.positions@[j]).lower_sqrt@
                                        < b@ && b@ <= self.positions@[j].upper_sqrt@;
                                assert(self.positions@[j].upper_sqrt@ > bound@);
                            }
                            // slide down to where liquidity resumes
                            self.current_sqrt_price = b;
                        } else {
                            proof {
                                if remaining@ == amount@ && amount@ > 0 && bound@ < old(
                                    self,
                                ).current_sqrt_price@ && (exists|i: int|
                                    0 <= i < old(self).positions@.len() && (#[trigger] old(
                                        self,
                                    ).positions@[i]).lower_sqrt@ < old(self).current_sqrt_price@
                                        && old(self).positions@[i].upper_sqrt@ > bound@) {
                                    let i = choose|i: int|
                                        0 <= i < old(self).positions@.len() && (#[trigger] old(
                                            self,
                                        ).positions@[i]).lower_sqrt@ < old(
                                            self,
                                        ).current_sqrt_price@ && old(
                                            self,
                                        ).positions@[i].upper_sqrt@ > bound@;
                                    assert(!has_active_below(
                                        self.positions@,
                                        self.current_sqrt_price@,
                                    ));
                                    assert(self.positions@[i].upper_sqrt@
                                        < self.current_sqrt_price@);
                                    assert(below_candidate(
                                        self.positions@[i],
                                        self.current_sqrt_price@,
                                    ) <= b@);
                                    assert(false);
                                }
                            }
                            break;
                        }
                    },
                    None => {
                        proof {
                            if remaining@ == amount@ && amount@ > 0 && bound@ < old(
                                self,
                            ).current_sqrt_price@ && (exists|i: int|
                                0 <= i < old(self).positions@.len() && (#[trigger] old(
                                    self,
                                ).positions@[i]).lower_sqrt@ < old(self).current_sqrt_price@
                                    && old(self).positions@[i].upper_sqrt@ > bound@) {
                                let i = choose|i: int|
                                    0 <= i < old(self).positions@.len() && (#[trigger] old(
                                        self,
                                    ).positions@[i]).lower_sqrt@ < old(self).current_sqrt_price@
                                        && old(self).positions@[i].upper_sqrt@ > bound@;
                                assert(has_reach_below(
                                    self.positions@,
                                    self.current_sqrt_price@,
                                ));
                                assert(false);
                            }
                        }
                        break;
                    },
                }
            } else {
                let target = match boundary {
                    Some(b) => {
                        if bound.lt(&b) {
                            b
                        } else {
                            bound
                        }
                    },
                    None => bound,
                };
                proof {
                    let i = choose|i: int|
                        0 <= i < self.positions@.len() && (#[trigger] self.positions@[i]).lower_sqrt@
                            < self.current_sqrt_price@ && self.current_sqrt_price@
                            <= self.positions@[i].upper_sqrt@;
                    assert(self.positions@[i].lower_sqrt@ < old(self).current_sqrt_price@);
                    assert(has_reach_below(old(self).positions@, old(self).current_sqrt_price@));
                    assert(self.positions@[i].upper_sqrt@ > bound@);
                }
                let (outd, rem2) = self.segment_down(remaining, target, liq);
                out = out.saturating_add(&outd);
                remaining = rem2;
            }
        }
        proof {
            lemma_progress_hypothesis_below(
                old(self).positions@,
                old(self).current_sqrt_price@,
                bound_in@,
                bound@,
            );
        }
        (out, remaining)
    }

    /// Execute one segment on the way down: with `liq` active between
    /// `target` and the current price, consume input until the price reaches
    /// `target` or the input runs out, and return the bought amount and the
    /// input left.
    fn segment_down(&mut self, remaining: Amount, target: SqrtPriceQ64F96, liq: u128) -> (r: (
        Amount,
        Amount,
    ))
        requires
            old(self).wf(),
            1 <= liq,
            1 <= remaining@,
            spec_is_sqrt_price_valid(target@),
            target@ < old(self).current_sqrt_price@,
        ensures
            final(self).wf(),
            final(self).fee_hundredth_pips == old(self).fee_hundredth_pips,
            final(self).positions@ == old(self).positions@,
            r.1@ < remaining@,
            target@ <= final(self).current_sqrt_price@,
            final(self).current_sqrt_price@ <= old(self).current_sqrt_price@,
            final(self).current_sqrt_price@ < old(self).current_sqrt_price@ || r.1@ == 0,
            r.0@ == (liq as nat * ((old(self).current_sqrt_price@
                - final(self).current_sqrt_price@) as nat)) / 0x1000000000000000000000000nat,
    {
        let cur = self.current_sqrt_price;
        let p96 = U256 { w0: 0, w1: 0x100000000, w2: 0, w3: 0 };
        proof {
            assert(p96@ == 0x1000000000000000000000000nat);
        }
        let lu = U256::from_u128(liq);
        let l96 = shl256(&lu, 96);
        proof {
            lemma2_to64();
            lemma_pow2_adds(64, 32);
            lemma_mul_upper_bound(
                liq as int,
                0xffffffffffffffffffffffffffffffffint,
                0x1000000000000000000000000int,
                0x1000000000000000000000000int,
            );
            vstd::arithmetic::div_mod::lemma_small_mod(
                (liq as nat * 0x1000000000000000000000000nat) as nat,
                0x10000000000000000000000000000000000000000000000000000000000000000nat,
            );
        }
        let diff = cur.sub_unchecked(&target);
        let num = full_mul(&l96, &diff);
        let den = full_mul(&cur, &target);
        proof {
            lemma_mul_strictly_positive(cur@ as int, target@ as int);
            lemma_mul_inequality(1, target@ as int, cur@ as int);
            lemma_mul_is_commutative(target@ as int, cur@ as int);
            assert(den@ >= cur@);
            lemma_div_is_ordered_by_denominator(num@ as int, 2, den@ as int);
            lemma_div_nonincreasing(num@ as int, 2);
            crate::uint256::lemma_u512_bound(num);
        }
        let (q, m) = div_mod(&num, &den);
        let one512 = U512 { w0: 1, w1: 0, w2: 0, w3: 0, w4: 0, w5: 0, w6: 0, w7: 0 };
        let in_full = if m.is_zero() {
            proof {
                vstd::arithmetic::div_mod::lemma_div_pos_is_pos(num@ as int, den@ as int);
                if q@ == 0 {
                    lemma_fundamental_div_mod(num@ as int, den@ as int);
                    lemma_mul_strictly_positive(l96@ as int, diff@ as int);
                }
            }
            q
        } else {
            q.add_unchecked(&one512)
        };
        let rem512 = U512::from_u256(&remaining);
        if in_full.le(&rem512) {
            let used = in_full.low_u256();
            proof {
                lemma_mul_upper_bound(
                    lu@ as int,
                    0xffffffffffffffffffffffffffffffffint,
                    diff@ as int,
                    0xffffffffffffffffffffffffffffffffffffffffint,
                );
                lemma_multiply_divide_lt(
                    (lu@ * diff@) as int,
                    0x1000000000000000000000000int,
                    0x10000000000000000000000000000000000000000000000000000000000000000int,
                );
            }
            let outd = mul_div_floor(&lu, &diff, &p96);
            self.current_sqrt_price = target;
            (outd, remaining.sub_unchecked(&used))
        } else {
            // the input runs out inside this segment
            let rc = full_mul(&remaining, &cur);
            proof {
                lemma_u256_bound(remaining);
                lemma_mul_upper_bound(
                    remaining@ as int,
                    0xffffffffffffffffffffffffffffffffffffffffffffffffffffffffffffffffint,
                    cur@ as int,
                    0xffffffffffffffffffffffffffffffffffffffffint,
                );
            }
            let den2 = U512::from_u256(&l96).add_unchecked(&rc);
            let num2 = full_mul(&l96, &cur);
            proof {
                lemma_div_is_ordered_by_denominator(num2@ as int, l96@ as int, den2@ as int);
                lemma_div_multiples_vanish(cur@ as int, l96@ as int);
                lemma_mul_is_commutative(l96@ as int, cur@ as int);
            }
            let (q2, _m2) = div_mod(&num2, &den2);
            let q2l = q2.low_u256();
            let newp = if q2l.lt(&target) {
                target
            } else {
                q2l
            };
            proof {
                lemma_div_nonincreasing(num2@ as int, den2@ as int);
            }
            let diff2 = cur.sub_unchecked(&newp);
            proof {
                lemma_mul_upper_bound(
                    lu@ as int,
                    0xffffffffffffffffffffffffffffffffint,
                    diff2@ as int,
                    0xffffffffffffffffffffffffffffffffffffffffint,
                );
                lemma_multiply_divide_lt(
                    (lu@ * diff2@) as int,
                    0x1000000000000000000000000int,
                    0x10000000000000000000000000000000000000000000000000000000000000000int,
                );
            }
            let outd = mul_div_floor(&lu, &diff2, &p96);
            self.current_sqrt_price = newp;
            (outd, U256::zero())
        }
    }

    /// Sell Quote: the sqrt price rises toward `bound_in`.
    #[verifier::rlimit(100)]
    fn swap_quote_to_base(&mut self, amount: Amount, bound_in: SqrtPriceQ64F96) -> (r: (
        Amount,
        Amount,
    ))
        requires
            old(self).wf(),
        ensures
            final(self).wf(),
            final(self).fee_hundredth_pips == old(self).fee_hundredth_pips,
            final(self).positions@ == old(self).positions@,
            r.1@ <= amount@,
            amount@ == 0 ==> r.0@ == 0 && r.1@ == 0,
            final(self).current_sqrt_price == old(self).current_sqrt_price
                || (final(self).current_sqrt_price@ > old(self).current_sqrt_price@
                && final(self).current_sqrt_price@ <= bound_in@),
            r.1@ < amount@ ==> has_reach_above(
                old(self).positions@,
                old(self).current_sqrt_price@,
            ),
            amount@ > 0 && bound_in@ > old(self).current_sqrt_price@ && (exists|i: int|
                0 <= i < old(self).positions@.len() && (#[trigger] old(
                    self,
                ).positions@[i]).upper_sqrt@ > old(self).current_sqrt_price@ && old(
                    self,
                ).positions@[i].lower_sqrt@ < bound_in@) ==> r.1@ < amount@,
    {
        let maxp = max_sqrt_price();
        let bound = if maxp.lt(&bound_in) {
            maxp
        } else {
            bound_in
        };
        let p96 = U256 { w0: 0, w1: 0x100000000, w2: 0, w3: 0 };
        proof {
            assert(p96@ == 0x1000000000000000000000000nat);
        }
        let mut remaining = amount;
        let mut out = U256::zero();
        loop
            invariant
                self.wf(),
                self.fee_hundredth_pips == old(self).fee_hundredth_pips,
                self.positions@ == old(self).positions@,
                remaining@ <= amount@,
                amount@ == 0 ==> out@ == 0 && remaining@ == 0,
                p96@ == 0x1000000000000000000000000nat,
                bound@ <= max_sqrt_price_value(),
                bound@ <= bound_in@,
                self.current_sqrt_price@ >= old(self).current_sqrt_price@,
                self.current_sqrt_price == old(self).current_sqrt_price
                    || self.current_sqrt_price@ <= bound_in@,
                remaining@ < amount@ ==> has_reach_above(
                    old(self).positions@,
                    old(self).current_sqrt_price@,
                ),
                remaining@ == amount@ ==> self.current_sqrt_price == old(self).current_sqrt_price
                    || (has_active_above(self.positions@, self.current_sqrt_price@) && bound@
                    > self.current_sqrt_price@),
            ensures
                remaining@ < amount@ || amount@ == 0 || !(bound@ > old(
                    self,
                ).current_sqrt_price@ && (exists|i: int|
                    0 <= i < old(self).positions@.len() && (#[trigger] old(
                        self,
                    ).positions@[i]).upper_sqrt@ > old(self).current_sqrt_price@ && old(
                        self,
                    ).positions@[i].lower_sqrt@ < bound@)),
            decreases remaining@, max_sqrt_price_value() - self.current_sqrt_price@,
        {
            if remaining.is_zero() {
                break;
            }
            if !self.current_sqrt_price.lt(&bound) {
                break;
            }
            let cur = self.current_sqrt_price;
            let (liq, boundary) = self.seg_above();
            if liq == 0 {
                match boundary {
                    Some(b) => {
                        if b.lt(&bound) {
                            proof {
                                let j = choose|j: int|
                                    0 <= j < self.positions@.len() && (#[trigger] self.positions@[j]).upper_sqrt@
                                        > b@ && self.positions@[j].lower_sqrt@ <= b@;
                                assert(self.positions@[j].lower_sqrt@ < bound@);
                            }
                            // slide up to where liquidity resumes
                            self.current_sqrt_price = b;
                        } else {
                            proof {
                                if remaining@ == amount@ && amount@ > 0 && bound@ > old(
                                    self,
                                ).current_sqrt_price@ && (exists|i: int|
                                    0 <= i < old(self).positions@.len() && (#[trigger] old(
                                        self,
                                    ).positions@[i]).upper_sqrt@ > old(self).current_sqrt_price@
                                        && old(self).positions@[i].lower_sqrt@ < bound@) {
                                    let i = choose|i: int|
                                        0 <= i < old(self).positions@.len() && (#[trigger] old(
                                            self,
                                        ).positions@[i]).upper_sqrt@ > old(
                                            self,
                                        ).current_sqrt_price@ && old(
                                            self,
                                        ).positions@[i].lower_sqrt@ < bound@;
                                    assert(!has_active_above(
                                        self.positions@,
                                        self.current_sqrt_price@,
                                    ));
                                    assert(self.positions@[i].lower_sqrt@
                                        > self.current_sqrt_price@);
                                    assert(above_candidate(
                                        self.positions@[i],
                                        self.current_sqrt_price@,
                                    ) >= b@);
                                    assert(false);
                                }
                            }
                            break;
                        }
                    },
                    None => {
                        proof {
                            if remaining@ == amount@ && amount@ > 0 && bound@ > old(
                                self,
                            ).current_sqrt_price@ && (exists|i: int|
                                0 <= i < old(self).positions@.len() && (#[trigger] old(
                                    self,
                                ).positions@[i]).upper_sqrt@ > old(self).current_sqrt_price@
                                    && old(self).positions@[i].lower_sqrt@ < bound@) {
                                let i = choose|i: int|
                                    0 <= i < old(self).positions@.len() && (#[trigger] old(
                                        self,
                                    ).positions@[i]).upper_sqrt@ > old(self).current_sqrt_price@
                                        && old(self).positions@[i].lower_sqrt@ < bound@;
                                assert(has_reach_above(
                                    self.positions@,
                                    self.current_sqrt_price@,
                                ));
                                assert(false);
                            }
                        }
                        break;
                    },
                }
            } else {
                let target = match boundary {
                    Some(b) => {
                        if b.lt(&bound) {
                            b
                        } else {
                            bound
                        }
                    },
                    None => bound,
                };
                proof {
                    let i = choose|i: int|
                        0 <= i < self.positions@.len() && (#[trigger] self.positions@[i]).upper_sqrt@
                            > self.current_sqrt_price@ && self.positions@[i].lower_sqrt@
                            <= self.current_sqrt_price@;
                    assert(self.positions@[i].upper_sqrt@ > old(self).current_sqrt_price@);
                    assert(has_reach_above(old(self).positions@, old(self).current_sqrt_price@));
                    assert(self.positions@[i].lower_sqrt@ < bound@);
                }
                let (outd, rem2) = self.segment_up(remaining, target, liq);
                out = out.saturating_add(&outd);
                remaining = rem2;
            }
        }
        proof {
            lemma_progress_hypothesis_above(
                old(self).positions@,
                old(self).current_sqrt_price@,
                bound_in@,
                bound@,
            );
        }
        (out, remaining)
    }

    /// Execute one segment on the way up: with `liq` active between the
    /// current price and `target`, consume input until the price reaches
    /// `target` or the input runs out, and return the bought amount and the
    /// input left.
    fn segment_up(&mut self, remaining: Amount, target: SqrtPriceQ64F96, liq: u128) -> (r: (
        Amount,
        Amount,
    ))
        requires
            old(self).wf(),
            1 <= liq,
            1 <= remaining@,
            spec_is_sqrt_price_valid(target@),
            target@ > old(self).current_sqrt_price@,
        ensures
            final(self).wf(),
            final(self).fee_hundredth_pips == old(self).fee_hundredth_pips,
            final(self).positions@ == old(self).positions@,
            r.1@ < remaining@,
            final(self).current_sqrt_price@ <= target@,
            final(self).current_sqrt_price@ >= old(self).current_sqrt_price@,
            final(self).current_sqrt_price@ > old(self).current_sqrt_price@ || r.1@ == 0,
            r.0@ == (liq as nat * 0x1000000000000000000000000nat * ((final(self).current_sqrt_price@
                - old(self).current_sqrt_price@) as nat)) / (old(self).current_sqrt_price@
                * final(self).current_sqrt_price@),
    {
        let cur = self.current_sqrt_price;
        let p96 = U256 { w0: 0, w1: 0x100000000, w2: 0, w3: 0 };
        proof {
            assert(p96@ == 0x1000000000000000000000000nat);
        }
        let lu = U256::from_u128(liq);
        let l96 = shl256(&lu, 96);
        proof {
            lemma2_to64();
            lemma_pow2_adds(64, 32);
            lemma_mul_upper_bound(
                liq as int,
                0xffffffffffffffffffffffffffffffffint,
                0x1000000000000000000000000int,
                0x1000000000000000000000000int,
            );
            vstd::arithmetic::div_mod::lemma_small_mod(
                (liq as nat * 0x1000000000000000000000000nat) as nat,
                0x10000000000000000000000000000000000000000000000000000000000000000nat,
            );
        }
        let diff = target.sub_unchecked(&cur);
        proof {
            lemma_mul_upper_bound(
                lu@ as int,
                0xffffffffffffffffffffffffffffffffint,
                diff@ as int,
                0xffffffffffffffffffffffffffffffffffffffffint,
            );
            lemma_ceil_div(lu@ * diff@, p96@);
            lemma_multiply_divide_lt(
                (lu@ * diff@) as int,
                0x1000000000000000000000000int,
                0xffffffffffffffffffffffffffffffffffffffffffffffffffffffffffffffffint,
            );
        }
        let in_full = mul_div_ceil(&lu, &diff, &p96);
        if in_full.le(&remaining) {
            proof {
                if in_full@ == 0 {
                    lemma_mul_strictly_positive(lu@ as int, diff@ as int);
                    lemma_fundamental_div_mod((lu@ * diff@ + p96@ - 1) as int, p96@ as int);
                    vstd::arithmetic::div_mod::lemma_div_pos_is_pos(
                        (lu@ * diff@ + p96@ - 1) as int,
                        p96@ as int,
                    );
                }
            }
            let outd = div_by_prices(&l96, &diff, &cur, &target);
            self.current_sqrt_price = target;
            (outd, remaining.sub_unchecked(&in_full))
        } else {
            // the input runs out inside this segment
            let num4 = full_mul(&remaining, &p96);
            let den4 = U512::from_u256(&lu);
            let (q4, _m4) = div_mod(&num4, &den4);
            proof {
                crate::uint256::lemma_u512_bound(num4);
                lemma_div_nonincreasing(num4@ as int, den4@ as int);
            }
            let s512 = U512::from_u256(&cur).add_unchecked(&q4);
            let t512 = U512::from_u256(&target);
            let newp = if t512.le(&s512) {
                target
            } else {
                s512.low_u256()
            };
            let diff2 = newp.sub_unchecked(&cur);
            let outd = div_by_prices(&l96, &diff2, &cur, &newp);
            self.current_sqrt_price = newp;
            (outd, U256::zero())
        }
    }

    /// Mint a range order of the given liquidity between two ticks, debiting
    /// the owed amounts through `try_debit`. Fails when the tick range or its
    /// prices are out of order or out of range, when the liquidity is zero,
    /// or when the callback refuses.
    #[verifier::rlimit(100)]
    pub fn collect_and_mint<T, E, TryDebit: FnOnce(PoolPairsMap<Amount>) -> Result<T, E>>(
        &mut self,
        lp: &LiquidityProvider,
        lower: Tick,
        upper: Tick,
        size: Size,
        try_debit: TryDebit,
    ) -> (r: Result<(T, Liquidity, Collected, PositionInfo), PositionError<MintError<E>>>)
        requires
            old(self).wf(),
            forall|a: PoolPairsMap<Amount>| #[trigger] call_requires(try_debit, (a,)),
        ensures
            final(self).wf(),
            final(self).fee_hundredth_pips == old(self).fee_hundredth_pips,
            final(self).current_sqrt_price == old(self).current_sqrt_price,
            r is Err ==> final(self).positions@ == old(self).positions@,
            !(spec_is_tick_valid(lower as int) && spec_is_tick_valid(upper as int) && lower
                < upper) ==> r == Err::<
                (T, Liquidity, Collected, PositionInfo),
                PositionError<MintError<E>>,
            >(PositionError::InvalidTickRange),
            spec_is_tick_valid(lower as int) && spec_is_tick_valid(upper as int) && lower < upper
                && size->Liquidity_liquidity == 0 ==> r == Err::<
                (T, Liquidity, Collected, PositionInfo),
                PositionError<MintError<E>>,
            >(PositionError::Other(MintError::InvalidLiquidity)),
            mint_range_acceptable(lower as int, upper as int, size) ==> {
                let base_owed = mint_base_owed(
                    size->Liquidity_liquidity as nat,
                    old(self).current_sqrt_price@,
                    spec_sqrt_price_at_tick(lower as int),
                    spec_sqrt_price_at_tick(upper as int),
                );
                let quote_owed = mint_quote_owed(
                    size->Liquidity_liquidity as nat,
                    old(self).current_sqrt_price@,
                    spec_sqrt_price_at_tick(lower as int),
                    spec_sqrt_price_at_tick(upper as int),
                );
                &&& (r is Ok ==> exists|owed: PoolPairsMap<Amount>|
                    (#[trigger] call_ensures(try_debit, (owed,), Result::<T, E>::Ok(r->Ok_0.0)))
                        && owed.base@ == base_owed && owed.quote@ == quote_owed)
                &&& (r is Err ==> (r->Err_0 matches PositionError::Other(
                    MintError::CallbackFailed(e),
                ) && (exists|owed: PoolPairsMap<Amount>|
                    (#[trigger] call_ensures(try_debit, (owed,), Result::<T, E>::Err(e)))
                        && owed.base@ == base_owed && owed.quote@ == quote_owed)))
            },
            r is Ok ==> r->Ok_0.1 == size->Liquidity_liquidity && r->Ok_0.3.liquidity
                == size->Liquidity_liquidity && r->Ok_0.2.fees.base@ == 0 && r->Ok_0.2.fees.quote@
                == 0,
            r is Ok ==> {
                let now = final(self).positions@;
                let before = old(self).positions@;
                &&& now.len() == before.len() + 1
                &&& now.subrange(0, before.len() as int) == before
                &&& now.last().lp == *lp
                &&& now.last().lower_tick == lower
                &&& now.last().upper_tick == upper
                &&& now.last().liquidity == size->Liquidity_liquidity
                &&& now.last().lower_sqrt@ == spec_sqrt_price_at_tick(lower as int)
                &&& now.last().upper_sqrt@ == spec_sqrt_price_at_tick(upper as int)
            },
    {
        if !is_tick_valid(lower) || !is_tick_valid(upper) || lower >= upper {
            return Err(PositionError::InvalidTickRange);
        }
        let Size::Liquidity { liquidity } = size;
        if liquidity == 0 {
            return Err(PositionError::Other(MintError::InvalidLiquidity));
        }
        let ls = sqrt_price_at_tick(lower);
        let us = sqrt_price_at_tick(upper);
        if !is_sqrt_price_valid(&ls) || !is_sqrt_price_valid(&us) || !ls.lt(&us) {
            return Err(PositionError::InvalidTickRange);
        }
        let (base, quote) = amounts_owed(liquidity, self.current_sqrt_price, ls, us);
        let owed_arg = PoolPairsMap { base, quote };
        match try_debit(owed_arg) {
            Ok(t) => {
                proof {
                    assert(call_ensures(try_debit, (owed_arg,), Result::<T, E>::Ok(t)));
                    assert(exists|owed: PoolPairsMap<Amount>|
                        (#[trigger] call_ensures(try_debit, (owed,), Result::<T, E>::Ok(t)))
                            && owed.base@ == mint_base_owed(
                            liquidity as nat,
                            self.current_sqrt_price@,
                            ls@,
                            us@,
                        ) && owed.quote@ == mint_quote_owed(
                            liquidity as nat,
                            self.current_sqrt_price@,
                            ls@,
                            us@,
                        ));
                }
                let pos = Position {
                    lp: *lp,
                    lower_tick: lower,
                    upper_tick: upper,
                    lower_sqrt: ls,
                    upper_sqrt: us,
                    liquidity,
                };
                self.positions.push(pos);
                let res: Result<(T, Liquidity, Collected, PositionInfo), PositionError<MintError<E>>> = Ok((
                    t,
                    liquidity,
                    Collected { fees: PoolPairsMap { base: U256::zero(), quote: U256::zero() } },
                    PositionInfo { liquidity },
                ));
                proof {
                    assert(res is Ok);
                    assert(res->Ok_0.1 == liquidity);
                    assert(call_ensures(try_debit, (owed_arg,), Result::<T, E>::Ok(res->Ok_0.0)));
                    assert(exists|owed: PoolPairsMap<Amount>|
                        (#[trigger] call_ensures(
                            try_debit,
                            (owed,),
                            Result::<T, E>::Ok(res->Ok_0.0),
                        )) && owed.base@ == mint_base_owed(
                            liquidity as nat,
                            self.current_sqrt_price@,
                            ls@,
                            us@,
                        ) && owed.quote@ == mint_quote_owed(
                            liquidity as nat,
                            self.current_sqrt_price@,
                            ls@,
                            us@,
                        ));
                }
                res
            },
            Err(e) => {
                proof {
                    assert(call_ensures(try_debit, (owed_arg,), Result::<T, E>::Err(e)));
                    assert(exists|owed: PoolPairsMap<Amount>|
                        (#[trigger] call_ensures(try_debit, (owed,), Result::<T, E>::Err(e)))
                            && owed.base@ == mint_base_owed(
                            liquidity as nat,
                            self.current_sqrt_price@,
                            ls@,
                            us@,
                        ) && owed.quote@ == mint_quote_owed(
                            liquidity as nat,
                            self.current_sqrt_price@,
                            ls@,
                            us@,
                        ));
                }
                let res: Result<(T, Liquidity, Collected, PositionInfo), PositionError<MintError<E>>> = Err(
                    PositionError::Other(MintError::CallbackFailed(e)),
                );
                proof {
                    assert(res is Err);
                    assert(call_ensures(
                        try_debit,
                        (owed_arg,),
                        Result::<T, E>::Err(res->Err_0->Other_0->CallbackFailed_0),
                    ));
                    assert(res->Err_0 matches PositionError::Other(MintError::CallbackFailed(e2))
                        && (exists|owed: PoolPairsMap<Amount>|
                        (#[trigger] call_ensures(try_debit, (owed,), Result::<T, E>::Err(e2)))
                            && owed.base@ == mint_base_owed(
                            liquidity as nat,
                            self.current_sqrt_price@,
                            ls@,
                            us@,
                        ) && owed.quote@ == mint_quote_owed(
                            liquidity as nat,
                            self.current_sqrt_price@,
                            ls@,
                            us@,
                        )));
                }
                res
            },
        }
    }
}


/// The amounts a mint of `liquidity` between `ls` and `us` debits, with the
/// pool at `cur`: exactly `mint_base_owed` and `mint_quote_owed`.
fn amounts_owed(
    liquidity: Liquidity,
    cur: SqrtPriceQ64F96,
    ls: SqrtPriceQ64F96,
    us: SqrtPriceQ64F96,
) -> (r: (Amount, Amount))
    requires
        1 <= liquidity,
        spec_is_sqrt_price_valid(ls@),
        spec_is_sqrt_price_valid(us@),
        ls@ < us@,
    ensures
        r.0@ == mint_base_owed(liquidity as nat, cur@, ls@, us@),
        r.1@ == mint_quote_owed(liquidity as nat, cur@, ls@, us@),
{
    let current_sqrt_price = cur;
        // the price the amounts are computed at, clamped into the range
        let cur = current_sqrt_price;
        let cp = if cur.lt(&ls) {
            ls
        } else if us.lt(&cur) {
            us
        } else {
            cur
        };
        let lu = U256::from_u128(liquidity);
        let l96 = shl256(&lu, 96);
        let p96 = U256 { w0: 0, w1: 0x100000000, w2: 0, w3: 0 };
        proof {
            assert(p96@ == 0x1000000000000000000000000nat);
            lemma2_to64();
            lemma_pow2_adds(64, 32);
            lemma_mul_upper_bound(
                liquidity as int,
                0xffffffffffffffffffffffffffffffffint,
                0x1000000000000000000000000int,
                0x1000000000000000000000000int,
            );
            vstd::arithmetic::div_mod::lemma_small_mod(
                (liquidity as nat * 0x1000000000000000000000000nat) as nat,
                0x10000000000000000000000000000000000000000000000000000000000000000nat,
            );
        }
        // Base owed: liquidity * 2^96 * (upper - cp) / (upper * cp), rounded up
        let diff_hi = us.sub_unchecked(&cp);
        let base_floor = div_by_prices(&l96, &diff_hi, &cp, &us);
        let base = {
            // rounding up costs at most one unit, which still fits
            proof {
                lemma_u256_bound(base_floor);
                div_by_prices_is_small(l96@, diff_hi@, cp@, us@);
            }
            let (b, _o) = base_floor.overflowing_add(&U256::one());
            let num = full_mul(&l96, &diff_hi);
            let den = full_mul(&cp, &us);
            proof {
                lemma_mul_strictly_positive(cp@ as int, us@ as int);
            }
            let (_q, m) = div_mod(&num, &den);
            if m.is_zero() {
                base_floor
            } else {
                b
            }
        };
        // Quote owed: liquidity * (cp - lower) / 2^96, rounded up
        let diff_lo = cp.sub_unchecked(&ls);
        proof {
            lemma_mul_upper_bound(
                lu@ as int,
                0xffffffffffffffffffffffffffffffffint,
                diff_lo@ as int,
                0xffffffffffffffffffffffffffffffffffffffffint,
            );
            lemma_ceil_div(lu@ * diff_lo@, p96@);
            lemma_multiply_divide_lt(
                (lu@ * diff_lo@) as int,
                0x1000000000000000000000000int,
                0xffffffffffffffffffffffffffffffffffffffffffffffffffffffffffffffffint,
            );
        }
        let quote = mul_div_ceil(&lu, &diff_lo, &p96);
        proof {
            lemma_ceil_div(l96@ * diff_hi@, cp@ * us@);
            lemma_mul_is_commutative(cp@ as int, us@ as int);
        }
    (base, quote)
}


/// Clamping the bound into the valid range preserves the progress
/// hypothesis: liquidity reachable above the caller's bound is also
/// reachable above the clamped bound.
proof fn lemma_progress_hypothesis_below(positions: Seq<Position>, cur: nat, bound_in: nat, bound: nat)
    requires
        valid_positions(positions),
        bound == if bound_in < min_sqrt_price_value() {
            min_sqrt_price_value()
        } else {
            bound_in
        },
    ensures
        (bound_in < cur && (exists|i: int|
            0 <= i < positions.len() && (#[trigger] positions[i]).lower_sqrt@ < cur
                && positions[i].upper_sqrt@ > bound_in)) <==> (bound < cur && (exists|i: int|
            0 <= i < positions.len() && (#[trigger] positions[i]).lower_sqrt@ < cur
                && positions[i].upper_sqrt@ > bound)),
{
    if bound_in < cur && (exists|i: int|
        0 <= i < positions.len() && (#[trigger] positions[i]).lower_sqrt@ < cur
            && positions[i].upper_sqrt@ > bound_in) {
        let i = choose|i: int|
            0 <= i < positions.len() && (#[trigger] positions[i]).lower_sqrt@ < cur
                && positions[i].upper_sqrt@ > bound_in;
        assert(positions[i].valid());
        assert(positions[i].upper_sqrt@ > bound);
        assert(bound < cur);
    }
    if bound < cur && (exists|i: int|
        0 <= i < positions.len() && (#[trigger] positions[i]).lower_sqrt@ < cur
            && positions[i].upper_sqrt@ > bound) {
        let i = choose|i: int|
            0 <= i < positions.len() && (#[trigger] positions[i]).lower_sqrt@ < cur
                && positions[i].upper_sqrt@ > bound;
        assert(positions[i].upper_sqrt@ > bound_in);
    }
}


/// As `lemma_progress_hypothesis_below`, for a rising swap.
proof fn lemma_progress_hypothesis_above(positions: Seq<Position>, cur: nat, bound_in: nat, bound: nat)
    requires
        valid_positions(positions),
        bound == if max_sqrt_price_value() < bound_in {
            max_sqrt_price_value()
        } else {
            bound_in
        },
    ensures
        (bound_in > cur && (exists|i: int|
            0 <= i < positions.len() && (#[trigger] positions[i]).upper_sqrt@ > cur
                && positions[i].lower_sqrt@ < bound_in)) <==> (bound > cur && (exists|i: int|
            0 <= i < positions.len() && (#[trigger] positions[i]).upper_sqrt@ > cur
                && positions[i].lower_sqrt@ < bound)),
{
    if bound_in > cur && (exists|i: int|
        0 <= i < positions.len() && (#[trigger] positions[i]).upper_sqrt@ > cur
            && positions[i].lower_sqrt@ < bound_in) {
        let i = choose|i: int|
            0 <= i < positions.len() && (#[trigger] positions[i]).upper_sqrt@ > cur
                && positions[i].lower_sqrt@ < bound_in;
        assert(positions[i].valid());
        assert(positions[i].lower_sqrt@ < bound);
        assert(bound > cur);
    }
    if bound > cur && (exists|i: int|
        0 <= i < positions.len() && (#[trigger] positions[i]).upper_sqrt@ > cur
            && positions[i].lower_sqrt@ < bound) {
        let i = choose|i: int|
            0 <= i < positions.len() && (#[trigger] positions[i]).upper_sqrt@ > cur
                && positions[i].lower_sqrt@ < bound;
        assert(positions[i].lower_sqrt@ < bound_in);
    }
}

/// `l96 * diff / (a * b)` rounded down: the base-asset delta between two
/// sqrt prices `a <= b` at liquidity `l96 / 2^96`.
fn div_by_prices(l96: &U256, diff: &U256, a: &U256, b: &U256) -> (r: U256)
    requires
        a@ >= 1,
        b@ >= 1,
        diff@ <= b@,
    ensures
        r@ == (l96@ * diff@) / (a@ * b@),
{
    let num = full_mul(l96, diff);
    let den = full_mul(a, b);
    proof {
        lemma_mul_strictly_positive(a@ as int, b@ as int);
        div_by_prices_is_small(l96@, diff@, a@, b@);
        lemma_u256_bound(*l96);
    }
    let (q, _m) = div_mod(&num, &den);
    q.low_u256()
}

/// The quotient `l96 * diff / (a * b)` is bounded by `l96` whenever
/// `diff <= b`: the two price factors cancel.
proof fn div_by_prices_is_small(l96: nat, diff: nat, a: nat, b: nat)
    requires
        a >= 1,
        b >= 1,
        diff <= b,
    ensures
        (l96 * diff) / (a * b) <= l96,
{
    lemma_mul_strictly_positive(a as int, b as int);
    lemma_mul_inequality(diff as int, b as int, l96 as int);
    lemma_mul_is_commutative(diff as int, l96 as int);
    lemma_mul_is_commutative(b as int, l96 as int);
    lemma_div_is_ordered((l96 * diff) as int, (l96 * b) as int, (a * b) as int);
    lemma_mul_is_commutative(a as int, b as int);
    lemma_div_denominator((l96 * b) as int, b as int, a as int);
    lemma_div_multiples_vanish(l96 as int, b as int);
    lemma_mul_is_commutative(b as int, l96 as int);
    lemma_div_nonincreasing(l96 as int, a as int);
}

} // verus!
