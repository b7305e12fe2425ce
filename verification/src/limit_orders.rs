//! The limit-order liquidity engine: discrete positions that each sell a
//! fixed amount of one asset at one tick's price.
//!
//! Positions store the sqrt price of their tick, validated at mint, so every
//! later conversion works on a price known to be in range.

use vstd::prelude::*;

verus! {

use crate::common::LiquidityProvider;
use crate::common::Pairs;
use crate::common::PoolPairsMap;
use crate::math::Amount;
use crate::math::Price;
use crate::math::SqrtPriceQ64F96;
use crate::math::Tick;
use crate::math::is_tick_valid;
use crate::math::is_sqrt_price_valid;
use crate::math::spec_is_tick_valid;
use crate::math::spec_is_sqrt_price_valid;
use crate::math::spec_sqrt_price_at_tick;
use crate::math::sqrt_price_at_tick;
use crate::math::sqrt_price_to_price;
use crate::math::mul_div_floor;
use crate::math::mul_div_ceil;
use crate::math::lemma_ceil_div;
use crate::uint256::U256;
use crate::MAX_LP_FEE;
use vstd::arithmetic::mul::lemma_mul_inequality;
use vstd::arithmetic::div_mod::lemma_multiply_divide_lt;
use vstd::arithmetic::div_mod::lemma_div_nonincreasing;
use vstd::arithmetic::div_mod::lemma_fundamental_div_mod;

/// Why a pool could not be built.
#[derive(Clone, Copy, Debug, PartialEq, Eq, Structural)]
pub enum NewError {
    InvalidFeeAmount,
}

/// Why a position could not be minted.
#[derive(Clone, Copy, Debug, PartialEq, Eq, Structural)]
pub enum MintError {
    ZeroAmount,
    MaximumAmount,
}

/// A position-level failure: the tick itself is unusable, or an inner error.
#[derive(Clone, Copy, Debug, PartialEq, Eq, Structural)]
pub enum PositionError<E> {
    InvalidTick,
    Other(E),
}

/// Fees accrued by a position when it is collected. This engine does not
/// model fee growth, so the amount is always zero.
#[derive(Clone, Copy, Debug, PartialEq, Eq, Structural)]
pub struct Collected {
    pub fees: Amount,
}

/// The state of a position after a mint.
#[derive(Clone, Copy, Debug, PartialEq, Eq, Structural)]
pub struct PositionInfo {
    pub amount: Amount,
}

/// One limit order: `amount` of the sold asset remaining at `tick`.
#[derive(Clone, Copy, Debug, PartialEq, Eq, Structural)]
pub struct Position {
    pub lp: LiquidityProvider,
    pub tick: Tick,
    pub amount: Amount,
    pub sqrt_price: SqrtPriceQ64F96,
}

impl Position {
    pub open spec fn valid(self) -> bool {
        &&& spec_is_tick_valid(self.tick as int)
        &&& 1 <= self.amount@
        &&& self.amount@ < 0x100000000000000000000000000000000nat
        &&& self.sqrt_price@ == spec_sqrt_price_at_tick(self.tick as int)
        &&& spec_is_sqrt_price_valid(self.sqrt_price@)
    }
}

pub open spec fn valid_orders(s: Seq<Position>) -> bool {
    forall|i: int| 0 <= i < s.len() ==> (#[trigger] s[i]).valid()
}

/// The total amount for sale across a book.
pub open spec fn book_total(s: Seq<Position>) -> nat
    decreases s.len(),
{
    if s.len() == 0 {
        0
    } else {
        book_total(s.drop_last()) + s.last().amount@
    }
}

proof fn lemma_book_total_push(s: Seq<Position>, p: Position)
    ensures
        book_total(s.push(p)) == book_total(s) + p.amount@,
{
    assert(s.push(p).drop_last() =~= s);
}

proof fn lemma_book_total_remove(s: Seq<Position>, i: int)
    requires
        0 <= i < s.len(),
    ensures
        book_total(s.remove(i)) == book_total(s) - s[i].amount@,
    decreases s.len(),
{
    if i == s.len() - 1 {
        assert(s.remove(i) =~= s.drop_last());
    } else {
        assert(s.remove(i).drop_last() =~= s.drop_last().remove(i));
        assert(s.remove(i).last() == s.last());
        lemma_book_total_remove(s.drop_last(), i);
    }
}

/// The direction-specific unit conversions a limit-order fill needs.
pub trait SwapDirection: crate::common::SwapDirection {
    /// The amount bought with `input` at `price`, rounded down.
    spec fn spec_output(input: nat, price: nat) -> nat;

    /// Whether that amount fits the result width.
    spec fn spec_output_fits(input: nat, price: nat) -> bool;

    /// The input needed to buy `output` at `price`, rounded up.
    spec fn spec_input_for(output: nat, price: nat) -> nat;

    /// Whether that input fits the result width.
    spec fn spec_input_fits(output: nat, price: nat) -> bool;

    /// Buying any amount below `spec_input_for(output)` yields less than
    /// `output`, and consuming a whole order takes at least one unit.
    proof fn lemma_fill_bounds(input: nat, output: nat, price: nat)
        requires
            1 <= output < 0x100000000000000000000000000000000nat,
            0 < price < 0x10000000000000000000000000000000000000000000000000000000000000000nat,
        ensures
            Self::spec_input_fits(output, price),
            1 <= Self::spec_input_for(output, price)
                < 0x10000000000000000000000000000000000000000000000000000000000000000nat,
            input < Self::spec_input_for(output, price) ==> Self::spec_output_fits(input, price)
                && Self::spec_output(input, price) < output,
    ;

    /// The bought amount for an input, rounded down.
    fn output_amount_floor(input: Amount, price: Price) -> (r: Amount)
        requires
            price@ > 0,
            Self::spec_output_fits(input@, price@),
        ensures
            r@ == Self::spec_output(input@, price@),
    ;

    /// The input needed to buy `output`, rounded up.
    fn input_amount_ceil(output: Amount, price: Price) -> (r: Amount)
        requires
            price@ > 0,
            Self::spec_input_fits(output@, price@),
        ensures
            r@ == Self::spec_input_for(output@, price@),
    ;
}

impl SwapDirection for crate::common::BaseToQuote {
    open spec fn spec_output(input: nat, price: nat) -> nat {
        (input * price) / 0x100000000000000000000000000000000nat
    }

    open spec fn spec_output_fits(input: nat, price: nat) -> bool {
        (input * price) / 0x100000000000000000000000000000000nat
            < 0x10000000000000000000000000000000000000000000000000000000000000000nat
    }

    open spec fn spec_input_for(output: nat, price: nat) -> nat {
        ((output * 0x100000000000000000000000000000000nat + price - 1) / (price as int)) as nat
    }

    open spec fn spec_input_fits(output: nat, price: nat) -> bool {
        (output * 0x100000000000000000000000000000000nat + price - 1) / (price as int)
            < 0x10000000000000000000000000000000000000000000000000000000000000000int
    }

    proof fn lemma_fill_bounds(input: nat, output: nat, price: nat) {
        let m = 0x100000000000000000000000000000000nat;
        let x = output * m;
        lemma_mul_inequality(1, output as int, m as int);
        lemma_ceil_div(x, price);
        lemma_div_nonincreasing(x as int, price as int);
        lemma_fundamental_div_mod(x as int, price as int);
        vstd::arithmetic::div_mod::lemma_mod_division_less_than_divisor(x as int, price as int);
        vstd::arithmetic::div_mod::lemma_div_pos_is_pos(x as int, price as int);
        let ceil = Self::spec_input_for(output, price);
        if x % price == 0 {
            assert(ceil == x / price);
        } else {
            assert(ceil == x / price + 1);
        }
        assert(ceil >= 1) by {
            vstd::arithmetic::mul::lemma_mul_basics(price as int);
            if x / price == 0 && x % price == 0 {
                assert(x == 0);
            }
        }
        if input < ceil {
            assert((ceil - 1) * price < x) by {
                vstd::arithmetic::mul::lemma_mul_basics(price as int);
                vstd::arithmetic::mul::lemma_mul_is_commutative(price as int, x as int / price as int);
                vstd::arithmetic::mul::lemma_mul_is_distributive_sub_other_way(
                    price as int,
                    ceil as int,
                    1,
                );
                vstd::arithmetic::mul::lemma_mul_is_commutative(price as int, ceil as int - 1);
                vstd::arithmetic::mul::lemma_mul_is_commutative(price as int, ceil as int);
            }
            lemma_mul_inequality(input as int, ceil as int - 1, price as int);
            lemma_multiply_divide_lt((input * price) as int, m as int, output as int);
        }
    }

    fn output_amount_floor(input: Amount, price: Price) -> (r: Amount) {
        let m = U256 { w0: 0, w1: 0, w2: 1, w3: 0 };
        mul_div_floor(&input, &price, &m)
    }

    fn input_amount_ceil(output: Amount, price: Price) -> (r: Amount) {
        let m = U256 { w0: 0, w1: 0, w2: 1, w3: 0 };
        mul_div_ceil(&output, &m, &price)
    }
}

impl SwapDirection for crate::common::QuoteToBase {
    open spec fn spec_output(input: nat, price: nat) -> nat {
        (input * 0x100000000000000000000000000000000nat) / price
    }

    open spec fn spec_output_fits(input: nat, price: nat) -> bool {
        price > 0 && (input * 0x100000000000000000000000000000000nat) / price
            < 0x10000000000000000000000000000000000000000000000000000000000000000nat
    }

    open spec fn spec_input_for(output: nat, price: nat) -> nat {
        ((output * price + 0x100000000000000000000000000000000nat - 1)
            / 0x100000000000000000000000000000000int) as nat
    }

    open spec fn spec_input_fits(output: nat, price: nat) -> bool {
        (output * price + 0x100000000000000000000000000000000nat - 1)
            / 0x100000000000000000000000000000000int
            < 0x10000000000000000000000000000000000000000000000000000000000000000int
    }

    proof fn lemma_fill_bounds(input: nat, output: nat, price: nat) {
        let m = 0x100000000000000000000000000000000nat;
        let x = output * price;
        vstd::arithmetic::mul::lemma_mul_upper_bound(
            output as int,
            m as int - 1,
            price as int,
            0x10000000000000000000000000000000000000000000000000000000000000000int - 1,
        );
        lemma_ceil_div(x, m);
        lemma_fundamental_div_mod(x as int, m as int);
        vstd::arithmetic::div_mod::lemma_mod_division_less_than_divisor(x as int, m as int);
        vstd::arithmetic::mul::lemma_mul_strictly_positive(output as int, price as int);
        vstd::arithmetic::div_mod::lemma_div_pos_is_pos(x as int, m as int);
        let ceil = Self::spec_input_for(output, price);
        if x % m == 0 {
            assert(ceil == x / m);
        } else {
            assert(ceil == x / m + 1);
        }
        assert(ceil >= 1) by {
            if x / m == 0 && x % m == 0 {
                assert(x == 0) by {
                    lemma_fundamental_div_mod(x as int, m as int);
                }
            }
        }
        assert(x / m < 0x10000000000000000000000000000000000000000000000000000000000000000int - 1)
            by {
            lemma_multiply_divide_lt(
                x as int,
                m as int,
                0x10000000000000000000000000000000000000000000000000000000000000000int - 1,
            );
        }
        if input < ceil {
            assert((ceil - 1) * m < x) by {
                vstd::arithmetic::mul::lemma_mul_is_distributive_sub_other_way(
                    m as int,
                    ceil as int,
                    1,
                );
                vstd::arithmetic::mul::lemma_mul_is_commutative(m as int, ceil as int - 1);
            }
            lemma_mul_inequality(input as int, ceil as int - 1, m as int);
            lemma_multiply_divide_lt((input * m) as int, price as int, output as int);
        }
    }

    fn output_amount_floor(input: Amount, price: Price) -> (r: Amount) {
        let m = U256 { w0: 0, w1: 0, w2: 1, w3: 0 };
        mul_div_floor(&input, &m, &price)
    }

    fn input_amount_ceil(output: Amount, price: Price) -> (r: Amount) {
        let m = U256 { w0: 0, w1: 0, w2: 1, w3: 0 };
        mul_div_ceil(&output, &price, &m)
    }
}

/// The limit-order pool: per sold asset, the open positions.
#[derive(Clone, Debug)]
pub struct PoolState {
    pub fee_hundredth_pips: u32,
    pub positions: PoolPairsMap<Vec<Position>>,
}

impl PoolState {
    pub open spec fn wf(self) -> bool {
        &&& self.fee_hundredth_pips <= MAX_LP_FEE
        &&& valid_orders(self.positions.base@)
        &&& valid_orders(self.positions.quote@)
    }

    pub open spec fn spec_orders(self, pair: Pairs) -> Seq<Position> {
        match pair {
            Pairs::Base => self.positions.base@,
            Pairs::Quote => self.positions.quote@,
        }
    }

    /// A fee is valid when it does not exceed half of one unit.
    pub fn validate_fees(fee_hundredth_pips: u32) -> (r: bool)
        ensures
            r == (fee_hundredth_pips <= MAX_LP_FEE),
    {
        fee_hundredth_pips <= MAX_LP_FEE
    }

    /// An empty pool; fails exactly when the fee is over the cap.
    pub fn new(fee_hundredth_pips: u32) -> (r: Result<Self, NewError>)
        ensures
            (fee_hundredth_pips <= MAX_LP_FEE) == (r is Ok),
            r is Ok ==> r->Ok_0.wf() && r->Ok_0.fee_hundredth_pips == fee_hundredth_pips
                && r->Ok_0.spec_orders(Pairs::Base).len() == 0 && r->Ok_0.spec_orders(
                Pairs::Quote,
            ).len() == 0,
    {
        if fee_hundredth_pips <= MAX_LP_FEE {
            Ok(PoolState {
                fee_hundredth_pips,
                positions: PoolPairsMap { base: Vec::new(), quote: Vec::new() },
            })
        } else {
            Err(NewError::InvalidFeeAmount)
        }
    }

    /// Mint a limit order selling `sold_amount` of the asset opposite `SD`'s
    /// input at `tick`. Fails if and only if the tick or its price is out of
    /// range, the amount is zero, or the amount is too large for fills to
    /// stay in width.
    pub fn collect_and_mint<SD: SwapDirection>(
        &mut self,
        lp: &LiquidityProvider,
        tick: Tick,
        sold_amount: Amount,
    ) -> (r: Result<(Collected, PositionInfo), PositionError<MintError>>)
        requires
            old(self).wf(),
        ensures
            final(self).wf(),
            final(self).fee_hundredth_pips == old(self).fee_hundredth_pips,
            r is Ok ==> {
                let bucket = SD::spec_input_side().spec_not();
                let now = final(self).spec_orders(bucket);
                let before = old(self).spec_orders(bucket);
                now.len() == before.len() + 1 && now.subrange(0, before.len() as int) == before
                    && now.last().lp == *lp && now.last().tick == tick && now.last().amount
                    == sold_amount && final(self).spec_orders(SD::spec_input_side()) == old(
                    self,
                ).spec_orders(SD::spec_input_side())
            },
            r is Err ==> *final(self) == *old(self),
            r is Err ==> !(spec_is_tick_valid(tick as int) && 1 <= sold_amount@ < 0x100000000000000000000000000000000nat
                && spec_is_sqrt_price_valid(spec_sqrt_price_at_tick(tick as int))),
            (spec_is_tick_valid(tick as int) && 1 <= sold_amount@
                < 0x100000000000000000000000000000000nat && spec_is_sqrt_price_valid(
                spec_sqrt_price_at_tick(tick as int),
            )) ==> r is Ok,
    {
        if !is_tick_valid(tick) {
            return Err(PositionError::InvalidTick);
        }
        if sold_amount.is_zero() {
            return Err(PositionError::Other(MintError::ZeroAmount));
        }
        let cap = U256 { w0: 0, w1: 0, w2: 1, w3: 0 };
        if !sold_amount.lt(&cap) {
            return Err(PositionError::Other(MintError::MaximumAmount));
        }
        let sqrt_price = sqrt_price_at_tick(tick);
        if !is_sqrt_price_valid(&sqrt_price) {
            return Err(PositionError::InvalidTick);
        }
        let pos = Position { lp: *lp, tick, amount: sold_amount, sqrt_price };
        match SD::input_side().not() {
            Pairs::Base => self.positions.base.push(pos),
            Pairs::Quote => self.positions.quote.push(pos),
        }
        Ok((Collected { fees: U256::zero() }, PositionInfo { amount: sold_amount }))
    }

    /// The most favorable order price for direction `SD`, if any order is
    /// open on that side.
    pub fn current_sqrt_price<SD: SwapDirection>(&self) -> (r: Option<SqrtPriceQ64F96>)
        requires
            self.wf(),
        ensures
            r is Some <==> self.spec_orders(SD::spec_input_side().spec_not()).len() > 0,
            r is Some ==> spec_is_sqrt_price_valid(r->Some_0@),
            r is Some ==> exists|i: int|
                0 <= i < self.spec_orders(SD::spec_input_side().spec_not()).len()
                    && (#[trigger] self.spec_orders(SD::spec_input_side().spec_not())[i]).sqrt_price
                    == r->Some_0 && most_favorable::<SD>(
                    self.spec_orders(SD::spec_input_side().spec_not()),
                    None,
                    i,
                    self.spec_orders(SD::spec_input_side().spec_not()).len() as int,
                ),
    {
        let orders = match SD::input_side().not() {
            Pairs::Base => &self.positions.base,
            Pairs::Quote => &self.positions.quote,
        };
        match best_eligible::<SD>(orders, &None) {
            Some(i) => {
                proof {
                    let book = self.spec_orders(SD::spec_input_side().spec_not());
                    assert(0 <= i < book.len() && book[i as int].sqrt_price == orders@[i as int].sqrt_price
                        && most_favorable::<SD>(book, None, i as int, book.len() as int));
                }
                Some(orders[i].sqrt_price)
            },
            None => {
                proof {
                    if orders@.len() > 0 {
                        assert(none_eligible::<SD>(orders@, None, orders@.len() as int));
                        let first = orders@[0];
                        assert(Option::<SqrtPriceQ64F96>::None is Some);
                    }
                }
                None
            },
        }
    }

    /// Fill up to `amount` against open orders, best price first, never
    /// crossing `sqrt_price_limit`. Returns the bought amount and the unsold
    /// remainder.
    pub fn swap<SD: SwapDirection>(
        &mut self,
        amount: Amount,
        sqrt_price_limit: Option<SqrtPriceQ64F96>,
    ) -> (r: (Amount, Amount))
        requires
            old(self).wf(),
        ensures
            final(self).wf(),
            final(self).fee_hundredth_pips == old(self).fee_hundredth_pips,
            r.1@ <= amount@,
            amount@ == 0 ==> r.0@ == 0 && r.1@ == 0,
            amount@ > 0 && !none_eligible::<SD>(
                old(self).spec_orders(SD::spec_input_side().spec_not()),
                sqrt_price_limit,
                old(self).spec_orders(SD::spec_input_side().spec_not()).len() as int,
            ) ==> r.1@ < amount@,
            final(self).spec_orders(SD::spec_input_side()) == old(self).spec_orders(
                SD::spec_input_side(),
            ),
            book_total(final(self).spec_orders(SD::spec_input_side().spec_not())) <= book_total(
                old(self).spec_orders(SD::spec_input_side().spec_not()),
            ),
            r.0@ == book_total(old(self).spec_orders(SD::spec_input_side().spec_not()))
                - book_total(final(self).spec_orders(SD::spec_input_side().spec_not())) || (r.0@
                == 0xffffffffffffffffffffffffffffffffffffffffffffffffffffffffffffffffnat
                && book_total(old(self).spec_orders(SD::spec_input_side().spec_not()))
                >= book_total(final(self).spec_orders(SD::spec_input_side().spec_not()))
                + 0xffffffffffffffffffffffffffffffffffffffffffffffffffffffffffffffffnat),
    {
        let mut remaining = amount;
        let mut total_output = U256::zero();
        loop
            invariant
                self.wf(),
                self.fee_hundredth_pips == old(self).fee_hundredth_pips,
                remaining@ <= amount@,
                amount@ == 0 ==> total_output@ == 0 && remaining@ == 0,
                remaining@ == amount@ ==> *self == *old(self),
                self.spec_orders(SD::spec_input_side()) == old(self).spec_orders(
                    SD::spec_input_side(),
                ),
                book_total(self.spec_orders(SD::spec_input_side().spec_not())) <= book_total(
                    old(self).spec_orders(SD::spec_input_side().spec_not()),
                ),
                total_output@ == book_total(old(self).spec_orders(SD::spec_input_side().spec_not()))
                    - book_total(self.spec_orders(SD::spec_input_side().spec_not())) || (
                total_output@
                    == 0xffffffffffffffffffffffffffffffffffffffffffffffffffffffffffffffffnat
                    && book_total(old(self).spec_orders(SD::spec_input_side().spec_not()))
                    >= book_total(self.spec_orders(SD::spec_input_side().spec_not()))
                    + 0xffffffffffffffffffffffffffffffffffffffffffffffffffffffffffffffffnat),
            ensures
                remaining@ < amount@ || amount@ == 0 || none_eligible::<SD>(
                    self.spec_orders(SD::spec_input_side().spec_not()),
                    sqrt_price_limit,
                    self.spec_orders(SD::spec_input_side().spec_not()).len() as int,
                ),
            decreases
                self.spec_orders(SD::spec_input_side().spec_not()).len(),
                remaining@,
        {
            if remaining.is_zero() {
                break;
            }
            let sold = SD::input_side().not();
            let idx = {
                let orders = match sold {
                    Pairs::Base => &self.positions.base,
                    Pairs::Quote => &self.positions.quote,
                };
                best_eligible::<SD>(orders, &sqrt_price_limit)
            };
            let i = match idx {
                Some(i) => i,
                None => { break; },
            };
            let pos = match sold {
                Pairs::Base => self.positions.base[i],
                Pairs::Quote => self.positions.quote[i],
            };
            let price = sqrt_price_to_price(pos.sqrt_price);
            proof {
                crate::uint256::lemma_u256_bound(price);
                SD::lemma_fill_bounds(remaining@, pos.amount@, price@);
            }
            let input_req = SD::input_amount_ceil(pos.amount, price);
            let ghost book_before = self.spec_orders(sold);
            if input_req.le(&remaining) {
                // the whole order is bought out and removed
                remaining = remaining.sub_unchecked(&input_req);
                total_output = total_output.saturating_add(&pos.amount);
                match sold {
                    Pairs::Base => {
                        self.positions.base.remove(i);
                    },
                    Pairs::Quote => {
                        self.positions.quote.remove(i);
                    },
                }
                proof {
                    assert(valid_orders(self.spec_orders(sold)));
                    lemma_book_total_remove(book_before, i as int);
                }
            } else {
                // a partial fill consumes all the input
                let bought = SD::output_amount_floor(remaining, price);
                let new_amount = pos.amount.sub_unchecked(&bought);
                let pos2 = Position { amount: new_amount, ..pos };
                match sold {
                    Pairs::Base => {
                        self.positions.base.remove(i);
                        self.positions.base.push(pos2);
                    },
                    Pairs::Quote => {
                        self.positions.quote.remove(i);
                        self.positions.quote.push(pos2);
                    },
                }
                total_output = total_output.saturating_add(&bought);
                remaining = U256::zero();
                proof {
                    assert(valid_orders(self.spec_orders(sold)));
                    lemma_book_total_remove(book_before, i as int);
                    lemma_book_total_push(book_before.remove(i as int), pos2);
                }
                break;
            }
        }
        (total_output, remaining)
    }
}


/// No order in the first `j` is eligible under `limit`.
pub open spec fn none_eligible<SD: SwapDirection>(
    orders: Seq<Position>,
    limit: Option<SqrtPriceQ64F96>,
    j: int,
) -> bool {
    forall|k: int|
        0 <= k < j ==> limit is Some && SD::spec_more_unfavorable(
            (#[trigger] orders[k]).sqrt_price@,
            limit->Some_0@,
        )
}

/// The order at `i` is at least as favorable as every eligible order in the
/// first `j`.
pub open spec fn most_favorable<SD: SwapDirection>(
    orders: Seq<Position>,
    limit: Option<SqrtPriceQ64F96>,
    i: int,
    j: int,
) -> bool {
    forall|k: int|
        0 <= k < j ==> !SD::spec_more_unfavorable(
            orders[i].sqrt_price@,
            (#[trigger] orders[k]).sqrt_price@,
        ) || (limit is Some && SD::spec_more_unfavorable(
            orders[k].sqrt_price@,
            limit->Some_0@,
        ))
}

/// The index of the most favorable order whose price does not violate
/// `limit`, if one exists.
fn best_eligible<SD: SwapDirection>(
    orders: &Vec<Position>,
    limit: &Option<SqrtPriceQ64F96>,
) -> (r: Option<usize>)
    requires
        valid_orders(orders@),
    ensures
        r is Some ==> r->Some_0 < orders@.len(),
        r is Some ==> (limit is Some ==> !SD::spec_more_unfavorable(
            orders@[r->Some_0 as int].sqrt_price@,
            limit->Some_0@,
        )),
        r is Some ==> most_favorable::<SD>(
            orders@,
            *limit,
            r->Some_0 as int,
            orders@.len() as int,
        ),
        r is None ==> none_eligible::<SD>(orders@, *limit, orders@.len() as int),
{
    let mut best: Option<usize> = None;
    let mut j: usize = 0;
    while j < orders.len()
        invariant
            j <= orders@.len(),
            valid_orders(orders@),
            best is Some ==> best->Some_0 < j,
            best is Some ==> (limit is Some ==> !SD::spec_more_unfavorable(
                orders@[best->Some_0 as int].sqrt_price@,
                limit->Some_0@,
            )),
            best is Some ==> most_favorable::<SD>(orders@, *limit, best->Some_0 as int, j as int),
            best is None ==> none_eligible::<SD>(orders@, *limit, j as int),
        decreases orders@.len() - j,
    {
        let p_j = orders[j].sqrt_price;
        let eligible = match limit {
            None => true,
            Some(l) => !SD::sqrt_price_op_more_than(p_j, *l),
        };
        if eligible {
            proof {
                SD::lemma_more_unfavorable_total(p_j@, p_j@, 0);
            }
            best = match best {
                None => Some(j),
                Some(b) => {
                    let p_b = orders[b].sqrt_price;
                    if SD::sqrt_price_op_more_than(p_b, p_j) {
                        proof {
                            assert forall|k: int| 0 <= k < j implies !SD::spec_more_unfavorable(
                                p_j@,
                                (#[trigger] orders@[k]).sqrt_price@,
                            ) || (limit is Some && SD::spec_more_unfavorable(
                                orders@[k].sqrt_price@,
                                limit->Some_0@,
                            )) by {
                                assert(most_favorable::<SD>(orders@, *limit, b as int, j as int));
                                SD::lemma_more_unfavorable_total(
                                    p_j@,
                                    p_b@,
                                    orders@[k].sqrt_price@,
                                );
                            }
                            assert(most_favorable::<SD>(orders@, *limit, j as int, j as int + 1));
                        }
                        Some(j)
                    } else {
                        proof {
                            SD::lemma_more_unfavorable_total(p_b@, p_j@, 0);
                        }
                        Some(b)
                    }
                },
            };
        } else {
            proof {
                if best is Some {
                    SD::lemma_more_unfavorable_total(
                        orders@[best->Some_0 as int].sqrt_price@,
                        p_j@,
                        0,
                    );
                }
            }
        }
        j = j + 1;
    }
    best
}

} // verus!
