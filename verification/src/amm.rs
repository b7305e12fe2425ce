//! The swap router: one pool built from the two liquidity engines, walked in
//! strict price order with limit orders winning ties.

use vstd::prelude::*;

verus! {

use crate::common::BaseToQuote;
use crate::common::LiquidityProvider;
use crate::common::Pairs;
use crate::common::PoolPairsMap;
use crate::common::QuoteToBase;
use crate::common::Side;
use crate::limit_orders;
use crate::math::Amount;
use crate::math::SqrtPriceQ64F96;
use crate::math::Tick;
use crate::range_orders;
use crate::uint256::U256;

/// Whether the range engine can trade in direction `SD` under the caller's
/// limit: the resolved bound leaves room from the current price, and some
/// position's range crosses that room.
pub open spec fn range_can_trade<SD: crate::common::SwapDirection>(
    ro: range_orders::PoolState,
    sqrt_price_limit: Option<SqrtPriceQ64F96>,
) -> bool {
    let resolved = match sqrt_price_limit {
        Some(l) => l@,
        None => SD::spec_worst_sqrt_price(),
    };
    if SD::spec_input_side() == Pairs::Base {
        resolved < ro.current_sqrt_price@ && (exists|i: int|
            0 <= i < ro.positions@.len() && (#[trigger] ro.positions@[i]).lower_sqrt@
                < ro.current_sqrt_price@ && ro.positions@[i].upper_sqrt@ > resolved)
    } else {
        resolved > ro.current_sqrt_price@ && (exists|i: int|
            0 <= i < ro.positions@.len() && (#[trigger] ro.positions@[i]).upper_sqrt@
                > ro.current_sqrt_price@ && ro.positions@[i].lower_sqrt@ < resolved)
    }
}

/// A hybrid pool: a limit-order book and a range-order curve over the same
/// asset pair, swapped against as one.
#[derive(Clone, Debug)]
pub struct PoolState {
    pub limit_orders: limit_orders::PoolState,
    pub range_orders: range_orders::PoolState,
}

impl PoolState {
    pub open spec fn wf(self) -> bool {
        self.limit_orders.wf() && self.range_orders.wf()
    }

    /// Swap `sold_amount` of the asset chosen by `order`, never moving the
    /// price past `sqrt_price_limit`. Returns the bought amount and the
    /// unsold remainder; it never panics, and never reports more input used
    /// than was supplied.
    pub fn swap(
        &mut self,
        order: Side,
        sold_amount: Amount,
        sqrt_price_limit: Option<SqrtPriceQ64F96>,
    ) -> (r: (Amount, Amount))
        requires
            old(self).wf(),
        ensures
            final(self).wf(),
            r.1@ <= sold_amount@,
            sold_amount@ == 0 ==> r.0@ == 0 && r.1@ == 0 && *final(self) == *old(self),
            old(self).limit_orders.spec_orders(order.spec_to_sold_pair().spec_not()).len() == 0
                && old(self).range_orders.positions@.len() == 0 ==> r.0@ == 0 && r.1@
                == sold_amount@,
            sold_amount@ > 0 && order.spec_to_sold_pair() == Pairs::Base
                && !limit_orders::none_eligible::<BaseToQuote>(
                old(self).limit_orders.spec_orders(Pairs::Quote),
                sqrt_price_limit,
                old(self).limit_orders.spec_orders(Pairs::Quote).len() as int,
            ) ==> r.1@ < sold_amount@,
            sold_amount@ > 0 && order.spec_to_sold_pair() == Pairs::Quote
                && !limit_orders::none_eligible::<QuoteToBase>(
                old(self).limit_orders.spec_orders(Pairs::Base),
                sqrt_price_limit,
                old(self).limit_orders.spec_orders(Pairs::Base).len() as int,
            ) ==> r.1@ < sold_amount@,
            sold_amount@ > 0 && order.spec_to_sold_pair() == Pairs::Base && range_can_trade::<
                BaseToQuote,
            >(old(self).range_orders, sqrt_price_limit) ==> r.1@ < sold_amount@,
            sold_amount@ > 0 && order.spec_to_sold_pair() == Pairs::Quote && range_can_trade::<
                QuoteToBase,
            >(old(self).range_orders, sqrt_price_limit) ==> r.1@ < sold_amount@,
            final(self).limit_orders.spec_orders(order.spec_to_sold_pair()) == old(
                self,
            ).limit_orders.spec_orders(order.spec_to_sold_pair()),
            final(self).range_orders.positions@ == old(self).range_orders.positions@,
            limit_orders::book_total(
                final(self).limit_orders.spec_orders(order.spec_to_sold_pair().spec_not()),
            ) <= limit_orders::book_total(
                old(self).limit_orders.spec_orders(order.spec_to_sold_pair().spec_not()),
            ),
            r.0@ >= limit_orders::book_total(
                old(self).limit_orders.spec_orders(order.spec_to_sold_pair().spec_not()),
            ) - limit_orders::book_total(
                final(self).limit_orders.spec_orders(order.spec_to_sold_pair().spec_not()),
            ) || r.0@ == 0xffffffffffffffffffffffffffffffffffffffffffffffffffffffffffffffffnat,
            sqrt_price_limit is Some && order.spec_to_sold_pair() == Pairs::Base
                ==> final(self).range_orders.current_sqrt_price == old(
                self,
            ).range_orders.current_sqrt_price || final(self).range_orders.current_sqrt_price@
                >= sqrt_price_limit->Some_0@,
            sqrt_price_limit is Some && order.spec_to_sold_pair() == Pairs::Quote
                ==> final(self).range_orders.current_sqrt_price == old(
                self,
            ).range_orders.current_sqrt_price || final(self).range_orders.current_sqrt_price@
                <= sqrt_price_limit->Some_0@,
    {
        match order.to_sold_pair() {
            Pairs::Base => self.inner_swap::<BaseToQuote>(sold_amount, sqrt_price_limit),
            Pairs::Quote => self.inner_swap::<QuoteToBase>(sold_amount, sqrt_price_limit),
        }
    }

    /// The routing loop: at each step ask both sources for their price, pick
    /// the more favorable one (limit orders on a tie, which always make
    /// progress), execute against it, and repeat on the remainder. A step
    /// that consumes no input ends the swap, so the loop always terminates.
    fn inner_swap<SD: crate::common::SwapDirection + limit_orders::SwapDirection>(
        &mut self,
        sold_amount: Amount,
        sqrt_price_limit: Option<SqrtPriceQ64F96>,
    ) -> (r: (Amount, Amount))
        requires
            old(self).wf(),
        ensures
            final(self).wf(),
            r.1@ <= sold_amount@,
            sold_amount@ == 0 ==> r.0@ == 0 && r.1@ == 0 && *final(self) == *old(self),
            old(self).limit_orders.spec_orders(SD::spec_input_side().spec_not()).len() == 0
                && old(self).range_orders.positions@.len() == 0 ==> r.0@ == 0 && r.1@
                == sold_amount@,
            sold_amount@ > 0 && !limit_orders::none_eligible::<SD>(
                old(self).limit_orders.spec_orders(SD::spec_input_side().spec_not()),
                sqrt_price_limit,
                old(self).limit_orders.spec_orders(SD::spec_input_side().spec_not()).len() as int,
            ) ==> r.1@ < sold_amount@,
            sold_amount@ > 0 && range_can_trade::<SD>(old(self).range_orders, sqrt_price_limit)
                ==> r.1@ < sold_amount@,
            final(self).limit_orders.spec_orders(SD::spec_input_side()) == old(
                self,
            ).limit_orders.spec_orders(SD::spec_input_side()),
            final(self).range_orders.positions@ == old(self).range_orders.positions@,
            limit_orders::book_total(
                final(self).limit_orders.spec_orders(SD::spec_input_side().spec_not()),
            ) <= limit_orders::book_total(
                old(self).limit_orders.spec_orders(SD::spec_input_side().spec_not()),
            ),
            r.0@ >= limit_orders::book_total(
                old(self).limit_orders.spec_orders(SD::spec_input_side().spec_not()),
            ) - limit_orders::book_total(
                final(self).limit_orders.spec_orders(SD::spec_input_side().spec_not()),
            ) || r.0@ == 0xffffffffffffffffffffffffffffffffffffffffffffffffffffffffffffffffnat,
            sqrt_price_limit is Some ==> final(self).range_orders.current_sqrt_price == old(
                self,
            ).range_orders.current_sqrt_price || !SD::spec_more_unfavorable(
                final(self).range_orders.current_sqrt_price@,
                sqrt_price_limit->Some_0@,
            ),
    {
        let mut amount = sold_amount;
        let mut total_output = U256::zero();
        loop
            invariant_except_break
                amount@ == sold_amount@ ==> *self == *old(self),
            invariant
                self.wf(),
                amount@ <= sold_amount@,
                sold_amount@ == 0 ==> total_output@ == 0 && amount@ == 0 && *self == *old(self),
                self.limit_orders.spec_orders(SD::spec_input_side()) == old(
                    self,
                ).limit_orders.spec_orders(SD::spec_input_side()),
                self.range_orders.positions@ == old(self).range_orders.positions@,
                limit_orders::book_total(
                    self.limit_orders.spec_orders(SD::spec_input_side().spec_not()),
                ) <= limit_orders::book_total(
                    old(self).limit_orders.spec_orders(SD::spec_input_side().spec_not()),
                ),
                total_output@ >= limit_orders::book_total(
                    old(self).limit_orders.spec_orders(SD::spec_input_side().spec_not()),
                ) - limit_orders::book_total(
                    self.limit_orders.spec_orders(SD::spec_input_side().spec_not()),
                ) || total_output@ == 0xffffffffffffffffffffffffffffffffffffffffffffffffffffffffffffffffnat,
                sqrt_price_limit is Some ==> self.range_orders.current_sqrt_price == old(
                    self,
                ).range_orders.current_sqrt_price || !SD::spec_more_unfavorable(
                    self.range_orders.current_sqrt_price@,
                    sqrt_price_limit->Some_0@,
                ),
                old(self).limit_orders.spec_orders(SD::spec_input_side().spec_not()).len() == 0
                    && old(self).range_orders.positions@.len() == 0 ==> total_output@ == 0
                    && amount@ == sold_amount@ && *self == *old(self),
            ensures
                amount@ < sold_amount@ || sold_amount@ == 0 || (limit_orders::none_eligible::<
                    SD,
                >(
                    old(self).limit_orders.spec_orders(SD::spec_input_side().spec_not()),
                    sqrt_price_limit,
                    old(self).limit_orders.spec_orders(
                        SD::spec_input_side().spec_not(),
                    ).len() as int,
                ) && !range_can_trade::<SD>(old(self).range_orders, sqrt_price_limit)),
            decreases amount@,
        {
            proof {
                SD::lemma_direction_consistent();
            }
            if amount.is_zero() {
                break;
            }
            let ghost book = self.limit_orders.spec_orders(SD::spec_input_side().spec_not());
            // a limit order executes at exactly the caller's limit; a range
            // order at the limit would make no progress, so it needs strict
            // room (this also makes the tie-break below loop-safe)
            let limit_quote = self.limit_orders.current_sqrt_price::<SD>();
            let limit_price = match limit_quote {
                Some(p) => match &sqrt_price_limit {
                    Some(l) => {
                        if SD::sqrt_price_op_more_than(p, *l) {
                            None
                        } else {
                            Some(p)
                        }
                    },
                    None => Some(p),
                },
                None => None,
            };
            proof {
                if limit_price is None && limit_quote is Some {
                    // the most favorable order violates the limit, so all do
                    let p = limit_quote->Some_0;
                    let wi = choose|i: int|
                        0 <= i < book.len() && (#[trigger] book[i]).sqrt_price == p
                            && limit_orders::most_favorable::<SD>(book, None, i, book.len() as int);
                    assert forall|k: int| 0 <= k < book.len() implies sqrt_price_limit is Some
                        && SD::spec_more_unfavorable(
                        (#[trigger] book[k]).sqrt_price@,
                        sqrt_price_limit->Some_0@,
                    ) by {
                        SD::lemma_more_unfavorable_total(
                            sqrt_price_limit->Some_0@,
                            p@,
                            book[k].sqrt_price@,
                        );
                        SD::lemma_more_unfavorable_total(
                            book[k].sqrt_price@,
                            sqrt_price_limit->Some_0@,
                            0,
                        );
                    }
                }
                if limit_price is None {
                    assert(limit_orders::none_eligible::<SD>(
                        book,
                        sqrt_price_limit,
                        book.len() as int,
                    ));
                }
            }
            let range_quote = self.range_orders.current_sqrt_price::<SD>();
            let range_price = match range_quote {
                Some(p) => match &sqrt_price_limit {
                    Some(l) => {
                        if SD::sqrt_price_op_more_than(*l, p) {
                            Some(p)
                        } else {
                            None
                        }
                    },
                    None => Some(p),
                },
                None => None,
            };
            proof {
                if range_price is None {
                    assert(!range_can_trade::<SD>(self.range_orders, sqrt_price_limit)) by {
                        let ro = self.range_orders;
                        if range_can_trade::<SD>(ro, sqrt_price_limit) {
                            if SD::spec_input_side() == Pairs::Base {
                                let i = choose|i: int|
                                    0 <= i < ro.positions@.len() && (#[trigger] ro.positions@[i]).lower_sqrt@
                                        < ro.current_sqrt_price@ && ro.positions@[i].upper_sqrt@
                                        > sqrt_price_limit->Some_0@;
                                assert(range_orders::has_reach_below(
                                    ro.positions@,
                                    ro.current_sqrt_price@,
                                ));
                                assert(range_quote is Some);
                                let p = range_quote->Some_0;
                                if !range_orders::has_active_below(
                                    ro.positions@,
                                    ro.current_sqrt_price@,
                                ) {
                                    assert(range_orders::below_candidate(
                                        ro.positions@[i],
                                        ro.current_sqrt_price@,
                                    ) <= p@);
                                }
                                assert(false);
                            } else {
                                let i = choose|i: int|
                                    0 <= i < ro.positions@.len() && (#[trigger] ro.positions@[i]).upper_sqrt@
                                        > ro.current_sqrt_price@ && ro.positions@[i].lower_sqrt@
                                        < sqrt_price_limit->Some_0@;
                                assert(range_orders::has_reach_above(
                                    ro.positions@,
                                    ro.current_sqrt_price@,
                                ));
                                assert(range_quote is Some);
                                let p = range_quote->Some_0;
                                if !range_orders::has_active_above(
                                    ro.positions@,
                                    ro.current_sqrt_price@,
                                ) {
                                    assert(range_orders::above_candidate(
                                        ro.positions@[i],
                                        ro.current_sqrt_price@,
                                    ) >= p@);
                                }
                                assert(false);
                            }
                        }
                    }
                }
            }
            let (output_amount, remaining_amount) = match (limit_price, range_price) {
                (Some(limit_order_sqrt_price), Some(range_order_sqrt_price)) => {
                    if SD::sqrt_price_op_more_than(
                        limit_order_sqrt_price,
                        range_order_sqrt_price,
                    ) {
                        let ghost ro = self.range_orders;
                        let res = self.range_orders.swap::<SD>(
                            amount,
                            Some(limit_order_sqrt_price),
                        );
                        proof {
                            // the range quote is strictly better than the
                            // bound, so the step provably consumes input
                            if SD::spec_input_side() == Pairs::Base {
                                if range_orders::has_active_below(
                                    ro.positions@,
                                    ro.current_sqrt_price@,
                                ) {
                                } else {
                                    assert(range_orders::has_active_below(
                                        ro.positions@,
                                        range_order_sqrt_price@,
                                    ));
                                }
                            } else {
                                if range_orders::has_active_above(
                                    ro.positions@,
                                    ro.current_sqrt_price@,
                                ) {
                                } else {
                                    assert(range_orders::has_active_above(
                                        ro.positions@,
                                        range_order_sqrt_price@,
                                    ));
                                }
                            }
                            assert(res.1@ < amount@);
                            if sqrt_price_limit is Some {
                                SD::lemma_more_unfavorable_total(
                                    self.range_orders.current_sqrt_price@,
                                    limit_order_sqrt_price@,
                                    sqrt_price_limit->Some_0@,
                                );
                            }
                        }
                        res
                    } else {
                        // on equal prices the limit order trades first: it
                        // fills at that price with strictly positive input,
                        // where a range order bounded by its own price would
                        // execute nothing, and it costs the taker no slippage
                        let res = self.limit_orders.swap::<SD>(
                            amount,
                            Some(range_order_sqrt_price),
                        );
                        proof {
                            let wi = choose|i: int|
                                0 <= i < book.len() && (#[trigger] book[i]).sqrt_price
                                    == limit_order_sqrt_price && limit_orders::most_favorable::<
                                    SD,
                                >(book, None, i, book.len() as int);
                            assert(!limit_orders::none_eligible::<SD>(
                                book,
                                Some(range_order_sqrt_price),
                                book.len() as int,
                            ));
                            assert(res.1@ < amount@);
                        }
                        res
                    }
                },
                (Some(limit_order_sqrt_price), None) => {
                    let res = self.limit_orders.swap::<SD>(amount, sqrt_price_limit);
                    proof {
                        let wi = choose|i: int|
                            0 <= i < book.len() && (#[trigger] book[i]).sqrt_price
                                == limit_order_sqrt_price && limit_orders::most_favorable::<SD>(
                                book,
                                None,
                                i,
                                book.len() as int,
                            );
                        assert(!limit_orders::none_eligible::<SD>(
                            book,
                            sqrt_price_limit,
                            book.len() as int,
                        ));
                        assert(res.1@ < amount@);
                    }
                    res
                },
                (None, Some(_)) => {
                    let res = self.range_orders.swap::<SD>(amount, sqrt_price_limit);
                    res
                },
                (None, None) => {
                    break;
                },
            };
            if !remaining_amount.lt(&amount) {
                // no progress: both sources are exhausted at this price
                total_output = total_output.saturating_add(&output_amount);
                amount = remaining_amount;
                break;
            }
            amount = remaining_amount;
            total_output = total_output.saturating_add(&output_amount);
        }
        (total_output, amount)
    }

    /// Mint a limit order: `order` is the side whose taker the order serves,
    /// so the order sells the asset that side buys.
    pub fn collect_and_mint_limit_order(
        &mut self,
        lp: &LiquidityProvider,
        order: Side,
        tick: Tick,
        sold_amount: Amount,
    ) -> (r: Result<
        (limit_orders::Collected, limit_orders::PositionInfo),
        limit_orders::PositionError<limit_orders::MintError>,
    >)
        requires
            old(self).wf(),
        ensures
            final(self).wf(),
            final(self).range_orders == old(self).range_orders,
            final(self).limit_orders.fee_hundredth_pips == old(
                self,
            ).limit_orders.fee_hundredth_pips,
            r is Ok <==> (crate::math::spec_is_tick_valid(tick as int) && 1 <= sold_amount@
                < 0x100000000000000000000000000000000nat && crate::math::spec_is_sqrt_price_valid(
                crate::math::spec_sqrt_price_at_tick(tick as int),
            )),
            r is Err ==> *final(self) == *old(self),
            r is Ok ==> {
                let bucket = order.spec_to_sold_pair();
                let now = final(self).limit_orders.spec_orders(bucket);
                let before = old(self).limit_orders.spec_orders(bucket);
                now.len() == before.len() + 1 && now.subrange(0, before.len() as int) == before
                    && now.last().lp == *lp && now.last().tick == tick && now.last().amount
                    == sold_amount && final(self).limit_orders.spec_orders(bucket.spec_not())
                    == old(self).limit_orders.spec_orders(bucket.spec_not())
            },
    {
        match order.to_sold_pair() {
            Pairs::Base => self.limit_orders.collect_and_mint::<QuoteToBase>(
                lp,
                tick,
                sold_amount,
            ),
            Pairs::Quote => self.limit_orders.collect_and_mint::<BaseToQuote>(
                lp,
                tick,
                sold_amount,
            ),
        }
    }

    /// Mint a range order over `lower_tick .. upper_tick`, debiting the owed
    /// amounts through `try_debit`.
    pub fn collect_and_mint_range_order<
        T,
        E,
        TryDebit: FnOnce(PoolPairsMap<Amount>) -> Result<T, E>,
    >(
        &mut self,
        lp: &LiquidityProvider,
        lower_tick: Tick,
        upper_tick: Tick,
        size: range_orders::Size,
        try_debit: TryDebit,
    ) -> (r: Result<
        (T, range_orders::Liquidity, range_orders::Collected, range_orders::PositionInfo),
        range_orders::PositionError<range_orders::MintError<E>>,
    >)
        requires
            old(self).wf(),
            forall|a: PoolPairsMap<Amount>| #[trigger] call_requires(try_debit, (a,)),
        ensures
            final(self).wf(),
            final(self).limit_orders == old(self).limit_orders,
            final(self).range_orders.fee_hundredth_pips == old(
                self,
            ).range_orders.fee_hundredth_pips,
            final(self).range_orders.current_sqrt_price == old(self).range_orders.current_sqrt_price,
            r is Err ==> final(self).range_orders.positions@ == old(self).range_orders.positions@,
            !(crate::math::spec_is_tick_valid(lower_tick as int) && crate::math::spec_is_tick_valid(
                upper_tick as int,
            ) && lower_tick < upper_tick) ==> r == Err::<
                (T, range_orders::Liquidity, range_orders::Collected, range_orders::PositionInfo),
                range_orders::PositionError<range_orders::MintError<E>>,
            >(range_orders::PositionError::InvalidTickRange),
            range_orders::mint_range_acceptable(lower_tick as int, upper_tick as int, size) ==> {
                let base_owed = range_orders::mint_base_owed(
                    size->Liquidity_liquidity as nat,
                    old(self).range_orders.current_sqrt_price@,
                    crate::math::spec_sqrt_price_at_tick(lower_tick as int),
                    crate::math::spec_sqrt_price_at_tick(upper_tick as int),
                );
                let quote_owed = range_orders::mint_quote_owed(
                    size->Liquidity_liquidity as nat,
                    old(self).range_orders.current_sqrt_price@,
                    crate::math::spec_sqrt_price_at_tick(lower_tick as int),
                    crate::math::spec_sqrt_price_at_tick(upper_tick as int),
                );
                &&& (r is Ok ==> exists|owed: PoolPairsMap<Amount>|
                    (#[trigger] call_ensures(try_debit, (owed,), Result::<T, E>::Ok(r->Ok_0.0)))
                        && owed.base@ == base_owed && owed.quote@ == quote_owed)
                &&& (r is Err ==> (r->Err_0 matches range_orders::PositionError::Other(
                    range_orders::MintError::CallbackFailed(e),
                ) && (exists|owed: PoolPairsMap<Amount>|
                    (#[trigger] call_ensures(try_debit, (owed,), Result::<T, E>::Err(e)))
                        && owed.base@ == base_owed && owed.quote@ == quote_owed)))
            },
            r is Ok ==> r->Ok_0.1 == size->Liquidity_liquidity && r->Ok_0.3.liquidity
                == size->Liquidity_liquidity,
            r is Ok ==> {
                let now = final(self).range_orders.positions@;
                let before = old(self).range_orders.positions@;
                &&& now.len() == before.len() + 1
                &&& now.subrange(0, before.len() as int) == before
                &&& now.last().lp == *lp
                &&& now.last().lower_tick == lower_tick
                &&& now.last().upper_tick == upper_tick
                &&& now.last().liquidity == size->Liquidity_liquidity
            },
    {
        self.range_orders.collect_and_mint(lp, lower_tick, upper_tick, size, try_debit)
    }
}

} // verus!
