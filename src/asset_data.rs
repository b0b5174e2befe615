use vstd::prelude::*;
use crate::error::BacktestError;
use crate::exchange::{commission_spec, lemma_product_fits_u128, Exchange, SCALE};

verus! {

/// Money left after paying `fee` out of `notional`; a fee larger than the
/// notional consumes all of it.
pub open spec fn net_of(notional: int, fee: int) -> int {
    if fee < notional {
        notional - fee
    } else {
        0
    }
}

/// Value of `positions` units at `price`, rounded down.
pub open spec fn value_of(positions: int, price: int) -> int {
    positions * price / (SCALE as int)
}

/// Units of the asset that `amount` buys at `price`, rounded down.
pub open spec fn quantity_for(amount: int, price: int) -> int {
    amount * (SCALE as int) / price
}

/// `(cash, positions)` after an all-in / all-out reaction to `signal`:
/// a positive signal spends all cash, a negative one sells every unit, and
/// anything else (or a side with nothing to trade) leaves both alone.
pub open spec fn trade_spec(cash: int, positions: int, signal: int, price: int, pct: int, fixed: int) -> (int, int) {
    if signal > 0 && cash > 0 {
        (0, positions + quantity_for(net_of(cash, commission_spec(pct, fixed, cash)), price))
    } else if signal < 0 && positions > 0 {
        let proceeds = value_of(positions, price);
        (cash + net_of(proceeds, commission_spec(pct, fixed, proceeds)), 0)
    } else {
        (cash, positions)
    }
}

/// The trade of `trade_spec` can be represented: every amount it computes
/// fits in a `u64`.
pub open spec fn trade_fits(cash: int, positions: int, signal: int, price: int, pct: int, fixed: int) -> bool {
    if signal > 0 && cash > 0 {
        trade_spec(cash, positions, signal, price, pct, fixed).1 <= u64::MAX
    } else if signal < 0 && positions > 0 {
        value_of(positions, price) <= u64::MAX && trade_spec(cash, positions, signal, price, pct, fixed).0
            <= u64::MAX
    } else {
        true
    }
}

/// All-in: a buy signal with cash on hand and a fee no larger than that cash
/// spends all of it, and the units bought are the cash net of the fee at
/// `price`, rounded down.
pub proof fn lemma_all_in_buy(cash: int, positions: int, signal: int, price: int, pct: int, fixed: int)
    requires
        signal > 0,
        cash > 0,
        commission_spec(pct, fixed, cash) <= cash,
    ensures
        trade_spec(cash, positions, signal, price, pct, fixed) == (
            0int,
            positions + (cash - commission_spec(pct, fixed, cash)) * (SCALE as int) / price,
        ),
{
}

/// All-out: a sell signal with units on hand sells every one of them, and
/// the cash grows by their value at `price` net of the fee on it (nothing where
/// the fee is larger).
pub proof fn lemma_all_out_sell(cash: int, positions: int, signal: int, price: int, pct: int, fixed: int)
    requires
        signal < 0,
        positions > 0,
    ensures
        trade_spec(cash, positions, signal, price, pct, fixed) == (
            cash + net_of(value_of(positions, price), commission_spec(pct, fixed, value_of(positions, price))),
            0int,
        ),
{
}

/// The numbers of one ledger.
pub struct Book {
    pub cash: int,
    pub positions: int,
    pub position_value: int,
    pub total_value: int,
}

/// The ledger after trading on `signal` at `price` and marking it to `price`,
/// or `None` where an amount would not fit in a `u64`.
pub open spec fn step_spec(b: Book, signal: int, price: int, pct: int, fixed: int) -> Option<Book> {
    let (cash, positions) = trade_spec(b.cash, b.positions, signal, price, pct, fixed);
    let position_value = value_of(positions, price);
    if !trade_fits(b.cash, b.positions, signal, price, pct, fixed) || cash + position_value > u64::MAX {
        None
    } else {
        Some(
            Book {
                cash,
                positions,
                position_value,
                total_value: cash + position_value,
            },
        )
    }
}

/// Cash, position and value bookkeeping of one traded symbol.
pub struct AssetData {
    /// Ticker symbol of the asset.
    pub symbol: String,
    /// Cash of this asset's sub-account, in fixed-point money units.
    pub cash: u64,
    /// Units of the asset held, in fixed-point units.
    pub positions: u64,
    /// Value of the held units at the last price seen.
    pub position_value: u64,
    /// `cash + position_value`.
    pub total_value: u64,
    /// `total_value` after each processed row, oldest first.
    pub history: Vec<u64>,
}

impl AssetData {
    pub open spec fn book(&self) -> Book {
        Book {
            cash: self.cash as int,
            positions: self.positions as int,
            position_value: self.position_value as int,
            total_value: self.total_value as int,
        }
    }

    /// A ledger with `cash`, `positions` units valued at `position_value`, and
    /// an empty history. Its total value starts as its cash.
    pub fn new(symbol: &str, cash: u64, positions: u64, position_value: u64) -> (r: AssetData)
        ensures
            r.symbol@ == symbol@,
            r.cash == cash,
            r.positions == positions,
            r.position_value == position_value,
            r.total_value == cash,
            r.history@ == Seq::<u64>::empty(),
    {
        AssetData {
            symbol: symbol.to_owned(),
            cash,
            positions,
            position_value,
            total_value: cash,
            history: Vec::new(),
        }
    }

    /// The same ledger, field by field.
    pub(crate) fn duplicate(&self) -> (r: AssetData)
        ensures
            r.symbol == self.symbol,
            r.book() == self.book(),
            r.history@ == self.history@,
    {
        AssetData {
            symbol: self.symbol.clone(),
            cash: self.cash,
            positions: self.positions,
            position_value: self.position_value,
            total_value: self.total_value,
            history: self.history.clone(),
        }
    }

    /// Reacts to `signal` at `price` as `trade_spec` says. On
    /// `ValueOutOfRange` the ledger is left as it was.
    pub fn apply_trade(&mut self, signal: i32, price: u64, exchange: &Exchange) -> (r: Result<(), BacktestError>)
        requires
            price > 0,
        ensures
            r is Ok <==> trade_fits(
                old(self).cash as int,
                old(self).positions as int,
                signal as int,
                price as int,
                exchange.commission_pct as int,
                exchange.commission_fixed as int,
            ),
            r is Ok ==> (final(self).cash as int, final(self).positions as int) == trade_spec(
                old(self).cash as int,
                old(self).positions as int,
                signal as int,
                price as int,
                exchange.commission_pct as int,
                exchange.commission_fixed as int,
            ),
            r is Ok ==> final(self).symbol == old(self).symbol && final(self).position_value
                == old(self).position_value && final(self).total_value == old(self).total_value
                && final(self).history == old(self).history,
            r is Err ==> r == Err::<(), BacktestError>(BacktestError::ValueOutOfRange) && *final(self)
                == *old(self),
    {
        if signal > 0 && self.cash > 0 {
            let trade_value = self.cash;
            let commission = exchange.calculate_commission(trade_value);
            let net: u64 = if commission < trade_value as u128 {
                trade_value - (commission as u64)
            } else {
                0
            };
            let bought: u128 = (net as u128) * (SCALE as u128) / (price as u128);
            if bought > (u64::MAX - self.positions) as u128 {
                return Err(BacktestError::ValueOutOfRange);
            }
            self.positions = self.positions + bought as u64;
            self.cash = 0;
        } else if signal < 0 && self.positions > 0 {
            proof {
                lemma_product_fits_u128(self.positions, price);
            }
            let gross: u128 = (self.positions as u128) * (price as u128) / (SCALE as u128);
            if gross > u64::MAX as u128 {
                return Err(BacktestError::ValueOutOfRange);
            }
            let trade_value = gross as u64;
            let commission = exchange.calculate_commission(trade_value);
            let net: u64 = if commission < trade_value as u128 {
                trade_value - (commission as u64)
            } else {
                0
            };
            if net > u64::MAX - self.cash {
                return Err(BacktestError::ValueOutOfRange);
            }
            self.cash = self.cash + net;
            self.positions = 0;
        }
        Ok(())
    }

    /// Revalues the held units at `price`, recomputes the total value and
    /// appends it to the history. On `ValueOutOfRange` the ledger is left as
    /// it was.
    pub fn mark_to_market(&mut self, price: u64) -> (r: Result<(), BacktestError>)
        ensures
            r is Ok <==> old(self).cash + value_of(old(self).positions as int, price as int) <= u64::MAX,
            r is Ok ==> final(self).position_value == value_of(old(self).positions as int, price as int)
                && final(self).total_value == final(self).cash + final(self).position_value
                && final(self).history@ == old(self).history@.push(final(self).total_value)
                && final(self).cash == old(self).cash && final(self).positions == old(self).positions
                && final(self).symbol == old(self).symbol,
            r is Err ==> r == Err::<(), BacktestError>(BacktestError::ValueOutOfRange) && *final(self)
                == *old(self),
    {
        proof {
            lemma_product_fits_u128(self.positions, price);
        }
        let value: u128 = (self.positions as u128) * (price as u128) / (SCALE as u128);
        if value > (u64::MAX - self.cash) as u128 {
            return Err(BacktestError::ValueOutOfRange);
        }
        self.position_value = value as u64;
        self.total_value = self.cash + self.position_value;
        self.history.push(self.total_value);
        Ok(())
    }
}

} // verus!
