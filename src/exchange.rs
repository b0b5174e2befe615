use vstd::prelude::*;

verus! {

/// Number of fixed-point units in one whole unit of money, of an asset, or of
/// a fee rate: `1.0` is written `SCALE`, `0.001` is written `SCALE / 1000`.
pub const SCALE: u64 = 100_000_000;

/// The fee `max(notional * pct, fixed)`, all quantities in fixed-point units.
pub open spec fn commission_spec(pct: int, fixed: int, notional: int) -> int {
    let proportional = notional * pct / (SCALE as int);
    if proportional >= fixed {
        proportional
    } else {
        fixed
    }
}

/// The product of two `u64` values fits in a `u128`.
pub proof fn lemma_product_fits_u128(a: u64, b: u64)
    ensures
        0 <= (a as int) * (b as int) <= u128::MAX,
{
    assert(0 <= (a as int) * (b as int) <= (u64::MAX as int) * (u64::MAX as int)) by (nonlinear_arith)
        requires
            0 <= a <= u64::MAX,
            0 <= b <= u64::MAX,
    ;
}

/// A trading venue's fee schedule.
pub struct Exchange {
    pub name: String,
    /// Proportional fee, as a fixed-point fraction of the notional.
    pub commission_pct: u64,
    /// Minimum fee charged per trade, in fixed-point money units.
    pub commission_fixed: u64,
}

impl Exchange {
    /// Commission owed on a trade of notional value `trade_value`: the larger
    /// of the proportional fee (rounded down) and the fixed fee. A zero
    /// notional is still charged the fixed fee.
    pub fn calculate_commission(&self, trade_value: u64) -> (r: u128)
        ensures
            r as int == commission_spec(
                self.commission_pct as int,
                self.commission_fixed as int,
                trade_value as int,
            ),
    {
        proof {
            lemma_product_fits_u128(trade_value, self.commission_pct);
        }
        let product: u128 = (trade_value as u128) * (self.commission_pct as u128);
        let proportional: u128 = product / (SCALE as u128);
        if proportional >= self.commission_fixed as u128 {
            proportional
        } else {
            self.commission_fixed as u128
        }
    }
}

} // verus!
