use vstd::prelude::*;
use crate::error::BacktestError;
use crate::exchange::lemma_product_fits_u128;

verus! {

/// The exact fraction `num / den`. Every ratio this library builds has a
/// positive denominator.
#[derive(Debug, Clone, Copy, PartialEq, Eq, Structural)]
pub struct Ratio {
    pub num: i128,
    pub den: u64,
}

/// A ratio is negative when it is a number below zero.
pub open spec fn is_negative(r: Ratio) -> bool {
    r.num < 0 && r.den > 0
}

/// `final / initial - 1`, written as `(final - initial) / initial`; no value
/// without initial capital.
pub open spec fn total_return_of(final_value: u64, initial: u64) -> Result<Ratio, BacktestError> {
    if initial == 0 {
        Err(BacktestError::UndefinedMetric)
    } else {
        Ok(Ratio { num: (final_value - initial) as i128, den: initial })
    }
}

/// The total return of a portfolio worth `final_portfolio_value` that started
/// with `initial_capital`.
pub fn calculate_total_return(final_portfolio_value: u64, initial_capital: u64) -> (r: Result<Ratio, BacktestError>)
    ensures
        r == total_return_of(final_portfolio_value, initial_capital),
{
    if initial_capital == 0 {
        Err(BacktestError::UndefinedMetric)
    } else {
        Ok(Ratio { num: final_portfolio_value as i128 - initial_capital as i128, den: initial_capital })
    }
}

/// Relative change from each value to the next, oldest first. A step from a
/// zero value has no relative change and contributes nothing.
pub open spec fn period_returns(values: Seq<u64>) -> Seq<Ratio>
    decreases values.len(),
{
    if values.len() < 2 {
        Seq::empty()
    } else {
        let prior = period_returns(values.drop_last());
        let from = values[values.len() - 2];
        let to = values.last();
        if from == 0 {
            prior
        } else {
            prior.push(Ratio { num: (to - from) as i128, den: from })
        }
    }
}

/// The period-over-period changes of a value history: `values[i] / values[i - 1] - 1`
/// for each step, leaving out the steps from a zero value.
pub fn calculate_daily_returns(daily_values: &Vec<u64>) -> (r: Vec<Ratio>)
    ensures
        r@ == period_returns(daily_values@),
{
    let mut r: Vec<Ratio> = Vec::new();
    if daily_values.len() < 2 {
        return r;
    }
    let mut i: usize = 1;
    while i < daily_values.len()
        invariant
            1 <= i <= daily_values.len(),
            r@ == period_returns(daily_values@.take(i as int)),
        decreases daily_values.len() - i,
    {
        let from = daily_values[i - 1];
        let to = daily_values[i];
        proof {
            assert(daily_values@.take(i + 1).drop_last() =~= daily_values@.take(i as int));
        }
        if from != 0 {
            r.push(Ratio { num: to as i128 - from as i128, den: from });
        }
        i = i + 1;
    }
    proof {
        assert(daily_values@.take(i as int) =~= daily_values@);
    }
    r
}

/// The negative entries of `series`, in order.
pub open spec fn negatives(series: Seq<Ratio>) -> Seq<Ratio>
    decreases series.len(),
{
    if series.len() == 0 {
        Seq::empty()
    } else {
        let prior = negatives(series.drop_last());
        if is_negative(series.last()) {
            prior.push(series.last())
        } else {
            prior
        }
    }
}

proof fn lemma_negatives_empty(series: Seq<Ratio>)
    ensures
        negatives(series).len() == 0 <==> forall|i: int| 0 <= i < series.len() ==> !is_negative(#[trigger] series[i]),
    decreases series.len(),
{
    if series.len() > 0 {
        lemma_negatives_empty(series.drop_last());
        assert forall|i: int| 0 <= i < series.len() - 1 implies series.drop_last()[i] == series[i] by {}
    }
}

/// The downside part of a return series, on which a Sortino ratio's
/// dispersion is measured. With no negative return that dispersion, and so
/// the ratio, is undefined.
pub fn downside_returns(series: &Vec<Ratio>) -> (r: Result<Vec<Ratio>, BacktestError>)
    ensures
        (forall|i: int| 0 <= i < series@.len() ==> !is_negative(#[trigger] series@[i])) ==> r
            == Err::<Vec<Ratio>, BacktestError>(BacktestError::UndefinedMetric),
        (exists|i: int| 0 <= i < series@.len() && is_negative(#[trigger] series@[i])) ==> r is Ok
            && r->Ok_0@ == negatives(series@),
{
    let mut r: Vec<Ratio> = Vec::new();
    let mut i: usize = 0;
    while i < series.len()
        invariant
            i <= series.len(),
            r@ == negatives(series@.take(i as int)),
        decreases series.len() - i,
    {
        let x = series[i];
        proof {
            assert(series@.take(i + 1).drop_last() =~= series@.take(i as int));
        }
        if x.num < 0 && x.den > 0 {
            r.push(x);
        }
        i = i + 1;
    }
    proof {
        assert(series@.take(i as int) =~= series@);
        lemma_negatives_empty(series@);
    }
    if r.len() == 0 {
        Err(BacktestError::UndefinedMetric)
    } else {
        Ok(r)
    }
}

/// The highest of `values[0..=t]`.
pub open spec fn running_max(values: Seq<u64>, t: int) -> int
    decreases t,
{
    if t <= 0 {
        values[0] as int
    } else {
        let before = running_max(values, t - 1);
        if before >= values[t] {
            before
        } else {
            values[t] as int
        }
    }
}

/// The drawdown at `t`: `values[t] / running_max(values, t) - 1`.
pub open spec fn drawdown_at(values: Seq<u64>, t: int) -> Ratio {
    Ratio { num: (values[t] - running_max(values, t)) as i128, den: running_max(values, t) as u64 }
}

/// `a / b >= c / d`, for positive `b` and `d`.
pub open spec fn ratio_ge(a: int, b: int, c: int, d: int) -> bool {
    a * d >= c * b
}

/// `r` is the least drawdown of `values` (zero where there is no fall): no
/// drawdown is below it, and it is zero or one of them.
pub open spec fn is_maximum_drawdown(values: Seq<u64>, r: Ratio) -> bool {
    &&& r.den > 0
    &&& r.num <= 0
    &&& forall|t: int|
        0 <= t < values.len() && running_max(values, t) > 0 ==> ratio_ge(
            #[trigger] drawdown_at(values, t).num as int,
            running_max(values, t),
            r.num as int,
            r.den as int,
        )
    &&& r.num == 0 || exists|t: int|
        0 <= t < values.len() && running_max(values, t) > 0 && r == #[trigger] drawdown_at(values, t)
}

proof fn lemma_ratio_ge_trans(a: int, b: int, c: int, d: int, e: int, f: int)
    requires
        b > 0,
        d > 0,
        f > 0,
        ratio_ge(a, b, c, d),
        ratio_ge(c, d, e, f),
    ensures
        ratio_ge(a, b, e, f),
{
    assert(d * (a * f) >= d * (e * b)) by (nonlinear_arith)
        requires
            b > 0,
            d > 0,
            f > 0,
            a * d >= c * b,
            c * f >= e * d,
    {
        assert(f * (a * d) >= f * (c * b));
        assert(b * (c * f) >= b * (e * d));
    }
    assert(a * f >= e * b) by (nonlinear_arith)
        requires
            d > 0,
            d * (a * f) >= d * (e * b),
    ;
}

proof fn lemma_running_max_bounds(values: Seq<u64>, t: int)
    requires
        0 <= t < values.len(),
    ensures
        values[t] <= running_max(values, t) <= u64::MAX,
        forall|s: int| 0 <= s <= t ==> values[s] <= running_max(values, t),
    decreases t,
{
    if t > 0 {
        lemma_running_max_bounds(values, t - 1);
    }
}

/// The largest peak-to-trough fall of a value history, as a fraction of the
/// peak: the least of `drawdown_at(values, t)` over the points whose running
/// peak is positive, and zero when there is none or the history never falls.
pub fn calculate_maximum_drawdown(portfolio_values: &Vec<u64>) -> (r: Ratio)
    ensures
        is_maximum_drawdown(portfolio_values@, r),
{
    let ghost v = portfolio_values@;
    let mut peak: u64 = 0;
    let mut drop: u64 = 0;
    let mut base: u64 = 1;
    let mut i: usize = 0;
    while i < portfolio_values.len()
        invariant
            i <= v.len(),
            v == portfolio_values@,
            base > 0,
            drop <= base,
            i == 0 ==> peak == 0,
            i > 0 ==> peak == running_max(v, i - 1),
            forall|t: int|
                0 <= t < i && running_max(v, t) > 0 ==> ratio_ge(
                    #[trigger] drawdown_at(v, t).num as int,
                    running_max(v, t),
                    -(drop as int),
                    base as int,
                ),
            drop == 0 || exists|t: int|
                0 <= t < i && running_max(v, t) > 0 && drawdown_at(v, t).num == -(drop as int)
                    && #[trigger] drawdown_at(v, t).den == base,
        decreases v.len() - i,
    {
        let x = portfolio_values[i];
        if x > peak {
            peak = x;
        }
        proof {
            lemma_running_max_bounds(v, i as int);
            assert(peak == running_max(v, i as int));
        }
        if peak > 0 {
            let fall: u64 = peak - x;
            proof {
                lemma_product_fits_u128(fall, base);
                lemma_product_fits_u128(drop, peak);
            }
            if (fall as u128) * (base as u128) > (drop as u128) * (peak as u128) {
                proof {
                    assert(ratio_ge(-(drop as int), base as int, -(fall as int), peak as int)) by (nonlinear_arith)
                        requires
                            (fall as int) * (base as int) > (drop as int) * (peak as int),
                    ;
                    assert forall|t: int|
                        0 <= t < i + 1 && running_max(v, t) > 0 implies ratio_ge(
                        #[trigger] drawdown_at(v, t).num as int,
                        running_max(v, t),
                        -(fall as int),
                        peak as int,
                    ) by {
                        if t < i {
                            lemma_running_max_bounds(v, t);
                            lemma_ratio_ge_trans(
                                drawdown_at(v, t).num as int,
                                running_max(v, t),
                                -(drop as int),
                                base as int,
                                -(fall as int),
                                peak as int,
                            );
                        }
                    }
                    assert(drawdown_at(v, i as int).den == peak);
                }
                drop = fall;
                base = peak;
            } else {
                proof {
                    assert(ratio_ge(drawdown_at(v, i as int).num as int, running_max(v, i as int), -(drop as int), base as int)) by (nonlinear_arith)
                        requires
                            drawdown_at(v, i as int).num == -(fall as int),
                            running_max(v, i as int) == peak,
                            (fall as int) * (base as int) <= (drop as int) * (peak as int),
                    ;
                }
            }
        }
        i = i + 1;
    }
    Ratio { num: -(drop as i128), den: base }
}

} // verus!
