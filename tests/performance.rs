use backtester::error::BacktestError;
use backtester::exchange::SCALE;
use backtester::performance::{
    calculate_daily_returns, calculate_maximum_drawdown, calculate_total_return, downside_returns, Ratio,
};

fn as_f64(r: Ratio) -> f64 {
    r.num as f64 / r.den as f64
}

fn units(whole: u64) -> u64 {
    whole * SCALE
}

#[test]
fn test_calculate_total_return() {
    let total_return_0 = calculate_total_return(units(100), units(100)).unwrap();
    assert_eq!(as_f64(total_return_0), 0.0);

    let total_return_50 = calculate_total_return(units(150), units(100)).unwrap();
    assert_eq!(as_f64(total_return_50), 0.5);

    let total_return_crash = calculate_total_return(units(10), 51_000_000).unwrap();
    assert_eq!(as_f64(total_return_crash), 18.607843137254903);

    let total_return_98 = calculate_total_return(2_310_000_000, units(100)).unwrap();
    assert_eq!(as_f64(total_return_98), -0.769);
}

#[test]
fn total_return_is_exact_fraction() {
    assert_eq!(calculate_total_return(150, 100), Ok(Ratio { num: 50, den: 100 }));
    assert_eq!(calculate_total_return(100, 100), Ok(Ratio { num: 0, den: 100 }));
    assert_eq!(calculate_total_return(40, 100), Ok(Ratio { num: -60, den: 100 }));
}

#[test]
fn total_return_without_capital_is_undefined() {
    assert_eq!(calculate_total_return(100, 0), Err(BacktestError::UndefinedMetric));
}

#[test]
fn maximum_drawdown_from_peak_to_trough() {
    let values = vec![units(100), units(90), units(95), units(80), units(120)];
    let r = calculate_maximum_drawdown(&values);
    assert_eq!(r, Ratio { num: -(units(20) as i128), den: units(100) });
    assert_eq!(as_f64(r), -0.2);
}

#[test]
fn maximum_drawdown_of_rising_series_is_zero() {
    let values = vec![1, 2, 2, 5, 9];
    assert_eq!(calculate_maximum_drawdown(&values).num, 0);
    assert_eq!(calculate_maximum_drawdown(&Vec::new()).num, 0);
}

#[test]
fn maximum_drawdown_keeps_deepest_fall() {
    let values = vec![0, 50, 25, 200, 120, 300, 290];
    // 50 -> 25 is -50%, 200 -> 120 is -40%
    assert_eq!(calculate_maximum_drawdown(&values), Ratio { num: -25, den: 50 });
}

#[test]
fn daily_returns_are_consecutive_changes() {
    let values = vec![100, 110, 99];
    let r = calculate_daily_returns(&values);
    assert_eq!(r, vec![Ratio { num: 10, den: 100 }, Ratio { num: -11, den: 110 }]);
}

#[test]
fn daily_returns_drop_steps_from_zero() {
    let values = vec![100, 0, 0, 50, 75];
    let r = calculate_daily_returns(&values);
    assert_eq!(r, vec![Ratio { num: -100, den: 100 }, Ratio { num: 25, den: 50 }]);
    assert_eq!(calculate_daily_returns(&vec![7]), Vec::<Ratio>::new());
}

#[test]
fn sortino_downside_of_all_positive_series_is_undefined() {
    let series = vec![Ratio { num: 1, den: 100 }, Ratio { num: 2, den: 100 }, Ratio { num: 0, den: 5 }];
    assert_eq!(downside_returns(&series), Err(BacktestError::UndefinedMetric));
    assert_eq!(downside_returns(&Vec::new()), Err(BacktestError::UndefinedMetric));
}

#[test]
fn sortino_downside_keeps_negative_entries() {
    let series = vec![
        Ratio { num: 1, den: 100 },
        Ratio { num: -30, den: 100 },
        Ratio { num: 4, den: 10 },
        Ratio { num: -90, den: 100 },
    ];
    assert_eq!(
        downside_returns(&series),
        Ok(vec![Ratio { num: -30, den: 100 }, Ratio { num: -90, den: 100 }])
    );
}
