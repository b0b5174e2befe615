use backtester::asset_data::AssetData;
use backtester::backtrader::{rows_are_well_formed, Backtrader, Row, StrategyTrait};
use backtester::clock::now_epoch;
use backtester::error::BacktestError;
use backtester::exchange::{Exchange, SCALE};

fn units(whole: u64) -> u64 {
    whole * SCALE
}

fn binance(pct: u64, fixed: u64) -> Exchange {
    Exchange { name: "Binance".to_string(), commission_pct: pct, commission_fixed: fixed }
}

fn row(timestamp: i64, close: u64, signal: i32) -> Row {
    Row { timestamp, close, signal }
}

struct FixedRows {
    rows: Vec<(String, Vec<Row>)>,
}

impl StrategyTrait for FixedRows {
    fn generate_signals(&self, symbol: &String) -> Result<Vec<Row>, BacktestError> {
        for (name, rows) in &self.rows {
            if name == symbol {
                return Ok(rows.clone());
            }
        }
        Err(BacktestError::DataSourceUnavailable)
    }
}

#[test]
fn commission_is_larger_of_proportional_and_fixed() {
    let ex = binance(SCALE / 1000, SCALE);
    assert_eq!(ex.calculate_commission(units(1000)), SCALE as u128);
    assert_eq!(ex.calculate_commission(units(5000)), units(5) as u128);
    assert_eq!(ex.calculate_commission(units(10)), SCALE as u128);
}

#[test]
fn commission_on_zero_notional_is_fixed_fee() {
    let ex = binance(SCALE / 1000, 123);
    assert_eq!(ex.calculate_commission(0), 123);
}

#[test]
fn all_in_buy_spends_all_cash() {
    let ex = binance(SCALE / 1000, SCALE);
    let mut asset = AssetData::new("BTCUSDT", units(1000), 0, 0);
    assert_eq!(asset.apply_trade(1, units(100), &ex), Ok(()));
    // (1000 - max(1000 * 0.001, 1.0)) / 100 = 9.99
    assert_eq!(asset.positions, 999_000_000);
    assert_eq!(asset.cash, 0);
    // a second buy has no cash left to spend
    assert_eq!(asset.apply_trade(1, units(50), &ex), Ok(()));
    assert_eq!(asset.positions, 999_000_000);
    assert_eq!(asset.cash, 0);
}

#[test]
fn all_out_sell_liquidates_every_unit() {
    let ex = binance(SCALE / 1000, SCALE);
    let mut asset = AssetData::new("BTCUSDT", 0, units(2), 0);
    assert_eq!(asset.apply_trade(-1, units(1000), &ex), Ok(()));
    // 2000 - max(2, 1) = 1998
    assert_eq!(asset.cash, units(1998));
    assert_eq!(asset.positions, 0);
}

#[test]
fn fee_above_notional_buys_nothing() {
    let ex = binance(0, units(5));
    let mut asset = AssetData::new("X", units(1), 0, 0);
    assert_eq!(asset.apply_trade(1, units(1), &ex), Ok(()));
    assert_eq!(asset.cash, 0);
    assert_eq!(asset.positions, 0);
}

#[test]
fn hold_only_revalues() {
    let ex = binance(SCALE / 1000, SCALE);
    let mut asset = AssetData::new("ETH", units(10), units(3), 0);
    assert_eq!(asset.apply_trade(0, units(7), &ex), Ok(()));
    assert_eq!(asset.cash, units(10));
    assert_eq!(asset.positions, units(3));
    assert_eq!(asset.mark_to_market(units(7)), Ok(()));
    assert_eq!(asset.position_value, units(21));
    assert_eq!(asset.total_value, units(31));
    assert_eq!(asset.history, vec![units(31)]);
}

#[test]
fn mark_to_market_out_of_range_changes_nothing() {
    let mut asset = AssetData::new("X", u64::MAX, 1, 0);
    assert_eq!(asset.mark_to_market(units(1)), Err(BacktestError::ValueOutOfRange));
    assert_eq!(asset.total_value, u64::MAX);
    assert!(asset.history.is_empty());
}

#[test]
fn conservation_after_every_row() {
    let btc = "BTCUSDT".to_string();
    let mut engine = Backtrader::new(units(1000), SCALE / 1000, SCALE, vec![&btc]);
    let closes = [100u64, 110, 90, 95, 120, 80];
    let signals = [1, 0, -1, 1, 1, -1];
    for i in 0..closes.len() {
        let rows = vec![row(i as i64, units(closes[i]), signals[i])];
        assert_eq!(engine.run_symbol(&btc, &rows), Ok(()));
        let a = &engine.assets_data[0];
        assert_eq!(a.position_value, (a.positions as u128 * units(closes[i]) as u128 / SCALE as u128) as u64);
        assert_eq!(a.total_value, a.cash + a.position_value);
    }
}

#[test]
fn new_splits_capital_over_distinct_symbols() {
    let a = "A".to_string();
    let b = "B".to_string();
    let engine = Backtrader::new(1000, 0, 0, vec![&a, &b, &a]);
    assert_eq!(engine.assets_data.len(), 2);
    assert_eq!(engine.assets_data[0].symbol, "A");
    assert_eq!(engine.assets_data[1].symbol, "B");
    assert_eq!(engine.assets_data[0].cash, 500);
    assert_eq!(engine.assets_data[1].total_value, 500);
}

#[test]
fn one_daily_value_per_row_and_changes_only_history() {
    let btc = "BTCUSDT".to_string();
    let mut engine = Backtrader::new(units(1000), SCALE / 1000, SCALE, vec![&btc]);
    let rows = vec![
        row(1, units(100), 0),
        row(2, units(100), 0),
        row(3, units(100), 1),
        row(4, units(100), 1),
        row(5, units(120), 0),
    ];
    let strategy = FixedRows { rows: vec![(btc.clone(), rows)] };
    let out = engine.backtest(Some(btc.clone()), &strategy);
    assert_eq!(out, vec![(btc.clone(), Ok(5))]);
    assert_eq!(engine.daily_portfolio_values[0].len(), 5);
    assert_eq!(engine.assets_data[0].history, engine.daily_portfolio_values[0]);
    assert_eq!(
        engine.daily_portfolio_values[0],
        vec![units(1000), units(1000), units(999), units(999), 119_880_000_000]
    );
    assert_eq!(engine.portfolio_history[0], vec![units(1000), units(999), 119_880_000_000]);
}

#[test]
fn history_as_long_as_daily_when_every_row_changes() {
    let s = "S".to_string();
    let mut engine = Backtrader::new(units(10), 0, 0, vec![&s]);
    let rows = vec![row(1, units(1), 1), row(2, units(2), 0), row(3, units(3), 0)];
    assert_eq!(engine.run_symbol(&s, &rows), Ok(()));
    assert_eq!(engine.daily_portfolio_values[0], vec![units(10), units(20), units(30)]);
    assert_eq!(engine.portfolio_history[0].len(), engine.daily_portfolio_values[0].len());
}

#[test]
fn backtest_all_symbols_isolates_failures() {
    let a = "A".to_string();
    let b = "B".to_string();
    let c = "C".to_string();
    let mut engine = Backtrader::new(units(300), 0, 0, vec![&a, &b, &c]);
    let strategy = FixedRows {
        rows: vec![
            (a.clone(), vec![row(1, units(1), 0), row(2, units(1), 0)]),
            (b.clone(), vec![row(1, 0, 0)]),
        ],
    };
    let out = engine.backtest(None, &strategy);
    assert_eq!(
        out,
        vec![
            (a.clone(), Ok(2)),
            (b.clone(), Err(BacktestError::MalformedRow)),
            (c.clone(), Err(BacktestError::DataSourceUnavailable)),
        ]
    );
    assert_eq!(engine.daily_portfolio_values[0].len(), 2);
    assert!(engine.daily_portfolio_values[1].is_empty());
    assert!(engine.daily_portfolio_values[2].is_empty());
}

#[test]
fn backtest_unknown_symbol_is_reported() {
    let a = "A".to_string();
    let mut engine = Backtrader::new(units(1), 0, 0, vec![&a]);
    let strategy = FixedRows { rows: vec![] };
    let out = engine.backtest(Some("Z".to_string()), &strategy);
    assert_eq!(out, vec![("Z".to_string(), Err(BacktestError::UnknownSymbol))]);
    assert_eq!(engine.run_symbol(&"Z".to_string(), &vec![]), Err(BacktestError::UnknownSymbol));
}

#[test]
fn malformed_rows_abort_without_change() {
    let a = "A".to_string();
    let mut engine = Backtrader::new(units(1), 0, 0, vec![&a]);
    let backwards = vec![row(5, units(1), 0), row(4, units(1), 0)];
    assert!(!rows_are_well_formed(&backwards));
    assert_eq!(engine.run_symbol(&a, &backwards), Err(BacktestError::MalformedRow));
    let zero_close = vec![row(1, units(1), 0), row(2, 0, 0)];
    assert_eq!(engine.run_symbol(&a, &zero_close), Err(BacktestError::MalformedRow));
    assert!(engine.daily_portfolio_values[0].is_empty());
    assert!(rows_are_well_formed(&vec![row(1, 1, 0), row(1, 1, 0)]));
}

#[test]
fn overflow_aborts_without_change() {
    let a = "A".to_string();
    let mut engine = Backtrader::new(u64::MAX, 0, 0, vec![&a]);
    let rows = vec![row(1, 1, 1), row(2, 1, 0), row(3, u64::MAX, 0)];
    assert_eq!(engine.run_symbol(&a, &rows), Err(BacktestError::ValueOutOfRange));
    assert!(engine.daily_portfolio_values[0].is_empty());
    assert_eq!(engine.assets_data[0].cash, u64::MAX);
}

#[test]
fn total_series_sums_symbols_row_by_row() {
    let a = "A".to_string();
    let b = "B".to_string();
    let mut engine = Backtrader::new(units(200), 0, 0, vec![&a, &b]);
    assert_eq!(engine.run_symbol(&a, &vec![row(1, units(1), 1), row(2, units(2), 0)]), Ok(()));
    assert_eq!(engine.total_portfolio_values(), Err(BacktestError::MismatchedHistories));
    assert_eq!(engine.calculate_performance().err(), Some(BacktestError::MismatchedHistories));
    assert_eq!(engine.run_symbol(&b, &vec![row(1, units(1), 0), row(2, units(1), 0)]), Ok(()));
    assert_eq!(engine.total_portfolio_values(), Ok(vec![units(200), units(300)]));
    let report = engine.calculate_performance().unwrap().unwrap();
    assert_eq!(report.final_value, units(300));
    assert_eq!(report.periods, 2);
    assert_eq!(report.total_return.unwrap().num, units(100) as i128);
    assert_eq!(report.period_returns.len(), 1);
    assert_eq!(report.maximum_drawdown.num, 0);
}

#[test]
fn performance_without_data_reports_no_data() {
    let a = "A".to_string();
    let engine = Backtrader::new(units(1), 0, 0, vec![&a]);
    assert!(matches!(engine.calculate_performance(), Ok(None)));
    let empty = Backtrader::new(units(1), 0, 0, vec![]);
    assert_eq!(empty.total_portfolio_values(), Ok(vec![]));
    assert!(matches!(empty.calculate_performance(), Ok(None)));
}

#[test]
fn clock_reads_after_epoch() {
    let now = now_epoch().unwrap();
    assert!(now > 1_600_000_000_000);
}

#[test]
fn backtest_named_symbol_leaves_others_alone() {
    let a = "A".to_string();
    let b = "B".to_string();
    let mut engine = Backtrader::new(units(200), 0, 0, vec![&a, &b]);
    let strategy = FixedRows {
        rows: vec![
            (a.clone(), vec![row(1, units(1), 1), row(2, units(3), 0)]),
            (b.clone(), vec![row(1, units(1), 1)]),
        ],
    };
    assert_eq!(engine.backtest(Some(a.clone()), &strategy), vec![(a.clone(), Ok(2))]);
    assert_eq!(engine.daily_portfolio_values[0], vec![units(100), units(300)]);
    assert_eq!(engine.portfolio_history[0], vec![units(100), units(300)]);
    assert_eq!(engine.assets_data[0].positions, units(100));
    assert_eq!(engine.assets_data[1].cash, units(100));
    assert_eq!(engine.assets_data[1].positions, 0);
    assert!(engine.assets_data[1].history.is_empty());
    assert!(engine.daily_portfolio_values[1].is_empty());
    assert!(engine.portfolio_history[1].is_empty());
}

struct NoSymbols;

impl StrategyTrait for NoSymbols {
    fn generate_signals(&self, _symbol: &String) -> Result<Vec<Row>, BacktestError> {
        Err(BacktestError::UnknownSymbol)
    }
}

#[test]
fn configured_symbol_is_never_reported_unknown() {
    let a = "A".to_string();
    let b = "B".to_string();
    let mut engine = Backtrader::new(units(10), 0, 0, vec![&a, &b]);
    assert_eq!(
        engine.backtest(None, &NoSymbols),
        vec![(a.clone(), Err(BacktestError::DataSourceUnavailable)), (b.clone(), Err(BacktestError::DataSourceUnavailable))]
    );
    assert_eq!(
        engine.backtest(Some(b.clone()), &NoSymbols),
        vec![(b.clone(), Err(BacktestError::DataSourceUnavailable))]
    );
    assert!(engine.daily_portfolio_values[0].is_empty());
    assert_eq!(engine.assets_data[1].cash, units(5));
}
