use vstd::prelude::*;
use crate::asset_data::{step_spec, value_of, AssetData, Book};
use crate::error::BacktestError;
use crate::exchange::Exchange;
use crate::performance::{
    calculate_daily_returns, calculate_maximum_drawdown, calculate_total_return, is_maximum_drawdown,
    period_returns, total_return_of, Ratio,
};

verus! {

/// One row of a symbol's price table once a strategy has read it: a positive
/// `signal` means buy, a negative one sell, zero hold.
#[derive(Debug, Clone, Copy, PartialEq, Eq, Structural)]
pub struct Row {
    /// Milliseconds since the Unix epoch.
    pub timestamp: i64,
    /// Close price, in fixed-point money units.
    pub close: u64,
    pub signal: i32,
}

/// Every close price is positive and the timestamps never go back.
pub open spec fn rows_well_formed(rows: Seq<Row>) -> bool {
    &&& forall|i: int| 0 <= i < rows.len() ==> (#[trigger] rows[i]).close > 0
    &&& forall|i: int| 0 < i < rows.len() ==> rows[i - 1].timestamp <= (#[trigger] rows[i]).timestamp
}

/// The ledger after each row in turn has been traded on and marked to its
/// close price, or `None` where an amount would leave the `u64` range.
pub open spec fn replay(b: Book, rows: Seq<Row>, pct: int, fixed: int) -> Option<Book>
    decreases rows.len(),
{
    if rows.len() == 0 {
        Some(b)
    } else {
        match replay(b, rows.drop_last(), pct, fixed) {
            Some(m) => step_spec(m, rows.last().signal as int, rows.last().close as int, pct, fixed),
            None => None,
        }
    }
}

/// The ledger's total value after each row, oldest first.
pub open spec fn replay_values(b: Book, rows: Seq<Row>, pct: int, fixed: int) -> Seq<u64>
    decreases rows.len(),
{
    if rows.len() == 0 {
        Seq::empty()
    } else {
        replay_values(b, rows.drop_last(), pct, fixed).push(
            match replay(b, rows, pct, fixed) {
                Some(m) => m.total_value as u64,
                None => 0,
            },
        )
    }
}

/// `log` extended by each of `values` that differs from the entry before it:
/// a log of changes only.
pub open spec fn compress(log: Seq<u64>, values: Seq<u64>) -> Seq<u64>
    decreases values.len(),
{
    if values.len() == 0 {
        log
    } else {
        let prior = compress(log, values.drop_last());
        if prior.len() == 0 || prior.last() != values.last() {
            prior.push(values.last())
        } else {
            prior
        }
    }
}

/// Compressing in two pieces is compressing at once.
pub proof fn lemma_compress_concat(log: Seq<u64>, a: Seq<u64>, b: Seq<u64>)
    ensures
        compress(log, a + b) == compress(compress(log, a), b),
    decreases b.len(),
{
    if b.len() == 0 {
        assert(a + b =~= a);
    } else {
        assert((a + b).drop_last() =~= a + b.drop_last());
        lemma_compress_concat(log, a, b.drop_last());
    }
}

/// Where the rows replay to the end, every shorter prefix of them does too.
pub proof fn lemma_replay_prefix(b: Book, rows: Seq<Row>, k: int, pct: int, fixed: int)
    requires
        0 <= k <= rows.len(),
        replay(b, rows, pct, fixed) is Some,
    ensures
        replay(b, rows.take(k), pct, fixed) is Some,
    decreases rows.len(),
{
    if k == rows.len() {
        assert(rows.take(k) =~= rows);
    } else {
        assert(rows.drop_last().take(k) =~= rows.take(k));
        lemma_replay_prefix(b, rows.drop_last(), k, pct, fixed);
    }
}

/// Whether the rows are fit to be simulated.
pub fn rows_are_well_formed(rows: &Vec<Row>) -> (r: bool)
    ensures
        r == rows_well_formed(rows@),
{
    let mut i: usize = 0;
    while i < rows.len()
        invariant
            i <= rows.len(),
            forall|j: int| 0 <= j < i ==> (#[trigger] rows@[j]).close > 0,
            forall|j: int| 0 < j < i ==> rows@[j - 1].timestamp <= (#[trigger] rows@[j]).timestamp,
        decreases rows.len() - i,
    {
        if rows[i].close == 0 {
            return false;
        }
        if i > 0 && rows[i - 1].timestamp > rows[i].timestamp {
            return false;
        }
        i = i + 1;
    }
    true
}

fn copy_values(v: &Vec<u64>) -> (r: Vec<u64>)
    ensures
        r@ == v@,
{
    let r = v.clone();
    proof {
        assert(r@ =~= v@);
    }
    r
}

/// The symbols in order of first appearance, each once.
pub open spec fn distinct_symbols(symbols: Seq<&String>) -> Seq<Seq<char>>
    decreases symbols.len(),
{
    if symbols.len() == 0 {
        Seq::empty()
    } else {
        let prior = distinct_symbols(symbols.drop_last());
        if prior.contains(symbols.last()@) {
            prior
        } else {
            prior.push(symbols.last()@)
        }
    }
}

/// There is one total value per row.
pub proof fn lemma_replay_values_len(b: Book, rows: Seq<Row>, pct: int, fixed: int)
    ensures
        replay_values(b, rows, pct, fixed).len() == rows.len(),
    decreases rows.len(),
{
    if rows.len() > 0 {
        lemma_replay_values_len(b, rows.drop_last(), pct, fixed);
    }
}

/// The source of a symbol's signalled rows. Implementations load the price
/// data and decide each row's signal; the engine only simulates what they
/// hand back.
pub trait StrategyTrait {
    fn generate_signals(&self, symbol: &String) -> Result<Vec<Row>, BacktestError>;
}

/// The simulation engine: one ledger per symbol, a shared fee schedule, and
/// for each symbol a per-row value log and a change-only value log. The three
/// vectors are indexed alike.
pub struct Backtrader {
    pub initial_capital: u64,
    pub exchange: Exchange,
    pub assets_data: Vec<AssetData>,
    /// Per symbol, the total values that differ from the one before.
    pub portfolio_history: Vec<Vec<u64>>,
    /// Per symbol, the total value after each processed row.
    pub daily_portfolio_values: Vec<Vec<u64>>,
}

impl Backtrader {
    pub open spec fn wf(&self) -> bool {
        &&& self.portfolio_history.len() == self.assets_data.len()
        &&& self.daily_portfolio_values.len() == self.assets_data.len()
        &&& forall|i: int, j: int|
            0 <= i < j < self.assets_data.len() ==> (#[trigger] self.assets_data[i]).symbol@
                != (#[trigger] self.assets_data[j]).symbol@
        &&& forall|i: int|
            0 <= i < self.assets_data.len() ==> (#[trigger] self.daily_portfolio_values[i])@
                == self.assets_data[i].history@
        &&& forall|i: int|
            0 <= i < self.assets_data.len() ==> (#[trigger] self.portfolio_history[i])@ == compress(
                Seq::empty(),
                self.daily_portfolio_values[i]@,
            )
        &&& forall|i: int|
            0 <= i < self.assets_data.len() ==> (#[trigger] self.assets_data[i]).total_value
                == self.assets_data[i].cash + self.assets_data[i].position_value
    }

    pub open spec fn has_symbol(&self, symbol: Seq<char>) -> bool {
        exists|k: int| 0 <= k < self.assets_data.len() && (#[trigger] self.assets_data[k]).symbol@ == symbol
    }

    pub open spec fn pct(&self) -> int {
        self.exchange.commission_pct as int
    }

    pub open spec fn fixed(&self) -> int {
        self.exchange.commission_fixed as int
    }

    fn find_asset(&self, symbol: &String) -> (r: Option<usize>)
        ensures
            r is None ==> !self.has_symbol(symbol@),
            r is Some ==> r->Some_0 < self.assets_data.len() && self.assets_data[r->Some_0 as int].symbol@
                == symbol@,
    {
        let mut k: usize = 0;
        while k < self.assets_data.len()
            invariant
                k <= self.assets_data.len(),
                forall|j: int| 0 <= j < k ==> (#[trigger] self.assets_data[j]).symbol@ != symbol@,
            decreases self.assets_data.len() - k,
        {
            if self.assets_data[k].symbol == *symbol {
                return Some(k);
            }
            k = k + 1;
        }
        None
    }

    /// Simulates `rows` on the ledger of `symbol`: for each row, trade on its
    /// signal, mark to its close, log the total value, and log it again as a
    /// change where it differs from the last change. The rows are checked
    /// first; a failure leaves the engine as it was.
    pub fn run_symbol(&mut self, symbol: &String, rows: &Vec<Row>) -> (r: Result<(), BacktestError>)
        requires
            old(self).wf(),
        ensures
            final(self).wf(),
            !old(self).has_symbol(symbol@) ==> r == Err::<(), BacktestError>(BacktestError::UnknownSymbol),
            old(self).has_symbol(symbol@) && !rows_well_formed(rows@) ==> r == Err::<(), BacktestError>(
                BacktestError::MalformedRow,
            ),
            r is Err ==> *final(self) == *old(self),
            final(self).initial_capital == old(self).initial_capital,
            final(self).exchange == old(self).exchange,
            final(self).assets_data.len() == old(self).assets_data.len(),
            forall|k: int|
                0 <= k < old(self).assets_data.len() && (#[trigger] old(self).assets_data[k]).symbol@ == symbol@
                    && rows_well_formed(rows@) ==> {
                    let start = old(self).assets_data[k].book();
                    let values = replay_values(start, rows@, old(self).pct(), old(self).fixed());
                    &&& r is Ok <==> replay(start, rows@, old(self).pct(), old(self).fixed()) is Some
                    &&& r is Err ==> r == Err::<(), BacktestError>(BacktestError::ValueOutOfRange)
                    &&& r is Ok ==> replay(start, rows@, old(self).pct(), old(self).fixed()) == Some(
                        final(self).assets_data[k].book(),
                    )
                    &&& r is Ok ==> final(self).assets_data[k].symbol == old(self).assets_data[k].symbol
                    &&& r is Ok ==> final(self).daily_portfolio_values[k]@ == old(
                        self,
                    ).daily_portfolio_values[k]@ + values
                    &&& r is Ok ==> final(self).portfolio_history[k]@ == compress(
                        old(self).portfolio_history[k]@,
                        values,
                    )
                },
            forall|k: int|
                0 <= k < old(self).assets_data.len() && (#[trigger] old(self).assets_data[k]).symbol@
                    != symbol@ ==> final(self).assets_data[k] == old(self).assets_data[k]
                    && final(self).daily_portfolio_values[k] == old(self).daily_portfolio_values[k]
                    && final(self).portfolio_history[k] == old(self).portfolio_history[k],
    {
        let found = self.find_asset(symbol);
        let i: usize = match found {
            Some(i) => i,
            None => {
                return Err(BacktestError::UnknownSymbol);
            },
        };
        if !rows_are_well_formed(rows) {
            return Err(BacktestError::MalformedRow);
        }
        proof {
            assert forall|k: int|
                0 <= k < self.assets_data.len() && (#[trigger] self.assets_data[k]).symbol@ == symbol@
                    implies k == i by {
                if k != i {
                    assert(self.assets_data[k].symbol@ != self.assets_data[i as int].symbol@);
                }
            }
        }
        let ghost pct = self.pct();
        let ghost fixed = self.fixed();
        let ghost start = self.assets_data[i as int].book();
        let ghost d0 = self.daily_portfolio_values[i as int]@;
        let ghost p0 = self.portfolio_history[i as int]@;
        let mut ledger = self.assets_data[i].duplicate();
        let mut daily = copy_values(&self.daily_portfolio_values[i]);
        let mut changes = copy_values(&self.portfolio_history[i]);
        proof {
            assert(rows@.take(0) =~= Seq::<Row>::empty());
            assert(d0 + Seq::<u64>::empty() =~= d0);
        }
        let mut n: usize = 0;
        while n < rows.len()
            invariant
                n <= rows.len(),
                *self == *old(self),
                self.wf(),
                i < self.assets_data.len(),
                self.assets_data[i as int].symbol@ == symbol@,
                start == self.assets_data[i as int].book(),
                d0 == self.daily_portfolio_values[i as int]@,
                p0 == self.portfolio_history[i as int]@,
                forall|k: int|
                    0 <= k < self.assets_data.len() && (#[trigger] self.assets_data[k]).symbol@ == symbol@
                        ==> k == i,
                rows_well_formed(rows@),
                pct == self.exchange.commission_pct as int,
                fixed == self.exchange.commission_fixed as int,
                replay(start, rows@.take(n as int), pct, fixed) == Some(ledger.book()),
                ledger.symbol == self.assets_data[i as int].symbol,
                ledger.history@ == d0 + replay_values(start, rows@.take(n as int), pct, fixed),
                daily@ == d0 + replay_values(start, rows@.take(n as int), pct, fixed),
                changes@ == compress(p0, replay_values(start, rows@.take(n as int), pct, fixed)),
                n == 0 ==> ledger.book() == start,
                n > 0 ==> ledger.total_value == ledger.cash + ledger.position_value,
            decreases rows.len() - n,
        {
            let row = rows[n];
            let ghost before = ledger.book();
            proof {
                assert(rows@.take(n + 1).drop_last() =~= rows@.take(n as int));
                assert(rows@.take(n + 1).last() == row);
            }
            let traded = ledger.apply_trade(row.signal, row.close, &self.exchange);
            if traded.is_err() {
                proof {
                    assert(step_spec(before, row.signal as int, row.close as int, pct, fixed) is None);
                    assert(replay(start, rows@.take(n + 1), pct, fixed) is None);
                    if replay(start, rows@, pct, fixed) is Some {
                        lemma_replay_prefix(start, rows@, n + 1, pct, fixed);
                    }
                    assert(replay(start, rows@, pct, fixed) is None);
                }
                return Err(BacktestError::ValueOutOfRange);
            }
            let marked = ledger.mark_to_market(row.close);
            if marked.is_err() {
                proof {
                    assert(step_spec(before, row.signal as int, row.close as int, pct, fixed) is None);
                    assert(replay(start, rows@.take(n + 1), pct, fixed) is None);
                    if replay(start, rows@, pct, fixed) is Some {
                        lemma_replay_prefix(start, rows@, n + 1, pct, fixed);
                    }
                    assert(replay(start, rows@, pct, fixed) is None);
                }
                return Err(BacktestError::ValueOutOfRange);
            }
            let value = ledger.total_value;
            proof {
                assert(replay(start, rows@.take(n + 1), pct, fixed) == Some(ledger.book()));
                assert(replay_values(start, rows@.take(n + 1), pct, fixed) == replay_values(
                    start,
                    rows@.take(n as int),
                    pct,
                    fixed,
                ).push(value));
                assert(replay_values(start, rows@.take(n as int), pct, fixed).push(value).drop_last()
                    =~= replay_values(start, rows@.take(n as int), pct, fixed));
                assert(d0 + replay_values(start, rows@.take(n + 1), pct, fixed) =~= (d0
                    + replay_values(start, rows@.take(n as int), pct, fixed)).push(value));
            }
            daily.push(value);
            if changes.len() == 0 || changes[changes.len() - 1] != value {
                changes.push(value);
            }
            n = n + 1;
        }
        proof {
            assert(rows@.take(n as int) =~= rows@);
            lemma_compress_concat(Seq::empty(), d0, replay_values(start, rows@, pct, fixed));
        }
        self.assets_data.set(i, ledger);
        self.daily_portfolio_values.set(i, daily);
        self.portfolio_history.set(i, changes);
        Ok(())
    }
}


impl Backtrader {
    /// An engine whose ledgers, one per distinct symbol in order of first
    /// appearance, share `initial_capital` equally (rounded down), hold no
    /// units and have empty histories.
    pub fn new(initial_capital: u64, commission_pct: u64, commission_fixed: u64, symbols: Vec<&String>) -> (r: Backtrader)
        ensures
            r.wf(),
            r.initial_capital == initial_capital,
            r.exchange.commission_pct == commission_pct,
            r.exchange.commission_fixed == commission_fixed,
            r.assets_data.len() == distinct_symbols(symbols@).len(),
            forall|k: int|
                0 <= k < r.assets_data.len() ==> {
                    &&& (#[trigger] r.assets_data[k]).symbol@ == distinct_symbols(symbols@)[k]
                    &&& r.assets_data[k].cash == initial_capital / (r.assets_data.len() as u64)
                    &&& r.assets_data[k].positions == 0
                    &&& r.assets_data[k].position_value == 0
                    &&& r.assets_data[k].total_value == r.assets_data[k].cash
                    &&& r.assets_data[k].history@ == Seq::<u64>::empty()
                    &&& r.daily_portfolio_values[k]@ == Seq::<u64>::empty()
                    &&& r.portfolio_history[k]@ == Seq::<u64>::empty()
                },
    {
        let mut names: Vec<String> = Vec::new();
        let mut j: usize = 0;
        while j < symbols.len()
            invariant
                j <= symbols.len(),
                names.len() == distinct_symbols(symbols@.take(j as int)).len(),
                forall|a: int| 0 <= a < names.len() ==> (#[trigger] names[a])@ == distinct_symbols(symbols@.take(j as int))[a],
                forall|a: int, b: int| 0 <= a < b < names.len() ==> (#[trigger] names[a])@ != (#[trigger] names[b])@,
            decreases symbols.len() - j,
        {
            let candidate: &String = symbols[j];
            proof {
                assert(symbols@.take(j + 1).drop_last() =~= symbols@.take(j as int));
                assert(symbols@.take(j + 1).last() == candidate);
            }
            let mut seen = false;
            let mut a: usize = 0;
            while a < names.len()
                invariant
                    a <= names.len(),
                    seen ==> exists|b: int| 0 <= b < names.len() && (#[trigger] names[b])@ == candidate@,
                    !seen ==> forall|b: int| 0 <= b < a ==> (#[trigger] names[b])@ != candidate@,
                decreases names.len() - a,
            {
                if names[a] == *candidate {
                    seen = true;
                }
                a = a + 1;
            }
            proof {
                let prior = distinct_symbols(symbols@.take(j as int));
                if seen {
                    let b = choose|b: int| 0 <= b < names.len() && (#[trigger] names[b])@ == candidate@;
                    assert(prior[b] == candidate@);
                    assert(prior.contains(candidate@));
                } else {
                    assert(!prior.contains(candidate@)) by {
                        if prior.contains(candidate@) {
                            let b = choose|b: int| 0 <= b < prior.len() && prior[b] == candidate@;
                            assert(names[b]@ == candidate@);
                        }
                    }
                }
            }
            if !seen {
                names.push(candidate.clone());
            }
            j = j + 1;
        }
        proof {
            assert(symbols@.take(j as int) =~= symbols@);
        }
        let count: usize = names.len();
        let share: u64 = if count == 0 {
            0
        } else {
            initial_capital / (count as u64)
        };
        let mut assets_data: Vec<AssetData> = Vec::new();
        let mut portfolio_history: Vec<Vec<u64>> = Vec::new();
        let mut daily_portfolio_values: Vec<Vec<u64>> = Vec::new();
        let mut k: usize = 0;
        while k < count
            invariant
                k <= count,
                count == names.len(),
                count > 0 ==> share == initial_capital / (count as u64),
                assets_data.len() == k,
                portfolio_history.len() == k,
                daily_portfolio_values.len() == k,
                forall|a: int| 0 <= a < names.len() ==> (#[trigger] names[a])@ == distinct_symbols(symbols@)[a],
                forall|a: int, b: int| 0 <= a < b < names.len() ==> (#[trigger] names[a])@ != (#[trigger] names[b])@,
                forall|a: int|
                    0 <= a < k ==> {
                        &&& (#[trigger] assets_data[a]).symbol@ == names[a]@
                        &&& assets_data[a].cash == share
                        &&& assets_data[a].positions == 0
                        &&& assets_data[a].position_value == 0
                        &&& assets_data[a].total_value == share
                        &&& assets_data[a].history@ == Seq::<u64>::empty()
                        &&& daily_portfolio_values[a]@ == Seq::<u64>::empty()
                        &&& portfolio_history[a]@ == Seq::<u64>::empty()
                    },
            decreases count - k,
        {
            let ledger = AssetData::new(names[k].as_str(), share, 0, 0);
            assets_data.push(ledger);
            portfolio_history.push(Vec::new());
            daily_portfolio_values.push(Vec::new());
            k = k + 1;
        }
        let r = Backtrader {
            initial_capital,
            exchange: Exchange { name: "Binance".to_owned(), commission_pct, commission_fixed },
            assets_data,
            portfolio_history,
            daily_portfolio_values,
        };
        proof {
            assert forall|a: int, b: int|
                0 <= a < b < r.assets_data.len() implies (#[trigger] r.assets_data[a]).symbol@
                    != (#[trigger] r.assets_data[b]).symbol@ by {
                assert(names[a]@ != names[b]@);
            }
            assert forall|a: int| 0 <= a < r.assets_data.len() implies (#[trigger] r.portfolio_history[a])@
                == compress(Seq::empty(), r.daily_portfolio_values[a]@) by {
                assert(r.assets_data[a].symbol@ == names[a]@);
                assert(r.daily_portfolio_values[a]@ == Seq::<u64>::empty());
            }
        }
        r
    }
}


/// Symbol `k`'s ledger and logs in `after` are those of `before` once some
/// well-formed sequence of `n` rows has been simulated on it.
pub open spec fn ran_rows(before: Backtrader, after: Backtrader, k: int, n: int) -> bool {
    exists|rows: Seq<Row>|
        {
            let start = before.assets_data[k].book();
            let values = replay_values(start, rows, before.pct(), before.fixed());
            &&& rows.len() == n
            &&& rows_well_formed(rows)
            &&& #[trigger] replay(before.assets_data[k].book(), rows, before.pct(), before.fixed()) == Some(after.assets_data[k].book())
            &&& after.assets_data[k].symbol == before.assets_data[k].symbol
            &&& after.daily_portfolio_values[k]@ == before.daily_portfolio_values[k]@ + values
            &&& after.portfolio_history[k]@ == compress(before.portfolio_history[k]@, values)
        }
}

/// What a symbol's outcome says of its ledger and logs: on `Ok(n)` they are
/// the simulation of `n` well-formed rows, on an error they are untouched.
pub open spec fn outcome_holds(
    before: Backtrader,
    after: Backtrader,
    k: int,
    outcome: Result<usize, BacktestError>,
) -> bool {
    &&& outcome is Ok ==> ran_rows(before, after, k, outcome->Ok_0 as int)
    &&& outcome is Err ==> after.assets_data[k] == before.assets_data[k]
        && after.daily_portfolio_values[k] == before.daily_portfolio_values[k]
        && after.portfolio_history[k] == before.portfolio_history[k]
}

proof fn lemma_ran_rows_frame(before: Backtrader, mid: Backtrader, after: Backtrader, k: int, n: int)
    requires
        ran_rows(before, mid, k, n),
        after.assets_data[k] == mid.assets_data[k],
        after.daily_portfolio_values[k] == mid.daily_portfolio_values[k],
        after.portfolio_history[k] == mid.portfolio_history[k],
    ensures
        ran_rows(before, after, k, n),
{
    let rows = choose|rows: Seq<Row>|
        {
            let start = before.assets_data[k].book();
            let values = replay_values(start, rows, before.pct(), before.fixed());
            &&& rows.len() == n
            &&& rows_well_formed(rows)
            &&& #[trigger] replay(before.assets_data[k].book(), rows, before.pct(), before.fixed()) == Some(mid.assets_data[k].book())
            &&& mid.assets_data[k].symbol == before.assets_data[k].symbol
            &&& mid.daily_portfolio_values[k]@ == before.daily_portfolio_values[k]@ + values
            &&& mid.portfolio_history[k]@ == compress(before.portfolio_history[k]@, values)
        };
    assert(replay(before.assets_data[k].book(), rows, before.pct(), before.fixed()) == Some(after.assets_data[k].book()));
}

impl Backtrader {
    /// Runs one symbol through the strategy: asks it for the symbol's rows and
    /// simulates them. `Ok` holds the number of rows simulated. A strategy
    /// that does not know a configured symbol has no data for it:
    /// `DataSourceUnavailable`.
    fn backtest_one<S: StrategyTrait>(&mut self, symbol: &String, strategy: &S) -> (r: Result<usize, BacktestError>)
        requires
            old(self).wf(),
        ensures
            final(self).wf(),
            !old(self).has_symbol(symbol@) ==> r == Err::<usize, BacktestError>(BacktestError::UnknownSymbol),
            old(self).has_symbol(symbol@) ==> r != Err::<usize, BacktestError>(BacktestError::UnknownSymbol),
            r is Err ==> *final(self) == *old(self),
            final(self).initial_capital == old(self).initial_capital,
            final(self).exchange == old(self).exchange,
            final(self).assets_data.len() == old(self).assets_data.len(),
            forall|k: int|
                0 <= k < old(self).assets_data.len() ==> (#[trigger] final(self).assets_data[k]).symbol
                    == old(self).assets_data[k].symbol,
            forall|k: int|
                0 <= k < old(self).assets_data.len() && (#[trigger] old(self).assets_data[k]).symbol@ == symbol@
                    ==> outcome_holds(*old(self), *final(self), k, r),
            forall|k: int|
                0 <= k < old(self).assets_data.len() && (#[trigger] old(self).assets_data[k]).symbol@
                    != symbol@ ==> final(self).assets_data[k] == old(self).assets_data[k]
                    && final(self).daily_portfolio_values[k] == old(self).daily_portfolio_values[k]
                    && final(self).portfolio_history[k] == old(self).portfolio_history[k],
    {
        if self.find_asset(symbol).is_none() {
            return Err(BacktestError::UnknownSymbol);
        }
        let rows = match strategy.generate_signals(symbol) {
            Ok(rows) => rows,
            Err(BacktestError::UnknownSymbol) => {
                return Err(BacktestError::DataSourceUnavailable);
            },
            Err(e) => {
                return Err(e);
            },
        };
        match self.run_symbol(symbol, &rows) {
            Ok(()) => {
                proof {
                    assert forall|k: int|
                        0 <= k < old(self).assets_data.len() && (#[trigger] old(self).assets_data[k]).symbol@
                            == symbol@ implies ran_rows(*old(self), *final(self), k, rows.len() as int) by {
                        let start = old(self).assets_data[k].book();
                        lemma_replay_values_len(start, rows@, old(self).pct(), old(self).fixed());
                        assert(replay(start, rows@, old(self).pct(), old(self).fixed()) == Some(
                            final(self).assets_data[k].book(),
                        ));
                    }
                }
                Ok(rows.len())
            },
            Err(e) => Err(e),
        }
    }

    /// Runs the named symbol, or every configured symbol in order when none is
    /// named, each on the rows the strategy gives for it. One outcome per
    /// symbol run: the number of rows simulated, which the symbol's ledger and
    /// logs are then the simulation of, or why that symbol's run failed, in
    /// which case its ledger and logs are left as they were. Symbols not run,
    /// and the runs of other symbols, are not affected.
    pub fn backtest<S: StrategyTrait>(&mut self, symbol: Option<String>, strategy: &S) -> (r: Vec<(String, Result<usize, BacktestError>)>)
        requires
            old(self).wf(),
        ensures
            final(self).wf(),
            final(self).initial_capital == old(self).initial_capital,
            final(self).exchange == old(self).exchange,
            final(self).assets_data.len() == old(self).assets_data.len(),
            forall|k: int|
                0 <= k < old(self).assets_data.len() ==> (#[trigger] final(self).assets_data[k]).symbol
                    == old(self).assets_data[k].symbol,
            symbol is Some ==> r.len() == 1 && r[0].0@ == symbol->Some_0@,
            symbol is Some && !old(self).has_symbol(symbol->Some_0@) ==> r[0].1 == Err::<usize, BacktestError>(
                BacktestError::UnknownSymbol,
            ) && *final(self) == *old(self),
            symbol is Some && old(self).has_symbol(symbol->Some_0@) ==> r[0].1 != Err::<usize, BacktestError>(
                BacktestError::UnknownSymbol,
            ),
            symbol is None ==> forall|k: int|
                0 <= k < r.len() ==> (#[trigger] r[k]).1 != Err::<usize, BacktestError>(BacktestError::UnknownSymbol),
            symbol is Some ==> forall|k: int|
                0 <= k < old(self).assets_data.len() ==> {
                    &&& (#[trigger] old(self).assets_data[k]).symbol@ != symbol->Some_0@ ==> final(self).assets_data[k]
                        == old(self).assets_data[k] && final(self).daily_portfolio_values[k] == old(
                        self,
                    ).daily_portfolio_values[k] && final(self).portfolio_history[k] == old(self).portfolio_history[k]
                    &&& old(self).assets_data[k].symbol@ == symbol->Some_0@ ==> outcome_holds(
                        *old(self),
                        *final(self),
                        k,
                        r[0].1,
                    )
                },
            symbol is None ==> r.len() == old(self).assets_data.len(),
            symbol is None ==> forall|k: int|
                0 <= k < r.len() ==> {
                    &&& (#[trigger] r[k]).0@ == old(self).assets_data[k].symbol@
                    &&& outcome_holds(*old(self), *final(self), k, r[k].1)
                },
    {
        let mut outcomes: Vec<(String, Result<usize, BacktestError>)> = Vec::new();
        match symbol {
            Some(name) => {
                let outcome = self.backtest_one(&name, strategy);
                outcomes.push((name, outcome));
            },
            None => {
                let ghost start = *self;
                let mut k: usize = 0;
                while k < self.assets_data.len()
                    invariant
                        start == *old(self),
                        start.wf(),
                        self.wf(),
                        self.initial_capital == start.initial_capital,
                        self.exchange == start.exchange,
                        self.assets_data.len() == start.assets_data.len(),
                        k <= self.assets_data.len(),
                        outcomes.len() == k,
                        forall|j: int|
                            0 <= j < start.assets_data.len() ==> (#[trigger] self.assets_data[j]).symbol
                                == start.assets_data[j].symbol,
                        forall|j: int|
                            k <= j < start.assets_data.len() ==> (#[trigger] self.assets_data[j]) == start.assets_data[j]
                                && self.daily_portfolio_values[j] == start.daily_portfolio_values[j]
                                && self.portfolio_history[j] == start.portfolio_history[j],
                        forall|j: int|
                            0 <= j < k ==> {
                                &&& (#[trigger] outcomes[j]).0@ == start.assets_data[j].symbol@
                                &&& outcome_holds(start, *self, j, outcomes[j].1)
                                &&& outcomes[j].1 != Err::<usize, BacktestError>(BacktestError::UnknownSymbol)
                            },
                    decreases start.assets_data.len() - k,
                {
                    let name = self.assets_data[k].symbol.clone();
                    let ghost before = *self;
                    proof {
                        assert forall|j: int| 0 <= j < before.assets_data.len() && j != k implies
                            (#[trigger] before.assets_data[j]).symbol@ != name@ by {
                            if j < k {
                                assert(before.assets_data[j].symbol@ != before.assets_data[k as int].symbol@);
                            } else {
                                assert(before.assets_data[k as int].symbol@ != before.assets_data[j].symbol@);
                            }
                        }
                    }
                    proof {
                        assert(before.has_symbol(name@)) by {
                            assert(before.assets_data[k as int].symbol@ == name@);
                        }
                    }
                    let outcome = self.backtest_one(&name, strategy);
                    proof {
                        assert(before.assets_data[k as int].symbol@ == name@);
                        assert(outcome_holds(before, *self, k as int, outcome));
                        assert(before.pct() == start.pct() && before.fixed() == start.fixed());
                        if outcome is Ok {
                            let w = choose|rows: Seq<Row>|
                                {
                                    let b0 = before.assets_data[k as int].book();
                                    let values = replay_values(b0, rows, before.pct(), before.fixed());
                                    &&& rows.len() == outcome->Ok_0 as int
                                    &&& rows_well_formed(rows)
                                    &&& #[trigger] replay(before.assets_data[k as int].book(), rows, before.pct(), before.fixed()) == Some(
                                        self.assets_data[k as int].book(),
                                    )
                                    &&& self.assets_data[k as int].symbol == before.assets_data[k as int].symbol
                                    &&& self.daily_portfolio_values[k as int]@ == before.daily_portfolio_values[k as int]@
                                        + values
                                    &&& self.portfolio_history[k as int]@ == compress(
                                        before.portfolio_history[k as int]@,
                                        values,
                                    )
                                };
                            assert(replay(start.assets_data[k as int].book(), w, start.pct(), start.fixed()) == Some(
                                self.assets_data[k as int].book(),
                            ));
                            assert(ran_rows(start, *self, k as int, outcome->Ok_0 as int));
                        }
                        assert forall|j: int| 0 <= j < k implies outcome_holds(start, *self, j, #[trigger] outcomes[j].1) by {
                            assert(outcome_holds(start, before, j, outcomes[j].1));
                            assert(before.assets_data[j].symbol@ != name@);
                            if outcomes[j].1 is Ok {
                                lemma_ran_rows_frame(start, before, *self, j, outcomes[j].1->Ok_0 as int);
                            }
                        }
                    }
                    outcomes.push((name, outcome));
                    proof {
                        assert forall|j: int| 0 <= j < k + 1 implies {
                            &&& (#[trigger] outcomes[j]).0@ == start.assets_data[j].symbol@
                            &&& outcome_holds(start, *self, j, outcomes[j].1)
                            &&& outcomes[j].1 != Err::<usize, BacktestError>(BacktestError::UnknownSymbol)
                        } by {
                            if j < k {
                                assert(outcome_holds(start, *self, j, outcomes@[j].1));
                            }
                        }
                    }
                    k = k + 1;
                }
            },
        }
        outcomes
    }
}


/// Conservation: after any row, the ledger's total value is its cash plus its
/// units valued at that row's close, and the units' value is exactly that.
pub proof fn lemma_conservation(b: Book, rows: Seq<Row>, k: int, pct: int, fixed: int)
    requires
        0 <= k < rows.len(),
        replay(b, rows.take(k + 1), pct, fixed) is Some,
    ensures
        ({
            let after = replay(b, rows.take(k + 1), pct, fixed)->Some_0;
            &&& after.position_value == value_of(after.positions, rows[k].close as int)
            &&& after.total_value == after.cash + value_of(after.positions, rows[k].close as int)
        }),
{
    assert(rows.take(k + 1).drop_last() =~= rows.take(k));
    assert(rows.take(k + 1).last() == rows[k]);
}

/// The values of a prefix of the rows are the prefix of the values.
pub proof fn lemma_replay_values_prefix(b: Book, rows: Seq<Row>, m: int, pct: int, fixed: int)
    requires
        0 <= m <= rows.len(),
    ensures
        replay_values(b, rows.take(m), pct, fixed) == replay_values(b, rows, pct, fixed).take(m),
    decreases rows.len(),
{
    lemma_replay_values_len(b, rows, pct, fixed);
    if m == rows.len() {
        assert(rows.take(m) =~= rows);
        assert(replay_values(b, rows, pct, fixed).take(m) =~= replay_values(b, rows, pct, fixed));
    } else {
        assert(rows.drop_last().take(m) =~= rows.take(m));
        lemma_replay_values_prefix(b, rows.drop_last(), m, pct, fixed);
        lemma_replay_values_len(b, rows.drop_last(), pct, fixed);
        assert(replay_values(b, rows, pct, fixed).take(m) =~= replay_values(b, rows.drop_last(), pct, fixed).take(m));
    }
}

/// Row `k` of a run that replays to the end: the value logged for it is the
/// ledger's total after it, that total is the cash plus the units valued at
/// the row's close, and a hold row keeps the cash and units of the row before
/// (the starting ledger for the first row).
pub proof fn lemma_run_row(b: Book, rows: Seq<Row>, k: int, pct: int, fixed: int)
    requires
        0 <= k < rows.len(),
        replay(b, rows, pct, fixed) is Some,
    ensures
        replay(b, rows.take(k), pct, fixed) is Some,
        replay(b, rows.take(k + 1), pct, fixed) is Some,
        ({
            let prev = replay(b, rows.take(k), pct, fixed)->Some_0;
            let cur = replay(b, rows.take(k + 1), pct, fixed)->Some_0;
            &&& replay_values(b, rows, pct, fixed)[k] == cur.total_value as u64
            &&& cur.position_value == value_of(cur.positions, rows[k].close as int)
            &&& cur.total_value == cur.cash + value_of(cur.positions, rows[k].close as int)
            &&& rows[k].signal == 0 ==> cur.cash == prev.cash && cur.positions == prev.positions
        }),
{
    lemma_replay_prefix(b, rows, k, pct, fixed);
    lemma_replay_prefix(b, rows, k + 1, pct, fixed);
    lemma_conservation(b, rows, k, pct, fixed);
    lemma_replay_values_prefix(b, rows, k + 1, pct, fixed);
    lemma_replay_values_len(b, rows, pct, fixed);
    assert(rows.take(k + 1).drop_last() =~= rows.take(k));
    assert(rows.take(k + 1).last() == rows[k]);
    lemma_replay_values_len(b, rows.take(k), pct, fixed);
    let prev = replay(b, rows.take(k), pct, fixed)->Some_0;
    assert(replay(b, rows.take(k + 1), pct, fixed) == step_spec(
        prev,
        rows[k].signal as int,
        rows[k].close as int,
        pct,
        fixed,
    ));
    assert(replay_values(b, rows.take(k + 1), pct, fixed)[k] == replay(b, rows.take(k + 1), pct, fixed)->Some_0.total_value as u64);
    assert(replay_values(b, rows, pct, fixed).take(k + 1)[k] == replay_values(b, rows, pct, fixed)[k]);
}

/// A hold signal leaves cash and units alone and only revalues the units at
/// the new price; it fails only where that value would leave the `u64` range.
pub proof fn lemma_hold_keeps_holdings(b: Book, price: int, pct: int, fixed: int)
    ensures
        step_spec(b, 0, price, pct, fixed) is Some <==> b.cash + value_of(b.positions, price) <= u64::MAX,
        step_spec(b, 0, price, pct, fixed) is Some ==> ({
            let after = step_spec(b, 0, price, pct, fixed)->Some_0;
            &&& after.cash == b.cash
            &&& after.positions == b.positions
            &&& after.position_value == value_of(b.positions, price)
            &&& after.total_value == b.cash + value_of(b.positions, price)
        }),
{
}

/// Whether `values[i]` differs from the entry before it, the one before the
/// first being the last of `log`.
pub open spec fn changes_at(log: Seq<u64>, values: Seq<u64>, i: int) -> bool {
    if i == 0 {
        log.len() == 0 || log.last() != values[0]
    } else {
        values[i - 1] != values[i]
    }
}

proof fn lemma_compress_last(log: Seq<u64>, values: Seq<u64>)
    requires
        values.len() > 0,
    ensures
        compress(log, values).len() > 0,
        compress(log, values).last() == values.last(),
    decreases values.len(),
{
}

/// A change-only log never grows by more entries than it is given, and grows
/// by exactly that many only when every value differs from the one before.
pub proof fn lemma_compress_len(log: Seq<u64>, values: Seq<u64>)
    ensures
        compress(log, values).len() <= log.len() + values.len(),
        compress(log, values).len() == log.len() + values.len() <==> forall|i: int|
            0 <= i < values.len() ==> #[trigger] changes_at(log, values, i),
    decreases values.len(),
{
    if values.len() > 0 {
        let front = values.drop_last();
        lemma_compress_len(log, front);
        let n = values.len() - 1;
        if front.len() > 0 {
            lemma_compress_last(log, front);
        }
        assert forall|i: int| 0 <= i < front.len() implies changes_at(log, front, i) == changes_at(
            log,
            values,
            i,
        ) by {}
        if compress(log, values).len() == log.len() + values.len() {
            assert forall|i: int| 0 <= i < values.len() implies #[trigger] changes_at(log, values, i) by {
                if i < n {
                    assert(changes_at(log, front, i));
                }
            }
        }
        if forall|i: int| 0 <= i < values.len() ==> #[trigger] changes_at(log, values, i) {
            assert(changes_at(log, values, n));
            assert forall|i: int| 0 <= i < front.len() implies #[trigger] changes_at(log, front, i) by {
                assert(changes_at(log, values, i));
            }
        }
    }
}

/// For every symbol, the change-only log is no longer than the per-row log,
/// and as long only when each row's total value differs from the row before.
pub proof fn lemma_history_dedup(engine: &Backtrader, k: int)
    requires
        engine.wf(),
        0 <= k < engine.assets_data.len(),
    ensures
        engine.portfolio_history[k].len() <= engine.daily_portfolio_values[k].len(),
        engine.portfolio_history[k].len() == engine.daily_portfolio_values[k].len() <==> forall|i: int|
            0 <= i < engine.daily_portfolio_values[k].len() ==> #[trigger] changes_at(
                Seq::empty(),
                engine.daily_portfolio_values[k]@,
                i,
            ),
{
    lemma_compress_len(Seq::empty(), engine.daily_portfolio_values[k]@);
}

/// For every symbol, the per-row log holds exactly the ledger's history: one
/// total value per row simulated.
pub proof fn lemma_daily_matches_history(engine: &Backtrader, k: int)
    requires
        engine.wf(),
        0 <= k < engine.assets_data.len(),
    ensures
        engine.daily_portfolio_values[k]@ == engine.assets_data[k].history@,
        engine.daily_portfolio_values[k].len() == engine.assets_data[k].history.len(),
{
}


/// The sum over the first `n` logs of their entry `t`.
pub open spec fn column_sum(logs: Seq<Vec<u64>>, t: int, n: int) -> int
    decreases n,
{
    if n <= 0 {
        0
    } else {
        column_sum(logs, t, n - 1) + logs[n - 1]@[t]
    }
}

/// All logs have the length of the first.
pub open spec fn equal_lengths(logs: Seq<Vec<u64>>) -> bool {
    forall|j: int| 0 <= j < logs.len() ==> (#[trigger] logs[j]).len() == logs[0].len()
}

/// The number of rows of the whole portfolio's series.
pub open spec fn series_len(logs: Seq<Vec<u64>>) -> int {
    if logs.len() == 0 {
        0
    } else {
        logs[0].len() as int
    }
}

/// Every row's sum over all logs fits in a `u64`.
pub open spec fn sums_fit(logs: Seq<Vec<u64>>) -> bool {
    forall|t: int| 0 <= t < series_len(logs) ==> #[trigger] column_sum(logs, t, logs.len() as int) <= u64::MAX
}

/// The whole portfolio's value after each row: each row's sum over symbols.
pub open spec fn portfolio_totals(logs: Seq<Vec<u64>>) -> Seq<u64> {
    Seq::new(series_len(logs) as nat, |t: int| column_sum(logs, t, logs.len() as int) as u64)
}

proof fn lemma_column_sum_grows(logs: Seq<Vec<u64>>, t: int, m: int, n: int)
    requires
        0 <= m <= n <= logs.len(),
    ensures
        0 <= column_sum(logs, t, m) <= column_sum(logs, t, n),
    decreases n,
{
    if n > m {
        lemma_column_sum_grows(logs, t, m, n - 1);
    }
    if n > 0 && m == n {
        lemma_column_sum_grows(logs, t, 0, n - 1);
    }
}

/// What the simulation gives for the whole portfolio.
pub struct PerformanceReport {
    /// Value of the whole portfolio after the last row.
    pub final_value: u64,
    /// Number of rows in the portfolio's series.
    pub periods: usize,
    /// Relative to the engine's initial capital.
    pub total_return: Result<Ratio, BacktestError>,
    /// Row-over-row changes of the portfolio's value.
    pub period_returns: Vec<Ratio>,
    pub maximum_drawdown: Ratio,
}

impl Backtrader {
    /// The whole portfolio's value after each row: the per-row logs summed
    /// symbol by symbol. Logs of different lengths have no such sum.
    pub fn total_portfolio_values(&self) -> (r: Result<Vec<u64>, BacktestError>)
        ensures
            r is Ok <==> equal_lengths(self.daily_portfolio_values@) && sums_fit(self.daily_portfolio_values@),
            !equal_lengths(self.daily_portfolio_values@) ==> r == Err::<Vec<u64>, BacktestError>(
                BacktestError::MismatchedHistories,
            ),
            equal_lengths(self.daily_portfolio_values@) && !sums_fit(self.daily_portfolio_values@) ==> r
                == Err::<Vec<u64>, BacktestError>(BacktestError::ValueOutOfRange),
            r is Ok ==> r->Ok_0@ == portfolio_totals(self.daily_portfolio_values@),
    {
        let ghost logs = self.daily_portfolio_values@;
        let count = self.daily_portfolio_values.len();
        let mut totals: Vec<u64> = Vec::new();
        if count == 0 {
            proof {
                assert(totals@ =~= portfolio_totals(logs));
            }
            return Ok(totals);
        }
        let rows = self.daily_portfolio_values[0].len();
        let mut j: usize = 0;
        while j < count
            invariant
                j <= count,
                count == logs.len(),
                logs == self.daily_portfolio_values@,
                rows == logs[0].len(),
                forall|a: int| 0 <= a < j ==> (#[trigger] logs[a]).len() == rows,
            decreases count - j,
        {
            if self.daily_portfolio_values[j].len() != rows {
                return Err(BacktestError::MismatchedHistories);
            }
            j = j + 1;
        }
        let mut t: usize = 0;
        while t < rows
            invariant
                t <= rows,
                count == logs.len(),
                count > 0,
                logs == self.daily_portfolio_values@,
                rows == logs[0].len(),
                equal_lengths(logs),
                totals.len() == t,
                forall|u: int| 0 <= u < t ==> #[trigger] column_sum(logs, u, count as int) <= u64::MAX,
                forall|u: int| 0 <= u < t ==> totals@[u] == column_sum(logs, u, count as int),
            decreases rows - t,
        {
            let mut sum: u64 = 0;
            let mut k: usize = 0;
            while k < count
                invariant
                    k <= count,
                    t < rows,
                    count == logs.len(),
                    logs == self.daily_portfolio_values@,
                    rows == logs[0].len(),
                    equal_lengths(logs),
                    sum == column_sum(logs, t as int, k as int),
                decreases count - k,
            {
                let x = self.daily_portfolio_values[k][t];
                if x > u64::MAX - sum {
                    proof {
                        lemma_column_sum_grows(logs, t as int, k + 1, count as int);
                    }
                    return Err(BacktestError::ValueOutOfRange);
                }
                sum = sum + x;
                k = k + 1;
            }
            totals.push(sum);
            t = t + 1;
        }
        proof {
            assert(totals@ =~= portfolio_totals(logs));
        }
        Ok(totals)
    }

    /// Total return, period changes and maximum drawdown of the whole
    /// portfolio's series. With no row simulated there is nothing to
    /// measure, which is reported as `Ok(None)`.
    pub fn calculate_performance(&self) -> (r: Result<Option<PerformanceReport>, BacktestError>)
        ensures
            !equal_lengths(self.daily_portfolio_values@) ==> r == Err::<Option<PerformanceReport>, BacktestError>(
                BacktestError::MismatchedHistories,
            ),
            equal_lengths(self.daily_portfolio_values@) && !sums_fit(self.daily_portfolio_values@) ==> r
                == Err::<Option<PerformanceReport>, BacktestError>(BacktestError::ValueOutOfRange),
            equal_lengths(self.daily_portfolio_values@) && sums_fit(self.daily_portfolio_values@) && series_len(
                self.daily_portfolio_values@,
            ) == 0 ==> r == Ok::<Option<PerformanceReport>, BacktestError>(None),
            equal_lengths(self.daily_portfolio_values@) && sums_fit(self.daily_portfolio_values@) && series_len(
                self.daily_portfolio_values@,
            ) > 0 ==> r is Ok && r->Ok_0 is Some,
            r is Ok && r->Ok_0 is Some ==> ({
                let series = portfolio_totals(self.daily_portfolio_values@);
                let report = r->Ok_0->Some_0;
                &&& report.final_value == series.last()
                &&& report.periods == series.len()
                &&& report.total_return == total_return_of(series.last(), self.initial_capital)
                &&& report.period_returns@ == period_returns(series)
                &&& is_maximum_drawdown(series, report.maximum_drawdown)
            }),
    {
        let series = match self.total_portfolio_values() {
            Ok(series) => series,
            Err(e) => {
                return Err(e);
            },
        };
        if series.len() == 0 {
            return Ok(None);
        }
        let final_value = series[series.len() - 1];
        Ok(
            Some(PerformanceReport {
                final_value,
                periods: series.len(),
                total_return: calculate_total_return(final_value, self.initial_capital),
                period_returns: calculate_daily_returns(&series),
                maximum_drawdown: calculate_maximum_drawdown(&series),
            }),
        )
    }
}

} // verus!
