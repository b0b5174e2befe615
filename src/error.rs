use vstd::prelude::*;

verus! {

/// What can go wrong while simulating or measuring a portfolio.
#[derive(Debug, Clone, Copy, PartialEq, Eq, Structural)]
pub enum BacktestError {
    /// The symbol is not one of the engine's configured symbols.
    UnknownSymbol,
    /// A row has a zero close price or a timestamp earlier than the row
    /// before it.
    MalformedRow,
    /// A metric asked of data on which it has no value.
    UndefinedMetric,
    /// The data collaborator could not supply rows for a symbol.
    DataSourceUnavailable,
    /// A simulated amount no longer fits the fixed-point representation.
    ValueOutOfRange,
    /// Per-symbol value histories of different lengths cannot be summed row by
    /// row.
    MismatchedHistories,
}

} // verus!
