//! A signal-driven backtesting engine with exact fixed-point bookkeeping.
//!
//! Prices, cash, positions and portfolio values are unsigned integers in units
//! of `1 / SCALE` (see [`exchange::SCALE`]); performance ratios are exact
//! fractions.
pub mod exchange;
pub mod error;
pub mod asset_data;
pub mod performance;
pub mod backtrader;
pub mod clock;
pub mod data;
pub mod grid;
