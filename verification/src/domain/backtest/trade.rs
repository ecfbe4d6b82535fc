//! The immutable record of one backtested trade and its fills.
use crate::decimal::Decimal;
use crate::domain::backtest::regime::Regime;
use crate::domain::dsl::risk::Direction;
use vstd::prelude::*;

verus! {

/// Why a trade closed.
#[derive(Clone, Copy, Debug, PartialEq, Eq, Structural)]
pub enum ExitReason {
    /// The stop-loss level was reached.
    StopLoss,
    /// The take-profit level was reached.
    TakeProfit,
    /// A signal exit became true.
    Signal,
    /// The series ended with the position open.
    EndOfData,
}

/// How a trade originated.
#[derive(Clone, Copy, Debug, PartialEq, Eq, Structural)]
pub enum TradeSource {
    /// Produced by the deterministic backtester.
    Backtest,
}

/// One synthetic fill.
#[derive(Clone, Copy, Debug, PartialEq, Eq)]
pub struct Fill {
    /// The slippage-adjusted execution price.
    pub price: Decimal,
    /// The filled base-asset quantity.
    pub qty: Decimal,
    /// Fill time, UTC epoch milliseconds.
    pub time_ms: i64,
    /// The taker fee charged on this fill.
    pub fee: Decimal,
}

/// One backtested trade.
#[derive(Clone, Debug, PartialEq, Eq)]
pub struct Trade {
    /// Trade side.
    pub direction: Direction,
    /// Filled position size in base asset.
    pub qty: Decimal,
    /// Entry fill price.
    pub entry_price: Decimal,
    /// Exit fill price.
    pub exit_price: Decimal,
    /// When the entry condition fired, epoch ms.
    pub entry_signal_time: i64,
    /// When the entry executed, epoch ms.
    pub entry_fill_time: i64,
    /// When the exit condition fired, epoch ms.
    pub exit_signal_time: i64,
    /// When the exit executed, epoch ms.
    pub exit_fill_time: i64,
    /// The synthetic fills backing this trade.
    pub fills: Vec<Fill>,
    /// Total taker fees paid across all fills.
    pub fees_total: Decimal,
    /// Total funding, negative when the position paid it.
    pub funding_total: Decimal,
    /// Total adverse slippage cost across all fills.
    pub slippage_total: Decimal,
    /// Net realized result in quote currency.
    pub realized_pnl: Decimal,
    /// Realized R-multiple.
    pub realized_r: Decimal,
    /// Maximum favourable excursion in R-multiples, a full-bar potential bound.
    pub mfe_r: Decimal,
    /// Maximum adverse excursion in R-multiples, a full-bar potential bound.
    pub mae_r: Decimal,
    /// Why the trade closed.
    pub exit_reason: ExitReason,
    /// Where the trade originated.
    pub source: TradeSource,
    /// The market regime at the entry fill.
    pub regime: Regime,
    /// The recorded stop price; `None` on records from before it was kept.
    pub stop_price: Option<Decimal>,
}

} // verus!
