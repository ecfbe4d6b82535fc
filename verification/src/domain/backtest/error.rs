//! The error taxonomy of the backtester.
use crate::domain::market::Timeframe;
use crate::text::{concat2, concat3};
use vstd::prelude::*;
use vstd::string::*;

verus! {

/// Why a backtest was refused.
#[derive(Clone, Debug, PartialEq, Eq)]
#[non_exhaustive]
pub enum BacktestError {
    /// Entry and stop coincide, or the strategy has no stop.
    NoStopLoss,
    /// An exit of a kind that the backtester does not model.
    UnsupportedExit(String),
    /// The indicator engine could not be set up.
    EngineInit(String),
    /// A take-profit target at or below zero.
    ImpossibleTakeProfit(String),
    /// An ATR stop at or below zero.
    ImpossibleStop(String),
    /// Costs or equity out of range.
    InvalidConfig(String),
    /// A higher-timeframe operand without a higher-timeframe series.
    HtfRequired,
    /// The higher-timeframe series is not longer than the primary one.
    HtfNotHigher {
        /// The timeframe of the primary series.
        primary: Timeframe,
        /// The timeframe of the other series.
        htf: Timeframe,
    },
}

/// The name of a timeframe.
pub open spec fn timeframe_name(tf: Timeframe) -> Seq<char> {
    match tf {
        Timeframe::M15 => "M15"@,
        Timeframe::H4 => "H4"@,
    }
}

/// The text of an error.
pub open spec fn backtest_error_text(e: BacktestError) -> Seq<char> {
    match e {
        BacktestError::NoStopLoss =>
            "cannot size a position without a stop-loss (zero stop distance)"@,
        BacktestError::UnsupportedExit(s) => "unsupported exit kind for this backtester: "@ + s@,
        BacktestError::EngineInit(s) => "indicator engine initialization failed: "@ + s@,
        BacktestError::ImpossibleTakeProfit(s) => "impossible take-profit geometry: "@ + s@,
        BacktestError::ImpossibleStop(s) => "impossible ATR stop: "@ + s@,
        BacktestError::InvalidConfig(s) => "invalid backtest configuration: "@ + s@,
        BacktestError::HtfRequired =>
            "strategy requires a higher-timeframe candle series (series: \"htf\" operand present)"@,
        BacktestError::HtfNotHigher { primary, htf } => "higher-timeframe series "@
            + timeframe_name(htf) + " is not higher than the primary series "@
            + timeframe_name(primary)
            + " — `Series::Htf` operands need a strictly longer timeframe"@,
    }
}

fn timeframe_text(tf: Timeframe) -> (r: &'static str)
    ensures
        r@ == timeframe_name(tf),
{
    match tf {
        Timeframe::M15 => "M15",
        Timeframe::H4 => "H4",
    }
}

impl BacktestError {
    /// The text of the error.
    pub fn to_string(&self) -> (t: String)
        ensures
            t@ == backtest_error_text(*self),
    {
        match self {
            BacktestError::NoStopLoss =>
                "cannot size a position without a stop-loss (zero stop distance)".to_owned(),
            BacktestError::UnsupportedExit(s) => concat2(
                "unsupported exit kind for this backtester: ",
                s.as_str(),
            ),
            BacktestError::EngineInit(s) => concat2(
                "indicator engine initialization failed: ",
                s.as_str(),
            ),
            BacktestError::ImpossibleTakeProfit(s) => concat2(
                "impossible take-profit geometry: ",
                s.as_str(),
            ),
            BacktestError::ImpossibleStop(s) => concat2("impossible ATR stop: ", s.as_str()),
            BacktestError::InvalidConfig(s) => concat2(
                "invalid backtest configuration: ",
                s.as_str(),
            ),
            BacktestError::HtfRequired =>
                "strategy requires a higher-timeframe candle series (series: \"htf\" operand present)".to_owned(),
            BacktestError::HtfNotHigher { primary, htf } => {
                let mut t = concat3(
                    "higher-timeframe series ",
                    timeframe_text(*htf),
                    " is not higher than the primary series ",
                );
                t.append(timeframe_text(*primary));
                t.append(" — `Series::Htf` operands need a strictly longer timeframe");
                t
            },
        }
    }
}

} // verus!
