//! `ValueSource`: where a scalar value in a condition comes from.
use crate::decimal::Decimal;
use crate::domain::dsl::sweepable::SweepableValue;
use vstd::prelude::*;

verus! {

/// Which candle series an operand reads.
#[derive(Clone, Copy, Debug, PartialEq, Eq, Structural)]
pub enum Series {
    /// The run's own candle series.
    Primary,
    /// The aligned higher-timeframe series.
    Htf,
}

impl Default for Series {
    fn default() -> (s: Series)
        ensures
            s == Series::Primary,
    {
        Series::Primary
    }
}

/// A field of the current candle.
#[derive(Clone, Copy, Debug, PartialEq, Eq, Structural)]
pub enum PriceField {
    /// Opening price of the candle.
    Open,
    /// Highest price of the candle.
    High,
    /// Lowest price of the candle.
    Low,
    /// Closing price of the candle.
    Close,
    /// Traded volume of the candle.
    Volume,
}

/// A typed reference to a technical indicator and its parameters.
#[derive(Clone, Copy, Debug, PartialEq, Eq, Structural)]
pub enum IndicatorSpec {
    /// Relative Strength Index over `period` bars.
    Rsi {
        /// Lookback period.
        period: SweepableValue<u32>,
    },
    /// Exponential Moving Average over `period` bars.
    Ema {
        /// Lookback period.
        period: SweepableValue<u32>,
    },
    /// Average Directional Index over `period` bars.
    Adx {
        /// Lookback period.
        period: SweepableValue<u32>,
    },
    /// Moving Average Convergence Divergence with fast, slow and signal periods.
    Macd {
        /// Fast EMA period.
        fast: SweepableValue<u32>,
        /// Slow EMA period.
        slow: SweepableValue<u32>,
        /// Signal-line EMA period.
        signal: SweepableValue<u32>,
    },
    /// Average True Range over `period` bars.
    Atr {
        /// Lookback period.
        period: SweepableValue<u32>,
    },
}

/// Where a scalar value in a condition comes from.
#[derive(Clone, Copy, Debug, PartialEq, Eq)]
pub enum ValueSource {
    /// A literal constant.
    Constant {
        /// The constant value.
        value: Decimal,
    },
    /// A field of the current candle.
    Price {
        /// Which series the field reads.
        series: Series,
        /// Which field to read.
        field: PriceField,
    },
    /// The output of a technical indicator.
    Indicator {
        /// Which series the indicator runs on.
        series: Series,
        /// The indicator and its parameters.
        spec: IndicatorSpec,
    },
}

} // verus!
