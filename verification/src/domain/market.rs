//! Market data value types: pairs, intervals, snapshot versions and candles.
use crate::decimal::Decimal;
use vstd::prelude::*;

verus! {

/// The version of the stored form of candle series.
pub const CANDLE_SCHEMA_VERSION: u32 = 1;

/// A trading pair, such as `BTCUSDT`.
#[derive(Clone, Debug, PartialEq, Eq, Hash)]
pub struct Pair(String);

impl View for Pair {
    type V = Seq<char>;

    closed spec fn view(&self) -> Seq<char> {
        self.0@
    }
}

impl Pair {
    /// Wraps a symbol.
    pub fn new(symbol: &str) -> (r: Pair)
        ensures
            r@ == symbol@,
    {
        Pair(symbol.to_owned())
    }

    /// The symbol.
    pub fn as_str(&self) -> (r: &str)
        ensures
            r@ == self@,
    {
        self.0.as_str()
    }

    /// The same pair.
    pub fn duplicate(&self) -> (r: Pair)
        ensures
            r == *self,
    {
        Pair(self.0.clone())
    }
}

/// A candle interval.
#[derive(Clone, Copy, Debug, PartialEq, Eq, Hash, Structural)]
pub enum Timeframe {
    /// Fifteen minutes.
    M15,
    /// Four hours.
    H4,
}

/// The length of an interval in milliseconds.
pub open spec fn timeframe_ms(tf: Timeframe) -> i64 {
    match tf {
        Timeframe::M15 => 900_000,
        Timeframe::H4 => 14_400_000,
    }
}

impl Timeframe {
    /// The length of the interval in milliseconds.
    pub fn duration_ms(&self) -> (r: i64)
        ensures
            r == timeframe_ms(*self),
            r > 0,
            *self == Timeframe::M15 ==> r == 15 * 60 * 1_000,
            *self == Timeframe::H4 ==> r == 4 * 60 * 60 * 1_000,
    {
        match self {
            Timeframe::M15 => 900_000,
            Timeframe::H4 => 14_400_000,
        }
    }
}

/// An interval is its name in milliseconds: fifteen minutes, four hours.
pub proof fn law_intervals_have_their_length()
    ensures
        timeframe_ms(Timeframe::M15) == 15 * 60 * 1_000,
        timeframe_ms(Timeframe::H4) == 4 * 60 * 60 * 1_000,
        timeframe_ms(Timeframe::H4) == 16 * timeframe_ms(Timeframe::M15),
{
}

/// The content-addressed version of a candle snapshot.
#[derive(Clone, Debug, PartialEq, Eq, Hash)]
pub struct DataVersion(String);

impl View for DataVersion {
    type V = Seq<char>;

    closed spec fn view(&self) -> Seq<char> {
        self.0@
    }
}

impl DataVersion {
    /// Wraps a version tag.
    pub fn new(tag: &str) -> (r: DataVersion)
        ensures
            r@ == tag@,
    {
        DataVersion(tag.to_owned())
    }

    /// The version tag.
    pub fn as_str(&self) -> (r: &str)
        ensures
            r@ == self@,
    {
        self.0.as_str()
    }

    /// The same version.
    pub fn duplicate(&self) -> (r: DataVersion)
        ensures
            r == *self,
    {
        DataVersion(self.0.clone())
    }
}

/// One candle.
#[derive(Clone, Copy, Debug, PartialEq, Eq)]
pub struct Candle {
    /// When the candle opens, epoch ms.
    pub open_time: i64,
    /// When the candle closes, epoch ms.
    pub close_time: i64,
    /// Opening price.
    pub open: Decimal,
    /// Highest price.
    pub high: Decimal,
    /// Lowest price.
    pub low: Decimal,
    /// Closing price.
    pub close: Decimal,
    /// Traded volume.
    pub volume: Decimal,
    /// The funding rate in effect, where there is one.
    pub funding_rate: Option<Decimal>,
}

/// A point in time: seconds and nanoseconds since the UTC epoch.
#[derive(Clone, Copy, Debug, PartialEq, Eq, PartialOrd, Ord, Structural)]
pub struct Timestamp {
    /// Whole seconds since the epoch.
    pub secs: i64,
    /// Nanoseconds into the second.
    pub nanos: u32,
}

} // verus!
