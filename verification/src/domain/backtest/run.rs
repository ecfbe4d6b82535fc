//! What a persisted run consumed and produced.
use crate::decimal::Decimal;
use crate::domain::backtest::regime::RegimeBreakdown;
use crate::domain::backtest::stats::SummaryStats;
use crate::domain::backtest::walk_forward::WalkForwardMembership;
use crate::domain::dsl::risk::Direction;
use crate::domain::market::{DataVersion, Pair, Timeframe};
use crate::domain::sizing::SkippedEntryCounts;
use crate::domain::strategy::VersionId;
use crate::text::{concat3, i64_text, signed_digits};
use vstd::prelude::*;
use vstd::string::*;

verus! {

/// One immutable candle snapshot a run consumed.
#[derive(Clone, Debug, PartialEq, Eq)]
pub struct SnapshotSelection {
    /// The candle interval this snapshot holds.
    pub timeframe: Timeframe,
    /// The exact snapshot identity.
    pub data_version: DataVersion,
}

/// How a run sourced its funding rates.
#[derive(Clone, Copy, Debug, PartialEq, Eq, Structural)]
pub enum FundingConfig {
    /// From the rates embedded in the candle snapshot.
    SnapshotRates,
}

/// Everything a run consumed.
#[derive(Clone, Debug, PartialEq, Eq)]
pub struct BacktestInputs {
    /// The trading pair the run used.
    pub pair: Pair,
    /// The primary interval's snapshot.
    pub primary: SnapshotSelection,
    /// The higher interval's snapshot, when the run used one.
    pub htf: Option<SnapshotSelection>,
    /// Taker fee in basis points.
    pub taker_fee_bps: Decimal,
    /// Adverse-fill slippage in basis points.
    pub slippage_bps: Decimal,
    /// How funding rates were sourced.
    pub funding: FundingConfig,
    /// The candle slice the run counted; `None` is the whole snapshot.
    pub window: Option<CandleWindow>,
    /// Where the lead-in of a windowed run began, when it had one.
    pub lead_in_from_ms: Option<i64>,
}

/// A half-open slice `[from_ms, to_ms)` of candle opening times.
#[derive(Clone, Copy, Debug, PartialEq, Eq, Structural)]
pub struct CandleWindow {
    /// The first opening time the window holds.
    pub from_ms: i64,
    /// The opening time the window stops before.
    pub to_ms: i64,
}

/// Whether a window holds an opening time.
pub open spec fn in_window(w: CandleWindow, t: int) -> bool {
    w.from_ms <= t < w.to_ms
}

/// What the last bar of a series represents.
#[derive(Clone, Copy, Debug, PartialEq, Eq, Structural)]
pub enum SeriesEnd {
    /// The snapshot ended.
    SnapshotEnd,
    /// A window cut the series before the snapshot's last candle.
    WindowEdge,
}

/// The position still open at a window edge.
#[derive(Clone, Copy, Debug, PartialEq, Eq)]
pub struct OpenPositionMark {
    /// The position's side.
    pub direction: Direction,
    /// Position size in base units.
    pub qty: Decimal,
    /// The price the entry filled at.
    pub entry_price: Decimal,
    /// When the entry condition fired, epoch ms.
    pub entry_signal_time: i64,
    /// When the entry filled, epoch ms.
    pub entry_fill_time: i64,
    /// The mark timestamp.
    pub mark_time: i64,
    /// The mark price.
    pub mark_price: Decimal,
}

/// A window that is empty or runs backwards.
#[derive(Clone, Copy, Debug, PartialEq, Eq, Structural)]
pub struct CandleWindowError {
    /// The submitted lower bound.
    pub from_ms: i64,
    /// The submitted upper bound.
    pub to_ms: i64,
}

impl CandleWindowError {
    /// The text of the error.
    pub fn to_string(&self) -> (t: String)
        ensures
            t@ == "a candle window requires from_ms < to_ms, got "@ + signed_digits(
                self.from_ms as int,
            ) + " >= "@ + signed_digits(self.to_ms as int),
    {
        let mut t = concat3(
            "a candle window requires from_ms < to_ms, got ",
            i64_text(self.from_ms).as_str(),
            " >= ",
        );
        t.append(i64_text(self.to_ms).as_str());
        t
    }
}

impl CandleWindow {
    /// Builds a window; an empty or inverted one is refused.
    pub fn new(from_ms: i64, to_ms: i64) -> (r: Result<CandleWindow, CandleWindowError>)
        ensures
            r is Ok <==> from_ms < to_ms,
            r is Ok ==> r->Ok_0 == (CandleWindow { from_ms, to_ms }),
            r is Err ==> r->Err_0 == (CandleWindowError { from_ms, to_ms }),
    {
        if from_ms >= to_ms {
            return Err(CandleWindowError { from_ms, to_ms });
        }
        Ok(CandleWindow { from_ms, to_ms })
    }
}

/// Identifier of a persisted run.
#[derive(Clone, Debug, PartialEq, Eq, Hash, PartialOrd, Ord)]
pub struct BacktestRunId(String);

impl View for BacktestRunId {
    type V = Seq<char>;

    closed spec fn view(&self) -> Seq<char> {
        self.0@
    }
}

impl BacktestRunId {
    /// Wraps an id.
    pub fn new(id: &str) -> (r: BacktestRunId)
        ensures
            r@ == id@,
    {
        BacktestRunId(id.to_owned())
    }

    /// The id.
    pub fn as_str(&self) -> (r: &str)
        ensures
            r@ == self@,
    {
        self.0.as_str()
    }
}

/// The header of one persisted run.
#[derive(Clone, Debug, PartialEq)]
pub struct PersistedRun {
    /// The run's id.
    pub id: BacktestRunId,
    /// The strategy version this run was produced against.
    pub strategy_version_id: VersionId,
    /// What the run consumed; `None` on records from before it was kept.
    pub inputs: Option<BacktestInputs>,
    /// The record's schema tag.
    pub schema_version: i64,
    /// The run timestamp, RFC 3339 text.
    pub created_at: String,
    /// The recording engine's fingerprint.
    pub engine_fingerprint: String,
    /// The recording engine's target triple.
    pub engine_target: String,
    /// The integrity hash of the result.
    pub result_content_hash: String,
    /// The base of the equity curve.
    pub starting_equity: Decimal,
    /// Net result across the run.
    pub net_pnl: Decimal,
    /// Total taker fees across the run.
    pub fees_total: Decimal,
    /// Total signed funding across the run.
    pub funding_total: Decimal,
    /// Total adverse slippage across the run.
    pub slippage_total: Decimal,
    /// The summary statistics.
    pub summary: SummaryStats,
    /// The split by regime.
    pub regime_breakdown: RegimeBreakdown,
    /// The entries the sizer suppressed.
    pub skipped_entries: SkippedEntryCounts,
    /// The position the window edge left open.
    pub open_position: Option<OpenPositionMark>,
    /// The walk-forward run this run is a fold of, if it is one.
    pub walk_forward: Option<WalkForwardMembership>,
}

/// A run in the catalog.
#[derive(Clone, Debug, PartialEq)]
pub struct RunSummary {
    /// The run's id.
    pub id: BacktestRunId,
    /// The strategy version this run was produced against.
    pub strategy_version_id: VersionId,
    /// The record's schema tag.
    pub schema_version: i64,
    /// The run timestamp, RFC 3339 text.
    pub created_at: String,
    /// The recording engine's fingerprint.
    pub engine_fingerprint: String,
    /// The recording engine's target triple.
    pub engine_target: String,
    /// The integrity hash of the result.
    pub result_content_hash: String,
    /// Net result across the run.
    pub net_pnl: Decimal,
    /// Mean result per trade.
    pub expectancy: Decimal,
    /// Number of closed trades.
    pub trade_count: usize,
}

} // verus!
