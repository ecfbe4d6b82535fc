//! Result hashes.
use pulse::decimal::Decimal;
use pulse::domain::backtest::regime::{Regime, RegimeBreakdown};
use pulse::domain::backtest::result::BacktestResult;
use pulse::domain::backtest::stats::{EquityCurve, EquityPoint, SummaryStats};
use pulse::domain::backtest::trade::{ExitReason, Fill, Trade, TradeSource};
use pulse::domain::dsl::risk::Direction;
use pulse::domain::fingerprint::{BuildIdentity, EngineFingerprint};
use pulse::domain::sizing::{SkipReason, SkippedEntryCounts};
use sha2::Digest;

fn current() -> EngineFingerprint {
    let build = BuildIdentity::new(&"5".repeat(64), "x86_64-unknown-linux-gnu");
    EngineFingerprint::current(&build.expect("a digest and a triple"))
}

fn empty_result() -> BacktestResult {
    BacktestResult {
        trades: Vec::new(),
        net_pnl: Decimal::zero(),
        fees_total: Decimal::zero(),
        funding_total: Decimal::zero(),
        slippage_total: Decimal::zero(),
        regime_breakdown: RegimeBreakdown::new(),
        skipped_entries: SkippedEntryCounts::new(),
        engine_fingerprint: current(),
        summary: SummaryStats::default(),
        equity_curve: EquityCurve::default(),
    }
}

fn one_trade() -> Trade {
    Trade {
        direction: Direction::Long,
        qty: Decimal::new(5, 1),
        entry_price: Decimal::new(30_000, 0),
        exit_price: Decimal::new(33_000, 0),
        entry_signal_time: 1,
        entry_fill_time: 2,
        exit_signal_time: 3,
        exit_fill_time: 4,
        fills: vec![Fill {
            price: Decimal::new(30_000, 0),
            qty: Decimal::new(5, 1),
            time_ms: 2,
            fee: Decimal::new(6, 0),
        }],
        fees_total: Decimal::new(12, 0),
        funding_total: Decimal::new(1, 0),
        slippage_total: Decimal::new(3, 0),
        realized_pnl: Decimal::new(1_484, 0),
        realized_r: Decimal::new(2, 0),
        mfe_r: Decimal::new(25, 1),
        mae_r: Decimal::new(-5, 1),
        exit_reason: ExitReason::TakeProfit,
        source: TradeSource::Backtest,
        regime: Regime::TrendingUp,
        stop_price: None,
    }
}

fn nonempty_result() -> BacktestResult {
    let trade = one_trade();
    let mut regime_breakdown = RegimeBreakdown::new();
    regime_breakdown.record(Regime::TrendingUp, trade.realized_pnl);
    let mut skipped_entries = SkippedEntryCounts::new();
    skipped_entries.record(SkipReason::SubLot);
    let trades = vec![trade.clone()];
    let equity_curve = EquityCurve::from_trades(0, Decimal::new(10_000, 0), &trades);
    let summary = SummaryStats::from_trades(
        &trades,
        trade.realized_pnl,
        trade.fees_total,
        trade.funding_total,
        &equity_curve,
    );
    BacktestResult {
        trades,
        net_pnl: trade.realized_pnl,
        fees_total: trade.fees_total,
        funding_total: trade.funding_total,
        slippage_total: trade.slippage_total,
        regime_breakdown,
        skipped_entries,
        engine_fingerprint: current(),
        summary,
        equity_curve,
    }
}

fn plus_one(d: Decimal) -> Decimal {
    d.checked_add(Decimal::one()).unwrap()
}

fn sha256_hex(bytes: &[u8]) -> String {
    sha2::Sha256::digest(bytes)
        .iter()
        .map(|b| format!("{b:02x}"))
        .collect()
}

/// A number as its length and its text without trailing zeros.
fn number(out: &mut Vec<u8>, text: &str) {
    out.extend((text.len() as u64).to_be_bytes());
    out.extend(text.as_bytes());
}

#[test]
fn empty_result_has_no_trades_and_zero_totals() {
    let r = empty_result();
    assert!(r.trades.is_empty());
    assert_eq!(r.net_pnl, Decimal::zero());
    assert_eq!(r.fees_total, Decimal::zero());
}

#[test]
fn result_hash_is_well_formed_and_content_sensitive() {
    let r = nonempty_result();
    let hash = r.result_content_hash();
    assert_eq!(
        hash.len(),
        64,
        "content hash must be a 64-char sha2-256 hex"
    );
    assert!(
        hash.chars()
            .all(|c| c.is_ascii_hexdigit() && !c.is_ascii_uppercase()),
        "content hash must be lowercase hex, got {hash:?}"
    );
    let mut other = r.clone();
    other.net_pnl = plus_one(other.net_pnl);
    assert_ne!(
        hash,
        other.result_content_hash(),
        "a different net_pnl must change the content hash"
    );
    let mut regime_diff = r.clone();
    regime_diff
        .regime_breakdown
        .record(Regime::Ranging, Decimal::new(7, 0));
    assert_ne!(
        hash,
        regime_diff.result_content_hash(),
        "a different regime breakdown must change the content hash"
    );
}

#[test]
fn content_hash_is_stable_across_repeated_calls() {
    let r = nonempty_result();
    let first = r.result_content_hash();
    for _ in 0..8 {
        assert_eq!(
            first,
            r.result_content_hash(),
            "result_content_hash must be a stable pure function of the result"
        );
    }
    let mut a = r.clone();
    a.net_pnl = Decimal::new(10, 2);
    let mut b = r.clone();
    b.net_pnl = Decimal::new(1, 1);
    assert_eq!(
        a.result_content_hash(),
        b.result_content_hash(),
        "0.10 and 0.1 must hash identically (normalized Decimal canonicalization)"
    );
}

#[test]
fn money_math_hash_is_composable_and_regime_independent() {
    let r = nonempty_result();
    let money = r.money_math_hash();
    assert_eq!(money.len(), 64, "money_math_hash must be a 64-char hex");
    assert_eq!(money, r.money_math_hash(), "money_math_hash must be stable");
    let mut regime_diff = r.clone();
    regime_diff
        .regime_breakdown
        .record(Regime::Ranging, Decimal::new(9, 0));
    assert_eq!(
        money,
        regime_diff.money_math_hash(),
        "money_math_hash must exclude the regime breakdown"
    );
    assert_ne!(
        r.result_content_hash(),
        regime_diff.result_content_hash(),
        "result_content_hash must fold the regime breakdown in"
    );
    let mut money_diff = r.clone();
    money_diff.fees_total = plus_one(money_diff.fees_total);
    assert_ne!(
        money,
        money_diff.money_math_hash(),
        "a different fees_total must change money_math_hash"
    );
}

#[test]
fn content_hash_excludes_fingerprint() {
    let base = nonempty_result();
    let mut other = base.clone();
    other.engine_fingerprint = EngineFingerprint::from_stored(&"f".repeat(64));
    assert_ne!(
        base.engine_fingerprint, other.engine_fingerprint,
        "the two results must genuinely differ in their fingerprint"
    );
    assert_eq!(
        base.result_content_hash(),
        other.result_content_hash(),
        "result_content_hash must EXCLUDE engine_fingerprint"
    );
    assert_eq!(
        base.money_math_hash(),
        other.money_math_hash(),
        "money_math_hash must EXCLUDE engine_fingerprint"
    );
}

#[test]
fn content_hash_excludes_summary_and_equity_curve() {
    let base = nonempty_result();
    let base_content = base.result_content_hash();
    let base_money = base.money_math_hash();
    let mut summary_diff = base.clone();
    summary_diff.summary = SummaryStats {
        trade_count: 999,
        win_count: 7,
        loss_count: 3,
        win_rate: Decimal::new(7, 1),
        gross_profit: Decimal::new(12_345, 0),
        gross_loss: Decimal::new(678, 0),
        net_pnl: Decimal::new(11_667, 0),
        profit_factor: Some(Decimal::new(18, 1)),
        avg_win: Decimal::new(1_763, 0),
        avg_loss: Decimal::new(226, 0),
        expectancy: Decimal::new(11, 0),
        max_drawdown: Decimal::new(4_242, 0),
        max_win_streak: 5,
        max_loss_streak: 2,
        commission_total: Decimal::new(99, 0),
        funding_total: Decimal::new(-13, 0),
    };
    assert_ne!(
        base.summary, summary_diff.summary,
        "the two results must genuinely differ in their summary"
    );
    let mut curve_diff = base.clone();
    curve_diff.equity_curve = EquityCurve(vec![
        EquityPoint {
            time_ms: 0,
            equity: Decimal::new(10_000, 0),
        },
        EquityPoint {
            time_ms: 123_456,
            equity: Decimal::new(99_999, 0),
        },
    ]);
    assert_ne!(
        base.equity_curve, curve_diff.equity_curve,
        "the two results must genuinely differ in their equity_curve"
    );
    for (label, other) in [("summary", &summary_diff), ("equity_curve", &curve_diff)] {
        assert_eq!(
            base_content,
            other.result_content_hash(),
            "result_content_hash must EXCLUDE {label}"
        );
        assert_eq!(
            base_money,
            other.money_math_hash(),
            "money_math_hash must EXCLUDE {label}"
        );
    }
}

#[test]
fn the_encoding_of_an_empty_run_is_the_documented_one() {
    let mut bytes = Vec::new();
    bytes.extend(0u64.to_be_bytes());
    for _ in 0..4 {
        number(&mut bytes, "0");
    }
    for _ in 0..3 {
        bytes.extend(0u64.to_be_bytes());
    }
    assert_eq!(empty_result().money_math_hash(), sha256_hex(&bytes));
    for _ in 0..4 {
        bytes.extend(0u64.to_be_bytes());
        number(&mut bytes, "0");
    }
    assert_eq!(empty_result().result_content_hash(), sha256_hex(&bytes));
}

#[test]
fn the_encoding_of_a_trade_is_the_documented_one() {
    let mut r = nonempty_result();
    r.trades[0].entry_signal_time = -1;
    r.trades[0].stop_price = Some(Decimal::new(2_850_000, 2));
    let mut bytes = Vec::new();
    bytes.extend(1u64.to_be_bytes());
    bytes.push(0);
    number(&mut bytes, "0.5");
    number(&mut bytes, "30000");
    number(&mut bytes, "33000");
    bytes.extend((-1i64).to_be_bytes());
    bytes.extend(2i64.to_be_bytes());
    bytes.extend(3i64.to_be_bytes());
    bytes.extend(4i64.to_be_bytes());
    bytes.extend(1u64.to_be_bytes());
    number(&mut bytes, "30000");
    number(&mut bytes, "0.5");
    bytes.extend(2i64.to_be_bytes());
    number(&mut bytes, "6");
    for text in ["12", "1", "3", "1484", "2", "2.5", "-0.5"] {
        number(&mut bytes, text);
    }
    bytes.extend([1, 0, 0]);
    number(&mut bytes, "28500");
    for text in ["1484", "12", "1", "3"] {
        number(&mut bytes, text);
    }
    bytes.extend(1u64.to_be_bytes());
    bytes.extend(0u64.to_be_bytes());
    bytes.extend(0u64.to_be_bytes());
    assert_eq!(r.money_math_hash(), sha256_hex(&bytes));
}

#[test]
fn a_recorded_stop_enters_the_hash_and_a_missing_one_does_not() {
    let base = nonempty_result();
    let mut with_stop = base.clone();
    with_stop.trades[0].stop_price = Some(Decimal::new(99, 0));
    assert_ne!(base.money_math_hash(), with_stop.money_math_hash());
    let mut rescaled = with_stop.clone();
    rescaled.trades[0].stop_price = Some(Decimal::new(9_900, 2));
    assert_eq!(with_stop.money_math_hash(), rescaled.money_math_hash());
}

#[test]
fn every_field_of_a_trade_enters_the_hash() {
    let base = nonempty_result();
    let one = Decimal::one();
    let mut changed: Vec<Trade> = Vec::new();
    for i in 0..18 {
        let mut t = one_trade();
        match i {
            0 => t.direction = Direction::Short,
            1 => t.qty = one,
            2 => t.entry_price = one,
            3 => t.exit_price = one,
            4 => t.entry_signal_time = 9,
            5 => t.entry_fill_time = 9,
            6 => t.exit_signal_time = 9,
            7 => t.exit_fill_time = 9,
            8 => t.fills[0].fee = one,
            9 => t.fees_total = one,
            10 => t.funding_total = Decimal::zero(),
            11 => t.slippage_total = one,
            12 => t.realized_pnl = one,
            13 => t.realized_r = one,
            14 => t.mfe_r = one,
            15 => t.mae_r = one,
            16 => t.exit_reason = ExitReason::EndOfData,
            _ => t.regime = Regime::Unknown,
        }
        changed.push(t);
    }
    for t in changed {
        let mut other = base.clone();
        other.trades = vec![t];
        assert_ne!(base.money_math_hash(), other.money_math_hash());
    }
}
