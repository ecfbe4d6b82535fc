//! Summary statistics, equity curves and walk-forward verdicts.
use pulse::decimal::Decimal;
use pulse::domain::backtest::error::BacktestError;
use pulse::domain::backtest::regime::{Regime, RegimeBreakdown};
use pulse::domain::backtest::run::{BacktestRunId, CandleWindow};
use pulse::domain::backtest::stats::{EquityCurve, EquityPoint, RMoments, SummaryStats};
use pulse::domain::backtest::trade::{ExitReason, Fill, Trade, TradeSource};
use pulse::domain::backtest::walk_forward::{
    fold_windows, folds_required, FoldMoments, FoldScheme, FoldVerdict, RunVerdict, VerdictRule,
    WalkForwardError, WalkForwardRunId, N_MIN,
};
use pulse::domain::dsl::risk::Direction;
use pulse::domain::market::Timeframe;
use pulse::domain::sizing::{SkipReason, SkippedEntryCounts};

fn d(n: i64) -> Decimal {
    Decimal::new(n, 0)
}

fn quotient(a: i64, b: i64) -> Decimal {
    d(a).checked_div(d(b)).expect("a quotient")
}

fn trade_with(realized_pnl: Decimal, exit_fill_time: i64) -> Trade {
    Trade {
        direction: Direction::Long,
        qty: Decimal::one(),
        entry_price: d(100),
        exit_price: d(100),
        entry_signal_time: 0,
        entry_fill_time: 0,
        exit_signal_time: exit_fill_time,
        exit_fill_time,
        fills: Vec::new(),
        fees_total: Decimal::zero(),
        funding_total: Decimal::zero(),
        slippage_total: Decimal::zero(),
        realized_pnl,
        realized_r: Decimal::zero(),
        mfe_r: Decimal::zero(),
        mae_r: Decimal::zero(),
        exit_reason: ExitReason::Signal,
        source: TradeSource::Backtest,
        regime: Regime::Unknown,
        stop_price: None,
    }
}

#[test]
fn summary_stats_math() {
    let trades = vec![
        trade_with(d(10), 10),
        trade_with(d(-4), 20),
        trade_with(d(6), 30),
        trade_with(d(-2), 40),
        trade_with(d(-3), 50),
        trade_with(d(0), 60),
    ];
    let net_pnl = d(7);
    let fees_total = d(12);
    let funding_total = d(-1);
    let curve = EquityCurve::from_trades(0, d(1000), &trades);
    let s = SummaryStats::from_trades(&trades, net_pnl, fees_total, funding_total, &curve);

    assert_eq!(s.trade_count, 6);
    assert_eq!(s.win_count, 2);
    assert_eq!(s.loss_count, 3);
    assert_eq!(s.win_rate, quotient(2, 6));
    assert_eq!(s.gross_profit, d(16));
    assert_eq!(s.gross_loss, d(9));
    assert_eq!(s.net_pnl, d(7));
    assert_eq!(s.profit_factor, Some(quotient(16, 9)));
    assert_eq!(s.avg_win, quotient(16, 2));
    assert_eq!(s.avg_loss, quotient(9, 3));
    assert_eq!(s.expectancy, quotient(7, 6));
    assert_eq!(s.max_win_streak, 1);
    assert_eq!(s.max_loss_streak, 2);
    assert_eq!(s.commission_total, fees_total);
    assert_eq!(s.funding_total, funding_total);
    assert_eq!(
        SummaryStats::checked_from_trades(&trades, net_pnl, fees_total, funding_total, &curve),
        Some(s)
    );
}

#[test]
fn summary_stats_math_empty_run_is_all_zero() {
    let trades: Vec<Trade> = Vec::new();
    let curve = EquityCurve::from_trades(0, d(1000), &trades);
    let s = SummaryStats::from_trades(
        &trades,
        Decimal::zero(),
        Decimal::zero(),
        Decimal::zero(),
        &curve,
    );
    assert_eq!(s.trade_count, 0);
    assert_eq!(s.win_rate, Decimal::zero());
    assert_eq!(s.avg_win, Decimal::zero());
    assert_eq!(s.avg_loss, Decimal::zero());
    assert_eq!(s.expectancy, Decimal::zero());
    assert_eq!(s.profit_factor, None);
    assert_eq!(s.max_drawdown, Decimal::zero());
    assert_eq!(s.max_win_streak, 0);
    assert_eq!(s.max_loss_streak, 0);
}

#[test]
fn equity_curve_construction() {
    let trades = vec![
        trade_with(d(10), 100),
        trade_with(d(-4), 200),
        trade_with(d(6), 300),
    ];
    let start = d(1000);
    let curve = EquityCurve::from_trades(50, start, &trades);
    assert_eq!(curve.0.len(), trades.len() + 1);
    assert_eq!(
        curve.0[0],
        EquityPoint {
            time_ms: 50,
            equity: start,
        }
    );
    assert_eq!(
        curve.0[1],
        EquityPoint {
            time_ms: 100,
            equity: d(1010),
        }
    );
    assert_eq!(
        curve.0[2],
        EquityPoint {
            time_ms: 200,
            equity: d(1006),
        }
    );
    assert_eq!(
        curve.0[3],
        EquityPoint {
            time_ms: 300,
            equity: d(1012),
        }
    );
    let net = d(10)
        .checked_add(d(-4))
        .and_then(|s| s.checked_add(d(6)))
        .unwrap();
    assert_eq!(
        curve.0.last().unwrap().equity,
        start.checked_add(net).unwrap()
    );
}

#[test]
fn equity_curve_construction_empty_run_is_single_leading_point() {
    let curve = EquityCurve::from_trades(7, d(500), &[]);
    assert_eq!(curve.0.len(), 1);
    assert_eq!(
        curve.0[0],
        EquityPoint {
            time_ms: 7,
            equity: d(500),
        }
    );
}

#[test]
fn equity_curve_max_drawdown() {
    let trades = vec![
        trade_with(d(100), 1),
        trade_with(d(-300), 2),
        trade_with(d(50), 3),
        trade_with(d(-20), 4),
        trade_with(d(400), 5),
    ];
    let curve = EquityCurve::from_trades(0, d(1000), &trades);
    assert_eq!(curve.max_drawdown(), d(300));
    assert_eq!(curve.checked_max_drawdown(), Some(d(300)));

    let up = vec![
        trade_with(d(5), 1),
        trade_with(d(7), 2),
        trade_with(d(0), 3),
    ];
    let up_curve = EquityCurve::from_trades(0, d(100), &up);
    assert_eq!(up_curve.max_drawdown(), Decimal::zero());

    let empty = EquityCurve::from_trades(0, d(100), &[]);
    assert_eq!(empty.max_drawdown(), Decimal::zero());
}

#[test]
fn profit_factor_none_on_zero_gross_loss() {
    let winners = vec![
        trade_with(d(10), 1),
        trade_with(d(5), 2),
        trade_with(d(0), 3),
    ];
    let curve = EquityCurve::from_trades(0, d(1000), &winners);
    let s = SummaryStats::from_trades(&winners, d(15), Decimal::zero(), Decimal::zero(), &curve);
    assert_eq!(s.gross_loss, Decimal::zero());
    assert_eq!(s.profit_factor, None, "no losses => profit_factor is None");

    let mixed = vec![trade_with(d(10), 1), trade_with(d(-4), 2)];
    let curve2 = EquityCurve::from_trades(0, d(1000), &mixed);
    let s2 = SummaryStats::from_trades(&mixed, d(6), Decimal::zero(), Decimal::zero(), &curve2);
    assert_eq!(s2.profit_factor, Some(quotient(10, 4)));
}

#[test]
fn a_curve_that_does_not_fit_is_reported() {
    let huge = Decimal::from_i128_with_scale(79_228_162_514_264_337_593_543_950_335, 0);
    let trades = vec![trade_with(huge, 1)];
    assert_eq!(EquityCurve::checked_from_trades(0, huge, &trades), None);
    assert!(EquityCurve::checked_from_trades(0, d(1), &[trade_with(d(1), 1)]).is_some());
}

#[test]
fn moments_use_the_sample_variance_and_the_whole_count() {
    // mean 0.5; deviations 0.5, -1.5, 1: squares 0.25, 2.25, 1 -> 3.5 / 2
    let rs = [d(1), d(-1), Decimal::new(15, 1)];
    let m = RMoments::checked_from_rs(&rs).expect("fits").expect("two members");
    assert_eq!(m.mean, Decimal::new(5, 1));
    assert_eq!(m.sample_variance, Decimal::new(175, 2));
    assert_eq!(m.downside_variance, quotient(1, 3));
}

#[test]
fn trade_holds_two_fills_and_four_timestamps() {
    let t = sample_trade();
    assert_eq!(t.fills.len(), 2, "a backtest trade has open + close fills");
    assert!(t.entry_signal_time <= t.entry_fill_time);
    assert!(t.exit_signal_time <= t.exit_fill_time);
    assert_eq!(t.direction, Direction::Long);
}

#[test]
fn trade_carries_mfe_mae_with_correct_signs() {
    let t = sample_trade();
    assert!(Decimal::zero().le(&t.mfe_r), "mfe_r must be >= 0");
    assert!(t.mae_r.le(&Decimal::zero()), "mae_r must be <= 0");
}

fn sample_trade() -> Trade {
    let mut t = trade_with(d(20), 1_700_000_900_000);
    t.entry_signal_time = 1_699_999_100_000;
    t.entry_fill_time = 1_700_000_000_000;
    t.exit_signal_time = 1_700_000_000_000;
    t.fills = vec![
        Fill {
            price: d(100),
            qty: d(2),
            time_ms: 1_700_000_000_000,
            fee: Decimal::new(8, 2),
        },
        Fill {
            price: d(110),
            qty: d(2),
            time_ms: 1_700_000_900_000,
            fee: Decimal::new(88, 3),
        },
    ];
    t.mfe_r = Decimal::new(25, 1);
    t.mae_r = Decimal::new(-5, 1);
    t.stop_price = Some(d(99));
    t
}

#[test]
fn regimes_are_counted_apart() {
    let mut b = RegimeBreakdown::new();
    assert!(b.record(Regime::TrendingUp, d(5)));
    assert!(b.record(Regime::TrendingUp, d(-2)));
    assert!(b.record(Regime::Unknown, d(1)));
    assert_eq!(b.trending_up().trade_count, 2);
    assert_eq!(b.trending_up().net_pnl, d(3));
    assert_eq!(b.unknown().trade_count, 1);
    assert_eq!(b.ranging().trade_count, 0);
    assert_eq!(b.trending_down().net_pnl, Decimal::zero());
    let again = RegimeBreakdown::from_cells(
        b.trending_up(),
        b.trending_down(),
        b.ranging(),
        b.unknown(),
    );
    assert_eq!(again, b);
    let huge = Decimal::from_i128_with_scale(79_228_162_514_264_337_593_543_950_335, 0);
    let mut full = RegimeBreakdown::default();
    assert!(full.record(Regime::Ranging, huge));
    let before = full;
    assert!(!full.record(Regime::Ranging, huge));
    assert_eq!(full, before);
}

#[test]
fn skipped_entries_are_counted_by_reason() {
    let mut k = SkippedEntryCounts::new();
    k.record(SkipReason::SubLot);
    k.record(SkipReason::SubLot);
    k.record(SkipReason::LeverageCapped);
    assert_eq!((k.sub_lot, k.sub_notional, k.leverage_capped), (2, 0, 1));
    k.sub_notional = usize::MAX;
    k.record(SkipReason::SubNotional);
    assert_eq!(k.sub_notional, usize::MAX);
}

#[test]
fn windows_need_room() {
    assert!(CandleWindow::new(1, 2).is_ok());
    let err = CandleWindow::new(2, 2).unwrap_err();
    assert_eq!(
        err.to_string(),
        "a candle window requires from_ms < to_ms, got 2 >= 2"
    );
    assert!(CandleWindow::new(3, -2).is_err());
}

#[test]
fn folds_partition_the_span() {
    let span = CandleWindow::new(10, 110).unwrap();
    let folds = fold_windows(&span, 3);
    let bounds: Vec<(i64, i64)> = folds.iter().map(|w| (w.from_ms, w.to_ms)).collect();
    assert_eq!(bounds, vec![(10, 43), (43, 76), (76, 110)]);
    let short = CandleWindow::new(0, 2).unwrap();
    assert_eq!(fold_windows(&short, 5), vec![short]);
    let whole = CandleWindow::new(i64::MIN, i64::MAX).unwrap();
    let halves = fold_windows(&whole, 2);
    assert_eq!(halves.len(), 2);
    assert_eq!(halves[0].from_ms, i64::MIN);
    assert_eq!(halves[0].to_ms, halves[1].from_ms);
    assert_eq!(halves[1].to_ms, i64::MAX);
}

#[test]
fn two_thirds_of_the_folds_are_required() {
    let required: Vec<u8> = (0..=12).map(folds_required).collect();
    assert_eq!(required, vec![0, 1, 2, 2, 3, 4, 4, 5, 6, 6, 7, 8, 8]);
    assert_eq!(folds_required(255), 170);
}

#[test]
fn fold_counts_are_bounded() {
    assert_eq!(FoldScheme::rolling_oos(6).unwrap().k(), 6);
    assert_eq!(FoldScheme::rolling_oos(2).unwrap().name(), "rolling-oos/v1");
    let err = FoldScheme::rolling_oos(13).unwrap_err();
    assert_eq!(
        err,
        WalkForwardError::KOutOfRange {
            k: 13,
            min: 2,
            max: 12
        }
    );
    assert_eq!(
        err.to_string(),
        "the fold count must be in 2..=12, got 13"
    );
    assert!(FoldScheme::rolling_oos(1).is_err());
    assert_eq!(VerdictRule::WfV1.name(), "wf-v1");
}

#[test]
fn a_fold_holds_with_enough_trades_and_a_positive_bound() {
    let enough: Vec<Decimal> = (0..N_MIN).map(|i| d(i as i64 % 3)).collect();
    let held = FoldVerdict::from_rs(&enough, true);
    assert!(held.holds);
    assert_eq!(held.n, N_MIN);
    assert!(!FoldVerdict::from_rs(&enough, false).holds);
    assert!(!FoldVerdict::from_rs(&enough[1..], true).holds);
    let single = FoldVerdict::from_rs(&enough[..1], true);
    assert!(!single.holds && !single.lower_bound_positive);
    assert_eq!(single.mean_r, Decimal::zero());
    assert_eq!(FoldVerdict::checked_from_rs(&enough, true), Some(held));
    let huge = Decimal::from_i128_with_scale(79_228_162_514_264_337_593_543_950_335, 0);
    assert_eq!(FoldVerdict::checked_from_rs(&[huge, huge], true), None);
}

#[test]
fn a_run_passes_with_two_thirds_of_its_folds_and_the_pooled_bound() {
    let rs: Vec<Decimal> = (0..30).map(|i| d(i % 4)).collect();
    let good = FoldVerdict::from_rs(&rs, true);
    let bad = FoldVerdict::from_rs(&rs, false);
    let verdict = RunVerdict::assess(&[good, bad, good], &rs, true);
    assert!(verdict.pass);
    assert_eq!((verdict.folds_holding, verdict.folds_required), (2, 2));
    assert!(!RunVerdict::assess(&[good, bad, bad], &rs, true).pass);
    assert!(!RunVerdict::assess(&[good, good, good], &rs, false).pass);
    assert_eq!(
        RunVerdict::checked_assess(&[good, bad, good], &rs, true),
        Some(verdict)
    );
}

#[test]
fn ids_keep_their_text() {
    assert_eq!(BacktestRunId::new("run-1").as_str(), "run-1");
    assert_eq!(WalkForwardRunId::new("wf-1").as_str(), "wf-1");
}

#[test]
fn backtest_errors_have_texts() {
    let cases = vec![
        (
            BacktestError::NoStopLoss,
            "cannot size a position without a stop-loss (zero stop distance)",
        ),
        (
            BacktestError::UnsupportedExit("x".to_owned()),
            "unsupported exit kind for this backtester: x",
        ),
        (
            BacktestError::EngineInit("x".to_owned()),
            "indicator engine initialization failed: x",
        ),
        (
            BacktestError::ImpossibleTakeProfit("x".to_owned()),
            "impossible take-profit geometry: x",
        ),
        (
            BacktestError::ImpossibleStop("x".to_owned()),
            "impossible ATR stop: x",
        ),
        (
            BacktestError::InvalidConfig("x".to_owned()),
            "invalid backtest configuration: x",
        ),
        (
            BacktestError::HtfRequired,
            "strategy requires a higher-timeframe candle series (series: \"htf\" operand present)",
        ),
        (
            BacktestError::HtfNotHigher {
                primary: Timeframe::H4,
                htf: Timeframe::M15,
            },
            "higher-timeframe series M15 is not higher than the primary series H4 — \
             `Series::Htf` operands need a strictly longer timeframe",
        ),
    ];
    for (err, text) in cases {
        assert_eq!(err.to_string(), text);
    }
}

#[test]
fn gross_figures_make_up_what_the_trades_realized() {
    let trades = vec![
        trade_with(Decimal::new(1_250, 2), 10),
        trade_with(Decimal::new(-475, 2), 20),
        trade_with(Decimal::new(75, 1), 30),
        trade_with(Decimal::new(-25, 2), 40),
    ];
    let curve = EquityCurve::from_trades(0, d(1000), &trades);
    let s = SummaryStats::from_trades(&trades, d(15), d(0), d(0), &curve);
    assert_eq!(s.gross_profit, Decimal::new(20, 0));
    assert_eq!(s.gross_loss, Decimal::new(5, 0));
    assert_eq!(
        s.gross_profit.checked_sub(s.gross_loss),
        Some(Decimal::new(15, 0))
    );
    assert_eq!(s.win_rate, Decimal::new(5, 1));
    assert_eq!(s.profit_factor, Some(d(4)));
    assert_eq!(s.avg_win, d(10));
    assert_eq!(s.avg_loss, Decimal::new(25, 1));
    assert_eq!(s.expectancy, Decimal::new(375, 2));
}

#[test]
fn the_smallest_loss_gives_a_profit_factor() {
    let trades = vec![trade_with(Decimal::new(-1, 28), 10)];
    let curve = EquityCurve::from_trades(0, d(0), &trades);
    let s = SummaryStats::from_trades(&trades, d(0), d(0), d(0), &curve);
    assert_eq!(s.loss_count, 1);
    assert_eq!(s.profit_factor, Some(d(0)));
}

#[test]
fn fewer_than_two_members_have_no_moments() {
    assert_eq!(RMoments::checked_from_rs(&[]), Some(None));
    assert_eq!(RMoments::checked_from_rs(&[d(1)]), Some(None));
    assert_eq!(FoldMoments::checked_from_rs(&[d(1)]), Some(None));
    let largest = Decimal::from_i128_with_scale((1 << 96) - 1, 0);
    assert_eq!(RMoments::checked_from_rs(&[largest, largest]), None);
    assert_eq!(FoldMoments::checked_from_rs(&[largest, largest]), None);
    let moments = FoldMoments::checked_from_rs(&[d(1), d(3)]);
    let moments = moments.expect("fits").expect("two members");
    assert_eq!(moments.mean_r, d(2));
    assert_eq!(moments.variance_over_n, d(1));
}

#[test]
fn the_last_point_is_the_start_and_every_result() {
    let trades = vec![
        trade_with(Decimal::new(125, 2), 10),
        trade_with(Decimal::new(-5, 3), 20),
    ];
    let curve = EquityCurve::checked_from_trades(0, Decimal::new(1_000, 1), &trades);
    let curve = curve.expect("fits");
    assert_eq!(curve.0[2].equity, Decimal::new(101_245, 3));
    assert_eq!(curve.checked_max_drawdown(), Some(Decimal::new(5, 3)));
}
