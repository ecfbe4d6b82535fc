//! Candle series.
use pulse::decimal::Decimal;
use pulse::domain::backtest::run::CandleWindow;
use pulse::domain::backtest::walk_forward::fold_windows;
use pulse::domain::error::{DataError, ValidationError};
use pulse::domain::market::{Candle, DataVersion, Pair, Timeframe};
use pulse::domain::series::{CandleSeries, Gap};

fn candle_at(open_time: i64) -> Candle {
    Candle {
        open_time,
        close_time: open_time.saturating_add(899_999),
        open: Decimal::one(),
        high: Decimal::one(),
        low: Decimal::one(),
        close: Decimal::one(),
        volume: Decimal::one(),
        funding_rate: None,
    }
}

fn series(open_times: &[i64]) -> CandleSeries {
    CandleSeries {
        pair: Pair::new("BTCUSDT"),
        timeframe: Timeframe::M15,
        version: DataVersion::new("v1"),
        candles: open_times.iter().copied().map(candle_at).collect(),
    }
}

fn times(s: &CandleSeries) -> Vec<i64> {
    s.candles.iter().map(|c| c.open_time).collect()
}

#[test]
fn clean_contiguous_series_reports_no_gaps() {
    let s = series(&[0, 900_000, 1_800_000, 2_700_000]);
    let gaps = s.validate().expect("clean series validates");
    assert!(gaps.is_empty(), "expected no gaps, got {gaps:?}");
}

#[test]
fn empty_and_single_series_are_clean() {
    assert!(series(&[]).validate().expect("empty validates").is_empty());
    assert!(series(&[42])
        .validate()
        .expect("single validates")
        .is_empty());
}

#[test]
fn sorted_but_gapped_series_reports_gaps_not_error() {
    let s = series(&[0, 1_800_000, 2_700_000]);
    let gaps = s.validate().expect("gapped series still validates Ok");
    assert_eq!(
        gaps,
        vec![Gap {
            expected: 900_000,
            found: 1_800_000,
        }]
    );
}

#[test]
fn duplicate_open_time_is_structural_error() {
    let s = series(&[0, 900_000, 900_000]);
    let err = s.validate().expect_err("duplicate must reject");
    assert_eq!(
        err,
        DataError::Validation(ValidationError::Duplicate(900_000))
    );
}

#[test]
fn unsorted_open_time_is_structural_error() {
    let s = series(&[0, 1_800_000, 900_000]);
    let err = s.validate().expect_err("unsorted must reject");
    assert_eq!(
        err,
        DataError::Validation(ValidationError::Unsorted {
            earlier: 1_800_000,
            later: 900_000,
        })
    );
}

#[test]
fn windowed_keeps_only_open_times_inside_the_half_open_bounds() {
    let s = series(&[0, 900_000, 1_800_000, 2_700_000, 3_600_000]);
    let window = CandleWindow::new(900_000, 2_700_000).expect("window");
    let sliced = s.windowed(&window);
    assert_eq!(times(&sliced), vec![900_000, 1_800_000]);
}

#[test]
fn windowed_boundary_candles_follow_from_inclusive_to_exclusive() {
    let s = series(&[0, 900_000, 1_800_000]);
    let window = CandleWindow::new(0, 1_800_000).expect("window");
    assert_eq!(
        times(&s.windowed(&window)),
        vec![0, 900_000],
        "candle at `to` is excluded"
    );
}

#[test]
fn windowed_empty_result_preserves_the_source_identity() {
    let s = series(&[0, 900_000]);
    let window = CandleWindow::new(3_600_000, 4_500_000).expect("window");
    let sliced = s.windowed(&window);
    assert!(sliced.candles.is_empty());
    assert_eq!(sliced.pair, s.pair);
    assert_eq!(sliced.timeframe, s.timeframe);
    assert_eq!(sliced.version, s.version, "version tag names the source");
}

#[test]
fn windowed_covering_everything_returns_the_whole_series() {
    let s = series(&[0, 900_000, 1_800_000]);
    let window = CandleWindow::new(-1, 10_000_000).expect("window");
    assert_eq!(s.windowed(&window).candles.len(), 3);
}

#[test]
fn slicing_twice_is_slicing_once_and_adjacent_windows_split() {
    let s = series(&[0, 900_000, 1_800_000, 2_700_000]);
    let first = CandleWindow::new(0, 1_800_000).unwrap();
    let second = CandleWindow::new(1_800_000, 3_000_000).unwrap();
    let once = s.windowed(&first);
    assert_eq!(once.windowed(&first), once);
    let mut both = times(&once);
    both.extend(times(&s.windowed(&second)));
    assert_eq!(both, times(&s));
}

#[test]
fn neighbours_closer_than_a_step_are_no_gap() {
    let s = series(&[0, 300_000, 1_200_000]);
    assert_eq!(s.validate().unwrap(), vec![]);
}

#[test]
fn validation_does_not_overflow_at_the_end_of_time() {
    let s = series(&[i64::MAX - 1, i64::MAX]);
    assert_eq!(s.validate().unwrap(), vec![]);
    let wide = series(&[i64::MIN, i64::MAX]);
    assert_eq!(
        wide.validate().unwrap(),
        vec![Gap {
            expected: i64::MIN + 900_000,
            found: i64::MAX,
        }]
    );
}

#[test]
fn the_first_fault_is_reported() {
    let s = series(&[0, 900_000, 900_000, 100]);
    assert_eq!(
        s.validate(),
        Err(DataError::Validation(ValidationError::Duplicate(900_000)))
    );
}

#[test]
fn data_errors_have_texts() {
    let cases = vec![
        (
            DataError::Validation(ValidationError::Unsorted {
                earlier: 1,
                later: 0,
            }),
            "candle series validation failed: candles are not sorted by open_time (found 0 ms \
             after 1 ms)",
        ),
        (
            DataError::Validation(ValidationError::Duplicate(7)),
            "candle series validation failed: duplicate open_time 7 ms",
        ),
        (
            DataError::Gap {
                expected: 900_000,
                found: 1_800_000,
            },
            "gap in candle series: expected open_time 900000 ms, found 1800000 ms",
        ),
        (
            DataError::Parse("bad decimal".to_string()),
            "parse error: bad decimal",
        ),
        (DataError::Io("disk full".to_string()), "io error: disk full"),
        (
            DataError::Db("near \"SELCT\": syntax error".to_string()),
            "database error: near \"SELCT\": syntax error",
        ),
        (
            DataError::Migration("0001_init failed to apply".to_string()),
            "migration error: 0001_init failed to apply",
        ),
    ];
    for (err, text) in cases {
        assert_eq!(err.to_string(), text);
    }
}

#[test]
fn the_slices_by_all_folds_make_up_the_slice_by_the_span() {
    let s = series(&[0, 900_000, 1_800_000, 2_700_000, 3_600_000, 4_500_000, 5_400_000]);
    let span = CandleWindow::new(900_000, 5_000_000).unwrap();
    for k in 1..=12 {
        let mut joined: Vec<i64> = Vec::new();
        for fold in fold_windows(&span, k) {
            joined.extend(times(&s.windowed(&fold)));
        }
        assert_eq!(joined, times(&s.windowed(&span)));
        assert_eq!(joined.len(), 5);
    }
}
