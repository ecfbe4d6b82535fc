//! Mutating and rendering strategy documents.
use pulse::decimal::Decimal;
use pulse::domain::dsl::compile::compile;
use pulse::domain::dsl::condition::{Comparator, Condition};
use pulse::domain::dsl::exit::ExitRule;
use pulse::domain::dsl::mutate::{
    apply, sweepable_paths, Mutation, MutationError, ParamKind, ParamValue,
};
use pulse::domain::dsl::render;
use pulse::domain::dsl::risk::{Direction, RiskParams};
use pulse::domain::dsl::schema_version::SchemaVersion;
use pulse::domain::dsl::strategy::StrategyDsl;
use pulse::domain::dsl::sweepable::SweepableValue;
use pulse::domain::dsl::value::{IndicatorSpec, PriceField, Series, ValueSource};

fn indicator(series: Series, spec: IndicatorSpec) -> ValueSource {
    ValueSource::Indicator { series, spec }
}

fn rsi(period: u32) -> IndicatorSpec {
    IndicatorSpec::Rsi {
        period: SweepableValue::Fixed(period),
    }
}

fn constant(num: i64, scale: u32) -> ValueSource {
    ValueSource::Constant {
        value: Decimal::new(num, scale),
    }
}

fn strategy() -> StrategyDsl {
    StrategyDsl {
        schema_version: SchemaVersion::current(),
        name: "RSI Oversold".to_owned(),
        direction: Direction::Long,
        entry: Condition::Compare {
            lhs: indicator(Series::Primary, rsi(14)),
            op: Comparator::Lt,
            rhs: constant(30, 0),
        },
        filters: vec![Condition::Not {
            condition: Box::new(Condition::CrossesAbove {
                lhs: ValueSource::Price {
                    series: Series::Primary,
                    field: PriceField::Close,
                },
                rhs: indicator(
                    Series::Primary,
                    IndicatorSpec::Macd {
                        fast: SweepableValue::Fixed(12),
                        slow: SweepableValue::Fixed(26),
                        signal: SweepableValue::Fixed(9),
                    },
                ),
            }),
        }],
        exits: vec![
            ExitRule::StopLoss {
                distance_pct: SweepableValue::Fixed(Decimal::new(5, 2)),
            },
            ExitRule::TimeStop {
                max_bars: SweepableValue::Fixed(20),
            },
        ],
        risk: RiskParams {
            risk_per_trade_pct: SweepableValue::Fixed(Decimal::new(1, 2)),
            max_leverage: SweepableValue::Fixed(Decimal::new(3, 0)),
        },
    }
}

fn set(path: &str, new_value: ParamValue) -> Mutation {
    Mutation::SetParam {
        path: path.to_owned(),
        new_value,
    }
}

#[test]
fn every_leaf_has_one_locator() {
    let paths = sweepable_paths(&strategy());
    assert_eq!(
        paths,
        vec![
            "entry.lhs.indicator.rsi.period",
            "filters[0].not.rhs.indicator.macd.fast",
            "filters[0].not.rhs.indicator.macd.slow",
            "filters[0].not.rhs.indicator.macd.signal",
            "exits[0].distance_pct",
            "exits[1].max_bars",
            "risk.risk_per_trade_pct",
            "risk.max_leverage",
        ]
    );
}

#[test]
fn a_mutation_changes_its_leaf_and_nothing_else() {
    let dsl = strategy();
    let candidate = apply(
        &dsl,
        &set(
            "entry.lhs.indicator.rsi.period",
            ParamValue::Period { value: 21 },
        ),
    )
    .expect("applies");
    let mut expected = strategy();
    expected.entry = Condition::Compare {
        lhs: indicator(Series::Primary, rsi(21)),
        op: Comparator::Lt,
        rhs: constant(30, 0),
    };
    assert_eq!(candidate.dsl(), &expected);
    assert_eq!(dsl, strategy(), "the input is untouched");
    assert!(compile(candidate.validated()).is_ok());
    assert_eq!(candidate.into_validated().into_inner(), expected);
}

#[test]
fn applying_twice_is_no_change() {
    let mutation = set(
        "exits[0].distance_pct",
        ParamValue::Threshold {
            value: Decimal::new(4, 2),
        },
    );
    let once = apply(&strategy(), &mutation).expect("applies");
    match apply(once.dsl(), &mutation) {
        Err(MutationError::NoChange { path }) => assert_eq!(path, "exits[0].distance_pct"),
        other => panic!("expected NoChange, got {other:?}"),
    }
}

#[test]
fn an_equal_number_of_another_scale_is_no_change() {
    let mutation = set(
        "exits[0].distance_pct",
        ParamValue::Threshold {
            value: Decimal::new(500, 4),
        },
    );
    assert!(matches!(
        apply(&strategy(), &mutation),
        Err(MutationError::NoChange { .. })
    ));
}

#[test]
fn mutations_that_do_not_apply_say_why() {
    let unknown = apply(
        &strategy(),
        &set("entry.rhs.constant", ParamValue::Period { value: 3 }),
    )
    .unwrap_err();
    assert!(matches!(unknown, MutationError::UnknownPath { .. }));
    assert!(unknown.to_string().contains("entry.rhs.constant"));

    match apply(
        &strategy(),
        &set("exits[0].distance_pct", ParamValue::Period { value: 3 }),
    ) {
        Err(MutationError::TypeMismatch {
            path,
            expected,
            offered,
        }) => {
            assert_eq!(path, "exits[0].distance_pct");
            assert_eq!(expected, ParamKind::Threshold);
            assert_eq!(offered, ParamKind::Period);
        }
        other => panic!("expected TypeMismatch, got {other:?}"),
    }

    match apply(
        &strategy(),
        &set(
            "risk.risk_per_trade_pct",
            ParamValue::Threshold {
                value: Decimal::new(2, 0),
            },
        ),
    ) {
        Err(MutationError::ValidationFailed { path, errors }) => {
            assert_eq!(path, "risk.risk_per_trade_pct");
            assert_eq!(errors.errors().len(), 1);
        }
        other => panic!("expected ValidationFailed, got {other:?}"),
    }

    let mut htf = strategy();
    htf.filters = vec![Condition::Compare {
        lhs: indicator(Series::Htf, rsi(14)),
        op: Comparator::Gt,
        rhs: constant(50, 0),
    }];
    assert!(matches!(
        apply(
            &htf,
            &set(
                "entry.lhs.indicator.rsi.period",
                ParamValue::Period { value: 21 }
            )
        ),
        Err(MutationError::CompileFailed { .. })
    ));
}

#[test]
fn values_know_their_kind() {
    assert_eq!(ParamValue::Period { value: 1 }.kind(), ParamKind::Period);
    let threshold = ParamValue::Threshold {
        value: Decimal::one(),
    };
    assert_eq!(threshold.kind(), ParamKind::Threshold);
    assert_eq!(ParamKind::Period.to_string(), "period (u32)");
    assert_eq!(ParamKind::Threshold.to_string(), "threshold (Decimal)");
}

#[test]
fn equality_of_documents_compares_numbers_as_numbers() {
    let a = strategy();
    let mut b = strategy();
    b.risk.max_leverage = SweepableValue::Fixed(Decimal::new(300, 2));
    assert!(a.equals(&b) && b.equals(&a) && a.equals(&a));
    b.filters.clear();
    assert!(!a.equals(&b) && !b.equals(&a));
    let mut c = strategy();
    c.exits[1] = ExitRule::TimeStop {
        max_bars: SweepableValue::Fixed(21),
    };
    assert!(!a.equals(&c));
}

#[test]
fn renders_a_strategy() {
    let rendered = render::strategy(&strategy());
    assert_eq!(rendered.direction, "long");
    assert_eq!(rendered.entry, "rsi(14) < 30");
    assert_eq!(
        rendered.filters,
        vec!["not (close crosses above macd(12,26,9))"]
    );
    assert_eq!(rendered.exits, vec!["stop 5%", "time stop 20 bars"]);
    assert_eq!(
        rendered.risk,
        vec!["risk 1% per trade", "max leverage 3x"]
    );
    assert_eq!(render::checked_strategy(&strategy()), Some(rendered));
}

#[test]
fn renders_every_vocabulary_word() {
    assert_eq!(render::direction(Direction::Short), "short");
    assert_eq!(
        render::value(&indicator(
            Series::Htf,
            IndicatorSpec::Ema {
                period: SweepableValue::Fixed(200)
            }
        )),
        "h4:ema(200)"
    );
    assert_eq!(
        render::value(&ValueSource::Price {
            series: Series::Htf,
            field: PriceField::Volume
        }),
        "h4:volume"
    );
    assert_eq!(render::value(&constant(500, 3)), "0.5");
    assert_eq!(
        render::indicator(&IndicatorSpec::Adx {
            period: SweepableValue::Sweep {
                start: 5,
                end: 20,
                step: 5
            }
        }),
        "adx({5..20})"
    );
    for (op, symbol) in [
        (Comparator::Gt, ">"),
        (Comparator::Gte, ">="),
        (Comparator::Lt, "<"),
        (Comparator::Lte, "<="),
        (Comparator::Eq, "="),
    ] {
        assert_eq!(render::comparator(op), symbol);
    }
    assert_eq!(
        render::exit(&ExitRule::AtrStop {
            period: SweepableValue::Fixed(14),
            multiple: SweepableValue::Fixed(Decimal::new(20, 1)),
        }),
        "atr(14)\u{d7}2"
    );
    assert_eq!(
        render::exit(&ExitRule::TakeProfit {
            target_r: SweepableValue::Fixed(Decimal::new(25, 1)),
        }),
        "take profit 2.5R"
    );
    assert_eq!(
        render::exit(&ExitRule::TrailingStop {
            trail_pct: SweepableValue::Sweep {
                start: Decimal::new(1, 2),
                end: Decimal::new(5, 2),
                step: Decimal::new(1, 2),
            },
        }),
        "trailing {1..5}%"
    );
    assert_eq!(
        render::exit(&ExitRule::SignalExit {
            condition: Condition::CrossesBelow {
                lhs: constant(1, 0),
                rhs: constant(2, 0),
            },
        }),
        "signal exit (1 crosses below 2)"
    );
    let either = Condition::Or {
        conditions: vec![
            Condition::Compare {
                lhs: constant(1, 0),
                op: Comparator::Eq,
                rhs: constant(2, 0),
            },
            Condition::And { conditions: vec![] },
        ],
    };
    assert_eq!(render::condition(&either), "(1 = 2) or ()");
}

#[test]
fn a_percentage_that_does_not_fit_is_reported() {
    let mut dsl = strategy();
    dsl.exits[0] = ExitRule::StopLoss {
        distance_pct: SweepableValue::Fixed(Decimal::from_i128_with_scale(
            79_228_162_514_264_337_593_543_950_335,
            0,
        )),
    };
    assert_eq!(render::checked_exit(&dsl.exits[0]), None);
    assert_eq!(render::checked_strategy(&dsl), None);
    assert!(render::checked_risk(&dsl.risk).is_some());
}

#[test]
fn setting_the_old_number_back_undoes_a_mutation() {
    let dsl = strategy();
    let there = apply(
        &dsl,
        &set(
            "entry.lhs.indicator.rsi.period",
            ParamValue::Period { value: 21 },
        ),
    )
    .expect("applies");
    assert_ne!(there.dsl(), &dsl);
    let back = apply(
        there.dsl(),
        &set(
            "entry.lhs.indicator.rsi.period",
            ParamValue::Period { value: 14 },
        ),
    )
    .expect("applies");
    assert_eq!(back.dsl(), &dsl);
}

#[test]
fn a_mutation_keeps_the_shape() {
    let dsl = strategy();
    let candidate = apply(
        &dsl,
        &set(
            "filters[0].not.rhs.indicator.macd.slow",
            ParamValue::Period { value: 30 },
        ),
    )
    .expect("applies");
    let after = candidate.dsl();
    assert_eq!(sweepable_paths(after), sweepable_paths(&dsl));
    assert_eq!(after.name, dsl.name);
    assert_eq!(after.direction, dsl.direction);
    assert_eq!(after.entry, dsl.entry);
    assert_eq!(after.exits, dsl.exits);
    assert_eq!(after.risk, dsl.risk);
    assert_ne!(after.filters, dsl.filters);
}
