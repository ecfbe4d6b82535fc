//! Validating strategy documents.
use pulse::decimal::Decimal;
use pulse::domain::dsl::condition::{Comparator, Condition};
use pulse::domain::dsl::exit::ExitRule;
use pulse::domain::dsl::risk::{Direction, RiskParams};
use pulse::domain::dsl::schema_version::SchemaVersion;
use pulse::domain::dsl::strategy::StrategyDsl;
use pulse::domain::dsl::sweepable::SweepableValue;
use pulse::domain::dsl::validate::{validate, FieldError, ValidationCode, ValidationErrors};
use pulse::domain::dsl::value::{IndicatorSpec, PriceField, Series, ValueSource};

fn compare_rsi(period: SweepableValue<u32>) -> Condition {
    Condition::Compare {
        lhs: ValueSource::Indicator {
            series: Series::Primary,
            spec: IndicatorSpec::Rsi { period },
        },
        op: Comparator::Lt,
        rhs: ValueSource::Constant {
            value: Decimal::new(30, 0),
        },
    }
}

fn rsi_oversold_strategy() -> StrategyDsl {
    StrategyDsl {
        schema_version: SchemaVersion::current(),
        name: "RSI Oversold".to_owned(),
        direction: Direction::Long,
        entry: compare_rsi(SweepableValue::Fixed(14)),
        filters: vec![],
        exits: vec![
            ExitRule::StopLoss {
                distance_pct: SweepableValue::Fixed(Decimal::new(5, 2)),
            },
            ExitRule::TakeProfit {
                target_r: SweepableValue::Fixed(Decimal::new(2, 0)),
            },
        ],
        risk: RiskParams {
            risk_per_trade_pct: SweepableValue::Fixed(Decimal::new(1, 2)),
            max_leverage: SweepableValue::Fixed(Decimal::new(3, 0)),
        },
    }
}

fn valid_base() -> StrategyDsl {
    rsi_oversold_strategy()
}

fn has_code(errs: &[FieldError], code: ValidationCode) -> bool {
    errs.iter().any(|e| e.code == code)
}

fn has_path(errs: &[FieldError], path: &str) -> bool {
    errs.iter().any(|e| e.path == path)
}

#[test]
fn valid_rsi_oversold_strategy_validates() {
    let s = rsi_oversold_strategy();
    let validated = validate(&s).expect("canonical RSI-oversold strategy must validate");
    assert_eq!(validated.dsl(), &s);
}

#[test]
fn rejects_each_semantic_rule() {
    let mut s = valid_base();
    s.entry = compare_rsi(SweepableValue::Sweep {
        start: 5,
        end: 20,
        step: 5,
    });
    let errs = validate(&s).unwrap_err();
    assert!(
        has_code(errs.errors(), ValidationCode::SweepUnsupported),
        "rule 1 (Sweep) must reject: {:?}",
        errs.errors()
    );

    let mut s = valid_base();
    s.entry = Condition::CrossesAbove {
        lhs: ValueSource::Constant {
            value: Decimal::new(1, 0),
        },
        rhs: ValueSource::Constant {
            value: Decimal::new(2, 0),
        },
    };
    let errs = validate(&s).unwrap_err();
    assert!(
        has_code(errs.errors(), ValidationCode::DegenerateCross),
        "rule 2 (degenerate cross) must reject: {:?}",
        errs.errors()
    );

    let mut s = valid_base();
    s.exits = vec![ExitRule::TakeProfit {
        target_r: SweepableValue::Fixed(Decimal::new(2, 0)),
    }];
    let errs = validate(&s).unwrap_err();
    assert!(
        has_code(errs.errors(), ValidationCode::TakeProfitWithoutStop),
        "rule 3 (TP without SL) must reject: {:?}",
        errs.errors()
    );

    let mut s = valid_base();
    s.exits = vec![];
    let errs = validate(&s).unwrap_err();
    assert!(
        has_code(errs.errors(), ValidationCode::NoExit),
        "rule 4 (no exit) must reject: {:?}",
        errs.errors()
    );

    let mut s = valid_base();
    s.exits = vec![
        ExitRule::StopLoss {
            distance_pct: SweepableValue::Fixed(Decimal::new(5, 2)),
        },
        ExitRule::StopLoss {
            distance_pct: SweepableValue::Fixed(Decimal::new(3, 2)),
        },
    ];
    let errs = validate(&s).unwrap_err();
    assert!(
        has_code(errs.errors(), ValidationCode::DuplicateExit),
        "rule 5 (duplicate exit) must reject: {:?}",
        errs.errors()
    );

    let mut s = valid_base();
    s.entry = Condition::And { conditions: vec![] };
    let errs = validate(&s).unwrap_err();
    assert!(
        has_code(errs.errors(), ValidationCode::EmptyConjunction),
        "rule 8 (empty And) must reject: {:?}",
        errs.errors()
    );

    let mut s = valid_base();
    s.entry = Condition::Or { conditions: vec![] };
    let errs = validate(&s).unwrap_err();
    assert!(
        has_code(errs.errors(), ValidationCode::EmptyConjunction),
        "rule 8 (empty Or) must reject: {:?}",
        errs.errors()
    );
}

#[test]
fn rejects_out_of_range_field_values() {
    let mut s = valid_base();
    s.entry = compare_rsi(SweepableValue::Fixed(0));
    let errs = validate(&s).unwrap_err();
    assert!(has_code(errs.errors(), ValidationCode::FieldRange));
    assert!(
        has_path(errs.errors(), "entry.lhs.indicator.rsi.period"),
        "zero RSI period path: {:?}",
        errs.errors()
    );

    let mut s = valid_base();
    s.entry = Condition::Compare {
        lhs: ValueSource::Indicator {
            series: Series::Primary,
            spec: IndicatorSpec::Macd {
                fast: SweepableValue::Fixed(26),
                slow: SweepableValue::Fixed(12),
                signal: SweepableValue::Fixed(9),
            },
        },
        op: Comparator::Gt,
        rhs: ValueSource::Constant {
            value: Decimal::new(0, 0),
        },
    };
    let errs = validate(&s).unwrap_err();
    assert!(has_code(errs.errors(), ValidationCode::FieldRange));
    assert!(
        has_path(errs.errors(), "entry.lhs.indicator.macd.fast"),
        "MACD fast>=slow path: {:?}",
        errs.errors()
    );

    let mut s = valid_base();
    s.risk.risk_per_trade_pct = SweepableValue::Fixed(Decimal::zero());
    let errs = validate(&s).unwrap_err();
    assert!(has_path(errs.errors(), "risk.risk_per_trade_pct"));

    let mut s = valid_base();
    s.risk.risk_per_trade_pct = SweepableValue::Fixed(Decimal::new(15, 1));
    let errs = validate(&s).unwrap_err();
    assert!(has_path(errs.errors(), "risk.risk_per_trade_pct"));
    assert!(has_code(errs.errors(), ValidationCode::FieldRange));

    let mut s = valid_base();
    s.exits = vec![ExitRule::StopLoss {
        distance_pct: SweepableValue::Fixed(Decimal::zero()),
    }];
    let errs = validate(&s).unwrap_err();
    assert!(has_path(errs.errors(), "exits[0].distance_pct"));
    assert!(has_code(errs.errors(), ValidationCode::FieldRange));

    let mut s = valid_base();
    s.risk.max_leverage = SweepableValue::Fixed(Decimal::new(5, 1));
    let errs = validate(&s).unwrap_err();
    assert!(has_path(errs.errors(), "risk.max_leverage"));
    assert!(has_code(errs.errors(), ValidationCode::FieldRange));

    let mut s = valid_base();
    s.name = "   ".to_owned();
    let errs = validate(&s).unwrap_err();
    assert!(has_path(errs.errors(), "name"));
    assert!(has_code(errs.errors(), ValidationCode::EmptyName));
}

#[test]
fn collects_all_errors_with_field_paths() {
    let mut s = valid_base();
    s.name = String::new();
    s.entry = Condition::And {
        conditions: vec![Condition::Not {
            condition: Box::new(compare_rsi(SweepableValue::Fixed(0))),
        }],
    };
    let errs = validate(&s).unwrap_err();
    let errs = errs.errors();
    assert!(
        errs.len() >= 2,
        "expected >=2 collected errors, got {}: {:?}",
        errs.len(),
        errs
    );
    assert!(
        has_path(errs, "name"),
        "missing top-level `name` error: {errs:?}"
    );
    assert!(
        has_path(errs, "entry.and[0].not.lhs.indicator.rsi.period"),
        "missing nested path: {errs:?}"
    );
}

#[test]
fn validated_dsl_round_trips_inner() {
    let s = rsi_oversold_strategy();
    let inner = validate(&s).unwrap().into_inner();
    assert_eq!(inner, s);
}

#[test]
fn sweep_short_circuits_range_check() {
    let mut s = valid_base();
    s.risk.risk_per_trade_pct = SweepableValue::Sweep {
        start: Decimal::new(1, 2),
        end: Decimal::new(5, 2),
        step: Decimal::new(1, 2),
    };
    let errs = validate(&s).unwrap_err();
    let sweep_errs: Vec<_> = errs
        .errors()
        .iter()
        .filter(|e| e.path == "risk.risk_per_trade_pct")
        .collect();
    assert_eq!(
        sweep_errs.len(),
        1,
        "exactly one error for the field: {sweep_errs:?}"
    );
    assert_eq!(sweep_errs[0].code, ValidationCode::SweepUnsupported);
}

#[test]
fn range_ends_are_kept_as_stated() {
    let mut s = valid_base();
    s.risk.risk_per_trade_pct = SweepableValue::Fixed(Decimal::new(1, 0));
    assert!(validate(&s).is_ok(), "all of the equity may be risked");
    s.risk.max_leverage = SweepableValue::Fixed(Decimal::new(1, 0));
    assert!(validate(&s).is_ok(), "leverage of one is allowed");
    s.exits = vec![ExitRule::AtrStop {
        period: SweepableValue::Fixed(14),
        multiple: SweepableValue::Fixed(Decimal::new(100, 1)),
    }];
    assert!(validate(&s).is_ok(), "ten times the range is allowed");
    s.exits = vec![ExitRule::AtrStop {
        period: SweepableValue::Fixed(14),
        multiple: SweepableValue::Fixed(Decimal::new(101, 1)),
    }];
    let errs = validate(&s).unwrap_err();
    assert!(has_path(errs.errors(), "exits[0].multiple"));
}

#[test]
fn a_cross_against_a_price_is_not_degenerate() {
    let mut s = valid_base();
    s.entry = Condition::CrossesBelow {
        lhs: ValueSource::Price {
            series: Series::Primary,
            field: PriceField::Close,
        },
        rhs: ValueSource::Constant {
            value: Decimal::new(2, 0),
        },
    };
    assert!(validate(&s).is_ok());
}

#[test]
fn errors_come_in_document_order_and_with_a_text() {
    let mut s = valid_base();
    s.name = String::new();
    s.exits = vec![];
    s.risk.max_leverage = SweepableValue::Fixed(Decimal::zero());
    let errs = validate(&s).unwrap_err();
    let paths: Vec<&str> = errs.errors().iter().map(|e| e.path.as_str()).collect();
    assert_eq!(paths, vec!["name", "exits", "risk.max_leverage"]);
    assert_eq!(
        errs.to_string(),
        "strategy validation failed with 3 error(s)"
    );
    let count = errs.errors().len();
    assert_eq!(errs.into_errors().len(), count);
}

#[test]
fn stored_violations_are_never_none() {
    assert!(ValidationErrors::from_stored(Vec::new()).is_none());
    let stored = ValidationErrors::from_stored(vec![FieldError {
        path: "name".to_owned(),
        code: ValidationCode::EmptyName,
        message: "empty".to_owned(),
    }])
    .expect("one violation");
    assert_eq!(stored.errors().len(), 1);
    assert_eq!(stored.errors()[0].path, "name");
    assert_eq!(stored.to_string(), "strategy validation failed with 1 error(s)");
}

#[test]
fn a_swept_leaf_gets_one_error_at_its_locator() {
    let mut dsl = rsi_oversold_strategy();
    dsl.entry = compare_rsi(SweepableValue::Sweep {
        start: 0,
        end: 3,
        step: 1,
    });
    dsl.risk.max_leverage = SweepableValue::Sweep {
        start: Decimal::new(0, 0),
        end: Decimal::new(3, 0),
        step: Decimal::new(1, 0),
    };
    let errors = validate(&dsl).expect_err("sweeps are refused").into_errors();
    for path in ["entry.lhs.indicator.rsi.period", "risk.max_leverage"] {
        let found: Vec<&FieldError> = errors.iter().filter(|e| e.path == path).collect();
        assert_eq!(found.len(), 1);
        assert_eq!(found[0].code, ValidationCode::SweepUnsupported);
    }
    assert_eq!(errors.len(), 2);
}
