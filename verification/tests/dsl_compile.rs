//! Compiling and evaluating strategies.
use pulse::decimal::Decimal;
use pulse::domain::dsl::compile::{
    compile, CompileError, CompiledCondition, CompiledExit, CompiledStrategy, CompiledValue,
    EvalContext,
};
use pulse::domain::dsl::condition::{Comparator, Condition};
use pulse::domain::dsl::exit::ExitRule;
use pulse::domain::dsl::geometry::{
    atr_stop_price, checked_atr_stop_price, checked_stop_price, checked_take_profit_price,
    stop_price, take_profit_price,
};
use pulse::domain::dsl::risk::{Direction, RiskParams};
use pulse::domain::dsl::schema_version::SchemaVersion;
use pulse::domain::dsl::strategy::StrategyDsl;
use pulse::domain::dsl::sweepable::SweepableValue;
use pulse::domain::dsl::validate::{validate, ValidatedDsl};
use pulse::domain::dsl::value::{IndicatorSpec, PriceField, Series, ValueSource};

fn rsi_source(series: Series, period: u32) -> ValueSource {
    ValueSource::Indicator {
        series,
        spec: IndicatorSpec::Rsi {
            period: SweepableValue::Fixed(period),
        },
    }
}

fn rsi_below_30(series: Series) -> Condition {
    Condition::Compare {
        lhs: rsi_source(series, 14),
        op: Comparator::Lt,
        rhs: ValueSource::Constant {
            value: Decimal::new(30, 0),
        },
    }
}

fn document(entry: Condition, filters: Vec<Condition>) -> StrategyDsl {
    StrategyDsl {
        schema_version: SchemaVersion::current(),
        name: "RSI Oversold".to_owned(),
        direction: Direction::Long,
        entry,
        filters,
        exits: vec![
            ExitRule::StopLoss {
                distance_pct: SweepableValue::Fixed(Decimal::new(5, 2)),
            },
            ExitRule::TakeProfit {
                target_r: SweepableValue::Fixed(Decimal::new(2, 0)),
            },
        ],
        risk: RiskParams {
            risk_per_trade_pct: SweepableValue::Fixed(Decimal::new(1, 2)),
            max_leverage: SweepableValue::Fixed(Decimal::new(3, 0)),
        },
    }
}

fn rsi_oversold() -> ValidatedDsl {
    validate(&document(rsi_below_30(Series::Primary), vec![]))
        .expect("rsi_oversold fixture must validate")
}

/// Two lookup tables, keyed by the operand. A missing key is an unavailable value.
struct FakeCtx {
    current: Vec<(String, Decimal)>,
    previous: Vec<(String, Decimal)>,
}

impl FakeCtx {
    fn key(value: &CompiledValue) -> String {
        match value {
            CompiledValue::Const(d) => format!("const:{}", d.to_string()),
            CompiledValue::Price { series, field } => format!("price:{series:?}:{field:?}"),
            CompiledValue::Indicator { series, spec } => format!("ind:{series:?}:{spec:?}"),
        }
    }

    fn empty() -> Self {
        FakeCtx {
            current: Vec::new(),
            previous: Vec::new(),
        }
    }

    fn with_current(mut self, value: &CompiledValue, d: Decimal) -> Self {
        self.current.push((Self::key(value), d));
        self
    }

    fn with_previous(mut self, value: &CompiledValue, d: Decimal) -> Self {
        self.previous.push((Self::key(value), d));
        self
    }
}

impl EvalContext for FakeCtx {
    fn current(&self, value: &CompiledValue) -> Option<Decimal> {
        if let CompiledValue::Const(d) = value {
            return Some(*d);
        }
        let key = Self::key(value);
        self.current.iter().find(|(k, _)| *k == key).map(|(_, d)| *d)
    }

    fn previous(&self, value: &CompiledValue) -> Option<Decimal> {
        if let CompiledValue::Const(d) = value {
            return Some(*d);
        }
        let key = Self::key(value);
        self.previous.iter().find(|(k, _)| *k == key).map(|(_, d)| *d)
    }
}

#[test]
fn compiles_rsi_oversold_strategy() {
    let compiled = compile(&rsi_oversold()).expect("RSI-oversold must compile");
    assert_eq!(compiled.direction(), Direction::Long);
    assert!(
        compiled.required_indicators().contains(&IndicatorSpec::Rsi {
            period: SweepableValue::Fixed(14),
        }),
        "required_indicators must contain Rsi {{ period: 14 }}, was {:?}",
        compiled.required_indicators()
    );
    assert!(matches!(compiled.entry(), CompiledCondition::Compare { .. }));
    assert!(!compiled.exits().is_empty(), "must carry >= 1 exit");
}

#[test]
fn effective_entry_is_entry_and_filters() {
    let close_gt_100 = Condition::Compare {
        lhs: ValueSource::Price {
            series: Series::Primary,
            field: PriceField::Close,
        },
        op: Comparator::Gt,
        rhs: ValueSource::Constant {
            value: Decimal::new(100, 0),
        },
    };
    let mut dsl = document(close_gt_100, vec![rsi_below_30(Series::Primary)]);
    dsl.name = "Entry + filter".to_owned();
    dsl.exits = vec![ExitRule::StopLoss {
        distance_pct: SweepableValue::Fixed(Decimal::new(5, 2)),
    }];
    let validated = validate(&dsl).expect("fixture must validate");
    let compiled = compile(&validated).expect("must compile");

    let entry = compiled.entry();
    assert!(
        matches!(entry, CompiledCondition::And(parts) if parts.len() == 2),
        "effective entry must be And(entry, filter), was {entry:?}"
    );

    let close = CompiledValue::Price {
        series: Series::Primary,
        field: PriceField::Close,
    };
    let rsi = CompiledValue::Indicator {
        series: Series::Primary,
        spec: IndicatorSpec::Rsi {
            period: SweepableValue::Fixed(14),
        },
    };
    let both = FakeCtx::empty()
        .with_current(&close, Decimal::new(150, 0))
        .with_current(&rsi, Decimal::new(20, 0));
    assert!(entry.eval(&both), "true and true must be true");
    let one = FakeCtx::empty()
        .with_current(&close, Decimal::new(150, 0))
        .with_current(&rsi, Decimal::new(40, 0));
    assert!(!entry.eval(&one), "true and false must be false");
}

#[test]
fn evaluates_boolean_tree_against_context() {
    let close = CompiledValue::Price {
        series: Series::Primary,
        field: PriceField::Close,
    };
    let rsi = CompiledValue::Indicator {
        series: Series::Primary,
        spec: IndicatorSpec::Rsi {
            period: SweepableValue::Fixed(14),
        },
    };
    let close_gt_100 = CompiledCondition::Compare {
        lhs: close.clone(),
        op: Comparator::Gt,
        rhs: CompiledValue::Const(Decimal::new(100, 0)),
    };
    let rsi_lt_30 = CompiledCondition::Compare {
        lhs: rsi.clone(),
        op: Comparator::Lt,
        rhs: CompiledValue::Const(Decimal::new(30, 0)),
    };
    let ctx = FakeCtx::empty()
        .with_current(&close, Decimal::new(150, 0))
        .with_current(&rsi, Decimal::new(20, 0));

    let and = CompiledCondition::And(vec![close_gt_100.clone(), rsi_lt_30.clone()]);
    assert!(and.eval(&ctx));

    let close_below_100 = CompiledCondition::Compare {
        lhs: close.clone(),
        op: Comparator::Lt,
        rhs: CompiledValue::Const(Decimal::new(100, 0)),
    };
    let or = CompiledCondition::Or(vec![close_below_100.clone(), rsi_lt_30.clone()]);
    assert!(or.eval(&ctx));

    let not = CompiledCondition::Not(Box::new(close_gt_100.clone()));
    assert!(!not.eval(&ctx));

    let gte = CompiledCondition::Compare {
        lhs: close.clone(),
        op: Comparator::Gte,
        rhs: CompiledValue::Const(Decimal::new(150, 0)),
    };
    assert!(gte.eval(&ctx), "150 >= 150");
    let lte = CompiledCondition::Compare {
        lhs: rsi.clone(),
        op: Comparator::Lte,
        rhs: CompiledValue::Const(Decimal::new(20, 0)),
    };
    assert!(lte.eval(&ctx), "20 <= 20");

    let warmup = FakeCtx::empty().with_current(&close, Decimal::new(150, 0));
    assert!(
        !rsi_lt_30.eval(&warmup),
        "a Compare with a None operand (warmup) must be false"
    );
    assert!(
        !and.eval(&warmup),
        "And with a warming-up operand must be false"
    );

    let eq = CompiledCondition::Compare {
        lhs: CompiledValue::Const(Decimal::new(30, 0)),
        op: Comparator::Eq,
        rhs: CompiledValue::Const(Decimal::new(3000, 2)),
    };
    assert!(eq.eval(&FakeCtx::empty()), "30 == 30.00 (scale-insensitive)");
}

#[test]
fn cross_is_false_on_first_bar_then_detects() {
    let fast = CompiledValue::Indicator {
        series: Series::Primary,
        spec: IndicatorSpec::Ema {
            period: SweepableValue::Fixed(9),
        },
    };
    let slow = CompiledValue::Indicator {
        series: Series::Primary,
        spec: IndicatorSpec::Ema {
            period: SweepableValue::Fixed(21),
        },
    };
    let cross = CompiledCondition::CrossesAbove {
        lhs: fast.clone(),
        rhs: slow.clone(),
    };
    let first_bar = FakeCtx::empty()
        .with_current(&fast, Decimal::new(11, 0))
        .with_current(&slow, Decimal::new(10, 0));
    assert!(
        !cross.eval(&first_bar),
        "cross on first bar (previous None) must be false"
    );
    let crossing = FakeCtx::empty()
        .with_previous(&fast, Decimal::new(9, 0))
        .with_previous(&slow, Decimal::new(10, 0))
        .with_current(&fast, Decimal::new(11, 0))
        .with_current(&slow, Decimal::new(10, 0));
    assert!(cross.eval(&crossing), "prev<= and cur> must detect a cross");
    let non_cross = FakeCtx::empty()
        .with_previous(&fast, Decimal::new(12, 0))
        .with_previous(&slow, Decimal::new(10, 0))
        .with_current(&fast, Decimal::new(13, 0))
        .with_current(&slow, Decimal::new(10, 0));
    assert!(
        !cross.eval(&non_cross),
        "already-above (prev>rhs) is not a fresh cross"
    );
}

#[test]
fn crosses_below_mirrors_crosses_above() {
    let fast = CompiledValue::Price {
        series: Series::Primary,
        field: PriceField::Close,
    };
    let level = CompiledValue::Const(Decimal::new(10, 0));
    let cross = CompiledCondition::CrossesBelow {
        lhs: fast.clone(),
        rhs: level.clone(),
    };
    let down = FakeCtx::empty()
        .with_previous(&fast, Decimal::new(10, 0))
        .with_current(&fast, Decimal::new(9, 0));
    assert!(cross.eval(&down), "touching, then below, is a cross");
    let still = FakeCtx::empty()
        .with_previous(&fast, Decimal::new(9, 0))
        .with_current(&fast, Decimal::new(8, 0));
    assert!(!cross.eval(&still));
}

#[test]
fn stop_and_target_geometry_is_direction_relative() {
    let entry = Decimal::new(100, 0);
    let distance_pct = Decimal::new(5, 2);
    let target_r = Decimal::new(2, 0);
    assert_eq!(
        stop_price(entry, distance_pct, Direction::Long),
        Decimal::new(95, 0)
    );
    assert_eq!(
        stop_price(entry, distance_pct, Direction::Short),
        Decimal::new(105, 0)
    );
    assert_eq!(
        take_profit_price(entry, distance_pct, target_r, Direction::Long),
        Decimal::new(110, 0)
    );
    assert_eq!(
        take_profit_price(entry, distance_pct, target_r, Direction::Short),
        Decimal::new(90, 0)
    );
    let atr = Decimal::new(3, 0);
    let multiple = Decimal::new(2, 0);
    assert_eq!(
        atr_stop_price(entry, atr, multiple, Direction::Long),
        Decimal::new(94, 0)
    );
    assert_eq!(
        atr_stop_price(entry, atr, multiple, Direction::Short),
        Decimal::new(106, 0)
    );
}

#[test]
fn checked_geometry_reports_figures_that_do_not_fit() {
    let entry = Decimal::new(100, 0);
    let huge = Decimal::from_i128_with_scale(79_228_162_514_264_337_593_543_950_335, 0);
    assert_eq!(
        checked_stop_price(entry, Decimal::new(5, 2), Direction::Long),
        Some(Decimal::new(95, 0))
    );
    assert_eq!(checked_stop_price(huge, huge, Direction::Long), None);
    assert_eq!(
        checked_take_profit_price(huge, huge, huge, Direction::Short),
        None
    );
    assert_eq!(
        checked_atr_stop_price(entry, huge, huge, Direction::Long),
        None
    );
}

#[test]
fn compiled_strategy_is_inspectable() {
    let compiled: CompiledStrategy = compile(&rsi_oversold()).expect("must compile");
    let debug = format!("{compiled:?}");
    let described = compiled.describe();
    assert!(debug.contains("Rsi") && debug.contains("Lt") && debug.contains("30"));
    assert!(described.contains("Rsi"), "must mention Rsi: {described}");
    assert!(described.contains("Lt"), "must mention Lt: {described}");
    assert!(described.contains("30"), "must mention 30: {described}");
    assert_eq!(
        described,
        "CompiledStrategy { direction: Long, entry: Compare { lhs: Indicator { series: Primary, \
         spec: Rsi { period: Fixed(14) } }, op: Lt, rhs: Const(30) }, exits: [StopLoss { \
         distance_pct: 0.05 }, TakeProfit { target_r: 2 }], required_indicators: [Rsi { period: \
         Fixed(14) }] }"
    );
}

#[test]
fn exits_are_compiled_with_extracted_decimals() {
    let compiled = compile(&rsi_oversold()).expect("must compile");
    assert_eq!(
        compiled.exits()[0],
        CompiledExit::StopLoss {
            distance_pct: Decimal::new(5, 2),
        }
    );
    assert_eq!(
        compiled.exits()[1],
        CompiledExit::TakeProfit {
            target_r: Decimal::new(2, 0),
        }
    );
    assert_eq!(compiled.risk().risk_per_trade_pct, Decimal::new(1, 2));
    assert_eq!(compiled.risk().max_leverage, Decimal::new(3, 0));
}

#[test]
fn compile_error_displays() {
    let err = CompileError::UnexpectedSweep {
        field: "risk.max_leverage".to_owned(),
    };
    assert!(err.to_string().contains("risk.max_leverage"));
}

#[test]
fn higher_timeframe_operands_are_refused() {
    let validated = validate(&document(rsi_below_30(Series::Htf), vec![])).expect("valid document");
    let err = compile(&validated).expect_err("an htf operand is not evaluated");
    assert_eq!(
        err,
        CompileError::HtfUnsupported {
            field: "entry.lhs".to_owned(),
        }
    );
    assert!(err.to_string().contains("entry.lhs"));
}

#[test]
fn indicators_are_listed_once_in_order_of_first_use() {
    let entry = Condition::And {
        conditions: vec![
            rsi_below_30(Series::Primary),
            Condition::CrossesAbove {
                lhs: ValueSource::Indicator {
                    series: Series::Primary,
                    spec: IndicatorSpec::Ema {
                        period: SweepableValue::Fixed(9),
                    },
                },
                rhs: rsi_source(Series::Primary, 14),
            },
        ],
    };
    let compiled = compile(&validate(&document(entry, vec![])).unwrap()).unwrap();
    assert_eq!(
        compiled.required_indicators().to_vec(),
        vec![
            IndicatorSpec::Rsi {
                period: SweepableValue::Fixed(14),
            },
            IndicatorSpec::Ema {
                period: SweepableValue::Fixed(9),
            },
        ]
    );
    assert!(compiled.required_htf_indicators().is_empty());
    assert!(!compiled.needs_htf());
}
