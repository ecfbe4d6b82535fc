//! Strategies, versions and agent submissions.
use pulse::decimal::Decimal;
use pulse::domain::dsl::condition::{Comparator, Condition};
use pulse::domain::dsl::exit::ExitRule;
use pulse::domain::dsl::risk::{Direction, RiskParams};
use pulse::domain::dsl::schema_version::SchemaVersion;
use pulse::domain::dsl::strategy::StrategyDsl;
use pulse::domain::dsl::sweepable::SweepableValue;
use pulse::domain::dsl::value::{IndicatorSpec, Series, ValueSource};
use pulse::domain::market::Timestamp;
use pulse::domain::strategy::{
    diff_versions, AgentName, AgentSubmissionId, CreatedBy, Hypothesis, StrategyId,
    StrategyVersion, VersionId,
};

fn canonical_dsl() -> StrategyDsl {
    StrategyDsl {
        schema_version: SchemaVersion::current(),
        name: "RSI Oversold".to_owned(),
        direction: Direction::Long,
        entry: Condition::Compare {
            lhs: ValueSource::Indicator {
                series: Series::Primary,
                spec: IndicatorSpec::Rsi {
                    period: SweepableValue::Fixed(14),
                },
            },
            op: Comparator::Lt,
            rhs: ValueSource::Constant {
                value: Decimal::new(30, 0),
            },
        },
        filters: vec![],
        exits: vec![ExitRule::TakeProfit {
            target_r: SweepableValue::Fixed(Decimal::new(2, 0)),
        }],
        risk: RiskParams {
            risk_per_trade_pct: SweepableValue::Fixed(Decimal::new(1, 2)),
            max_leverage: SweepableValue::Fixed(Decimal::new(3, 0)),
        },
    }
}

fn sample_version() -> StrategyVersion {
    StrategyVersion {
        id: VersionId::new("ver-1"),
        strategy_id: StrategyId::new("strat-1"),
        parent_version_id: None,
        dsl_schema_version: SchemaVersion::current(),
        dsl: canonical_dsl(),
        dsl_original: r#"{"schema_version":"1.0.0","name":"RSI Oversold"}"#.to_owned(),
        version_hash: "deadbeef".to_owned(),
        created_by: CreatedBy::Human,
        creating_llm_call_ids: vec![],
        created_at: Timestamp {
            secs: 1_700_000_000,
            nanos: 0,
        },
    }
}

#[test]
fn diff_versions_flags_changed_fields() {
    let v = sample_version();
    let same = diff_versions(&v, &v);
    assert!(same.same_version, "a.id == b.id");
    assert!(!same.dsl_schema_version_changed);
    assert!(!same.dsl_changed);
    assert!(!same.dsl_original_changed);
    assert!(!same.version_hash_changed);
    assert!(!same.created_by_changed);
    assert!(!same.parent_changed);

    let mut other = sample_version();
    other.id = VersionId::new("ver-2");
    other.dsl_original = r#"{"schema_version":"1.0.0","name":"Changed"}"#.to_owned();
    other.version_hash = "cafef00d".to_owned();
    let diff = diff_versions(&v, &other);
    assert!(!diff.same_version, "different ids");
    assert!(diff.dsl_original_changed, "verbatim source differs");
    assert!(diff.version_hash_changed, "content identity differs");
    assert!(!diff.dsl_changed);
    assert!(!diff.dsl_schema_version_changed);
    assert!(!diff.created_by_changed);
    assert!(!diff.parent_changed);
}

#[test]
fn a_diff_sees_documents_parents_and_authors() {
    let v = sample_version();
    let mut other = sample_version();
    other.dsl.name = "Renamed".to_owned();
    other.parent_version_id = Some(VersionId::new("ver-0"));
    other.created_by = CreatedBy::CoachLlm;
    other.dsl_schema_version = SchemaVersion {
        major: 1,
        minor: 0,
        patch: 0,
    };
    let diff = diff_versions(&v, &other);
    assert!(diff.dsl_changed && diff.parent_changed && diff.created_by_changed);
    assert!(diff.dsl_schema_version_changed && !diff.dsl_original_changed);
    assert_eq!(diff, diff_versions(&other, &v));

    let mut moved = sample_version();
    moved.strategy_id = StrategyId::new("strat-2");
    moved.created_at = Timestamp { secs: 1, nanos: 2 };
    moved.dsl.risk.max_leverage = SweepableValue::Fixed(Decimal::new(30, 1));
    assert_eq!(diff_versions(&v, &moved), diff_versions(&v, &v));
}

#[test]
fn agent_names_are_checked_and_lowercased() {
    assert_eq!(AgentName::parse("Codex-1.0_X").unwrap().as_str(), "codex-1.0_x");
    let stored = AgentName::parse("ABC").unwrap();
    assert_eq!(AgentName::parse(stored.as_str()).unwrap(), stored.clone());
    assert!(AgentName::parse(&"a".repeat(64)).is_ok());
    let long = AgentName::parse(&"a".repeat(65)).unwrap_err();
    assert_eq!(
        long.to_string(),
        "agent_name: agent_name must be 1-64 characters, got 65"
    );
    assert_eq!(
        AgentName::parse("").unwrap_err().message,
        "agent_name must be 1-64 characters, got 0"
    );
    for bad in ["a b", "naïve", "a/b", "\u{212a}"] {
        let err = AgentName::parse(bad).unwrap_err();
        assert_eq!(err.path, "agent_name");
        assert_eq!(
            err.message,
            "agent_name may contain only ASCII letters, digits, '.', '_' and '-'"
        );
    }
}

#[test]
fn hypotheses_are_trimmed_and_checked() {
    assert_eq!(Hypothesis::parse("  x\ny ").unwrap().as_str(), "x\ny");
    assert!(Hypothesis::parse(&"é".repeat(2000)).is_ok());
    assert_eq!(
        Hypothesis::parse(&"é".repeat(2001)).unwrap_err().to_string(),
        "hypothesis: hypothesis must be 1-2000 characters after trimming, got 2001"
    );
    assert_eq!(
        Hypothesis::parse(" \t\u{2003}").unwrap_err().message,
        "hypothesis must be 1-2000 characters after trimming, got 0"
    );
    for bad in ["a\tb", "a\rb", "a\u{7f}b", "a\u{85}b"] {
        assert_eq!(
            Hypothesis::parse(bad).unwrap_err().message,
            "hypothesis may not contain control characters other than '\\n'"
        );
    }
    let stored = Hypothesis::parse(" x ").unwrap();
    assert_eq!(Hypothesis::parse(stored.as_str()).unwrap(), stored);
}

#[test]
fn trimming_and_control_characters_follow_unicode() {
    for u in 0..=0x1_10FF_u32 {
        if let Some(c) = char::from_u32(u) {
            let text = format!("x{c}y{c}");
            let expected = text.trim();
            let bad = expected.chars().any(|c| c.is_control() && c != '\n');
            match Hypothesis::parse(&text) {
                Ok(h) => {
                    assert!(!bad, "{u:x}");
                    assert_eq!(h.as_str(), expected, "{u:x}");
                }
                Err(_) => assert!(bad, "{u:x}"),
            }
        }
    }
}

#[test]
fn strategy_ids_keep_their_text() {
    assert_eq!(StrategyId::new("strat-1").as_str(), "strat-1");
    assert_eq!(VersionId::new("ver-1").as_str(), "ver-1");
    assert_eq!(AgentSubmissionId::new("sub-1").as_str(), "sub-1");
    assert!(VersionId::new("a").same(&VersionId::new("a")));
    assert!(!VersionId::new("a").same(&VersionId::new("b")));
}
