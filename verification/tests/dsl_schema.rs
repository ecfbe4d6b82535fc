//! Schema versions and the migration of documents.
use pulse::decimal::Decimal;
use pulse::domain::dsl::condition::{Comparator, Condition};
use pulse::domain::dsl::exit::ExitRule;
use pulse::domain::dsl::migrate::{
    detect_version, IdentityStep, LoadError, Migration, MigrationError, MigrationKind,
    MigrationStep, Migrator,
};
use pulse::domain::dsl::risk::{Direction, RiskParams};
use pulse::domain::dsl::schema_version::{SchemaVersion, DSL_SCHEMA_VERSION};
use pulse::domain::dsl::strategy::StrategyDsl;
use pulse::domain::dsl::sweepable::SweepableValue;
use pulse::domain::dsl::value::{IndicatorSpec, Series, ValueSource};
use std::str::FromStr;

fn v(major: u16, minor: u16, patch: u16) -> SchemaVersion {
    SchemaVersion {
        major,
        minor,
        patch,
    }
}

fn document(version: &str) -> String {
    format!("{{\"name\":\"RSI Oversold\",\"risk\":{{\"x\":1.5}},\"schema_version\":\"{version}\"}}")
}

fn canonical_strategy() -> StrategyDsl {
    StrategyDsl {
        schema_version: SchemaVersion::current(),
        name: "RSI Oversold".to_owned(),
        direction: Direction::Long,
        entry: Condition::Compare {
            lhs: ValueSource::Indicator {
                series: Series::Primary,
                spec: IndicatorSpec::Rsi {
                    period: SweepableValue::Fixed(14),
                },
            },
            op: Comparator::Lt,
            rhs: ValueSource::Constant {
                value: Decimal::new(30, 0),
            },
        },
        filters: vec![],
        exits: vec![ExitRule::StopLoss {
            distance_pct: SweepableValue::Fixed(Decimal::new(5, 2)),
        }],
        risk: RiskParams {
            risk_per_trade_pct: SweepableValue::Fixed(Decimal::new(1, 2)),
            max_leverage: SweepableValue::Fixed(Decimal::new(3, 0)),
        },
    }
}

fn member(json: &str, key: &str) -> Option<String> {
    let value: serde_json::Value = serde_json::from_str(json).expect("JSON");
    value.get(key).map(|m| m.to_string())
}

#[test]
fn schema_const_matches_current_version() {
    assert_eq!(SchemaVersion::current().to_string(), DSL_SCHEMA_VERSION);
    let parsed: SchemaVersion = DSL_SCHEMA_VERSION
        .parse()
        .expect("DSL_SCHEMA_VERSION parses as a SchemaVersion");
    assert_eq!(parsed, SchemaVersion::current());
}

#[test]
fn ordering_is_major_minor_patch() {
    let v100 = v(1, 0, 0);
    let v110 = v(1, 1, 0);
    let v200 = v(2, 0, 0);
    let v101 = v(1, 0, 1);
    assert!(v100 < v101);
    assert!(v101 < v110);
    assert!(v110 < v200);
}

#[test]
fn malformed_version_strings_are_err() {
    assert!(SchemaVersion::from_str("1.0").is_err());
    assert!(SchemaVersion::from_str("abc").is_err());
    assert!(SchemaVersion::from_str("1.x.0").is_err());
    assert!(SchemaVersion::from_str("1.0.0.0").is_err());
    assert!(SchemaVersion::from_str("").is_err());
    assert!(SchemaVersion::parse("1.0").is_err());
}

#[test]
fn version_texts_read_back() {
    for version in [v(0, 0, 0), v(1, 1, 0), v(65_535, 10, 999)] {
        assert_eq!(SchemaVersion::parse(&version.to_string()), Ok(version));
    }
    assert_eq!(v(65_535, 10, 999).to_string(), "65535.10.999");
}

#[test]
fn version_parts_read_as_unsigned_integers_do() {
    for text in [
        "1.2.3", "+1.2.3", "01.002.0003", "1.2.65535", "1.2.65536", "1.-2.3", "1..3", "1.+.3", ".1.2",
        "1.2.", "1. 2.3", "1.2.3 ", "１.2.3",
    ] {
        let parts: Vec<&str> = text.split('.').collect();
        let expected = match parts.as_slice() {
            [a, b, c] => match (a.parse::<u16>(), b.parse::<u16>(), c.parse::<u16>()) {
                (Ok(major), Ok(minor), Ok(patch)) => Some(v(major, minor, patch)),
                _ => None,
            },
            _ => None,
        };
        assert_eq!(SchemaVersion::parse(text).ok(), expected, "{text}");
    }
}

#[test]
fn a_refused_version_is_quoted() {
    let err = SchemaVersion::parse("1.\"0\n").unwrap_err();
    assert_eq!(
        err.to_string(),
        "malformed schema version \"1.\\\"0\\n\": expected \"MAJOR.MINOR.PATCH\" (three u16 \
         integers)"
    );
}

#[test]
fn bump_kind_classifies_major_minor() {
    assert_eq!(
        SchemaVersion::bump_kind(v(1, 0, 0), v(2, 0, 0)),
        Some(MigrationKind::Major)
    );
    assert_eq!(
        SchemaVersion::bump_kind(v(1, 0, 0), v(1, 1, 0)),
        Some(MigrationKind::Minor)
    );
    assert_eq!(SchemaVersion::bump_kind(v(1, 0, 0), v(1, 0, 0)), None);
}

#[test]
fn loads_current_version_without_migration() {
    let json = document("1.1.0");
    let loaded = Migrator::v1()
        .load(&json)
        .expect("load current-version doc");
    assert!(!loaded.migrated, "current-version doc must not be migrated");
    assert_eq!(loaded.from, SchemaVersion::current());
    assert_eq!(loaded.dsl_original, json, "dsl_original must be verbatim");
    assert_eq!(loaded.document, json);

    let dsl = canonical_strategy();
    let finished = loaded.finish(Ok(dsl.clone())).expect("a strategy");
    assert_eq!(finished.dsl, dsl);
    assert_eq!(finished.dsl_original, json);
    assert_eq!(finished.from, SchemaVersion::current());
    assert!(!finished.migrated);
}

#[test]
fn a_document_that_is_no_strategy_is_refused_at_the_end() {
    let loaded = Migrator::v1().load(&document("1.1.0")).unwrap();
    let err = loaded
        .finish(Err("missing field `entry`".to_owned()))
        .unwrap_err();
    assert_eq!(
        err.to_string(),
        "could not deserialize the current-version document: missing field `entry`"
    );
}

#[test]
fn rejects_future_version() {
    let err = Migrator::v1()
        .load(&document("99.0.0"))
        .expect_err("future version must reject");
    assert_eq!(
        err.to_string(),
        "document schema_version 99.0.0 is newer than this engine's 1.1.0; refusing to load (no \
         forward-compatibility)"
    );
    match err {
        LoadError::FutureVersion { found, current } => {
            assert_eq!(found, v(99, 0, 0));
            assert_eq!(current, SchemaVersion::current());
        }
        other => panic!("expected FutureVersion, got {other:?}"),
    }
}

#[test]
fn rejects_same_major_future_minor() {
    let err = Migrator::v1()
        .load(&document("1.2.0"))
        .expect_err("same-major future minor must reject");
    assert!(
        matches!(err, LoadError::FutureVersion { .. }),
        "expected FutureVersion for 1.2.0 vs 1.1.0, got {err:?}"
    );
}

#[test]
fn rejects_unknown_old_version_with_no_path() {
    let err = Migrator::v1()
        .load(&document("0.9.0"))
        .expect_err("old version with empty registry must reject");
    assert_eq!(
        err.to_string(),
        "no migration path from schema_version 0.9.0 to CURRENT"
    );
    match err {
        LoadError::NoMigrationPath { from } => assert_eq!(from, v(0, 9, 0)),
        other => panic!("expected NoMigrationPath, got {other:?}"),
    }
}

/// Steps for the tests below.
enum Step {
    /// Renames `strat_name` to `name` and sets the current version.
    Rename,
    /// Leaves the document alone.
    Pass,
}

impl MigrationStep for Step {
    fn apply(&self, document: &str) -> Result<String, MigrationError> {
        match self {
            Step::Pass => Ok(document.to_owned()),
            Step::Rename => {
                let mut value: serde_json::Value = serde_json::from_str(document).unwrap();
                let members = value.as_object_mut().unwrap();
                let name = members
                    .remove("strat_name")
                    .ok_or_else(|| MigrationError("old doc missing `strat_name`".to_owned()))?;
                members.insert("name".to_owned(), name);
                members.insert(
                    "schema_version".to_owned(),
                    serde_json::Value::String(SchemaVersion::current().to_string()),
                );
                Ok(value.to_string())
            }
        }
    }
}

fn step(from: SchemaVersion, to: SchemaVersion, step: Step) -> Migration<Step> {
    Migration {
        from,
        to,
        kind: MigrationKind::Minor,
        step,
    }
}

#[test]
fn applies_synthetic_minor_migration_and_preserves_original() {
    let old = "{\"strat_name\":\"RSI Oversold\",\"schema_version\":\"0.9.0\"}";
    let migrator =
        Migrator::with_migrations(vec![step(v(0, 9, 0), SchemaVersion::current(), Step::Rename)]);
    let loaded = migrator.load(old).expect("synthetic migration must load");
    assert!(loaded.migrated, "old doc must be reported as migrated");
    assert_eq!(loaded.from, v(0, 9, 0));
    assert_eq!(
        loaded.dsl_original, old,
        "dsl_original must be the OLD input verbatim"
    );
    assert_eq!(
        member(&loaded.document, "schema_version").as_deref(),
        Some("\"1.1.0\"")
    );
    assert_eq!(
        member(&loaded.document, "name").as_deref(),
        Some("\"RSI Oversold\"")
    );
    assert_eq!(member(&loaded.document, "strat_name"), None);

    let err = migrator.load(&document("0.9.0")).unwrap_err();
    assert_eq!(
        err.to_string(),
        "migration from 0.9.0 failed: old doc missing `strat_name`"
    );
}

#[test]
fn rejects_cyclic_or_stalled_migration_registry() {
    let cyclic = Migrator::with_migrations(vec![
        step(v(0, 8, 0), v(0, 9, 0), Step::Pass),
        step(v(0, 9, 0), v(0, 8, 0), Step::Pass),
    ]);
    let err = cyclic
        .load(&document("0.8.0"))
        .expect_err("cyclic registry must reject (and terminate)");
    assert!(
        matches!(err, LoadError::MigrationFailed { .. }),
        "expected MigrationFailed for a cyclic registry, got {err:?}"
    );
    let stalled = Migrator::with_migrations(vec![step(v(0, 9, 0), v(0, 9, 0), Step::Pass)]);
    let err = stalled
        .load(&document("0.9.0"))
        .expect_err("non-advancing registry must reject (and terminate)");
    assert!(
        matches!(err, LoadError::MigrationFailed { .. }),
        "expected MigrationFailed for a stalled registry, got {err:?}"
    );
    assert_eq!(
        err.to_string(),
        "migration from 0.9.0 failed: migration registry does not advance toward CURRENT (step \
         0.9.0 -> 0.9.0 is non-advancing or cyclic)"
    );
}

#[test]
fn chains_steps_and_names_the_dead_end() {
    let migrator = Migrator::with_migrations(vec![
        step(v(0, 8, 0), v(0, 9, 0), Step::Pass),
        step(v(0, 9, 0), v(1, 1, 0), Step::Pass),
        step(v(0, 5, 0), v(0, 6, 0), Step::Pass),
    ]);
    let loaded = migrator.load(&document("0.8.0")).unwrap();
    assert!(loaded.migrated);
    assert_eq!(loaded.document, document("0.8.0"));
    match migrator.load(&document("0.5.0")) {
        Err(LoadError::NoMigrationPath { from }) => assert_eq!(from, v(0, 6, 0)),
        other => panic!("expected NoMigrationPath, got {other:?}"),
    }
}

#[test]
fn v1_terminal_version_matches_the_literal_its_apply_stamps() {
    let migrator = Migrator::v1();
    let step = migrator
        .migrations()
        .iter()
        .find(|m| m.from == v(1, 0, 0))
        .expect("v1 registers the 1.0.0 -> 1.1.0 step");
    assert_eq!(step.to, v(1, 1, 0));
    let migrated = step
        .step
        .apply(&document("1.0.0"))
        .expect("identity step applies");
    assert_eq!(
        member(&migrated, "schema_version").as_deref(),
        Some("\"1.1.0\"")
    );
    let stamped: SchemaVersion = "1.1.0".parse().expect("the stamped version parses");
    assert_eq!(
        stamped, step.to,
        "the registry's terminal `to` must equal the literal `apply` stamps"
    );
}

#[test]
fn an_old_document_only_changes_its_version() {
    let loaded = Migrator::v1().load(&document("1.0.0")).unwrap();
    assert!(loaded.migrated);
    assert_eq!(loaded.from, v(1, 0, 0));
    assert_eq!(loaded.dsl_original, document("1.0.0"));
    let before: serde_json::Value = serde_json::from_str(&document("1.1.0")).unwrap();
    let after: serde_json::Value = serde_json::from_str(&loaded.document).unwrap();
    assert_eq!(before, after);
    let again = Migrator::v1().load(&loaded.document).unwrap();
    assert!(!again.migrated);
    assert_eq!(again.document, loaded.document);
}

#[test]
fn documents_without_a_usable_version_are_refused() {
    let migrator = Migrator::v1();
    assert!(matches!(
        migrator.load("{not json"),
        Err(LoadError::Parse(_))
    ));
    assert_eq!(
        migrator.load("{\"name\":\"x\"}").unwrap_err(),
        LoadError::MissingVersion
    );
    assert_eq!(
        migrator.load("{\"schema_version\":1}").unwrap_err(),
        LoadError::MissingVersion
    );
    assert_eq!(
        migrator.load("[\"schema_version\"]").unwrap_err(),
        LoadError::MissingVersion
    );
    assert_eq!(
        migrator
            .load("{\"schema_version\":\"one\"}")
            .unwrap_err()
            .to_string(),
        "malformed `schema_version`: malformed schema version \"one\": expected \
         \"MAJOR.MINOR.PATCH\" (three u16 integers)"
    );
    assert_eq!(
        LoadError::MissingVersion.to_string(),
        "document is missing a string `schema_version` field"
    );
    let parse = migrator.load("{not json").unwrap_err().to_string();
    assert!(parse.starts_with("could not parse document as JSON: "), "{parse}");
}

#[test]
fn the_original_is_kept_beside_the_document() {
    let loaded = Migrator::v1()
        .load_value(&document("1.1.0"), "as received")
        .unwrap();
    assert_eq!(loaded.dsl_original, "as received");
    assert_eq!(loaded.document, document("1.1.0"));
}

#[test]
fn what_was_read_of_the_version_decides() {
    assert_eq!(detect_version(Ok(Some("1.0.0".to_owned()))), Ok(v(1, 0, 0)));
    assert_eq!(detect_version(Ok(None)), Err(LoadError::MissingVersion));
    assert_eq!(
        detect_version(Err("eof".to_owned())),
        Err(LoadError::Parse("eof".to_owned()))
    );
}

#[test]
fn the_identity_step_needs_an_object() {
    let err = IdentityStep.apply("[1,2]").unwrap_err();
    assert_eq!(
        err.to_string(),
        "migration step failed: document is not a JSON object"
    );
}
