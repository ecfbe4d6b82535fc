//! What the texts of errors say, and which of their figures stands where.
use crate::domain::backtest::error::{backtest_error_text, BacktestError};
use crate::domain::coaching::context::{overflow_text, unrenderable_text};
use crate::domain::coaching::session::{
    coach_failure_text, coaching_error_text, stage_tag, AcceptFailureStage, CoachFailure,
    CoachingError, DispositionKind,
};
use crate::domain::dsl::compile::{compile_error_text, CompileErrorView};
use crate::domain::dsl::migrate::{load_error_text, stalled_text, LoadErrorView};
use crate::domain::dsl::mutate::{mutation_error_text, MutationErrorView, ParamKind};
use crate::domain::dsl::schema_version::{
    malformed_version_text, quoted, version_text, SchemaVersion,
};
use crate::domain::dsl::validate::validation_errors_text;
use crate::domain::error::{data_error_text, validation_error_text, DataError, ValidationError};
use crate::domain::fingerprint::mismatch_text;
use crate::domain::llm::{llm_error_text, no_price_text, LlmError};
use crate::domain::llm_call::{attributed_error_text, AttributedCallError};
use crate::domain::market::Timeframe;
use crate::domain::strategy::{
    hypothesis_chars_text, hypothesis_length_text, name_chars_text, name_length_text,
};
use crate::text::{digits, signed_digits};
use vstd::prelude::*;

verus! {

/// Whether a text opens with another.
pub open spec fn opens_with(text: Seq<char>, start: Seq<char>) -> bool {
    start.len() <= text.len() && text.take(start.len() as int) == start
}

/// Whether a text closes with another.
pub open spec fn closes_with(text: Seq<char>, end: Seq<char>) -> bool {
    end.len() <= text.len() && text.skip(text.len() - end.len()) == end
}

proof fn lemma_two(a: Seq<char>, x: Seq<char>)
    ensures
        opens_with(a + x, a),
        closes_with(a + x, x),
        (a + x).len() == a.len() + x.len(),
{
    assert((a + x).take(a.len() as int) =~= a);
    assert((a + x).skip(a.len() as int) =~= x);
}

proof fn lemma_three(a: Seq<char>, x: Seq<char>, b: Seq<char>)
    ensures
        opens_with(a + x + b, a + x),
        closes_with(a + x + b, x + b),
{
    lemma_two(a + x, b);
    lemma_two(a, x + b);
    assert(a + x + b =~= a + (x + b));
}

proof fn lemma_five(a: Seq<char>, x: Seq<char>, b: Seq<char>, y: Seq<char>, c: Seq<char>)
    ensures
        opens_with(a + x + b + y + c, a + x + b),
        closes_with(a + x + b + y + c, b + y + c),
{
    lemma_two(a + x + b, y + c);
    lemma_two(a + x, b + y + c);
    assert(a + x + b + y + c =~= (a + x + b) + (y + c));
    assert(a + x + b + y + c =~= (a + x) + (b + y + c));
}

/// A fault of a candle series is told by its opening times: the one that came too early
/// behind the one before it, or the one that came twice.
pub proof fn law_messages_about_series(e: ValidationError)
    ensures
        e matches ValidationError::Unsorted { earlier, later } ==> opens_with(
            validation_error_text(e),
            "candles are not sorted by open_time (found "@ + signed_digits(later as int)
                + " ms after "@,
        ) && closes_with(
            validation_error_text(e),
            " ms after "@ + signed_digits(earlier as int) + " ms)"@,
        ),
        e matches ValidationError::Duplicate(t) ==> opens_with(
            validation_error_text(e),
            "duplicate open_time "@ + signed_digits(t as int),
        ) && closes_with(validation_error_text(e), signed_digits(t as int) + " ms"@),
{
    match e {
        ValidationError::Unsorted { earlier, later } => {
            lemma_five(
                "candles are not sorted by open_time (found "@,
                signed_digits(later as int),
                " ms after "@,
                signed_digits(earlier as int),
                " ms)"@,
            );
        },
        ValidationError::Duplicate(t) => {
            lemma_three("duplicate open_time "@, signed_digits(t as int), " ms"@);
        },
    }
}

/// A data error says of which kind it is and what it is about; a gap, which opening time was
/// expected and which was found.
pub proof fn law_messages_about_data(e: DataError)
    ensures
        e matches DataError::Validation(v) ==> opens_with(
            data_error_text(e),
            "candle series validation failed: "@,
        ) && closes_with(data_error_text(e), validation_error_text(v)),
        e matches DataError::Gap { expected, found } ==> opens_with(
            data_error_text(e),
            "gap in candle series: expected open_time "@ + signed_digits(expected as int)
                + " ms, found "@,
        ) && closes_with(
            data_error_text(e),
            " ms, found "@ + signed_digits(found as int) + " ms"@,
        ),
        e matches DataError::Parse(m) ==> opens_with(data_error_text(e), "parse error: "@)
            && closes_with(data_error_text(e), m@),
        e matches DataError::Io(m) ==> opens_with(data_error_text(e), "io error: "@)
            && closes_with(data_error_text(e), m@),
        e matches DataError::SnapshotExists { path } ==> opens_with(
            data_error_text(e),
            "snapshot already exists with differing content at "@,
        ) && closes_with(data_error_text(e), path@),
        e matches DataError::StrategyNameTaken { name } ==> opens_with(
            data_error_text(e),
            "a strategy named "@ + name@,
        ) && closes_with(data_error_text(e), name@ + " already exists"@),
        e matches DataError::Db(m) ==> opens_with(data_error_text(e), "database error: "@)
            && closes_with(data_error_text(e), m@),
        e matches DataError::Migration(m) ==> opens_with(data_error_text(e), "migration error: "@)
            && closes_with(data_error_text(e), m@),
{
    match e {
        DataError::Validation(v) => {
            lemma_two("candle series validation failed: "@, validation_error_text(v));
        },
        DataError::Gap { expected, found } => {
            lemma_five(
                "gap in candle series: expected open_time "@,
                signed_digits(expected as int),
                " ms, found "@,
                signed_digits(found as int),
                " ms"@,
            );
        },
        DataError::Parse(m) => {
            lemma_two("parse error: "@, m@);
        },
        DataError::Io(m) => {
            lemma_two("io error: "@, m@);
        },
        DataError::SnapshotExists { path } => {
            lemma_two("snapshot already exists with differing content at "@, path@);
        },
        DataError::StrategyNameTaken { name } => {
            lemma_three("a strategy named "@, name@, " already exists"@);
        },
        DataError::Db(m) => {
            lemma_two("database error: "@, m@);
        },
        DataError::Migration(m) => {
            lemma_two("migration error: "@, m@);
        },
    }
}

/// How an interval is named.
pub open spec fn interval_word(tf: Timeframe) -> Seq<char> {
    if tf == Timeframe::M15 {
        "M15"@
    } else {
        "H4"@
    }
}

/// A refused backtest says why; two series in the wrong order are named, the higher one
/// first.
pub proof fn law_messages_about_backtests(e: BacktestError)
    ensures
        e is NoStopLoss ==> backtest_error_text(e)
            == "cannot size a position without a stop-loss (zero stop distance)"@,
        e matches BacktestError::UnsupportedExit(s) ==> opens_with(
            backtest_error_text(e),
            "unsupported exit kind for this backtester: "@,
        ) && closes_with(backtest_error_text(e), s@),
        e matches BacktestError::EngineInit(s) ==> opens_with(
            backtest_error_text(e),
            "indicator engine initialization failed: "@,
        ) && closes_with(backtest_error_text(e), s@),
        e matches BacktestError::ImpossibleTakeProfit(s) ==> opens_with(
            backtest_error_text(e),
            "impossible take-profit geometry: "@,
        ) && closes_with(backtest_error_text(e), s@),
        e matches BacktestError::ImpossibleStop(s) ==> opens_with(
            backtest_error_text(e),
            "impossible ATR stop: "@,
        ) && closes_with(backtest_error_text(e), s@),
        e matches BacktestError::InvalidConfig(s) ==> opens_with(
            backtest_error_text(e),
            "invalid backtest configuration: "@,
        ) && closes_with(backtest_error_text(e), s@),
        e is HtfRequired ==> backtest_error_text(e)
            == "strategy requires a higher-timeframe candle series (series: \"htf\" operand present)"@,
        e matches BacktestError::HtfNotHigher { primary, htf } ==> opens_with(
            backtest_error_text(e),
            "higher-timeframe series "@ + interval_word(htf)
                + " is not higher than the primary series "@,
        ) && closes_with(
            backtest_error_text(e),
            " is not higher than the primary series "@ + interval_word(primary)
                + " — `Series::Htf` operands need a strictly longer timeframe"@,
        ),
{
    match e {
        BacktestError::UnsupportedExit(s) => {
            lemma_two("unsupported exit kind for this backtester: "@, s@);
        },
        BacktestError::EngineInit(s) => {
            lemma_two("indicator engine initialization failed: "@, s@);
        },
        BacktestError::ImpossibleTakeProfit(s) => {
            lemma_two("impossible take-profit geometry: "@, s@);
        },
        BacktestError::ImpossibleStop(s) => {
            lemma_two("impossible ATR stop: "@, s@);
        },
        BacktestError::InvalidConfig(s) => {
            lemma_two("invalid backtest configuration: "@, s@);
        },
        BacktestError::HtfNotHigher { primary, htf } => {
            lemma_five(
                "higher-timeframe series "@,
                interval_word(htf),
                " is not higher than the primary series "@,
                interval_word(primary),
                " — `Series::Htf` operands need a strictly longer timeframe"@,
            );
        },
        _ => {},
    }
}

/// A document that does not load says what is wrong with it: a newer one names its own
/// version before that of the engine, a stuck one the version it is stuck at.
pub proof fn law_messages_about_loading(e: LoadErrorView)
    ensures
        e matches LoadErrorView::Parse(s) ==> opens_with(
            load_error_text(e),
            "could not parse document as JSON: "@,
        ) && closes_with(load_error_text(e), s),
        e is MissingVersion ==> load_error_text(e)
            == "document is missing a string `schema_version` field"@,
        e matches LoadErrorView::BadVersion(s) ==> opens_with(
            load_error_text(e),
            "malformed `schema_version`: "@,
        ) && closes_with(load_error_text(e), s),
        e matches LoadErrorView::FutureVersion { found, current } ==> opens_with(
            load_error_text(e),
            "document schema_version "@ + version_text(found) + " is newer than this engine's "@,
        ) && closes_with(
            load_error_text(e),
            " is newer than this engine's "@ + version_text(current)
                + "; refusing to load (no forward-compatibility)"@,
        ),
        e matches LoadErrorView::NoMigrationPath { from } ==> opens_with(
            load_error_text(e),
            "no migration path from schema_version "@ + version_text(from),
        ) && closes_with(load_error_text(e), version_text(from) + " to CURRENT"@),
        e matches LoadErrorView::MigrationFailed { from, message } ==> opens_with(
            load_error_text(e),
            "migration from "@ + version_text(from) + " failed: "@,
        ) && closes_with(load_error_text(e), " failed: "@ + message),
        e matches LoadErrorView::Deserialize(s) ==> opens_with(
            load_error_text(e),
            "could not deserialize the current-version document: "@,
        ) && closes_with(load_error_text(e), s),
{
    match e {
        LoadErrorView::Parse(s) => {
            lemma_two("could not parse document as JSON: "@, s);
        },
        LoadErrorView::MissingVersion => {},
        LoadErrorView::BadVersion(s) => {
            lemma_two("malformed `schema_version`: "@, s);
        },
        LoadErrorView::FutureVersion { found, current } => {
            lemma_five(
                "document schema_version "@,
                version_text(found),
                " is newer than this engine's "@,
                version_text(current),
                "; refusing to load (no forward-compatibility)"@,
            );
        },
        LoadErrorView::NoMigrationPath { from } => {
            lemma_three("no migration path from schema_version "@, version_text(from), " to CURRENT"@);
        },
        LoadErrorView::MigrationFailed { from, message } => {
            lemma_three("migration from "@ + version_text(from), " failed: "@, message);
        },
        LoadErrorView::Deserialize(s) => {
            lemma_two("could not deserialize the current-version document: "@, s);
        },
    }
}

/// A step that does not advance is named from its start to its end; a text that is no
/// version is quoted.
pub proof fn law_messages_about_versions(from: SchemaVersion, to: SchemaVersion, raw: Seq<char>)
    ensures
        opens_with(
            stalled_text(from, to),
            "migration registry does not advance toward CURRENT (step "@ + version_text(from)
                + " -> "@,
        ),
        closes_with(
            stalled_text(from, to),
            " -> "@ + version_text(to) + " is non-advancing or cyclic)"@,
        ),
        opens_with(malformed_version_text(raw), "malformed schema version "@ + quoted(raw)),
        closes_with(
            malformed_version_text(raw),
            quoted(raw) + ": expected \"MAJOR.MINOR.PATCH\" (three u16 integers)"@,
        ),
{
    lemma_five(
        "migration registry does not advance toward CURRENT (step "@,
        version_text(from),
        " -> "@,
        version_text(to),
        " is non-advancing or cyclic)"@,
    );
    lemma_three(
        "malformed schema version "@,
        quoted(raw),
        ": expected \"MAJOR.MINOR.PATCH\" (three u16 integers)"@,
    );
}

/// A refused compilation names the operand and what is wrong with it.
pub proof fn law_messages_about_compiling(e: CompileErrorView)
    ensures
        e matches CompileErrorView::UnexpectedSweep { field } ==> opens_with(
            compile_error_text(e),
            "unexpected Sweep value at "@ + field,
        ) && closes_with(
            compile_error_text(e),
            field + ": a validated strategy must contain only Fixed values"@,
        ),
        e matches CompileErrorView::HtfUnsupported { field } ==> opens_with(
            compile_error_text(e),
            "higher-timeframe operand at "@ + field,
        ) && closes_with(
            compile_error_text(e),
            field + ": `series: htf` evaluation lands in r2.s2.w2"@,
        ),
{
    match e {
        CompileErrorView::UnexpectedSweep { field } => {
            lemma_three(
                "unexpected Sweep value at "@,
                field,
                ": a validated strategy must contain only Fixed values"@,
            );
        },
        CompileErrorView::HtfUnsupported { field } => {
            lemma_three(
                "higher-timeframe operand at "@,
                field,
                ": `series: htf` evaluation lands in r2.s2.w2"@,
            );
        },
    }
}

/// How the kind of a number is named.
pub open spec fn number_word(kind: ParamKind) -> Seq<char> {
    if kind == ParamKind::Period {
        "period (u32)"@
    } else {
        "threshold (Decimal)"@
    }
}

/// A refused mutation names its path; a mismatch says what the leaf is before it says what
/// was offered.
pub proof fn law_messages_about_mutations(e: MutationErrorView)
    ensures
        e matches MutationErrorView::UnknownPath { path } ==> opens_with(
            mutation_error_text(e),
            "no sweepable parameter is addressable at `"@ + path,
        ) && closes_with(mutation_error_text(e), path + "`"@),
        e matches MutationErrorView::TypeMismatch { path, expected, offered } ==> opens_with(
            mutation_error_text(e),
            "`"@ + path + "` is a "@ + number_word(expected)
                + " leaf, but the mutation offered a "@,
        ) && closes_with(
            mutation_error_text(e),
            " leaf, but the mutation offered a "@ + number_word(offered) + " value"@,
        ),
        e matches MutationErrorView::NoChange { path } ==> opens_with(
            mutation_error_text(e),
            "`"@ + path,
        ) && closes_with(
            mutation_error_text(e),
            path + "` already holds the offered value; the mutation would change nothing"@,
        ),
        e matches MutationErrorView::ValidationFailed { path, errors } ==> opens_with(
            mutation_error_text(e),
            "the candidate produced by mutating `"@ + path + "` failed validation: "@
                + "strategy validation failed with "@ + digits(errors.len()),
        ) && closes_with(mutation_error_text(e), digits(errors.len()) + " error(s)"@),
        e matches MutationErrorView::CompileFailed { path, source } ==> opens_with(
            mutation_error_text(e),
            "the candidate produced by mutating `"@ + path + "` failed to compile: "@,
        ) && closes_with(mutation_error_text(e), compile_error_text(source)),
{
    match e {
        MutationErrorView::UnknownPath { path } => {
            lemma_three("no sweepable parameter is addressable at `"@, path, "`"@);
        },
        MutationErrorView::TypeMismatch { path, expected, offered } => {
            lemma_five(
                "`"@ + path + "` is a "@,
                number_word(expected),
                " leaf, but the mutation offered a "@,
                number_word(offered),
                " value"@,
            );
        },
        MutationErrorView::NoChange { path } => {
            lemma_three(
                "`"@,
                path,
                "` already holds the offered value; the mutation would change nothing"@,
            );
        },
        MutationErrorView::ValidationFailed { path, errors } => {
            let start = "the candidate produced by mutating `"@ + path
                + "` failed validation: "@;
            let text = start + "strategy validation failed with "@;
            lemma_three(text, digits(errors.len()), " error(s)"@);
            assert(mutation_error_text(e) =~= text + digits(errors.len()) + " error(s)"@);
        },
        MutationErrorView::CompileFailed { path, source } => {
            lemma_two(
                "the candidate produced by mutating `"@ + path + "` failed to compile: "@,
                compile_error_text(source),
            );
        },
    }
}

/// How the state of a proposal is named.
pub open spec fn state_word(kind: DispositionKind) -> Seq<char> {
    if kind == DispositionKind::Proposed {
        "proposed"@
    } else if kind == DispositionKind::Accepted {
        "accepted"@
    } else if kind == DispositionKind::Rejected {
        "rejected"@
    } else {
        "modified"@
    }
}

/// A refused move is named from the state before to the state asked for.
pub proof fn law_messages_about_proposals(e: CoachingError)
    ensures
        e is EmptyHypothesis ==> coaching_error_text(e)
            == "a proposal's hypothesis must not be empty or whitespace-only"@,
        e is EmptyRequestFingerprint ==> coaching_error_text(e)
            == "a coach request fingerprint must not be empty or whitespace-only"@,
        e matches CoachingError::IllegalTransition { from, to } ==> opens_with(
            coaching_error_text(e),
            "illegal disposition transition "@ + state_word(from) + " -> "@,
        ) && closes_with(coaching_error_text(e), " -> "@ + state_word(to)),
{
    if let CoachingError::IllegalTransition { from, to } = e {
        lemma_three("illegal disposition transition "@ + state_word(from), " -> "@, state_word(to));
    }
}

/// The tag of a stage is its name.
pub proof fn law_stages_have_their_names(stage: AcceptFailureStage)
    ensures
        stage is Apply ==> stage_tag(stage) == "apply"@,
        stage is LoadInputs ==> stage_tag(stage) == "load_inputs"@,
        stage is LoadSnapshots ==> stage_tag(stage) == "load_snapshots"@,
        stage is Compile ==> stage_tag(stage) == "compile"@,
        stage is Backtest ==> stage_tag(stage) == "backtest"@,
        stage is WalkForward ==> stage_tag(stage) == "walk_forward"@,
        stage is Persist ==> stage_tag(stage) == "persist"@,
{
}

/// A failed turn says what went wrong: how many calls it made and how many of them propose,
/// how long the provider took, or the words of whoever refused.
pub proof fn law_messages_about_turns(f: CoachFailure)
    ensures
        f is ZeroCalls ==> coach_failure_text(f)
            == "the coach turn ended with no propose_mutation call"@,
        f matches CoachFailure::SeveralCalls { count, propose_mutation_count } ==> opens_with(
            coach_failure_text(f),
            "the coach turn made "@ + digits(count as nat) + " tool calls, "@,
        ) && closes_with(
            coach_failure_text(f),
            " tool calls, "@ + digits(propose_mutation_count as nat)
                + " of them propose_mutation; exactly one propose_mutation call ends a turn"@,
        ),
        f matches CoachFailure::MalformedArguments { detail } ==> opens_with(
            coach_failure_text(f),
            "the coach's tool call was malformed: "@,
        ) && closes_with(coach_failure_text(f), detail@),
        f matches CoachFailure::InapplicableMutation { error, .. } ==> opens_with(
            coach_failure_text(f),
            "the proposed mutation does not apply: "@,
        ) && closes_with(coach_failure_text(f), mutation_error_text(error@)),
        f matches CoachFailure::ProviderTimeout { elapsed_ms } ==> opens_with(
            coach_failure_text(f),
            "the provider did not answer within "@ + digits(elapsed_ms as nat),
        ) && closes_with(coach_failure_text(f), digits(elapsed_ms as nat) + " ms"@),
        f matches CoachFailure::ContextOverflow { detail } ==> opens_with(
            coach_failure_text(f),
            "the coach context does not fit the model's window: "@,
        ) && closes_with(coach_failure_text(f), detail@),
        f matches CoachFailure::TransportFailure { detail } ==> opens_with(
            coach_failure_text(f),
            "the coach's provider call failed: "@,
        ) && closes_with(coach_failure_text(f), detail@),
        f matches CoachFailure::InapplicableAdvice { intent, evidence } ==> opens_with(
            coach_failure_text(f),
            "the coach answered with structural advice this release cannot apply: "@ + intent@
                + " (evidence: "@,
        ) && closes_with(coach_failure_text(f), " (evidence: "@ + evidence@ + ")"@),
        f matches CoachFailure::MissingBacktestInputs { detail } ==> opens_with(
            coach_failure_text(f),
            "the parent run's backtest inputs are not available: "@,
        ) && closes_with(coach_failure_text(f), detail@),
        f matches CoachFailure::Interrupted { detail } ==> opens_with(
            coach_failure_text(f),
            "the coach turn was claimed and never finished: "@,
        ) && closes_with(coach_failure_text(f), detail@),
{
    match f {
        CoachFailure::ZeroCalls => {},
        CoachFailure::SeveralCalls { count, propose_mutation_count } => {
            lemma_five(
                "the coach turn made "@,
                digits(count as nat),
                " tool calls, "@,
                digits(propose_mutation_count as nat),
                " of them propose_mutation; exactly one propose_mutation call ends a turn"@,
            );
        },
        CoachFailure::MalformedArguments { detail } => {
            lemma_two("the coach's tool call was malformed: "@, detail@);
        },
        CoachFailure::InapplicableMutation { error, .. } => {
            lemma_two("the proposed mutation does not apply: "@, mutation_error_text(error@));
        },
        CoachFailure::ProviderTimeout { elapsed_ms } => {
            lemma_three(
                "the provider did not answer within "@,
                digits(elapsed_ms as nat),
                " ms"@,
            );
        },
        CoachFailure::ContextOverflow { detail } => {
            lemma_two("the coach context does not fit the model's window: "@, detail@);
        },
        CoachFailure::TransportFailure { detail } => {
            lemma_two("the coach's provider call failed: "@, detail@);
        },
        CoachFailure::InapplicableAdvice { intent, evidence } => {
            lemma_five(
                "the coach answered with structural advice this release cannot apply: "@,
                intent@,
                " (evidence: "@,
                evidence@,
                ")"@,
            );
        },
        CoachFailure::MissingBacktestInputs { detail } => {
            lemma_two("the parent run's backtest inputs are not available: "@, detail@);
        },
        CoachFailure::Interrupted { detail } => {
            lemma_two("the coach turn was claimed and never finished: "@, detail@);
        },
    }
}

/// A failed call says on whose side it failed; one that cannot be attributed says how many
/// ledger entries there were, the earlier number first.
pub proof fn law_messages_about_calls(e: LlmError, a: AttributedCallError)
    ensures
        e matches LlmError::Provider(s) ==> opens_with(llm_error_text(e), "llm provider error: "@)
            && closes_with(llm_error_text(e), s@),
        e matches LlmError::Config(s) ==> opens_with(llm_error_text(e), "llm config error: "@)
            && closes_with(llm_error_text(e), s@),
        e matches LlmError::Local(s) ==> opens_with(llm_error_text(e), "llm local error: "@)
            && closes_with(llm_error_text(e), s@),
        a matches AttributedCallError::Provider { error, .. } ==> attributed_error_text(a)
            == llm_error_text(error),
        a is LedgerRowMissing ==> attributed_error_text(a)
            == "the coach turn reached the provider but captured no ledger row: the provider or the capture handle is not the one the ledger decorator writes through"@,
        a matches AttributedCallError::LedgerRowsAmbiguous { seen } ==> opens_with(
            attributed_error_text(a),
            "the coach turn captured "@ + digits(seen as nat),
        ) && closes_with(
            attributed_error_text(a),
            digits(seen as nat) + " ledger rows; one turn is one call is one row"@,
        ),
        a matches AttributedCallError::CaptureBufferShrank { start, len } ==> opens_with(
            attributed_error_text(a),
            "the capture buffer shrank during the call (was "@ + digits(start as nat) + ", now "@,
        ) && closes_with(
            attributed_error_text(a),
            ", now "@ + digits(len as nat)
                + "): the ids this turn minted are gone, so no honest attribution is available"@,
        ),
{
    match e {
        LlmError::Provider(s) => {
            lemma_two("llm provider error: "@, s@);
        },
        LlmError::Config(s) => {
            lemma_two("llm config error: "@, s@);
        },
        LlmError::Local(s) => {
            lemma_two("llm local error: "@, s@);
        },
    }
    match a {
        AttributedCallError::LedgerRowsAmbiguous { seen } => {
            lemma_three(
                "the coach turn captured "@,
                digits(seen as nat),
                " ledger rows; one turn is one call is one row"@,
            );
        },
        AttributedCallError::CaptureBufferShrank { start, len } => {
            lemma_five(
                "the capture buffer shrank during the call (was "@,
                digits(start as nat),
                ", now "@,
                digits(len as nat),
                "): the ids this turn minted are gone, so no honest attribution is available"@,
            );
        },
        _ => {},
    }
}

/// A warning about two builds names both, in the order in which they are compared.
pub proof fn law_warnings_name_both_builds(a: Seq<char>, b: Seq<char>)
    ensures
        opens_with(
            mismatch_text(a, b),
            "engine fingerprint mismatch: comparing runs from different engine builds ("@ + a
                + " vs "@,
        ),
        closes_with(
            mismatch_text(a, b),
            " vs "@ + b + "); results may not be directly comparable"@,
        ),
{
    lemma_five(
        "engine fingerprint mismatch: comparing runs from different engine builds ("@,
        a,
        " vs "@,
        b,
        "); results may not be directly comparable"@,
    );
}

/// A refusal that counts or measures gives the figure: the length of what was submitted,
/// the number of errors, the size before the budget.
pub proof fn law_messages_give_the_figure(
    n: nat,
    budget: nat,
    word: Seq<char>,
    errors: Seq<crate::domain::dsl::validate::FieldErrorView>,
)
    ensures
        opens_with(name_length_text(n), "agent_name must be 1-64 characters, got "@),
        closes_with(name_length_text(n), digits(n)),
        opens_with(
            hypothesis_length_text(n),
            "hypothesis must be 1-2000 characters after trimming, got "@,
        ),
        closes_with(hypothesis_length_text(n), digits(n)),
        name_chars_text() == "agent_name may contain only ASCII letters, digits, '.', '_' and '-'"@,
        hypothesis_chars_text()
            == "hypothesis may not contain control characters other than '\\n'"@,
        opens_with(
            overflow_text(n, budget),
            "the version's DSL is "@ + digits(n) + " bytes against a "@,
        ),
        closes_with(
            overflow_text(n, budget),
            " bytes against a "@ + digits(budget) + "-byte budget"@,
        ),
        opens_with(
            validation_errors_text(errors),
            "strategy validation failed with "@ + digits(errors.len()),
        ),
        closes_with(validation_errors_text(errors), digits(errors.len()) + " error(s)"@),
        opens_with(no_price_text(word), "no price for model "@),
        closes_with(no_price_text(word), word),
        opens_with(unrenderable_text(word), "the version's DSL could not be rendered: "@),
        closes_with(unrenderable_text(word), word),
{
    lemma_two("agent_name must be 1-64 characters, got "@, digits(n));
    lemma_two("hypothesis must be 1-2000 characters after trimming, got "@, digits(n));
    lemma_five(
        "the version's DSL is "@,
        digits(n),
        " bytes against a "@,
        digits(budget),
        "-byte budget"@,
    );
    lemma_three("strategy validation failed with "@, digits(errors.len()), " error(s)"@);
    lemma_two("no price for model "@, word);
    lemma_two("the version's DSL could not be rendered: "@, word);
}

} // verus!
