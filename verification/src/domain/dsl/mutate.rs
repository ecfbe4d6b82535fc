//! One typed mutation over a strategy document: retune a single numeric leaf.
//!
//! A leaf is addressed by the locator that validation uses for it. [`apply`] never
//! touches its input: it writes the value into a copy, which is then validated and
//! compiled, so a candidate is both.
use crate::decimal::Decimal;
use crate::domain::dsl::compile::{
    compile, compile_error_text, strategy_refusal, CompileError, CompileErrorView,
};
use crate::domain::dsl::condition::{condition_views, Condition, ConditionView};
use crate::domain::dsl::exit::{exit_views, ExitRule, ExitRuleView};
use crate::domain::dsl::risk::RiskParams;
use crate::domain::dsl::strategy::{StrategyDsl, StrategyDslView};
use crate::domain::dsl::sweepable::SweepableValue;
use crate::domain::dsl::validate::{
    member, member_path, strategy_errors, valid_strategy, validate, validation_errors_text,
    FieldErrorView, ValidatedDsl, ValidationErrors,
};
use crate::domain::dsl::value::{IndicatorSpec, ValueSource};
use crate::text::{concat2, concat3, contents};
use vstd::prelude::*;
use vstd::string::*;

verus! {

/// Which numeric a leaf holds.
#[derive(Clone, Copy, Debug, PartialEq, Eq, Structural)]
pub enum ParamKind {
    /// An indicator period or a bar count.
    Period,
    /// A threshold, distance, R-multiple or risk fraction.
    Threshold,
}

/// The display text of a kind.
pub open spec fn kind_text(kind: ParamKind) -> Seq<char> {
    match kind {
        ParamKind::Period => "period (u32)"@,
        ParamKind::Threshold => "threshold (Decimal)"@,
    }
}

impl ParamKind {
    /// The display text of the kind.
    pub fn to_string(&self) -> (t: String)
        ensures
            t@ == kind_text(*self),
    {
        match self {
            ParamKind::Period => "period (u32)".to_owned(),
            ParamKind::Threshold => "threshold (Decimal)".to_owned(),
        }
    }
}

/// A typed number offered for a leaf.
#[derive(Clone, Copy, Debug, PartialEq, Eq)]
pub enum ParamValue {
    /// A period or a bar count.
    Period {
        /// The new period.
        value: u32,
    },
    /// A threshold, distance, multiple or fraction.
    Threshold {
        /// The new threshold.
        value: Decimal,
    },
}

/// The kind of leaf a value can be written into.
pub open spec fn value_kind(v: ParamValue) -> ParamKind {
    match v {
        ParamValue::Period { .. } => ParamKind::Period,
        ParamValue::Threshold { .. } => ParamKind::Threshold,
    }
}

impl ParamValue {
    /// The kind of leaf this value can be written into.
    pub fn kind(&self) -> (k: ParamKind)
        ensures
            k == value_kind(*self),
    {
        match self {
            ParamValue::Period { .. } => ParamKind::Period,
            ParamValue::Threshold { .. } => ParamKind::Threshold,
        }
    }
}

/// One mutation of a strategy document.
#[derive(Debug, PartialEq, Eq)]
pub enum Mutation {
    /// Retune one numeric leaf.
    SetParam {
        /// The locator of the leaf to retune.
        path: String,
        /// The value to write there.
        new_value: ParamValue,
    },
}

/// The mathematical model of a [`Mutation`].
pub struct MutationView {
    pub path: Seq<char>,
    pub new_value: ParamValue,
}

impl View for Mutation {
    type V = MutationView;

    open spec fn view(&self) -> MutationView {
        match self {
            Mutation::SetParam { path, new_value } => MutationView {
                path: path@,
                new_value: *new_value,
            },
        }
    }
}

impl Clone for Mutation {
    fn clone(&self) -> (r: Mutation)
        ensures
            r == *self,
    {
        match self {
            Mutation::SetParam { path, new_value } => Mutation::SetParam {
                path: path.clone(),
                new_value: *new_value,
            },
        }
    }
}

// ---------------------------------------------------------------------------
// The leaves of a document.
// ---------------------------------------------------------------------------

/// The content of a leaf.
#[derive(Clone, Copy, Debug)]
pub enum LeafValue {
    /// A period or a bar count.
    Period(SweepableValue<u32>),
    /// A threshold, distance, multiple or fraction.
    Threshold(SweepableValue<Decimal>),
}

/// The kind of a leaf.
pub open spec fn leaf_kind(v: LeafValue) -> ParamKind {
    match v {
        LeafValue::Period(_) => ParamKind::Period,
        LeafValue::Threshold(_) => ParamKind::Threshold,
    }
}

/// A leaf with its locator.
pub struct LeafView {
    pub path: Seq<char>,
    pub value: LeafValue,
}

/// A leaf that holds a period.
pub open spec fn period_leaf(path: Seq<char>, v: SweepableValue<u32>) -> LeafView {
    LeafView { path, value: LeafValue::Period(v) }
}

/// A leaf that holds a threshold.
pub open spec fn threshold_leaf(path: Seq<char>, v: SweepableValue<Decimal>) -> LeafView {
    LeafView { path, value: LeafValue::Threshold(v) }
}

/// The leaves of an indicator.
pub open spec fn indicator_leaves(spec: IndicatorSpec, path: Seq<char>) -> Seq<LeafView> {
    match spec {
        IndicatorSpec::Rsi { period } => seq![period_leaf(path + ".rsi.period"@, period)],
        IndicatorSpec::Ema { period } => seq![period_leaf(path + ".ema.period"@, period)],
        IndicatorSpec::Adx { period } => seq![period_leaf(path + ".adx.period"@, period)],
        IndicatorSpec::Macd { fast, slow, signal } => seq![
            period_leaf(path + ".macd.fast"@, fast),
            period_leaf(path + ".macd.slow"@, slow),
            period_leaf(path + ".macd.signal"@, signal),
        ],
        IndicatorSpec::Atr { period } => seq![period_leaf(path + ".atr.period"@, period)],
    }
}

/// The leaves of an operand.
pub open spec fn value_leaves(v: ValueSource, path: Seq<char>) -> Seq<LeafView> {
    match v {
        ValueSource::Indicator { spec, .. } => indicator_leaves(spec, path + ".indicator"@),
        _ => Seq::empty(),
    }
}

/// The leaves of two operands.
pub open spec fn operand_leaves(lhs: ValueSource, rhs: ValueSource, path: Seq<char>) -> Seq<
    LeafView,
> {
    value_leaves(lhs, path + ".lhs"@) + value_leaves(rhs, path + ".rhs"@)
}

/// The leaves of a condition tree.
pub open spec fn condition_leaves(c: ConditionView, path: Seq<char>) -> Seq<LeafView>
    decreases c, 0nat,
{
    match c {
        ConditionView::Compare { lhs, op, rhs } => operand_leaves(lhs, rhs, path),
        ConditionView::CrossesAbove { lhs, rhs } => operand_leaves(lhs, rhs, path),
        ConditionView::CrossesBelow { lhs, rhs } => operand_leaves(lhs, rhs, path),
        ConditionView::And { conditions } => member_leaves(
            conditions,
            path + ".and["@,
            conditions.len(),
        ),
        ConditionView::Or { conditions } => member_leaves(
            conditions,
            path + ".or["@,
            conditions.len(),
        ),
        ConditionView::Not { condition } => condition_leaves(*condition, path + ".not"@),
    }
}

/// The leaves of the first `n` conditions of a list.
pub open spec fn member_leaves(conditions: Seq<ConditionView>, stem: Seq<char>, n: nat) -> Seq<
    LeafView,
>
    decreases conditions, n,
{
    if n == 0 || n > conditions.len() {
        Seq::empty()
    } else {
        member_leaves(conditions, stem, (n - 1) as nat) + condition_leaves(
            conditions[n - 1],
            member_path(stem, (n - 1) as nat),
        )
    }
}

/// The leaves of an exit rule.
pub open spec fn exit_leaves(e: ExitRuleView, base: Seq<char>) -> Seq<LeafView> {
    match e {
        ExitRuleView::StopLoss { distance_pct } => seq![
            threshold_leaf(base + ".distance_pct"@, distance_pct),
        ],
        ExitRuleView::TakeProfit { target_r } => seq![threshold_leaf(base + ".target_r"@, target_r)],
        ExitRuleView::TrailingStop { trail_pct } => seq![
            threshold_leaf(base + ".trail_pct"@, trail_pct),
        ],
        ExitRuleView::TimeStop { max_bars } => seq![period_leaf(base + ".max_bars"@, max_bars)],
        ExitRuleView::SignalExit { condition } => condition_leaves(condition, base + ".condition"@),
        ExitRuleView::AtrStop { period, multiple } => seq![
            period_leaf(base + ".period"@, period),
            threshold_leaf(base + ".multiple"@, multiple),
        ],
    }
}

/// The leaves of the first `n` exit rules.
pub open spec fn exits_leaves(exits: Seq<ExitRuleView>, n: nat) -> Seq<LeafView>
    decreases n,
{
    if n == 0 || n > exits.len() {
        Seq::empty()
    } else {
        exits_leaves(exits, (n - 1) as nat) + exit_leaves(
            exits[n - 1],
            member_path("exits["@, (n - 1) as nat),
        )
    }
}

/// The leaves of the risk inputs.
pub open spec fn risk_leaves(risk: RiskParams) -> Seq<LeafView> {
    seq![
        threshold_leaf("risk.risk_per_trade_pct"@, risk.risk_per_trade_pct),
        threshold_leaf("risk.max_leverage"@, risk.max_leverage),
    ]
}

/// Every numeric leaf of a document, in traversal order: the entry, the filters,
/// the exits, the risk inputs.
pub open spec fn strategy_leaves(dsl: StrategyDslView) -> Seq<LeafView> {
    condition_leaves(dsl.entry, "entry"@) + member_leaves(
        dsl.filters,
        "filters["@,
        dsl.filters.len(),
    ) + exits_leaves(dsl.exits, dsl.exits.len()) + risk_leaves(dsl.risk)
}

/// The locators of a list of leaves.
pub open spec fn leaf_paths(leaves: Seq<LeafView>) -> Seq<Seq<char>> {
    leaves.map_values(|l: LeafView| l.path)
}

/// The content of the first leaf at a locator, among the first `n` of a list.
pub open spec fn leaf_at(leaves: Seq<LeafView>, path: Seq<char>, n: nat) -> Option<LeafValue>
    decreases n,
{
    if n == 0 || n > leaves.len() {
        None
    } else {
        let earlier = leaf_at(leaves, path, (n - 1) as nat);
        if earlier is Some {
            earlier
        } else if leaves[n - 1].path == path {
            Some(leaves[n - 1].value)
        } else {
            None
        }
    }
}

// ---------------------------------------------------------------------------
// Writing a leaf.
// ---------------------------------------------------------------------------

/// A period leaf after a write at `target`.
pub open spec fn put_period(
    v: SweepableValue<u32>,
    path: Seq<char>,
    target: Seq<char>,
    new: ParamValue,
) -> SweepableValue<u32> {
    match new {
        ParamValue::Period { value } => if path == target {
            SweepableValue::Fixed(value)
        } else {
            v
        },
        _ => v,
    }
}

/// A threshold leaf after a write at `target`.
pub open spec fn put_threshold(
    v: SweepableValue<Decimal>,
    path: Seq<char>,
    target: Seq<char>,
    new: ParamValue,
) -> SweepableValue<Decimal> {
    match new {
        ParamValue::Threshold { value } => if path == target {
            SweepableValue::Fixed(value)
        } else {
            v
        },
        _ => v,
    }
}

/// An indicator after a write at `target`.
pub open spec fn put_indicator(
    spec: IndicatorSpec,
    path: Seq<char>,
    target: Seq<char>,
    new: ParamValue,
) -> IndicatorSpec {
    match spec {
        IndicatorSpec::Rsi { period } => IndicatorSpec::Rsi {
            period: put_period(period, path + ".rsi.period"@, target, new),
        },
        IndicatorSpec::Ema { period } => IndicatorSpec::Ema {
            period: put_period(period, path + ".ema.period"@, target, new),
        },
        IndicatorSpec::Adx { period } => IndicatorSpec::Adx {
            period: put_period(period, path + ".adx.period"@, target, new),
        },
        IndicatorSpec::Macd { fast, slow, signal } => IndicatorSpec::Macd {
            fast: put_period(fast, path + ".macd.fast"@, target, new),
            slow: put_period(slow, path + ".macd.slow"@, target, new),
            signal: put_period(signal, path + ".macd.signal"@, target, new),
        },
        IndicatorSpec::Atr { period } => IndicatorSpec::Atr {
            period: put_period(period, path + ".atr.period"@, target, new),
        },
    }
}

/// An operand after a write at `target`.
pub open spec fn put_value(
    v: ValueSource,
    path: Seq<char>,
    target: Seq<char>,
    new: ParamValue,
) -> ValueSource {
    match v {
        ValueSource::Indicator { series, spec } => ValueSource::Indicator {
            series,
            spec: put_indicator(spec, path + ".indicator"@, target, new),
        },
        _ => v,
    }
}

/// A condition tree after a write at `target`.
pub open spec fn put_condition(
    c: ConditionView,
    path: Seq<char>,
    target: Seq<char>,
    new: ParamValue,
) -> ConditionView
    decreases c,
{
    match c {
        ConditionView::Compare { lhs, op, rhs } => ConditionView::Compare {
            lhs: put_value(lhs, path + ".lhs"@, target, new),
            op,
            rhs: put_value(rhs, path + ".rhs"@, target, new),
        },
        ConditionView::CrossesAbove { lhs, rhs } => ConditionView::CrossesAbove {
            lhs: put_value(lhs, path + ".lhs"@, target, new),
            rhs: put_value(rhs, path + ".rhs"@, target, new),
        },
        ConditionView::CrossesBelow { lhs, rhs } => ConditionView::CrossesBelow {
            lhs: put_value(lhs, path + ".lhs"@, target, new),
            rhs: put_value(rhs, path + ".rhs"@, target, new),
        },
        ConditionView::And { conditions } => ConditionView::And {
            conditions: put_conditions(conditions, path + ".and["@, target, new),
        },
        ConditionView::Or { conditions } => ConditionView::Or {
            conditions: put_conditions(conditions, path + ".or["@, target, new),
        },
        ConditionView::Not { condition } => ConditionView::Not {
            condition: Box::new(put_condition(*condition, path + ".not"@, target, new)),
        },
    }
}

/// A list of conditions after a write at `target`.
pub open spec fn put_conditions(
    conditions: Seq<ConditionView>,
    stem: Seq<char>,
    target: Seq<char>,
    new: ParamValue,
) -> Seq<ConditionView>
    decreases conditions,
{
    Seq::new(
        conditions.len(),
        |i: int|
            if 0 <= i < conditions.len() {
                put_condition(conditions[i], member_path(stem, i as nat), target, new)
            } else {
                arbitrary()
            },
    )
}

/// An exit rule after a write at `target`.
pub open spec fn put_exit(
    e: ExitRuleView,
    base: Seq<char>,
    target: Seq<char>,
    new: ParamValue,
) -> ExitRuleView {
    match e {
        ExitRuleView::StopLoss { distance_pct } => ExitRuleView::StopLoss {
            distance_pct: put_threshold(distance_pct, base + ".distance_pct"@, target, new),
        },
        ExitRuleView::TakeProfit { target_r } => ExitRuleView::TakeProfit {
            target_r: put_threshold(target_r, base + ".target_r"@, target, new),
        },
        ExitRuleView::TrailingStop { trail_pct } => ExitRuleView::TrailingStop {
            trail_pct: put_threshold(trail_pct, base + ".trail_pct"@, target, new),
        },
        ExitRuleView::TimeStop { max_bars } => ExitRuleView::TimeStop {
            max_bars: put_period(max_bars, base + ".max_bars"@, target, new),
        },
        ExitRuleView::SignalExit { condition } => ExitRuleView::SignalExit {
            condition: put_condition(condition, base + ".condition"@, target, new),
        },
        ExitRuleView::AtrStop { period, multiple } => ExitRuleView::AtrStop {
            period: put_period(period, base + ".period"@, target, new),
            multiple: put_threshold(multiple, base + ".multiple"@, target, new),
        },
    }
}

/// A list of exit rules after a write at `target`.
pub open spec fn put_exits(exits: Seq<ExitRuleView>, target: Seq<char>, new: ParamValue) -> Seq<
    ExitRuleView,
> {
    Seq::new(
        exits.len(),
        |i: int| put_exit(exits[i], member_path("exits["@, i as nat), target, new),
    )
}

/// The risk inputs after a write at `target`.
pub open spec fn put_risk(risk: RiskParams, target: Seq<char>, new: ParamValue) -> RiskParams {
    RiskParams {
        risk_per_trade_pct: put_threshold(
            risk.risk_per_trade_pct,
            "risk.risk_per_trade_pct"@,
            target,
            new,
        ),
        max_leverage: put_threshold(risk.max_leverage, "risk.max_leverage"@, target, new),
    }
}

/// A document after a write at `target`: the leaf there is fixed to the new value,
/// everything else is as it was.
pub open spec fn put_strategy(
    dsl: StrategyDslView,
    target: Seq<char>,
    new: ParamValue,
) -> StrategyDslView {
    StrategyDslView {
        entry: put_condition(dsl.entry, "entry"@, target, new),
        filters: put_conditions(dsl.filters, "filters["@, target, new),
        exits: put_exits(dsl.exits, target, new),
        risk: put_risk(dsl.risk, target, new),
        ..dsl
    }
}

/// Whether a leaf already holds a value: it is fixed, to the same number.
pub open spec fn already_holds(leaf: LeafValue, new: ParamValue) -> bool {
    match (leaf, new) {
        (LeafValue::Period(SweepableValue::Fixed(current)), ParamValue::Period { value }) => current
            == value,
        (
            LeafValue::Threshold(SweepableValue::Fixed(current)),
            ParamValue::Threshold { value },
        ) => current.units() == value.units(),
        _ => false,
    }
}

// ---------------------------------------------------------------------------
// Errors and candidates.
// ---------------------------------------------------------------------------

/// Every way [`apply`] can decline a mutation.
#[derive(Debug, PartialEq, Eq)]
pub enum MutationError {
    /// The locator addresses no numeric leaf of this strategy.
    UnknownPath {
        /// The locator that addressed nothing.
        path: String,
    },
    /// The leaf holds the other kind of number.
    TypeMismatch {
        /// The addressed leaf.
        path: String,
        /// The kind the leaf holds.
        expected: ParamKind,
        /// The kind the mutation offered.
        offered: ParamKind,
    },
    /// The leaf already holds the offered value.
    NoChange {
        /// The leaf that already holds it.
        path: String,
    },
    /// The mutated strategy breaks a rule.
    ValidationFailed {
        /// The mutated leaf.
        path: String,
        /// Every violation the candidate carries.
        errors: ValidationErrors,
    },
    /// The candidate is valid but does not compile.
    CompileFailed {
        /// The mutated leaf.
        path: String,
        /// The compiler's reason.
        source: CompileError,
    },
}

/// The mathematical model of a [`MutationError`].
pub enum MutationErrorView {
    UnknownPath { path: Seq<char> },
    TypeMismatch { path: Seq<char>, expected: ParamKind, offered: ParamKind },
    NoChange { path: Seq<char> },
    ValidationFailed { path: Seq<char>, errors: Seq<FieldErrorView> },
    CompileFailed { path: Seq<char>, source: CompileErrorView },
}

impl View for MutationError {
    type V = MutationErrorView;

    open spec fn view(&self) -> MutationErrorView {
        match self {
            MutationError::UnknownPath { path } => MutationErrorView::UnknownPath { path: path@ },
            MutationError::TypeMismatch { path, expected, offered } => {
                MutationErrorView::TypeMismatch {
                    path: path@,
                    expected: *expected,
                    offered: *offered,
                }
            },
            MutationError::NoChange { path } => MutationErrorView::NoChange { path: path@ },
            MutationError::ValidationFailed { path, errors } => {
                MutationErrorView::ValidationFailed { path: path@, errors: errors@ }
            },
            MutationError::CompileFailed { path, source } => MutationErrorView::CompileFailed {
                path: path@,
                source: source@,
            },
        }
    }
}

impl Clone for MutationError {
    fn clone(&self) -> (r: MutationError)
        ensures
            r@ == self@,
    {
        match self {
            MutationError::UnknownPath { path } => MutationError::UnknownPath {
                path: path.clone(),
            },
            MutationError::TypeMismatch { path, expected, offered } => {
                MutationError::TypeMismatch {
                    path: path.clone(),
                    expected: *expected,
                    offered: *offered,
                }
            },
            MutationError::NoChange { path } => MutationError::NoChange { path: path.clone() },
            MutationError::ValidationFailed { path, errors } => MutationError::ValidationFailed {
                path: path.clone(),
                errors: errors.clone(),
            },
            MutationError::CompileFailed { path, source } => MutationError::CompileFailed {
                path: path.clone(),
                source: source.clone(),
            },
        }
    }
}

/// The text of a mutation error.
pub open spec fn mutation_error_text(e: MutationErrorView) -> Seq<char> {
    match e {
        MutationErrorView::UnknownPath { path } => "no sweepable parameter is addressable at `"@
            + path + "`"@,
        MutationErrorView::TypeMismatch { path, expected, offered } => "`"@ + path + "` is a "@
            + kind_text(expected) + " leaf, but the mutation offered a "@ + kind_text(offered)
            + " value"@,
        MutationErrorView::NoChange { path } => "`"@ + path
            + "` already holds the offered value; the mutation would change nothing"@,
        MutationErrorView::ValidationFailed { path, errors } =>
            "the candidate produced by mutating `"@ + path + "` failed validation: "@
            + validation_errors_text(errors),
        MutationErrorView::CompileFailed { path, source } => "the candidate produced by mutating `"@
            + path + "` failed to compile: "@ + compile_error_text(source),
    }
}

impl MutationError {
    /// The text of the error.
    pub fn to_string(&self) -> (t: String)
        ensures
            t@ == mutation_error_text(self@),
    {
        match self {
            MutationError::UnknownPath { path } => concat3(
                "no sweepable parameter is addressable at `",
                path.as_str(),
                "`",
            ),
            MutationError::TypeMismatch { path, expected, offered } => {
                let mut t = concat3("`", path.as_str(), "` is a ");
                t.append(expected.to_string().as_str());
                t.append(" leaf, but the mutation offered a ");
                t.append(offered.to_string().as_str());
                t.append(" value");
                t
            },
            MutationError::NoChange { path } => concat3(
                "`",
                path.as_str(),
                "` already holds the offered value; the mutation would change nothing",
            ),
            MutationError::ValidationFailed { path, errors } => {
                let mut t = concat3(
                    "the candidate produced by mutating `",
                    path.as_str(),
                    "` failed validation: ",
                );
                t.append(errors.to_string().as_str());
                t
            },
            MutationError::CompileFailed { path, source } => {
                let mut t = concat3(
                    "the candidate produced by mutating `",
                    path.as_str(),
                    "` failed to compile: ",
                );
                t.append(source.to_string().as_str());
                t
            },
        }
    }
}

/// A mutated strategy that is valid and compiles. Only [`apply`] makes one.
#[derive(Debug, PartialEq, Eq)]
pub struct CandidateDsl {
    validated: ValidatedDsl,
}

impl View for CandidateDsl {
    type V = StrategyDslView;

    closed spec fn view(&self) -> StrategyDslView {
        self.validated@
    }
}

impl CandidateDsl {
    #[verifier::type_invariant]
    spec fn compiles(self) -> bool {
        strategy_refusal(self.validated@) is None
    }

    /// The mutated document.
    pub fn dsl(&self) -> (r: &StrategyDsl)
        ensures
            r@ == self@,
            valid_strategy(r@),
            strategy_refusal(r@) is None,
    {
        proof {
            use_type_invariant(self);
        }
        self.validated.dsl()
    }

    /// The validated form, ready to compile.
    pub fn validated(&self) -> (r: &ValidatedDsl)
        ensures
            r@ == self@,
            strategy_refusal(r@) is None,
    {
        proof {
            use_type_invariant(self);
        }
        &self.validated
    }

    /// The owned validated form.
    pub fn into_validated(self) -> (r: ValidatedDsl)
        ensures
            r@ == self@,
            strategy_refusal(r@) is None,
    {
        proof {
            use_type_invariant(&self);
        }
        self.validated
    }
}

impl Clone for CandidateDsl {
    fn clone(&self) -> (r: CandidateDsl)
        ensures
            r@ == self@,
    {
        proof {
            use_type_invariant(self);
        }
        CandidateDsl { validated: self.validated.clone() }
    }
}

// ---------------------------------------------------------------------------
// The walk over the leaves.
// ---------------------------------------------------------------------------

/// A leaf with its locator.
struct Leaf {
    path: String,
    value: LeafValue,
}

impl View for Leaf {
    type V = LeafView;

    closed spec fn view(&self) -> LeafView {
        LeafView { path: self.path@, value: self.value }
    }
}

spec fn leaf_views(leaves: Seq<Leaf>) -> Seq<LeafView> {
    leaves.map_values(|l: Leaf| l@)
}

fn push_period(path: String, v: &SweepableValue<u32>, leaves: &mut Vec<Leaf>)
    ensures
        leaf_views(final(leaves)@) == leaf_views(old(leaves)@) + seq![period_leaf(path@, *v)],
{
    let ghost before = leaves@;
    let leaf = Leaf { path, value: LeafValue::Period(*v) };
    leaves.push(leaf);
    assert(leaf_views(leaves@) =~= leaf_views(before) + seq![leaf@]);
}

fn push_threshold(path: String, v: &SweepableValue<Decimal>, leaves: &mut Vec<Leaf>)
    ensures
        leaf_views(final(leaves)@) == leaf_views(old(leaves)@) + seq![threshold_leaf(path@, *v)],
{
    let ghost before = leaves@;
    let leaf = Leaf { path, value: LeafValue::Threshold(*v) };
    leaves.push(leaf);
    assert(leaf_views(leaves@) =~= leaf_views(before) + seq![leaf@]);
}

fn visit_value_source(v: &ValueSource, path: &str, leaves: &mut Vec<Leaf>)
    ensures
        leaf_views(final(leaves)@) == leaf_views(old(leaves)@) + value_leaves(*v, path@),
{
    let ghost before = leaf_views(leaves@);
    if let ValueSource::Indicator { spec, .. } = v {
        let base = concat2(path, ".indicator");
        match spec {
            IndicatorSpec::Rsi { period } => {
                push_period(concat2(base.as_str(), ".rsi.period"), period, leaves);
            },
            IndicatorSpec::Ema { period } => {
                push_period(concat2(base.as_str(), ".ema.period"), period, leaves);
            },
            IndicatorSpec::Adx { period } => {
                push_period(concat2(base.as_str(), ".adx.period"), period, leaves);
            },
            IndicatorSpec::Macd { fast, slow, signal } => {
                push_period(concat2(base.as_str(), ".macd.fast"), fast, leaves);
                push_period(concat2(base.as_str(), ".macd.slow"), slow, leaves);
                push_period(concat2(base.as_str(), ".macd.signal"), signal, leaves);
            },
            IndicatorSpec::Atr { period } => {
                push_period(concat2(base.as_str(), ".atr.period"), period, leaves);
            },
        }
    }
    assert(leaf_views(leaves@) =~= before + value_leaves(*v, path@));
}

fn visit_operands(lhs: &ValueSource, rhs: &ValueSource, path: &str, leaves: &mut Vec<Leaf>)
    ensures
        leaf_views(final(leaves)@) == leaf_views(old(leaves)@) + operand_leaves(*lhs, *rhs, path@),
{
    let ghost before = leaf_views(leaves@);
    visit_value_source(lhs, concat2(path, ".lhs").as_str(), leaves);
    visit_value_source(rhs, concat2(path, ".rhs").as_str(), leaves);
    assert(leaf_views(leaves@) =~= before + operand_leaves(*lhs, *rhs, path@));
}

fn visit_members(conditions: &Vec<Condition>, stem: &str, leaves: &mut Vec<Leaf>)
    ensures
        leaf_views(final(leaves)@) == leaf_views(old(leaves)@) + member_leaves(
            condition_views(conditions@),
            stem@,
            conditions@.len(),
        ),
    decreases conditions,
{
    let ghost before = leaf_views(leaves@);
    let ghost views = condition_views(conditions@);
    let n = conditions.len();
    assert(before =~= before + member_leaves(views, stem@, 0));
    for i in 0..n
        invariant
            n == conditions.len(),
            views == condition_views(conditions@),
            leaf_views(leaves@) == before + member_leaves(views, stem@, i as nat),
    {
        let path = member(stem, i);
        visit_condition(&conditions[i], path.as_str(), leaves);
        assert(views[i as int] == conditions@[i as int]@);
        assert(leaf_views(leaves@) =~= before + member_leaves(views, stem@, (i + 1) as nat));
    }
}

fn visit_condition(cond: &Condition, path: &str, leaves: &mut Vec<Leaf>)
    ensures
        leaf_views(final(leaves)@) == leaf_views(old(leaves)@) + condition_leaves(cond@, path@),
    decreases cond,
{
    match cond {
        Condition::Compare { lhs, rhs, .. } => visit_operands(lhs, rhs, path, leaves),
        Condition::CrossesAbove { lhs, rhs } => visit_operands(lhs, rhs, path, leaves),
        Condition::CrossesBelow { lhs, rhs } => visit_operands(lhs, rhs, path, leaves),
        Condition::And { conditions } => {
            visit_members(conditions, concat2(path, ".and[").as_str(), leaves)
        },
        Condition::Or { conditions } => {
            visit_members(conditions, concat2(path, ".or[").as_str(), leaves)
        },
        Condition::Not { condition } => {
            visit_condition(condition, concat2(path, ".not").as_str(), leaves)
        },
    }
}

fn visit_exit(exit: &ExitRule, base: &str, leaves: &mut Vec<Leaf>)
    ensures
        leaf_views(final(leaves)@) == leaf_views(old(leaves)@) + exit_leaves(exit@, base@),
{
    let ghost before = leaf_views(leaves@);
    match exit {
        ExitRule::StopLoss { distance_pct } => {
            push_threshold(concat2(base, ".distance_pct"), distance_pct, leaves)
        },
        ExitRule::TakeProfit { target_r } => {
            push_threshold(concat2(base, ".target_r"), target_r, leaves)
        },
        ExitRule::TrailingStop { trail_pct } => {
            push_threshold(concat2(base, ".trail_pct"), trail_pct, leaves)
        },
        ExitRule::TimeStop { max_bars } => {
            push_period(concat2(base, ".max_bars"), max_bars, leaves)
        },
        ExitRule::SignalExit { condition } => {
            visit_condition(condition, concat2(base, ".condition").as_str(), leaves)
        },
        ExitRule::AtrStop { period, multiple } => {
            push_period(concat2(base, ".period"), period, leaves);
            push_threshold(concat2(base, ".multiple"), multiple, leaves);
        },
    }
    assert(leaf_views(leaves@) =~= before + exit_leaves(exit@, base@));
}

/// Every numeric leaf, in the order of validation.
fn visit_leaves(dsl: &StrategyDsl) -> (leaves: Vec<Leaf>)
    ensures
        leaf_views(leaves@) == strategy_leaves(dsl@),
{
    let mut leaves: Vec<Leaf> = Vec::new();
    let ghost views = exit_views(dsl.exits@);
    visit_condition(&dsl.entry, "entry", &mut leaves);
    visit_members(&dsl.filters, "filters[", &mut leaves);
    let ghost before = leaf_views(leaves@);
    let n = dsl.exits.len();
    assert(before =~= before + exits_leaves(views, 0));
    for i in 0..n
        invariant
            n == dsl.exits.len(),
            views == exit_views(dsl.exits@),
            leaf_views(leaves@) == before + exits_leaves(views, i as nat),
    {
        let base = member("exits[", i);
        visit_exit(&dsl.exits[i], base.as_str(), &mut leaves);
        assert(views[i as int] == dsl.exits@[i as int]@);
        assert(leaf_views(leaves@) =~= before + exits_leaves(views, (i + 1) as nat));
    }
    push_threshold(
        "risk.risk_per_trade_pct".to_owned(),
        &dsl.risk.risk_per_trade_pct,
        &mut leaves,
    );
    push_threshold("risk.max_leverage".to_owned(), &dsl.risk.max_leverage, &mut leaves);
    assert(leaf_views(leaves@) =~= strategy_leaves(dsl@));
    leaves
}

/// The locator of every numeric leaf of a document, in traversal order.
pub fn sweepable_paths(dsl: &StrategyDsl) -> (paths: Vec<String>)
    ensures
        contents(paths@) == leaf_paths(strategy_leaves(dsl@)),
{
    let leaves = visit_leaves(dsl);
    let n = leaves.len();
    let mut paths: Vec<String> = Vec::new();
    for i in 0..n
        invariant
            n == leaves.len(),
            leaf_views(leaves@) == strategy_leaves(dsl@),
            paths.len() == i,
            forall|j: int|
                0 <= j < i ==> (#[trigger] paths@[j])@ == strategy_leaves(dsl@)[j].path,
    {
        assert(strategy_leaves(dsl@)[i as int] == leaves@[i as int]@);
        let path = leaves[i].path.clone();
        paths.push(path);
    }
    assert(contents(paths@) =~= leaf_paths(strategy_leaves(dsl@)));
    paths
}

/// The leaf at a locator.
fn find_leaf(dsl: &StrategyDsl, path: &String) -> (r: Option<LeafValue>)
    ensures
        r == leaf_at(strategy_leaves(dsl@), path@, strategy_leaves(dsl@).len()),
{
    let leaves = visit_leaves(dsl);
    let n = leaves.len();
    let ghost views = strategy_leaves(dsl@);
    let mut found: Option<LeafValue> = None;
    for i in 0..n
        invariant
            n == leaves.len(),
            views == leaf_views(leaves@),
            found == leaf_at(views, path@, i as nat),
    {
        assert(views[i as int] == leaves@[i as int]@);
        if found.is_none() && leaves[i].path == *path {
            found = Some(leaves[i].value);
        }
    }
    found
}

fn write_period(v: &SweepableValue<u32>, path: String, target: &String, new: &ParamValue) -> (r:
    SweepableValue<u32>)
    ensures
        r == put_period(*v, path@, target@, *new),
{
    match new {
        ParamValue::Period { value } => {
            if path == *target {
                SweepableValue::Fixed(*value)
            } else {
                *v
            }
        },
        ParamValue::Threshold { .. } => *v,
    }
}

fn write_threshold(
    v: &SweepableValue<Decimal>,
    path: String,
    target: &String,
    new: &ParamValue,
) -> (r: SweepableValue<Decimal>)
    ensures
        r == put_threshold(*v, path@, target@, *new),
{
    match new {
        ParamValue::Threshold { value } => {
            if path == *target {
                SweepableValue::Fixed(*value)
            } else {
                *v
            }
        },
        ParamValue::Period { .. } => *v,
    }
}

fn write_indicator(spec: &IndicatorSpec, path: &str, target: &String, new: &ParamValue) -> (r:
    IndicatorSpec)
    ensures
        r == put_indicator(*spec, path@, target@, *new),
{
    match spec {
        IndicatorSpec::Rsi { period } => IndicatorSpec::Rsi {
            period: write_period(period, concat2(path, ".rsi.period"), target, new),
        },
        IndicatorSpec::Ema { period } => IndicatorSpec::Ema {
            period: write_period(period, concat2(path, ".ema.period"), target, new),
        },
        IndicatorSpec::Adx { period } => IndicatorSpec::Adx {
            period: write_period(period, concat2(path, ".adx.period"), target, new),
        },
        IndicatorSpec::Macd { fast, slow, signal } => IndicatorSpec::Macd {
            fast: write_period(fast, concat2(path, ".macd.fast"), target, new),
            slow: write_period(slow, concat2(path, ".macd.slow"), target, new),
            signal: write_period(signal, concat2(path, ".macd.signal"), target, new),
        },
        IndicatorSpec::Atr { period } => IndicatorSpec::Atr {
            period: write_period(period, concat2(path, ".atr.period"), target, new),
        },
    }
}

fn write_value(v: &ValueSource, path: String, target: &String, new: &ParamValue) -> (r: ValueSource)
    ensures
        r == put_value(*v, path@, target@, *new),
{
    match v {
        ValueSource::Indicator { series, spec } => ValueSource::Indicator {
            series: *series,
            spec: write_indicator(
                spec,
                concat2(path.as_str(), ".indicator").as_str(),
                target,
                new,
            ),
        },
        ValueSource::Constant { value } => ValueSource::Constant { value: *value },
        ValueSource::Price { series, field } => ValueSource::Price {
            series: *series,
            field: *field,
        },
    }
}

fn write_conditions(
    conditions: &Vec<Condition>,
    stem: &str,
    target: &String,
    new: &ParamValue,
) -> (r: Vec<Condition>)
    ensures
        condition_views(r@) == put_conditions(
            condition_views(conditions@),
            stem@,
            target@,
            *new,
        ),
    decreases conditions,
{
    let ghost views = condition_views(conditions@);
    let n = conditions.len();
    let mut out: Vec<Condition> = Vec::new();
    for i in 0..n
        invariant
            n == conditions.len(),
            views == condition_views(conditions@),
            out.len() == i,
            forall|j: int|
                0 <= j < i ==> (#[trigger] out@[j]).model() == put_condition(
                    views[j],
                    member_path(stem@, j as nat),
                    target@,
                    *new,
                ),
    {
        assert(views[i as int] == conditions@[i as int]@);
        let path = member(stem, i);
        let c = write_condition(&conditions[i], path.as_str(), target, new);
        out.push(c);
    }
    assert(condition_views(out@) =~= put_conditions(views, stem@, target@, *new));
    out
}

fn write_condition(cond: &Condition, path: &str, target: &String, new: &ParamValue) -> (r:
    Condition)
    ensures
        r@ == put_condition(cond@, path@, target@, *new),
    decreases cond,
{
    match cond {
        Condition::Compare { lhs, op, rhs } => Condition::Compare {
            lhs: write_value(lhs, concat2(path, ".lhs"), target, new),
            op: *op,
            rhs: write_value(rhs, concat2(path, ".rhs"), target, new),
        },
        Condition::CrossesAbove { lhs, rhs } => Condition::CrossesAbove {
            lhs: write_value(lhs, concat2(path, ".lhs"), target, new),
            rhs: write_value(rhs, concat2(path, ".rhs"), target, new),
        },
        Condition::CrossesBelow { lhs, rhs } => Condition::CrossesBelow {
            lhs: write_value(lhs, concat2(path, ".lhs"), target, new),
            rhs: write_value(rhs, concat2(path, ".rhs"), target, new),
        },
        Condition::And { conditions } => Condition::And {
            conditions: write_conditions(
                conditions,
                concat2(path, ".and[").as_str(),
                target,
                new,
            ),
        },
        Condition::Or { conditions } => Condition::Or {
            conditions: write_conditions(conditions, concat2(path, ".or[").as_str(), target, new),
        },
        Condition::Not { condition } => Condition::Not {
            condition: Box::new(
                write_condition(condition, concat2(path, ".not").as_str(), target, new),
            ),
        },
    }
}

fn write_exit(exit: &ExitRule, base: &str, target: &String, new: &ParamValue) -> (r: ExitRule)
    ensures
        r@ == put_exit(exit@, base@, target@, *new),
{
    match exit {
        ExitRule::StopLoss { distance_pct } => ExitRule::StopLoss {
            distance_pct: write_threshold(
                distance_pct,
                concat2(base, ".distance_pct"),
                target,
                new,
            ),
        },
        ExitRule::TakeProfit { target_r } => ExitRule::TakeProfit {
            target_r: write_threshold(target_r, concat2(base, ".target_r"), target, new),
        },
        ExitRule::TrailingStop { trail_pct } => ExitRule::TrailingStop {
            trail_pct: write_threshold(trail_pct, concat2(base, ".trail_pct"), target, new),
        },
        ExitRule::TimeStop { max_bars } => ExitRule::TimeStop {
            max_bars: write_period(max_bars, concat2(base, ".max_bars"), target, new),
        },
        ExitRule::SignalExit { condition } => ExitRule::SignalExit {
            condition: write_condition(
                condition,
                concat2(base, ".condition").as_str(),
                target,
                new,
            ),
        },
        ExitRule::AtrStop { period, multiple } => ExitRule::AtrStop {
            period: write_period(period, concat2(base, ".period"), target, new),
            multiple: write_threshold(multiple, concat2(base, ".multiple"), target, new),
        },
    }
}

/// A copy of a document with a value written at a locator.
fn write_strategy(dsl: &StrategyDsl, target: &String, new: &ParamValue) -> (r: StrategyDsl)
    ensures
        r@ == put_strategy(dsl@, target@, *new),
{
    let ghost views = exit_views(dsl.exits@);
    let n = dsl.exits.len();
    let mut exits: Vec<ExitRule> = Vec::new();
    for i in 0..n
        invariant
            n == dsl.exits.len(),
            views == exit_views(dsl.exits@),
            exits.len() == i,
            forall|j: int|
                0 <= j < i ==> (#[trigger] exits@[j])@ == put_exit(
                    views[j],
                    member_path("exits["@, j as nat),
                    target@,
                    *new,
                ),
    {
        assert(views[i as int] == dsl.exits@[i as int]@);
        let base = member("exits[", i);
        let e = write_exit(&dsl.exits[i], base.as_str(), target, new);
        exits.push(e);
    }
    assert(exit_views(exits@) =~= put_exits(views, target@, *new));
    let risk = RiskParams {
        risk_per_trade_pct: write_threshold(
            &dsl.risk.risk_per_trade_pct,
            "risk.risk_per_trade_pct".to_owned(),
            target,
            new,
        ),
        max_leverage: write_threshold(
            &dsl.risk.max_leverage,
            "risk.max_leverage".to_owned(),
            target,
            new,
        ),
    };
    StrategyDsl {
        schema_version: dsl.schema_version,
        name: dsl.name.clone(),
        direction: dsl.direction,
        entry: write_condition(&dsl.entry, "entry", target, new),
        filters: write_conditions(&dsl.filters, "filters[", target, new),
        exits,
        risk,
    }
}

/// What [`apply`] returns for a mutation of a document.
pub open spec fn apply_outcome(dsl: StrategyDslView, mutation: MutationView) -> Result<
    StrategyDslView,
    MutationErrorView,
> {
    let path = mutation.path;
    let new = mutation.new_value;
    let candidate = put_strategy(dsl, path, new);
    match leaf_at(strategy_leaves(dsl), path, strategy_leaves(dsl).len()) {
        None => Err(MutationErrorView::UnknownPath { path }),
        Some(leaf) => if leaf_kind(leaf) != value_kind(new) {
            Err(
                MutationErrorView::TypeMismatch {
                    path,
                    expected: leaf_kind(leaf),
                    offered: value_kind(new),
                },
            )
        } else if already_holds(leaf, new) {
            Err(MutationErrorView::NoChange { path })
        } else if !valid_strategy(candidate) {
            Err(MutationErrorView::ValidationFailed { path, errors: strategy_errors(candidate) })
        } else {
            match strategy_refusal(candidate) {
                Some(source) => Err(MutationErrorView::CompileFailed { path, source }),
                None => Ok(candidate),
            }
        },
    }
}

/// Applies one mutation to a document, leaving the document itself untouched.
///
/// Succeeds with a candidate that is valid and compiles, or says why the mutation
/// does not apply.
pub fn apply(dsl: &StrategyDsl, mutation: &Mutation) -> (r: Result<CandidateDsl, MutationError>)
    ensures
        match apply_outcome(dsl@, mutation@) {
            Ok(candidate) => r is Ok && r->Ok_0@ == candidate,
            Err(e) => r is Err && r->Err_0@ == e,
        },
{
    let Mutation::SetParam { path, new_value } = mutation;
    let leaf = match find_leaf(dsl, path) {
        None => {
            return Err(MutationError::UnknownPath { path: path.clone() });
        },
        Some(leaf) => leaf,
    };
    match (&leaf, new_value) {
        (LeafValue::Period(slot), ParamValue::Period { value }) => {
            if let SweepableValue::Fixed(current) = slot {
                if *current == *value {
                    return Err(MutationError::NoChange { path: path.clone() });
                }
            }
        },
        (LeafValue::Threshold(slot), ParamValue::Threshold { value }) => {
            if let SweepableValue::Fixed(current) = slot {
                if current.equals(value) {
                    return Err(MutationError::NoChange { path: path.clone() });
                }
            }
        },
        (LeafValue::Period(_), ParamValue::Threshold { .. }) => {
            return Err(
                MutationError::TypeMismatch {
                    path: path.clone(),
                    expected: ParamKind::Period,
                    offered: ParamKind::Threshold,
                },
            );
        },
        (LeafValue::Threshold(_), ParamValue::Period { .. }) => {
            return Err(
                MutationError::TypeMismatch {
                    path: path.clone(),
                    expected: ParamKind::Threshold,
                    offered: ParamKind::Period,
                },
            );
        },
    }
    let candidate = write_strategy(dsl, path, new_value);
    match validate(&candidate) {
        Err(errors) => Err(MutationError::ValidationFailed { path: path.clone(), errors }),
        Ok(validated) => match compile(&validated) {
            Err(source) => Err(MutationError::CompileFailed { path: path.clone(), source }),
            Ok(_) => Ok(CandidateDsl { validated }),
        },
    }
}

} // verus!
