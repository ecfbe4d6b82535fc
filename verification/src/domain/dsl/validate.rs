//! Semantic validation of a strategy document.
//!
//! [`validate`] returns either a [`ValidatedDsl`], the only thing the compiler
//! accepts, or every violation at once, each with the dotted and indexed locator
//! of the offending field, in traversal order.
use crate::decimal::{pow10, Decimal, MAX_SCALE};
use crate::domain::dsl::condition::{condition_views, Condition, ConditionView};
use crate::domain::dsl::exit::{exit_views, ExitRule, ExitRuleView};
use crate::domain::dsl::risk::RiskParams;
use crate::domain::dsl::strategy::{StrategyDsl, StrategyDslView};
use crate::domain::dsl::sweepable::SweepableValue;
use crate::domain::dsl::value::{IndicatorSpec, ValueSource};
use crate::text::{blank, concat2, concat3, digits, is_blank, u64_text, usize_text};
use vstd::prelude::*;
use vstd::string::*;

verus! {

/// The classification of a single violation.
#[derive(Clone, Copy, Debug, PartialEq, Eq, Structural)]
#[non_exhaustive]
pub enum ValidationCode {
    /// A parameter sweep was used; only fixed values are accepted.
    SweepUnsupported,
    /// A cross with two constant operands.
    DegenerateCross,
    /// A take-profit without a stop in the same strategy.
    TakeProfitWithoutStop,
    /// The strategy has no exit rules.
    NoExit,
    /// More than one of an exclusive exit kind.
    DuplicateExit,
    /// A numeric field is out of its bounds.
    FieldRange,
    /// The strategy name is empty or white space.
    EmptyName,
    /// An empty conjunction or disjunction.
    EmptyConjunction,
}

/// A single field-level, correctable validation error.
#[derive(Debug, PartialEq, Eq)]
pub struct FieldError {
    /// Dotted and indexed locator of the offending field.
    pub path: String,
    /// The classification.
    pub code: ValidationCode,
    /// Description for a reader who is to correct the field.
    pub message: String,
}

/// The mathematical model of a [`FieldError`].
pub struct FieldErrorView {
    pub path: Seq<char>,
    pub code: ValidationCode,
    pub message: Seq<char>,
}

impl View for FieldError {
    type V = FieldErrorView;

    open spec fn view(&self) -> FieldErrorView {
        FieldErrorView { path: self.path@, code: self.code, message: self.message@ }
    }
}

impl Clone for FieldError {
    fn clone(&self) -> (r: FieldError)
        ensures
            r@ == self@,
    {
        FieldError { path: self.path.clone(), code: self.code, message: self.message.clone() }
    }
}

/// The models of a list of errors.
pub open spec fn error_views(errors: Seq<FieldError>) -> Seq<FieldErrorView> {
    errors.map_values(|e: FieldError| e@)
}

// ---------------------------------------------------------------------------
// What the errors of a document are.
// ---------------------------------------------------------------------------

/// One error, as a list.
pub open spec fn one_error(path: Seq<char>, code: ValidationCode, message: Seq<char>) -> Seq<
    FieldErrorView,
> {
    seq![FieldErrorView { path, code, message }]
}

/// The error for a sweep at `path`.
pub open spec fn sweep_errors(path: Seq<char>) -> Seq<FieldErrorView> {
    one_error(
        path,
        ValidationCode::SweepUnsupported,
        "parameter sweeps are not supported in v1; use a Fixed value"@,
    )
}

/// The errors of a leaf: a sweep is its own single error, a fixed value is out of
/// range or in order.
pub open spec fn leaf_errors<T>(
    v: SweepableValue<T>,
    in_range: spec_fn(T) -> bool,
    path: Seq<char>,
    message: Seq<char>,
) -> Seq<FieldErrorView> {
    match v {
        SweepableValue::Sweep { .. } => sweep_errors(path),
        SweepableValue::Fixed(x) => if in_range(x) {
            Seq::empty()
        } else {
            one_error(path, ValidationCode::FieldRange, message)
        },
    }
}

/// A positive count.
pub open spec fn positive_count() -> spec_fn(u32) -> bool {
    |n: u32| n > 0
}

/// A fraction strictly between zero and one.
pub open spec fn open_unit() -> spec_fn(Decimal) -> bool {
    |d: Decimal| 0 < d.units() < pow10(MAX_SCALE as nat)
}

/// A fraction above zero and at most one.
pub open spec fn half_open_unit() -> spec_fn(Decimal) -> bool {
    |d: Decimal| 0 < d.units() <= pow10(MAX_SCALE as nat)
}

/// A positive number.
pub open spec fn positive() -> spec_fn(Decimal) -> bool {
    |d: Decimal| 0 < d.units()
}

/// A number of at least one.
pub open spec fn at_least_one() -> spec_fn(Decimal) -> bool {
    |d: Decimal| pow10(MAX_SCALE as nat) <= d.units()
}

/// A number above zero and at most ten.
pub open spec fn atr_multiple() -> spec_fn(Decimal) -> bool {
    |d: Decimal| 0 < d.units() <= 10 * pow10(MAX_SCALE as nat)
}

/// The errors of a leaf that holds a count.
pub open spec fn count_errors(v: SweepableValue<u32>, path: Seq<char>, label: Seq<char>) -> Seq<
    FieldErrorView,
> {
    leaf_errors(v, positive_count(), path, label + " must be greater than 0"@)
}

/// The errors of an indicator's periods.
pub open spec fn indicator_errors(spec: IndicatorSpec, path: Seq<char>) -> Seq<FieldErrorView> {
    match spec {
        IndicatorSpec::Rsi { period } => count_errors(period, path + ".rsi.period"@, "RSI period"@),
        IndicatorSpec::Ema { period } => count_errors(period, path + ".ema.period"@, "EMA period"@),
        IndicatorSpec::Adx { period } => count_errors(period, path + ".adx.period"@, "ADX period"@),
        IndicatorSpec::Macd { fast, slow, signal } => {
            count_errors(fast, path + ".macd.fast"@, "MACD fast"@) + count_errors(
                slow,
                path + ".macd.slow"@,
                "MACD slow"@,
            ) + count_errors(signal, path + ".macd.signal"@, "MACD signal"@) + macd_order_errors(
                fast,
                slow,
                path,
            )
        },
        IndicatorSpec::Atr { period } => count_errors(period, path + ".atr.period"@, "ATR period"@),
    }
}

/// The error of a fast period that is not below the slow one.
pub open spec fn macd_order_errors(
    fast: SweepableValue<u32>,
    slow: SweepableValue<u32>,
    path: Seq<char>,
) -> Seq<FieldErrorView> {
    match (fast, slow) {
        (SweepableValue::Fixed(f), SweepableValue::Fixed(s)) => if f >= s {
            one_error(
                path + ".macd.fast"@,
                ValidationCode::FieldRange,
                "MACD fast period ("@ + digits(f as nat)
                    + ") must be strictly less than slow period ("@ + digits(s as nat) + ")"@,
            )
        } else {
            Seq::empty()
        },
        _ => Seq::empty(),
    }
}

/// The errors of an operand.
pub open spec fn value_errors(v: ValueSource, path: Seq<char>) -> Seq<FieldErrorView> {
    match v {
        ValueSource::Indicator { spec, .. } => indicator_errors(spec, path + ".indicator"@),
        _ => Seq::empty(),
    }
}

/// The errors of the two operands of a comparison or a cross.
pub open spec fn operand_errors(lhs: ValueSource, rhs: ValueSource, path: Seq<char>) -> Seq<
    FieldErrorView,
> {
    value_errors(lhs, path + ".lhs"@) + value_errors(rhs, path + ".rhs"@)
}

/// The error of a cross between two constants.
pub open spec fn cross_errors(lhs: ValueSource, rhs: ValueSource, path: Seq<char>) -> Seq<
    FieldErrorView,
> {
    if lhs is Constant && rhs is Constant {
        one_error(
            path,
            ValidationCode::DegenerateCross,
            "a cross comparison needs at least one Price or Indicator operand; both operands are Constant"@,
        )
    } else {
        Seq::empty()
    }
}

/// The error of an empty group.
pub open spec fn empty_group_errors(size: nat, path: Seq<char>, message: Seq<char>) -> Seq<
    FieldErrorView,
> {
    if size == 0 {
        one_error(path, ValidationCode::EmptyConjunction, message)
    } else {
        Seq::empty()
    }
}

/// The locator of the `i`-th member of a list whose locators begin with `stem`.
pub open spec fn member_path(stem: Seq<char>, i: nat) -> Seq<char> {
    stem + digits(i) + "]"@
}

/// The errors of a condition tree.
pub open spec fn condition_errors(c: ConditionView, path: Seq<char>) -> Seq<FieldErrorView>
    decreases c, 0nat,
{
    match c {
        ConditionView::Compare { lhs, op, rhs } => operand_errors(lhs, rhs, path),
        ConditionView::CrossesAbove { lhs, rhs } => cross_errors(
            lhs,
            rhs,
            path + ".crosses_above"@,
        ) + operand_errors(lhs, rhs, path),
        ConditionView::CrossesBelow { lhs, rhs } => cross_errors(
            lhs,
            rhs,
            path + ".crosses_below"@,
        ) + operand_errors(lhs, rhs, path),
        ConditionView::And { conditions } => empty_group_errors(
            conditions.len(),
            path + ".and"@,
            "an empty `And` is vacuously true (always fires); add at least one condition"@,
        ) + member_errors(conditions, path + ".and["@, conditions.len()),
        ConditionView::Or { conditions } => empty_group_errors(
            conditions.len(),
            path + ".or"@,
            "an empty `Or` is vacuously false (never fires); add at least one condition"@,
        ) + member_errors(conditions, path + ".or["@, conditions.len()),
        ConditionView::Not { condition } => condition_errors(*condition, path + ".not"@),
    }
}

/// The errors of the first `n` conditions of a list.
pub open spec fn member_errors(conditions: Seq<ConditionView>, stem: Seq<char>, n: nat) -> Seq<
    FieldErrorView,
>
    decreases conditions, n,
{
    if n == 0 || n > conditions.len() {
        Seq::empty()
    } else {
        member_errors(conditions, stem, (n - 1) as nat) + condition_errors(
            conditions[n - 1],
            member_path(stem, (n - 1) as nat),
        )
    }
}

/// The exit kinds of which a strategy may have one at most; the two kinds of stop
/// are one family.
#[derive(Clone, Copy, Debug, PartialEq, Eq, Structural)]
pub enum ExclusiveExit {
    /// A stop, fixed or by average true range.
    Stop,
    /// A take-profit.
    TakeProfit,
    /// A trailing stop.
    Trailing,
    /// A time stop.
    Time,
}

/// The exclusive kind an exit belongs to.
pub open spec fn exclusive_kind(e: ExitRuleView) -> Option<ExclusiveExit> {
    match e {
        ExitRuleView::StopLoss { .. } => Some(ExclusiveExit::Stop),
        ExitRuleView::AtrStop { .. } => Some(ExclusiveExit::Stop),
        ExitRuleView::TakeProfit { .. } => Some(ExclusiveExit::TakeProfit),
        ExitRuleView::TrailingStop { .. } => Some(ExclusiveExit::Trailing),
        ExitRuleView::TimeStop { .. } => Some(ExclusiveExit::Time),
        ExitRuleView::SignalExit { .. } => None,
    }
}

/// How many of the first `n` exits are of a kind.
pub open spec fn kind_count(exits: Seq<ExitRuleView>, kind: ExclusiveExit, n: nat) -> nat
    decreases n,
{
    if n == 0 {
        0
    } else {
        kind_count(exits, kind, (n - 1) as nat) + if exclusive_kind(exits[n - 1]) == Some(kind) {
            1nat
        } else {
            0nat
        }
    }
}

/// How many exits are of a kind.
pub open spec fn exits_of_kind(exits: Seq<ExitRuleView>, kind: ExclusiveExit) -> nat {
    kind_count(exits, kind, exits.len())
}

/// The errors of one exit rule.
pub open spec fn exit_errors(e: ExitRuleView, base: Seq<char>) -> Seq<FieldErrorView> {
    match e {
        ExitRuleView::StopLoss { distance_pct } => leaf_errors(
            distance_pct,
            open_unit(),
            base + ".distance_pct"@,
            "stop distance_pct must be a decimal fraction in the range (0, 1)"@,
        ),
        ExitRuleView::TakeProfit { target_r } => leaf_errors(
            target_r,
            positive(),
            base + ".target_r"@,
            "take-profit target_r must be greater than 0"@,
        ),
        ExitRuleView::TrailingStop { trail_pct } => leaf_errors(
            trail_pct,
            open_unit(),
            base + ".trail_pct"@,
            "trail_pct must be a decimal fraction in the range (0, 1)"@,
        ),
        ExitRuleView::TimeStop { max_bars } => count_errors(
            max_bars,
            base + ".max_bars"@,
            "time-stop max_bars"@,
        ),
        ExitRuleView::SignalExit { condition } => condition_errors(condition, base + ".condition"@),
        ExitRuleView::AtrStop { period, multiple } => count_errors(
            period,
            base + ".period"@,
            "ATR period"@,
        ) + leaf_errors(
            multiple,
            atr_multiple(),
            base + ".multiple"@,
            "atr-stop multiple must be an ATR multiple in the range (0, 10]"@,
        ),
    }
}

/// The errors of the first `n` exit rules, each on its own.
pub open spec fn each_exit_errors(exits: Seq<ExitRuleView>, n: nat) -> Seq<FieldErrorView>
    decreases n,
{
    if n == 0 || n > exits.len() {
        Seq::empty()
    } else {
        each_exit_errors(exits, (n - 1) as nat) + exit_errors(
            exits[n - 1],
            member_path("exits["@, (n - 1) as nat),
        )
    }
}

/// The error of an exclusive kind that occurs more than once.
pub open spec fn duplicate_errors(count: nat, kind: Seq<char>) -> Seq<FieldErrorView> {
    if count > 1 {
        one_error(
            "exits"@,
            ValidationCode::DuplicateExit,
            "at most one "@ + kind + " exit is allowed; found "@ + digits(count),
        )
    } else {
        Seq::empty()
    }
}

/// The error of a strategy without exits.
pub open spec fn no_exit_errors(exits: Seq<ExitRuleView>) -> Seq<FieldErrorView> {
    if exits.len() == 0 {
        one_error(
            "exits"@,
            ValidationCode::NoExit,
            "a strategy must declare at least one exit rule"@,
        )
    } else {
        Seq::empty()
    }
}

/// The error of a take-profit without a stop.
pub open spec fn target_without_stop_errors(exits: Seq<ExitRuleView>) -> Seq<FieldErrorView> {
    if exits_of_kind(exits, ExclusiveExit::TakeProfit) > 0 && exits_of_kind(
        exits,
        ExclusiveExit::Stop,
    ) == 0 {
        one_error(
            "exits"@,
            ValidationCode::TakeProfitWithoutStop,
            "a TakeProfit exit requires a StopLoss or AtrStop in the same strategy (R is undefined without a stop)"@,
        )
    } else {
        Seq::empty()
    }
}

/// The errors of the exits.
pub open spec fn exits_errors(exits: Seq<ExitRuleView>) -> Seq<FieldErrorView> {
    no_exit_errors(exits) + each_exit_errors(exits, exits.len()) + target_without_stop_errors(exits)
        + duplicate_errors(
        exits_of_kind(exits, ExclusiveExit::Stop),
        "stop (StopLoss or AtrStop)"@,
    ) + duplicate_errors(exits_of_kind(exits, ExclusiveExit::TakeProfit), "TakeProfit"@)
        + duplicate_errors(exits_of_kind(exits, ExclusiveExit::Trailing), "TrailingStop"@)
        + duplicate_errors(exits_of_kind(exits, ExclusiveExit::Time), "TimeStop"@)
}

/// The errors of the risk inputs.
pub open spec fn risk_errors(risk: RiskParams) -> Seq<FieldErrorView> {
    leaf_errors(
        risk.risk_per_trade_pct,
        half_open_unit(),
        "risk.risk_per_trade_pct"@,
        "risk_per_trade_pct must be a decimal fraction in the range (0, 1]"@,
    ) + leaf_errors(
        risk.max_leverage,
        at_least_one(),
        "risk.max_leverage"@,
        "max_leverage must be at least 1"@,
    )
}

/// The error of a blank name.
pub open spec fn name_errors(name: Seq<char>) -> Seq<FieldErrorView> {
    if is_blank(name) {
        one_error(
            "name"@,
            ValidationCode::EmptyName,
            "strategy name must not be empty or whitespace-only"@,
        )
    } else {
        Seq::empty()
    }
}

/// Every error of a document, in traversal order: the name, the entry, the
/// filters, the exits, the risk inputs.
pub open spec fn strategy_errors(dsl: StrategyDslView) -> Seq<FieldErrorView> {
    name_errors(dsl.name) + condition_errors(dsl.entry, "entry"@) + member_errors(
        dsl.filters,
        "filters["@,
        dsl.filters.len(),
    ) + exits_errors(dsl.exits) + risk_errors(dsl.risk)
}

// ---------------------------------------------------------------------------
// The walk that collects them.
// ---------------------------------------------------------------------------

/// Appends one error.
fn push_error(
    path: String,
    code: ValidationCode,
    message: String,
    errors: &mut Vec<FieldError>,
)
    ensures
        error_views(final(errors)@) == error_views(old(errors)@) + one_error(
            path@,
            code,
            message@,
        ),
{
    let ghost before = errors@;
    let error = FieldError { path, code, message };
    errors.push(error);
    assert(error_views(errors@) =~= error_views(before) + seq![error@]);
}

/// Appends the error of a sweep.
fn push_sweep(path: &str, errors: &mut Vec<FieldError>)
    ensures
        error_views(final(errors)@) == error_views(old(errors)@) + sweep_errors(path@),
{
    push_error(
        path.to_owned(),
        ValidationCode::SweepUnsupported,
        "parameter sweeps are not supported in v1; use a Fixed value".to_owned(),
        errors,
    );
}

/// A count that must be positive.
fn check_u32_positive(
    v: &SweepableValue<u32>,
    path: &str,
    label: &str,
    errors: &mut Vec<FieldError>,
)
    ensures
        error_views(final(errors)@) == error_views(old(errors)@) + count_errors(*v, path@, label@),
{
    let ghost before = error_views(errors@);
    match v {
        SweepableValue::Sweep { .. } => push_sweep(path, errors),
        SweepableValue::Fixed(n) => {
            if *n == 0 {
                push_error(
                    path.to_owned(),
                    ValidationCode::FieldRange,
                    concat2(label, " must be greater than 0"),
                    errors,
                );
            } else {
                assert(before =~= before + Seq::empty());
            }
        },
    }
}

/// A number that must lie strictly between zero and one.
fn check_decimal_open_unit(
    v: &SweepableValue<Decimal>,
    path: &str,
    message: &str,
    errors: &mut Vec<FieldError>,
)
    ensures
        error_views(final(errors)@) == error_views(old(errors)@) + leaf_errors(
            *v,
            open_unit(),
            path@,
            message@,
        ),
{
    let ghost before = error_views(errors@);
    match v {
        SweepableValue::Sweep { .. } => push_sweep(path, errors),
        SweepableValue::Fixed(d) => {
            if d.le(&Decimal::zero()) || Decimal::one().le(d) {
                push_error(
                    path.to_owned(),
                    ValidationCode::FieldRange,
                    message.to_owned(),
                    errors,
                );
            } else {
                assert(before =~= before + Seq::empty());
            }
        },
    }
}

/// A number that must be positive.
fn check_decimal_positive(
    v: &SweepableValue<Decimal>,
    path: &str,
    message: &str,
    errors: &mut Vec<FieldError>,
)
    ensures
        error_views(final(errors)@) == error_views(old(errors)@) + leaf_errors(
            *v,
            positive(),
            path@,
            message@,
        ),
{
    let ghost before = error_views(errors@);
    match v {
        SweepableValue::Sweep { .. } => push_sweep(path, errors),
        SweepableValue::Fixed(d) => {
            if d.le(&Decimal::zero()) {
                push_error(
                    path.to_owned(),
                    ValidationCode::FieldRange,
                    message.to_owned(),
                    errors,
                );
            } else {
                assert(before =~= before + Seq::empty());
            }
        },
    }
}

/// A number that must lie above zero and not above ten.
fn check_decimal_atr_multiple(
    v: &SweepableValue<Decimal>,
    path: &str,
    message: &str,
    errors: &mut Vec<FieldError>,
)
    ensures
        error_views(final(errors)@) == error_views(old(errors)@) + leaf_errors(
            *v,
            atr_multiple(),
            path@,
            message@,
        ),
{
    let ghost before = error_views(errors@);
    match v {
        SweepableValue::Sweep { .. } => push_sweep(path, errors),
        SweepableValue::Fixed(d) => {
            let ten = Decimal::new(10, 0);
            assert(ten.units() == 10 * pow10(MAX_SCALE as nat));
            if d.le(&Decimal::zero()) || ten.lt(d) {
                push_error(
                    path.to_owned(),
                    ValidationCode::FieldRange,
                    message.to_owned(),
                    errors,
                );
            } else {
                assert(before =~= before + Seq::empty());
            }
        },
    }
}

/// The periods of an indicator.
fn check_indicator(spec: &IndicatorSpec, path: &str, errors: &mut Vec<FieldError>)
    ensures
        error_views(final(errors)@) == error_views(old(errors)@) + indicator_errors(*spec, path@),
{
    let ghost before = error_views(errors@);
    match spec {
        IndicatorSpec::Rsi { period } => {
            check_u32_positive(period, concat2(path, ".rsi.period").as_str(), "RSI period", errors);
        },
        IndicatorSpec::Ema { period } => {
            check_u32_positive(period, concat2(path, ".ema.period").as_str(), "EMA period", errors);
        },
        IndicatorSpec::Adx { period } => {
            check_u32_positive(period, concat2(path, ".adx.period").as_str(), "ADX period", errors);
        },
        IndicatorSpec::Macd { fast, slow, signal } => {
            check_u32_positive(fast, concat2(path, ".macd.fast").as_str(), "MACD fast", errors);
            check_u32_positive(slow, concat2(path, ".macd.slow").as_str(), "MACD slow", errors);
            check_u32_positive(
                signal,
                concat2(path, ".macd.signal").as_str(),
                "MACD signal",
                errors,
            );
            if let (SweepableValue::Fixed(f), SweepableValue::Fixed(s)) = (fast, slow) {
                if *f >= *s {
                    let mut message = "MACD fast period (".to_owned();
                    message.append(u64_text(*f as u64).as_str());
                    message.append(") must be strictly less than slow period (");
                    message.append(u64_text(*s as u64).as_str());
                    message.append(")");
                    push_error(
                        concat2(path, ".macd.fast"),
                        ValidationCode::FieldRange,
                        message,
                        errors,
                    );
                }
            }
            assert(error_views(errors@) =~= before + indicator_errors(*spec, path@));
        },
        IndicatorSpec::Atr { period } => {
            check_u32_positive(period, concat2(path, ".atr.period").as_str(), "ATR period", errors);
        },
    }
}

/// An operand: only an indicator has numeric leaves.
fn check_value_source(v: &ValueSource, path: &str, errors: &mut Vec<FieldError>)
    ensures
        error_views(final(errors)@) == error_views(old(errors)@) + value_errors(*v, path@),
{
    let ghost before = error_views(errors@);
    if let ValueSource::Indicator { spec, .. } = v {
        check_indicator(spec, concat2(path, ".indicator").as_str(), errors);
    } else {
        assert(before =~= before + Seq::empty());
    }
}

/// The two operands of a comparison or a cross.
fn check_operands(
    lhs: &ValueSource,
    rhs: &ValueSource,
    path: &str,
    errors: &mut Vec<FieldError>,
)
    ensures
        error_views(final(errors)@) == error_views(old(errors)@) + operand_errors(
            *lhs,
            *rhs,
            path@,
        ),
{
    let ghost before = error_views(errors@);
    check_value_source(lhs, concat2(path, ".lhs").as_str(), errors);
    check_value_source(rhs, concat2(path, ".rhs").as_str(), errors);
    assert(error_views(errors@) =~= before + operand_errors(*lhs, *rhs, path@));
}

/// Whether an operand is a literal constant.
fn is_constant(v: &ValueSource) -> (r: bool)
    ensures
        r == (v is Constant),
{
    match v {
        ValueSource::Constant { .. } => true,
        _ => false,
    }
}

/// A cross, which needs an operand that moves.
fn check_cross(
    lhs: &ValueSource,
    rhs: &ValueSource,
    path: &str,
    suffix: &str,
    errors: &mut Vec<FieldError>,
)
    ensures
        error_views(final(errors)@) == error_views(old(errors)@) + (cross_errors(
            *lhs,
            *rhs,
            path@ + suffix@,
        ) + operand_errors(*lhs, *rhs, path@)),
{
    let ghost before = error_views(errors@);
    if is_constant(lhs) && is_constant(rhs) {
        push_error(
            concat2(path, suffix),
            ValidationCode::DegenerateCross,
            "a cross comparison needs at least one Price or Indicator operand; both operands are Constant".to_owned(),
            errors,
        );
    }
    check_operands(lhs, rhs, path, errors);
    assert(error_views(errors@) =~= before + (cross_errors(*lhs, *rhs, path@ + suffix@)
        + operand_errors(*lhs, *rhs, path@)));
}

/// The locator of a member of a list.
pub(crate) fn member(stem: &str, i: usize) -> (path: String)
    ensures
        path@ == member_path(stem@, i as nat),
{
    concat3(stem, usize_text(i).as_str(), "]")
}

/// The members of a list of conditions.
fn check_members(conditions: &Vec<Condition>, stem: &str, errors: &mut Vec<FieldError>)
    ensures
        error_views(final(errors)@) == error_views(old(errors)@) + member_errors(
            condition_views(conditions@),
            stem@,
            conditions@.len(),
        ),
    decreases conditions,
{
    let ghost before = error_views(errors@);
    let n = conditions.len();
    assert(before =~= before + member_errors(condition_views(conditions@), stem@, 0));
    for i in 0..n
        invariant
            n == conditions.len(),
            error_views(errors@) == before + member_errors(
                condition_views(conditions@),
                stem@,
                i as nat,
            ),
    {
        let ghost so_far = error_views(errors@);
        let path = member(stem, i);
        check_condition(&conditions[i], path.as_str(), errors);
        proof {
            let views = condition_views(conditions@);
            assert(views[i as int] == conditions@[i as int]@);
            assert(error_views(errors@) =~= before + member_errors(views, stem@, (i + 1) as nat));
        }
    }
}

/// A condition tree, with the locator that reflects the nesting.
fn check_condition(cond: &Condition, path: &str, errors: &mut Vec<FieldError>)
    ensures
        error_views(final(errors)@) == error_views(old(errors)@) + condition_errors(cond@, path@),
    decreases cond,
{
    let ghost before = error_views(errors@);
    match cond {
        Condition::Compare { lhs, op: _, rhs } => {
            check_operands(lhs, rhs, path, errors);
        },
        Condition::CrossesAbove { lhs, rhs } => {
            check_cross(lhs, rhs, path, ".crosses_above", errors);
        },
        Condition::CrossesBelow { lhs, rhs } => {
            check_cross(lhs, rhs, path, ".crosses_below", errors);
        },
        Condition::And { conditions } => {
            if conditions.len() == 0 {
                push_error(
                    concat2(path, ".and"),
                    ValidationCode::EmptyConjunction,
                    "an empty `And` is vacuously true (always fires); add at least one condition".to_owned(),
                    errors,
                );
            }
            check_members(conditions, concat2(path, ".and[").as_str(), errors);
            assert(error_views(errors@) =~= before + condition_errors(cond@, path@));
        },
        Condition::Or { conditions } => {
            if conditions.len() == 0 {
                push_error(
                    concat2(path, ".or"),
                    ValidationCode::EmptyConjunction,
                    "an empty `Or` is vacuously false (never fires); add at least one condition".to_owned(),
                    errors,
                );
            }
            check_members(conditions, concat2(path, ".or[").as_str(), errors);
            assert(error_views(errors@) =~= before + condition_errors(cond@, path@));
        },
        Condition::Not { condition } => {
            check_condition(condition, concat2(path, ".not").as_str(), errors);
        },
    }
}

/// Appends the error of an exclusive kind that occurs more than once.
fn push_dup(count: usize, kind: &str, errors: &mut Vec<FieldError>)
    ensures
        error_views(final(errors)@) == error_views(old(errors)@) + duplicate_errors(
            count as nat,
            kind@,
        ),
{
    let ghost before = error_views(errors@);
    if count > 1 {
        let mut message = "at most one ".to_owned();
        message.append(kind);
        message.append(" exit is allowed; found ");
        message.append(usize_text(count).as_str());
        push_error("exits".to_owned(), ValidationCode::DuplicateExit, message, errors);
    } else {
        assert(before =~= before + Seq::empty());
    }
}

/// One exit rule on its own.
fn check_exit(exit: &ExitRule, base: &str, errors: &mut Vec<FieldError>)
    ensures
        error_views(final(errors)@) == error_views(old(errors)@) + exit_errors(exit@, base@),
{
    let ghost before = error_views(errors@);
    match exit {
        ExitRule::StopLoss { distance_pct } => {
            check_decimal_open_unit(
                distance_pct,
                concat2(base, ".distance_pct").as_str(),
                "stop distance_pct must be a decimal fraction in the range (0, 1)",
                errors,
            );
        },
        ExitRule::TakeProfit { target_r } => {
            check_decimal_positive(
                target_r,
                concat2(base, ".target_r").as_str(),
                "take-profit target_r must be greater than 0",
                errors,
            );
        },
        ExitRule::TrailingStop { trail_pct } => {
            check_decimal_open_unit(
                trail_pct,
                concat2(base, ".trail_pct").as_str(),
                "trail_pct must be a decimal fraction in the range (0, 1)",
                errors,
            );
        },
        ExitRule::TimeStop { max_bars } => {
            check_u32_positive(
                max_bars,
                concat2(base, ".max_bars").as_str(),
                "time-stop max_bars",
                errors,
            );
        },
        ExitRule::SignalExit { condition } => {
            check_condition(condition, concat2(base, ".condition").as_str(), errors);
        },
        ExitRule::AtrStop { period, multiple } => {
            check_u32_positive(period, concat2(base, ".period").as_str(), "ATR period", errors);
            check_decimal_atr_multiple(
                multiple,
                concat2(base, ".multiple").as_str(),
                "atr-stop multiple must be an ATR multiple in the range (0, 10]",
                errors,
            );
            assert(error_views(errors@) =~= before + exit_errors(exit@, base@));
        },
    }
}

/// The exits, each on its own and all together.
fn check_exits(exits: &Vec<ExitRule>, errors: &mut Vec<FieldError>)
    ensures
        error_views(final(errors)@) == error_views(old(errors)@) + exits_errors(exit_views(exits@)),
{
    let ghost before = error_views(errors@);
    let ghost views = exit_views(exits@);
    let n = exits.len();
    if n == 0 {
        push_error(
            "exits".to_owned(),
            ValidationCode::NoExit,
            "a strategy must declare at least one exit rule".to_owned(),
            errors,
        );
    }
    let mut count_stop: usize = 0;
    let mut count_take_profit: usize = 0;
    let mut count_trailing: usize = 0;
    let mut count_time: usize = 0;
    assert(error_views(errors@) =~= before + no_exit_errors(views) + each_exit_errors(views, 0));
    for i in 0..n
        invariant
            n == exits.len(),
            views == exit_views(exits@),
            count_stop <= i,
            count_take_profit <= i,
            count_trailing <= i,
            count_time <= i,
            count_stop == kind_count(views, ExclusiveExit::Stop, i as nat),
            count_take_profit == kind_count(views, ExclusiveExit::TakeProfit, i as nat),
            count_trailing == kind_count(views, ExclusiveExit::Trailing, i as nat),
            count_time == kind_count(views, ExclusiveExit::Time, i as nat),
            error_views(errors@) == before + no_exit_errors(views) + each_exit_errors(
                views,
                i as nat,
            ),
    {
        let exit = &exits[i];
        assert(views[i as int] == exit@);
        match exit {
            ExitRule::StopLoss { .. } => {
                count_stop = count_stop + 1;
            },
            ExitRule::TakeProfit { .. } => {
                count_take_profit = count_take_profit + 1;
            },
            ExitRule::TrailingStop { .. } => {
                count_trailing = count_trailing + 1;
            },
            ExitRule::TimeStop { .. } => {
                count_time = count_time + 1;
            },
            ExitRule::SignalExit { .. } => {},
            ExitRule::AtrStop { .. } => {
                count_stop = count_stop + 1;
            },
        }
        let base = member("exits[", i);
        check_exit(exit, base.as_str(), errors);
        assert(error_views(errors@) =~= before + no_exit_errors(views) + each_exit_errors(
            views,
            (i + 1) as nat,
        ));
    }
    if count_take_profit > 0 && count_stop == 0 {
        push_error(
            "exits".to_owned(),
            ValidationCode::TakeProfitWithoutStop,
            "a TakeProfit exit requires a StopLoss or AtrStop in the same strategy (R is undefined without a stop)".to_owned(),
            errors,
        );
    }
    push_dup(count_stop, "stop (StopLoss or AtrStop)", errors);
    push_dup(count_take_profit, "TakeProfit", errors);
    push_dup(count_trailing, "TrailingStop", errors);
    push_dup(count_time, "TimeStop", errors);
    assert(error_views(errors@) =~= before + exits_errors(views));
}

/// The risk inputs.
fn check_risk(risk: &RiskParams, errors: &mut Vec<FieldError>)
    ensures
        error_views(final(errors)@) == error_views(old(errors)@) + risk_errors(*risk),
{
    let ghost before = error_views(errors@);
    match &risk.risk_per_trade_pct {
        SweepableValue::Sweep { .. } => push_sweep("risk.risk_per_trade_pct", errors),
        SweepableValue::Fixed(v) => {
            if v.le(&Decimal::zero()) || Decimal::one().lt(v) {
                push_error(
                    "risk.risk_per_trade_pct".to_owned(),
                    ValidationCode::FieldRange,
                    "risk_per_trade_pct must be a decimal fraction in the range (0, 1]".to_owned(),
                    errors,
                );
            }
        },
    }
    match &risk.max_leverage {
        SweepableValue::Sweep { .. } => push_sweep("risk.max_leverage", errors),
        SweepableValue::Fixed(v) => {
            if v.lt(&Decimal::one()) {
                push_error(
                    "risk.max_leverage".to_owned(),
                    ValidationCode::FieldRange,
                    "max_leverage must be at least 1".to_owned(),
                    errors,
                );
            }
        },
    }
    assert(error_views(errors@) =~= before + risk_errors(*risk));
}

// ---------------------------------------------------------------------------
// What a valid document is.
// ---------------------------------------------------------------------------

/// A leaf that is fixed and in range.
pub open spec fn valid_leaf<T>(v: SweepableValue<T>, in_range: spec_fn(T) -> bool) -> bool {
    match v {
        SweepableValue::Fixed(x) => in_range(x),
        SweepableValue::Sweep { .. } => false,
    }
}

/// An indicator whose periods are fixed and positive, a fast one below its slow one.
pub open spec fn valid_indicator(spec: IndicatorSpec) -> bool {
    match spec {
        IndicatorSpec::Rsi { period } => valid_leaf(period, positive_count()),
        IndicatorSpec::Ema { period } => valid_leaf(period, positive_count()),
        IndicatorSpec::Adx { period } => valid_leaf(period, positive_count()),
        IndicatorSpec::Macd { fast, slow, signal } => {
            &&& valid_leaf(fast, positive_count())
            &&& valid_leaf(slow, positive_count())
            &&& valid_leaf(signal, positive_count())
            &&& fast->Fixed_0 < slow->Fixed_0
        },
        IndicatorSpec::Atr { period } => valid_leaf(period, positive_count()),
    }
}

/// An operand whose indicator, if it has one, is valid.
pub open spec fn valid_value(v: ValueSource) -> bool {
    match v {
        ValueSource::Indicator { spec, .. } => valid_indicator(spec),
        _ => true,
    }
}

/// A condition tree with valid operands, no cross between constants and no empty
/// group.
pub open spec fn valid_condition(c: ConditionView) -> bool
    decreases c,
{
    match c {
        ConditionView::Compare { lhs, op, rhs } => valid_value(lhs) && valid_value(rhs),
        ConditionView::CrossesAbove { lhs, rhs } => {
            &&& valid_value(lhs)
            &&& valid_value(rhs)
            &&& !(lhs is Constant && rhs is Constant)
        },
        ConditionView::CrossesBelow { lhs, rhs } => {
            &&& valid_value(lhs)
            &&& valid_value(rhs)
            &&& !(lhs is Constant && rhs is Constant)
        },
        ConditionView::And { conditions } => {
            &&& conditions.len() > 0
            &&& forall|i: int| 0 <= i < conditions.len() ==> valid_condition(#[trigger] conditions[i])
        },
        ConditionView::Or { conditions } => {
            &&& conditions.len() > 0
            &&& forall|i: int| 0 <= i < conditions.len() ==> valid_condition(#[trigger] conditions[i])
        },
        ConditionView::Not { condition } => valid_condition(*condition),
    }
}

/// An exit rule whose leaves are in range.
pub open spec fn valid_exit(e: ExitRuleView) -> bool {
    match e {
        ExitRuleView::StopLoss { distance_pct } => valid_leaf(distance_pct, open_unit()),
        ExitRuleView::TakeProfit { target_r } => valid_leaf(target_r, positive()),
        ExitRuleView::TrailingStop { trail_pct } => valid_leaf(trail_pct, open_unit()),
        ExitRuleView::TimeStop { max_bars } => valid_leaf(max_bars, positive_count()),
        ExitRuleView::SignalExit { condition } => valid_condition(condition),
        ExitRuleView::AtrStop { period, multiple } => valid_leaf(period, positive_count())
            && valid_leaf(multiple, atr_multiple()),
    }
}

/// A non-empty list of valid exits, with a stop wherever there is a take-profit and
/// no exclusive kind twice.
pub open spec fn valid_exits(exits: Seq<ExitRuleView>) -> bool {
    &&& exits.len() > 0
    &&& forall|i: int| 0 <= i < exits.len() ==> valid_exit(#[trigger] exits[i])
    &&& exits_of_kind(exits, ExclusiveExit::TakeProfit) > 0 ==> exits_of_kind(
        exits,
        ExclusiveExit::Stop,
    ) > 0
    &&& forall|kind: ExclusiveExit| #[trigger] exits_of_kind(exits, kind) <= 1
}

/// A document that keeps every rule.
pub open spec fn valid_strategy(dsl: StrategyDslView) -> bool {
    &&& !is_blank(dsl.name)
    &&& valid_condition(dsl.entry)
    &&& forall|i: int| 0 <= i < dsl.filters.len() ==> valid_condition(#[trigger] dsl.filters[i])
    &&& valid_exits(dsl.exits)
    &&& valid_leaf(dsl.risk.risk_per_trade_pct, half_open_unit())
    &&& valid_leaf(dsl.risk.max_leverage, at_least_one())
}

/// An indicator has no errors exactly where it is valid.
pub proof fn lemma_indicator_errors(spec: IndicatorSpec, path: Seq<char>)
    ensures
        indicator_errors(spec, path).len() == 0 <==> valid_indicator(spec),
{
}

proof fn lemma_value_errors(v: ValueSource, path: Seq<char>)
    ensures
        value_errors(v, path).len() == 0 <==> valid_value(v),
{
    if let ValueSource::Indicator { spec, .. } = v {
        lemma_indicator_errors(spec, path + ".indicator"@);
    }
}

/// A condition tree has no errors exactly where it is valid, wherever it stands.
pub proof fn lemma_condition_errors(c: ConditionView, path: Seq<char>)
    ensures
        condition_errors(c, path).len() == 0 <==> valid_condition(c),
    decreases c, 0nat,
{
    match c {
        ConditionView::Compare { lhs, op, rhs } => {
            lemma_value_errors(lhs, path + ".lhs"@);
            lemma_value_errors(rhs, path + ".rhs"@);
        },
        ConditionView::CrossesAbove { lhs, rhs } => {
            lemma_value_errors(lhs, path + ".lhs"@);
            lemma_value_errors(rhs, path + ".rhs"@);
        },
        ConditionView::CrossesBelow { lhs, rhs } => {
            lemma_value_errors(lhs, path + ".lhs"@);
            lemma_value_errors(rhs, path + ".rhs"@);
        },
        ConditionView::And { conditions } => {
            lemma_member_errors(conditions, path + ".and["@, conditions.len());
        },
        ConditionView::Or { conditions } => {
            lemma_member_errors(conditions, path + ".or["@, conditions.len());
        },
        ConditionView::Not { condition } => {
            lemma_condition_errors(*condition, path + ".not"@);
        },
    }
}

/// A list of conditions has no errors exactly where each of them is valid.
pub proof fn lemma_member_errors(conditions: Seq<ConditionView>, stem: Seq<char>, n: nat)
    requires
        n <= conditions.len(),
    ensures
        member_errors(conditions, stem, n).len() == 0 <==> forall|i: int|
            0 <= i < n ==> valid_condition(#[trigger] conditions[i]),
    decreases conditions, n,
{
    if n > 0 {
        lemma_member_errors(conditions, stem, (n - 1) as nat);
        lemma_condition_errors(conditions[n - 1], member_path(stem, (n - 1) as nat));
    }
}

proof fn lemma_each_exit_errors(exits: Seq<ExitRuleView>, n: nat)
    requires
        n <= exits.len(),
    ensures
        each_exit_errors(exits, n).len() == 0 <==> forall|i: int|
            0 <= i < n ==> valid_exit(#[trigger] exits[i]),
    decreases n,
{
    if n > 0 {
        lemma_each_exit_errors(exits, (n - 1) as nat);
        let base = member_path("exits["@, (n - 1) as nat);
        if let ExitRuleView::SignalExit { condition } = exits[n - 1] {
            lemma_condition_errors(condition, base + ".condition"@);
        }
        assert(exit_errors(exits[n - 1], base).len() == 0 <==> valid_exit(exits[n - 1]));
    }
}

/// A document has no errors exactly where it keeps every rule.
pub proof fn law_no_errors_iff_valid(dsl: StrategyDslView)
    ensures
        strategy_errors(dsl).len() == 0 <==> valid_strategy(dsl),
{
    lemma_condition_errors(dsl.entry, "entry"@);
    lemma_member_errors(dsl.filters, "filters["@, dsl.filters.len());
    lemma_each_exit_errors(dsl.exits, dsl.exits.len());
    let exits = dsl.exits;
    if exits_errors(exits).len() == 0 {
        assert forall|kind: ExclusiveExit| #[trigger] exits_of_kind(exits, kind) <= 1 by {
            match kind {
                ExclusiveExit::Stop => {},
                ExclusiveExit::TakeProfit => {},
                ExclusiveExit::Trailing => {},
                ExclusiveExit::Time => {},
            }
        }
    }
    if valid_exits(exits) {
        assert(exits_of_kind(exits, ExclusiveExit::Stop) <= 1);
        assert(exits_of_kind(exits, ExclusiveExit::TakeProfit) <= 1);
        assert(exits_of_kind(exits, ExclusiveExit::Trailing) <= 1);
        assert(exits_of_kind(exits, ExclusiveExit::Time) <= 1);
    }
    assert(exits_errors(exits).len() == 0 <==> valid_exits(exits));
}

// ---------------------------------------------------------------------------
// The checked form.
// ---------------------------------------------------------------------------

/// A non-empty collection of errors.
#[derive(Debug, PartialEq, Eq)]
pub struct ValidationErrors {
    errors: Vec<FieldError>,
}

impl View for ValidationErrors {
    type V = Seq<FieldErrorView>;

    closed spec fn view(&self) -> Seq<FieldErrorView> {
        error_views(self.errors@)
    }
}

impl ValidationErrors {
    #[verifier::type_invariant]
    spec fn not_empty(self) -> bool {
        self.errors@.len() > 0
    }

    /// The collection that a record holds; `None` where it holds no error.
    pub fn from_stored(errors: Vec<FieldError>) -> (r: Option<ValidationErrors>)
        ensures
            r is Some <==> errors@.len() > 0,
            r matches Some(collection) ==> collection@ == error_views(errors@),
    {
        if errors.len() == 0 {
            None
        } else {
            Some(ValidationErrors { errors })
        }
    }

    /// The errors, in traversal order.
    pub fn errors(&self) -> (r: &[FieldError])
        ensures
            error_views(r@) == self@,
            r@.len() > 0,
    {
        proof {
            use_type_invariant(self);
        }
        self.errors.as_slice()
    }

    /// The owned errors, in traversal order.
    pub fn into_errors(self) -> (r: Vec<FieldError>)
        ensures
            error_views(r@) == self@,
            r@.len() > 0,
    {
        proof {
            use_type_invariant(&self);
        }
        self.errors
    }

    /// The one-line description of the collection.
    pub fn to_string(&self) -> (text: String)
        ensures
            text@ == validation_errors_text(self@),
    {
        concat3(
            "strategy validation failed with ",
            usize_text(self.errors.len()).as_str(),
            " error(s)",
        )
    }
}

/// The one-line description of a collection of errors.
pub open spec fn validation_errors_text(errors: Seq<FieldErrorView>) -> Seq<char> {
    "strategy validation failed with "@ + digits(errors.len()) + " error(s)"@
}

impl Clone for ValidationErrors {
    fn clone(&self) -> (r: ValidationErrors)
        ensures
            r@ == self@,
    {
        proof {
            use_type_invariant(self);
        }
        let n = self.errors.len();
        let mut errors: Vec<FieldError> = Vec::new();
        for i in 0..n
            invariant
                n == self.errors.len(),
                errors.len() == i,
                forall|j: int| 0 <= j < i ==> (#[trigger] errors@[j])@ == self.errors@[j]@,
        {
            let e = self.errors[i].clone();
            errors.push(e);
        }
        assert(error_views(errors@) =~= error_views(self.errors@));
        ValidationErrors { errors }
    }
}

/// A strategy document that keeps every rule. Only [`validate`] makes one.
#[derive(Debug, PartialEq, Eq)]
pub struct ValidatedDsl {
    inner: StrategyDsl,
}

impl View for ValidatedDsl {
    type V = StrategyDslView;

    closed spec fn view(&self) -> StrategyDslView {
        self.inner@
    }
}

impl ValidatedDsl {
    #[verifier::type_invariant]
    spec fn is_valid(self) -> bool {
        valid_strategy(self.inner@)
    }

    /// The validated document.
    pub fn dsl(&self) -> (r: &StrategyDsl)
        ensures
            r@ == self@,
            valid_strategy(r@),
    {
        proof {
            use_type_invariant(self);
        }
        &self.inner
    }

    /// The owned validated document.
    pub fn into_inner(self) -> (r: StrategyDsl)
        ensures
            r@ == self@,
            valid_strategy(r@),
    {
        proof {
            use_type_invariant(&self);
        }
        self.inner
    }
}

impl Clone for ValidatedDsl {
    fn clone(&self) -> (r: ValidatedDsl)
        ensures
            r@ == self@,
    {
        proof {
            use_type_invariant(self);
        }
        ValidatedDsl { inner: self.inner.clone() }
    }
}

/// Checks a strategy document.
///
/// Succeeds exactly on the documents that keep every rule, with the document
/// itself; otherwise returns all of its errors, in traversal order.
pub fn validate(dsl: &StrategyDsl) -> (r: Result<ValidatedDsl, ValidationErrors>)
    ensures
        r is Ok <==> valid_strategy(dsl@),
        r is Ok ==> r->Ok_0@ == dsl@,
        r is Err ==> r->Err_0@ == strategy_errors(dsl@),
{
    let mut errors: Vec<FieldError> = Vec::new();
    if blank(dsl.name.as_str()) {
        push_error(
            "name".to_owned(),
            ValidationCode::EmptyName,
            "strategy name must not be empty or whitespace-only".to_owned(),
            &mut errors,
        );
    }
    check_condition(&dsl.entry, "entry", &mut errors);
    check_members(&dsl.filters, "filters[", &mut errors);
    check_exits(&dsl.exits, &mut errors);
    check_risk(&dsl.risk, &mut errors);
    proof {
        assert(error_views(errors@) =~= strategy_errors(dsl@));
        law_no_errors_iff_valid(dsl@);
    }
    if errors.len() == 0 {
        Ok(ValidatedDsl { inner: dsl.clone() })
    } else {
        Err(ValidationErrors { errors })
    }
}

} // verus!
