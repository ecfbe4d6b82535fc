//! The rules of the language, said of the documents themselves: what is reported of a
//! document, and which documents are accepted.
use crate::decimal::{pow10, Decimal, MAX_SCALE};
use crate::domain::dsl::condition::{Comparator, ConditionView};
use crate::domain::dsl::exit::ExitRuleView;
use crate::domain::dsl::risk::RiskParams;
use crate::domain::dsl::strategy::StrategyDslView;
use crate::domain::dsl::sweepable::SweepableValue;
use crate::domain::dsl::validate::{
    condition_errors, count_errors, cross_errors, duplicate_errors, each_exit_errors,
    empty_group_errors, exclusive_kind, exit_errors, exits_errors, exits_of_kind, indicator_errors,
    kind_count, macd_order_errors, member_errors, member_path, name_errors, no_exit_errors,
    operand_errors, risk_errors, strategy_errors, target_without_stop_errors, value_errors,
    ExclusiveExit, FieldErrorView, ValidationCode,
};
use crate::domain::dsl::value::{IndicatorSpec, ValueSource};
use crate::text::{digits, is_white_space};
use vstd::prelude::*;

verus! {

// ---------------------------------------------------------------------------
// What stands in a document.
// ---------------------------------------------------------------------------

/// Whether one condition is another or stands inside it.
pub open spec fn part_of(sub: ConditionView, c: ConditionView) -> bool
    decreases c,
{
    sub == c || match c {
        ConditionView::And { conditions } => exists|i: int|
            0 <= i < conditions.len() && part_of(sub, #[trigger] conditions[i]),
        ConditionView::Or { conditions } => exists|i: int|
            0 <= i < conditions.len() && part_of(sub, #[trigger] conditions[i]),
        ConditionView::Not { condition } => part_of(sub, *condition),
        _ => false,
    }
}

/// Whether an operand stands in a condition.
pub open spec fn reads(c: ConditionView, v: ValueSource) -> bool
    decreases c,
{
    match c {
        ConditionView::Compare { lhs, op, rhs } => v == lhs || v == rhs,
        ConditionView::CrossesAbove { lhs, rhs } => v == lhs || v == rhs,
        ConditionView::CrossesBelow { lhs, rhs } => v == lhs || v == rhs,
        ConditionView::And { conditions } => exists|i: int|
            0 <= i < conditions.len() && reads(#[trigger] conditions[i], v),
        ConditionView::Or { conditions } => exists|i: int|
            0 <= i < conditions.len() && reads(#[trigger] conditions[i], v),
        ConditionView::Not { condition } => reads(*condition, v),
    }
}

/// Whether a condition stands in a document: in the entry, a filter or a signal exit.
pub open spec fn stands_in(sub: ConditionView, dsl: StrategyDslView) -> bool {
    ||| part_of(sub, dsl.entry)
    ||| exists|i: int| 0 <= i < dsl.filters.len() && part_of(sub, #[trigger] dsl.filters[i])
    ||| exists|i: int|
        0 <= i < dsl.exits.len() && ((#[trigger] dsl.exits[i]) matches ExitRuleView::SignalExit {
            condition,
        } && part_of(sub, condition))
}

/// Whether an operand stands in a document.
pub open spec fn read_in(v: ValueSource, dsl: StrategyDslView) -> bool {
    ||| reads(dsl.entry, v)
    ||| exists|i: int| 0 <= i < dsl.filters.len() && reads(#[trigger] dsl.filters[i], v)
    ||| exists|i: int|
        0 <= i < dsl.exits.len() && ((#[trigger] dsl.exits[i]) matches ExitRuleView::SignalExit {
            condition,
        } && reads(condition, v))
}

// ---------------------------------------------------------------------------
// What is wrong with a part of a document.
// ---------------------------------------------------------------------------

/// What is wrong with a single condition, apart from its parts and operands.
pub open spec fn wrong_condition(c: ConditionView, code: ValidationCode) -> bool {
    match code {
        ValidationCode::DegenerateCross => match c {
            ConditionView::CrossesAbove { lhs, rhs } => lhs is Constant && rhs is Constant,
            ConditionView::CrossesBelow { lhs, rhs } => lhs is Constant && rhs is Constant,
            _ => false,
        },
        ValidationCode::EmptyConjunction => match c {
            ConditionView::And { conditions } => conditions.len() == 0,
            ConditionView::Or { conditions } => conditions.len() == 0,
            _ => false,
        },
        _ => false,
    }
}

/// What is wrong with a period.
pub open spec fn wrong_period(period: SweepableValue<u32>, code: ValidationCode) -> bool {
    match code {
        ValidationCode::SweepUnsupported => period is Sweep,
        ValidationCode::FieldRange => period == SweepableValue::Fixed(0u32),
        _ => false,
    }
}

/// What is wrong with an indicator: one of its periods, or a fast period that is not
/// below the slow one.
pub open spec fn wrong_indicator(spec: IndicatorSpec, code: ValidationCode) -> bool {
    match spec {
        IndicatorSpec::Rsi { period } => wrong_period(period, code),
        IndicatorSpec::Ema { period } => wrong_period(period, code),
        IndicatorSpec::Adx { period } => wrong_period(period, code),
        IndicatorSpec::Atr { period } => wrong_period(period, code),
        IndicatorSpec::Macd { fast, slow, signal } => {
            ||| wrong_period(fast, code)
            ||| wrong_period(slow, code)
            ||| wrong_period(signal, code)
            ||| code == ValidationCode::FieldRange && (fast matches SweepableValue::Fixed(f)
                && slow matches SweepableValue::Fixed(s) && f >= s)
        },
    }
}

/// What is wrong with an operand.
pub open spec fn wrong_operand(v: ValueSource, code: ValidationCode) -> bool {
    match v {
        ValueSource::Indicator { spec, .. } => wrong_indicator(spec, code),
        _ => false,
    }
}

/// What is wrong with a number that has to lie above one bound and, where there is one,
/// below or at another; bounds are in units.
pub open spec fn wrong_number(
    number: SweepableValue<Decimal>,
    code: ValidationCode,
    in_range: spec_fn(int) -> bool,
) -> bool {
    match code {
        ValidationCode::SweepUnsupported => number is Sweep,
        ValidationCode::FieldRange => number matches SweepableValue::Fixed(d) && !in_range(d.units()),
        _ => false,
    }
}

/// The number one, in units.
pub open spec fn one_unit() -> int {
    pow10(MAX_SCALE as nat)
}

/// What is wrong with an exit rule, apart from the condition of a signal exit.
pub open spec fn wrong_exit(e: ExitRuleView, code: ValidationCode) -> bool {
    match e {
        ExitRuleView::StopLoss { distance_pct } => wrong_number(
            distance_pct,
            code,
            |u: int| 0 < u < one_unit(),
        ),
        ExitRuleView::TakeProfit { target_r } => wrong_number(target_r, code, |u: int| 0 < u),
        ExitRuleView::TrailingStop { trail_pct } => wrong_number(
            trail_pct,
            code,
            |u: int| 0 < u < one_unit(),
        ),
        ExitRuleView::TimeStop { max_bars } => wrong_period(max_bars, code),
        ExitRuleView::SignalExit { .. } => false,
        ExitRuleView::AtrStop { period, multiple } => wrong_period(period, code) || wrong_number(
            multiple,
            code,
            |u: int| 0 < u <= 10 * one_unit(),
        ),
    }
}

/// What is wrong with the risk inputs.
pub open spec fn wrong_risk(risk: RiskParams, code: ValidationCode) -> bool {
    ||| wrong_number(risk.risk_per_trade_pct, code, |u: int| 0 < u <= one_unit())
    ||| wrong_number(risk.max_leverage, code, |u: int| one_unit() <= u)
}

/// Whether an error with a code is among a list.
pub open spec fn reported(errors: Seq<FieldErrorView>, code: ValidationCode) -> bool {
    exists|k: int| 0 <= k < errors.len() && (#[trigger] errors[k]).code == code
}

proof fn lemma_reported_concat(
    a: Seq<FieldErrorView>,
    b: Seq<FieldErrorView>,
    code: ValidationCode,
)
    ensures
        reported(a + b, code) <==> reported(a, code) || reported(b, code),
{
    let c = a + b;
    if reported(a, code) {
        let k = choose|k: int| 0 <= k < a.len() && (#[trigger] a[k]).code == code;
        assert(c[k].code == code);
    }
    if reported(b, code) {
        let k = choose|k: int| 0 <= k < b.len() && (#[trigger] b[k]).code == code;
        assert(c[a.len() + k].code == code);
    }
    if reported(c, code) {
        let k = choose|k: int| 0 <= k < c.len() && (#[trigger] c[k]).code == code;
        if k < a.len() {
            assert(a[k].code == code);
        } else {
            assert(b[k - a.len()].code == code);
        }
    }
}

proof fn lemma_reported_one(errors: Seq<FieldErrorView>, code: ValidationCode)
    requires
        errors.len() <= 1,
    ensures
        reported(errors, code) <==> errors.len() == 1 && errors[0].code == code,
{
    if errors.len() == 1 && errors[0].code == code {
        assert(errors[0].code == code);
    }
}

proof fn lemma_indicator_reported(spec: IndicatorSpec, path: Seq<char>, code: ValidationCode)
    ensures
        reported(indicator_errors(spec, path), code) <==> wrong_indicator(spec, code),
{
    if let IndicatorSpec::Macd { fast, slow, signal } = spec {
        let ef = count_errors(fast, path + ".macd.fast"@, "MACD fast"@);
        let es = count_errors(slow, path + ".macd.slow"@, "MACD slow"@);
        let eg = count_errors(signal, path + ".macd.signal"@, "MACD signal"@);
        let eo = macd_order_errors(fast, slow, path);
        lemma_reported_one(ef, code);
        lemma_reported_one(es, code);
        lemma_reported_one(eg, code);
        lemma_reported_one(eo, code);
        lemma_reported_concat(ef, es, code);
        lemma_reported_concat(ef + es, eg, code);
        lemma_reported_concat(ef + es + eg, eo, code);
    } else {
        lemma_reported_one(indicator_errors(spec, path), code);
    }
}

proof fn lemma_operands_reported(
    lhs: ValueSource,
    rhs: ValueSource,
    path: Seq<char>,
    code: ValidationCode,
)
    ensures
        reported(operand_errors(lhs, rhs, path), code) <==> wrong_operand(lhs, code)
            || wrong_operand(rhs, code),
{
    let l = path + ".lhs"@;
    let r = path + ".rhs"@;
    lemma_reported_concat(value_errors(lhs, l), value_errors(rhs, r), code);
    lemma_reported_one(Seq::empty(), code);
    if let ValueSource::Indicator { spec, .. } = lhs {
        lemma_indicator_reported(spec, l + ".indicator"@, code);
    }
    if let ValueSource::Indicator { spec, .. } = rhs {
        lemma_indicator_reported(spec, r + ".indicator"@, code);
    }
}

/// Whether something is wrong in a condition: with a part of it, or with an operand.
spec fn wrong_in(c: ConditionView, code: ValidationCode) -> bool {
    ||| exists|sub: ConditionView| #[trigger] part_of(sub, c) && wrong_condition(sub, code)
    ||| exists|v: ValueSource| #[trigger] reads(c, v) && wrong_operand(v, code)
}

/// What is wrong in a condition without parts is wrong with itself or its operands.
proof fn lemma_wrong_in_leaf(
    c: ConditionView,
    lhs: ValueSource,
    rhs: ValueSource,
    code: ValidationCode,
)
    requires
        c is Compare || c is CrossesAbove || c is CrossesBelow,
        forall|v: ValueSource| #[trigger] reads(c, v) <==> v == lhs || v == rhs,
    ensures
        wrong_in(c, code) <==> wrong_condition(c, code) || wrong_operand(lhs, code)
            || wrong_operand(rhs, code),
{
    assert(part_of(c, c));
    assert(reads(c, lhs));
    assert(reads(c, rhs));
}

/// What is wrong in a group is wrong with the group or in a member.
proof fn lemma_wrong_in_group(
    c: ConditionView,
    conditions: Seq<ConditionView>,
    code: ValidationCode,
)
    requires
        c == (ConditionView::And { conditions }) || c == (ConditionView::Or { conditions }),
    ensures
        wrong_in(c, code) <==> wrong_condition(c, code) || exists|i: int|
            0 <= i < conditions.len() && wrong_in(#[trigger] conditions[i], code),
{
    assert(part_of(c, c));
    if wrong_in(c, code) && !wrong_condition(c, code) {
        if exists|sub: ConditionView| #[trigger] part_of(sub, c) && wrong_condition(sub, code) {
            let sub = choose|sub: ConditionView| #[trigger]
                part_of(sub, c) && wrong_condition(sub, code);
            let i = choose|i: int|
                0 <= i < conditions.len() && part_of(sub, #[trigger] conditions[i]);
            assert(wrong_in(conditions[i], code));
        } else {
            let v = choose|v: ValueSource| #[trigger] reads(c, v) && wrong_operand(v, code);
            let i = choose|i: int| 0 <= i < conditions.len() && reads(#[trigger] conditions[i], v);
            assert(wrong_in(conditions[i], code));
        }
    }
    if exists|i: int| 0 <= i < conditions.len() && wrong_in(#[trigger] conditions[i], code) {
        let i = choose|i: int| 0 <= i < conditions.len() && wrong_in(#[trigger] conditions[i], code);
        if exists|sub: ConditionView| #[trigger]
            part_of(sub, conditions[i]) && wrong_condition(sub, code) {
            let sub = choose|sub: ConditionView| #[trigger]
                part_of(sub, conditions[i]) && wrong_condition(sub, code);
            assert(part_of(sub, c));
        } else {
            let v = choose|v: ValueSource| #[trigger]
                reads(conditions[i], v) && wrong_operand(v, code);
            match c {
                ConditionView::And { conditions: members } => assert(reads(members[i], v)),
                ConditionView::Or { conditions: members } => assert(reads(members[i], v)),
                _ => {},
            }
            assert(reads(c, v));
        }
    }
}

proof fn lemma_wrong_in_not(c: ConditionView, inner: ConditionView, code: ValidationCode)
    requires
        c == (ConditionView::Not { condition: Box::new(inner) }),
    ensures
        wrong_in(c, code) <==> wrong_in(inner, code),
{
    assert(part_of(c, c));
    if wrong_in(c, code) {
        if exists|sub: ConditionView| #[trigger] part_of(sub, c) && wrong_condition(sub, code) {
            let sub = choose|sub: ConditionView| #[trigger]
                part_of(sub, c) && wrong_condition(sub, code);
            assert(part_of(sub, inner));
        } else {
            let v = choose|v: ValueSource| #[trigger] reads(c, v) && wrong_operand(v, code);
            assert(reads(inner, v));
        }
    }
    if wrong_in(inner, code) {
        if exists|sub: ConditionView| #[trigger] part_of(sub, inner) && wrong_condition(sub, code) {
            let sub = choose|sub: ConditionView| #[trigger]
                part_of(sub, inner) && wrong_condition(sub, code);
            assert(part_of(sub, c));
        } else {
            let v = choose|v: ValueSource| #[trigger] reads(inner, v) && wrong_operand(v, code);
            assert(reads(c, v));
        }
    }
}

proof fn lemma_condition_reported(c: ConditionView, path: Seq<char>, code: ValidationCode)
    ensures
        reported(condition_errors(c, path), code) <==> wrong_in(c, code),
    decreases c, 0nat,
{
    match c {
        ConditionView::Compare { lhs, op, rhs } => {
            lemma_operands_reported(lhs, rhs, path, code);
            lemma_wrong_in_leaf(c, lhs, rhs, code);
        },
        ConditionView::CrossesAbove { lhs, rhs } => {
            let head = cross_errors(lhs, rhs, path + ".crosses_above"@);
            lemma_operands_reported(lhs, rhs, path, code);
            lemma_wrong_in_leaf(c, lhs, rhs, code);
            lemma_reported_one(head, code);
            lemma_reported_concat(head, operand_errors(lhs, rhs, path), code);
        },
        ConditionView::CrossesBelow { lhs, rhs } => {
            let head = cross_errors(lhs, rhs, path + ".crosses_below"@);
            lemma_operands_reported(lhs, rhs, path, code);
            lemma_wrong_in_leaf(c, lhs, rhs, code);
            lemma_reported_one(head, code);
            lemma_reported_concat(head, operand_errors(lhs, rhs, path), code);
        },
        ConditionView::And { conditions } => {
            let n = conditions.len();
            let stem = path + ".and["@;
            let head = empty_group_errors(
                n,
                path + ".and"@,
                "an empty `And` is vacuously true (always fires); add at least one condition"@,
            );
            lemma_members_reported(conditions, stem, code, n);
            lemma_wrong_in_group(c, conditions, code);
            lemma_reported_one(head, code);
            lemma_reported_concat(head, member_errors(conditions, stem, n), code);
        },
        ConditionView::Or { conditions } => {
            let n = conditions.len();
            let stem = path + ".or["@;
            let head = empty_group_errors(
                n,
                path + ".or"@,
                "an empty `Or` is vacuously false (never fires); add at least one condition"@,
            );
            lemma_members_reported(conditions, stem, code, n);
            lemma_wrong_in_group(c, conditions, code);
            lemma_reported_one(head, code);
            lemma_reported_concat(head, member_errors(conditions, stem, n), code);
        },
        ConditionView::Not { condition } => {
            lemma_condition_reported(*condition, path + ".not"@, code);
            lemma_wrong_in_not(c, *condition, code);
        },
    }
}

proof fn lemma_members_reported(
    conditions: Seq<ConditionView>,
    stem: Seq<char>,
    code: ValidationCode,
    n: nat,
)
    requires
        n <= conditions.len(),
    ensures
        reported(member_errors(conditions, stem, n), code) <==> exists|i: int|
            0 <= i < n && wrong_in(#[trigger] conditions[i], code),
    decreases conditions, n,
{
    if n > 0 {
        let m = (n - 1) as nat;
        let path = member_path(stem, m);
        lemma_members_reported(conditions, stem, code, m);
        lemma_condition_reported(conditions[n - 1], path, code);
        lemma_reported_concat(
            member_errors(conditions, stem, m),
            condition_errors(conditions[n - 1], path),
            code,
        );
        if wrong_in(conditions[n - 1], code) {
            assert(wrong_in(conditions[n - 1], code));
        }
    }
}

/// Whether something is wrong in an exit rule.
spec fn wrong_in_exit(e: ExitRuleView, code: ValidationCode) -> bool {
    wrong_exit(e, code) || (e matches ExitRuleView::SignalExit { condition } && wrong_in(
        condition,
        code,
    ))
}

proof fn lemma_exit_reported(e: ExitRuleView, base: Seq<char>, code: ValidationCode)
    ensures
        reported(exit_errors(e, base), code) <==> wrong_in_exit(e, code),
{
    let errors = exit_errors(e, base);
    match e {
        ExitRuleView::SignalExit { condition } => {
            lemma_condition_reported(condition, base + ".condition"@, code);
        },
        ExitRuleView::AtrStop { period, multiple } => {
            let a = count_errors(period, base + ".period"@, "ATR period"@);
            let b = errors.skip(a.len() as int);
            assert(errors =~= a + b);
            lemma_reported_one(a, code);
            lemma_reported_one(b, code);
            lemma_reported_concat(a, b, code);
        },
        _ => lemma_reported_one(errors, code),
    }
}

proof fn lemma_exits_reported(exits: Seq<ExitRuleView>, code: ValidationCode, n: nat)
    requires
        n <= exits.len(),
    ensures
        reported(each_exit_errors(exits, n), code) <==> exists|i: int|
            0 <= i < n && wrong_in_exit(#[trigger] exits[i], code),
    decreases n,
{
    if n > 0 {
        let m = (n - 1) as nat;
        let base = member_path("exits["@, m);
        lemma_exits_reported(exits, code, m);
        lemma_exit_reported(exits[n - 1], base, code);
        lemma_reported_concat(each_exit_errors(exits, m), exit_errors(exits[n - 1], base), code);
        if wrong_in_exit(exits[n - 1], code) {
            assert(wrong_in_exit(exits[n - 1], code));
        }
    }
}

proof fn lemma_risk_reported(risk: RiskParams, code: ValidationCode)
    ensures
        reported(risk_errors(risk), code) <==> wrong_risk(risk, code),
{
    let errors = risk_errors(risk);
    let first = risk.risk_per_trade_pct;
    let cut = if wrong_number(first, ValidationCode::SweepUnsupported, |u: int| true)
        || wrong_number(first, ValidationCode::FieldRange, |u: int| 0 < u <= one_unit()) {
        1int
    } else {
        0int
    };
    let a = errors.take(cut);
    let b = errors.skip(cut);
    assert(errors =~= a + b);
    lemma_reported_one(a, code);
    lemma_reported_one(b, code);
    lemma_reported_concat(a, b, code);
}

// ---------------------------------------------------------------------------
// Exits that exclude one another.
// ---------------------------------------------------------------------------

proof fn lemma_kind_count(exits: Seq<ExitRuleView>, kind: ExclusiveExit, n: nat)
    requires
        n <= exits.len(),
    ensures
        kind_count(exits, kind, n) > 0 <==> exists|i: int|
            0 <= i < n && exclusive_kind(#[trigger] exits[i]) == Some(kind),
        kind_count(exits, kind, n) > 1 <==> exists|i: int, j: int|
            0 <= i < j < n && exclusive_kind(#[trigger] exits[i]) == Some(kind) && exclusive_kind(
                #[trigger] exits[j],
            ) == Some(kind),
    decreases n,
{
    if n > 0 {
        let m = (n - 1) as nat;
        lemma_kind_count(exits, kind, m);
        if exclusive_kind(exits[n - 1]) == Some(kind) && kind_count(exits, kind, m) > 0 {
            let i = choose|i: int| 0 <= i < m && exclusive_kind(#[trigger] exits[i]) == Some(kind);
            assert(exclusive_kind(exits[i]) == Some(kind) && exclusive_kind(exits[n - 1]) == Some(
                kind,
            ));
        }
        if kind_count(exits, kind, m) > 1 {
            let (i, j) = choose|i: int, j: int|
                0 <= i < j < m && exclusive_kind(#[trigger] exits[i]) == Some(kind)
                    && exclusive_kind(#[trigger] exits[j]) == Some(kind);
            assert(exclusive_kind(exits[i]) == Some(kind) && exclusive_kind(exits[j]) == Some(
                kind,
            ));
        }
        if kind_count(exits, kind, m) > 0 {
            let i = choose|i: int| 0 <= i < m && exclusive_kind(#[trigger] exits[i]) == Some(kind);
            assert(exclusive_kind(exits[i]) == Some(kind));
        }
    }
}

/// Whether two rules are of one family of which there may be one.
pub open spec fn exclude_each_other(a: ExitRuleView, b: ExitRuleView) -> bool {
    ||| (a is StopLoss || a is AtrStop) && (b is StopLoss || b is AtrStop)
    ||| a is TakeProfit && b is TakeProfit
    ||| a is TrailingStop && b is TrailingStop
    ||| a is TimeStop && b is TimeStop
}

proof fn lemma_exit_list_reported(exits: Seq<ExitRuleView>, code: ValidationCode)
    ensures
        reported(exits_errors(exits), code) <==> {
            ||| exists|i: int| 0 <= i < exits.len() && wrong_in_exit(#[trigger] exits[i], code)
            ||| code == ValidationCode::NoExit && exits.len() == 0
            ||| code == ValidationCode::TakeProfitWithoutStop && (exists|i: int|
                0 <= i < exits.len() && (#[trigger] exits[i]) is TakeProfit) && (forall|i: int|
                0 <= i < exits.len() ==> !((#[trigger] exits[i]) is StopLoss)
                    && !(exits[i] is AtrStop))
            ||| code == ValidationCode::DuplicateExit && exists|i: int, j: int|
                0 <= i < j < exits.len() && exclude_each_other(
                    #[trigger] exits[i],
                    #[trigger] exits[j],
                )
        },
{
    let n = exits.len();
    let none = no_exit_errors(exits);
    let each = each_exit_errors(exits, n);
    let bare = target_without_stop_errors(exits);
    let d1 = duplicate_errors(
        exits_of_kind(exits, ExclusiveExit::Stop),
        "stop (StopLoss or AtrStop)"@,
    );
    let d2 = duplicate_errors(exits_of_kind(exits, ExclusiveExit::TakeProfit), "TakeProfit"@);
    let d3 = duplicate_errors(exits_of_kind(exits, ExclusiveExit::Trailing), "TrailingStop"@);
    let d4 = duplicate_errors(exits_of_kind(exits, ExclusiveExit::Time), "TimeStop"@);
    lemma_exits_reported(exits, code, n);
    lemma_reported_one(none, code);
    lemma_reported_one(bare, code);
    lemma_reported_one(d1, code);
    lemma_reported_one(d2, code);
    lemma_reported_one(d3, code);
    lemma_reported_one(d4, code);
    lemma_reported_concat(none, each, code);
    lemma_reported_concat(none + each, bare, code);
    lemma_reported_concat(none + each + bare, d1, code);
    lemma_reported_concat(none + each + bare + d1, d2, code);
    lemma_reported_concat(none + each + bare + d1 + d2, d3, code);
    lemma_reported_concat(none + each + bare + d1 + d2 + d3, d4, code);
    lemma_stops(exits);
    lemma_duplicates(exits);
}

proof fn lemma_stops(exits: Seq<ExitRuleView>)
    ensures
        exits_of_kind(exits, ExclusiveExit::Stop) == 0 <==> forall|i: int|
            0 <= i < exits.len() ==> !((#[trigger] exits[i]) is StopLoss) && !(exits[i] is AtrStop),
        exits_of_kind(exits, ExclusiveExit::TakeProfit) > 0 <==> exists|i: int|
            0 <= i < exits.len() && (#[trigger] exits[i]) is TakeProfit,
{
    let n = exits.len();
    lemma_kind_count(exits, ExclusiveExit::Stop, n);
    lemma_kind_count(exits, ExclusiveExit::TakeProfit, n);
    if exits_of_kind(exits, ExclusiveExit::Stop) == 0 {
        assert forall|i: int| 0 <= i < n implies !((#[trigger] exits[i]) is StopLoss) && !(
        exits[i] is AtrStop) by {
            assert(exclusive_kind(exits[i]) != Some(ExclusiveExit::Stop));
        }
    } else {
        let i = choose|i: int|
            0 <= i < n && exclusive_kind(#[trigger] exits[i]) == Some(ExclusiveExit::Stop);
        assert(exits[i] is StopLoss || exits[i] is AtrStop);
    }
    if exits_of_kind(exits, ExclusiveExit::TakeProfit) > 0 {
        let i = choose|i: int|
            0 <= i < n && exclusive_kind(#[trigger] exits[i]) == Some(ExclusiveExit::TakeProfit);
        assert(exits[i] is TakeProfit);
    } else {
        assert forall|i: int| 0 <= i < n implies !((#[trigger] exits[i]) is TakeProfit) by {
            assert(exclusive_kind(exits[i]) != Some(ExclusiveExit::TakeProfit));
        }
    }
}

proof fn lemma_duplicates(exits: Seq<ExitRuleView>)
    ensures
        (exits_of_kind(exits, ExclusiveExit::Stop) > 1 || exits_of_kind(
            exits,
            ExclusiveExit::TakeProfit,
        ) > 1 || exits_of_kind(exits, ExclusiveExit::Trailing) > 1 || exits_of_kind(
            exits,
            ExclusiveExit::Time,
        ) > 1) <==> exists|i: int, j: int|
            0 <= i < j < exits.len() && exclude_each_other(#[trigger] exits[i], #[trigger] exits[j]),
{
    let n = exits.len();
    lemma_kind_count(exits, ExclusiveExit::Stop, n);
    lemma_kind_count(exits, ExclusiveExit::TakeProfit, n);
    lemma_kind_count(exits, ExclusiveExit::Trailing, n);
    lemma_kind_count(exits, ExclusiveExit::Time, n);
    lemma_pair_of(exits, ExclusiveExit::Stop);
    lemma_pair_of(exits, ExclusiveExit::TakeProfit);
    lemma_pair_of(exits, ExclusiveExit::Trailing);
    lemma_pair_of(exits, ExclusiveExit::Time);
    if exists|i: int, j: int|
        0 <= i < j < n && exclude_each_other(#[trigger] exits[i], #[trigger] exits[j]) {
        let (i, j) = choose|i: int, j: int|
            0 <= i < j < n && exclude_each_other(#[trigger] exits[i], #[trigger] exits[j]);
        let kind = exclusive_kind(exits[i])->0;
        assert(exclusive_kind(exits[i]) == Some(kind) && exclusive_kind(exits[j]) == Some(kind));
        assert(kind_count(exits, kind, n) > 1);
    }
}

proof fn lemma_pair_of(exits: Seq<ExitRuleView>, kind: ExclusiveExit)
    ensures
        exits_of_kind(exits, kind) > 1 ==> exists|i: int, j: int|
            0 <= i < j < exits.len() && exclude_each_other(#[trigger] exits[i], #[trigger] exits[j]),
{
    lemma_kind_count(exits, kind, exits.len());
    if exits_of_kind(exits, kind) > 1 {
        let (i, j) = choose|i: int, j: int|
            0 <= i < j < exits.len() && exclusive_kind(#[trigger] exits[i]) == Some(kind)
                && exclusive_kind(#[trigger] exits[j]) == Some(kind);
        assert(exclude_each_other(exits[i], exits[j]));
    }
}

// ---------------------------------------------------------------------------
// The laws.
// ---------------------------------------------------------------------------

/// Whether something is wrong in a document, of the kind that a code names.
pub open spec fn wrong_document(dsl: StrategyDslView, code: ValidationCode) -> bool {
    match code {
        ValidationCode::EmptyName => forall|i: int|
            0 <= i < dsl.name.len() ==> is_white_space(#[trigger] dsl.name[i]),
        ValidationCode::NoExit => dsl.exits.len() == 0,
        ValidationCode::TakeProfitWithoutStop => {
            &&& exists|i: int| 0 <= i < dsl.exits.len() && (#[trigger] dsl.exits[i]) is TakeProfit
            &&& forall|i: int|
                0 <= i < dsl.exits.len() ==> !((#[trigger] dsl.exits[i]) is StopLoss) && !(
                dsl.exits[i] is AtrStop)
        },
        ValidationCode::DuplicateExit => exists|i: int, j: int|
            0 <= i < j < dsl.exits.len() && exclude_each_other(
                #[trigger] dsl.exits[i],
                #[trigger] dsl.exits[j],
            ),
        _ => {
            ||| exists|sub: ConditionView| #[trigger]
                stands_in(sub, dsl) && wrong_condition(sub, code)
            ||| exists|v: ValueSource| #[trigger] read_in(v, dsl) && wrong_operand(v, code)
            ||| exists|i: int| 0 <= i < dsl.exits.len() && wrong_exit(#[trigger] dsl.exits[i], code)
            ||| wrong_risk(dsl.risk, code)
        },
    }
}

/// What is wrong anywhere in the conditions of a document or with its exits.
spec fn wrong_somewhere(dsl: StrategyDslView, code: ValidationCode) -> bool {
    ||| wrong_in(dsl.entry, code)
    ||| exists|i: int| 0 <= i < dsl.filters.len() && wrong_in(#[trigger] dsl.filters[i], code)
    ||| exists|i: int| 0 <= i < dsl.exits.len() && wrong_in_exit(#[trigger] dsl.exits[i], code)
}

proof fn lemma_wrong_somewhere(dsl: StrategyDslView, code: ValidationCode)
    ensures
        wrong_somewhere(dsl, code) <==> {
            ||| exists|sub: ConditionView| #[trigger]
                stands_in(sub, dsl) && wrong_condition(sub, code)
            ||| exists|v: ValueSource| #[trigger] read_in(v, dsl) && wrong_operand(v, code)
            ||| exists|i: int| 0 <= i < dsl.exits.len() && wrong_exit(#[trigger] dsl.exits[i], code)
        },
{
    if wrong_in(dsl.entry, code) {
        lemma_wrong_stands(dsl.entry, dsl, code);
    }
    if exists|i: int| 0 <= i < dsl.filters.len() && wrong_in(#[trigger] dsl.filters[i], code) {
        let i = choose|i: int| 0 <= i < dsl.filters.len() && wrong_in(#[trigger] dsl.filters[i], code);
        lemma_wrong_stands(dsl.filters[i], dsl, code);
    }
    if exists|i: int| 0 <= i < dsl.exits.len() && wrong_in_exit(#[trigger] dsl.exits[i], code) {
        let i = choose|i: int|
            0 <= i < dsl.exits.len() && wrong_in_exit(#[trigger] dsl.exits[i], code);
        if wrong_exit(dsl.exits[i], code) {
            assert(wrong_exit(dsl.exits[i], code));
        } else if let ExitRuleView::SignalExit { condition } = dsl.exits[i] {
            lemma_wrong_stands(condition, dsl, code);
        }
    }
    if exists|sub: ConditionView| #[trigger] stands_in(sub, dsl) && wrong_condition(sub, code) {
        let sub = choose|sub: ConditionView| #[trigger]
            stands_in(sub, dsl) && wrong_condition(sub, code);
        if part_of(sub, dsl.entry) {
            assert(wrong_in(dsl.entry, code));
        } else if exists|i: int|
            0 <= i < dsl.filters.len() && part_of(sub, #[trigger] dsl.filters[i]) {
            let i = choose|i: int|
                0 <= i < dsl.filters.len() && part_of(sub, #[trigger] dsl.filters[i]);
            assert(wrong_in(dsl.filters[i], code));
        } else {
            let i = choose|i: int|
                0 <= i < dsl.exits.len() && ((
                #[trigger] dsl.exits[i]) matches ExitRuleView::SignalExit { condition } && part_of(
                    sub,
                    condition,
                ));
            assert(wrong_in_exit(dsl.exits[i], code));
        }
    }
    if exists|v: ValueSource| #[trigger] read_in(v, dsl) && wrong_operand(v, code) {
        let v = choose|v: ValueSource| #[trigger] read_in(v, dsl) && wrong_operand(v, code);
        if reads(dsl.entry, v) {
            assert(wrong_in(dsl.entry, code));
        } else if exists|i: int| 0 <= i < dsl.filters.len() && reads(#[trigger] dsl.filters[i], v) {
            let i = choose|i: int| 0 <= i < dsl.filters.len() && reads(#[trigger] dsl.filters[i], v);
            assert(wrong_in(dsl.filters[i], code));
        } else {
            let i = choose|i: int|
                0 <= i < dsl.exits.len() && ((
                #[trigger] dsl.exits[i]) matches ExitRuleView::SignalExit { condition } && reads(
                    condition,
                    v,
                ));
            assert(wrong_in_exit(dsl.exits[i], code));
        }
    }
    if exists|i: int| 0 <= i < dsl.exits.len() && wrong_exit(#[trigger] dsl.exits[i], code) {
        let i = choose|i: int| 0 <= i < dsl.exits.len() && wrong_exit(#[trigger] dsl.exits[i], code);
        assert(wrong_in_exit(dsl.exits[i], code));
    }
}

/// What is wrong in a condition of a document is wrong in the document.
proof fn lemma_wrong_stands(c: ConditionView, dsl: StrategyDslView, code: ValidationCode)
    requires
        wrong_in(c, code),
        c == dsl.entry || (exists|i: int| 0 <= i < dsl.filters.len() && c == #[trigger] dsl.filters[i])
            || (exists|i: int|
            0 <= i < dsl.exits.len() && (#[trigger] dsl.exits[i]) == (ExitRuleView::SignalExit {
                condition: c,
            })),
    ensures
        (exists|sub: ConditionView| #[trigger] stands_in(sub, dsl) && wrong_condition(sub, code))
            || (exists|v: ValueSource| #[trigger] read_in(v, dsl) && wrong_operand(v, code)),
{
    if exists|sub: ConditionView| #[trigger] part_of(sub, c) && wrong_condition(sub, code) {
        let sub = choose|sub: ConditionView| #[trigger] part_of(sub, c) && wrong_condition(sub, code);
        assert(stands_in(sub, dsl));
    } else {
        let v = choose|v: ValueSource| #[trigger] reads(c, v) && wrong_operand(v, code);
        assert(read_in(v, dsl));
    }
}

/// Every kind of violation is reported exactly where the document has one.
pub proof fn law_violations_are_reported(dsl: StrategyDslView, code: ValidationCode)
    ensures
        reported(strategy_errors(dsl), code) <==> wrong_document(dsl, code),
{
    let name = name_errors(dsl.name);
    let entry = condition_errors(dsl.entry, "entry"@);
    let filters = member_errors(dsl.filters, "filters["@, dsl.filters.len());
    let exits = exits_errors(dsl.exits);
    let risk = risk_errors(dsl.risk);
    lemma_reported_one(name, code);
    lemma_condition_reported(dsl.entry, "entry"@, code);
    lemma_members_reported(dsl.filters, "filters["@, code, dsl.filters.len());
    lemma_exit_list_reported(dsl.exits, code);
    lemma_risk_reported(dsl.risk, code);
    lemma_reported_concat(name, entry, code);
    lemma_reported_concat(name + entry, filters, code);
    lemma_reported_concat(name + entry + filters, exits, code);
    lemma_reported_concat(name + entry + filters + exits, risk, code);
    lemma_wrong_somewhere(dsl, code);
    lemma_not_about_conditions(dsl, code);
}

/// The violations of the whole document are not those of a part.
proof fn lemma_not_about_conditions(dsl: StrategyDslView, code: ValidationCode)
    ensures
        code == ValidationCode::EmptyName || code == ValidationCode::NoExit || code
            == ValidationCode::TakeProfitWithoutStop || code == ValidationCode::DuplicateExit
            ==> !wrong_somewhere(dsl, code) && !wrong_risk(dsl.risk, code),
{
}

/// A document is accepted exactly where nothing is wrong in it.
pub proof fn law_accepted_iff_nothing_is_wrong(dsl: StrategyDslView)
    ensures
        strategy_errors(dsl).len() == 0 <==> forall|code: ValidationCode| !#[trigger]
            wrong_document(dsl, code),
{
    let errors = strategy_errors(dsl);
    if errors.len() > 0 {
        let code = errors[0].code;
        assert(reported(errors, code));
        law_violations_are_reported(dsl, code);
    } else {
        assert forall|code: ValidationCode| !#[trigger] wrong_document(dsl, code) by {
            law_violations_are_reported(dsl, code);
        }
    }
}

/// A take-profit needs a stop, fixed or by average true range, and any of the two is one:
/// the missing stop is reported where there is a take-profit and neither, and nowhere
/// else; and two stops of either form are refused.
pub proof fn law_stops(dsl: StrategyDslView)
    ensures
        (exists|i: int|
            0 <= i < dsl.exits.len() && ((#[trigger] dsl.exits[i]) is StopLoss
                || dsl.exits[i] is AtrStop)) ==> forall|k: int|
            0 <= k < strategy_errors(dsl).len() ==> (#[trigger] strategy_errors(dsl)[k]).code
                != ValidationCode::TakeProfitWithoutStop,
        (exists|i: int| 0 <= i < dsl.exits.len() && (#[trigger] dsl.exits[i]) is TakeProfit)
            && (forall|i: int|
            0 <= i < dsl.exits.len() ==> !((#[trigger] dsl.exits[i]) is StopLoss) && !(
            dsl.exits[i] is AtrStop)) ==> exists|k: int|
            0 <= k < strategy_errors(dsl).len() && (#[trigger] strategy_errors(dsl)[k]).code
                == ValidationCode::TakeProfitWithoutStop,
        forall|i: int, j: int|
            0 <= i < dsl.exits.len() && 0 <= j < dsl.exits.len() && i != j && ((
            #[trigger] dsl.exits[i]) is StopLoss || dsl.exits[i] is AtrStop) && ((
            #[trigger] dsl.exits[j]) is StopLoss || dsl.exits[j] is AtrStop) ==> strategy_errors(
                dsl,
            ).len() > 0,
{
    law_violations_are_reported(dsl, ValidationCode::TakeProfitWithoutStop);
    law_violations_are_reported(dsl, ValidationCode::DuplicateExit);
    let errors = strategy_errors(dsl);
    if exists|i: int|
        0 <= i < dsl.exits.len() && ((#[trigger] dsl.exits[i]) is StopLoss
            || dsl.exits[i] is AtrStop) {
        assert(!reported(errors, ValidationCode::TakeProfitWithoutStop));
    }
    assert forall|i: int, j: int|
        0 <= i < dsl.exits.len() && 0 <= j < dsl.exits.len() && i != j && ((
        #[trigger] dsl.exits[i]) is StopLoss || dsl.exits[i] is AtrStop) && ((
        #[trigger] dsl.exits[j]) is StopLoss || dsl.exits[j] is AtrStop) implies errors.len()
        > 0 by {
        if i < j {
            assert(exclude_each_other(dsl.exits[i], dsl.exits[j]));
        } else {
            assert(exclude_each_other(dsl.exits[j], dsl.exits[i]));
        }
        assert(reported(errors, ValidationCode::DuplicateExit));
    }
}

// ---------------------------------------------------------------------------
// Every violation, at its place.
// ---------------------------------------------------------------------------

/// Whether every error of one list is in another.
pub open spec fn all_among(part: Seq<FieldErrorView>, errors: Seq<FieldErrorView>) -> bool {
    forall|e: FieldErrorView| #[trigger] part.contains(e) ==> errors.contains(e)
}

proof fn lemma_among_concat(a: Seq<FieldErrorView>, b: Seq<FieldErrorView>)
    ensures
        all_among(a, a + b),
        all_among(b, a + b),
{
    let c = a + b;
    assert forall|e: FieldErrorView| #[trigger] a.contains(e) implies c.contains(e) by {
        let k = choose|k: int| 0 <= k < a.len() && a[k] == e;
        assert(c[k] == e);
    }
    assert forall|e: FieldErrorView| #[trigger] b.contains(e) implies c.contains(e) by {
        let k = choose|k: int| 0 <= k < b.len() && b[k] == e;
        assert(c[a.len() + k] == e);
    }
}

proof fn lemma_among_members(conditions: Seq<ConditionView>, stem: Seq<char>, i: int, n: nat)
    requires
        0 <= i < n <= conditions.len(),
    ensures
        all_among(
            condition_errors(conditions[i], stem + digits(i as nat) + "]"@),
            member_errors(conditions, stem, n),
        ),
    decreases n,
{
    let m = (n - 1) as nat;
    lemma_among_concat(
        member_errors(conditions, stem, m),
        condition_errors(conditions[n - 1], member_path(stem, m)),
    );
    if i < m {
        lemma_among_members(conditions, stem, i, m);
    }
}

/// The errors of a condition hold those of each of its parts, at the part's own locator: of
/// each member of a group, of what is negated, and of the indicators it compares.
pub proof fn law_parts_report_into_the_whole(
    conditions: Seq<ConditionView>,
    i: int,
    lhs: ValueSource,
    rhs: ValueSource,
    op: Comparator,
    path: Seq<char>,
)
    requires
        0 <= i < conditions.len(),
    ensures
        all_among(
            condition_errors(conditions[i], path + ".and["@ + digits(i as nat) + "]"@),
            condition_errors(ConditionView::And { conditions }, path),
        ),
        all_among(
            condition_errors(conditions[i], path + ".or["@ + digits(i as nat) + "]"@),
            condition_errors(ConditionView::Or { conditions }, path),
        ),
        condition_errors(ConditionView::Not { condition: Box::new(conditions[i]) }, path)
            == condition_errors(conditions[i], path + ".not"@),
        lhs matches ValueSource::Indicator { spec, .. } ==> {
            let errors = indicator_errors(spec, path + ".lhs"@ + ".indicator"@);
            &&& all_among(
                errors,
                condition_errors(ConditionView::Compare { lhs, op, rhs }, path),
            )
            &&& all_among(
                errors,
                condition_errors(ConditionView::CrossesAbove { lhs, rhs }, path),
            )
            &&& all_among(
                errors,
                condition_errors(ConditionView::CrossesBelow { lhs, rhs }, path),
            )
        },
        rhs matches ValueSource::Indicator { spec, .. } ==> {
            let errors = indicator_errors(spec, path + ".rhs"@ + ".indicator"@);
            &&& all_among(
                errors,
                condition_errors(ConditionView::Compare { lhs, op, rhs }, path),
            )
            &&& all_among(
                errors,
                condition_errors(ConditionView::CrossesAbove { lhs, rhs }, path),
            )
            &&& all_among(
                errors,
                condition_errors(ConditionView::CrossesBelow { lhs, rhs }, path),
            )
        },
{
    reveal_with_fuel(condition_errors, 2);
    let n = conditions.len();
    lemma_among_members(conditions, path + ".and["@, i, n);
    lemma_among_members(conditions, path + ".or["@, i, n);
    lemma_among_concat(
        empty_group_errors(
            n,
            path + ".and"@,
            "an empty `And` is vacuously true (always fires); add at least one condition"@,
        ),
        member_errors(conditions, path + ".and["@, n),
    );
    lemma_among_concat(
        empty_group_errors(
            n,
            path + ".or"@,
            "an empty `Or` is vacuously false (never fires); add at least one condition"@,
        ),
        member_errors(conditions, path + ".or["@, n),
    );
    let l = value_errors(lhs, path + ".lhs"@);
    let r = value_errors(rhs, path + ".rhs"@);
    lemma_among_concat(l, r);
    lemma_among_concat(cross_errors(lhs, rhs, path + ".crosses_above"@), l + r);
    lemma_among_concat(cross_errors(lhs, rhs, path + ".crosses_below"@), l + r);
}

/// Whether an error with a code stands at a locator.
pub open spec fn reported_at(
    errors: Seq<FieldErrorView>,
    path: Seq<char>,
    code: ValidationCode,
) -> bool {
    exists|k: int|
        0 <= k < errors.len() && (#[trigger] errors[k]).path == path && errors[k].code == code
}

/// What is wrong with a single condition or indicator is reported at its own locator.
pub proof fn law_violations_have_locators(
    a: Decimal,
    b: Decimal,
    period: SweepableValue<u32>,
    fast: SweepableValue<u32>,
    slow: SweepableValue<u32>,
    signal: SweepableValue<u32>,
    code: ValidationCode,
    path: Seq<char>,
)
    ensures
        ({
            let lhs = ValueSource::Constant { value: a };
            let rhs = ValueSource::Constant { value: b };
            let macd = indicator_errors(IndicatorSpec::Macd { fast, slow, signal }, path);
            &&& reported_at(
                condition_errors(ConditionView::CrossesAbove { lhs, rhs }, path),
                path + ".crosses_above"@,
                ValidationCode::DegenerateCross,
            )
            &&& reported_at(
                condition_errors(ConditionView::CrossesBelow { lhs, rhs }, path),
                path + ".crosses_below"@,
                ValidationCode::DegenerateCross,
            )
            &&& reported_at(
                condition_errors(ConditionView::And { conditions: Seq::empty() }, path),
                path + ".and"@,
                ValidationCode::EmptyConjunction,
            )
            &&& reported_at(
                condition_errors(ConditionView::Or { conditions: Seq::empty() }, path),
                path + ".or"@,
                ValidationCode::EmptyConjunction,
            )
            &&& wrong_period(period, code) ==> {
                &&& reported_at(
                    indicator_errors(IndicatorSpec::Rsi { period }, path),
                    path + ".rsi.period"@,
                    code,
                )
                &&& reported_at(
                    indicator_errors(IndicatorSpec::Ema { period }, path),
                    path + ".ema.period"@,
                    code,
                )
                &&& reported_at(
                    indicator_errors(IndicatorSpec::Adx { period }, path),
                    path + ".adx.period"@,
                    code,
                )
                &&& reported_at(
                    indicator_errors(IndicatorSpec::Atr { period }, path),
                    path + ".atr.period"@,
                    code,
                )
            }
            &&& wrong_period(fast, code) ==> reported_at(macd, path + ".macd.fast"@, code)
            &&& wrong_period(slow, code) ==> reported_at(macd, path + ".macd.slow"@, code)
            &&& wrong_period(signal, code) ==> reported_at(macd, path + ".macd.signal"@, code)
            &&& (fast matches SweepableValue::Fixed(f) && slow matches SweepableValue::Fixed(s) && f
                >= s) ==> reported_at(macd, path + ".macd.fast"@, ValidationCode::FieldRange)
        }),
{
    let lhs = ValueSource::Constant { value: a };
    let rhs = ValueSource::Constant { value: b };
    let above = condition_errors(ConditionView::CrossesAbove { lhs, rhs }, path);
    assert(above[0].path == path + ".crosses_above"@);
    let below = condition_errors(ConditionView::CrossesBelow { lhs, rhs }, path);
    assert(below[0].path == path + ".crosses_below"@);
    let none = Seq::<ConditionView>::empty();
    let and = condition_errors(ConditionView::And { conditions: none }, path);
    assert(and[0].path == path + ".and"@);
    let or = condition_errors(ConditionView::Or { conditions: none }, path);
    assert(or[0].path == path + ".or"@);
    if wrong_period(period, code) {
        let rsi = indicator_errors(IndicatorSpec::Rsi { period }, path);
        assert(rsi[0].path == path + ".rsi.period"@);
        let ema = indicator_errors(IndicatorSpec::Ema { period }, path);
        assert(ema[0].path == path + ".ema.period"@);
        let adx = indicator_errors(IndicatorSpec::Adx { period }, path);
        assert(adx[0].path == path + ".adx.period"@);
        let atr = indicator_errors(IndicatorSpec::Atr { period }, path);
        assert(atr[0].path == path + ".atr.period"@);
    }
    let macd = indicator_errors(IndicatorSpec::Macd { fast, slow, signal }, path);
    let ef = count_errors(fast, path + ".macd.fast"@, "MACD fast"@);
    let es = count_errors(slow, path + ".macd.slow"@, "MACD slow"@);
    let eg = count_errors(signal, path + ".macd.signal"@, "MACD signal"@);
    let eo = macd_order_errors(fast, slow, path);
    assert(macd == ef + es + eg + eo);
    if wrong_period(fast, code) {
        assert(macd[0] == ef[0]);
    }
    if wrong_period(slow, code) {
        assert(macd[ef.len() as int] == es[0]);
    }
    if wrong_period(signal, code) {
        assert(macd[(ef.len() + es.len()) as int] == eg[0]);
    }
    if eo.len() > 0 {
        assert(macd[(ef.len() + es.len() + eg.len()) as int] == eo[0]);
    }
}

proof fn lemma_among_exits(exits: Seq<ExitRuleView>, i: int, n: nat)
    requires
        0 <= i < n <= exits.len(),
    ensures
        all_among(
            exit_errors(exits[i], "exits["@ + digits(i as nat) + "]"@),
            each_exit_errors(exits, n),
        ),
    decreases n,
{
    let m = (n - 1) as nat;
    lemma_among_concat(
        each_exit_errors(exits, m),
        exit_errors(exits[n - 1], member_path("exits["@, m)),
    );
    if i < m {
        lemma_among_exits(exits, i, m);
    }
}

/// The errors of a document hold those of the entry, of every filter, of every exit and of
/// the risk inputs, each at its own locator.
pub proof fn law_documents_report_every_part(dsl: StrategyDslView, i: int, j: int)
    ensures
        all_among(condition_errors(dsl.entry, "entry"@), strategy_errors(dsl)),
        0 <= i < dsl.filters.len() ==> all_among(
            condition_errors(dsl.filters[i], "filters["@ + digits(i as nat) + "]"@),
            strategy_errors(dsl),
        ),
        0 <= j < dsl.exits.len() ==> all_among(
            exit_errors(dsl.exits[j], "exits["@ + digits(j as nat) + "]"@),
            strategy_errors(dsl),
        ),
        all_among(risk_errors(dsl.risk), strategy_errors(dsl)),
{
    let name = name_errors(dsl.name);
    let entry = condition_errors(dsl.entry, "entry"@);
    let filters = member_errors(dsl.filters, "filters["@, dsl.filters.len());
    let exits = exits_errors(dsl.exits);
    let risk = risk_errors(dsl.risk);
    lemma_among_concat(name, entry);
    lemma_among_concat(name + entry, filters);
    lemma_among_concat(name + entry + filters, exits);
    lemma_among_concat(name + entry + filters + exits, risk);
    if 0 <= i < dsl.filters.len() {
        lemma_among_members(dsl.filters, "filters["@, i, dsl.filters.len());
    }
    if 0 <= j < dsl.exits.len() {
        lemma_among_exits(dsl.exits, j, dsl.exits.len());
        lemma_among_exit_list(dsl.exits);
    }
}

proof fn lemma_among_exit_list(exits: Seq<ExitRuleView>)
    ensures
        all_among(each_exit_errors(exits, exits.len()), exits_errors(exits)),
{
    let none = no_exit_errors(exits);
    let each = each_exit_errors(exits, exits.len());
    let bare = target_without_stop_errors(exits);
    let d1 = duplicate_errors(
        exits_of_kind(exits, ExclusiveExit::Stop),
        "stop (StopLoss or AtrStop)"@,
    );
    let d2 = duplicate_errors(exits_of_kind(exits, ExclusiveExit::TakeProfit), "TakeProfit"@);
    let d3 = duplicate_errors(exits_of_kind(exits, ExclusiveExit::Trailing), "TrailingStop"@);
    let d4 = duplicate_errors(exits_of_kind(exits, ExclusiveExit::Time), "TimeStop"@);
    lemma_among_concat(none, each);
    lemma_among_concat(none + each, bare);
    lemma_among_concat(none + each + bare, d1);
    lemma_among_concat(none + each + bare + d1, d2);
    lemma_among_concat(none + each + bare + d1 + d2, d3);
    lemma_among_concat(none + each + bare + d1 + d2 + d3, d4);
}

/// What is wrong with a number of an exit rule or of the risk inputs is reported at the
/// number's own locator.
pub proof fn law_wrong_numbers_have_locators(
    number: SweepableValue<Decimal>,
    other: SweepableValue<Decimal>,
    period: SweepableValue<u32>,
    code: ValidationCode,
    base: Seq<char>,
)
    ensures
        wrong_number(number, code, |u: int| 0 < u < one_unit()) ==> {
            &&& reported_at(
                exit_errors(ExitRuleView::StopLoss { distance_pct: number }, base),
                base + ".distance_pct"@,
                code,
            )
            &&& reported_at(
                exit_errors(ExitRuleView::TrailingStop { trail_pct: number }, base),
                base + ".trail_pct"@,
                code,
            )
        },
        wrong_number(number, code, |u: int| 0 < u) ==> reported_at(
            exit_errors(ExitRuleView::TakeProfit { target_r: number }, base),
            base + ".target_r"@,
            code,
        ),
        wrong_period(period, code) ==> {
            &&& reported_at(
                exit_errors(ExitRuleView::TimeStop { max_bars: period }, base),
                base + ".max_bars"@,
                code,
            )
            &&& reported_at(
                exit_errors(ExitRuleView::AtrStop { period, multiple: number }, base),
                base + ".period"@,
                code,
            )
        },
        wrong_number(number, code, |u: int| 0 < u <= 10 * one_unit()) ==> reported_at(
            exit_errors(ExitRuleView::AtrStop { period, multiple: number }, base),
            base + ".multiple"@,
            code,
        ),
        wrong_number(number, code, |u: int| 0 < u <= one_unit()) ==> reported_at(
            risk_errors(RiskParams { risk_per_trade_pct: number, max_leverage: other }),
            "risk.risk_per_trade_pct"@,
            code,
        ),
        wrong_number(number, code, |u: int| one_unit() <= u) ==> reported_at(
            risk_errors(RiskParams { risk_per_trade_pct: other, max_leverage: number }),
            "risk.max_leverage"@,
            code,
        ),
{
    if wrong_number(number, code, |u: int| 0 < u < one_unit()) {
        let stop = exit_errors(ExitRuleView::StopLoss { distance_pct: number }, base);
        assert(stop[0].path == base + ".distance_pct"@);
        let trail = exit_errors(ExitRuleView::TrailingStop { trail_pct: number }, base);
        assert(trail[0].path == base + ".trail_pct"@);
    }
    if wrong_number(number, code, |u: int| 0 < u) {
        let target = exit_errors(ExitRuleView::TakeProfit { target_r: number }, base);
        assert(target[0].path == base + ".target_r"@);
    }
    let atr = exit_errors(ExitRuleView::AtrStop { period, multiple: number }, base);
    let ep = count_errors(period, base + ".period"@, "ATR period"@);
    if wrong_period(period, code) {
        let time = exit_errors(ExitRuleView::TimeStop { max_bars: period }, base);
        assert(time[0].path == base + ".max_bars"@);
        assert(atr[0] == ep[0]);
    }
    if wrong_number(number, code, |u: int| 0 < u <= 10 * one_unit()) {
        assert(atr[ep.len() as int].path == base + ".multiple"@);
    }
    if wrong_number(number, code, |u: int| 0 < u <= one_unit()) {
        let risk = risk_errors(RiskParams { risk_per_trade_pct: number, max_leverage: other });
        assert(risk[0].path == "risk.risk_per_trade_pct"@);
    }
    if wrong_number(number, code, |u: int| one_unit() <= u) {
        let risk = risk_errors(RiskParams { risk_per_trade_pct: other, max_leverage: number });
        assert(risk[risk.len() - 1].path == "risk.max_leverage"@);
    }
}

/// What an error says: which number of which indicator, exit or risk input is wrong, and
/// within which bounds it has to lie.
pub proof fn law_messages_name_the_fault(
    a: Decimal,
    b: Decimal,
    f: u32,
    s: u32,
    g: SweepableValue<u32>,
    d: Decimal,
    e: Decimal,
    path: Seq<char>,
    exits: Seq<ExitRuleView>,
)
    ensures
        ({
            let none = SweepableValue::Fixed(0u32);
            let zero = |label: Seq<char>| label + " must be greater than 0"@;
            &&& indicator_errors(IndicatorSpec::Rsi { period: none }, path)[0].message == zero(
                "RSI period"@,
            )
            &&& indicator_errors(IndicatorSpec::Ema { period: none }, path)[0].message == zero(
                "EMA period"@,
            )
            &&& indicator_errors(IndicatorSpec::Adx { period: none }, path)[0].message == zero(
                "ADX period"@,
            )
            &&& indicator_errors(IndicatorSpec::Atr { period: none }, path)[0].message == zero(
                "ATR period"@,
            )
            &&& exit_errors(ExitRuleView::TimeStop { max_bars: none }, path)[0].message == zero(
                "time-stop max_bars"@,
            )
            &&& count_errors(none, path, "MACD fast"@)[0].message == zero("MACD fast"@)
            &&& f >= s ==> macd_order_errors(
                SweepableValue::Fixed(f),
                SweepableValue::Fixed(s),
                path,
            )[0].message == "MACD fast period ("@ + digits(f as nat)
                + ") must be strictly less than slow period ("@ + digits(s as nat) + ")"@
            &&& !(0 < d.units() < one_unit()) ==> exit_errors(
                ExitRuleView::StopLoss { distance_pct: SweepableValue::Fixed(d) },
                path,
            )[0].message == "stop distance_pct must be a decimal fraction in the range (0, 1)"@
            &&& !(0 < d.units() < one_unit()) ==> exit_errors(
                ExitRuleView::TrailingStop { trail_pct: SweepableValue::Fixed(d) },
                path,
            )[0].message == "trail_pct must be a decimal fraction in the range (0, 1)"@
            &&& d.units() <= 0 ==> exit_errors(
                ExitRuleView::TakeProfit { target_r: SweepableValue::Fixed(d) },
                path,
            )[0].message == "take-profit target_r must be greater than 0"@
            &&& !(0 < d.units() <= one_unit()) ==> risk_errors(
                RiskParams {
                    risk_per_trade_pct: SweepableValue::Fixed(d),
                    max_leverage: SweepableValue::Fixed(e),
                },
            )[0].message == "risk_per_trade_pct must be a decimal fraction in the range (0, 1]"@
            &&& exits.len() == 0 ==> exits_errors(exits)[0].message
                == "a strategy must declare at least one exit rule"@
        }),
{
    let none = SweepableValue::Fixed(0u32);
    assert(indicator_errors(IndicatorSpec::Rsi { period: none }, path).len() == 1);
    if !(0 < d.units() <= one_unit()) {
        let risk = RiskParams {
            risk_per_trade_pct: SweepableValue::Fixed(d),
            max_leverage: SweepableValue::Fixed(e),
        };
        assert(risk_errors(risk)[0].path == "risk.risk_per_trade_pct"@);
    }
    if exits.len() == 0 {
        assert(exits_errors(exits)[0] == no_exit_errors(exits)[0]);
    }
}

} // verus!
