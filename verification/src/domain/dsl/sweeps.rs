//! How validation reports a sweep: by one error, at the locator of the swept leaf.
use crate::decimal::Decimal;
use crate::domain::dsl::condition::ConditionView;
use crate::domain::dsl::exit::ExitRuleView;
use crate::domain::dsl::locators::law_locators_are_distinct;
use crate::domain::dsl::mutate::{
    condition_leaves, exit_leaves, exits_leaves, indicator_leaves, member_leaves, operand_leaves,
    period_leaf, risk_leaves, strategy_leaves, threshold_leaf, value_leaves, LeafValue, LeafView,
};
use crate::domain::dsl::risk::RiskParams;
use crate::domain::dsl::strategy::StrategyDslView;
use crate::domain::dsl::sweepable::SweepableValue;
use crate::domain::dsl::validate::{
    at_least_one, atr_multiple, condition_errors, count_errors, cross_errors, duplicate_errors,
    each_exit_errors, empty_group_errors, exit_errors, exits_errors, exits_of_kind, half_open_unit,
    indicator_errors, leaf_errors, macd_order_errors, member_errors, member_path, name_errors,
    no_exit_errors, open_unit, operand_errors, positive, risk_errors, strategy_errors, sweep_errors,
    target_without_stop_errors, value_errors, ExclusiveExit, FieldErrorView,
};
use crate::domain::dsl::value::{IndicatorSpec, ValueSource};
use vstd::prelude::*;

verus! {

/// The errors at a locator, in their order.
pub open spec fn errors_at(errors: Seq<FieldErrorView>, target: Seq<char>) -> Seq<FieldErrorView> {
    errors.filter(|e: FieldErrorView| e.path == target)
}

/// Whether a leaf holds a sweep.
pub open spec fn is_swept(leaf: LeafValue) -> bool {
    match leaf {
        LeafValue::Period(v) => v is Sweep,
        LeafValue::Threshold(v) => v is Sweep,
    }
}

proof fn lemma_at_concat(a: Seq<FieldErrorView>, b: Seq<FieldErrorView>, target: Seq<char>)
    ensures
        errors_at(a + b, target) == errors_at(a, target) + errors_at(b, target),
{
    Seq::filter_distributes_over_add(a, b, |e: FieldErrorView| e.path == target);
}

proof fn lemma_at_one(error: FieldErrorView, target: Seq<char>)
    ensures
        error.path == target ==> errors_at(seq![error], target) == seq![error],
        error.path != target ==> errors_at(seq![error], target).len() == 0,
{
    reveal(Seq::filter);
    let one = seq![error];
    assert(one.drop_last() =~= Seq::empty());
    assert(errors_at(one.drop_last(), target) =~= Seq::empty());
    assert(Seq::<FieldErrorView>::empty().push(error) =~= one);
}

proof fn lemma_at_none(target: Seq<char>)
    ensures
        errors_at(Seq::empty(), target).len() == 0,
{
    reveal(Seq::filter);
}

/// Whether the errors are, at a locator, those of the leaves there: none where there is no
/// leaf, and that of a sweep where there is one leaf and it is swept.
spec fn reports(errors: Seq<FieldErrorView>, leaves: Seq<LeafView>, target: Seq<char>) -> bool {
    &&& (forall|k: int| 0 <= k < leaves.len() ==> (#[trigger] leaves[k]).path != target)
        ==> errors_at(errors, target).len() == 0
    &&& forall|k: int|
        0 <= k < leaves.len() && only_at(leaves, target, k) && is_swept(
            (#[trigger] leaves[k]).value,
        ) ==> errors_at(errors, target) == sweep_errors(target)
}

/// Whether the leaf at a position is the only one at a locator.
spec fn only_at(leaves: Seq<LeafView>, target: Seq<char>, k: int) -> bool {
    &&& leaves[k].path == target
    &&& forall|j: int| 0 <= j < leaves.len() && j != k ==> (#[trigger] leaves[j]).path != target
}

proof fn lemma_reports_concat(
    a: Seq<FieldErrorView>,
    la: Seq<LeafView>,
    b: Seq<FieldErrorView>,
    lb: Seq<LeafView>,
    target: Seq<char>,
)
    requires
        reports(a, la, target),
        reports(b, lb, target),
    ensures
        reports(a + b, la + lb, target),
{
    lemma_at_concat(a, b, target);
    let l = la + lb;
    if forall|k: int| 0 <= k < l.len() ==> (#[trigger] l[k]).path != target {
        assert forall|k: int| 0 <= k < la.len() implies (#[trigger] la[k]).path != target by {
            assert(l[k] == la[k]);
        }
        assert forall|k: int| 0 <= k < lb.len() implies (#[trigger] lb[k]).path != target by {
            assert(l[la.len() + k] == lb[k]);
        }
    }
    assert forall|k: int| 0 <= k < l.len() && only_at(l, target, k) && is_swept(
        (#[trigger] l[k]).value,
    ) implies errors_at(a + b, target) == sweep_errors(target) by {
        if k < la.len() {
            assert(l[k] == la[k]);
            assert forall|j: int| 0 <= j < la.len() && j != k implies (#[trigger] la[j]).path
                != target by {
                assert(l[j] == la[j]);
            }
            assert forall|j: int| 0 <= j < lb.len() implies (#[trigger] lb[j]).path != target by {
                assert(l[la.len() + j] == lb[j]);
            }
            assert(only_at(la, target, k));
            assert(errors_at(a, target) + errors_at(b, target) =~= errors_at(a, target));
        } else {
            let m = k - la.len();
            assert(l[k] == lb[m]);
            assert forall|j: int| 0 <= j < lb.len() && j != m implies (#[trigger] lb[j]).path
                != target by {
                assert(l[la.len() + j] == lb[j]);
            }
            assert forall|j: int| 0 <= j < la.len() implies (#[trigger] la[j]).path != target by {
                assert(l[j] == la[j]);
            }
            assert(only_at(lb, target, m));
            assert(errors_at(a, target) + errors_at(b, target) =~= errors_at(b, target));
        }
    }
}

/// Errors that stand at no leaf's locator change nothing.
proof fn lemma_reports_beside(
    errors: Seq<FieldErrorView>,
    leaves: Seq<LeafView>,
    other: Seq<FieldErrorView>,
    target: Seq<char>,
)
    requires
        reports(errors, leaves, target),
        errors_at(other, target).len() == 0,
    ensures
        reports(errors + other, leaves, target),
        reports(other + errors, leaves, target),
{
    assert(reports(other, Seq::empty(), target));
    lemma_reports_concat(errors, leaves, other, Seq::empty(), target);
    lemma_reports_concat(other, Seq::empty(), errors, leaves, target);
    assert(leaves + Seq::<LeafView>::empty() =~= leaves);
    assert(Seq::<LeafView>::empty() + leaves =~= leaves);
}

/// The errors of one leaf: whatever they are, they stand at its locator, and a sweep has
/// its own.
proof fn lemma_reports_leaf(errors: Seq<FieldErrorView>, leaf: LeafView, target: Seq<char>)
    requires
        errors.len() <= 1,
        errors.len() == 1 ==> errors[0].path == leaf.path,
        is_swept(leaf.value) ==> errors == sweep_errors(leaf.path),
    ensures
        reports(errors, seq![leaf], target),
{
    lemma_at_none(target);
    if errors.len() == 1 {
        lemma_at_one(errors[0], target);
        assert(errors =~= seq![errors[0]]);
    } else {
        assert(errors =~= Seq::empty());
    }
    assert(seq![leaf][0] == leaf);
}

// ---------------------------------------------------------------------------
// Locators of leaves and of other things.
// ---------------------------------------------------------------------------

/// Whether a locator ends as those of leaves do: in `period`, `fast`, `slow`, `signal`,
/// `pct`, `_r`, `bars`, `multiple` or `leverage`.
spec fn ends_like_a_leaf(path: Seq<char>) -> bool {
    let n = path.len();
    &&& n >= 4
    &&& {
        let a = path[n - 2];
        let b = path[n - 1];
        ||| a == 'o' && b == 'd'
        ||| a == 's' && b == 't'
        ||| a == 'o' && b == 'w' && path[n - 4] == 's'
        ||| a == 'a' && b == 'l'
        ||| a == 'c' && b == 't'
        ||| a == '_' && b == 'r'
        ||| a == 'r' && b == 's'
        ||| a == 'l' && b == 'e'
        ||| a == 'g' && b == 'e'
    }
}

/// Whether every leaf of a list has such a locator.
spec fn leaf_like(leaves: Seq<LeafView>) -> bool {
    forall|k: int| 0 <= k < leaves.len() ==> ends_like_a_leaf((#[trigger] leaves[k]).path)
}

proof fn lemma_like_concat(a: Seq<LeafView>, b: Seq<LeafView>)
    requires
        leaf_like(a),
        leaf_like(b),
    ensures
        leaf_like(a + b),
{
    let c = a + b;
    assert forall|k: int| 0 <= k < c.len() implies ends_like_a_leaf((#[trigger] c[k]).path) by {
        if k < a.len() {
            assert(c[k] == a[k]);
        } else {
            assert(c[k] == b[k - a.len()]);
        }
    }
}

/// What ends like something else than a leaf.
proof fn lemma_other_endings(path: Seq<char>)
    ensures
        !ends_like_a_leaf(path + ".crosses_above"@),
        !ends_like_a_leaf(path + ".crosses_below"@),
        !ends_like_a_leaf(path + ".and"@),
        !ends_like_a_leaf(path + ".or"@),
        !ends_like_a_leaf("exits"@),
        !ends_like_a_leaf("name"@),
{
    reveal_strlit(".crosses_above");
    reveal_strlit(".crosses_below");
    reveal_strlit(".and");
    reveal_strlit(".or");
    reveal_strlit("exits");
    reveal_strlit("name");
}

proof fn lemma_leaf_endings(path: Seq<char>)
    ensures
        ends_like_a_leaf(path + ".rsi.period"@),
        ends_like_a_leaf(path + ".ema.period"@),
        ends_like_a_leaf(path + ".adx.period"@),
        ends_like_a_leaf(path + ".atr.period"@),
        ends_like_a_leaf(path + ".macd.fast"@),
        ends_like_a_leaf(path + ".macd.slow"@),
        ends_like_a_leaf(path + ".macd.signal"@),
        ends_like_a_leaf(path + ".distance_pct"@),
        ends_like_a_leaf(path + ".target_r"@),
        ends_like_a_leaf(path + ".trail_pct"@),
        ends_like_a_leaf(path + ".max_bars"@),
        ends_like_a_leaf(path + ".period"@),
        ends_like_a_leaf(path + ".multiple"@),
        ends_like_a_leaf("risk.risk_per_trade_pct"@),
        ends_like_a_leaf("risk.max_leverage"@),
{
    reveal_strlit(".rsi.period");
    reveal_strlit(".ema.period");
    reveal_strlit(".adx.period");
    reveal_strlit(".atr.period");
    reveal_strlit(".macd.fast");
    reveal_strlit(".macd.slow");
    reveal_strlit(".macd.signal");
    reveal_strlit(".distance_pct");
    reveal_strlit(".target_r");
    reveal_strlit(".trail_pct");
    reveal_strlit(".max_bars");
    reveal_strlit(".period");
    reveal_strlit(".multiple");
    reveal_strlit("risk.risk_per_trade_pct");
    reveal_strlit("risk.max_leverage");
}

// ---------------------------------------------------------------------------
// Down the document.
// ---------------------------------------------------------------------------

proof fn lemma_reports_period(
    v: SweepableValue<u32>,
    path: Seq<char>,
    label: Seq<char>,
    target: Seq<char>,
)
    ensures
        reports(count_errors(v, path, label), seq![period_leaf(path, v)], target),
{
    lemma_reports_leaf(count_errors(v, path, label), period_leaf(path, v), target);
}

proof fn lemma_reports_threshold(
    v: SweepableValue<Decimal>,
    in_range: spec_fn(Decimal) -> bool,
    path: Seq<char>,
    message: Seq<char>,
    target: Seq<char>,
)
    ensures
        reports(leaf_errors(v, in_range, path, message), seq![threshold_leaf(path, v)], target),
{
    lemma_reports_leaf(
        leaf_errors(v, in_range, path, message),
        threshold_leaf(path, v),
        target,
    );
}

/// The error about the order of two periods, behind the errors of the leaves.
proof fn lemma_reports_order(
    errors: Seq<FieldErrorView>,
    leaves: Seq<LeafView>,
    order: Seq<FieldErrorView>,
    target: Seq<char>,
)
    requires
        reports(errors, leaves, target),
        leaves.len() > 0,
        order.len() <= 1,
        order.len() == 1 ==> order[0].path == leaves[0].path && !is_swept(leaves[0].value),
    ensures
        reports(errors + order, leaves, target),
{
    lemma_at_concat(errors, order, target);
    lemma_at_none(target);
    if order.len() == 1 {
        lemma_at_one(order[0], target);
        assert(order =~= seq![order[0]]);
    } else {
        assert(order =~= Seq::empty());
    }
    if leaves[0].path != target || order.len() == 0 {
        assert(errors_at(errors + order, target) =~= errors_at(errors, target));
    } else {
        assert forall|k: int| 0 <= k < leaves.len() && only_at(leaves, target, k) && is_swept(
            (#[trigger] leaves[k]).value,
        ) implies false by {
            if k != 0 {
                assert(leaves[0].path != target);
            }
        }
    }
}

proof fn lemma_sweeps_macd(
    fast: SweepableValue<u32>,
    slow: SweepableValue<u32>,
    signal: SweepableValue<u32>,
    path: Seq<char>,
    target: Seq<char>,
)
    ensures
        ({
            let spec = IndicatorSpec::Macd { fast, slow, signal };
            reports(indicator_errors(spec, path), indicator_leaves(spec, path), target)
        }),
{
    let leaves = indicator_leaves(IndicatorSpec::Macd { fast, slow, signal }, path);
    let f = period_leaf(path + ".macd.fast"@, fast);
    let s = period_leaf(path + ".macd.slow"@, slow);
    let g = period_leaf(path + ".macd.signal"@, signal);
    let ef = count_errors(fast, f.path, "MACD fast"@);
    let es = count_errors(slow, s.path, "MACD slow"@);
    let eg = count_errors(signal, g.path, "MACD signal"@);
    lemma_reports_period(fast, f.path, "MACD fast"@, target);
    lemma_reports_period(slow, s.path, "MACD slow"@, target);
    lemma_reports_period(signal, g.path, "MACD signal"@, target);
    lemma_reports_concat(ef, seq![f], es, seq![s], target);
    lemma_reports_concat(ef + es, seq![f] + seq![s], eg, seq![g], target);
    assert(seq![f] + seq![s] + seq![g] =~= leaves);
    lemma_reports_order(ef + es + eg, leaves, macd_order_errors(fast, slow, path), target);
}

proof fn lemma_indicator_like(spec: IndicatorSpec, path: Seq<char>)
    ensures
        leaf_like(indicator_leaves(spec, path)),
{
    lemma_leaf_endings(path);
}

proof fn lemma_sweeps_indicator(spec: IndicatorSpec, path: Seq<char>, target: Seq<char>)
    ensures
        leaf_like(indicator_leaves(spec, path)),
        reports(indicator_errors(spec, path), indicator_leaves(spec, path), target),
{
    lemma_indicator_like(spec, path);
    match spec {
        IndicatorSpec::Macd { fast, slow, signal } => {
            lemma_sweeps_macd(fast, slow, signal, path, target);
        },
        IndicatorSpec::Rsi { period } => {
            lemma_reports_period(period, path + ".rsi.period"@, "RSI period"@, target);
        },
        IndicatorSpec::Ema { period } => {
            lemma_reports_period(period, path + ".ema.period"@, "EMA period"@, target);
        },
        IndicatorSpec::Adx { period } => {
            lemma_reports_period(period, path + ".adx.period"@, "ADX period"@, target);
        },
        IndicatorSpec::Atr { period } => {
            lemma_reports_period(period, path + ".atr.period"@, "ATR period"@, target);
        },
    }
}

proof fn lemma_sweeps_value(v: ValueSource, path: Seq<char>, target: Seq<char>)
    ensures
        leaf_like(value_leaves(v, path)),
        reports(value_errors(v, path), value_leaves(v, path), target),
{
    lemma_at_none(target);
    if let ValueSource::Indicator { spec, .. } = v {
        lemma_sweeps_indicator(spec, path + ".indicator"@, target);
    }
}

proof fn lemma_sweeps_operands(
    lhs: ValueSource,
    rhs: ValueSource,
    path: Seq<char>,
    target: Seq<char>,
)
    ensures
        leaf_like(operand_leaves(lhs, rhs, path)),
        reports(operand_errors(lhs, rhs, path), operand_leaves(lhs, rhs, path), target),
{
    let l = path + ".lhs"@;
    let r = path + ".rhs"@;
    lemma_sweeps_value(lhs, l, target);
    lemma_sweeps_value(rhs, r, target);
    lemma_like_concat(value_leaves(lhs, l), value_leaves(rhs, r));
    lemma_reports_concat(
        value_errors(lhs, l),
        value_leaves(lhs, l),
        value_errors(rhs, r),
        value_leaves(rhs, r),
        target,
    );
}

/// At most one error, at a locator that is not a leaf's.
proof fn lemma_other_error(errors: Seq<FieldErrorView>, target: Seq<char>)
    requires
        ends_like_a_leaf(target),
        errors.len() <= 1,
        errors.len() == 1 ==> !ends_like_a_leaf(errors[0].path),
    ensures
        errors_at(errors, target).len() == 0,
{
    lemma_at_none(target);
    if errors.len() == 1 {
        lemma_at_one(errors[0], target);
        assert(errors =~= seq![errors[0]]);
    } else {
        assert(errors =~= Seq::empty());
    }
}

proof fn lemma_sweeps_condition(c: ConditionView, path: Seq<char>, target: Seq<char>)
    ensures
        leaf_like(condition_leaves(c, path)),
        ends_like_a_leaf(target) ==> reports(
            condition_errors(c, path),
            condition_leaves(c, path),
            target,
        ),
    decreases c, 0nat,
{
    lemma_other_endings(path);
    let leaves = condition_leaves(c, path);
    match c {
        ConditionView::Compare { lhs, op, rhs } => lemma_sweeps_operands(lhs, rhs, path, target),
        ConditionView::CrossesAbove { lhs, rhs } => {
            lemma_sweeps_operands(lhs, rhs, path, target);
            if ends_like_a_leaf(target) {
                let head = cross_errors(lhs, rhs, path + ".crosses_above"@);
                lemma_other_error(head, target);
                lemma_reports_beside(operand_errors(lhs, rhs, path), leaves, head, target);
            }
        },
        ConditionView::CrossesBelow { lhs, rhs } => {
            lemma_sweeps_operands(lhs, rhs, path, target);
            if ends_like_a_leaf(target) {
                let head = cross_errors(lhs, rhs, path + ".crosses_below"@);
                lemma_other_error(head, target);
                lemma_reports_beside(operand_errors(lhs, rhs, path), leaves, head, target);
            }
        },
        ConditionView::And { conditions } => {
            let n = conditions.len();
            lemma_sweeps_members(conditions, path + ".and["@, target, n);
            if ends_like_a_leaf(target) {
                let head = empty_group_errors(
                    n,
                    path + ".and"@,
                    "an empty `And` is vacuously true (always fires); add at least one condition"@,
                );
                lemma_other_error(head, target);
                lemma_reports_beside(
                    member_errors(conditions, path + ".and["@, n),
                    leaves,
                    head,
                    target,
                );
            }
        },
        ConditionView::Or { conditions } => {
            let n = conditions.len();
            lemma_sweeps_members(conditions, path + ".or["@, target, n);
            if ends_like_a_leaf(target) {
                let head = empty_group_errors(
                    n,
                    path + ".or"@,
                    "an empty `Or` is vacuously false (never fires); add at least one condition"@,
                );
                lemma_other_error(head, target);
                lemma_reports_beside(
                    member_errors(conditions, path + ".or["@, n),
                    leaves,
                    head,
                    target,
                );
            }
        },
        ConditionView::Not { condition } => {
            lemma_sweeps_condition(*condition, path + ".not"@, target);
        },
    }
}

proof fn lemma_sweeps_members(
    conditions: Seq<ConditionView>,
    stem: Seq<char>,
    target: Seq<char>,
    n: nat,
)
    requires
        n <= conditions.len(),
    ensures
        leaf_like(member_leaves(conditions, stem, n)),
        ends_like_a_leaf(target) ==> reports(
            member_errors(conditions, stem, n),
            member_leaves(conditions, stem, n),
            target,
        ),
    decreases conditions, n,
{
    lemma_at_none(target);
    if n > 0 {
        let m = (n - 1) as nat;
        let path = member_path(stem, m);
        lemma_sweeps_members(conditions, stem, target, m);
        lemma_sweeps_condition(conditions[n - 1], path, target);
        lemma_like_concat(
            member_leaves(conditions, stem, m),
            condition_leaves(conditions[n - 1], path),
        );
        if ends_like_a_leaf(target) {
            lemma_reports_concat(
                member_errors(conditions, stem, m),
                member_leaves(conditions, stem, m),
                condition_errors(conditions[n - 1], path),
                condition_leaves(conditions[n - 1], path),
                target,
            );
        }
    }
}

proof fn lemma_exit_like(e: ExitRuleView, base: Seq<char>)
    requires
        !(e is SignalExit),
    ensures
        leaf_like(exit_leaves(e, base)),
{
    lemma_leaf_endings(base);
}

proof fn lemma_sweeps_exit(e: ExitRuleView, base: Seq<char>, target: Seq<char>)
    ensures
        leaf_like(exit_leaves(e, base)),
        ends_like_a_leaf(target) ==> reports(exit_errors(e, base), exit_leaves(e, base), target),
{
    if !(e is SignalExit) {
        lemma_exit_like(e, base);
    }
    match e {
        ExitRuleView::SignalExit { condition } => {
            lemma_sweeps_condition(condition, base + ".condition"@, target);
        },
        ExitRuleView::AtrStop { period, multiple } => {
            let p = base + ".period"@;
            let m = base + ".multiple"@;
            let message = "atr-stop multiple must be an ATR multiple in the range (0, 10]"@;
            lemma_reports_period(period, p, "ATR period"@, target);
            lemma_reports_threshold(multiple, atr_multiple(), m, message, target);
            let lp = seq![period_leaf(p, period)];
            let lm = seq![threshold_leaf(m, multiple)];
            lemma_reports_concat(
                count_errors(period, p, "ATR period"@),
                lp,
                leaf_errors(multiple, atr_multiple(), m, message),
                lm,
                target,
            );
            assert(lp + lm =~= exit_leaves(e, base));
        },
        ExitRuleView::StopLoss { distance_pct } => {
            lemma_reports_threshold(
                distance_pct,
                open_unit(),
                base + ".distance_pct"@,
                "stop distance_pct must be a decimal fraction in the range (0, 1)"@,
                target,
            );
        },
        ExitRuleView::TakeProfit { target_r } => {
            lemma_reports_threshold(
                target_r,
                positive(),
                base + ".target_r"@,
                "take-profit target_r must be greater than 0"@,
                target,
            );
        },
        ExitRuleView::TrailingStop { trail_pct } => {
            lemma_reports_threshold(
                trail_pct,
                open_unit(),
                base + ".trail_pct"@,
                "trail_pct must be a decimal fraction in the range (0, 1)"@,
                target,
            );
        },
        ExitRuleView::TimeStop { max_bars } => {
            lemma_reports_period(max_bars, base + ".max_bars"@, "time-stop max_bars"@, target);
        },
    }
}

proof fn lemma_sweeps_exits(exits: Seq<ExitRuleView>, target: Seq<char>, n: nat)
    requires
        n <= exits.len(),
    ensures
        leaf_like(exits_leaves(exits, n)),
        ends_like_a_leaf(target) ==> reports(
            each_exit_errors(exits, n),
            exits_leaves(exits, n),
            target,
        ),
    decreases n,
{
    lemma_at_none(target);
    if n > 0 {
        let m = (n - 1) as nat;
        let base = member_path("exits["@, m);
        lemma_sweeps_exits(exits, target, m);
        lemma_sweeps_exit(exits[n - 1], base, target);
        lemma_like_concat(exits_leaves(exits, m), exit_leaves(exits[n - 1], base));
        if ends_like_a_leaf(target) {
            lemma_reports_concat(
                each_exit_errors(exits, m),
                exits_leaves(exits, m),
                exit_errors(exits[n - 1], base),
                exit_leaves(exits[n - 1], base),
                target,
            );
        }
    }
}

/// The errors about the list of exits stand beside those about its members.
proof fn lemma_sweeps_exit_list(exits: Seq<ExitRuleView>, target: Seq<char>)
    requires
        ends_like_a_leaf(target),
    ensures
        reports(exits_errors(exits), exits_leaves(exits, exits.len()), target),
{
    let n = exits.len();
    let leaves = exits_leaves(exits, n);
    lemma_other_endings(Seq::empty());
    lemma_sweeps_exits(exits, target, n);
    let none = no_exit_errors(exits);
    let bare = target_without_stop_errors(exits);
    let d1 = duplicate_errors(
        exits_of_kind(exits, ExclusiveExit::Stop),
        "stop (StopLoss or AtrStop)"@,
    );
    let d2 = duplicate_errors(exits_of_kind(exits, ExclusiveExit::TakeProfit), "TakeProfit"@);
    let d3 = duplicate_errors(exits_of_kind(exits, ExclusiveExit::Trailing), "TrailingStop"@);
    let d4 = duplicate_errors(exits_of_kind(exits, ExclusiveExit::Time), "TimeStop"@);
    lemma_other_error(none, target);
    lemma_other_error(bare, target);
    lemma_other_error(d1, target);
    lemma_other_error(d2, target);
    lemma_other_error(d3, target);
    lemma_other_error(d4, target);
    let e1 = none + each_exit_errors(exits, n);
    lemma_reports_beside(each_exit_errors(exits, n), leaves, none, target);
    lemma_reports_beside(e1, leaves, bare, target);
    lemma_reports_beside(e1 + bare, leaves, d1, target);
    lemma_reports_beside(e1 + bare + d1, leaves, d2, target);
    lemma_reports_beside(e1 + bare + d1 + d2, leaves, d3, target);
    lemma_reports_beside(e1 + bare + d1 + d2 + d3, leaves, d4, target);
}

proof fn lemma_risk_like(risk: RiskParams)
    ensures
        leaf_like(risk_leaves(risk)),
{
    lemma_leaf_endings(Seq::empty());
}

proof fn lemma_sweeps_risk(risk: RiskParams, target: Seq<char>)
    ensures
        leaf_like(risk_leaves(risk)),
        reports(risk_errors(risk), risk_leaves(risk), target),
{
    lemma_risk_like(risk);
    let p = "risk.risk_per_trade_pct"@;
    let m = "risk.max_leverage"@;
    let p_message = "risk_per_trade_pct must be a decimal fraction in the range (0, 1]"@;
    let m_message = "max_leverage must be at least 1"@;
    lemma_reports_threshold(risk.risk_per_trade_pct, half_open_unit(), p, p_message, target);
    lemma_reports_threshold(risk.max_leverage, at_least_one(), m, m_message, target);
    let lp = seq![threshold_leaf(p, risk.risk_per_trade_pct)];
    let lm = seq![threshold_leaf(m, risk.max_leverage)];
    lemma_reports_concat(
        leaf_errors(risk.risk_per_trade_pct, half_open_unit(), p, p_message),
        lp,
        leaf_errors(risk.max_leverage, at_least_one(), m, m_message),
        lm,
        target,
    );
    assert(lp + lm =~= risk_leaves(risk));
}

/// A swept leaf gets exactly one error at its locator, and that is the one about sweeps.
pub proof fn law_swept_leaf_has_one_error(dsl: StrategyDslView, k: int)
    requires
        0 <= k < strategy_leaves(dsl).len(),
        is_swept(strategy_leaves(dsl)[k].value),
    ensures
        errors_at(strategy_errors(dsl), strategy_leaves(dsl)[k].path) == sweep_errors(
            strategy_leaves(dsl)[k].path,
        ),
{
    let leaves = strategy_leaves(dsl);
    let target = leaves[k].path;
    let entry = condition_leaves(dsl.entry, "entry"@);
    let filters = member_leaves(dsl.filters, "filters["@, dsl.filters.len());
    let exits = exits_leaves(dsl.exits, dsl.exits.len());
    let risk = risk_leaves(dsl.risk);
    lemma_sweeps_condition(dsl.entry, "entry"@, target);
    lemma_sweeps_members(dsl.filters, "filters["@, target, dsl.filters.len());
    lemma_sweeps_exits(dsl.exits, target, dsl.exits.len());
    lemma_sweeps_risk(dsl.risk, target);
    lemma_like_concat(entry, filters);
    lemma_like_concat(entry + filters, exits);
    lemma_like_concat(entry + filters + exits, risk);
    assert(ends_like_a_leaf(target));
    lemma_sweeps_exit_list(dsl.exits, target);
    let name = name_errors(dsl.name);
    let e1 = condition_errors(dsl.entry, "entry"@);
    let e2 = member_errors(dsl.filters, "filters["@, dsl.filters.len());
    let e3 = exits_errors(dsl.exits);
    let e4 = risk_errors(dsl.risk);
    lemma_other_endings(Seq::empty());
    lemma_other_error(name, target);
    lemma_reports_beside(e1, entry, name, target);
    lemma_reports_concat(name + e1, entry, e2, filters, target);
    lemma_reports_concat(name + e1 + e2, entry + filters, e3, exits, target);
    lemma_reports_concat(name + e1 + e2 + e3, entry + filters + exits, e4, risk, target);
    law_locators_are_distinct(dsl);
    assert forall|j: int| 0 <= j < leaves.len() && j != k implies (#[trigger] leaves[j]).path
        != target by {
        if j < k {
            assert(leaves[j].path != leaves[k].path);
        } else {
            assert(leaves[k].path != leaves[j].path);
        }
    }
    assert(only_at(leaves, target, k));
}

} // verus!
