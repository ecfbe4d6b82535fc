//! The order in which the errors and the numeric leaves of a document are listed, and that
//! none is listed twice.
use crate::decimal::Decimal;
use crate::domain::dsl::condition::{Comparator, ConditionView};
use crate::domain::dsl::exit::ExitRuleView;
use crate::domain::dsl::mutate::{
    condition_leaves, exit_leaves, exits_leaves, indicator_leaves, leaf_paths, member_leaves,
    strategy_leaves, LeafValue, LeafView,
};
use crate::domain::dsl::risk::RiskParams;
use crate::domain::dsl::strategy::StrategyDslView;
use crate::domain::dsl::sweepable::SweepableValue;
use crate::domain::dsl::validate::{
    condition_errors, count_errors, cross_errors, duplicate_errors, each_exit_errors,
    empty_group_errors, exit_errors, exits_errors, exits_of_kind, indicator_errors, leaf_errors,
    macd_order_errors, member_errors, name_errors, no_exit_errors, risk_errors, strategy_errors,
    target_without_stop_errors, ExclusiveExit, FieldErrorView, ValidationCode,
};
use crate::domain::dsl::value::{IndicatorSpec, ValueSource};
use crate::text::digits;
use vstd::prelude::*;

verus! {

/// The errors of each member of a list at its own locator, one behind the other.
pub open spec fn errors_in_turn(conditions: Seq<ConditionView>, stem: Seq<char>) -> Seq<
    FieldErrorView,
> {
    Seq::new(
        conditions.len(),
        |i: int| condition_errors(conditions[i], stem + digits(i as nat) + "]"@),
    ).flatten()
}

/// The errors of each exit rule at its own locator, one behind the other.
pub open spec fn exit_errors_in_turn(exits: Seq<ExitRuleView>) -> Seq<FieldErrorView> {
    Seq::new(
        exits.len(),
        |i: int| exit_errors(exits[i], "exits["@ + digits(i as nat) + "]"@),
    ).flatten()
}

/// The leaves of each member of a list at its own locator, one behind the other.
pub open spec fn leaves_in_turn(conditions: Seq<ConditionView>, stem: Seq<char>) -> Seq<LeafView> {
    Seq::new(
        conditions.len(),
        |i: int| condition_leaves(conditions[i], stem + digits(i as nat) + "]"@),
    ).flatten()
}

/// The leaves of each exit rule at its own locator, one behind the other.
pub open spec fn exit_leaves_in_turn(exits: Seq<ExitRuleView>) -> Seq<LeafView> {
    Seq::new(
        exits.len(),
        |i: int| exit_leaves(exits[i], "exits["@ + digits(i as nat) + "]"@),
    ).flatten()
}

/// One list more, one behind the other.
proof fn lemma_flatten_last<A>(parts: Seq<Seq<A>>)
    requires
        parts.len() > 0,
    ensures
        parts.flatten() == parts.drop_last().flatten() + parts.last(),
{
    parts.lemma_flatten_and_flatten_alt_are_equivalent();
    parts.drop_last().lemma_flatten_and_flatten_alt_are_equivalent();
}

proof fn lemma_errors_in_turn(conditions: Seq<ConditionView>, stem: Seq<char>, n: nat)
    requires
        n <= conditions.len(),
    ensures
        member_errors(conditions, stem, n) == errors_in_turn(conditions.take(n as int), stem),
    decreases n,
{
    let parts = Seq::new(
        n,
        |i: int|
            condition_errors(conditions.take(n as int)[i], stem + digits(i as nat) + "]"@),
    );
    if n > 0 {
        let m = (n - 1) as nat;
        lemma_errors_in_turn(conditions, stem, m);
        let before = Seq::new(
            m,
            |i: int|
                condition_errors(conditions.take(m as int)[i], stem + digits(i as nat) + "]"@),
        );
        lemma_flatten_last(parts);
        assert(parts.drop_last() =~= before);
    }
}

proof fn lemma_exit_errors_in_turn(exits: Seq<ExitRuleView>, n: nat)
    requires
        n <= exits.len(),
    ensures
        each_exit_errors(exits, n) == exit_errors_in_turn(exits.take(n as int)),
    decreases n,
{
    let parts = Seq::new(
        n,
        |i: int| exit_errors(exits.take(n as int)[i], "exits["@ + digits(i as nat) + "]"@),
    );
    if n > 0 {
        let m = (n - 1) as nat;
        lemma_exit_errors_in_turn(exits, m);
        let before = Seq::new(
            m,
            |i: int| exit_errors(exits.take(m as int)[i], "exits["@ + digits(i as nat) + "]"@),
        );
        lemma_flatten_last(parts);
        assert(parts.drop_last() =~= before);
    }
}

proof fn lemma_leaves_in_turn(conditions: Seq<ConditionView>, stem: Seq<char>, n: nat)
    requires
        n <= conditions.len(),
    ensures
        member_leaves(conditions, stem, n) == leaves_in_turn(conditions.take(n as int), stem),
    decreases n,
{
    let parts = Seq::new(
        n,
        |i: int|
            condition_leaves(conditions.take(n as int)[i], stem + digits(i as nat) + "]"@),
    );
    if n > 0 {
        let m = (n - 1) as nat;
        lemma_leaves_in_turn(conditions, stem, m);
        let before = Seq::new(
            m,
            |i: int|
                condition_leaves(conditions.take(m as int)[i], stem + digits(i as nat) + "]"@),
        );
        lemma_flatten_last(parts);
        assert(parts.drop_last() =~= before);
    }
}

proof fn lemma_exit_leaves_in_turn(exits: Seq<ExitRuleView>, n: nat)
    requires
        n <= exits.len(),
    ensures
        exits_leaves(exits, n) == exit_leaves_in_turn(exits.take(n as int)),
    decreases n,
{
    let parts = Seq::new(
        n,
        |i: int| exit_leaves(exits.take(n as int)[i], "exits["@ + digits(i as nat) + "]"@),
    );
    if n > 0 {
        let m = (n - 1) as nat;
        lemma_exit_leaves_in_turn(exits, m);
        let before = Seq::new(
            m,
            |i: int| exit_leaves(exits.take(m as int)[i], "exits["@ + digits(i as nat) + "]"@),
        );
        lemma_flatten_last(parts);
        assert(parts.drop_last() =~= before);
    }
}

/// The errors of a document are those of its name, of the entry, of each filter in turn, of
/// the exits and of the risk inputs, in this order and each once. Those of the exits are that
/// there is none, those of each exit in turn, a target without a stop, and each kind that
/// there is twice.
pub proof fn law_order_of_errors(dsl: StrategyDslView)
    ensures
        strategy_errors(dsl) == name_errors(dsl.name) + condition_errors(dsl.entry, "entry"@)
            + errors_in_turn(dsl.filters, "filters["@) + exits_errors(dsl.exits) + risk_errors(
            dsl.risk,
        ),
        exits_errors(dsl.exits) == no_exit_errors(dsl.exits) + exit_errors_in_turn(dsl.exits)
            + target_without_stop_errors(dsl.exits) + duplicate_errors(
            exits_of_kind(dsl.exits, ExclusiveExit::Stop),
            "stop (StopLoss or AtrStop)"@,
        ) + duplicate_errors(exits_of_kind(dsl.exits, ExclusiveExit::TakeProfit), "TakeProfit"@)
            + duplicate_errors(exits_of_kind(dsl.exits, ExclusiveExit::Trailing), "TrailingStop"@)
            + duplicate_errors(exits_of_kind(dsl.exits, ExclusiveExit::Time), "TimeStop"@),
{
    lemma_errors_in_turn(dsl.filters, "filters["@, dsl.filters.len());
    lemma_exit_errors_in_turn(dsl.exits, dsl.exits.len());
    assert(dsl.filters.take(dsl.filters.len() as int) =~= dsl.filters);
    assert(dsl.exits.take(dsl.exits.len() as int) =~= dsl.exits);
}

/// The errors of an operand that is an indicator.
pub open spec fn errors_of_operand(v: ValueSource, path: Seq<char>) -> Seq<FieldErrorView> {
    if v is Indicator {
        indicator_errors(v->spec, path + ".indicator"@)
    } else {
        Seq::empty()
    }
}

/// The errors of a condition come once each: a fault of its own first, those of its members
/// in turn behind it, or those of its left operand before those of its right one.
pub proof fn law_order_of_condition_errors(
    conditions: Seq<ConditionView>,
    lhs: ValueSource,
    rhs: ValueSource,
    op: Comparator,
    path: Seq<char>,
)
    ensures
        conditions.len() > 0 ==> condition_errors(ConditionView::And { conditions }, path)
            == errors_in_turn(conditions, path + ".and["@),
        conditions.len() > 0 ==> condition_errors(ConditionView::Or { conditions }, path)
            == errors_in_turn(conditions, path + ".or["@),
        conditions.len() == 0 ==> condition_errors(ConditionView::And { conditions }, path).len()
            == 1 && condition_errors(ConditionView::Or { conditions }, path).len() == 1,
        condition_errors(ConditionView::Compare { lhs, op, rhs }, path) == errors_of_operand(
            lhs,
            path + ".lhs"@,
        ) + errors_of_operand(rhs, path + ".rhs"@),
        condition_errors(ConditionView::CrossesAbove { lhs, rhs }, path) == cross_errors(
            lhs,
            rhs,
            path + ".crosses_above"@,
        ) + (errors_of_operand(lhs, path + ".lhs"@) + errors_of_operand(rhs, path + ".rhs"@)),
        condition_errors(ConditionView::CrossesBelow { lhs, rhs }, path) == cross_errors(
            lhs,
            rhs,
            path + ".crosses_below"@,
        ) + (errors_of_operand(lhs, path + ".lhs"@) + errors_of_operand(rhs, path + ".rhs"@)),
{
    reveal_with_fuel(condition_errors, 2);
    assert(conditions.take(conditions.len() as int) =~= conditions);
    lemma_errors_in_turn(conditions, path + ".and["@, conditions.len());
    lemma_errors_in_turn(conditions, path + ".or["@, conditions.len());
    if conditions.len() > 0 {
        assert(Seq::<FieldErrorView>::empty() + errors_in_turn(conditions, path + ".and["@)
            =~= errors_in_turn(conditions, path + ".and["@));
        assert(Seq::<FieldErrorView>::empty() + errors_in_turn(conditions, path + ".or["@)
            =~= errors_in_turn(conditions, path + ".or["@));
    }
}

/// A number has one error at most: a sweep where it stands, or a fixed value out of range.
pub proof fn law_one_error_per_number(
    count: SweepableValue<u32>,
    number: SweepableValue<Decimal>,
    in_range: spec_fn(Decimal) -> bool,
    path: Seq<char>,
    word: Seq<char>,
)
    ensures
        number is Sweep ==> leaf_errors(number, in_range, path, word) == seq![
            FieldErrorView {
                path,
                code: ValidationCode::SweepUnsupported,
                message: "parameter sweeps are not supported in v1; use a Fixed value"@,
            },
        ],
        number matches SweepableValue::Fixed(d) ==> leaf_errors(number, in_range, path, word)
            == if in_range(d) {
            Seq::empty()
        } else {
            seq![FieldErrorView { path, code: ValidationCode::FieldRange, message: word }]
        },
        count is Sweep ==> count_errors(count, path, word) == seq![
            FieldErrorView {
                path,
                code: ValidationCode::SweepUnsupported,
                message: "parameter sweeps are not supported in v1; use a Fixed value"@,
            },
        ],
        count matches SweepableValue::Fixed(n) ==> count_errors(count, path, word) == if n == 0 {
            seq![
                FieldErrorView {
                    path,
                    code: ValidationCode::FieldRange,
                    message: word + " must be greater than 0"@,
                },
            ]
        } else {
            Seq::empty()
        },
{
}

/// Each rule that is broken is reported once: the order of two periods with both of them,
/// the fast one first; a cross of constants; an empty group; a missing name; missing exits;
/// a target without a stop; and a kind that occurs twice, with how often it does.
pub proof fn law_one_error_per_rule(
    fast: u32,
    slow: u32,
    lhs: ValueSource,
    rhs: ValueSource,
    n: nat,
    name: Seq<char>,
    exits: Seq<ExitRuleView>,
    path: Seq<char>,
    word: Seq<char>,
)
    ensures
        macd_order_errors(SweepableValue::Fixed(fast), SweepableValue::Fixed(slow), path) == if fast
            >= slow {
            seq![
                FieldErrorView {
                    path: path + ".macd.fast"@,
                    code: ValidationCode::FieldRange,
                    message: "MACD fast period ("@ + digits(fast as nat)
                        + ") must be strictly less than slow period ("@ + digits(slow as nat)
                        + ")"@,
                },
            ]
        } else {
            Seq::empty()
        },
        cross_errors(lhs, rhs, path).len() == if lhs is Constant && rhs is Constant {
            1nat
        } else {
            0
        },
        empty_group_errors(n, path, word).len() == if n == 0 {
            1nat
        } else {
            0
        },
        duplicate_errors(n, word) == if n > 1 {
            seq![
                FieldErrorView {
                    path: "exits"@,
                    code: ValidationCode::DuplicateExit,
                    message: "at most one "@ + word + " exit is allowed; found "@ + digits(n),
                },
            ]
        } else {
            Seq::empty()
        },
        name_errors(name).len() <= 1,
        no_exit_errors(exits).len() <= 1,
        target_without_stop_errors(exits).len() <= 1,
{
}

/// The errors of an indicator's periods, of an exit's numbers and of the risk inputs come in
/// the order in which these are written.
pub proof fn law_order_of_number_errors(
    fast: SweepableValue<u32>,
    slow: SweepableValue<u32>,
    signal: SweepableValue<u32>,
    multiple: SweepableValue<Decimal>,
    risk: RiskParams,
    path: Seq<char>,
)
    ensures
        indicator_errors(IndicatorSpec::Macd { fast, slow, signal }, path) == count_errors(
            fast,
            path + ".macd.fast"@,
            "MACD fast"@,
        ) + count_errors(slow, path + ".macd.slow"@, "MACD slow"@) + count_errors(
            signal,
            path + ".macd.signal"@,
            "MACD signal"@,
        ) + macd_order_errors(fast, slow, path),
        (fast is Sweep || slow is Sweep) ==> macd_order_errors(fast, slow, path).len() == 0,
        exit_errors(ExitRuleView::AtrStop { period: fast, multiple }, path).len() == count_errors(
            fast,
            path + ".period"@,
            "ATR period"@,
        ).len() + exit_errors(
            ExitRuleView::AtrStop { period: SweepableValue::Fixed(1), multiple },
            path,
        ).len(),
        risk_errors(risk).len() <= 2,
{
}

/// The numeric leaves of a document are those of the entry, of each filter in turn, of each
/// exit in turn, and the two risk inputs, in this order and each once. Their locators are
/// listed in the same order.
pub proof fn law_order_of_leaves(dsl: StrategyDslView)
    ensures
        strategy_leaves(dsl) == condition_leaves(dsl.entry, "entry"@) + leaves_in_turn(
            dsl.filters,
            "filters["@,
        ) + exit_leaves_in_turn(dsl.exits) + seq![
            LeafView {
                path: "risk.risk_per_trade_pct"@,
                value: LeafValue::Threshold(dsl.risk.risk_per_trade_pct),
            },
            LeafView {
                path: "risk.max_leverage"@,
                value: LeafValue::Threshold(dsl.risk.max_leverage),
            },
        ],
        leaf_paths(strategy_leaves(dsl)).len() == strategy_leaves(dsl).len(),
        forall|i: int|
            0 <= i < strategy_leaves(dsl).len() ==> #[trigger] leaf_paths(strategy_leaves(dsl))[i]
                == strategy_leaves(dsl)[i].path,
{
    lemma_leaves_in_turn(dsl.filters, "filters["@, dsl.filters.len());
    lemma_exit_leaves_in_turn(dsl.exits, dsl.exits.len());
    assert(dsl.filters.take(dsl.filters.len() as int) =~= dsl.filters);
    assert(dsl.exits.take(dsl.exits.len() as int) =~= dsl.exits);
}

/// The leaves of an operand that is an indicator.
pub open spec fn leaves_of_operand(v: ValueSource, path: Seq<char>) -> Seq<LeafView> {
    if v is Indicator {
        indicator_leaves(v->spec, path + ".indicator"@)
    } else {
        Seq::empty()
    }
}

/// The leaves of a condition come once each: those of its members in turn, or those of its
/// left operand before those of its right one.
pub proof fn law_order_of_condition_leaves(
    conditions: Seq<ConditionView>,
    lhs: ValueSource,
    rhs: ValueSource,
    op: Comparator,
    path: Seq<char>,
)
    ensures
        condition_leaves(ConditionView::And { conditions }, path) == leaves_in_turn(
            conditions,
            path + ".and["@,
        ),
        condition_leaves(ConditionView::Or { conditions }, path) == leaves_in_turn(
            conditions,
            path + ".or["@,
        ),
        condition_leaves(ConditionView::Compare { lhs, op, rhs }, path) == leaves_of_operand(
            lhs,
            path + ".lhs"@,
        ) + leaves_of_operand(rhs, path + ".rhs"@),
        condition_leaves(ConditionView::CrossesAbove { lhs, rhs }, path) == leaves_of_operand(
            lhs,
            path + ".lhs"@,
        ) + leaves_of_operand(rhs, path + ".rhs"@),
        condition_leaves(ConditionView::CrossesBelow { lhs, rhs }, path) == leaves_of_operand(
            lhs,
            path + ".lhs"@,
        ) + leaves_of_operand(rhs, path + ".rhs"@),
{
    reveal_with_fuel(condition_leaves, 2);
    assert(conditions.take(conditions.len() as int) =~= conditions);
    lemma_leaves_in_turn(conditions, path + ".and["@, conditions.len());
    lemma_leaves_in_turn(conditions, path + ".or["@, conditions.len());
}

} // verus!
