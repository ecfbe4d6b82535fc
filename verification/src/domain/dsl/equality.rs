//! Equality of strategy documents: numbers are compared as numbers, lists in order.
use crate::decimal::Decimal;
use crate::domain::dsl::condition::{condition_views, Condition, ConditionView};
use crate::domain::dsl::exit::{exit_views, ExitRule, ExitRuleView};
use crate::domain::dsl::risk::RiskParams;
use crate::domain::dsl::strategy::{StrategyDsl, StrategyDslView};
use crate::domain::dsl::sweepable::SweepableValue;
use crate::domain::dsl::value::ValueSource;
use vstd::prelude::*;

verus! {

/// Whether two numeric leaves are equal.
pub open spec fn same_leaf(a: SweepableValue<Decimal>, b: SweepableValue<Decimal>) -> bool {
    match (a, b) {
        (SweepableValue::Fixed(x), SweepableValue::Fixed(y)) => x.units() == y.units(),
        (
            SweepableValue::Sweep { start: s1, end: e1, step: t1 },
            SweepableValue::Sweep { start: s2, end: e2, step: t2 },
        ) => s1.units() == s2.units() && e1.units() == e2.units() && t1.units() == t2.units(),
        _ => false,
    }
}

/// Whether two operands are equal.
pub open spec fn same_operand(a: ValueSource, b: ValueSource) -> bool {
    match (a, b) {
        (ValueSource::Constant { value: x }, ValueSource::Constant { value: y }) => x.units()
            == y.units(),
        (
            ValueSource::Price { series: s, field: f },
            ValueSource::Price { series: t, field: g },
        ) => s == t && f == g,
        (
            ValueSource::Indicator { series: s, spec: x },
            ValueSource::Indicator { series: t, spec: y },
        ) => s == t && x == y,
        _ => false,
    }
}

/// Whether two conditions are equal.
pub open spec fn same_condition(a: ConditionView, b: ConditionView) -> bool
    decreases a,
{
    match (a, b) {
        (
            ConditionView::Compare { lhs: l, op: o, rhs: r },
            ConditionView::Compare { lhs: m, op: p, rhs: s },
        ) => same_operand(l, m) && o == p && same_operand(r, s),
        (
            ConditionView::CrossesAbove { lhs: l, rhs: r },
            ConditionView::CrossesAbove { lhs: m, rhs: s },
        ) => same_operand(l, m) && same_operand(r, s),
        (
            ConditionView::CrossesBelow { lhs: l, rhs: r },
            ConditionView::CrossesBelow { lhs: m, rhs: s },
        ) => same_operand(l, m) && same_operand(r, s),
        (ConditionView::And { conditions: x }, ConditionView::And { conditions: y }) => x.len()
            == y.len() && forall|i: int|
            0 <= i < x.len() ==> same_condition(#[trigger] x[i], y[i]),
        (ConditionView::Or { conditions: x }, ConditionView::Or { conditions: y }) => x.len()
            == y.len() && forall|i: int|
            0 <= i < x.len() ==> same_condition(#[trigger] x[i], y[i]),
        (ConditionView::Not { condition: x }, ConditionView::Not { condition: y }) =>
            same_condition(*x, *y),
        _ => false,
    }
}

/// Whether two lists of conditions are equal.
pub open spec fn same_conditions(a: Seq<ConditionView>, b: Seq<ConditionView>) -> bool {
    a.len() == b.len() && forall|i: int|
        0 <= i < a.len() ==> same_condition(#[trigger] a[i], b[i])
}

/// Whether two exit rules are equal.
pub open spec fn same_exit(a: ExitRuleView, b: ExitRuleView) -> bool {
    match (a, b) {
        (
            ExitRuleView::StopLoss { distance_pct: x },
            ExitRuleView::StopLoss { distance_pct: y },
        ) => same_leaf(x, y),
        (ExitRuleView::TakeProfit { target_r: x }, ExitRuleView::TakeProfit { target_r: y }) =>
            same_leaf(x, y),
        (
            ExitRuleView::TrailingStop { trail_pct: x },
            ExitRuleView::TrailingStop { trail_pct: y },
        ) => same_leaf(x, y),
        (ExitRuleView::TimeStop { max_bars: x }, ExitRuleView::TimeStop { max_bars: y }) => x == y,
        (
            ExitRuleView::SignalExit { condition: x },
            ExitRuleView::SignalExit { condition: y },
        ) => same_condition(x, y),
        (
            ExitRuleView::AtrStop { period: p, multiple: x },
            ExitRuleView::AtrStop { period: q, multiple: y },
        ) => p == q && same_leaf(x, y),
        _ => false,
    }
}

/// Whether two risk settings are equal.
pub open spec fn same_risk(a: RiskParams, b: RiskParams) -> bool {
    same_leaf(a.risk_per_trade_pct, b.risk_per_trade_pct) && same_leaf(
        a.max_leverage,
        b.max_leverage,
    )
}

/// Whether two strategy documents are equal.
pub open spec fn same_strategy(a: StrategyDslView, b: StrategyDslView) -> bool {
    &&& a.schema_version == b.schema_version
    &&& a.name == b.name
    &&& a.direction == b.direction
    &&& same_condition(a.entry, b.entry)
    &&& same_conditions(a.filters, b.filters)
    &&& a.exits.len() == b.exits.len() && forall|i: int|
        0 <= i < a.exits.len() ==> same_exit(#[trigger] a.exits[i], b.exits[i])
    &&& same_risk(a.risk, b.risk)
}

fn leaves_equal(a: &SweepableValue<Decimal>, b: &SweepableValue<Decimal>) -> (r: bool)
    ensures
        r == same_leaf(*a, *b),
{
    match (a, b) {
        (SweepableValue::Fixed(x), SweepableValue::Fixed(y)) => x.equals(y),
        (
            SweepableValue::Sweep { start: s1, end: e1, step: t1 },
            SweepableValue::Sweep { start: s2, end: e2, step: t2 },
        ) => s1.equals(s2) && e1.equals(e2) && t1.equals(t2),
        _ => false,
    }
}

fn operands_equal(a: &ValueSource, b: &ValueSource) -> (r: bool)
    ensures
        r == same_operand(*a, *b),
{
    match (a, b) {
        (ValueSource::Constant { value: x }, ValueSource::Constant { value: y }) => x.equals(y),
        (
            ValueSource::Price { series: s, field: f },
            ValueSource::Price { series: t, field: g },
        ) => *s == *t && *f == *g,
        (
            ValueSource::Indicator { series: s, spec: x },
            ValueSource::Indicator { series: t, spec: y },
        ) => *s == *t && *x == *y,
        _ => false,
    }
}

fn condition_lists_equal(a: &Vec<Condition>, b: &Vec<Condition>) -> (r: bool)
    ensures
        r == same_conditions(condition_views(a@), condition_views(b@)),
    decreases a,
{
    let ghost x = condition_views(a@);
    let ghost y = condition_views(b@);
    if a.len() != b.len() {
        return false;
    }
    for i in 0..a.len()
        invariant
            a.len() == b.len(),
            x == condition_views(a@),
            y == condition_views(b@),
            forall|j: int| 0 <= j < i ==> same_condition(#[trigger] x[j], y[j]),
    {
        assert(x[i as int] == a@[i as int]@);
        assert(y[i as int] == b@[i as int]@);
        if !conditions_equal(&a[i], &b[i]) {
            assert(!same_condition(x[i as int], y[i as int]));
            return false;
        }
    }
    true
}

fn conditions_equal(a: &Condition, b: &Condition) -> (r: bool)
    ensures
        r == same_condition(a@, b@),
    decreases a,
{
    match (a, b) {
        (
            Condition::Compare { lhs: l, op: o, rhs: r },
            Condition::Compare { lhs: m, op: p, rhs: s },
        ) => operands_equal(l, m) && *o == *p && operands_equal(r, s),
        (
            Condition::CrossesAbove { lhs: l, rhs: r },
            Condition::CrossesAbove { lhs: m, rhs: s },
        ) => operands_equal(l, m) && operands_equal(r, s),
        (
            Condition::CrossesBelow { lhs: l, rhs: r },
            Condition::CrossesBelow { lhs: m, rhs: s },
        ) => operands_equal(l, m) && operands_equal(r, s),
        (Condition::And { conditions: x }, Condition::And { conditions: y }) => {
            proof {
                lemma_same_lists(condition_views(x@), condition_views(y@));
            }
            condition_lists_equal(x, y)
        },
        (Condition::Or { conditions: x }, Condition::Or { conditions: y }) => {
            proof {
                lemma_same_lists(condition_views(x@), condition_views(y@));
            }
            condition_lists_equal(x, y)
        },
        (Condition::Not { condition: x }, Condition::Not { condition: y }) => conditions_equal(
            &**x,
            &**y,
        ),
        _ => false,
    }
}

/// Conjunctions and disjunctions are compared by their lists.
proof fn lemma_same_lists(x: Seq<ConditionView>, y: Seq<ConditionView>)
    ensures
        same_condition(
            ConditionView::And { conditions: x },
            ConditionView::And { conditions: y },
        ) == same_conditions(x, y),
        same_condition(
            ConditionView::Or { conditions: x },
            ConditionView::Or { conditions: y },
        ) == same_conditions(x, y),
{
    let a = ConditionView::And { conditions: x };
    let b = ConditionView::Or { conditions: x };
    assert forall|i: int| 0 <= i < x.len() implies #[trigger] x[i] == a->And_conditions[i] && x[i]
        == b->Or_conditions[i] by {}
    if same_condition(a, ConditionView::And { conditions: y }) {
        assert forall|i: int| 0 <= i < x.len() implies same_condition(#[trigger] x[i], y[i]) by {
            assert(same_condition(a->And_conditions[i], y[i]));
        }
    }
    if same_condition(b, ConditionView::Or { conditions: y }) {
        assert forall|i: int| 0 <= i < x.len() implies same_condition(#[trigger] x[i], y[i]) by {
            assert(same_condition(b->Or_conditions[i], y[i]));
        }
    }
}

fn exits_equal(a: &ExitRule, b: &ExitRule) -> (r: bool)
    ensures
        r == same_exit(a@, b@),
{
    match (a, b) {
        (ExitRule::StopLoss { distance_pct: x }, ExitRule::StopLoss { distance_pct: y }) =>
            leaves_equal(x, y),
        (ExitRule::TakeProfit { target_r: x }, ExitRule::TakeProfit { target_r: y }) =>
            leaves_equal(x, y),
        (ExitRule::TrailingStop { trail_pct: x }, ExitRule::TrailingStop { trail_pct: y }) =>
            leaves_equal(x, y),
        (ExitRule::TimeStop { max_bars: x }, ExitRule::TimeStop { max_bars: y }) => *x == *y,
        (ExitRule::SignalExit { condition: x }, ExitRule::SignalExit { condition: y }) =>
            conditions_equal(x, y),
        (
            ExitRule::AtrStop { period: p, multiple: x },
            ExitRule::AtrStop { period: q, multiple: y },
        ) => *p == *q && leaves_equal(x, y),
        _ => false,
    }
}

impl StrategyDsl {
    /// Whether two documents are equal, numbers compared as numbers.
    pub fn equals(&self, other: &StrategyDsl) -> (r: bool)
        ensures
            r == same_strategy(self@, other@),
    {
        if !(self.schema_version == other.schema_version && self.name == other.name
            && self.direction == other.direction) {
            return false;
        }
        if !(conditions_equal(&self.entry, &other.entry) && condition_lists_equal(
            &self.filters,
            &other.filters,
        )) {
            return false;
        }
        if self.exits.len() != other.exits.len() {
            return false;
        }
        let ghost x = self@.exits;
        let ghost y = other@.exits;
        for i in 0..self.exits.len()
            invariant
                self.exits.len() == other.exits.len(),
                x == exit_views(self.exits@),
                y == exit_views(other.exits@),
                x == self@.exits,
                y == other@.exits,
                forall|j: int| 0 <= j < i ==> same_exit(#[trigger] x[j], y[j]),
        {
            assert(x[i as int] == self.exits@[i as int]@);
            assert(y[i as int] == other.exits@[i as int]@);
            if !exits_equal(&self.exits[i], &other.exits[i]) {
                assert(!same_exit(x[i as int], y[i as int]));
                return false;
            }
        }
        leaves_equal(&self.risk.risk_per_trade_pct, &other.risk.risk_per_trade_pct)
            && leaves_equal(&self.risk.max_leverage, &other.risk.max_leverage)
    }
}

// ---------------------------------------------------------------------------
// Laws.
// ---------------------------------------------------------------------------

proof fn lemma_condition_reflexive(a: ConditionView)
    ensures
        same_condition(a, a),
    decreases a,
{
    match a {
        ConditionView::And { conditions } => {
            assert forall|i: int| 0 <= i < conditions.len() implies same_condition(
                #[trigger] conditions[i],
                conditions[i],
            ) by {
                lemma_condition_reflexive(conditions[i]);
            }
        },
        ConditionView::Or { conditions } => {
            assert forall|i: int| 0 <= i < conditions.len() implies same_condition(
                #[trigger] conditions[i],
                conditions[i],
            ) by {
                lemma_condition_reflexive(conditions[i]);
            }
        },
        ConditionView::Not { condition } => {
            lemma_condition_reflexive(*condition);
        },
        _ => {},
    }
}

proof fn lemma_condition_symmetric(a: ConditionView, b: ConditionView)
    requires
        same_condition(a, b),
    ensures
        same_condition(b, a),
    decreases a,
{
    match (a, b) {
        (ConditionView::And { conditions: x }, ConditionView::And { conditions: y }) => {
            lemma_same_lists(x, y);
            lemma_same_lists(y, x);
            assert forall|i: int| 0 <= i < y.len() implies same_condition(#[trigger] y[i], x[i]) by {
                assert(same_condition(x[i], y[i]));
                lemma_condition_symmetric(x[i], y[i]);
            }
        },
        (ConditionView::Or { conditions: x }, ConditionView::Or { conditions: y }) => {
            lemma_same_lists(x, y);
            lemma_same_lists(y, x);
            assert forall|i: int| 0 <= i < y.len() implies same_condition(#[trigger] y[i], x[i]) by {
                assert(same_condition(x[i], y[i]));
                lemma_condition_symmetric(x[i], y[i]);
            }
        },
        (ConditionView::Not { condition: x }, ConditionView::Not { condition: y }) => {
            lemma_condition_symmetric(*x, *y);
        },
        _ => {},
    }
}

/// Every document equals itself.
pub proof fn law_equality_is_reflexive(a: StrategyDslView)
    ensures
        same_strategy(a, a),
{
    lemma_condition_reflexive(a.entry);
    assert forall|i: int| 0 <= i < a.filters.len() implies same_condition(
        #[trigger] a.filters[i],
        a.filters[i],
    ) by {
        lemma_condition_reflexive(a.filters[i]);
    }
    assert forall|i: int| 0 <= i < a.exits.len() implies same_exit(
        #[trigger] a.exits[i],
        a.exits[i],
    ) by {
        if let ExitRuleView::SignalExit { condition } = a.exits[i] {
            lemma_condition_reflexive(condition);
        }
    }
}

/// Where one document equals another, the other equals it.
pub proof fn law_equality_is_symmetric(a: StrategyDslView, b: StrategyDslView)
    ensures
        same_strategy(a, b) <==> same_strategy(b, a),
{
    if same_strategy(a, b) {
        lemma_strategy_symmetric(a, b);
    }
    if same_strategy(b, a) {
        lemma_strategy_symmetric(b, a);
    }
}

proof fn lemma_strategy_symmetric(a: StrategyDslView, b: StrategyDslView)
    requires
        same_strategy(a, b),
    ensures
        same_strategy(b, a),
{
    lemma_condition_symmetric(a.entry, b.entry);
    assert forall|i: int| 0 <= i < b.filters.len() implies same_condition(
        #[trigger] b.filters[i],
        a.filters[i],
    ) by {
        assert(same_condition(a.filters[i], b.filters[i]));
        lemma_condition_symmetric(a.filters[i], b.filters[i]);
    }
    assert forall|i: int| 0 <= i < b.exits.len() implies same_exit(
        #[trigger] b.exits[i],
        a.exits[i],
    ) by {
        assert(same_exit(a.exits[i], b.exits[i]));
        if let (
            ExitRuleView::SignalExit { condition: x },
            ExitRuleView::SignalExit { condition: y },
        ) = (a.exits[i], b.exits[i]) {
            lemma_condition_symmetric(x, y);
        }
    }
}

} // verus!
