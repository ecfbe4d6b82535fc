//! What equality of documents tells apart: every part and every number, but not the form in
//! which a number is written.
use crate::decimal::Decimal;
use crate::domain::dsl::condition::ConditionView;
use crate::domain::dsl::equality::{
    same_condition, same_exit, same_leaf, same_operand, same_strategy,
};
use crate::domain::dsl::exit::ExitRuleView;
use crate::domain::dsl::locators::{fixed_leaf, lemma_leaf_at};
use crate::domain::dsl::mutate::{
    already_holds, apply_outcome, condition_leaves, exit_leaves, exits_leaves, leaf_at,
    member_leaves, operand_leaves, risk_leaves, strategy_leaves, value_leaves, LeafValue, LeafView,
    MutationView,
};
use crate::domain::dsl::shape::law_mutation_changes_one_leaf;
use crate::domain::dsl::strategy::StrategyDslView;
use crate::domain::dsl::sweepable::SweepableValue;
use crate::domain::dsl::validate::member_path;
use crate::domain::dsl::value::{IndicatorSpec, PriceField, Series, ValueSource};
use vstd::prelude::*;

verus! {

/// Two operands are equal where they are constants of one value, or one price of one
/// series, or one indicator of one series.
pub proof fn law_equal_operands(
    a: Decimal,
    b: Decimal,
    s: Series,
    t: Series,
    f: PriceField,
    g: PriceField,
    x: IndicatorSpec,
    y: IndicatorSpec,
)
    ensures
        ({
            let ca = ValueSource::Constant { value: a };
            let cb = ValueSource::Constant { value: b };
            let pa = ValueSource::Price { series: s, field: f };
            let pb = ValueSource::Price { series: t, field: g };
            let ia = ValueSource::Indicator { series: s, spec: x };
            let ib = ValueSource::Indicator { series: t, spec: y };
            &&& same_operand(ca, cb) <==> a.units() == b.units()
            &&& same_operand(pa, pb) <==> s == t && f == g
            &&& same_operand(ia, ib) <==> s == t && x == y
            &&& !same_operand(ca, pb) && !same_operand(ca, ib) && !same_operand(pa, ib)
            &&& !same_operand(pa, cb) && !same_operand(ia, cb) && !same_operand(ia, pb)
        }),
{
}

/// Two conditions are equal where they are of one kind and their parts are equal in order;
/// conditions of different kinds are never equal.
pub proof fn law_equal_conditions(a: ConditionView, b: ConditionView)
    ensures
        same_condition(a, b) ==> (a is Compare <==> b is Compare) && (a is CrossesAbove
            <==> b is CrossesAbove) && (a is CrossesBelow <==> b is CrossesBelow) && (a is And
            <==> b is And) && (a is Or <==> b is Or) && (a is Not <==> b is Not),
        a is Compare && b is Compare ==> (same_condition(a, b) <==> same_operand(
            a->Compare_lhs,
            b->Compare_lhs,
        ) && a->op == b->op && same_operand(a->Compare_rhs, b->Compare_rhs)),
        a is CrossesAbove && b is CrossesAbove ==> (same_condition(a, b) <==> same_operand(
            a->CrossesAbove_lhs,
            b->CrossesAbove_lhs,
        ) && same_operand(a->CrossesAbove_rhs, b->CrossesAbove_rhs)),
        a is CrossesBelow && b is CrossesBelow ==> (same_condition(a, b) <==> same_operand(
            a->CrossesBelow_lhs,
            b->CrossesBelow_lhs,
        ) && same_operand(a->CrossesBelow_rhs, b->CrossesBelow_rhs)),
        a is And && b is And ==> (same_condition(a, b) <==> a->And_conditions.len()
            == b->And_conditions.len() && forall|i: int|
            0 <= i < a->And_conditions.len() ==> same_condition(
                #[trigger] a->And_conditions[i],
                b->And_conditions[i],
            )),
        a is Or && b is Or ==> (same_condition(a, b) <==> a->Or_conditions.len()
            == b->Or_conditions.len() && forall|i: int|
            0 <= i < a->Or_conditions.len() ==> same_condition(
                #[trigger] a->Or_conditions[i],
                b->Or_conditions[i],
            )),
        a is Not && b is Not ==> (same_condition(a, b) <==> same_condition(
            *a->condition,
            *b->condition,
        )),
{
}

// ---------------------------------------------------------------------------
// Leaves.
// ---------------------------------------------------------------------------

/// Whether two leaves stand at one locator and hold equal numbers.
pub open spec fn equal_leaves(a: LeafView, b: LeafView) -> bool {
    &&& a.path == b.path
    &&& match (a.value, b.value) {
        (LeafValue::Period(x), LeafValue::Period(y)) => x == y,
        (LeafValue::Threshold(x), LeafValue::Threshold(y)) => match (x, y) {
            (SweepableValue::Fixed(p), SweepableValue::Fixed(q)) => p.units() == q.units(),
            (
                SweepableValue::Sweep { start: s1, end: e1, step: t1 },
                SweepableValue::Sweep { start: s2, end: e2, step: t2 },
            ) => s1.units() == s2.units() && e1.units() == e2.units() && t1.units() == t2.units(),
            _ => false,
        },
        _ => false,
    }
}

/// Whether two lists of leaves are equal, leaf by leaf.
pub open spec fn equal_lists(a: Seq<LeafView>, b: Seq<LeafView>) -> bool {
    a.len() == b.len() && forall|i: int| 0 <= i < a.len() ==> equal_leaves(#[trigger] a[i], b[i])
}

proof fn lemma_lists_concat(
    a: Seq<LeafView>,
    b: Seq<LeafView>,
    c: Seq<LeafView>,
    d: Seq<LeafView>,
)
    requires
        equal_lists(a, b),
        equal_lists(c, d),
    ensures
        equal_lists(a + c, b + d),
{
    let x = a + c;
    let y = b + d;
    assert forall|i: int| 0 <= i < x.len() implies equal_leaves(#[trigger] x[i], y[i]) by {
        if i < a.len() {
            assert(equal_leaves(a[i], b[i]));
        } else {
            assert(equal_leaves(c[i - a.len()], d[i - a.len()]));
        }
    }
}

proof fn lemma_operands_leaves(
    l: ValueSource,
    r: ValueSource,
    m: ValueSource,
    s: ValueSource,
    path: Seq<char>,
)
    requires
        same_operand(l, m),
        same_operand(r, s),
    ensures
        equal_lists(operand_leaves(l, r, path), operand_leaves(m, s, path)),
{
    lemma_lists_concat(
        value_leaves(l, path + ".lhs"@),
        value_leaves(m, path + ".lhs"@),
        value_leaves(r, path + ".rhs"@),
        value_leaves(s, path + ".rhs"@),
    );
}

proof fn lemma_condition_same_leaves(a: ConditionView, b: ConditionView, path: Seq<char>)
    requires
        same_condition(a, b),
    ensures
        equal_lists(condition_leaves(a, path), condition_leaves(b, path)),
    decreases a, 0nat,
{
    match (a, b) {
        (
            ConditionView::Compare { lhs: l, op: o, rhs: r },
            ConditionView::Compare { lhs: m, op: p, rhs: s },
        ) => lemma_operands_leaves(l, r, m, s, path),
        (
            ConditionView::CrossesAbove { lhs: l, rhs: r },
            ConditionView::CrossesAbove { lhs: m, rhs: s },
        ) => lemma_operands_leaves(l, r, m, s, path),
        (
            ConditionView::CrossesBelow { lhs: l, rhs: r },
            ConditionView::CrossesBelow { lhs: m, rhs: s },
        ) => lemma_operands_leaves(l, r, m, s, path),
        (ConditionView::And { conditions: x }, ConditionView::And { conditions: y }) => {
            assert forall|i: int| 0 <= i < x.len() implies same_condition(
                #[trigger] x[i],
                y[i],
            ) by {
                assert(same_condition(a->And_conditions[i], y[i]));
            }
            lemma_members_same_leaves(x, y, path + ".and["@, x.len());
        },
        (ConditionView::Or { conditions: x }, ConditionView::Or { conditions: y }) => {
            assert forall|i: int| 0 <= i < x.len() implies same_condition(
                #[trigger] x[i],
                y[i],
            ) by {
                assert(same_condition(a->Or_conditions[i], y[i]));
            }
            lemma_members_same_leaves(x, y, path + ".or["@, x.len());
        },
        (ConditionView::Not { condition: x }, ConditionView::Not { condition: y }) => {
            lemma_condition_same_leaves(*x, *y, path + ".not"@);
        },
        _ => {},
    }
}

proof fn lemma_members_same_leaves(
    a: Seq<ConditionView>,
    b: Seq<ConditionView>,
    stem: Seq<char>,
    n: nat,
)
    requires
        n <= a.len(),
        a.len() == b.len(),
        forall|i: int| 0 <= i < a.len() ==> same_condition(#[trigger] a[i], b[i]),
    ensures
        equal_lists(member_leaves(a, stem, n), member_leaves(b, stem, n)),
    decreases a, n,
{
    if n > 0 {
        let m = (n - 1) as nat;
        let path = member_path(stem, m);
        lemma_members_same_leaves(a, b, stem, m);
        assert(same_condition(a[n - 1], b[n - 1]));
        lemma_condition_same_leaves(a[n - 1], b[n - 1], path);
        lemma_lists_concat(
            member_leaves(a, stem, m),
            member_leaves(b, stem, m),
            condition_leaves(a[n - 1], path),
            condition_leaves(b[n - 1], path),
        );
    }
}

proof fn lemma_exits_same_leaves(a: Seq<ExitRuleView>, b: Seq<ExitRuleView>, n: nat)
    requires
        n <= a.len(),
        a.len() == b.len(),
        forall|i: int| 0 <= i < a.len() ==> same_exit(#[trigger] a[i], b[i]),
    ensures
        equal_lists(exits_leaves(a, n), exits_leaves(b, n)),
    decreases n,
{
    if n > 0 {
        let m = (n - 1) as nat;
        let base = member_path("exits["@, m);
        lemma_exits_same_leaves(a, b, m);
        assert(same_exit(a[n - 1], b[n - 1]));
        let x = exit_leaves(a[n - 1], base);
        let y = exit_leaves(b[n - 1], base);
        match (a[n - 1], b[n - 1]) {
            (
                ExitRuleView::SignalExit { condition: c },
                ExitRuleView::SignalExit { condition: d },
            ) => lemma_condition_same_leaves(c, d, base + ".condition"@),
            _ => {
                assert forall|i: int| 0 <= i < x.len() implies equal_leaves(
                    #[trigger] x[i],
                    y[i],
                ) by {}
            },
        }
        lemma_lists_concat(exits_leaves(a, m), exits_leaves(b, m), x, y);
    }
}

/// Equal documents have one name, direction and version, as many filters and exits, and
/// equal numbers in every leaf.
pub proof fn law_equal_documents_hold_equal_numbers(a: StrategyDslView, b: StrategyDslView)
    requires
        same_strategy(a, b),
    ensures
        a.schema_version == b.schema_version,
        a.name == b.name,
        a.direction == b.direction,
        a.filters.len() == b.filters.len(),
        a.exits.len() == b.exits.len(),
        equal_lists(strategy_leaves(a), strategy_leaves(b)),
{
    let ra = risk_leaves(a.risk);
    let rb = risk_leaves(b.risk);
    lemma_condition_same_leaves(a.entry, b.entry, "entry"@);
    lemma_members_same_leaves(a.filters, b.filters, "filters["@, a.filters.len());
    lemma_exits_same_leaves(a.exits, b.exits, a.exits.len());
    assert(equal_lists(ra, rb)) by {
        assert(equal_leaves(ra[0], rb[0]));
        assert(equal_leaves(ra[1], rb[1]));
        assert forall|i: int| 0 <= i < ra.len() implies equal_leaves(#[trigger] ra[i], rb[i]) by {
            assert(i == 0 || i == 1);
        }
    }
    let ea = condition_leaves(a.entry, "entry"@);
    let eb = condition_leaves(b.entry, "entry"@);
    let fa = member_leaves(a.filters, "filters["@, a.filters.len());
    let fb = member_leaves(b.filters, "filters["@, b.filters.len());
    let xa = exits_leaves(a.exits, a.exits.len());
    let xb = exits_leaves(b.exits, b.exits.len());
    lemma_lists_concat(ea, eb, fa, fb);
    lemma_lists_concat(ea + fa, eb + fb, xa, xb);
    lemma_lists_concat(ea + fa + xa, eb + fb + xb, ra, rb);
}

/// A mutation that applies makes another document.
pub proof fn law_mutated_documents_differ(dsl: StrategyDslView, mutation: MutationView)
    requires
        apply_outcome(dsl, mutation) is Ok,
    ensures
        !same_strategy(dsl, apply_outcome(dsl, mutation)->Ok_0),
{
    let leaves = strategy_leaves(dsl);
    let after = apply_outcome(dsl, mutation)->Ok_0;
    let path = mutation.path;
    law_mutation_changes_one_leaf(dsl, mutation);
    crate::domain::dsl::locators::law_locators_are_distinct(dsl);
    lemma_leaf_at(leaves, path, leaves.len());
    let k = choose|i: int|
        0 <= i < leaves.len() && (#[trigger] leaves[i]).path == path && leaf_at(
            leaves,
            path,
            leaves.len(),
        ) == Some(leaves[i].value);
    let j = choose|i: int|
        0 <= i < leaves.len() && (#[trigger] leaves[i]).path == path && strategy_leaves(after)
            == leaves.update(
            i,
            LeafView { path, value: fixed_leaf(mutation.new_value) },
        );
    if j < k {
        assert(leaves[j].path != leaves[k].path);
    } else if k < j {
        assert(leaves[k].path != leaves[j].path);
    }
    if same_strategy(dsl, after) {
        law_equal_documents_hold_equal_numbers(dsl, after);
        assert(equal_leaves(leaves[k], strategy_leaves(after)[k]));
        assert(already_holds(leaves[k].value, mutation.new_value));
    }
}

/// Documents that differ in one part differ: of two otherwise equal ones, those with another
/// name, direction or version, or with unequal entries, filters, exits or risk inputs.
pub proof fn law_every_part_counts(a: StrategyDslView, b: StrategyDslView)
    ensures
        same_strategy(a, b) <==> {
            &&& a.schema_version == b.schema_version
            &&& a.name == b.name
            &&& a.direction == b.direction
            &&& same_condition(a.entry, b.entry)
            &&& a.filters.len() == b.filters.len()
            &&& forall|i: int|
                0 <= i < a.filters.len() ==> same_condition(#[trigger] a.filters[i], b.filters[i])
            &&& a.exits.len() == b.exits.len()
            &&& forall|i: int|
                0 <= i < a.exits.len() ==> same_exit(#[trigger] a.exits[i], b.exits[i])
            &&& same_leaf(a.risk.risk_per_trade_pct, b.risk.risk_per_trade_pct)
            &&& same_leaf(a.risk.max_leverage, b.risk.max_leverage)
        },
{
}

/// Two exit rules are equal where they are of one kind and hold equal numbers, or equal
/// conditions.
pub proof fn law_equal_exits(a: ExitRuleView, b: ExitRuleView)
    ensures
        same_exit(a, b) <==> match (a, b) {
            (
                ExitRuleView::StopLoss { distance_pct: x },
                ExitRuleView::StopLoss { distance_pct: y },
            ) => same_leaf(x, y),
            (ExitRuleView::TakeProfit { target_r: x }, ExitRuleView::TakeProfit { target_r: y }) =>
                same_leaf(x, y),
            (
                ExitRuleView::TrailingStop { trail_pct: x },
                ExitRuleView::TrailingStop { trail_pct: y },
            ) => same_leaf(x, y),
            (ExitRuleView::TimeStop { max_bars: x }, ExitRuleView::TimeStop { max_bars: y }) => x
                == y,
            (
                ExitRuleView::SignalExit { condition: x },
                ExitRuleView::SignalExit { condition: y },
            ) => same_condition(x, y),
            (
                ExitRuleView::AtrStop { period: p, multiple: x },
                ExitRuleView::AtrStop { period: q, multiple: y },
            ) => p == q && same_leaf(x, y),
            _ => false,
        },
{
}

} // verus!
