//! What conditions mean, said of the documents themselves: compiling keeps the meaning.
use crate::decimal::Decimal;
use crate::domain::dsl::compile::{
    comparison_holds, compiled_condition, compiled_conditions, compiled_strategy, effective_entry,
    holds, Bar, CompiledConditionView, CompiledExitView, CompiledValue,
};
use crate::domain::dsl::condition::{Comparator, ConditionView};
use crate::domain::dsl::exit::ExitRuleView;
use crate::domain::dsl::strategy::StrategyDslView;
use crate::domain::dsl::sweepable::SweepableValue;
use crate::domain::dsl::value::{IndicatorSpec, PriceField, Series, ValueSource};
use vstd::prelude::*;

verus! {

// ---------------------------------------------------------------------------
// Comparisons.
// ---------------------------------------------------------------------------

/// The comparisons are those of the numeric order: less is less in units, exactly one of
/// less, equal and greater holds, greater is less the other way round, and the two that
/// admit equality are each the negation of the opposite strict one.
pub proof fn law_comparisons_are_one_order(l: Decimal, r: Decimal)
    ensures
        comparison_holds(l, Comparator::Lt, r) <==> l.units() < r.units(),
        comparison_holds(l, Comparator::Eq, r) <==> l.units() == r.units(),
        comparison_holds(l, Comparator::Gt, r) <==> comparison_holds(r, Comparator::Lt, l),
        comparison_holds(l, Comparator::Gte, r) <==> comparison_holds(l, Comparator::Gt, r)
            || comparison_holds(l, Comparator::Eq, r),
        comparison_holds(l, Comparator::Lte, r) <==> comparison_holds(l, Comparator::Lt, r)
            || comparison_holds(l, Comparator::Eq, r),
        comparison_holds(l, Comparator::Gte, r) <==> !comparison_holds(l, Comparator::Lt, r),
        comparison_holds(l, Comparator::Lte, r) <==> !comparison_holds(l, Comparator::Gt, r),
        comparison_holds(l, Comparator::Gte, r) <==> comparison_holds(r, Comparator::Lte, l),
        comparison_holds(l, Comparator::Gt, r) ==> !comparison_holds(l, Comparator::Eq, r)
            && !comparison_holds(l, Comparator::Lt, r),
        comparison_holds(l, Comparator::Eq, r) ==> !comparison_holds(l, Comparator::Lt, r),
        comparison_holds(l, Comparator::Gt, r) || comparison_holds(l, Comparator::Eq, r)
            || comparison_holds(l, Comparator::Lt, r),
{
}

/// A compiled comparison compares the two numbers of the bar at hand in the numeric order,
/// and reads nothing of the bar before.
pub proof fn law_compiled_comparison(
    lhs: CompiledValue,
    rhs: CompiledValue,
    now: Bar,
    before: Bar,
    l: Decimal,
    r: Decimal,
)
    requires
        now(lhs) == Some(l),
        now(rhs) == Some(r),
    ensures
        holds(CompiledConditionView::Compare { lhs, op: Comparator::Gt, rhs }, now, before)
            <==> r.units() < l.units(),
        holds(CompiledConditionView::Compare { lhs, op: Comparator::Gte, rhs }, now, before)
            <==> !(l.units() < r.units()),
        holds(CompiledConditionView::Compare { lhs, op: Comparator::Lt, rhs }, now, before)
            <==> l.units() < r.units(),
        holds(CompiledConditionView::Compare { lhs, op: Comparator::Lte, rhs }, now, before)
            <==> !(r.units() < l.units()),
        holds(CompiledConditionView::Compare { lhs, op: Comparator::Eq, rhs }, now, before)
            <==> l.units() == r.units(),
{
}

/// A cross above is a step from at or below to strictly above, a cross below the mirror
/// image; a cross one way is no cross the other way, and swapping the operands swaps the
/// two.
pub proof fn law_crosses_mirror(lhs: CompiledValue, rhs: CompiledValue, now: Bar, before: Bar)
    ensures
        holds(CompiledConditionView::CrossesAbove { lhs, rhs }, now, before) <==> holds(
            CompiledConditionView::CrossesBelow { lhs: rhs, rhs: lhs },
            now,
            before,
        ),
        !(holds(CompiledConditionView::CrossesAbove { lhs, rhs }, now, before) && holds(
            CompiledConditionView::CrossesBelow { lhs, rhs },
            now,
            before,
        )),
        holds(CompiledConditionView::CrossesAbove { lhs, rhs }, now, before) <==> (before(
            lhs,
        ) matches Some(pl) && before(rhs) matches Some(pr) && now(lhs) matches Some(cl) && now(
            rhs,
        ) matches Some(cr) && pl.units() <= pr.units() && cl.units() > cr.units()),
        holds(CompiledConditionView::CrossesBelow { lhs, rhs }, now, before) <==> (before(
            lhs,
        ) matches Some(pl) && before(rhs) matches Some(pr) && now(lhs) matches Some(cl) && now(
            rhs,
        ) matches Some(cr) && pl.units() >= pr.units() && cl.units() < cr.units()),
{
}

// ---------------------------------------------------------------------------
// The language.
// ---------------------------------------------------------------------------

/// The values of the operands of a document on one bar; `None` is an unavailable value.
pub type SourceBar = spec_fn(ValueSource) -> Option<Decimal>;

/// What a condition of a document means, on a bar and the bar before it.
pub open spec fn source_holds(c: ConditionView, now: SourceBar, before: SourceBar) -> bool
    decreases c,
{
    match c {
        ConditionView::Compare { lhs, op, rhs } => {
            &&& now(lhs) is Some
            &&& now(rhs) is Some
            &&& {
                let l = now(lhs)->0.units();
                let r = now(rhs)->0.units();
                match op {
                    Comparator::Gt => l > r,
                    Comparator::Gte => l >= r,
                    Comparator::Lt => l < r,
                    Comparator::Lte => l <= r,
                    Comparator::Eq => l == r,
                }
            }
        },
        ConditionView::CrossesAbove { lhs, rhs } => {
            &&& before(lhs) is Some && before(rhs) is Some
            &&& now(lhs) is Some && now(rhs) is Some
            &&& before(lhs)->0.units() <= before(rhs)->0.units()
            &&& now(lhs)->0.units() > now(rhs)->0.units()
        },
        ConditionView::CrossesBelow { lhs, rhs } => {
            &&& before(lhs) is Some && before(rhs) is Some
            &&& now(lhs) is Some && now(rhs) is Some
            &&& before(lhs)->0.units() >= before(rhs)->0.units()
            &&& now(lhs)->0.units() < now(rhs)->0.units()
        },
        ConditionView::And { conditions } => forall|i: int|
            0 <= i < conditions.len() ==> source_holds(#[trigger] conditions[i], now, before),
        ConditionView::Or { conditions } => exists|i: int|
            0 <= i < conditions.len() && source_holds(#[trigger] conditions[i], now, before),
        ConditionView::Not { condition } => !source_holds(*condition, now, before),
    }
}

/// Whether a bar of compiled operands and a bar of a document's operands show the same
/// values: each constant, each price and each indicator under its own name.
pub open spec fn same_bar(compiled: Bar, source: SourceBar) -> bool {
    &&& forall|value: Decimal| #[trigger]
        compiled(CompiledValue::Const(value)) == source(ValueSource::Constant { value })
    &&& forall|series: Series, field: PriceField| #[trigger]
        compiled(CompiledValue::Price { series, field }) == source(
            ValueSource::Price { series, field },
        )
    &&& forall|series: Series, spec: IndicatorSpec| #[trigger]
        compiled(CompiledValue::Indicator { series, spec }) == source(
            ValueSource::Indicator { series, spec },
        )
}

/// Compiling a condition keeps its meaning: the compiled condition holds on two bars
/// exactly where the condition of the document does.
pub proof fn law_compiling_keeps_the_meaning(
    c: ConditionView,
    now: Bar,
    before: Bar,
    source_now: SourceBar,
    source_before: SourceBar,
)
    requires
        same_bar(now, source_now),
        same_bar(before, source_before),
    ensures
        holds(compiled_condition(c), now, before) <==> source_holds(c, source_now, source_before),
    decreases c,
{
    match c {
        ConditionView::Compare { lhs, op, rhs } => {
            lemma_same_operand(lhs, now, source_now);
            lemma_same_operand(rhs, now, source_now);
        },
        ConditionView::CrossesAbove { lhs, rhs } => {
            lemma_same_operand(lhs, now, source_now);
            lemma_same_operand(rhs, now, source_now);
            lemma_same_operand(lhs, before, source_before);
            lemma_same_operand(rhs, before, source_before);
        },
        ConditionView::CrossesBelow { lhs, rhs } => {
            lemma_same_operand(lhs, now, source_now);
            lemma_same_operand(rhs, now, source_now);
            lemma_same_operand(lhs, before, source_before);
            lemma_same_operand(rhs, before, source_before);
        },
        ConditionView::And { conditions } => {
            let all = compiled_conditions(conditions);
            assert(compiled_condition(c)->And_0 == all);
            assert forall|i: int| 0 <= i < conditions.len() implies holds(
                #[trigger] all[i],
                now,
                before,
            ) == source_holds(conditions[i], source_now, source_before) by {
                law_compiling_keeps_the_meaning(
                    conditions[i],
                    now,
                    before,
                    source_now,
                    source_before,
                );
            }
            if holds(compiled_condition(c), now, before) {
                assert forall|i: int| 0 <= i < conditions.len() implies source_holds(
                    #[trigger] conditions[i],
                    source_now,
                    source_before,
                ) by {
                    assert(holds(compiled_condition(c)->And_0[i], now, before));
                }
            }
            if source_holds(c, source_now, source_before) {
                assert forall|i: int| 0 <= i < all.len() implies holds(
                    #[trigger] all[i],
                    now,
                    before,
                ) by {
                    assert(source_holds(conditions[i], source_now, source_before));
                }
            }
        },
        ConditionView::Or { conditions } => {
            let all = compiled_conditions(conditions);
            assert(compiled_condition(c)->Or_0 == all);
            assert forall|i: int| 0 <= i < conditions.len() implies holds(
                #[trigger] all[i],
                now,
                before,
            ) == source_holds(conditions[i], source_now, source_before) by {
                law_compiling_keeps_the_meaning(
                    conditions[i],
                    now,
                    before,
                    source_now,
                    source_before,
                );
            }
            if holds(compiled_condition(c), now, before) {
                let i = choose|i: int|
                    0 <= i < all.len() && holds(#[trigger] compiled_condition(c)->Or_0[i], now, before);
                assert(holds(all[i], now, before));
                assert(source_holds(conditions[i], source_now, source_before));
            }
            if source_holds(c, source_now, source_before) {
                let i = choose|i: int|
                    0 <= i < conditions.len() && source_holds(
                        #[trigger] conditions[i],
                        source_now,
                        source_before,
                    );
                assert(holds(compiled_condition(c)->Or_0[i], now, before));
            }
        },
        ConditionView::Not { condition } => {
            law_compiling_keeps_the_meaning(*condition, now, before, source_now, source_before);
        },
    }
}

proof fn lemma_same_operand(v: ValueSource, compiled: Bar, source: SourceBar)
    requires
        same_bar(compiled, source),
    ensures
        compiled(crate::domain::dsl::compile::compiled_value(v)) == source(v),
{
    match v {
        ValueSource::Constant { value } => {
            assert(compiled(CompiledValue::Const(value)) == source(v));
        },
        ValueSource::Price { series, field } => {
            assert(compiled(CompiledValue::Price { series, field }) == source(v));
        },
        ValueSource::Indicator { series, spec } => {
            assert(compiled(CompiledValue::Indicator { series, spec }) == source(v));
        },
    }
}

/// A compiled strategy enters exactly where the entry of the document and every filter of
/// it hold.
pub proof fn law_compiled_entry_means(
    dsl: StrategyDslView,
    now: Bar,
    before: Bar,
    source_now: SourceBar,
    source_before: SourceBar,
)
    requires
        same_bar(now, source_now),
        same_bar(before, source_before),
    ensures
        holds(compiled_strategy(dsl).entry, now, before) <==> {
            &&& source_holds(dsl.entry, source_now, source_before)
            &&& forall|i: int|
                0 <= i < dsl.filters.len() ==> source_holds(
                    #[trigger] dsl.filters[i],
                    source_now,
                    source_before,
                )
        },
{
    crate::domain::dsl::compile::law_effective_entry(dsl.entry, dsl.filters, now, before);
    law_compiling_keeps_the_meaning(dsl.entry, now, before, source_now, source_before);
    assert forall|i: int| 0 <= i < dsl.filters.len() implies holds(
        compiled_condition(#[trigger] dsl.filters[i]),
        now,
        before,
    ) == source_holds(dsl.filters[i], source_now, source_before) by {
        law_compiling_keeps_the_meaning(
            dsl.filters[i],
            now,
            before,
            source_now,
            source_before,
        );
    }
    assert(compiled_strategy(dsl).entry == effective_entry(dsl.entry, dsl.filters));
}

/// A compiled strategy has the direction, the exits and the risk inputs of its document:
/// one exit for each, of the same kind and with the same numbers, and a signal exit whose
/// condition means what the document's does.
pub proof fn law_compiled_strategy_is_the_document(
    dsl: StrategyDslView,
    i: int,
    now: Bar,
    before: Bar,
    source_now: SourceBar,
    source_before: SourceBar,
)
    requires
        0 <= i < dsl.exits.len(),
        same_bar(now, source_now),
        same_bar(before, source_before),
    ensures
        ({
            let s = compiled_strategy(dsl);
            let exit = s.exits[i];
            &&& s.direction == dsl.direction
            &&& s.exits.len() == dsl.exits.len()
            &&& dsl.risk.risk_per_trade_pct matches SweepableValue::Fixed(x)
                ==> s.risk.risk_per_trade_pct == x
            &&& dsl.risk.max_leverage matches SweepableValue::Fixed(x) ==> s.risk.max_leverage == x
            &&& dsl.exits[i] matches ExitRuleView::StopLoss {
                distance_pct: SweepableValue::Fixed(x),
            } ==> exit == (CompiledExitView::StopLoss { distance_pct: x })
            &&& dsl.exits[i] matches ExitRuleView::TakeProfit {
                target_r: SweepableValue::Fixed(x),
            } ==> exit == (CompiledExitView::TakeProfit { target_r: x })
            &&& dsl.exits[i] matches ExitRuleView::TrailingStop {
                trail_pct: SweepableValue::Fixed(x),
            } ==> exit == (CompiledExitView::TrailingStop { trail_pct: x })
            &&& dsl.exits[i] matches ExitRuleView::TimeStop {
                max_bars: SweepableValue::Fixed(x),
            } ==> exit == (CompiledExitView::TimeStop { max_bars: x })
            &&& dsl.exits[i] matches ExitRuleView::AtrStop {
                period: SweepableValue::Fixed(x),
                multiple: SweepableValue::Fixed(y),
            } ==> exit == (CompiledExitView::AtrStop { period: x, multiple: y })
            &&& dsl.exits[i] matches ExitRuleView::SignalExit { condition } ==> (
            exit matches CompiledExitView::SignalExit { condition: compiled } && (holds(
                compiled,
                now,
                before,
            ) <==> source_holds(condition, source_now, source_before)))
        }),
{
    if let ExitRuleView::SignalExit { condition } = dsl.exits[i] {
        law_compiling_keeps_the_meaning(condition, now, before, source_now, source_before);
    }
}

} // verus!
