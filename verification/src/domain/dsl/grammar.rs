//! The grammar of locators: where each numeric leaf of a document is addressed.
use crate::decimal::Decimal;
use crate::domain::dsl::condition::{Comparator, ConditionView};
use crate::domain::dsl::exit::ExitRuleView;
use crate::domain::dsl::mutate::{
    condition_leaves, exit_leaves, exits_leaves, indicator_leaves, member_leaves, risk_leaves,
    strategy_leaves, value_leaves, LeafValue, LeafView,
};
use crate::domain::dsl::strategy::StrategyDslView;
use crate::domain::dsl::sweepable::SweepableValue;
use crate::domain::dsl::validate::member_path;
use crate::domain::dsl::value::{IndicatorSpec, ValueSource};
use crate::text::digits;
use vstd::prelude::*;

verus! {

/// Whether every leaf of one list is in another.
pub open spec fn all_leaves_among(part: Seq<LeafView>, leaves: Seq<LeafView>) -> bool {
    forall|l: LeafView| #[trigger] part.contains(l) ==> leaves.contains(l)
}

proof fn lemma_leaves_concat(a: Seq<LeafView>, b: Seq<LeafView>)
    ensures
        all_leaves_among(a, a + b),
        all_leaves_among(b, a + b),
{
    let c = a + b;
    assert forall|l: LeafView| #[trigger] a.contains(l) implies c.contains(l) by {
        let k = choose|k: int| 0 <= k < a.len() && a[k] == l;
        assert(c[k] == l);
    }
    assert forall|l: LeafView| #[trigger] b.contains(l) implies c.contains(l) by {
        let k = choose|k: int| 0 <= k < b.len() && b[k] == l;
        assert(c[a.len() + k] == l);
    }
}

/// The periods of an indicator are addressed by its name and theirs.
pub proof fn law_indicator_locators(
    period: SweepableValue<u32>,
    fast: SweepableValue<u32>,
    slow: SweepableValue<u32>,
    signal: SweepableValue<u32>,
    path: Seq<char>,
)
    ensures
        indicator_leaves(IndicatorSpec::Rsi { period }, path) == seq![
            LeafView { path: path + ".rsi.period"@, value: LeafValue::Period(period) },
        ],
        indicator_leaves(IndicatorSpec::Ema { period }, path) == seq![
            LeafView { path: path + ".ema.period"@, value: LeafValue::Period(period) },
        ],
        indicator_leaves(IndicatorSpec::Adx { period }, path) == seq![
            LeafView { path: path + ".adx.period"@, value: LeafValue::Period(period) },
        ],
        indicator_leaves(IndicatorSpec::Atr { period }, path) == seq![
            LeafView { path: path + ".atr.period"@, value: LeafValue::Period(period) },
        ],
        indicator_leaves(IndicatorSpec::Macd { fast, slow, signal }, path) == seq![
            LeafView { path: path + ".macd.fast"@, value: LeafValue::Period(fast) },
            LeafView { path: path + ".macd.slow"@, value: LeafValue::Period(slow) },
            LeafView { path: path + ".macd.signal"@, value: LeafValue::Period(signal) },
        ],
{
}

/// The numbers of an exit rule are addressed by their names, and those of the risk inputs
/// by theirs.
pub proof fn law_exit_locators(
    number: SweepableValue<Decimal>,
    period: SweepableValue<u32>,
    condition: ConditionView,
    base: Seq<char>,
)
    ensures
        exit_leaves(ExitRuleView::StopLoss { distance_pct: number }, base) == seq![
            LeafView { path: base + ".distance_pct"@, value: LeafValue::Threshold(number) },
        ],
        exit_leaves(ExitRuleView::TakeProfit { target_r: number }, base) == seq![
            LeafView { path: base + ".target_r"@, value: LeafValue::Threshold(number) },
        ],
        exit_leaves(ExitRuleView::TrailingStop { trail_pct: number }, base) == seq![
            LeafView { path: base + ".trail_pct"@, value: LeafValue::Threshold(number) },
        ],
        exit_leaves(ExitRuleView::TimeStop { max_bars: period }, base) == seq![
            LeafView { path: base + ".max_bars"@, value: LeafValue::Period(period) },
        ],
        exit_leaves(ExitRuleView::AtrStop { period, multiple: number }, base) == seq![
            LeafView { path: base + ".period"@, value: LeafValue::Period(period) },
            LeafView { path: base + ".multiple"@, value: LeafValue::Threshold(number) },
        ],
        exit_leaves(ExitRuleView::SignalExit { condition }, base) == condition_leaves(
            condition,
            base + ".condition"@,
        ),
{
}

proof fn lemma_member_leaves_among(
    conditions: Seq<ConditionView>,
    stem: Seq<char>,
    i: int,
    n: nat,
)
    requires
        0 <= i < n <= conditions.len(),
    ensures
        all_leaves_among(
            condition_leaves(conditions[i], stem + digits(i as nat) + "]"@),
            member_leaves(conditions, stem, n),
        ),
    decreases n,
{
    let m = (n - 1) as nat;
    lemma_leaves_concat(
        member_leaves(conditions, stem, m),
        condition_leaves(conditions[n - 1], member_path(stem, m)),
    );
    if i < m {
        lemma_member_leaves_among(conditions, stem, i, m);
    }
}

/// The leaves of a condition hold those of its parts: of the members of a group at their
/// positions, of what is negated, and of the two operands.
pub proof fn law_condition_locators(
    conditions: Seq<ConditionView>,
    i: int,
    lhs: ValueSource,
    rhs: ValueSource,
    op: Comparator,
    path: Seq<char>,
)
    requires
        0 <= i < conditions.len(),
    ensures
        all_leaves_among(
            condition_leaves(conditions[i], path + ".and["@ + digits(i as nat) + "]"@),
            condition_leaves(ConditionView::And { conditions }, path),
        ),
        all_leaves_among(
            condition_leaves(conditions[i], path + ".or["@ + digits(i as nat) + "]"@),
            condition_leaves(ConditionView::Or { conditions }, path),
        ),
        condition_leaves(ConditionView::Not { condition: Box::new(conditions[i]) }, path)
            == condition_leaves(conditions[i], path + ".not"@),
        lhs matches ValueSource::Indicator { spec, .. } ==> {
            let leaves = indicator_leaves(spec, path + ".lhs"@ + ".indicator"@);
            &&& all_leaves_among(
                leaves,
                condition_leaves(ConditionView::Compare { lhs, op, rhs }, path),
            )
            &&& all_leaves_among(
                leaves,
                condition_leaves(ConditionView::CrossesAbove { lhs, rhs }, path),
            )
            &&& all_leaves_among(
                leaves,
                condition_leaves(ConditionView::CrossesBelow { lhs, rhs }, path),
            )
        },
        rhs matches ValueSource::Indicator { spec, .. } ==> {
            let leaves = indicator_leaves(spec, path + ".rhs"@ + ".indicator"@);
            &&& all_leaves_among(
                leaves,
                condition_leaves(ConditionView::Compare { lhs, op, rhs }, path),
            )
            &&& all_leaves_among(
                leaves,
                condition_leaves(ConditionView::CrossesAbove { lhs, rhs }, path),
            )
            &&& all_leaves_among(
                leaves,
                condition_leaves(ConditionView::CrossesBelow { lhs, rhs }, path),
            )
        },
{
    reveal_with_fuel(condition_leaves, 2);
    lemma_member_leaves_among(conditions, path + ".and["@, i, conditions.len());
    lemma_member_leaves_among(conditions, path + ".or["@, i, conditions.len());
    lemma_leaves_concat(value_leaves(lhs, path + ".lhs"@), value_leaves(rhs, path + ".rhs"@));
}

proof fn lemma_exit_leaves_among(exits: Seq<ExitRuleView>, i: int, n: nat)
    requires
        0 <= i < n <= exits.len(),
    ensures
        all_leaves_among(
            exit_leaves(exits[i], "exits["@ + digits(i as nat) + "]"@),
            exits_leaves(exits, n),
        ),
    decreases n,
{
    let m = (n - 1) as nat;
    lemma_leaves_concat(
        exits_leaves(exits, m),
        exit_leaves(exits[n - 1], member_path("exits["@, m)),
    );
    if i < m {
        lemma_exit_leaves_among(exits, i, m);
    }
}

/// The leaves of a document are those of the entry, of the filters and of the exits, each at
/// its position, and the two risk inputs; the numbers of these add up to all of them.
pub proof fn law_document_locators(dsl: StrategyDslView, i: int, j: int)
    ensures
        all_leaves_among(condition_leaves(dsl.entry, "entry"@), strategy_leaves(dsl)),
        0 <= i < dsl.filters.len() ==> all_leaves_among(
            condition_leaves(dsl.filters[i], "filters["@ + digits(i as nat) + "]"@),
            strategy_leaves(dsl),
        ),
        0 <= j < dsl.exits.len() ==> all_leaves_among(
            exit_leaves(dsl.exits[j], "exits["@ + digits(j as nat) + "]"@),
            strategy_leaves(dsl),
        ),
        strategy_leaves(dsl).contains(
            LeafView {
                path: "risk.risk_per_trade_pct"@,
                value: LeafValue::Threshold(dsl.risk.risk_per_trade_pct),
            },
        ),
        strategy_leaves(dsl).contains(
            LeafView {
                path: "risk.max_leverage"@,
                value: LeafValue::Threshold(dsl.risk.max_leverage),
            },
        ),
        dsl.filters.len() == 0 && dsl.exits.len() == 0 ==> strategy_leaves(dsl).len()
            == condition_leaves(dsl.entry, "entry"@).len() + 2,
{
    let entry = condition_leaves(dsl.entry, "entry"@);
    let filters = member_leaves(dsl.filters, "filters["@, dsl.filters.len());
    let exits = exits_leaves(dsl.exits, dsl.exits.len());
    let risk = risk_leaves(dsl.risk);
    lemma_leaves_concat(entry, filters);
    lemma_leaves_concat(entry + filters, exits);
    lemma_leaves_concat(entry + filters + exits, risk);
    if 0 <= i < dsl.filters.len() {
        lemma_member_leaves_among(dsl.filters, "filters["@, i, dsl.filters.len());
    }
    if 0 <= j < dsl.exits.len() {
        lemma_exit_leaves_among(dsl.exits, j, dsl.exits.len());
    }
    assert(risk.contains(risk[0]));
    assert(risk.contains(risk[1]));
}

} // verus!
