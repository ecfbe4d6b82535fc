//! The shape of a document: everything of it but the numbers in its leaves. A mutation
//! keeps the shape, and setting the old number back undoes it.
use crate::decimal::Decimal;
use crate::domain::dsl::compile::{condition_htf, exits_refusal, members_htf, strategy_refusal};
use crate::domain::dsl::condition::ConditionView;
use crate::domain::dsl::exit::ExitRuleView;
use crate::domain::dsl::locators::{
    fixed_leaf, law_locators_are_distinct, law_write_changes_one_leaf, lemma_leaf_at,
};
use crate::domain::dsl::mutate::{
    already_holds, apply_outcome, condition_leaves, exit_leaves, exits_leaves, leaf_at,
    member_leaves, put_condition, put_conditions, put_exit, put_exits, put_strategy, put_value,
    risk_leaves, strategy_leaves, value_kind, value_leaves, LeafValue, LeafView,
    MutationErrorView, MutationView, ParamKind, ParamValue,
};
use crate::domain::dsl::risk::RiskParams;
use crate::domain::dsl::strategy::StrategyDslView;
use crate::domain::dsl::sweepable::SweepableValue;
use crate::domain::dsl::validate::{
    law_no_errors_iff_valid, member_path, strategy_errors, valid_exit, valid_strategy,
};
use crate::domain::dsl::value::{IndicatorSpec, ValueSource};
use vstd::prelude::*;

verus! {

/// The period that stands for any other in a shape.
pub open spec fn no_period() -> SweepableValue<u32> {
    SweepableValue::Fixed(0)
}

/// The threshold that stands for any other in a shape.
pub open spec fn no_threshold() -> SweepableValue<Decimal> {
    SweepableValue::Fixed(Decimal::of_parts(0, 0))
}

/// Which indicator it is.
pub open spec fn indicator_shape(spec: IndicatorSpec) -> IndicatorSpec {
    match spec {
        IndicatorSpec::Rsi { .. } => IndicatorSpec::Rsi { period: no_period() },
        IndicatorSpec::Ema { .. } => IndicatorSpec::Ema { period: no_period() },
        IndicatorSpec::Adx { .. } => IndicatorSpec::Adx { period: no_period() },
        IndicatorSpec::Macd { .. } => IndicatorSpec::Macd {
            fast: no_period(),
            slow: no_period(),
            signal: no_period(),
        },
        IndicatorSpec::Atr { .. } => IndicatorSpec::Atr { period: no_period() },
    }
}

/// An operand but for the periods of an indicator: its series, its price field or its
/// constant.
pub open spec fn value_shape(v: ValueSource) -> ValueSource {
    match v {
        ValueSource::Indicator { series, spec } => ValueSource::Indicator {
            series,
            spec: indicator_shape(spec),
        },
        _ => v,
    }
}

/// A condition tree but for the periods in it.
pub open spec fn condition_shape(c: ConditionView) -> ConditionView
    decreases c,
{
    match c {
        ConditionView::Compare { lhs, op, rhs } => ConditionView::Compare {
            lhs: value_shape(lhs),
            op,
            rhs: value_shape(rhs),
        },
        ConditionView::CrossesAbove { lhs, rhs } => ConditionView::CrossesAbove {
            lhs: value_shape(lhs),
            rhs: value_shape(rhs),
        },
        ConditionView::CrossesBelow { lhs, rhs } => ConditionView::CrossesBelow {
            lhs: value_shape(lhs),
            rhs: value_shape(rhs),
        },
        ConditionView::And { conditions } => ConditionView::And {
            conditions: condition_shapes(conditions),
        },
        ConditionView::Or { conditions } => ConditionView::Or {
            conditions: condition_shapes(conditions),
        },
        ConditionView::Not { condition } => ConditionView::Not {
            condition: Box::new(condition_shape(*condition)),
        },
    }
}

/// A list of conditions but for the periods in it.
pub open spec fn condition_shapes(conditions: Seq<ConditionView>) -> Seq<ConditionView>
    decreases conditions,
{
    Seq::new(
        conditions.len(),
        |i: int|
            if 0 <= i < conditions.len() {
                condition_shape(conditions[i])
            } else {
                arbitrary()
            },
    )
}

/// An exit rule but for the numbers in it.
pub open spec fn exit_shape(e: ExitRuleView) -> ExitRuleView {
    match e {
        ExitRuleView::StopLoss { .. } => ExitRuleView::StopLoss { distance_pct: no_threshold() },
        ExitRuleView::TakeProfit { .. } => ExitRuleView::TakeProfit { target_r: no_threshold() },
        ExitRuleView::TrailingStop { .. } => ExitRuleView::TrailingStop {
            trail_pct: no_threshold(),
        },
        ExitRuleView::TimeStop { .. } => ExitRuleView::TimeStop { max_bars: no_period() },
        ExitRuleView::SignalExit { condition } => ExitRuleView::SignalExit {
            condition: condition_shape(condition),
        },
        ExitRuleView::AtrStop { .. } => ExitRuleView::AtrStop {
            period: no_period(),
            multiple: no_threshold(),
        },
    }
}

/// A document but for the numbers in its leaves: the version, the name, the direction,
/// the operators, the indicators with their series, the price fields, the constants and
/// the kinds of the exit rules, each at its place.
pub open spec fn shape(dsl: StrategyDslView) -> StrategyDslView {
    StrategyDslView {
        entry: condition_shape(dsl.entry),
        filters: condition_shapes(dsl.filters),
        exits: dsl.exits.map_values(|e: ExitRuleView| exit_shape(e)),
        risk: RiskParams { risk_per_trade_pct: no_threshold(), max_leverage: no_threshold() },
        ..dsl
    }
}

proof fn lemma_condition_keeps_shape(
    c: ConditionView,
    path: Seq<char>,
    target: Seq<char>,
    new: ParamValue,
)
    ensures
        condition_shape(put_condition(c, path, target, new)) == condition_shape(c),
    decreases c,
{
    match c {
        ConditionView::And { conditions } => {
            lemma_members_keep_shape(conditions, path + ".and["@, target, new);
        },
        ConditionView::Or { conditions } => {
            lemma_members_keep_shape(conditions, path + ".or["@, target, new);
        },
        ConditionView::Not { condition } => {
            lemma_condition_keeps_shape(*condition, path + ".not"@, target, new);
        },
        _ => {},
    }
}

proof fn lemma_members_keep_shape(
    conditions: Seq<ConditionView>,
    stem: Seq<char>,
    target: Seq<char>,
    new: ParamValue,
)
    ensures
        condition_shapes(put_conditions(conditions, stem, target, new)) == condition_shapes(
            conditions,
        ),
    decreases conditions,
{
    let put = put_conditions(conditions, stem, target, new);
    assert forall|i: int| 0 <= i < conditions.len() implies condition_shape(#[trigger] put[i])
        == condition_shape(conditions[i]) by {
        lemma_condition_keeps_shape(conditions[i], member_path(stem, i as nat), target, new);
    }
    assert(condition_shapes(put) =~= condition_shapes(conditions));
}

/// A write keeps the shape of a document, whatever it writes and wherever.
pub proof fn law_write_keeps_the_shape(dsl: StrategyDslView, target: Seq<char>, new: ParamValue)
    ensures
        shape(put_strategy(dsl, target, new)) == shape(dsl),
{
    let put = put_strategy(dsl, target, new);
    lemma_condition_keeps_shape(dsl.entry, "entry"@, target, new);
    lemma_members_keep_shape(dsl.filters, "filters["@, target, new);
    assert forall|i: int| 0 <= i < dsl.exits.len() implies exit_shape(#[trigger] put.exits[i])
        == exit_shape(dsl.exits[i]) by {
        if let ExitRuleView::SignalExit { condition } = dsl.exits[i] {
            let base = member_path("exits["@, i as nat);
            lemma_condition_keeps_shape(condition, base + ".condition"@, target, new);
        }
    }
    assert(shape(put).exits =~= shape(dsl).exits);
}

/// A mutation that applies keeps the shape of the document, and changes the leaf at its
/// locator alone.
pub proof fn law_mutation_changes_one_leaf(dsl: StrategyDslView, mutation: MutationView)
    requires
        apply_outcome(dsl, mutation) is Ok,
    ensures
        shape(apply_outcome(dsl, mutation)->Ok_0) == shape(dsl),
        exists|k: int|
            0 <= k < strategy_leaves(dsl).len() && (#[trigger] strategy_leaves(dsl)[k]).path
                == mutation.path && strategy_leaves(apply_outcome(dsl, mutation)->Ok_0)
                == strategy_leaves(dsl).update(
                k,
                LeafView { path: mutation.path, value: fixed_leaf(mutation.new_value) },
            ),
{
    let leaves = strategy_leaves(dsl);
    let path = mutation.path;
    lemma_leaf_at(leaves, path, leaves.len());
    let k = choose|i: int|
        0 <= i < leaves.len() && (#[trigger] leaves[i]).path == path && leaf_at(
            leaves,
            path,
            leaves.len(),
        ) == Some(leaves[i].value);
    law_write_changes_one_leaf(dsl, k, mutation.new_value);
    law_write_keeps_the_shape(dsl, path, mutation.new_value);
    assert(strategy_leaves(dsl)[k].path == mutation.path);
}

// ---------------------------------------------------------------------------
// Setting the old number back.
// ---------------------------------------------------------------------------

/// Whether whatever stands at `target` is fixed to `old`.
spec fn holds_at(leaves: Seq<LeafView>, target: Seq<char>, old: ParamValue) -> bool {
    forall|i: int|
        0 <= i < leaves.len() && (#[trigger] leaves[i]).path == target ==> leaves[i].value
            == fixed_leaf(old)
}

proof fn lemma_holds_in_parts(
    a: Seq<LeafView>,
    b: Seq<LeafView>,
    target: Seq<char>,
    old: ParamValue,
)
    requires
        holds_at(a + b, target, old),
    ensures
        holds_at(a, target, old),
        holds_at(b, target, old),
{
    assert forall|i: int| 0 <= i < a.len() && (#[trigger] a[i]).path == target implies a[i].value
        == fixed_leaf(old) by {
        assert((a + b)[i] == a[i]);
    }
    assert forall|i: int| 0 <= i < b.len() && (#[trigger] b[i]).path == target implies b[i].value
        == fixed_leaf(old) by {
        assert((a + b)[a.len() + i] == b[i]);
    }
}

proof fn lemma_undo_value(
    v: ValueSource,
    path: Seq<char>,
    target: Seq<char>,
    new: ParamValue,
    old: ParamValue,
)
    requires
        holds_at(value_leaves(v, path), target, old),
        value_kind(new) == value_kind(old),
    ensures
        put_value(put_value(v, path, target, new), path, target, old) == v,
{
    if let ValueSource::Indicator { spec, .. } = v {
        let leaves = value_leaves(v, path);
        let p = path + ".indicator"@;
        match spec {
            IndicatorSpec::Rsi { .. } => assert(leaves[0].path == p + ".rsi.period"@),
            IndicatorSpec::Ema { .. } => assert(leaves[0].path == p + ".ema.period"@),
            IndicatorSpec::Adx { .. } => assert(leaves[0].path == p + ".adx.period"@),
            IndicatorSpec::Macd { .. } => {
                assert(leaves[0].path == p + ".macd.fast"@);
                assert(leaves[1].path == p + ".macd.slow"@);
                assert(leaves[2].path == p + ".macd.signal"@);
            },
            IndicatorSpec::Atr { .. } => assert(leaves[0].path == p + ".atr.period"@),
        }
    }
}

proof fn lemma_undo_operands(
    lhs: ValueSource,
    rhs: ValueSource,
    path: Seq<char>,
    target: Seq<char>,
    new: ParamValue,
    old: ParamValue,
)
    requires
        holds_at(
            value_leaves(lhs, path + ".lhs"@) + value_leaves(rhs, path + ".rhs"@),
            target,
            old,
        ),
        value_kind(new) == value_kind(old),
    ensures
        put_value(put_value(lhs, path + ".lhs"@, target, new), path + ".lhs"@, target, old) == lhs,
        put_value(put_value(rhs, path + ".rhs"@, target, new), path + ".rhs"@, target, old) == rhs,
{
    lemma_holds_in_parts(
        value_leaves(lhs, path + ".lhs"@),
        value_leaves(rhs, path + ".rhs"@),
        target,
        old,
    );
    lemma_undo_value(lhs, path + ".lhs"@, target, new, old);
    lemma_undo_value(rhs, path + ".rhs"@, target, new, old);
}

proof fn lemma_undo_condition(
    c: ConditionView,
    path: Seq<char>,
    target: Seq<char>,
    new: ParamValue,
    old: ParamValue,
)
    requires
        holds_at(condition_leaves(c, path), target, old),
        value_kind(new) == value_kind(old),
    ensures
        put_condition(put_condition(c, path, target, new), path, target, old) == c,
    decreases c,
{
    match c {
        ConditionView::Compare { lhs, op, rhs } => {
            lemma_undo_operands(lhs, rhs, path, target, new, old);
        },
        ConditionView::CrossesAbove { lhs, rhs } => {
            lemma_undo_operands(lhs, rhs, path, target, new, old);
        },
        ConditionView::CrossesBelow { lhs, rhs } => {
            lemma_undo_operands(lhs, rhs, path, target, new, old);
        },
        ConditionView::And { conditions } => {
            lemma_undo_members(conditions, path + ".and["@, target, new, old);
        },
        ConditionView::Or { conditions } => {
            lemma_undo_members(conditions, path + ".or["@, target, new, old);
        },
        ConditionView::Not { condition } => {
            lemma_undo_condition(*condition, path + ".not"@, target, new, old);
        },
    }
}

proof fn lemma_holds_in_members(
    conditions: Seq<ConditionView>,
    stem: Seq<char>,
    n: nat,
    target: Seq<char>,
    old: ParamValue,
)
    requires
        n <= conditions.len(),
        holds_at(member_leaves(conditions, stem, n), target, old),
    ensures
        forall|i: int|
            0 <= i < n ==> holds_at(
                condition_leaves(#[trigger] conditions[i], member_path(stem, i as nat)),
                target,
                old,
            ),
    decreases n,
{
    if n > 0 {
        let m = (n - 1) as nat;
        lemma_holds_in_parts(
            member_leaves(conditions, stem, m),
            condition_leaves(conditions[n - 1], member_path(stem, m)),
            target,
            old,
        );
        lemma_holds_in_members(conditions, stem, m, target, old);
    }
}

proof fn lemma_undo_members(
    conditions: Seq<ConditionView>,
    stem: Seq<char>,
    target: Seq<char>,
    new: ParamValue,
    old: ParamValue,
)
    requires
        holds_at(member_leaves(conditions, stem, conditions.len()), target, old),
        value_kind(new) == value_kind(old),
    ensures
        put_conditions(put_conditions(conditions, stem, target, new), stem, target, old)
            == conditions,
    decreases conditions,
{
    let put = put_conditions(conditions, stem, target, new);
    let back = put_conditions(put, stem, target, old);
    lemma_holds_in_members(conditions, stem, conditions.len(), target, old);
    assert forall|i: int| 0 <= i < conditions.len() implies #[trigger] back[i]
        == conditions[i] by {
        let path = member_path(stem, i as nat);
        assert(holds_at(condition_leaves(conditions[i], path), target, old));
        lemma_undo_condition(conditions[i], path, target, new, old);
        assert(put[i] == put_condition(conditions[i], path, target, new));
    }
    assert(back =~= conditions);
}

proof fn lemma_undo_exit(
    e: ExitRuleView,
    base: Seq<char>,
    target: Seq<char>,
    new: ParamValue,
    old: ParamValue,
)
    requires
        holds_at(exit_leaves(e, base), target, old),
        value_kind(new) == value_kind(old),
    ensures
        put_exit(put_exit(e, base, target, new), base, target, old) == e,
{
    let leaves = exit_leaves(e, base);
    match e {
        ExitRuleView::StopLoss { .. } => assert(leaves[0].path == base + ".distance_pct"@),
        ExitRuleView::TakeProfit { .. } => assert(leaves[0].path == base + ".target_r"@),
        ExitRuleView::TrailingStop { .. } => assert(leaves[0].path == base + ".trail_pct"@),
        ExitRuleView::TimeStop { .. } => assert(leaves[0].path == base + ".max_bars"@),
        ExitRuleView::SignalExit { condition } => {
            lemma_undo_condition(condition, base + ".condition"@, target, new, old);
        },
        ExitRuleView::AtrStop { .. } => {
            assert(leaves[0].path == base + ".period"@);
            assert(leaves[1].path == base + ".multiple"@);
        },
    }
}

proof fn lemma_holds_in_exits(exits: Seq<ExitRuleView>, n: nat, target: Seq<char>, old: ParamValue)
    requires
        n <= exits.len(),
        holds_at(exits_leaves(exits, n), target, old),
    ensures
        forall|i: int|
            0 <= i < n ==> holds_at(
                exit_leaves(#[trigger] exits[i], member_path("exits["@, i as nat)),
                target,
                old,
            ),
    decreases n,
{
    if n > 0 {
        let m = (n - 1) as nat;
        lemma_holds_in_parts(
            exits_leaves(exits, m),
            exit_leaves(exits[n - 1], member_path("exits["@, m)),
            target,
            old,
        );
        lemma_holds_in_exits(exits, m, target, old);
    }
}

proof fn lemma_undo_strategy(
    dsl: StrategyDslView,
    target: Seq<char>,
    new: ParamValue,
    old: ParamValue,
)
    requires
        holds_at(strategy_leaves(dsl), target, old),
        value_kind(new) == value_kind(old),
    ensures
        put_strategy(put_strategy(dsl, target, new), target, old) == dsl,
{
    let entry = condition_leaves(dsl.entry, "entry"@);
    let filters = member_leaves(dsl.filters, "filters["@, dsl.filters.len());
    let exits = exits_leaves(dsl.exits, dsl.exits.len());
    let risk = risk_leaves(dsl.risk);
    lemma_holds_in_parts(entry + filters + exits, risk, target, old);
    lemma_holds_in_parts(entry + filters, exits, target, old);
    lemma_holds_in_parts(entry, filters, target, old);
    lemma_undo_condition(dsl.entry, "entry"@, target, new, old);
    lemma_undo_members(dsl.filters, "filters["@, target, new, old);
    lemma_holds_in_exits(dsl.exits, dsl.exits.len(), target, old);
    let put = put_strategy(dsl, target, new);
    let back = put_strategy(put, target, old);
    assert forall|i: int| 0 <= i < dsl.exits.len() implies #[trigger] back.exits[i]
        == dsl.exits[i] by {
        let base = member_path("exits["@, i as nat);
        assert(holds_at(exit_leaves(dsl.exits[i], base), target, old));
        lemma_undo_exit(dsl.exits[i], base, target, new, old);
        assert(put.exits[i] == put_exit(dsl.exits[i], base, target, new));
    }
    assert(back.exits =~= dsl.exits);
    assert(risk[0].path == "risk.risk_per_trade_pct"@);
    assert(risk[1].path == "risk.max_leverage"@);
}

proof fn lemma_condition_keeps_htf(
    c: ConditionView,
    at: Seq<char>,
    path: Seq<char>,
    target: Seq<char>,
    new: ParamValue,
)
    ensures
        condition_htf(put_condition(c, path, target, new), at) == condition_htf(c, at),
    decreases c, 0nat,
{
    match c {
        ConditionView::And { conditions } => {
            let stem = path + ".and["@;
            lemma_members_keep_htf(conditions, at + ".and["@, stem, target, new, conditions.len());
        },
        ConditionView::Or { conditions } => {
            let stem = path + ".or["@;
            lemma_members_keep_htf(conditions, at + ".or["@, stem, target, new, conditions.len());
        },
        ConditionView::Not { condition } => {
            lemma_condition_keeps_htf(*condition, at + ".not"@, path + ".not"@, target, new);
        },
        _ => {},
    }
}

proof fn lemma_members_keep_htf(
    conditions: Seq<ConditionView>,
    at: Seq<char>,
    stem: Seq<char>,
    target: Seq<char>,
    new: ParamValue,
    n: nat,
)
    requires
        n <= conditions.len(),
    ensures
        members_htf(put_conditions(conditions, stem, target, new), at, n) == members_htf(
            conditions,
            at,
            n,
        ),
    decreases conditions, n,
{
    if n > 0 {
        let m = (n - 1) as nat;
        let put = put_conditions(conditions, stem, target, new);
        lemma_members_keep_htf(conditions, at, stem, target, new, m);
        let path = member_path(stem, m);
        assert(put[n - 1] == put_condition(conditions[n - 1], path, target, new));
        lemma_condition_keeps_htf(conditions[n - 1], member_path(at, m), path, target, new);
    }
}

proof fn lemma_exits_refused_alike(
    exits: Seq<ExitRuleView>,
    target: Seq<char>,
    new: ParamValue,
    n: nat,
)
    requires
        n <= exits.len(),
        forall|i: int| 0 <= i < exits.len() ==> valid_exit(#[trigger] exits[i]),
        exits_refusal(put_exits(exits, target, new), n) is None,
    ensures
        exits_refusal(exits, n) is None,
    decreases n,
{
    if n > 0 {
        let m = (n - 1) as nat;
        let base = member_path("exits["@, m);
        let put = put_exits(exits, target, new);
        lemma_exits_refused_alike(exits, target, new, m);
        assert(valid_exit(exits[n - 1]));
        assert(put[n - 1] == put_exit(exits[n - 1], base, target, new));
        if let ExitRuleView::SignalExit { condition } = exits[n - 1] {
            let at = base + ".condition"@;
            lemma_condition_keeps_htf(condition, at, at, target, new);
        }
    }
}

/// A valid document compiles where it compiles after a write.
proof fn lemma_compiles_before(dsl: StrategyDslView, target: Seq<char>, new: ParamValue)
    requires
        valid_strategy(dsl),
        strategy_refusal(put_strategy(dsl, target, new)) is None,
    ensures
        strategy_refusal(dsl) is None,
{
    let n = dsl.filters.len();
    lemma_condition_keeps_htf(dsl.entry, "entry"@, "entry"@, target, new);
    lemma_members_keep_htf(dsl.filters, "filters["@, "filters["@, target, new, n);
    lemma_exits_refused_alike(dsl.exits, target, new, dsl.exits.len());
}

/// Setting the old number back undoes a mutation: of the candidate for `mutation`, the
/// mutation that offers what the leaf was fixed to gives back the document, wherever the
/// document itself is valid.
pub proof fn law_setting_back_undoes(
    dsl: StrategyDslView,
    mutation: MutationView,
    old: ParamValue,
)
    requires
        apply_outcome(dsl, mutation) is Ok,
        leaf_at(strategy_leaves(dsl), mutation.path, strategy_leaves(dsl).len()) == Some(
            fixed_leaf(old),
        ),
    ensures
        put_strategy(apply_outcome(dsl, mutation)->Ok_0, mutation.path, old) == dsl,
        valid_strategy(dsl) ==> apply_outcome(
            apply_outcome(dsl, mutation)->Ok_0,
            (MutationView { path: mutation.path, new_value: old }),
        ) == Ok::<StrategyDslView, MutationErrorView>(dsl),
{
    let leaves = strategy_leaves(dsl);
    let path = mutation.path;
    let new = mutation.new_value;
    let candidate = put_strategy(dsl, path, new);
    lemma_leaf_at(leaves, path, leaves.len());
    let k = choose|i: int|
        0 <= i < leaves.len() && (#[trigger] leaves[i]).path == path && leaf_at(
            leaves,
            path,
            leaves.len(),
        ) == Some(leaves[i].value);
    law_locators_are_distinct(dsl);
    assert(holds_at(leaves, path, old)) by {
        assert forall|i: int| 0 <= i < leaves.len() && (#[trigger] leaves[i]).path == path implies
            leaves[i].value == fixed_leaf(old) by {
            if i < k {
                assert(leaves[i].path != leaves[k].path);
            } else if k < i {
                assert(leaves[k].path != leaves[i].path);
            }
        }
    }
    lemma_undo_strategy(dsl, path, new, old);
    law_write_changes_one_leaf(dsl, k, new);
    let after = strategy_leaves(candidate);
    assert(after[k].path == path);
    lemma_leaf_at(after, path, after.len());
    let j = choose|i: int|
        0 <= i < after.len() && (#[trigger] after[i]).path == path && leaf_at(
            after,
            path,
            after.len(),
        ) == Some(after[i].value);
    law_locators_are_distinct(candidate);
    if j < k {
        assert(after[j].path != after[k].path);
    } else if k < j {
        assert(after[k].path != after[j].path);
    }
    assert(!already_holds(fixed_leaf(new), old));
    if valid_strategy(dsl) {
        lemma_compiles_before(dsl, path, new);
    }
}

/// What becomes of a mutation at the locator of a leaf. A number of the other kind is
/// refused with both kinds; the number that the leaf is fixed to is no change; a document
/// that would break a rule is refused with every error of it; one that would not compile
/// with the refusal; and any other is the document with the leaf fixed to the number.
pub proof fn law_outcomes_of_mutations(dsl: StrategyDslView, k: int, new: ParamValue)
    requires
        0 <= k < strategy_leaves(dsl).len(),
    ensures
        ({
            let leaf = strategy_leaves(dsl)[k];
            let path = leaf.path;
            let outcome = apply_outcome(dsl, MutationView { path, new_value: new });
            let candidate = put_strategy(dsl, path, new);
            &&& leaf.value is Period && new is Threshold ==> outcome == Err::<
                StrategyDslView,
                MutationErrorView,
            >(
                MutationErrorView::TypeMismatch {
                    path,
                    expected: ParamKind::Period,
                    offered: ParamKind::Threshold,
                },
            )
            &&& leaf.value is Threshold && new is Period ==> outcome == Err::<
                StrategyDslView,
                MutationErrorView,
            >(
                MutationErrorView::TypeMismatch {
                    path,
                    expected: ParamKind::Threshold,
                    offered: ParamKind::Period,
                },
            )
            &&& (leaf.value is Period && new is Period) || (leaf.value is Threshold
                && new is Threshold) ==> {
                let same = match (leaf.value, new) {
                    (LeafValue::Period(SweepableValue::Fixed(a)), ParamValue::Period { value }) => a
                        == value,
                    (
                        LeafValue::Threshold(SweepableValue::Fixed(a)),
                        ParamValue::Threshold { value },
                    ) => a.units() == value.units(),
                    _ => false,
                };
                &&& same ==> outcome == Err::<StrategyDslView, MutationErrorView>(
                    MutationErrorView::NoChange { path },
                )
                &&& !same && strategy_errors(candidate).len() > 0 ==> outcome == Err::<
                    StrategyDslView,
                    MutationErrorView,
                >(
                    MutationErrorView::ValidationFailed {
                        path,
                        errors: strategy_errors(candidate),
                    },
                )
                &&& !same && strategy_errors(candidate).len() == 0 && strategy_refusal(
                    candidate,
                ) is Some ==> outcome == Err::<StrategyDslView, MutationErrorView>(
                    MutationErrorView::CompileFailed {
                        path,
                        source: strategy_refusal(candidate)->0,
                    },
                )
                &&& !same && strategy_errors(candidate).len() == 0 && strategy_refusal(
                    candidate,
                ) is None ==> outcome == Ok::<StrategyDslView, MutationErrorView>(candidate)
            }
        }),
{
    let leaves = strategy_leaves(dsl);
    let path = leaves[k].path;
    lemma_leaf_at(leaves, path, leaves.len());
    law_locators_are_distinct(dsl);
    assert(leaf_at(leaves, path, leaves.len()) is Some);
    let j = choose|i: int|
        0 <= i < leaves.len() && (#[trigger] leaves[i]).path == path && leaf_at(
            leaves,
            path,
            leaves.len(),
        ) == Some(leaves[i].value);
    if j < k {
        assert(leaves[j].path != leaves[k].path);
    } else if k < j {
        assert(leaves[k].path != leaves[j].path);
    }
    law_no_errors_iff_valid(put_strategy(dsl, path, new));
}

} // verus!
