//! The models of documents and of compiled strategies hold what the values hold, part for
//! part.
use crate::domain::dsl::compile::{
    compiled_views, CompiledCondition, CompiledConditionView, CompiledExit, CompiledExitView,
};
use crate::domain::dsl::condition::{condition_views, Condition, ConditionView};
use crate::domain::dsl::exit::{ExitRule, ExitRuleView};
use crate::domain::dsl::mutate::{Mutation, MutationView};
use crate::domain::dsl::strategy::StrategyDsl;
use vstd::prelude::*;

verus! {

/// The model of a condition is of its kind and has its operands, its operator and the models
/// of its members in their order.
pub proof fn law_models_of_conditions(c: Condition, i: int)
    ensures
        c matches Condition::Compare { lhs, op, rhs } ==> c@ == (ConditionView::Compare {
            lhs,
            op,
            rhs,
        }),
        c matches Condition::CrossesAbove { lhs, rhs } ==> c@ == (ConditionView::CrossesAbove {
            lhs,
            rhs,
        }),
        c matches Condition::CrossesBelow { lhs, rhs } ==> c@ == (ConditionView::CrossesBelow {
            lhs,
            rhs,
        }),
        c matches Condition::And { conditions } ==> (c@ matches ConditionView::And {
            conditions: models,
        } && models.len() == conditions@.len() && (0 <= i < models.len() ==> models[i]
            == conditions@[i]@)),
        c matches Condition::Or { conditions } ==> (c@ matches ConditionView::Or {
            conditions: models,
        } && models.len() == conditions@.len() && (0 <= i < models.len() ==> models[i]
            == conditions@[i]@)),
        c matches Condition::Not { condition } ==> (c@ matches ConditionView::Not {
            condition: model,
        } && *model == (*condition)@),
{
    reveal_with_fuel(Condition::model, 2);
    reveal_with_fuel(condition_views, 2);
}

/// The model of a compiled condition is of its kind and has its operands, its operator and
/// the models of its members in their order.
pub proof fn law_models_of_compiled_conditions(c: CompiledCondition, i: int)
    ensures
        c matches CompiledCondition::Compare { lhs, op, rhs } ==> c@
            == (CompiledConditionView::Compare { lhs, op, rhs }),
        c matches CompiledCondition::CrossesAbove { lhs, rhs } ==> c@
            == (CompiledConditionView::CrossesAbove { lhs, rhs }),
        c matches CompiledCondition::CrossesBelow { lhs, rhs } ==> c@
            == (CompiledConditionView::CrossesBelow { lhs, rhs }),
        c matches CompiledCondition::And(conditions) ==> (c@ matches CompiledConditionView::And(
            models,
        ) && models.len() == conditions@.len() && (0 <= i < models.len() ==> models[i]
            == conditions@[i]@)),
        c matches CompiledCondition::Or(conditions) ==> (c@ matches CompiledConditionView::Or(
            models,
        ) && models.len() == conditions@.len() && (0 <= i < models.len() ==> models[i]
            == conditions@[i]@)),
        c matches CompiledCondition::Not(condition) ==> (c@ matches CompiledConditionView::Not(
            model,
        ) && *model == (*condition)@),
{
    reveal_with_fuel(CompiledCondition::model, 2);
    reveal_with_fuel(compiled_views, 2);
}

/// The models of exit rules, in a document and compiled, are of their kind and have their
/// numbers.
pub proof fn law_models_of_exits(e: ExitRule, x: CompiledExit)
    ensures
        e matches ExitRule::StopLoss { distance_pct } ==> e@ == (ExitRuleView::StopLoss {
            distance_pct,
        }),
        e matches ExitRule::TakeProfit { target_r } ==> e@ == (ExitRuleView::TakeProfit {
            target_r,
        }),
        e matches ExitRule::TrailingStop { trail_pct } ==> e@ == (ExitRuleView::TrailingStop {
            trail_pct,
        }),
        e matches ExitRule::TimeStop { max_bars } ==> e@ == (ExitRuleView::TimeStop { max_bars }),
        e matches ExitRule::SignalExit { condition } ==> e@ == (ExitRuleView::SignalExit {
            condition: condition@,
        }),
        e matches ExitRule::AtrStop { period, multiple } ==> e@ == (ExitRuleView::AtrStop {
            period,
            multiple,
        }),
        x matches CompiledExit::StopLoss { distance_pct } ==> x@ == (CompiledExitView::StopLoss {
            distance_pct,
        }),
        x matches CompiledExit::TakeProfit { target_r } ==> x@ == (CompiledExitView::TakeProfit {
            target_r,
        }),
        x matches CompiledExit::TrailingStop { trail_pct } ==> x@
            == (CompiledExitView::TrailingStop { trail_pct }),
        x matches CompiledExit::TimeStop { max_bars } ==> x@ == (CompiledExitView::TimeStop {
            max_bars,
        }),
        x matches CompiledExit::SignalExit { condition } ==> x@ == (CompiledExitView::SignalExit {
            condition: condition@,
        }),
        x matches CompiledExit::AtrStop { period, multiple } ==> x@ == (CompiledExitView::AtrStop {
            period,
            multiple,
        }),
{
}

/// The model of a document has its version, name, direction and risk inputs, the model of
/// its entry, and those of its filters and exits in their order.
pub proof fn law_models_of_documents(dsl: StrategyDsl, i: int, m: Mutation)
    ensures
        dsl@.schema_version == dsl.schema_version,
        dsl@.name == dsl.name@,
        dsl@.direction == dsl.direction,
        dsl@.risk == dsl.risk,
        dsl@.entry == dsl.entry@,
        dsl@.filters.len() == dsl.filters@.len(),
        0 <= i < dsl.filters@.len() ==> dsl@.filters[i] == dsl.filters@[i]@,
        dsl@.exits.len() == dsl.exits@.len(),
        0 <= i < dsl.exits@.len() ==> dsl@.exits[i] == dsl.exits@[i]@,
        m matches Mutation::SetParam { path, new_value } ==> m@ == (MutationView {
            path: path@,
            new_value,
        }),
{
}

} // verus!
