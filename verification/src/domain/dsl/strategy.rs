//! `StrategyDsl`: the top-level strategy document.
use crate::domain::dsl::condition::{clone_conditions, condition_views, Condition, ConditionView};
use crate::domain::dsl::exit::{clone_exits, exit_views, ExitRule, ExitRuleView};
use crate::domain::dsl::risk::{Direction, RiskParams};
use crate::domain::dsl::schema_version::SchemaVersion;
use vstd::prelude::*;

verus! {

/// A complete, self-contained strategy document.
///
/// The effective entry is `entry` and all `filters`; the two stay separate in the
/// document.
#[derive(Debug, PartialEq, Eq)]
pub struct StrategyDsl {
    /// The document's schema version.
    pub schema_version: SchemaVersion,
    /// Human-readable strategy name.
    pub name: String,
    /// The single trade side this strategy takes.
    pub direction: Direction,
    /// The required entry trigger.
    pub entry: Condition,
    /// Additional gating conditions, conjoined with `entry`.
    pub filters: Vec<Condition>,
    /// The exit rules; any that triggers closes the position.
    pub exits: Vec<ExitRule>,
    /// The risk and sizing inputs.
    pub risk: RiskParams,
}

/// The mathematical model of a [`StrategyDsl`].
pub struct StrategyDslView {
    pub schema_version: SchemaVersion,
    pub name: Seq<char>,
    pub direction: Direction,
    pub entry: ConditionView,
    pub filters: Seq<ConditionView>,
    pub exits: Seq<ExitRuleView>,
    pub risk: RiskParams,
}

impl View for StrategyDsl {
    type V = StrategyDslView;

    open spec fn view(&self) -> StrategyDslView {
        StrategyDslView {
            schema_version: self.schema_version,
            name: self.name@,
            direction: self.direction,
            entry: self.entry@,
            filters: condition_views(self.filters@),
            exits: exit_views(self.exits@),
            risk: self.risk,
        }
    }
}

impl Clone for StrategyDsl {
    fn clone(&self) -> (r: StrategyDsl)
        ensures
            r@ == self@,
    {
        StrategyDsl {
            schema_version: self.schema_version,
            name: self.name.clone(),
            direction: self.direction,
            entry: self.entry.clone(),
            filters: clone_conditions(&self.filters),
            exits: clone_exits(&self.exits),
            risk: self.risk,
        }
    }
}

} // verus!
