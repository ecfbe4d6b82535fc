//! `ExitRule`: the exit vocabulary of a strategy.
use crate::decimal::Decimal;
use crate::domain::dsl::condition::{Condition, ConditionView};
use crate::domain::dsl::sweepable::SweepableValue;
use vstd::prelude::*;

verus! {

/// A single exit rule. Any rule of a strategy that triggers closes the position.
#[derive(Debug, PartialEq, Eq)]
pub enum ExitRule {
    /// A fixed stop-loss a fraction of the entry price away; it defines 1R.
    StopLoss {
        /// Stop distance as a decimal fraction (`0.05` is 5%).
        distance_pct: SweepableValue<Decimal>,
    },
    /// A take-profit target as a multiple of the stop distance.
    TakeProfit {
        /// Target as a plain R-multiple (`2.0` is 2R).
        target_r: SweepableValue<Decimal>,
    },
    /// A trailing stop behind the favourable extreme.
    TrailingStop {
        /// Trail distance as a decimal fraction.
        trail_pct: SweepableValue<Decimal>,
    },
    /// A time-based exit.
    TimeStop {
        /// Maximum number of bars to hold before closing.
        max_bars: SweepableValue<u32>,
    },
    /// Close when a condition becomes true.
    SignalExit {
        /// The condition that, when true, closes the position.
        condition: Condition,
    },
    /// A stop a multiple of the primary series' average true range away.
    AtrStop {
        /// Lookback period of the average true range.
        period: SweepableValue<u32>,
        /// Plain multiplier in `(0, 10]`.
        multiple: SweepableValue<Decimal>,
    },
}

/// The mathematical model of an [`ExitRule`].
pub enum ExitRuleView {
    StopLoss { distance_pct: SweepableValue<Decimal> },
    TakeProfit { target_r: SweepableValue<Decimal> },
    TrailingStop { trail_pct: SweepableValue<Decimal> },
    TimeStop { max_bars: SweepableValue<u32> },
    SignalExit { condition: ConditionView },
    AtrStop { period: SweepableValue<u32>, multiple: SweepableValue<Decimal> },
}

impl View for ExitRule {
    type V = ExitRuleView;

    open spec fn view(&self) -> ExitRuleView {
        match *self {
            ExitRule::StopLoss { distance_pct } => ExitRuleView::StopLoss { distance_pct },
            ExitRule::TakeProfit { target_r } => ExitRuleView::TakeProfit { target_r },
            ExitRule::TrailingStop { trail_pct } => ExitRuleView::TrailingStop { trail_pct },
            ExitRule::TimeStop { max_bars } => ExitRuleView::TimeStop { max_bars },
            ExitRule::SignalExit { condition } => ExitRuleView::SignalExit { condition: condition@ },
            ExitRule::AtrStop { period, multiple } => ExitRuleView::AtrStop { period, multiple },
        }
    }
}

impl Clone for ExitRule {
    fn clone(&self) -> (r: ExitRule)
        ensures
            r@ == self@,
    {
        match self {
            ExitRule::StopLoss { distance_pct } => ExitRule::StopLoss {
                distance_pct: *distance_pct,
            },
            ExitRule::TakeProfit { target_r } => ExitRule::TakeProfit { target_r: *target_r },
            ExitRule::TrailingStop { trail_pct } => ExitRule::TrailingStop {
                trail_pct: *trail_pct,
            },
            ExitRule::TimeStop { max_bars } => ExitRule::TimeStop { max_bars: *max_bars },
            ExitRule::SignalExit { condition } => ExitRule::SignalExit {
                condition: condition.clone(),
            },
            ExitRule::AtrStop { period, multiple } => ExitRule::AtrStop {
                period: *period,
                multiple: *multiple,
            },
        }
    }
}

/// The models of a list of exit rules.
pub open spec fn exit_views(exits: Seq<ExitRule>) -> Seq<ExitRuleView> {
    exits.map_values(|e: ExitRule| e@)
}

/// Copies a list of exit rules.
pub fn clone_exits(exits: &Vec<ExitRule>) -> (r: Vec<ExitRule>)
    ensures
        exit_views(r@) == exit_views(exits@),
{
    let mut out: Vec<ExitRule> = Vec::new();
    let n = exits.len();
    for i in 0..n
        invariant
            n == exits.len(),
            out.len() == i,
            forall|j: int| 0 <= j < i ==> (#[trigger] out@[j])@ == exits@[j]@,
    {
        let e = exits[i].clone();
        out.push(e);
    }
    assert(exit_views(out@) =~= exit_views(exits@));
    out
}

} // verus!
