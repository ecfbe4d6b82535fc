//! `Direction` and `RiskParams`: the trade side and the risk inputs of a strategy.
use crate::decimal::Decimal;
use crate::domain::dsl::sweepable::SweepableValue;
use vstd::prelude::*;

verus! {

/// The trade side a strategy takes.
#[derive(Clone, Copy, Debug, PartialEq, Eq, Structural)]
pub enum Direction {
    /// A long (buy) strategy.
    Long,
    /// A short (sell) strategy.
    Short,
}

/// The risk and sizing inputs of a strategy.
#[derive(Clone, Copy, Debug, PartialEq, Eq)]
pub struct RiskParams {
    /// Fraction of account equity risked per trade (`0.01` is 1%).
    pub risk_per_trade_pct: SweepableValue<Decimal>,
    /// Maximum leverage cap, a plain multiplier.
    pub max_leverage: SweepableValue<Decimal>,
}

} // verus!
