//! Market regimes and the per-regime split of a run.
use crate::decimal::{adds_exactly, lemma_units_sign, plus, Decimal};
use vstd::prelude::*;

verus! {

/// The market regime in effect when a trade was entered.
#[derive(Clone, Copy, Debug, PartialEq, Eq, Structural)]
pub enum Regime {
    /// Trending up.
    TrendingUp,
    /// Trending down.
    TrendingDown,
    /// Ranging.
    Ranging,
    /// Not known yet.
    Unknown,
}

/// The trades and the net result of one regime.
#[derive(Clone, Copy, Debug, PartialEq, Eq)]
pub struct RegimeCell {
    /// How many trades were entered in the regime.
    pub trade_count: usize,
    /// Their net result.
    pub net_pnl: Decimal,
}

/// The split of a run by regime.
#[derive(Clone, Copy, Debug, PartialEq, Eq)]
pub struct RegimeBreakdown {
    trending_up: RegimeCell,
    trending_down: RegimeCell,
    ranging: RegimeCell,
    unknown: RegimeCell,
}

/// A cell without trades.
pub open spec fn empty_cell() -> RegimeCell {
    RegimeCell { trade_count: 0, net_pnl: Decimal::of_parts(0, 0) }
}

/// A cell after one more trade; `None` where a count or a sum does not fit.
pub open spec fn cell_after(cell: RegimeCell, pnl: Decimal) -> Option<RegimeCell> {
    if cell.trade_count < usize::MAX && plus(cell.net_pnl, pnl) is Some {
        Some(
            RegimeCell {
                trade_count: (cell.trade_count + 1) as usize,
                net_pnl: plus(cell.net_pnl, pnl)->0,
            },
        )
    } else {
        None
    }
}

fn add_to_cell(cell: RegimeCell, pnl: Decimal) -> (r: Option<RegimeCell>)
    ensures
        r == cell_after(cell, pnl),
        cell.trade_count < usize::MAX && adds_exactly(cell.net_pnl, pnl) ==> r is Some
            && r->0.net_pnl.units() == cell.net_pnl.units() + pnl.units(),
{
    if cell.trade_count < usize::MAX {
        match cell.net_pnl.checked_add(pnl) {
            Some(net_pnl) => Some(RegimeCell { trade_count: cell.trade_count + 1, net_pnl }),
            None => None,
        }
    } else {
        None
    }
}

impl RegimeBreakdown {
    /// The cell of a regime.
    pub closed spec fn cell(&self, regime: Regime) -> RegimeCell {
        match regime {
            Regime::TrendingUp => self.trending_up,
            Regime::TrendingDown => self.trending_down,
            Regime::Ranging => self.ranging,
            Regime::Unknown => self.unknown,
        }
    }

    /// A split without trades.
    pub fn new() -> (r: RegimeBreakdown)
        ensures
            forall|regime: Regime| #[trigger] r.cell(regime) == empty_cell(),
            forall|regime: Regime|
                (#[trigger] r.cell(regime)).trade_count == 0 && r.cell(regime).net_pnl.units() == 0,
    {
        let cell = RegimeCell { trade_count: 0, net_pnl: Decimal::zero() };
        proof {
            lemma_units_sign(cell.net_pnl);
        }
        RegimeBreakdown { trending_up: cell, trending_down: cell, ranging: cell, unknown: cell }
    }

    /// A split with the given cells, as a stored run has them.
    pub fn from_cells(
        trending_up: RegimeCell,
        trending_down: RegimeCell,
        ranging: RegimeCell,
        unknown: RegimeCell,
    ) -> (r: RegimeBreakdown)
        ensures
            r.cell(Regime::TrendingUp) == trending_up,
            r.cell(Regime::TrendingDown) == trending_down,
            r.cell(Regime::Ranging) == ranging,
            r.cell(Regime::Unknown) == unknown,
    {
        RegimeBreakdown { trending_up, trending_down, ranging, unknown }
    }

    /// Adds a trade to the cell of its regime. Returns whether it fitted; where it
    /// did not, nothing changes.
    pub fn record(&mut self, regime: Regime, pnl: Decimal) -> (fitted: bool)
        ensures
            fitted <==> cell_after(old(self).cell(regime), pnl) is Some,
            fitted ==> final(self).cell(regime) == cell_after(old(self).cell(regime), pnl)->0,
            !fitted ==> *final(self) == *old(self),
            fitted ==> final(self).cell(regime).trade_count == old(self).cell(regime).trade_count
                + 1,
            old(self).cell(regime).trade_count < usize::MAX && adds_exactly(
                old(self).cell(regime).net_pnl,
                pnl,
            ) ==> fitted && final(self).cell(regime).net_pnl.units() == old(self).cell(
                regime,
            ).net_pnl.units() + pnl.units(),
            forall|other: Regime|
                other != regime ==> #[trigger] final(self).cell(other) == old(self).cell(other),
    {
        let cell = match regime {
            Regime::TrendingUp => self.trending_up,
            Regime::TrendingDown => self.trending_down,
            Regime::Ranging => self.ranging,
            Regime::Unknown => self.unknown,
        };
        match add_to_cell(cell, pnl) {
            None => false,
            Some(next) => {
                match regime {
                    Regime::TrendingUp => {
                        self.trending_up = next;
                    },
                    Regime::TrendingDown => {
                        self.trending_down = next;
                    },
                    Regime::Ranging => {
                        self.ranging = next;
                    },
                    Regime::Unknown => {
                        self.unknown = next;
                    },
                }
                true
            },
        }
    }

    /// The cell of the upward trend.
    pub fn trending_up(&self) -> (r: RegimeCell)
        ensures
            r == self.cell(Regime::TrendingUp),
    {
        self.trending_up
    }

    /// The cell of the downward trend.
    pub fn trending_down(&self) -> (r: RegimeCell)
        ensures
            r == self.cell(Regime::TrendingDown),
    {
        self.trending_down
    }

    /// The cell of ranging markets.
    pub fn ranging(&self) -> (r: RegimeCell)
        ensures
            r == self.cell(Regime::Ranging),
    {
        self.ranging
    }

    /// The cell of the trades whose regime was not known.
    pub fn unknown(&self) -> (r: RegimeCell)
        ensures
            r == self.cell(Regime::Unknown),
    {
        self.unknown
    }
}

impl Default for RegimeBreakdown {
    fn default() -> (r: RegimeBreakdown)
        ensures
            forall|regime: Regime| #[trigger] r.cell(regime) == empty_cell(),
            forall|regime: Regime|
                (#[trigger] r.cell(regime)).trade_count == 0 && r.cell(regime).net_pnl.units() == 0,
    {
        RegimeBreakdown::new()
    }
}

} // verus!
