//! Counts of the entries that the position sizer suppressed.
use vstd::prelude::*;

verus! {

/// Why the sizer suppressed an entry.
#[derive(Clone, Copy, Debug, PartialEq, Eq, Structural)]
pub enum SkipReason {
    /// The size rounds down below one lot.
    SubLot,
    /// The notional is below the exchange minimum.
    SubNotional,
    /// The leverage cap leaves no size.
    LeverageCapped,
}

/// How many entries were suppressed, by reason.
#[derive(Clone, Copy, Debug, PartialEq, Eq, Structural)]
pub struct SkippedEntryCounts {
    /// Entries below one lot.
    pub sub_lot: usize,
    /// Entries below the minimum notional.
    pub sub_notional: usize,
    /// Entries that the leverage cap left without size.
    pub leverage_capped: usize,
}

/// A count one higher, or the largest count there is.
pub open spec fn one_more(n: usize) -> usize {
    if n < usize::MAX {
        (n + 1) as usize
    } else {
        n
    }
}

fn next_count(n: usize) -> (r: usize)
    ensures
        r == one_more(n),
{
    if n < usize::MAX {
        n + 1
    } else {
        n
    }
}

impl SkippedEntryCounts {
    /// No suppressed entries.
    pub fn new() -> (r: SkippedEntryCounts)
        ensures
            r == (SkippedEntryCounts { sub_lot: 0, sub_notional: 0, leverage_capped: 0 }),
    {
        SkippedEntryCounts { sub_lot: 0, sub_notional: 0, leverage_capped: 0 }
    }

    /// Counts one more suppressed entry.
    pub fn record(&mut self, reason: SkipReason)
        ensures
            *final(self) == match reason {
                SkipReason::SubLot => SkippedEntryCounts {
                    sub_lot: one_more(old(self).sub_lot),
                    ..*old(self)
                },
                SkipReason::SubNotional => SkippedEntryCounts {
                    sub_notional: one_more(old(self).sub_notional),
                    ..*old(self)
                },
                SkipReason::LeverageCapped => SkippedEntryCounts {
                    leverage_capped: one_more(old(self).leverage_capped),
                    ..*old(self)
                },
            },
            old(self).sub_lot < usize::MAX && old(self).sub_notional < usize::MAX && old(
                self,
            ).leverage_capped < usize::MAX ==> final(self).sub_lot + final(self).sub_notional
                + final(self).leverage_capped == old(self).sub_lot + old(self).sub_notional + old(
                self,
            ).leverage_capped + 1,
            reason != SkipReason::SubLot ==> final(self).sub_lot == old(self).sub_lot,
            reason != SkipReason::SubNotional ==> final(self).sub_notional == old(
                self,
            ).sub_notional,
            reason != SkipReason::LeverageCapped ==> final(self).leverage_capped == old(
                self,
            ).leverage_capped,
            old(self).sub_lot == usize::MAX ==> final(self).sub_lot == usize::MAX,
            old(self).sub_notional == usize::MAX ==> final(self).sub_notional == usize::MAX,
            old(self).leverage_capped == usize::MAX ==> final(self).leverage_capped == usize::MAX,
    {
        match reason {
            SkipReason::SubLot => {
                self.sub_lot = next_count(self.sub_lot);
            },
            SkipReason::SubNotional => {
                self.sub_notional = next_count(self.sub_notional);
            },
            SkipReason::LeverageCapped => {
                self.leverage_capped = next_count(self.leverage_capped);
            },
        }
    }
}

impl Default for SkippedEntryCounts {
    fn default() -> (r: SkippedEntryCounts)
        ensures
            r == (SkippedEntryCounts { sub_lot: 0, sub_notional: 0, leverage_capped: 0 }),
    {
        SkippedEntryCounts::new()
    }
}

} // verus!
