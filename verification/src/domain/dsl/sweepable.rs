//! `SweepableValue`: a tunable numeric leaf of the strategy language.
use vstd::prelude::*;

verus! {

/// A numeric leaf that is either a fixed value or a parameter sweep.
///
/// Only `Fixed` is accepted: validation and compilation reject a `Sweep`, which is
/// representable so that the document shape stays stable.
#[derive(Clone, Copy, Debug, PartialEq, Eq, Structural)]
pub enum SweepableValue<T> {
    /// A single fixed value.
    Fixed(T),
    /// A sweep over `[start, end]` by `step`.
    Sweep {
        /// Inclusive lower bound of the sweep.
        start: T,
        /// Inclusive upper bound of the sweep.
        end: T,
        /// Step between successive sweep points.
        step: T,
    },
}

} // verus!
