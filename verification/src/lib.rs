//! The verified core of a strategy back-testing workbench.
use vstd::prelude::*;

pub mod canonical;
pub mod decimal;
pub mod domain;
pub mod numerals;
pub mod text;

verus! {

} // verus!
