pub mod error;
pub mod figures;
pub mod regime;
pub mod result;
pub mod run;
pub mod stats;
pub mod trade;
pub mod walk_forward;
