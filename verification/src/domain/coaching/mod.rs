pub mod closing;
pub mod context;
pub mod fence;
pub mod session;
