pub mod backtest;
pub mod coaching;
pub mod dsl;
pub mod error;
pub mod fingerprint;
pub mod llm;
pub mod llm_call;
pub mod market;
pub mod messages;
pub mod secret;
pub mod series;
pub mod sizing;
pub mod strategy;
