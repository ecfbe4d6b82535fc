pub mod compile;
pub mod condition;
pub mod describe;
pub mod equality;
pub mod exit;
pub mod geometry;
pub mod grammar;
pub mod locators;
pub mod meaning;
pub mod migrate;
pub mod models;
pub mod mutate;
pub mod operands;
pub mod order;
pub mod render;
pub mod risk;
pub mod rules;
pub mod sameness;
pub mod schema_version;
pub mod shape;
pub mod strategy;
pub mod sweepable;
pub mod sweeps;
pub mod validate;
pub mod value;
