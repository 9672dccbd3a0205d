use vstd::prelude::*;

pub mod arith;
pub mod cycle;
pub mod diversity;
pub mod engine;
pub mod knapsack;
pub mod memo;
pub mod optimizer;
pub mod parse;
pub mod pathfinder;
pub mod pools;
pub mod pricing;
pub mod ranking;
pub mod rerank;
pub mod route;
pub mod rows;
pub mod search;
pub mod selection;
pub mod snapshot;
pub mod types;
pub mod units;

verus! {

} // verus!
