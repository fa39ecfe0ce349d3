//! One search for solutions over a set of panels and a stock: its configuration, state
//! and the operations on the solutions it finds.

pub mod structs;
pub mod basic_impls;
pub mod validation;
pub mod core_computation;
pub mod cutting_strategies;
pub mod execution_impls;
pub mod tile_fitting;
pub mod solution_step;
pub mod range_check;
pub mod search;
