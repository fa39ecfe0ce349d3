//! Cut-list optimisation library: models of stock sheets, placed panels and guillotine
//! cuts, the placement engine that fits panels into sheets, and the criteria by which
//! candidate solutions are ranked.

pub mod support;
pub mod constants;
pub mod error;
pub mod model;
pub mod engine;
pub mod comparator;
pub mod cli;
