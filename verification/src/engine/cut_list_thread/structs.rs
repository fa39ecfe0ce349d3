//! The search's state.

use vstd::prelude::*;
use crate::comparator::solution_comparator_enum::SolutionComparator;
use crate::constants::ConfigurationDefaults;
use crate::engine::cutting::CutDirection;
use crate::engine::stock::StockSolution;
use crate::model::solution::Solution;
use crate::model::tile::TileDimensions;

verus! {

/// Where a search stands.
#[derive(Debug, Clone, Copy, PartialEq, Eq, Structural)]
pub enum Status {
    Queued,
    Running,
    Finished,
    Terminated,
    Error,
}

/// A search for solutions: its configuration, the panels to place, the stock, the
/// criteria by which it ranks solutions, and what it has found.
#[derive(Debug)]
pub struct CutListThread {
    pub accuracy_factor: usize,
    pub cut_thickness: i32,
    pub min_trim_dimension: i32,
    pub first_cut_orientation: CutDirection,
    pub consider_grain_direction: bool,
    pub tiles: Vec<TileDimensions>,
    pub stock_solution: Option<StockSolution>,
    pub thread_prioritized_comparators: Vec<SolutionComparator>,
    pub final_solution_prioritized_comparators: Vec<SolutionComparator>,
    pub solutions: Vec<Solution>,
    pub all_solutions: Vec<Solution>,
    pub status: Status,
    pub percentage_done: i32,
    pub start_time: Option<u64>,
    pub group: Option<String>,
    pub aux_info: Option<String>,
}

impl CutListThread {
    /// A queued search with the default accuracy, no cut thickness or trim, cuts in
    /// either direction first, grain ignored, and nothing to place yet.
    pub fn new() -> (t: CutListThread)
        ensures
            t.accuracy_factor == ConfigurationDefaults::DEFAULT_ACCURACY_FACTOR,
            t.cut_thickness == 0,
            t.min_trim_dimension == 0,
            t.first_cut_orientation == CutDirection::Both,
            !t.consider_grain_direction,
            t.tiles@.len() == 0,
            t.stock_solution is None,
            t.thread_prioritized_comparators@.len() == 0,
            t.final_solution_prioritized_comparators@.len() == 0,
            t.solutions@.len() == 0,
            t.all_solutions@.len() == 0,
            t.status == Status::Queued,
            t.percentage_done == 0,
            t.start_time is None,
            t.group is None,
            t.aux_info is None,
    {
        CutListThread {
            accuracy_factor: 100,
            cut_thickness: 0,
            min_trim_dimension: 0,
            first_cut_orientation: CutDirection::Both,
            consider_grain_direction: false,
            tiles: Vec::new(),
            stock_solution: None,
            thread_prioritized_comparators: Vec::new(),
            final_solution_prioritized_comparators: Vec::new(),
            solutions: Vec::new(),
            all_solutions: Vec::new(),
            status: Status::Queued,
            percentage_done: 0,
            start_time: None,
            group: None,
            aux_info: None,
        }
    }
}

impl Default for CutListThread {
    fn default() -> (t: CutListThread)
        ensures
            t.status == Status::Queued,
            t.tiles@.len() == 0,
            t.stock_solution is None,
    {
        CutListThread::new()
    }
}

} // verus!
