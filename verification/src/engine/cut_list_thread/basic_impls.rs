//! Reading and changing the search's configuration and state.

use vstd::prelude::*;
use crate::comparator::solution_comparator_enum::SolutionComparator;
use crate::engine::cut_list_thread::structs::{CutListThread, Status};
use crate::engine::cutting::CutDirection;
use crate::engine::stock::StockSolution;
use crate::model::solution::Solution;
use crate::model::tile::TileDimensions;
use crate::support::current_time_millis;

verus! {

/// Milliseconds from `start` to `now`: 0 without a start or when `now` is before it.
pub open spec fn elapsed_between(start: Option<u64>, now: u64) -> int {
    match start {
        Some(s) => if now >= s { now - s } else { 0 },
        None => 0,
    }
}

impl CutListThread {
    pub fn group(&self) -> (r: Option<&str>)
        ensures
            r is None <==> self.group is None,
            r matches Some(g) ==> self.group matches Some(h) && g@ == h@,
    {
        match &self.group {
            Some(g) => Some(g.as_str()),
            None => None,
        }
    }

    pub fn set_group(&mut self, group: Option<String>)
        ensures
            *final(self) == (CutListThread { group, ..*old(self) }),
    {
        self.group = group;
    }

    pub fn aux_info(&self) -> (r: Option<&str>)
        ensures
            r is None <==> self.aux_info is None,
            r matches Some(g) ==> self.aux_info matches Some(h) && g@ == h@,
    {
        match &self.aux_info {
            Some(g) => Some(g.as_str()),
            None => None,
        }
    }

    pub fn set_aux_info(&mut self, aux_info: Option<String>)
        ensures
            *final(self) == (CutListThread { aux_info, ..*old(self) }),
    {
        self.aux_info = aux_info;
    }

    pub fn thread_prioritized_comparators(&self) -> (r: &[SolutionComparator])
        ensures
            r@ == self.thread_prioritized_comparators@,
    {
        self.thread_prioritized_comparators.as_slice()
    }

    pub fn set_thread_prioritized_comparators(&mut self, comparators: Vec<SolutionComparator>)
        ensures
            *final(self) == (CutListThread { thread_prioritized_comparators: comparators, ..*old(self) }),
    {
        self.thread_prioritized_comparators = comparators;
    }

    pub fn final_solution_prioritized_comparators(&self) -> (r: &[SolutionComparator])
        ensures
            r@ == self.final_solution_prioritized_comparators@,
    {
        self.final_solution_prioritized_comparators.as_slice()
    }

    pub fn set_final_solution_prioritized_comparators(&mut self, comparators: Vec<SolutionComparator>)
        ensures
            *final(self) == (CutListThread { final_solution_prioritized_comparators: comparators, ..*old(self) }),
    {
        self.final_solution_prioritized_comparators = comparators;
    }

    pub fn status(&self) -> (r: Status)
        ensures
            r == self.status,
    {
        self.status
    }

    pub fn cut_thickness(&self) -> (r: i32)
        ensures
            r == self.cut_thickness,
    {
        self.cut_thickness
    }

    pub fn set_cut_thickness(&mut self, thickness: i32)
        ensures
            *final(self) == (CutListThread { cut_thickness: thickness, ..*old(self) }),
    {
        self.cut_thickness = thickness;
    }

    pub fn min_trim_dimension(&self) -> (r: i32)
        ensures
            r == self.min_trim_dimension,
    {
        self.min_trim_dimension
    }

    pub fn set_min_trim_dimension(&mut self, dimension: i32)
        ensures
            *final(self) == (CutListThread { min_trim_dimension: dimension, ..*old(self) }),
    {
        self.min_trim_dimension = dimension;
    }

    pub fn first_cut_orientation(&self) -> (r: CutDirection)
        ensures
            r == self.first_cut_orientation,
    {
        self.first_cut_orientation
    }

    pub fn set_first_cut_orientation(&mut self, orientation: CutDirection)
        ensures
            *final(self) == (CutListThread { first_cut_orientation: orientation, ..*old(self) }),
    {
        self.first_cut_orientation = orientation;
    }

    pub fn consider_grain_direction(&self) -> (r: bool)
        ensures
            r == self.consider_grain_direction,
    {
        self.consider_grain_direction
    }

    pub fn set_consider_grain_direction(&mut self, consider: bool)
        ensures
            *final(self) == (CutListThread { consider_grain_direction: consider, ..*old(self) }),
    {
        self.consider_grain_direction = consider;
    }

    pub fn percentage_done(&self) -> (r: i32)
        ensures
            r == self.percentage_done,
    {
        self.percentage_done
    }

    /// Records how far the search has come, in percent.
    pub fn set_percentage_done(&mut self, percentage: i32)
        ensures
            *final(self) == (CutListThread { percentage_done: percentage, ..*old(self) }),
    {
        self.percentage_done = percentage;
    }

    pub fn tiles(&self) -> (r: &[TileDimensions])
        ensures
            r@ == self.tiles@,
    {
        self.tiles.as_slice()
    }

    pub fn set_tiles(&mut self, tiles: Vec<TileDimensions>)
        ensures
            *final(self) == (CutListThread { tiles, ..*old(self) }),
    {
        self.tiles = tiles;
    }

    pub fn solutions(&self) -> (r: &[Solution])
        ensures
            r@ == self.solutions@,
    {
        self.solutions.as_slice()
    }

    pub fn set_solutions(&mut self, solutions: Vec<Solution>)
        ensures
            *final(self) == (CutListThread { solutions, ..*old(self) }),
    {
        self.solutions = solutions;
    }

    pub fn accuracy_factor(&self) -> (r: usize)
        ensures
            r == self.accuracy_factor,
    {
        self.accuracy_factor
    }

    pub fn set_accuracy_factor(&mut self, factor: usize)
        ensures
            *final(self) == (CutListThread { accuracy_factor: factor, ..*old(self) }),
    {
        self.accuracy_factor = factor;
    }

    pub fn all_solutions(&self) -> (r: &Vec<Solution>)
        ensures
            r@ == self.all_solutions@,
    {
        &self.all_solutions
    }

    pub fn set_all_solutions(&mut self, solutions: Vec<Solution>)
        ensures
            *final(self) == (CutListThread { all_solutions: solutions, ..*old(self) }),
    {
        self.all_solutions = solutions;
    }

    pub fn stock_solution(&self) -> (r: Option<&StockSolution>)
        ensures
            r is None <==> self.stock_solution is None,
            r matches Some(s) ==> self.stock_solution == Some(*s),
    {
        match &self.stock_solution {
            Some(s) => Some(s),
            None => None,
        }
    }

    pub fn set_stock_solution(&mut self, stock_solution: Option<StockSolution>)
        ensures
            *final(self) == (CutListThread { stock_solution, ..*old(self) }),
    {
        self.stock_solution = stock_solution;
    }

    /// The material of the first solution found, if any.
    pub fn material(&self) -> (r: Option<String>)
        ensures
            self.all_solutions@.len() == 0 ==> r is None,
            self.all_solutions@.len() > 0 ==> (r is None <==> self.all_solutions@[0].mosaics@.len() == 0),
            self.all_solutions@.len() > 0 && self.all_solutions@[0].mosaics@.len() > 0 ==>
                (r matches Some(m) && m@ == self.all_solutions@[0].mosaics@[0].material@),
    {
        if self.all_solutions.len() == 0 {
            return None;
        }
        self.all_solutions[0].get_material()
    }

    /// Milliseconds from the search's start to `now` (0 before it starts, and 0 when
    /// `now` is before the start).
    pub fn elapsed_time_at(&self, now: u64) -> (r: u64)
        ensures
            r == elapsed_between(self.start_time, now),
    {
        match self.start_time {
            Some(start) => if now >= start { now - start } else { 0 },
            None => 0,
        }
    }

    /// Milliseconds since the search started (0 before it starts), up to the time the
    /// system clock gives (see `elapsed_time_at`). Which time that is is not known here.
    pub fn elapsed_time(&self) -> (r: u64)
        ensures
            self.start_time is None ==> r == 0,
            exists|now: u64| r == elapsed_between(self.start_time, now),
    {
        match self.start_time {
            Some(_) => {
                let now = current_time_millis();
                let r = self.elapsed_time_at(now);
                proof { assert(r == elapsed_between(self.start_time, now)); }
                r
            },
            None => {
                proof { assert(0 == elapsed_between(self.start_time, 0)); }
                0
            },
        }
    }
}

} // verus!
