//! Whether the coordinates of every cut that a step of the search may make stay in 32
//! bits, decided before the step is taken.

use vstd::prelude::*;
use crate::engine::cut_list_thread::structs::CutListThread;
use crate::engine::cut_list_thread::core_computation::trim_candidates;
use crate::engine::cut_list_thread::cutting_strategies::{width_cut_fits, height_cut_fits};
use crate::engine::cut_list_thread::tile_fitting::{
    add_in_range, grain_oriented, cuts_in_range, exact_size, grain_free, sheet_cuts_in_range, tries_height_first, tries_width_first,
};
use crate::engine::cut_list_thread::solution_step::{step_in_range, solution_in_range, step_outcomes, at_most};
use crate::engine::cut_list_thread::validation::concatenated_ids;
use crate::engine::comparator::keep_first_keys;
use crate::engine::cutting::CutDirection;
use crate::model::mosaic::Mosaic;
use crate::model::solution::{Solution, fresh_sheet, views, lemma_mosaic_wf};
use crate::model::tile::{Tile, TileDimensions, fits_spec};
use crate::model::tile_node::TileNode;

verus! {

/// Cutting `t` at `x1 + width` with the given kerf keeps every coordinate in 32 bits.
fn width_cut_ok(t: &Tile, width: i32, thickness: i32) -> (b: bool)
    ensures
        b == width_cut_fits(*t, width as int, thickness as int),
{
    let x1 = t.x1 as i64;
    let x2 = t.x2 as i64;
    let lo = i32::MIN as i64;
    let hi = i32::MAX as i64;
    let a = x1 + width as i64;
    let b = a + thickness as i64;
    let c = x2 - b;
    let side = x2 - x1;
    let h = t.y2 as i64 - t.y1 as i64;
    lo <= a && a <= hi && lo <= b && b <= hi && lo <= c && c <= hi && lo <= side && side <= hi && lo <= h && h <= hi
}

/// Cutting `t` at `y1 + height` with the given kerf keeps every coordinate in 32 bits.
fn height_cut_ok(t: &Tile, height: i32, thickness: i32) -> (b: bool)
    ensures
        b == height_cut_fits(*t, height as int, thickness as int),
{
    let y1 = t.y1 as i64;
    let y2 = t.y2 as i64;
    let lo = i32::MIN as i64;
    let hi = i32::MAX as i64;
    let a = y1 + height as i64;
    let b = a + thickness as i64;
    let c = y2 - b;
    let side = y2 - y1;
    let w = t.x2 as i64 - t.x1 as i64;
    lo <= a && a <= hi && lo <= b && b <= hi && lo <= c && c <= hi && lo <= side && side <= hi && lo <= w && w <= hi
}

/// The cuts tried in candidate `c` keep their coordinates in 32 bits.
fn cuts_ok(c: &TileNode, td: &TileDimensions, thickness: i32, first: CutDirection) -> (b: bool)
    ensures
        b == cuts_in_range(*c, *td, thickness as int, first),
{
    let t = &c.tile;
    let cw = t.x2 as i64 - t.x1 as i64;
    let ch = t.y2 as i64 - t.y1 as i64;
    let w = td.width;
    let h = td.height;
    let width_first = first != CutDirection::Vertical;
    let height_first = first != CutDirection::Horizontal;
    let mut ok = true;
    if width_first {
        if cw > w as i64 {
            if !width_cut_ok(t, w, thickness) {
                ok = false;
            } else {
                let part = Tile { x1: t.x1, x2: (t.x1 as i64 + w as i64) as i32, y1: t.y1, y2: t.y2 };
                if !height_cut_ok(&part, h, thickness) {
                    ok = false;
                }
            }
        } else if !height_cut_ok(t, h, thickness) {
            ok = false;
        }
        if let Some(d) = &c.child1 {
            if !height_cut_ok(&d.tile, h, thickness) {
                ok = false;
            }
        }
    }
    if height_first {
        if ch > h as i64 {
            if !height_cut_ok(t, h, thickness) {
                ok = false;
            } else {
                let part = Tile { x1: t.x1, x2: t.x2, y1: t.y1, y2: (t.y1 as i64 + h as i64) as i32 };
                if !width_cut_ok(&part, w, thickness) {
                    ok = false;
                }
            }
        } else if !width_cut_ok(t, w, thickness) {
            ok = false;
        }
        if let Some(d) = &c.child1 {
            if !width_cut_ok(&d.tile, w, thickness) {
                ok = false;
            }
        }
    }
    proof {
        assert(tries_width_first(first) == width_first);
        assert(tries_height_first(first) == height_first);
    }
    ok
}

/// Two fresh sheets cut from one stock panel take a panel with cuts in range alike.
proof fn lemma_fresh_sheet_cuts(t: CutListThread, m1: Mosaic, m2: Mosaic, u: TileDimensions, d: TileDimensions)
    requires
        fresh_sheet(m1, u),
        fresh_sheet(m2, u),
    ensures
        sheet_cuts_in_range(t, m1, d) == sheet_cuts_in_range(t, m2, d),
{
    let r1 = m1.root_tile_node;
    let r2 = m2.root_tile_node;
    let w = d.width as int;
    let h = d.height as int;
    let trim = t.min_trim_dimension as int;
    let c1 = trim_candidates(r1, w, h, trim);
    let c2 = trim_candidates(r2, w, h, trim);
    assert(c1.len() == c2.len());
    if c1.len() > 0 {
        assert(c1 =~= seq![r1]);
        assert(c2 =~= seq![r2]);
        assert(exact_size(r1, d) == exact_size(r2, d));
        assert(cuts_in_range(r1, d, t.cut_thickness as int, t.first_cut_orientation)
            == cuts_in_range(r2, d, t.cut_thickness as int, t.first_cut_orientation));
        if sheet_cuts_in_range(t, m1, d) && !sheet_cuts_in_range(t, m2, d) {
            assert(!exact_size(c2[0], d) ==> cuts_in_range(c2[0], d, t.cut_thickness as int, t.first_cut_orientation)) by {
                assert(c1[0] == r1);
            }
        }
        if sheet_cuts_in_range(t, m2, d) && !sheet_cuts_in_range(t, m1, d) {
            assert(!exact_size(c1[0], d) ==> cuts_in_range(c1[0], d, t.cut_thickness as int, t.first_cut_orientation)) by {
                assert(c2[0] == r2);
            }
        }
    }
}

/// Two fresh sheets cut from one stock panel take a panel with cuts in range alike.
proof fn lemma_fresh_sheets_alike(t: CutListThread, m1: Mosaic, m2: Mosaic, u: TileDimensions, d: TileDimensions)
    requires
        fresh_sheet(m1, u),
        fresh_sheet(m2, u),
    ensures
        add_in_range(t, m1, d) == add_in_range(t, m2, d),
{
    lemma_fresh_sheet_cuts(t, m1, m2, u, d);
    lemma_fresh_sheet_cuts(t, m1, m2, u, d.rotate90_spec());
    assert(grain_oriented(m1, d) == grain_oriented(m2, d));
    lemma_fresh_sheet_cuts(t, m1, m2, u, grain_oriented(m1, d));
}

impl CutListThread {
    /// The cuts tried in every candidate of the sheet that is no exact fit for the panel
    /// keep their coordinates in 32 bits.
    fn sheet_cuts_ok(&self, mosaic: &Mosaic, td: &TileDimensions) -> (b: bool)
        requires
            mosaic.wf(),
        ensures
            b == sheet_cuts_in_range(*self, *mosaic, *td),
    {
        let mut cands: Vec<TileNode> = Vec::new();
        self.find_candidates(td.width, td.height, &mosaic.root_tile_node, &mut cands);
        let ghost all = trim_candidates(mosaic.root_tile_node, td.width as int, td.height as int,
            self.min_trim_dimension as int);
        proof { assert(cands@ =~= all); }
        let mut i: usize = 0;
        while i < cands.len()
            invariant
                0 <= i <= cands@.len(),
                cands@ == all,
                all == trim_candidates(mosaic.root_tile_node, td.width as int, td.height as int,
                    self.min_trim_dimension as int),
                forall|k: int| 0 <= k < i && !exact_size(#[trigger] all[k], *td)
                    ==> cuts_in_range(all[k], *td, self.cut_thickness as int, self.first_cut_orientation),
            decreases cands@.len() - i,
        {
            let c = &cands[i];
            let exact = c.tile.x2 as i64 - c.tile.x1 as i64 == td.width as i64
                && c.tile.y2 as i64 - c.tile.y1 as i64 == td.height as i64;
            if !exact && !cuts_ok(c, td, self.cut_thickness, self.first_cut_orientation) {
                proof {
                    assert(!exact_size(all[i as int], *td));
                    assert(!cuts_in_range(all[i as int], *td, self.cut_thickness as int, self.first_cut_orientation));
                }
                return false;
            }
            i = i + 1;
        }
        true
    }

    /// Every way in which the search tries the panel on the sheet keeps the coordinates
    /// of its cuts in 32 bits (see `add_in_range`).
    pub fn add_fits_in_range(&self, mosaic: &Mosaic, td: &TileDimensions) -> (b: bool)
        requires
            mosaic.wf(),
        ensures
            b == add_in_range(*self, *mosaic, *td),
    {
        let free = !self.consider_grain_direction || mosaic.orientation == 0 || td.orientation == 0;
        proof { assert(free == grain_free(*self, *mosaic, *td)); }
        if free {
            if !self.sheet_cuts_ok(mosaic, td) {
                return false;
            }
            if td.width != td.height {
                let turned = td.rotate90();
                return self.sheet_cuts_ok(mosaic, &turned);
            }
            true
        } else if mosaic.orientation != td.orientation {
            let turned = td.rotate90();
            self.sheet_cuts_ok(mosaic, &turned)
        } else {
            self.sheet_cuts_ok(mosaic, td)
        }
    }
}

impl CutListThread {
    /// The panel can be tried on every sheet of the solution and on a fresh sheet cut
    /// from every unused stock panel into which it fits with the cuts in range (see
    /// `solution_in_range`).
    pub fn solution_fits_in_range(&self, solution: &Solution, td: &TileDimensions) -> (b: bool)
        requires
            solution.wf(),
        ensures
            b == solution_in_range(*self, *solution, *td),
    {
        let mosaics = &solution.mosaics;
        let mut j: usize = 0;
        while j < mosaics.len()
            invariant
                0 <= j <= mosaics@.len(),
                mosaics@ == solution.mosaics@,
                solution.wf(),
                forall|q: int| 0 <= q < j && (#[trigger] mosaics@[q]).material@ == td.material@
                    ==> add_in_range(*self, mosaics@[q], *td),
            decreases mosaics@.len() - j,
        {
            if crate::support::same_text(mosaics[j].material.as_str(), td.material.as_str()) {
                proof { lemma_mosaic_wf(solution.mosaics@, j as int); }
                if !self.add_fits_in_range(&mosaics[j], td) {
                    return false;
                }
            }
            j = j + 1;
        }
        let unused = &solution.unused_stock_panels;
        let mut u: usize = 0;
        while u < unused.len()
            invariant
                0 <= u <= unused@.len(),
                unused@ == solution.unused_stock_panels@,
                forall|q: int| 0 <= q < solution.mosaics@.len() && (#[trigger] solution.mosaics@[q]).material@ == td.material@
                    ==> add_in_range(*self, solution.mosaics@[q], *td),
                forall|q: int| 0 <= q < u
                    && fits_spec((#[trigger] unused@[q]).width as int, unused@[q].height as int,
                        td.width as int, td.height as int)
                    ==> {
                        &&& unused@[q].width >= 0
                        &&& unused@[q].height >= 0
                        &&& forall|fm: Mosaic| fresh_sheet(fm, unused@[q]) ==> #[trigger] add_in_range(*self, fm, *td)
                    },
            decreases unused@.len() - u,
        {
            let panel = &unused[u];
            if panel.fits(td) {
                if panel.width < 0 || panel.height < 0 {
                    return false;
                }
                let fresh = Mosaic::new(panel);
                proof { assert(fresh_sheet(fresh, unused@[u as int])); }
                if !self.add_fits_in_range(&fresh, td) {
                    return false;
                }
                proof {
                    assert forall|fm: Mosaic| fresh_sheet(fm, unused@[u as int]) implies #[trigger] add_in_range(*self, fm, *td) by {
                        lemma_fresh_sheets_alike(*self, fresh, fm, unused@[u as int], *td);
                    }
                }
            }
            u = u + 1;
        }
        true
    }

    /// The panel can be tried on every solution with the cuts in range (see
    /// `step_in_range`).
    pub fn step_fits_in_range(&self, current: &Vec<Solution>, td: &TileDimensions) -> (b: bool)
        requires
            forall|i: int| 0 <= i < current@.len() ==> (#[trigger] current@[i]).wf(),
        ensures
            b == step_in_range(*self, current@, *td),
    {
        let mut i: usize = 0;
        while i < current.len()
            invariant
                0 <= i <= current@.len(),
                forall|q: int| 0 <= q < current@.len() ==> (#[trigger] current@[q]).wf(),
                forall|q: int| 0 <= q < i ==> solution_in_range(*self, #[trigger] current@[q], *td),
            decreases current@.len() - i,
        {
            if !self.solution_fits_in_range(&current[i], td) {
                return false;
            }
            i = i + 1;
        }
        true
    }

    /// One step of the search (see `process_tile`) when every cut it may make keeps its
    /// coordinates in 32 bits; `None`, and nothing done, when some cut would not.
    pub fn process_tile_checked(&self, current: &Vec<Solution>, tile_dimensions: &TileDimensions)
        -> (r: Option<Vec<Solution>>)
        requires
            forall|i: int| 0 <= i < current@.len() ==> (#[trigger] current@[i]).wf(),
        ensures
            r is None <==> !step_in_range(*self, current@, *tile_dimensions),
            r matches Some(v) ==> exists|mid: Seq<Solution>| #[trigger] step_outcomes(*self, current@, *tile_dimensions, mid)
                && v@ == at_most(keep_first_keys(mid, concatenated_ids(mid)), self.accuracy_factor as nat),
    {
        if self.step_fits_in_range(current, tile_dimensions) {
            Some(self.process_tile(current, tile_dimensions))
        } else {
            None
        }
    }
}

} // verus!
