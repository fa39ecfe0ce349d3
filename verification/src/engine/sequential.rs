//! Placing panels one after the other with the cutting engine: each panel goes into the
//! first sheet that takes it, else onto a fresh sheet cut from the first suitable stock
//! panel, else among the panels that found no place.

use vstd::prelude::*;
use crate::engine::cut_list_thread::solution_step::{same_panel, same_panel_exec};
use crate::engine::cutting::{CutDirection, CuttingEngine};
use crate::engine::fitting::{PlacementResult, fit_ok, first_suitable_at, one_per_id, suitable_stock, first_of_its_id,
    no_earlier_id, has_id};
use crate::engine::stock::StockSolution;
use crate::error::CuttingError;
use crate::model::mosaic::Mosaic;
use crate::model::solution::{Solution, fresh_sheet, started_from_stock, views, lemma_mosaic_wf};
use crate::model::tile::TileDimensions;

verus! {

/// A result that placed the panel and carries a well-formed sheet.
pub open spec fn usable(p: PlacementResult) -> bool {
    p.placed && (p.new_mosaic matches Some(nm) && nm.wf())
}

/// `v[k]` is the first usable result.
pub open spec fn first_usable(v: Seq<PlacementResult>, k: int) -> bool {
    &&& 0 <= k < v.len()
    &&& usable(v[k])
    &&& forall|q: int| 0 <= q < k ==> !usable(#[trigger] v[q])
}

/// Some result is usable.
pub open spec fn any_usable(v: Seq<PlacementResult>) -> bool {
    exists|k: int| 0 <= k < v.len() && usable(#[trigger] v[k])
}

/// `vs[i]` is what fitting the panel into sheet `i` gave, for every sheet before `n`
/// of the panel's material.
pub open spec fn fits_upto(s: Solution, td: TileDimensions, first: CutDirection, grain: bool,
    vs: Seq<Seq<PlacementResult>>, n: int) -> bool
{
    &&& vs.len() == n
    &&& forall|i: int| 0 <= i < n && (#[trigger] s.mosaics@[i]).material@ == td.material@
        ==> fit_ok(s.mosaics@[i], td, first, grain, vs[i])
}

/// Sheet `i` is of the panel's material and fitting gave a usable result.
pub open spec fn sheet_usable(s: Solution, td: TileDimensions, vs: Seq<Seq<PlacementResult>>, i: int) -> bool {
    s.mosaics@[i].material@ == td.material@ && any_usable(vs[i])
}

/// `ns` is `s` (same identifier and other fields) with sheet `j` replaced by `nm`.
pub open spec fn sheet_replaced(s: Solution, j: int, nm: Mosaic, ns: Solution) -> bool {
    &&& views(ns.mosaics@).to_multiset() == views(s.mosaics@).to_multiset().remove(s.mosaics@[j]@).insert(nm@)
    &&& ns.wf()
    &&& ns.same_but_mosaics(s)
}

/// `ns` is `s` (same identifier) with the sheet `nm` added and stock panel `k` taken off.
pub open spec fn sheet_added(s: Solution, k: int, nm: Mosaic, ns: Solution) -> bool {
    &&& views(ns.mosaics@).to_multiset() == views(s.mosaics@).to_multiset().insert(nm@)
    &&& ns.wf()
    &&& ns.id == s.id
    &&& ns.no_fit_panels@ == s.no_fit_panels@
    &&& ns.unused_stock_panels@ == s.unused_stock_panels@.remove(k)
    &&& ns.timestamp == s.timestamp
    &&& ns.creator_thread_group == s.creator_thread_group
    &&& ns.aux_info == s.aux_info
}

/// `ns` is `s` (same identifier and sheets) with the panel added to those without place.
pub open spec fn unplaced(s: Solution, td: TileDimensions, ns: Solution) -> bool {
    &&& ns.id == s.id
    &&& views(ns.mosaics@) == views(s.mosaics@)
    &&& ns.wf()
    &&& ns.no_fit_panels@ == s.no_fit_panels@.push(td)
    &&& ns.unused_stock_panels@ == s.unused_stock_panels@
    &&& ns.timestamp == s.timestamp
    &&& ns.creator_thread_group == s.creator_thread_group
    &&& ns.aux_info == s.aux_info
}

/// What becomes of `s` when no sheet took the panel: a fresh sheet cut from the first
/// suitable stock panel gets it when fitting gives a usable result there, the panel
/// finds no place otherwise.
pub open spec fn stock_next(s: Solution, td: TileDimensions, first: CutDirection, grain: bool, ns: Solution) -> bool {
    let us = s.unused_stock_panels@;
    if exists|k: int| first_suitable_at(us, td, k) {
        exists|k: int, fm: Mosaic, w: Seq<PlacementResult>|
            #![trigger first_suitable_at(us, td, k), fresh_sheet(fm, us[k]), fit_ok(fm, td, first, grain, w)]
            first_suitable_at(us, td, k) && fresh_sheet(fm, us[k]) && fit_ok(fm, td, first, grain, w)
            && if any_usable(w) {
                exists|q: int| #[trigger] first_usable(w, q) && sheet_added(s, k, w[q].new_mosaic->0, ns)
            } else {
                unplaced(s, td, ns)
            }
    } else {
        unplaced(s, td, ns)
    }
}

/// What becomes of `s` when the panel is placed: the first sheet of the panel's material
/// for which fitting gives a usable result gets the first such result's sheet in its
/// place; when there is none, `stock_next` says.
pub open spec fn engine_next(s: Solution, td: TileDimensions, first: CutDirection, grain: bool, ns: Solution) -> bool {
    ||| exists|j: int, vs: Seq<Seq<PlacementResult>>, q: int|
        #![trigger fits_upto(s, td, first, grain, vs, j + 1), first_usable(vs[j], q)]
        0 <= j < s.mosaics@.len()
        && fits_upto(s, td, first, grain, vs, j + 1)
        && (forall|i: int| 0 <= i < j ==> !#[trigger] sheet_usable(s, td, vs, i))
        && s.mosaics@[j].material@ == td.material@
        && first_usable(vs[j], q)
        && sheet_replaced(s, j, vs[j][q].new_mosaic->0, ns)
    ||| exists|vs: Seq<Seq<PlacementResult>>|
        #![trigger fits_upto(s, td, first, grain, vs, s.mosaics@.len() as int)]
        fits_upto(s, td, first, grain, vs, s.mosaics@.len() as int)
        && (forall|i: int| 0 <= i < s.mosaics@.len() ==> !#[trigger] sheet_usable(s, td, vs, i))
        && stock_next(s, td, first, grain, ns)
}

/// `out` is what the panels `tiles`, placed in order, make of `s`.
pub open spec fn engine_chain(s: Solution, tiles: Seq<TileDimensions>, first: CutDirection, grain: bool, out: Solution) -> bool
    decreases tiles.len(),
{
    if tiles.len() == 0 {
        out == s
    } else {
        exists|prev: Solution| #[trigger] engine_next(prev, tiles.last(), first, grain, out)
            && engine_chain(s, tiles.drop_last(), first, grain, prev)
    }
}

/// The stock panels have no side below zero.
pub open spec fn stock_sides_ok(us: Seq<TileDimensions>) -> bool {
    forall|i: int| 0 <= i < us.len() ==> (#[trigger] us[i]).width >= 0 && us[i].height >= 0
}

/// Dropping repeats from solutions that share one identifier keeps the first.
proof fn lemma_one_id_keeps_first(input: Seq<Solution>, out: Seq<Solution>)
    requires
        input.len() > 0,
        forall|i: int| 0 <= i < input.len() ==> (#[trigger] input[i]).id == input[0].id,
        one_per_id(input, out),
    ensures
        out == seq![input[0]],
{
    assert(has_id(out, input[0].id));
    let j = choose|j: int| 0 <= j < out.len() && #[trigger] out[j].id == input[0].id;
    assert forall|k: int| 0 <= k < out.len() implies (#[trigger] out[k]).id == input[0].id by {
        assert(first_of_its_id(input, out[k]));
        let q = choose|q: int| 0 <= q < input.len() && input[q] == out[k] && no_earlier_id(input, q, out[k].id);
        assert(input[q].id == input[0].id);
    }
    if out.len() > 1 {
        assert(out[0].id < out[1].id);
    }
    assert(out.len() == 1);
    assert(first_of_its_id(input, out[0]));
    let q = choose|q: int| 0 <= q < input.len() && input[q] == out[0] && no_earlier_id(input, q, out[0].id);
    if q > 0 {
        assert(input[0].id != out[0].id);
    }
    assert(out =~= seq![input[0]]);
}

impl Solution {
    /// Replaces sheet `j` by `m`, keeping the sheets ordered by unused area.
    pub fn replace_sheet(&mut self, j: usize, m: Mosaic)
        requires
            old(self).wf(),
            j < old(self).mosaics@.len(),
            m.wf(),
        ensures
            sheet_replaced(*old(self), j as int, m, *final(self)),
    {
        let ghost before = views(self.mosaics@);
        let ghost old_sheet = self.mosaics@[j as int]@;
        let removed = self.mosaics.remove(j);
        proof {
            broadcast use vstd::seq_lib::group_to_multiset_ensures;
            assert(views(self.mosaics@) =~= before.remove(j as int));
            vstd::seq_lib::to_multiset_remove(before, j as int);
            assert(before[j as int] == old_sheet);
            assert forall|i: int| 0 <= i < views(self.mosaics@).len() implies (#[trigger] views(self.mosaics@)[i]).0.wf() by {
                if i < j {
                    assert(views(self.mosaics@)[i] == before[i]);
                } else {
                    assert(views(self.mosaics@)[i] == before[i + 1]);
                }
            }
        }
        self.add_mosaic(m);
    }

    /// Adds a panel to those that found no place.
    pub fn add_unplaced_tile(&mut self, tile: TileDimensions)
        ensures
            final(self).no_fit_panels@ == old(self).no_fit_panels@.push(tile),
            final(self).mosaics == old(self).mosaics,
            final(self).id == old(self).id,
            final(self).unused_stock_panels == old(self).unused_stock_panels,
            final(self).timestamp == old(self).timestamp,
            final(self).creator_thread_group == old(self).creator_thread_group,
            final(self).aux_info == old(self).aux_info,
    {
        self.no_fit_panels.push(tile);
    }
}

impl CuttingEngine {
    /// What becomes of a solution when the panel is placed (see `engine_next`); the
    /// new solutions come in the order in which they are found, the first being the one
    /// `engine_next` describes, and all keep the solution's identifier.
    fn next_solutions(
        solution: &Solution,
        tile: &TileDimensions,
        cut_thickness: i32,
        first_cut_orientation: CutDirection,
        consider_grain_direction: bool,
    ) -> (r: Vec<Solution>)
        requires
            solution.wf(),
            stock_sides_ok(solution.unused_stock_panels@),
        ensures
            r@.len() > 0,
            engine_next(*solution, *tile, first_cut_orientation, consider_grain_direction, r@[0]),
            forall|i: int| 0 <= i < r@.len() ==> (#[trigger] r@[i]).id == solution.id && r@[i].wf()
                && stock_sides_ok(r@[i].unused_stock_panels@),
    {
        let ghost s = *solution;
        let ghost first = first_cut_orientation;
        let ghost grain = consider_grain_direction;
        let mut new_solutions: Vec<Solution> = Vec::new();
        let mosaics = solution.get_mosaics();
        let ghost mut vs: Seq<Seq<PlacementResult>> = Seq::empty();
        let mut j: usize = 0;
        while j < mosaics.len()
            invariant
                0 <= j <= mosaics@.len(),
                mosaics@ == solution.mosaics@,
                s == *solution,
                solution.wf(),
                stock_sides_ok(solution.unused_stock_panels@),
                first == first_cut_orientation,
                grain == consider_grain_direction,
                new_solutions@.len() == 0,
                fits_upto(s, *tile, first, grain, vs, j as int),
                forall|i: int| 0 <= i < j ==> !#[trigger] sheet_usable(s, *tile, vs, i),
            decreases mosaics@.len() - j,
        {
            let mosaic = &mosaics[j];
            let ghost mut v: Seq<PlacementResult> = Seq::empty();
            if crate::support::same_text(mosaic.material.as_str(), tile.material.as_str()) {
                proof { lemma_mosaic_wf(solution.mosaics@, j as int); }
                let results = match Self::fit_tile(tile, mosaic, cut_thickness, first_cut_orientation, consider_grain_direction) {
                    Ok(v) => v,
                    Err(_) => Vec::new(),
                };
                proof { v = results@; }
                let mut k: usize = 0;
                while k < results.len()
                    invariant
                        0 <= k <= results@.len(),
                        v == results@,
                        j < mosaics@.len(),
                        mosaics@ == solution.mosaics@,
                        mosaic == &mosaics[j as int],
                        solution.wf(),
                        s == *solution,
                        stock_sides_ok(solution.unused_stock_panels@),
                        first == first_cut_orientation,
                        grain == consider_grain_direction,
                        forall|q: int| 0 <= q < k && new_solutions@.len() == 0 ==> !usable(#[trigger] v[q]),
                        new_solutions@.len() > 0 ==> exists|q: int| 0 <= q < k && first_usable(v, q)
                            && sheet_replaced(s, j as int, v[q].new_mosaic->0, new_solutions@[0]),
                        forall|i: int| 0 <= i < new_solutions@.len() ==> (#[trigger] new_solutions@[i]).id == solution.id
                            && new_solutions@[i].wf() && new_solutions@[i].unused_stock_panels@ == solution.unused_stock_panels@,
                    decreases results@.len() - k,
                {
                    let p = &results[k];
                    if p.placed {
                        if let Some(nm) = &p.new_mosaic {
                            if nm.root_tile_node.layout_check().is_some() {
                                let mut ns = solution.duplicate();
                                proof {
                                    assert(views(ns.mosaics@).len() == ns.mosaics@.len());
                                    assert(views(solution.mosaics@).len() == solution.mosaics@.len());
                                    assert(ns.wf());
                                }
                                let ghost dup = ns;
                                let nm2 = nm.copy();
                                ns.replace_sheet(j, nm2);
                                let ghost before = new_solutions@;
                                proof {
                                    assert(views(dup.mosaics@)[j as int] == views(solution.mosaics@)[j as int]);
                                    assert(dup.mosaics@[j as int]@ == solution.mosaics@[j as int]@);
                                    assert(nm2@ == v[k as int].new_mosaic->0@);
                                    assert(sheet_replaced(s, j as int, v[k as int].new_mosaic->0, ns));
                                    if before.len() == 0 {
                                        assert(first_usable(v, k as int));
                                    }
                                }
                                new_solutions.push(ns);
                                proof {
                                    assert(new_solutions@[0] == if before.len() == 0 { new_solutions@.last() } else { before[0] });
                                    if before.len() == 0 {
                                        assert(first_usable(v, k as int) && sheet_replaced(s, j as int, v[k as int].new_mosaic->0, new_solutions@[0]));
                                    }
                                }
                            }
                        }
                    }
                    k = k + 1;
                }
                if new_solutions.len() > 0 {
                    proof {
                        let vs2 = vs.push(v);
                        let q = choose|q: int| 0 <= q < v.len() && first_usable(v, q)
                            && sheet_replaced(s, j as int, v[q].new_mosaic->0, new_solutions@[0]);
                        assert(fits_upto(s, *tile, first, grain, vs2, j + 1)) by {
                            assert forall|i: int| 0 <= i < j + 1 && (#[trigger] s.mosaics@[i]).material@ == tile.material@
                                implies fit_ok(s.mosaics@[i], *tile, first, grain, vs2[i]) by {
                                if i < j { assert(vs2[i] == vs[i]); }
                            }
                        }
                        assert forall|i: int| 0 <= i < j implies !#[trigger] sheet_usable(s, *tile, vs2, i) by {
                            assert(vs2[i] == vs[i]);
                            assert(!sheet_usable(s, *tile, vs, i));
                        }
                        assert(vs2[j as int] == v);
                        assert(first_usable(vs2[j as int], q));
                        assert(stock_sides_ok(new_solutions@[0].unused_stock_panels@));
                    }
                    return new_solutions;
                }
                proof {
                    assert forall|q: int| 0 <= q < v.len() implies !usable(#[trigger] v[q]) by {}
                }
            }
            proof {
                let vs2 = vs.push(v);
                assert forall|i: int| 0 <= i < j + 1 && (#[trigger] s.mosaics@[i]).material@ == tile.material@
                    implies fit_ok(s.mosaics@[i], *tile, first, grain, vs2[i]) by {
                    if i < j { assert(vs2[i] == vs[i]); }
                }
                assert forall|i: int| 0 <= i < j + 1 implies !#[trigger] sheet_usable(s, *tile, vs2, i) by {
                    if i < j {
                        assert(vs2[i] == vs[i]);
                        assert(!sheet_usable(s, *tile, vs, i));
                    } else {
                        assert(vs2[i] == v);
                        if s.mosaics@[i].material@ == tile.material@ {
                            assert(!any_usable(v));
                        }
                    }
                }
                vs = vs2;
            }
            j = j + 1;
        }
        let ghost all_vs = vs;
        assert(fits_upto(s, *tile, first, grain, all_vs, s.mosaics@.len() as int));
        match Self::find_suitable_unused_stock(solution, tile) {
            Some(unused_stock) => {
                let ghost us = solution.unused_stock_panels@;
                let ghost k = choose|k: int| first_suitable_at(us, *tile, k) && unused_stock == #[trigger] us[k];
                proof { assert(unused_stock.width >= 0 && unused_stock.height >= 0); }
                let new_mosaic = Mosaic::new(&unused_stock);
                proof { assert(fresh_sheet(new_mosaic, us[k])); }
                let results = match Self::fit_tile(tile, &new_mosaic, cut_thickness, first_cut_orientation, consider_grain_direction) {
                    Ok(v) => v,
                    Err(_) => Vec::new(),
                };
                let ghost w = results@;
                proof { assert(fit_ok(new_mosaic, *tile, first, grain, w)); }
                let mut q: usize = 0;
                while q < results.len()
                    invariant
                        0 <= q <= results@.len(),
                        w == results@,
                        forall|x: int| 0 <= x < q ==> !usable(#[trigger] w[x]),
                        s == *solution,
                        solution.wf(),
                        stock_sides_ok(solution.unused_stock_panels@),
                        first == first_cut_orientation,
                        grain == consider_grain_direction,
                        us == solution.unused_stock_panels@,
                        first_suitable_at(us, *tile, k),
                        unused_stock == us[k],
                        fresh_sheet(new_mosaic, us[k]),
                        fit_ok(new_mosaic, *tile, first, grain, w),
                        fits_upto(s, *tile, first, grain, all_vs, s.mosaics@.len() as int),
                        forall|i: int| 0 <= i < s.mosaics@.len() ==> !#[trigger] sheet_usable(s, *tile, all_vs, i),
                        new_solutions@.len() == 0,
                    decreases results@.len() - q,
                {
                    let p = &results[q];
                    if p.placed {
                        if let Some(final_mosaic) = &p.new_mosaic {
                            if final_mosaic.root_tile_node.layout_check().is_some() {
                                let mut ns = solution.duplicate();
                                ns.add_mosaic(final_mosaic.copy());
                                proof {
                                    assert(same_panel(ns.unused_stock_panels@[k], unused_stock));
                                    assert forall|x: int| 0 <= x < k implies !same_panel(#[trigger] ns.unused_stock_panels@[x], unused_stock) by {
                                        if same_panel(ns.unused_stock_panels@[x], unused_stock) {
                                            assert(suitable_stock(us[x], *tile));
                                        }
                                    }
                                }
                                let at = Self::stock_index(&ns, &unused_stock);
                                proof { assert(at == k); }
                                let _ = ns.unused_stock_panels.remove(at);
                                proof {
                                    assert(first_usable(w, q as int));
                                    assert(sheet_added(s, k, w[q as int].new_mosaic->0, ns));
                                    assert(stock_next(s, *tile, first, grain, ns));
                                    assert(stock_sides_ok(ns.unused_stock_panels@)) by {
                                        assert forall|i: int| 0 <= i < ns.unused_stock_panels@.len()
                                            implies (#[trigger] ns.unused_stock_panels@[i]).width >= 0
                                                && ns.unused_stock_panels@[i].height >= 0 by {
                                            if i < k { assert(ns.unused_stock_panels@[i] == us[i]); }
                                            else { assert(ns.unused_stock_panels@[i] == us[i + 1]); }
                                        }
                                    }
                                }
                                new_solutions.push(ns);
                                return new_solutions;
                            }
                        }
                    }
                    q = q + 1;
                }
                let mut ns = solution.duplicate();
                ns.add_unplaced_tile(tile.duplicate());
                proof {
                    assert(!any_usable(w));
                    assert(unplaced(s, *tile, ns));
                    assert(stock_next(s, *tile, first, grain, ns));
                }
                new_solutions.push(ns);
                new_solutions
            },
            None => {
                let mut ns = solution.duplicate();
                ns.add_unplaced_tile(tile.duplicate());
                proof {
                    assert(!exists|k: int| first_suitable_at(solution.unused_stock_panels@, *tile, k));
                    assert(unplaced(s, *tile, ns));
                    assert(stock_next(s, *tile, first, grain, ns));
                }
                new_solutions.push(ns);
                new_solutions
            },
        }
    }

    /// The position of the first stock panel left unused that equals `panel`.
    fn stock_index(solution: &Solution, panel: &TileDimensions) -> (r: usize)
        requires
            exists|k: int| 0 <= k < solution.unused_stock_panels@.len() && same_panel(#[trigger] solution.unused_stock_panels@[k], *panel),
        ensures
            r < solution.unused_stock_panels@.len(),
            same_panel(solution.unused_stock_panels@[r as int], *panel),
            forall|q: int| 0 <= q < r ==> !same_panel(#[trigger] solution.unused_stock_panels@[q], *panel),
    {
        let us = &solution.unused_stock_panels;
        let mut i: usize = 0;
        while i < us.len()
            invariant
                0 <= i <= us@.len(),
                us@ == solution.unused_stock_panels@,
                exists|k: int| 0 <= k < us@.len() && same_panel(#[trigger] us@[k], *panel),
                forall|q: int| 0 <= q < i ==> !same_panel(#[trigger] us@[q], *panel),
            decreases us@.len() - i,
        {
            if same_panel_exec(&us[i], panel) {
                return i;
            }
            i = i + 1;
        }
        i
    }
}

impl CuttingEngine {
    /// Places the panels one after the other, starting from a solution over the stock:
    /// each step makes the new solutions of `engine_next` and keeps one per identifier;
    /// as every new solution keeps its parent's identifier, one solution is left after
    /// each step and ranking the kept solutions changes nothing. The result is that one
    /// solution, what `engine_chain` makes of the start. Never an error.
    pub fn compute_solutions(
        tiles: &[TileDimensions],
        stock_solution: &StockSolution,
        cut_thickness: i32,
        first_cut_orientation: CutDirection,
        consider_grain_direction: bool,
    ) -> (r: Result<Vec<Solution>, CuttingError>)
        requires
            stock_sides_ok(stock_solution.stock_tile_dimensions@),
        ensures
            r matches Ok(v) && v@.len() == 1 && exists|init: Solution|
                #[trigger] started_from_stock(stock_solution.stock_tile_dimensions@, init)
                && engine_chain(init, tiles@, first_cut_orientation, consider_grain_direction, v@[0]),
    {
        let ghost stock = stock_solution.stock_tile_dimensions@;
        let start = Solution::from_stock_solution(stock_solution);
        let ghost init = start;
        proof {
            assert(stock_sides_ok(start.unused_stock_panels@)) by {
                if stock.len() > 0 {
                    assert forall|q: int| 0 <= q < start.unused_stock_panels@.len()
                        implies (#[trigger] start.unused_stock_panels@[q]).width >= 0 && start.unused_stock_panels@[q].height >= 0 by {
                        assert(start.unused_stock_panels@[q] == stock[q + 1]);
                    }
                }
            }
            assert(tiles@.take(0) =~= Seq::<TileDimensions>::empty());
        }
        let mut solutions: Vec<Solution> = Vec::new();
        solutions.push(start);
        let mut i: usize = 0;
        while i < tiles.len()
            invariant
                0 <= i <= tiles@.len(),
                solutions@.len() == 1,
                solutions@[0].wf(),
                stock_sides_ok(solutions@[0].unused_stock_panels@),
                started_from_stock(stock, init),
                stock == stock_solution.stock_tile_dimensions@,
                engine_chain(init, tiles@.take(i as int), first_cut_orientation, consider_grain_direction, solutions@[0]),
            decreases tiles@.len() - i,
        {
            let new_solutions = Self::next_solutions(&solutions[0], &tiles[i], cut_thickness,
                first_cut_orientation, consider_grain_direction);
            let ghost prev = solutions@[0];
            let ghost found = new_solutions@;
            solutions = new_solutions;
            Self::remove_duplicates(&mut solutions);
            proof {
                lemma_one_id_keeps_first(found, solutions@);
                let tk = tiles@.take(i + 1);
                assert(tk.drop_last() =~= tiles@.take(i as int));
                assert(tk.last() == tiles@[i as int]);
                assert(engine_next(prev, tk.last(), first_cut_orientation, consider_grain_direction, solutions@[0]));
            }
            if solutions.len() > 100 {
                solutions.truncate(100);
            }
            i = i + 1;
        }
        proof { assert(tiles@.take(tiles@.len() as int) =~= tiles@); }
        Ok(solutions)
    }
}

} // verus!
