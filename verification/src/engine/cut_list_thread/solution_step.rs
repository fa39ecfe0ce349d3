//! One step of the search: what becomes of each solution when the next panel is tried
//! on it, and the solutions kept afterwards.

use std::collections::VecDeque;
use vstd::prelude::*;
use crate::engine::comparator::keep_first_keys;
use crate::engine::cut_list_thread::structs::CutListThread;
use crate::engine::cut_list_thread::tile_fitting::{add_results_ok, add_count, add_in_range, lemma_add_results_wf};
use crate::engine::cut_list_thread::validation::concatenated_ids;
use crate::model::mosaic::{Mosaic, MosaicView, same_view};
use crate::model::solution::{Solution, views, fresh_sheet};
use crate::model::tile::{TileDimensions, fits_spec, copy_opt_string};
use crate::support::same_text;

verus! {

/// The panel gives something on the sheet: the sheet is of the panel's material and
/// trying the panel on it gives at least one sheet.
pub open spec fn sheet_takes(t: CutListThread, m: Mosaic, td: TileDimensions) -> bool {
    m.material@ == td.material@ && add_count(t, m, td) > 0
}

/// Sheet `j` is the first sheet of the solution that takes the panel.
pub open spec fn first_taking_sheet(t: CutListThread, s: Solution, td: TileDimensions, j: int) -> bool {
    &&& 0 <= j < s.mosaics@.len()
    &&& sheet_takes(t, s.mosaics@[j], td)
    &&& forall|i: int| 0 <= i < j ==> !sheet_takes(t, #[trigger] s.mosaics@[i], td)
}

/// Stock panel `u` is the first unused one into which the panel fits.
pub open spec fn first_fitting_stock(s: Solution, td: TileDimensions, u: int) -> bool {
    let us = s.unused_stock_panels@;
    &&& 0 <= u < us.len()
    &&& fits_spec(us[u].width as int, us[u].height as int, td.width as int, td.height as int)
    &&& forall|q: int| 0 <= q < u
        ==> !fits_spec((#[trigger] us[q]).width as int, us[q].height as int, td.width as int, td.height as int)
}

/// Two panels are equal field by field.
pub open spec fn same_panel(a: TileDimensions, b: TileDimensions) -> bool {
    &&& a.id == b.id
    &&& a.width == b.width
    &&& a.height == b.height
    &&& a.material@ == b.material@
    &&& a.orientation == b.orientation
    &&& a.is_rotated == b.is_rotated
    &&& match (a.label, b.label) {
        (Some(x), Some(y)) => x@ == y@,
        (None, None) => true,
        _ => false,
    }
}

/// The test that a panel differs from `p`.
pub open spec fn differs_from(p: TileDimensions) -> spec_fn(TileDimensions) -> bool {
    |q: TileDimensions| !same_panel(q, p)
}

/// The stock panels other than those equal to `p`.
pub open spec fn without_panel(us: Seq<TileDimensions>, p: TileDimensions) -> Seq<TileDimensions> {
    us.filter(differs_from(p))
}

/// `ns` is `s` with the sheet `old_sheet` replaced by `r`, marked with the search's group
/// and auxiliary information.
pub open spec fn placed_on_sheet(t: CutListThread, s: Solution, old_sheet: MosaicView, r: Mosaic, ns: Solution) -> bool {
    &&& views(ns.mosaics@).to_multiset() == views(s.mosaics@).filter(|v: MosaicView| !same_view(v, old_sheet)).to_multiset().insert(r@)
    &&& ns.wf()
    &&& ns.no_fit_panels@ == s.no_fit_panels@
    &&& ns.unused_stock_panels@ == s.unused_stock_panels@
    &&& ns.creator_thread_group == t.group
    &&& ns.aux_info == t.aux_info
}

/// `ns` is `s` (same identifier) with the stock panels equal to `p` taken off the unused
/// ones and the sheet `r` added, marked with the search's group and auxiliary information.
pub open spec fn placed_on_new_sheet(t: CutListThread, s: Solution, p: TileDimensions, r: Mosaic, ns: Solution) -> bool {
    &&& ns.id == s.id
    &&& views(ns.mosaics@).to_multiset() == views(s.mosaics@).to_multiset().insert(r@)
    &&& ns.wf()
    &&& ns.no_fit_panels@ == s.no_fit_panels@
    &&& ns.unused_stock_panels@ == without_panel(s.unused_stock_panels@, p)
    &&& ns.creator_thread_group == t.group
    &&& ns.aux_info == t.aux_info
}

/// `ns` is `s` (same identifier and sheets) with the panel added to those that found no
/// place.
pub open spec fn left_unplaced(s: Solution, td: TileDimensions, ns: Solution) -> bool {
    &&& ns.id == s.id
    &&& views(ns.mosaics@) == views(s.mosaics@)
    &&& ns.no_fit_panels@ == s.no_fit_panels@.push(td)
    &&& ns.unused_stock_panels@ == s.unused_stock_panels@
    &&& ns.timestamp == s.timestamp
    &&& ns.creator_thread_group == s.creator_thread_group
    &&& ns.aux_info == s.aux_info
}

/// What becomes of solution `s` when the panel is tried on it: one solution per sheet
/// that the first sheet taking the panel gives; else, if the panel fits into an unused
/// stock panel, one per sheet that a fresh sheet cut from the first such panel gives (when
/// it gives any); else the solution with the panel left unplaced.
pub open spec fn tile_outcome(t: CutListThread, s: Solution, td: TileDimensions, out: Seq<Solution>) -> bool {
    if exists|j: int| first_taking_sheet(t, s, td, j) {
        exists|j: int, rs: Seq<Mosaic>|
            #![trigger first_taking_sheet(t, s, td, j), add_results_ok(t, s.mosaics@[j], td, rs)]
            first_taking_sheet(t, s, td, j) && add_results_ok(t, s.mosaics@[j], td, rs)
            && out.len() == rs.len()
            && forall|k: int| 0 <= k < out.len() ==> placed_on_sheet(t, s, s.mosaics@[j]@, #[trigger] rs[k], out[k])
    } else if exists|u: int| first_fitting_stock(s, td, u) {
        exists|u: int, fm: Mosaic, rs: Seq<Mosaic>|
            #![trigger first_fitting_stock(s, td, u), fresh_sheet(fm, s.unused_stock_panels@[u]), add_results_ok(t, fm, td, rs)]
            first_fitting_stock(s, td, u) && fresh_sheet(fm, s.unused_stock_panels@[u]) && add_results_ok(t, fm, td, rs)
            && if rs.len() > 0 {
                out.len() == rs.len()
                    && forall|k: int| 0 <= k < out.len()
                        ==> placed_on_new_sheet(t, s, s.unused_stock_panels@[u], #[trigger] rs[k], out[k])
            } else {
                out.len() == 1 && left_unplaced(s, td, out[0])
            }
    } else {
        out.len() == 1 && left_unplaced(s, td, out[0])
    }
}

/// `out` is what becomes of each solution of `ss`, one after the other.
pub open spec fn step_outcomes(t: CutListThread, ss: Seq<Solution>, td: TileDimensions, out: Seq<Solution>) -> bool
    decreases ss.len(),
{
    if ss.len() == 0 {
        out.len() == 0
    } else {
        exists|k: int| #![trigger out.subrange(0, k)] 0 <= k <= out.len()
            && step_outcomes(t, ss.drop_last(), td, out.subrange(0, k))
            && tile_outcome(t, ss.last(), td, out.subrange(k, out.len() as int))
    }
}

/// What the solutions of `ss` become, followed by what `x` becomes, is what the solutions
/// of `ss` and then `x` become.
proof fn lemma_step_outcomes_push(t: CutListThread, ss: Seq<Solution>, x: Solution, td: TileDimensions,
    a: Seq<Solution>, b: Seq<Solution>)
    requires
        step_outcomes(t, ss, td, a),
        tile_outcome(t, x, td, b),
    ensures
        step_outcomes(t, ss.push(x), td, a + b),
{
    let all = a + b;
    assert(ss.push(x).drop_last() =~= ss);
    assert(all.subrange(0, a.len() as int) =~= a);
    assert(all.subrange(a.len() as int, all.len() as int) =~= b);
    assert(ss.push(x).last() == x);
    assert(step_outcomes(t, ss.push(x).drop_last(), td, all.subrange(0, a.len() as int)));
    assert(tile_outcome(t, ss.push(x).last(), td, all.subrange(a.len() as int, all.len() as int)));
}

/// The first `n` solutions of `s`, all of them when there are fewer.
pub open spec fn at_most(s: Seq<Solution>, n: nat) -> Seq<Solution> {
    if s.len() > n { s.take(n as int) } else { s }
}

/// The panel can be tried on every sheet of the solution of its material, and on a
/// fresh sheet cut from every unused stock panel into which it fits, with the cuts in
/// range.
pub open spec fn solution_in_range(t: CutListThread, s: Solution, td: TileDimensions) -> bool {
    &&& forall|j: int| 0 <= j < s.mosaics@.len() && (#[trigger] s.mosaics@[j]).material@ == td.material@
        ==> add_in_range(t, s.mosaics@[j], td)
    &&& forall|u: int| 0 <= u < s.unused_stock_panels@.len()
        && fits_spec((#[trigger] s.unused_stock_panels@[u]).width as int, s.unused_stock_panels@[u].height as int,
            td.width as int, td.height as int)
        ==> {
            &&& s.unused_stock_panels@[u].width >= 0
            &&& s.unused_stock_panels@[u].height >= 0
            &&& forall|fm: Mosaic| fresh_sheet(fm, s.unused_stock_panels@[u]) ==> #[trigger] add_in_range(t, fm, td)
        }
}

/// The panel can be tried on every solution of `ss` with the cuts in range.
pub open spec fn step_in_range(t: CutListThread, ss: Seq<Solution>, td: TileDimensions) -> bool {
    forall|i: int| 0 <= i < ss.len() ==> solution_in_range(t, #[trigger] ss[i], td)
}

pub(crate) fn same_panel_exec(a: &TileDimensions, b: &TileDimensions) -> (r: bool)
    ensures
        r == same_panel(*a, *b),
{
    let labels = match (&a.label, &b.label) {
        (Some(x), Some(y)) => same_text(x.as_str(), y.as_str()),
        (None, None) => true,
        _ => false,
    };
    a.id == b.id && a.width == b.width && a.height == b.height && same_text(a.material.as_str(), b.material.as_str())
        && a.orientation == b.orientation && a.is_rotated == b.is_rotated && labels
}

/// The stock panels other than those equal to `p`.
fn without(us: &VecDeque<TileDimensions>, p: &TileDimensions) -> (r: VecDeque<TileDimensions>)
    ensures
        r@ == without_panel(us@, *p),
{
    let ghost pred = differs_from(*p);
    let mut r: VecDeque<TileDimensions> = VecDeque::new();
    let mut i: usize = 0;
    while i < us.len()
        invariant
            0 <= i <= us@.len(),
            pred == differs_from(*p),
            r@ == us@.take(i as int).filter(pred),
        decreases us@.len() - i,
    {
        proof {
            assert(us@.take(i + 1) =~= us@.take(i as int).push(us@[i as int]));
            us@.take(i as int).lemma_filter_push(us@[i as int], pred);
        }
        let ghost x = us@[i as int];
        let keep = !same_panel_exec(&us[i], p);
        if keep {
            r.push_back(us[i].duplicate());
        }
        i = i + 1;
    }
    proof { assert(us@.take(i as int) =~= us@); }
    r
}

impl CutListThread {
    /// Appends to `out` what becomes of `solution` when the panel is tried on it (see
    /// `tile_outcome`).
    fn solution_outcome(&self, solution: &Solution, tile_dimensions: &TileDimensions, out: &mut Vec<Solution>)
        requires
            solution.wf(),
            solution_in_range(*self, *solution, *tile_dimensions),
        ensures
            old(out)@.len() <= final(out)@.len(),
            final(out)@.subrange(0, old(out)@.len() as int) == old(out)@,
            tile_outcome(*self, *solution, *tile_dimensions,
                final(out)@.subrange(old(out)@.len() as int, final(out)@.len() as int)),
    {
        let ghost start = out@;
        let ghost t = *self;
        let ghost s = *solution;
        let ghost td = *tile_dimensions;
        let mosaics = solution.get_mosaics();
        let mut j: usize = 0;
        while j < mosaics.len()
            invariant
                0 <= j <= mosaics@.len(),
                mosaics@ == solution.mosaics@,
                solution.wf(),
                solution_in_range(*self, *solution, *tile_dimensions),
                out@ == start,
                start == old(out)@,
                t == *self,
                s == *solution,
                td == *tile_dimensions,
                forall|i: int| 0 <= i < j ==> !sheet_takes(*self, #[trigger] mosaics@[i], *tile_dimensions),
            decreases mosaics@.len() - j,
        {
            let mosaic = &mosaics[j];
            if same_text(mosaic.material.as_str(), tile_dimensions.material.as_str()) {
                proof {
                    assert(mosaic.wf()) by {
                        assert(views(solution.mosaics@)[j as int] == mosaic@);
                    }
                    assert(add_in_range(*self, solution.mosaics@[j as int], *tile_dimensions));
                }
                let mut fitting: Vec<Mosaic> = Vec::new();
                let _ = self.add_tile_to_mosaic(tile_dimensions, mosaic, &mut fitting);
                proof {
                    assert(fitting@.subrange(0, 0) =~= Seq::<Mosaic>::empty());
                    assert(fitting@.subrange(0, fitting@.len() as int) =~= fitting@);
                    lemma_add_results_wf(*self, *mosaic, *tile_dimensions, fitting@);
                }
                if fitting.len() > 0 {
                    let ghost rs = fitting@;
                    let mut k: usize = 0;
                    while k < fitting.len()
                        invariant
                            0 <= k <= fitting@.len(),
                            rs == fitting@,
                            forall|q: int| 0 <= q < rs.len() ==> (#[trigger] rs[q]).wf(),
                            solution.wf(),
                            start == old(out)@,
                            t == *self,
                            s == *solution,
                            td == *tile_dimensions,
                            mosaic == &mosaics[j as int],
                            mosaics@ == solution.mosaics@,
                            0 <= j < mosaics@.len(),
                            mosaic.material@ == tile_dimensions.material@,
                            forall|i: int| 0 <= i < j ==> !sheet_takes(*self, #[trigger] mosaics@[i], *tile_dimensions),
                            start.len() + k == out@.len(),
                            out@.subrange(0, start.len() as int) == start,
                            forall|q: int| 0 <= q < k ==> placed_on_sheet(*self, *solution, mosaic@, #[trigger] rs[q],
                                out@[start.len() + q]),
                        decreases fitting@.len() - k,
                    {
                        let mut ns = Solution::copy_excluding_mosaic(solution, mosaic);
                        let r = fitting[k].copy();
                        ns.add_mosaic(r);
                        ns.creator_thread_group = copy_opt_string(&self.group);
                        ns.aux_info = copy_opt_string(&self.aux_info);
                        let ghost before = out@;
                        out.push(ns);
                        proof {
                            assert(out@.subrange(0, start.len() as int) =~= start) by {
                                assert(before.subrange(0, start.len() as int) == start);
                            }
                            assert forall|q: int| 0 <= q < k + 1 implies placed_on_sheet(*self, *solution, mosaic@, #[trigger] rs[q],
                                out@[start.len() + q]) by {
                                if q < k {
                                    assert(out@[start.len() + q] == before[start.len() + q]);
                                }
                            }
                        }
                        k = k + 1;
                    }
                    proof {
                        let added = out@.subrange(start.len() as int, out@.len() as int);
                        assert(first_taking_sheet(t, s, td, j as int));
                        assert(s.mosaics@[j as int] == *mosaic);
                        assert forall|q: int| 0 <= q < added.len() implies placed_on_sheet(t, s, s.mosaics@[j as int]@, #[trigger] rs[q], added[q]) by {
                            assert(added[q] == out@[start.len() + q]);
                        }
                        assert(add_results_ok(t, s.mosaics@[j as int], td, rs));
                    }
                    return;
                }
                proof {
                    assert(!sheet_takes(*self, mosaics@[j as int], *tile_dimensions));
                }
            }
            j = j + 1;
        }
        proof {
            assert(!exists|jj: int| first_taking_sheet(t, s, td, jj));
        }
        let unused = solution.get_unused_stock_panels();
        let mut u: usize = 0;
        while u < unused.len()
            invariant
                0 <= u <= unused@.len(),
                unused@ == solution.unused_stock_panels@,
                solution.wf(),
                solution_in_range(*self, *solution, *tile_dimensions),
                out@ == start,
                start == old(out)@,
                !exists|jj: int| first_taking_sheet(t, s, td, jj),
                t == *self,
                s == *solution,
                td == *tile_dimensions,
                forall|q: int| 0 <= q < u ==> !fits_spec((#[trigger] unused@[q]).width as int, unused@[q].height as int,
                    tile_dimensions.width as int, tile_dimensions.height as int),
            decreases unused@.len() - u,
        {
            if unused[u].fits(tile_dimensions) {
                let panel = unused[u].duplicate();
                proof {
                    assert(first_fitting_stock(s, td, u as int));
                }
                let mut base = solution.duplicate();
                base.unused_stock_panels = without(&solution.unused_stock_panels, &panel);
                let fresh = Mosaic::new(&panel);
                proof {
                    assert(fresh_sheet(fresh, s.unused_stock_panels@[u as int]));
                    assert(add_in_range(*self, fresh, *tile_dimensions));
                }
                let mut fitting: Vec<Mosaic> = Vec::new();
                let _ = self.add_tile_to_mosaic(tile_dimensions, &fresh, &mut fitting);
                proof {
                    assert(fitting@.subrange(0, 0) =~= Seq::<Mosaic>::empty());
                    assert(fitting@.subrange(0, fitting@.len() as int) =~= fitting@);
                    lemma_add_results_wf(*self, fresh, *tile_dimensions, fitting@);
                }
                let ghost rs = fitting@;
                if fitting.len() > 0 {
                    let mut k: usize = 0;
                    while k < fitting.len()
                        invariant
                            0 <= k <= fitting@.len(),
                            rs == fitting@,
                            forall|q: int| 0 <= q < rs.len() ==> (#[trigger] rs[q]).wf(),
                            base.wf(),
                            start == old(out)@,
                            t == *self,
                            s == *solution,
                            td == *tile_dimensions,
                            panel == s.unused_stock_panels@[u as int],
                            first_fitting_stock(s, td, u as int),
                            fresh_sheet(fresh, s.unused_stock_panels@[u as int]),
                            add_results_ok(t, fresh, td, rs),
                            !exists|jj: int| first_taking_sheet(t, s, td, jj),
                            base.id == solution.id,
                            views(base.mosaics@) == views(solution.mosaics@),
                            base.no_fit_panels@ == solution.no_fit_panels@,
                            base.unused_stock_panels@ == without_panel(solution.unused_stock_panels@, panel),
                            start.len() + k == out@.len(),
                            out@.subrange(0, start.len() as int) == start,
                            forall|q: int| 0 <= q < k ==> placed_on_new_sheet(*self, *solution, panel, #[trigger] rs[q],
                                out@[start.len() + q]),
                        decreases fitting@.len() - k,
                    {
                        let mut ns = base.duplicate();
                        let r = fitting[k].copy();
                        ns.add_mosaic(r);
                        ns.creator_thread_group = copy_opt_string(&self.group);
                        ns.aux_info = copy_opt_string(&self.aux_info);
                        let ghost before = out@;
                        out.push(ns);
                        proof {
                            assert(out@.subrange(0, start.len() as int) =~= start) by {
                                assert(before.subrange(0, start.len() as int) == start);
                            }
                            assert forall|q: int| 0 <= q < k + 1 implies placed_on_new_sheet(*self, *solution, panel, #[trigger] rs[q],
                                out@[start.len() + q]) by {
                                if q < k {
                                    assert(out@[start.len() + q] == before[start.len() + q]);
                                }
                            }
                        }
                        k = k + 1;
                    }
                    proof {
                        let added = out@.subrange(start.len() as int, out@.len() as int);
                        assert(panel == s.unused_stock_panels@[u as int]);
                        assert forall|q: int| 0 <= q < added.len() implies placed_on_new_sheet(t, s, s.unused_stock_panels@[u as int],
                            #[trigger] rs[q], added[q]) by {
                            assert(added[q] == out@[start.len() + q]);
                        }
                    }
                    return;
                }
                let mut ns = solution.duplicate();
                ns.no_fit_panels.push(tile_dimensions.duplicate());
                out.push(ns);
                proof {
                    let added = out@.subrange(start.len() as int, out@.len() as int);
                    assert(added.len() == 1);
                    assert(added[0] == out@.last());
                    assert(out@.subrange(0, start.len() as int) =~= start);
                }
                return;
            }
            u = u + 1;
        }
        let mut ns = solution.duplicate();
        ns.no_fit_panels.push(tile_dimensions.duplicate());
        out.push(ns);
        proof {
            let added = out@.subrange(start.len() as int, out@.len() as int);
            assert(added.len() == 1);
            assert(added[0] == out@.last());
            assert(out@.subrange(0, start.len() as int) =~= start);
            assert(!exists|uu: int| first_fitting_stock(s, td, uu));
        }
    }

    /// One step of the search: what becomes of each current solution when the panel is
    /// tried on it (see `tile_outcome`), without repeated layouts (the first kept), and
    /// at most `accuracy_factor` of them.
    pub fn process_tile(&self, current: &Vec<Solution>, tile_dimensions: &TileDimensions) -> (r: Vec<Solution>)
        requires
            forall|i: int| 0 <= i < current@.len() ==> (#[trigger] current@[i]).wf(),
            step_in_range(*self, current@, *tile_dimensions),
        ensures
            exists|mid: Seq<Solution>| #[trigger] step_outcomes(*self, current@, *tile_dimensions, mid)
                && r@ == at_most(keep_first_keys(mid, concatenated_ids(mid)), self.accuracy_factor as nat),
    {
        let mut new_solutions: Vec<Solution> = Vec::new();
        let mut i: usize = 0;
        proof { assert(current@.take(0) =~= Seq::<Solution>::empty()); }
        while i < current.len()
            invariant
                0 <= i <= current@.len(),
                forall|q: int| 0 <= q < current@.len() ==> (#[trigger] current@[q]).wf(),
                step_in_range(*self, current@, *tile_dimensions),
                step_outcomes(*self, current@.take(i as int), *tile_dimensions, new_solutions@),
            decreases current@.len() - i,
        {
            let ghost before = new_solutions@;
            proof { assert(solution_in_range(*self, current@[i as int], *tile_dimensions)); }
            self.solution_outcome(&current[i], tile_dimensions, &mut new_solutions);
            proof {
                let k = before.len() as int;
                let added = new_solutions@.subrange(k, new_solutions@.len() as int);
                assert(new_solutions@ =~= before + added) by {
                    assert(new_solutions@.subrange(0, k) == before);
                }
                assert(current@.take(i + 1) =~= current@.take(i as int).push(current@[i as int]));
                lemma_step_outcomes_push(*self, current@.take(i as int), current@[i as int], *tile_dimensions, before, added);
            }
            i = i + 1;
        }
        proof { assert(current@.take(i as int) =~= current@); }
        let ghost mid = new_solutions@;
        let _ = self.remove_duplicated(&mut new_solutions);
        let _ = self.sort_and_limit_solutions(&mut new_solutions, true);
        new_solutions
    }
}

} // verus!
