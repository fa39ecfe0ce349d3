//! The whole search: the panels tried one after the other on the solutions kept so far,
//! starting from the stock, and what is kept of the result.

use vstd::prelude::*;
use crate::engine::comparator::{keep_first_keys, lemma_keep_first_from, lemma_keep_first_distinct};
use crate::engine::cut_list_thread::solution_step::{
    at_most, left_unplaced, placed_on_new_sheet, placed_on_sheet, step_in_range, step_outcomes, tile_outcome,
};
use crate::engine::cut_list_thread::structs::{CutListThread, Status};
use crate::engine::cut_list_thread::validation::{concatenated_identifier, concatenated_ids, configuration_problem};
use crate::error::OptimizerError;
use crate::model::mosaic::MosaicView;
use crate::model::solution::{Solution, all_wf, sorted_by_unused, started_from_stock, unused_of, views};
use crate::model::tile::TileDimensions;
use crate::support::current_time_millis;

verus! {

/// The solutions kept after one step from `ss`: what becomes of each of them when the
/// panel is tried (`step_outcomes`), without repeated layouts, at most `accuracy_factor`.
pub open spec fn step_kept(t: CutListThread, ss: Seq<Solution>, td: TileDimensions, out: Seq<Solution>) -> bool {
    exists|mid: Seq<Solution>| #[trigger] step_outcomes(t, ss, td, mid)
        && out == at_most(keep_first_keys(mid, concatenated_ids(mid)), t.accuracy_factor as nat)
}

/// `out` is what the search keeps after trying the panels `tiles` in order, starting
/// from the solutions `ss`, every step with its cuts in range.
pub open spec fn search_outcome(t: CutListThread, ss: Seq<Solution>, tiles: Seq<TileDimensions>, out: Seq<Solution>) -> bool
    decreases tiles.len(),
{
    if tiles.len() == 0 {
        out == ss
    } else {
        exists|prev: Seq<Solution>| #[trigger] step_kept(t, prev, tiles.last(), out)
            && step_in_range(t, prev, tiles.last())
            && search_outcome(t, ss, tiles.drop_last(), prev)
    }
}

/// Some way the search may go from `ss` reaches a step whose cuts would leave 32 bits.
pub open spec fn reaches_out_of_range(t: CutListThread, ss: Seq<Solution>, tiles: Seq<TileDimensions>) -> bool {
    exists|k: int, prev: Seq<Solution>| 0 <= k < tiles.len()
        && #[trigger] search_outcome(t, ss, tiles.take(k), prev)
        && !step_in_range(t, prev, tiles[k])
}

/// A stock panel has a side below zero.
pub open spec fn stock_has_negative_side(stock: Seq<TileDimensions>) -> bool {
    exists|i: int| 0 <= i < stock.len() && ((#[trigger] stock[i]).width < 0 || stock[i].height < 0)
}

/// The share of panels tried, in whole percent, when panel `k` of `n` is next.
pub open spec fn percent_of(k: int, n: int) -> int {
    100 * k / n
}

/// The progress the search reports after trying `n` panels: the share reached at the
/// last panel whose index is a multiple of three.
pub open spec fn final_percentage(n: int) -> int {
    percent_of(3 * ((n - 1) / 3), n)
}

/// The sheets of a solution on which something is placed.
pub open spec fn used_sheets(v: Seq<MosaicView>) -> Seq<MosaicView> {
    v.filter(|x: MosaicView| x.0.used_area_spec() > 0)
}

/// The stored solutions after a search that kept `found`: `found` after the solutions
/// found before, at most `accuracy_factor` of them, the first with only its used sheets.
pub open spec fn merged_solutions(t: CutListThread, before: Seq<Solution>, found: Seq<Solution>, after: Seq<Solution>) -> bool {
    let all = at_most(before + found, t.accuracy_factor as nat);
    &&& after.len() == all.len()
    &&& forall|i: int| 1 <= i < after.len() ==> after[i] == all[i]
    &&& after.len() > 0 ==> {
        &&& views(after[0].mosaics@) == used_sheets(views(all[0].mosaics@))
        &&& after[0].same_but_mosaics(all[0])
    }
}

/// The stock panels of the search, if it has stock, have no side below zero (a sheet
/// is laid out from the origin, so such a panel has no layout).
pub open spec fn stock_sides_nonneg(t: CutListThread) -> bool {
    match t.stock_solution {
        Some(st) => !stock_has_negative_side(st.stock_tile_dimensions@),
        None => true,
    }
}

/// `after` is the search `t` after it ran (`ok` whether it succeeded): only the stored
/// solutions, status, start time and progress changed; a way the search may go that
/// reaches a cut out of range, and only this, makes it fail, leaving the stored
/// solutions as they were; otherwise the panels were tried
/// in order from a solution over the stock (none without stock) and what was kept was
/// merged into the stored solutions (`merged_solutions`), and the progress is that of
/// the last panel whose index is a multiple of three.
pub open spec fn search_done(t: CutListThread, after: CutListThread, ok: bool) -> bool {
    &&& after == (CutListThread {
        all_solutions: after.all_solutions,
        status: after.status,
        start_time: after.start_time,
        percentage_done: after.percentage_done,
        ..t
    })
    &&& after.start_time is Some
    &&& match t.stock_solution {
        Some(st) => exists|init: Solution|
            #[trigger] started_from_stock(st.stock_tile_dimensions@, init)
            && (!ok ==> reaches_out_of_range(t, seq![init], t.tiles@))
            && (!reaches_out_of_range(t, seq![init], t.tiles@) ==> ok)
            && (ok ==> exists|found: Seq<Solution>|
                #[trigger] search_outcome(t, seq![init], t.tiles@, found)
                && merged_solutions(t, t.all_solutions@, found, after.all_solutions@)),
        None => {
            &&& ok
            &&& search_outcome(t, Seq::empty(), t.tiles@, Seq::empty())
            &&& merged_solutions(t, t.all_solutions@, Seq::empty(), after.all_solutions@)
        },
    }
    &&& !ok ==> after.all_solutions == t.all_solutions
    &&& ok && t.tiles@.len() > 0 ==> after.percentage_done == final_percentage(t.tiles@.len() as int)
    &&& ok && t.tiles@.len() == 0 ==> after.percentage_done == t.percentage_done
    &&& forall|i: int| 0 <= i < after.all_solutions@.len() ==> (#[trigger] after.all_solutions@[i]).wf()
}

/// What becomes of each well-formed solution is well formed.
proof fn lemma_tile_outcome_wf(t: CutListThread, s: Solution, td: TileDimensions, out: Seq<Solution>)
    requires
        s.wf(),
        tile_outcome(t, s, td, out),
    ensures
        forall|i: int| 0 <= i < out.len() ==> (#[trigger] out[i]).wf(),
{
    assert forall|i: int| 0 <= i < out.len() implies (#[trigger] out[i]).wf() by {
        if exists|j: int| crate::engine::cut_list_thread::solution_step::first_taking_sheet(t, s, td, j) {
            let (j, rs) = choose|j: int, rs: Seq<crate::model::mosaic::Mosaic>|
                crate::engine::cut_list_thread::solution_step::first_taking_sheet(t, s, td, j)
                && crate::engine::cut_list_thread::tile_fitting::add_results_ok(t, s.mosaics@[j], td, rs)
                && out.len() == rs.len()
                && forall|k: int| 0 <= k < out.len() ==> placed_on_sheet(t, s, s.mosaics@[j]@, #[trigger] rs[k], out[k]);
            assert(placed_on_sheet(t, s, s.mosaics@[j]@, rs[i], out[i]));
        } else if exists|u: int| crate::engine::cut_list_thread::solution_step::first_fitting_stock(s, td, u) {
            let (u, fm, rs) = choose|u: int, fm: crate::model::mosaic::Mosaic, rs: Seq<crate::model::mosaic::Mosaic>|
                crate::engine::cut_list_thread::solution_step::first_fitting_stock(s, td, u)
                && crate::model::solution::fresh_sheet(fm, s.unused_stock_panels@[u])
                && crate::engine::cut_list_thread::tile_fitting::add_results_ok(t, fm, td, rs)
                && if rs.len() > 0 {
                    out.len() == rs.len()
                        && forall|k: int| 0 <= k < out.len()
                            ==> placed_on_new_sheet(t, s, s.unused_stock_panels@[u], #[trigger] rs[k], out[k])
                } else {
                    out.len() == 1 && left_unplaced(s, td, out[0])
                };
            if rs.len() > 0 {
                assert(placed_on_new_sheet(t, s, s.unused_stock_panels@[u], rs[i], out[i]));
            }
        }
    }
}

/// What becomes of well-formed solutions is well formed.
proof fn lemma_step_outcomes_wf(t: CutListThread, ss: Seq<Solution>, td: TileDimensions, out: Seq<Solution>)
    requires
        forall|i: int| 0 <= i < ss.len() ==> (#[trigger] ss[i]).wf(),
        step_outcomes(t, ss, td, out),
    ensures
        forall|i: int| 0 <= i < out.len() ==> (#[trigger] out[i]).wf(),
    decreases ss.len(),
{
    if ss.len() > 0 {
        let k = choose|k: int| #![trigger out.subrange(0, k)] 0 <= k <= out.len()
            && step_outcomes(t, ss.drop_last(), td, out.subrange(0, k))
            && tile_outcome(t, ss.last(), td, out.subrange(k, out.len() as int));
        let a = out.subrange(0, k);
        let b = out.subrange(k, out.len() as int);
        assert forall|i: int| 0 <= i < ss.drop_last().len() implies (#[trigger] ss.drop_last()[i]).wf() by {
            assert(ss.drop_last()[i] == ss[i]);
        }
        lemma_step_outcomes_wf(t, ss.drop_last(), td, a);
        lemma_tile_outcome_wf(t, ss.last(), td, b);
        assert forall|i: int| 0 <= i < out.len() implies (#[trigger] out[i]).wf() by {
            if i < k {
                assert(out[i] == a[i]);
            } else {
                assert(out[i] == b[i - k]);
            }
        }
    }
}

/// After a step the search keeps at most `accuracy_factor` solutions, no two of them with
/// the same layout identifier.
pub proof fn lemma_step_kept_distinct(t: CutListThread, ss: Seq<Solution>, td: TileDimensions, out: Seq<Solution>)
    requires
        step_kept(t, ss, td, out),
    ensures
        out.len() <= t.accuracy_factor,
        forall|a: int, b: int| 0 <= a < b < out.len()
            ==> concatenated_identifier((#[trigger] out[a]).mosaics@) != concatenated_identifier((#[trigger] out[b]).mosaics@),
{
    let mid = choose|mid: Seq<Solution>| #[trigger] step_outcomes(t, ss, td, mid)
        && out == at_most(keep_first_keys(mid, concatenated_ids(mid)), t.accuracy_factor as nat);
    let f = |x: Solution| concatenated_identifier(x.mosaics@);
    let ks = concatenated_ids(mid);
    assert forall|i: int| 0 <= i < mid.len() implies ks[i] == f(#[trigger] mid[i]) by {}
    lemma_keep_first_distinct(mid, ks, f);
    let kept = keep_first_keys(mid, ks);
    assert forall|a: int, b: int| 0 <= a < b < out.len()
        implies concatenated_identifier((#[trigger] out[a]).mosaics@) != concatenated_identifier((#[trigger] out[b]).mosaics@) by {
        assert(out[a] == kept[a]);
        assert(out[b] == kept[b]);
        assert(f(kept[a]) != f(kept[b]));
    }
}

/// A search that tried at least one panel keeps at most `accuracy_factor` solutions, no
/// two of them with the same layout identifier.
pub proof fn lemma_search_outcome_distinct(t: CutListThread, ss: Seq<Solution>, tiles: Seq<TileDimensions>, found: Seq<Solution>)
    requires
        tiles.len() > 0,
        search_outcome(t, ss, tiles, found),
    ensures
        found.len() <= t.accuracy_factor,
        forall|a: int, b: int| 0 <= a < b < found.len()
            ==> concatenated_identifier((#[trigger] found[a]).mosaics@) != concatenated_identifier((#[trigger] found[b]).mosaics@),
{
    let prev = choose|prev: Seq<Solution>| #[trigger] step_kept(t, prev, tiles.last(), found)
        && step_in_range(t, prev, tiles.last())
        && search_outcome(t, ss, tiles.drop_last(), prev);
    lemma_step_kept_distinct(t, prev, tiles.last(), found);
}

/// The stored solutions after a search are at most `accuracy_factor`.
pub proof fn lemma_merged_at_most(t: CutListThread, before: Seq<Solution>, found: Seq<Solution>, after: Seq<Solution>)
    requires
        merged_solutions(t, before, found, after),
    ensures
        after.len() <= t.accuracy_factor,
{
}

/// The solutions kept after a step from well-formed solutions are well formed.
proof fn lemma_step_kept_wf(t: CutListThread, ss: Seq<Solution>, td: TileDimensions, out: Seq<Solution>)
    requires
        forall|i: int| 0 <= i < ss.len() ==> (#[trigger] ss[i]).wf(),
        step_kept(t, ss, td, out),
    ensures
        forall|i: int| 0 <= i < out.len() ==> (#[trigger] out[i]).wf(),
{
    let mid = choose|mid: Seq<Solution>| #[trigger] step_outcomes(t, ss, td, mid)
        && out == at_most(keep_first_keys(mid, concatenated_ids(mid)), t.accuracy_factor as nat);
    lemma_step_outcomes_wf(t, ss, td, mid);
    let kept = keep_first_keys(mid, concatenated_ids(mid));
    lemma_keep_first_from(mid, concatenated_ids(mid));
    assert forall|i: int| 0 <= i < out.len() implies (#[trigger] out[i]).wf() by {
        assert(out[i] == kept[i]);
        assert(mid.contains(kept[i]));
    }
}

/// Nothing is kept after a step from no solution.
proof fn lemma_step_kept_empty(t: CutListThread, td: TileDimensions, out: Seq<Solution>)
    requires
        step_kept(t, Seq::empty(), td, out),
    ensures
        out.len() == 0,
{
    let mid = choose|mid: Seq<Solution>| #[trigger] step_outcomes(t, Seq::empty(), td, mid)
        && out == at_most(keep_first_keys(mid, concatenated_ids(mid)), t.accuracy_factor as nat);
    assert(mid.len() == 0);
    assert(keep_first_keys(mid, concatenated_ids(mid)).len() == 0);
}

/// One more step extends what the search keeps.
proof fn lemma_search_step(t: CutListThread, ss: Seq<Solution>, tiles: Seq<TileDimensions>, i: int,
    prev: Seq<Solution>, next: Seq<Solution>)
    requires
        0 <= i < tiles.len(),
        search_outcome(t, ss, tiles.take(i), prev),
        step_in_range(t, prev, tiles[i]),
        step_kept(t, prev, tiles[i], next),
    ensures
        search_outcome(t, ss, tiles.take(i + 1), next),
{
    let tk = tiles.take(i + 1);
    assert(tk.drop_last() =~= tiles.take(i));
    assert(tk.last() == tiles[i]);
    assert(step_kept(t, prev, tk.last(), next));
}

impl Solution {
    /// Drops the sheets on which nothing is placed.
    pub fn drop_unused_sheets(&mut self)
        requires
            old(self).wf(),
        ensures
            views(final(self).mosaics@) == used_sheets(views(old(self).mosaics@)),
            final(self).same_but_mosaics(*old(self)),
            final(self).wf(),
    {
        let ghost pred = |x: MosaicView| x.0.used_area_spec() > 0;
        let ghost orig = views(self.mosaics@);
        let mut src: Vec<crate::model::mosaic::Mosaic> = Vec::new();
        std::mem::swap(&mut src, &mut self.mosaics);
        let mut kept: Vec<crate::model::mosaic::Mosaic> = Vec::new();
        let mut i: usize = 0;
        proof { assert(orig.take(0).filter(pred) =~= Seq::<MosaicView>::empty()) by { reveal(Seq::filter); } }
        while i < src.len()
            invariant
                0 <= i <= src@.len(),
                orig == views(src@),
                all_wf(orig),
                sorted_by_unused(orig),
                pred == (|x: MosaicView| x.0.used_area_spec() > 0),
                views(kept@) == orig.take(i as int).filter(pred),
                all_wf(views(kept@)),
                sorted_by_unused(views(kept@)),
                forall|k: int, q: int| 0 <= k < kept@.len() && i <= q < orig.len()
                    ==> unused_of(#[trigger] views(kept@)[k]) <= unused_of(#[trigger] orig[q]),
                self.same_but_mosaics(*old(self)),
            decreases src@.len() - i,
        {
            let ghost before = views(kept@);
            proof {
                assert(orig.take(i + 1) =~= orig.take(i as int).push(orig[i as int]));
                orig.take(i as int).lemma_filter_push(orig[i as int], pred);
                assert(orig[i as int] == src@[i as int]@);
                assert(orig[i as int].0.wf());
            }
            let used = src[i].get_used_area_immutable();
            if used > 0 {
                kept.push(src[i].copy());
                proof {
                    assert(views(kept@) =~= before.push(orig[i as int]));
                }
            }
            proof {
                assert forall|k: int, q: int| 0 <= k < kept@.len() && i + 1 <= q < orig.len()
                    implies unused_of(#[trigger] views(kept@)[k]) <= unused_of(#[trigger] orig[q]) by {
                    if k < before.len() {
                        assert(views(kept@)[k] == before[k]);
                    } else {
                        assert(views(kept@)[k] == orig[i as int]);
                    }
                }
                assert forall|a: int, b: int| 0 <= a < b < views(kept@).len()
                    implies unused_of(#[trigger] views(kept@)[a]) <= unused_of(#[trigger] views(kept@)[b]) by {
                    if b >= before.len() {
                        assert(views(kept@)[a] == before[a]);
                        assert(unused_of(before[a]) <= unused_of(orig[i as int]));
                    } else {
                        assert(views(kept@)[a] == before[a]);
                        assert(views(kept@)[b] == before[b]);
                    }
                }
                assert forall|k: int| 0 <= k < views(kept@).len() implies (#[trigger] views(kept@)[k]).0.wf() by {
                    if k < before.len() {
                        assert(views(kept@)[k] == before[k]);
                    }
                }
            }
            i = i + 1;
        }
        proof { assert(orig.take(i as int) =~= orig); }
        self.mosaics = kept;
    }
}

impl CutListThread {
    /// Runs the search: from a solution over the stock (none without stock), tries the
    /// panels in order, each step keeping what `step_kept` says; then adds what it kept
    /// to the solutions found before, keeps at most `accuracy_factor` of them, and drops
    /// the sheets on which nothing is placed from the first. Reports progress when
    /// starting panels whose index is a multiple of three. A step whose cuts would leave
    /// 32 bits stops it with an error.
    pub fn compute_solutions(&mut self) -> (r: Result<(), OptimizerError>)
        requires
            forall|i: int| 0 <= i < old(self).all_solutions@.len() ==> (#[trigger] old(self).all_solutions@[i]).wf(),
            stock_sides_nonneg(*old(self)),
        ensures
            search_done(*old(self), *final(self), r is Ok),
            r is Err ==> final(self).status == Status::Error,
            r is Ok ==> final(self).status == Status::Finished,
    {
        let started = current_time_millis();
        let ghost t = *old(self);
        let mut current: Vec<Solution> = Vec::new();
        match &self.stock_solution {
            Some(st) => {
                proof {
                    let stock = st.stock_tile_dimensions@;
                    assert forall|q: int| 0 <= q < stock.len() implies
                        (#[trigger] stock[q]).width >= 0 && stock[q].height >= 0 by {
                        if stock[q].width < 0 || stock[q].height < 0 {
                            assert(stock_has_negative_side(stock));
                        }
                    }
                }
                let init = Solution::from_stock_solution(st);
                current.push(init);
            },
            None => {},
        }
        let ghost start = current@;
        proof {
            match t.stock_solution {
                Some(st) => {
                    assert(start =~= seq![start[0]]);
                },
                None => {},
            }
        }
        let n = self.tiles.len();
        let mut percentage = self.percentage_done;
        let mut k: usize = 0;
        proof { assert(self.tiles@.take(0) =~= Seq::<TileDimensions>::empty()); }
        while k < n
            invariant
                0 <= k <= n,
                n == self.tiles@.len(),
                *self == t,
                t == *old(self),
                forall|i: int| 0 <= i < current@.len() ==> (#[trigger] current@[i]).wf(),
                forall|q: int| 0 <= q < t.all_solutions@.len() ==> (#[trigger] t.all_solutions@[q]).wf(),
                search_outcome(t, start, self.tiles@.take(k as int), current@),
                match t.stock_solution {
                    Some(st) => !stock_has_negative_side(st.stock_tile_dimensions@)
                        && start == seq![start[0]] && started_from_stock(st.stock_tile_dimensions@, start[0]),
                    None => start.len() == 0 && current@.len() == 0,
                },
                k > 0 ==> percentage == percent_of(3 * ((k - 1) / 3), n as int),
                k == 0 ==> percentage == t.percentage_done,
            decreases n - k,
        {
            if k % 3 == 0 {
                let p: u128 = (k as u128 * 100) / (n as u128);
                assert(p <= 100) by (nonlinear_arith)
                    requires k < n, p == (k * 100) / (n as int);
                percentage = p as i32;
            }
            proof {
                assert(self.tiles@.take(k + 1).drop_last() =~= self.tiles@.take(k as int));
            }
            let step = self.process_tile_checked(&current, &self.tiles[k]);
            match step {
                Some(next) => {
                    proof {
                        assert(step_in_range(*self, current@, self.tiles@[k as int]));
                        assert(step_kept(t, current@, self.tiles@[k as int], next@));
                        lemma_step_kept_wf(t, current@, self.tiles@[k as int], next@);
                        lemma_search_step(t, start, self.tiles@, k as int, current@, next@);
                        if current@.len() == 0 {
                            assert(current@ =~= Seq::<Solution>::empty());
                            lemma_step_kept_empty(t, self.tiles@[k as int], next@);
                        }
                    }
                    current = next;
                },
                None => {
                    proof {
                        assert(!step_in_range(t, current@, self.tiles@[k as int]));
                        assert(search_outcome(t, start, self.tiles@.take(k as int), current@));
                        assert(reaches_out_of_range(t, start, self.tiles@));
                    }
                    self.status = Status::Error;
                    self.start_time = Some(started);
                    self.percentage_done = percentage;
                    return Err(OptimizerError::InvalidInput { details: "a cut would leave the coordinate range".to_string() });
                },
            }
            k = k + 1;
        }
        proof { assert(self.tiles@.take(n as int) =~= self.tiles@); }
        let ghost found = current@;
        let ghost before = self.all_solutions@;
        let mut all: Vec<Solution> = Vec::new();
        std::mem::swap(&mut all, &mut self.all_solutions);
        all.append(&mut current);
        if all.len() > self.accuracy_factor {
            all.truncate(self.accuracy_factor);
        }
        let ghost merged = all@;
        proof {
            assert(merged == at_most(before + found, t.accuracy_factor as nat));
            assert forall|i: int| 0 <= i < merged.len() implies (#[trigger] merged[i]).wf() by {
                if i < before.len() {
                    assert(merged[i] == before[i]);
                } else {
                    assert(merged[i] == found[i - before.len()]);
                }
            }
        }
        if all.len() > 0 {
            let mut best = all.remove(0);
            let ghost rest = all@;
            proof {
                assert(best == merged[0]);
                assert(rest =~= merged.subrange(1, merged.len() as int));
            }
            best.drop_unused_sheets();
            all.insert(0, best);
            proof {
                assert forall|i: int| 1 <= i < all@.len() implies all@[i] == merged[i] by {
                    assert(all@[i] == rest[i - 1]);
                }
                assert forall|i: int| 0 <= i < all@.len() implies (#[trigger] all@[i]).wf() by {
                    if i > 0 {
                        assert(all@[i] == merged[i]);
                    }
                }
            }
        }
        proof {
            assert(merged_solutions(t, before, found, all@));
            match t.stock_solution {
                Some(st) => {
                    assert(search_outcome(t, seq![start[0]], t.tiles@, found));
                },
                None => {
                    assert(found =~= Seq::<Solution>::empty());
                },
            }
        }
        self.all_solutions = all;
        self.status = Status::Finished;
        self.start_time = Some(started);
        self.percentage_done = percentage;
        Ok(())
    }

    /// Runs the search after checking its configuration; the outcome sets the status:
    /// `Error` for a refused configuration or a search that fails, `Finished` otherwise
    /// (unless the search was stopped meanwhile).
    pub fn run(&mut self)
        requires
            forall|i: int| 0 <= i < old(self).all_solutions@.len() ==> (#[trigger] old(self).all_solutions@[i]).wf(),
            stock_sides_nonneg(*old(self)),
        ensures
            configuration_problem(*old(self)) is Some ==> *final(self) == (CutListThread { status: Status::Error, ..*old(self) }),
            configuration_problem(*old(self)) is None ==> exists|ok: bool| #[trigger] search_done(*old(self), *final(self), ok)
                && final(self).status == if ok { Status::Finished } else { Status::Error },
    {
        if self.validate_configuration().is_err() {
            self.status = Status::Error;
            return;
        }
        match self.compute_solutions() {
            Ok(()) => {
                if self.status != Status::Terminated {
                    self.status = Status::Finished;
                }
            },
            Err(_) => {
                self.status = Status::Error;
            },
        }
    }
}

} // verus!
