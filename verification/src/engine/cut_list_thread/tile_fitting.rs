//! How the search tries a panel on a sheet: for each candidate free node, a copy of the
//! sheet for an exact fit, or the sheet with the cuts for the panel added.

use vstd::prelude::*;
use crate::engine::cut_list_thread::structs::CutListThread;
use crate::engine::cut_list_thread::core_computation::trim_candidates;
use crate::engine::cut_list_thread::cutting_strategies::{hv_cuts, vh_cuts, width_cut_fits, height_cut_fits};
use crate::engine::cutting::CutDirection;
use crate::error::OptimizerError;
use crate::model::mosaic::Mosaic;
use crate::model::placement::first_match;
use crate::model::tile::{Tile, TileDimensions};
use crate::model::tile_node::{TileNode, lemma_wf_sides};

verus! {

/// `n` is a copy of `c` as a leaf: its rectangle, panel identifier and flags, without
/// children and with nothing cached.
pub open spec fn leaf_copy(c: TileNode, n: TileNode) -> bool {
    &&& n.tile == c.tile
    &&& n.external_id == c.external_id
    &&& n.is_final == c.is_final
    &&& n.is_rotated == c.is_rotated
    &&& n.child1 is None
    &&& n.child2 is None
    &&& !n.is_area_totally_used
    &&& n.totally_used_area == 0
}

/// `n` is `o` with each child of `o` copied as a leaf; the other fields of `n` as before.
pub open spec fn children_copied(o: TileNode, before: TileNode, n: TileNode) -> bool {
    &&& n.id == before.id
    &&& n.tile == before.tile
    &&& n.is_final == before.is_final
    &&& n.is_rotated == before.is_rotated
    &&& n.external_id == before.external_id
    &&& n.is_area_totally_used == before.is_area_totally_used
    &&& n.totally_used_area == before.totally_used_area
    &&& match o.child1 {
        Some(c) => n.child1 matches Some(d) && leaf_copy(*c, *d),
        None => n.child1 == before.child1,
    }
    &&& match o.child2 {
        Some(c) => n.child2 matches Some(d) && leaf_copy(*c, *d),
        None => n.child2 == before.child2,
    }
}

/// `n` is the copy that the search makes of a layout `o`: a fresh node with the rectangle
/// of `o` (no panel, nothing cached) whose children are leaf copies of those of `o`; the
/// children's own children are not copied.
pub open spec fn shallow_copy(o: TileNode, n: TileNode) -> bool {
    &&& n.tile == o.tile
    &&& !n.is_final
    &&& !n.is_rotated
    &&& n.external_id == -1
    &&& !n.is_area_totally_used
    &&& n.totally_used_area == 0
    &&& match o.child1 {
        Some(c) => n.child1 matches Some(d) && leaf_copy(*c, *d),
        None => n.child1 is None,
    }
    &&& match o.child2 {
        Some(c) => n.child2 matches Some(d) && leaf_copy(*c, *d),
        None => n.child2 is None,
    }
}

/// A node with rectangle `t` is in the shallow copy of `o`: `o` itself or one of its
/// children has that rectangle.
pub open spec fn in_shallow_copy(o: TileNode, t: Tile) -> bool {
    ||| o.tile == t
    ||| (o.child1 matches Some(c) && c.tile == t)
    ||| (o.child2 matches Some(c) && c.tile == t)
}

/// `nm` is the sheet `m` with its layout replaced by a shallow copy.
pub open spec fn shallow_result(m: Mosaic, nm: Mosaic) -> bool {
    &&& shallow_copy(m.root_tile_node, nm.root_tile_node)
    &&& nm.cuts@ == m.cuts@
    &&& nm.material@ == m.material@
    &&& nm.stock_id == m.stock_id
    &&& nm.orientation == m.orientation
    &&& nm.kerf_width == m.kerf_width
}

/// `nm` is the sheet `m` with the cuts for the panel in candidate `c` appended, width
/// first (`split_hv`) or height first (`split_vh`); its layout stays as it is.
pub open spec fn cuts_added(m: Mosaic, nm: Mosaic, c: TileNode, td: TileDimensions, width_first: bool) -> bool {
    let extra = nm.cuts@.subrange(m.cuts@.len() as int, nm.cuts@.len() as int);
    &&& m.cuts@.len() <= nm.cuts@.len()
    &&& nm.cuts@.subrange(0, m.cuts@.len() as int) == m.cuts@
    &&& (if width_first {
        hv_cuts(c, td.width as int, td.height as int, extra)
    } else {
        vh_cuts(c, td.width as int, td.height as int, extra)
    })
    &&& nm.root_tile_node == m.root_tile_node
    &&& nm.material@ == m.material@
    &&& nm.stock_id == m.stock_id
    &&& nm.orientation == m.orientation
    &&& nm.kerf_width == m.kerf_width
}

/// The cuts width first are tried unless the vertical direction comes first.
pub open spec fn tries_width_first(first: CutDirection) -> bool {
    first != CutDirection::Vertical
}

/// The cuts height first are tried unless the horizontal direction comes first.
pub open spec fn tries_height_first(first: CutDirection) -> bool {
    first != CutDirection::Horizontal
}

/// The coordinates of the cuts tried in candidate `c` stay in 32 bits.
pub open spec fn cuts_in_range(c: TileNode, td: TileDimensions, thickness: int, first: CutDirection) -> bool {
    let t = c.tile;
    let w = td.width as int;
    let h = td.height as int;
    &&& tries_width_first(first) ==> {
        &&& c.w() > w ==> width_cut_fits(t, w, thickness)
        &&& c.w() > w ==> height_cut_fits(Tile { x1: t.x1, x2: (t.x1 + w) as i32, y1: t.y1, y2: t.y2 }, h, thickness)
        &&& c.child1 matches Some(d) ==> height_cut_fits(d.tile, h, thickness)
        &&& c.w() <= w ==> height_cut_fits(t, h, thickness)
    }
    &&& tries_height_first(first) ==> {
        &&& c.h() > h ==> height_cut_fits(t, h, thickness)
        &&& c.h() > h ==> width_cut_fits(Tile { x1: t.x1, x2: t.x2, y1: t.y1, y2: (t.y1 + h) as i32 }, w, thickness)
        &&& c.child1 matches Some(d) ==> width_cut_fits(d.tile, w, thickness)
        &&& c.h() <= h ==> width_cut_fits(t, w, thickness)
    }
}

/// The candidate has the panel's size.
pub open spec fn exact_size(c: TileNode, td: TileDimensions) -> bool {
    c.w() == td.width && c.h() == td.height
}

/// How many sheets a candidate gives: for an exact fit one if the search finds it again
/// in the shallow copy, else one per order of cuts tried.
pub open spec fn thread_count(m: Mosaic, c: TileNode, td: TileDimensions, first: CutDirection) -> nat {
    if exact_size(c, td) {
        if in_shallow_copy(m.root_tile_node, c.tile) { 1 } else { 0 }
    } else if first == CutDirection::Both {
        2
    } else {
        1
    }
}

/// `out` is what a candidate gives: the shallow copy of the sheet for an exact fit;
/// otherwise the sheet with cuts, width first, height first, or both in that order.
pub open spec fn thread_candidate_results(m: Mosaic, c: TileNode, td: TileDimensions, first: CutDirection, out: Seq<Mosaic>) -> bool {
    &&& out.len() == thread_count(m, c, td, first)
    &&& exact_size(c, td) && out.len() == 1 ==> shallow_result(m, out[0])
    &&& !exact_size(c, td) && first == CutDirection::Both ==> cuts_added(m, out[0], c, td, true) && cuts_added(m, out[1], c, td, false)
    &&& !exact_size(c, td) && first == CutDirection::Horizontal ==> cuts_added(m, out[0], c, td, true)
    &&& !exact_size(c, td) && first == CutDirection::Vertical ==> cuts_added(m, out[0], c, td, false)
}

/// The number of sheets that the candidates give together.
pub open spec fn thread_total(m: Mosaic, cands: Seq<TileNode>, td: TileDimensions, first: CutDirection) -> nat
    decreases cands.len(),
{
    if cands.len() == 0 {
        0
    } else {
        thread_total(m, cands.drop_last(), td, first) + thread_count(m, cands.last(), td, first)
    }
}

/// `out` is what the candidates give, one after the other.
pub open spec fn thread_results(m: Mosaic, cands: Seq<TileNode>, td: TileDimensions, first: CutDirection, out: Seq<Mosaic>) -> bool
    decreases cands.len(),
{
    if cands.len() == 0 {
        out.len() == 0
    } else {
        let k = thread_count(m, cands.last(), td, first);
        &&& out.len() == thread_total(m, cands, td, first)
        &&& thread_results(m, cands.drop_last(), td, first, out.subrange(0, out.len() - k))
        &&& thread_candidate_results(m, cands.last(), td, first, out.subrange(out.len() - k, out.len() as int))
    }
}

/// The cuts stay in range in every candidate of the sheet that is no exact fit.
pub open spec fn sheet_cuts_in_range(t: CutListThread, m: Mosaic, td: TileDimensions) -> bool {
    let cands = trim_candidates(m.root_tile_node, td.width as int, td.height as int, t.min_trim_dimension as int);
    forall|k: int| 0 <= k < cands.len() && !exact_size(#[trigger] cands[k], td)
        ==> cuts_in_range(cands[k], td, t.cut_thickness as int, t.first_cut_orientation)
}

/// The grain of the panel may be ignored on this sheet.
pub open spec fn grain_free(t: CutListThread, m: Mosaic, td: TileDimensions) -> bool {
    !t.consider_grain_direction || m.orientation == 0 || td.orientation == 0
}

/// The candidates of a sheet for a panel of the given dimensions.
pub open spec fn sheet_candidates(t: CutListThread, m: Mosaic, d: TileDimensions) -> Seq<TileNode> {
    trim_candidates(m.root_tile_node, d.width as int, d.height as int, t.min_trim_dimension as int)
}

/// The panel as the search tries it when the grain is kept: turned when the sheet's
/// orientation differs from the panel's.
pub open spec fn grain_oriented(m: Mosaic, td: TileDimensions) -> TileDimensions {
    if m.orientation != td.orientation { td.rotate90_spec() } else { td }
}

/// The cuts stay in range for every way in which the search tries the panel on the sheet.
pub open spec fn add_in_range(t: CutListThread, m: Mosaic, td: TileDimensions) -> bool {
    &&& grain_free(t, m, td) ==> sheet_cuts_in_range(t, m, td)
    &&& grain_free(t, m, td) && td.width != td.height ==> sheet_cuts_in_range(t, m, td.rotate90_spec())
    &&& !grain_free(t, m, td) ==> sheet_cuts_in_range(t, m, grain_oriented(m, td))
}

/// How many sheets trying the panel on the sheet gives.
pub open spec fn add_count(t: CutListThread, m: Mosaic, td: TileDimensions) -> nat {
    let first = t.first_cut_orientation;
    if grain_free(t, m, td) {
        thread_total(m, sheet_candidates(t, m, td), td, first)
            + if td.width != td.height {
                thread_total(m, sheet_candidates(t, m, td.rotate90_spec()), td.rotate90_spec(), first)
            } else {
                0
            }
    } else {
        thread_total(m, sheet_candidates(t, m, grain_oriented(m, td)), grain_oriented(m, td), first)
    }
}

/// `added` is what trying the panel on the sheet gives: as it is and, unless square,
/// turned, when the grain may be ignored; otherwise once, as `grain_oriented` says.
pub open spec fn add_results_ok(t: CutListThread, m: Mosaic, td: TileDimensions, added: Seq<Mosaic>) -> bool {
    let first = t.first_cut_orientation;
    let rt = td.rotate90_spec();
    &&& added.len() == add_count(t, m, td)
    &&& if grain_free(t, m, td) {
        if td.width != td.height {
            let k = thread_total(m, sheet_candidates(t, m, td), td, first) as int;
            &&& thread_results(m, sheet_candidates(t, m, td), td, first, added.subrange(0, k))
            &&& thread_results(m, sheet_candidates(t, m, rt), rt, first, added.subrange(k, added.len() as int))
        } else {
            thread_results(m, sheet_candidates(t, m, td), td, first, added)
        }
    } else {
        thread_results(m, sheet_candidates(t, m, grain_oriented(m, td)), grain_oriented(m, td), first, added)
    }
}

/// The results of the candidates are as many as `thread_total` says.
pub proof fn lemma_thread_results_len(m: Mosaic, cands: Seq<TileNode>, td: TileDimensions, first: CutDirection, out: Seq<Mosaic>)
    requires
        thread_results(m, cands, td, first, out),
    ensures
        out.len() == thread_total(m, cands, td, first),
{
}

/// A shallow copy of a well-formed layout is well formed.
pub proof fn lemma_shallow_copy_wf(o: TileNode, n: TileNode)
    requires
        o.wf(),
        shallow_copy(o, n),
    ensures
        n.wf(),
{
    match (o.child1, n.child1) {
        (Some(c), Some(d)) => {
            assert(c.wf());
            assert(d.wf());
        },
        _ => {},
    }
    match (o.child2, n.child2) {
        (Some(c), Some(d)) => {
            assert(c.wf());
            assert(d.wf());
        },
        _ => {},
    }
}

/// Every sheet that the candidates give is well formed when the sheet tried is.
pub proof fn lemma_thread_results_wf(m: Mosaic, cands: Seq<TileNode>, td: TileDimensions, first: CutDirection, out: Seq<Mosaic>)
    requires
        m.wf(),
        thread_results(m, cands, td, first, out),
    ensures
        forall|k: int| 0 <= k < out.len() ==> (#[trigger] out[k]).wf(),
    decreases cands.len(),
{
    if cands.len() > 0 {
        let c = cands.last();
        let k = thread_count(m, c, td, first);
        let prev = out.subrange(0, out.len() - k);
        let tail = out.subrange(out.len() - k, out.len() as int);
        lemma_thread_results_wf(m, cands.drop_last(), td, first, prev);
        assert forall|q: int| 0 <= q < out.len() implies (#[trigger] out[q]).wf() by {
            if q < out.len() - k {
                assert(out[q] == prev[q]);
            } else {
                assert(out[q] == tail[q - (out.len() - k)]);
                if exact_size(c, td) {
                    lemma_shallow_copy_wf(m.root_tile_node, tail[q - (out.len() - k)].root_tile_node);
                }
            }
        }
    }
}

/// Every sheet that trying the panel gives is well formed when the sheet tried is.
pub proof fn lemma_add_results_wf(t: CutListThread, m: Mosaic, td: TileDimensions, added: Seq<Mosaic>)
    requires
        m.wf(),
        add_results_ok(t, m, td, added),
    ensures
        forall|k: int| 0 <= k < added.len() ==> (#[trigger] added[k]).wf(),
{
    let first = t.first_cut_orientation;
    let rt = td.rotate90_spec();
    if grain_free(t, m, td) && td.width != td.height {
        let k = thread_total(m, sheet_candidates(t, m, td), td, first) as int;
        let a = added.subrange(0, k);
        let b = added.subrange(k, added.len() as int);
        lemma_thread_results_wf(m, sheet_candidates(t, m, td), td, first, a);
        lemma_thread_results_wf(m, sheet_candidates(t, m, rt), rt, first, b);
        assert forall|q: int| 0 <= q < added.len() implies (#[trigger] added[q]).wf() by {
            if q < k {
                assert(added[q] == a[q]);
            } else {
                assert(added[q] == b[q - k]);
            }
        }
    } else if grain_free(t, m, td) {
        lemma_thread_results_wf(m, sheet_candidates(t, m, td), td, first, added);
    } else {
        lemma_thread_results_wf(m, sheet_candidates(t, m, grain_oriented(m, td)), grain_oriented(m, td), first, added);
    }
}

/// A shallow copy holds a node with rectangle `t` exactly when `in_shallow_copy` says so.
proof fn lemma_shallow_match(o: TileNode, n: TileNode, t: Tile)
    requires
        shallow_copy(o, n),
    ensures
        (first_match(n, t) is Some) == in_shallow_copy(o, t),
{
    match n.child1 {
        Some(d) => { assert(first_match(*d, t) == (if d.tile == t { Some(*d) } else { None::<TileNode> })); },
        None => {},
    }
    match n.child2 {
        Some(d) => { assert(first_match(*d, t) == (if d.tile == t { Some(*d) } else { None::<TileNode> })); },
        None => {},
    }
}

impl CutListThread {
    /// Copies each child of `original` into `copy` as a leaf.
    fn copy_children(&self, original: &TileNode, copy: &mut TileNode, target: &TileNode) -> (r: Result<(), OptimizerError>)
        ensures
            r is Ok,
            children_copied(*original, *old(copy), *final(copy)),
    {
        if let Some(child1) = &original.child1 {
            let mut child1_copy = TileNode::new(child1.tile.x1, child1.tile.x2, child1.tile.y1, child1.tile.y2);
            child1_copy.external_id = child1.external_id;
            child1_copy.is_final = child1.is_final;
            child1_copy.is_rotated = child1.is_rotated;
            copy.child1 = Some(Box::new(child1_copy));
        }
        if let Some(child2) = &original.child2 {
            let mut child2_copy = TileNode::new(child2.tile.x1, child2.tile.x2, child2.tile.y1, child2.tile.y2);
            child2_copy.external_id = child2.external_id;
            child2_copy.is_final = child2.is_final;
            child2_copy.is_rotated = child2.is_rotated;
            copy.child2 = Some(Box::new(child2_copy));
        }
        Ok(())
    }

    /// A shallow copy of the layout `original` (see `shallow_copy`).
    pub fn copy_tile_node(&self, original: &TileNode, target: &TileNode) -> (r: Result<TileNode, OptimizerError>)
        ensures
            r matches Ok(n) && shallow_copy(*original, n),
    {
        let mut root_copy = TileNode::new(original.tile.x1, original.tile.x2, original.tile.y1, original.tile.y2);
        match self.copy_children(original, &mut root_copy, target) {
            Ok(()) => Ok(root_copy),
            Err(e) => Err(e),
        }
    }

    /// A copy of the first node in pre-order with the given corners.
    fn find_node_by_coordinates(&self, node: &TileNode, x1: i32, y1: i32, x2: i32, y2: i32) -> (r: Option<TileNode>)
        ensures
            r == first_match(*node, Tile { x1, x2, y1, y2 }),
        decreases node,
    {
        if node.tile.x1 == x1 && node.tile.y1 == y1 && node.tile.x2 == x2 && node.tile.y2 == y2 {
            return Some(node.duplicate());
        }
        if let Some(child1) = &node.child1 {
            if let Some(found) = self.find_node_by_coordinates(child1, x1, y1, x2, y2) {
                return Some(found);
            }
        }
        if let Some(child2) = &node.child2 {
            if let Some(found) = self.find_node_by_coordinates(child2, x1, y1, x2, y2) {
                return Some(found);
            }
        }
        None
    }

    /// A copy of the node of `root_copy` with the rectangle of `original_target`.
    pub fn find_corresponding_node(&self, root_copy: &TileNode, original_target: &TileNode) -> (r: Option<TileNode>)
        ensures
            r == first_match(*root_copy, original_target.tile),
    {
        self.find_node_by_coordinates(
            root_copy,
            original_target.tile.x1,
            original_target.tile.y1,
            original_target.tile.x2,
            original_target.tile.y2,
        )
    }

    /// Adds to `results` the sheet with the cuts for the panel in `candidate`, width first.
    pub fn try_horizontal_first_cut(
        &self,
        tile_dimensions: &TileDimensions,
        mosaic: &Mosaic,
        candidate: &TileNode,
        results: &mut Vec<Mosaic>,
        cut_thickness: i32,
    ) -> (r: Result<(), OptimizerError>)
        requires
            candidate.wf(),
            cuts_in_range(*candidate, *tile_dimensions, cut_thickness as int, CutDirection::Horizontal),
        ensures
            r is Ok,
            final(results)@.len() == old(results)@.len() + 1,
            final(results)@.subrange(0, old(results)@.len() as int) == old(results)@,
            cuts_added(*mosaic, final(results)@.last(), *candidate, *tile_dimensions, true),
    {
        proof { lemma_wf_sides(*candidate); }
        let mut new_mosaic = mosaic.copy();
        let cuts = match self.split_hv(candidate, tile_dimensions, cut_thickness) {
            Ok(c) => c,
            Err(e) => { return Err(e); },
        };
        let ghost extra = cuts@;
        new_mosaic.add_cuts(cuts);
        proof {
            assert(new_mosaic.cuts@.subrange(0, mosaic.cuts@.len() as int) =~= mosaic.cuts@);
            assert(new_mosaic.cuts@.subrange(mosaic.cuts@.len() as int, new_mosaic.cuts@.len() as int) =~= extra);
        }
        let ghost before = results@;
        results.push(new_mosaic);
        proof { assert(results@.subrange(0, before.len() as int) =~= before); }
        Ok(())
    }

    /// Adds to `results` the sheet with the cuts for the panel in `candidate`, height first.
    pub fn try_vertical_first_cut(
        &self,
        tile_dimensions: &TileDimensions,
        mosaic: &Mosaic,
        candidate: &TileNode,
        results: &mut Vec<Mosaic>,
        cut_thickness: i32,
    ) -> (r: Result<(), OptimizerError>)
        requires
            candidate.wf(),
            cuts_in_range(*candidate, *tile_dimensions, cut_thickness as int, CutDirection::Vertical),
        ensures
            r is Ok,
            final(results)@.len() == old(results)@.len() + 1,
            final(results)@.subrange(0, old(results)@.len() as int) == old(results)@,
            cuts_added(*mosaic, final(results)@.last(), *candidate, *tile_dimensions, false),
    {
        proof { lemma_wf_sides(*candidate); }
        let mut new_mosaic = mosaic.copy();
        let cuts = match self.split_vh(candidate, tile_dimensions, cut_thickness) {
            Ok(c) => c,
            Err(e) => { return Err(e); },
        };
        let ghost extra = cuts@;
        new_mosaic.add_cuts(cuts);
        proof {
            assert(new_mosaic.cuts@.subrange(0, mosaic.cuts@.len() as int) =~= mosaic.cuts@);
            assert(new_mosaic.cuts@.subrange(mosaic.cuts@.len() as int, new_mosaic.cuts@.len() as int) =~= extra);
        }
        let ghost before = results@;
        results.push(new_mosaic);
        proof { assert(results@.subrange(0, before.len() as int) =~= before); }
        Ok(())
    }

    /// Adds to `results` the sheets with the cuts for the panel in `candidate`, in the
    /// orders that the search's first cut direction allows (width first before height
    /// first).
    pub fn fit_tile_with_cuts(
        &self,
        tile_dimensions: &TileDimensions,
        mosaic: &Mosaic,
        candidate: &TileNode,
        results: &mut Vec<Mosaic>,
        cut_thickness: i32,
    ) -> (r: Result<(), OptimizerError>)
        requires
            candidate.wf(),
            !exact_size(*candidate, *tile_dimensions),
            cuts_in_range(*candidate, *tile_dimensions, cut_thickness as int, self.first_cut_orientation),
        ensures
            r is Ok,
            old(results)@.len() <= final(results)@.len(),
            final(results)@.subrange(0, old(results)@.len() as int) == old(results)@,
            thread_candidate_results(*mosaic, *candidate, *tile_dimensions, self.first_cut_orientation,
                final(results)@.subrange(old(results)@.len() as int, final(results)@.len() as int)),
    {
        let ghost before = results@;
        match self.first_cut_orientation {
            CutDirection::Both => {
                let _ = self.try_horizontal_first_cut(tile_dimensions, mosaic, candidate, results, cut_thickness);
                let ghost mid = results@;
                let _ = self.try_vertical_first_cut(tile_dimensions, mosaic, candidate, results, cut_thickness);
                proof {
                    assert(results@.subrange(0, before.len() as int) =~= before);
                    let tail = results@.subrange(before.len() as int, results@.len() as int);
                    assert(tail[0] == mid.last());
                    assert(tail[1] == results@.last());
                }
            },
            CutDirection::Horizontal => {
                let _ = self.try_horizontal_first_cut(tile_dimensions, mosaic, candidate, results, cut_thickness);
                proof {
                    let tail = results@.subrange(before.len() as int, results@.len() as int);
                    assert(tail[0] == results@.last());
                }
            },
            CutDirection::Vertical => {
                let _ = self.try_vertical_first_cut(tile_dimensions, mosaic, candidate, results, cut_thickness);
                proof {
                    let tail = results@.subrange(before.len() as int, results@.len() as int);
                    assert(tail[0] == results@.last());
                }
            },
        }
        Ok(())
    }

    /// Adds to `results` what each candidate node of the sheet gives for the panel (see
    /// `thread_results`), the candidates in pre-order.
    pub fn fit_tile(&self, tile_dimensions: &TileDimensions, mosaic: &Mosaic, results: &mut Vec<Mosaic>, cut_thickness: i32)
        -> (r: Result<(), OptimizerError>)
        requires
            mosaic.wf(),
            cut_thickness == self.cut_thickness,
            sheet_cuts_in_range(*self, *mosaic, *tile_dimensions),
        ensures
            r is Ok,
            old(results)@.len() <= final(results)@.len(),
            final(results)@.subrange(0, old(results)@.len() as int) == old(results)@,
            thread_results(*mosaic,
                trim_candidates(mosaic.root_tile_node, tile_dimensions.width as int, tile_dimensions.height as int, self.min_trim_dimension as int),
                *tile_dimensions, self.first_cut_orientation,
                final(results)@.subrange(old(results)@.len() as int, final(results)@.len() as int)),
    {
        let ghost start = results@;
        let mut candidates: Vec<TileNode> = Vec::new();
        self.find_candidates(tile_dimensions.width, tile_dimensions.height, &mosaic.root_tile_node, &mut candidates);
        let ghost cands = candidates@;
        proof {
            assert(cands =~= trim_candidates(mosaic.root_tile_node, tile_dimensions.width as int, tile_dimensions.height as int, self.min_trim_dimension as int));
            lemma_trim_candidates_wf(mosaic.root_tile_node, tile_dimensions.width as int, tile_dimensions.height as int, self.min_trim_dimension as int);
        }
        let mut i: usize = 0;
        while i < candidates.len()
            invariant
                mosaic.wf(),
                0 <= i <= candidates@.len(),
                cands == candidates@,
                cands == trim_candidates(mosaic.root_tile_node, tile_dimensions.width as int, tile_dimensions.height as int, self.min_trim_dimension as int),
                forall|k: int| 0 <= k < cands.len() ==> (#[trigger] cands[k]).wf(),
                cut_thickness == self.cut_thickness,
                sheet_cuts_in_range(*self, *mosaic, *tile_dimensions),
                start.len() <= results@.len(),
                results@.subrange(0, start.len() as int) == start,
                thread_results(*mosaic, cands.subrange(0, i as int), *tile_dimensions, self.first_cut_orientation,
                    results@.subrange(start.len() as int, results@.len() as int)),
            decreases candidates@.len() - i,
        {
            let candidate = &candidates[i];
            assert(cands[i as int] == *candidate);
            let ghost before = results@;
            proof { lemma_wf_sides(*candidate); }
            if candidate.get_width() == tile_dimensions.width && candidate.get_height() == tile_dimensions.height {
                let root_copy = match self.copy_tile_node(&mosaic.root_tile_node, candidate) {
                    Ok(n) => n,
                    Err(e) => { return Err(e); },
                };
                proof { lemma_shallow_match(mosaic.root_tile_node, root_copy, candidate.tile); }
                if let Some(_target) = self.find_corresponding_node(&root_copy, candidate) {
                    let mut new_mosaic = mosaic.copy();
                    new_mosaic.set_root_tile_node(root_copy);
                    results.push(new_mosaic);
                }
            } else {
                let _ = self.fit_tile_with_cuts(tile_dimensions, mosaic, candidate, results, cut_thickness);
            }
            proof {
                let sub = cands.subrange(0, i + 1);
                assert(sub.drop_last() =~= cands.subrange(0, i as int));
                assert(sub.last() == *candidate);
                let k = thread_count(*mosaic, *candidate, *tile_dimensions, self.first_cut_orientation);
                let all = results@.subrange(start.len() as int, results@.len() as int);
                let prev = before.subrange(start.len() as int, before.len() as int);
                assert(results@.len() == before.len() + k);
                assert(all.subrange(0, all.len() - k) =~= prev);
                assert(all.subrange(all.len() - k, all.len() as int) =~= results@.subrange(before.len() as int, results@.len() as int));
                assert(results@.subrange(0, start.len() as int) =~= start) by {
                    assert(results@.subrange(0, before.len() as int) == before);
                }
                assert(thread_total(*mosaic, sub, *tile_dimensions, self.first_cut_orientation)
                    == thread_total(*mosaic, cands.subrange(0, i as int), *tile_dimensions, self.first_cut_orientation) + k);
                assert(thread_results(*mosaic, sub, *tile_dimensions, self.first_cut_orientation, all));
            }
            i = i + 1;
        }
        proof { assert(cands.subrange(0, cands.len() as int) =~= cands); }
        Ok(())
    }

    /// Adds to `results` what the panel gives on the sheet: as it is and, unless square,
    /// turned, when the grain may be ignored; otherwise once, turned when the sheet's
    /// orientation differs from the panel's.
    pub fn add_tile_to_mosaic(&self, tile_dimensions: &TileDimensions, mosaic: &Mosaic, results: &mut Vec<Mosaic>)
        -> (r: Result<(), OptimizerError>)
        requires
            mosaic.wf(),
            add_in_range(*self, *mosaic, *tile_dimensions),
        ensures
            r is Ok,
            old(results)@.len() <= final(results)@.len(),
            final(results)@.subrange(0, old(results)@.len() as int) == old(results)@,
            add_results_ok(*self, *mosaic, *tile_dimensions,
                final(results)@.subrange(old(results)@.len() as int, final(results)@.len() as int)),
    {
        let ghost start = results@;
        if !self.consider_grain_direction || mosaic.get_orientation() == 0 || tile_dimensions.orientation == 0 {
            let _ = self.fit_tile(tile_dimensions, mosaic, results, self.cut_thickness);
            if !tile_dimensions.is_square() {
                let ghost mid = results@;
                let rotated_tile = tile_dimensions.rotate90();
                let _ = self.fit_tile(&rotated_tile, mosaic, results, self.cut_thickness);
                proof {
                    let added = results@.subrange(start.len() as int, results@.len() as int);
                    let k = mid.len() - start.len();
                    assert(added.subrange(0, k) =~= mid.subrange(start.len() as int, mid.len() as int));
                    assert(added.subrange(k, added.len() as int) =~= results@.subrange(mid.len() as int, results@.len() as int));
                    assert(results@.subrange(0, start.len() as int) =~= start) by {
                        assert(results@.subrange(0, mid.len() as int) == mid);
                        assert(mid.subrange(0, start.len() as int) == start);
                    }
                    let td = *tile_dimensions;
                    let t = *self;
                    lemma_thread_results_len(*mosaic, sheet_candidates(t, *mosaic, td), td, t.first_cut_orientation, added.subrange(0, k));
                    lemma_thread_results_len(*mosaic, sheet_candidates(t, *mosaic, td.rotate90_spec()), td.rotate90_spec(),
                        t.first_cut_orientation, added.subrange(k, added.len() as int));
                }
            } else {
                proof {
                    let td = *tile_dimensions;
                    let t = *self;
                    lemma_thread_results_len(*mosaic, sheet_candidates(t, *mosaic, td), td, t.first_cut_orientation,
                        results@.subrange(start.len() as int, results@.len() as int));
                }
            }
        } else {
            let tile_to_use = if mosaic.get_orientation() != tile_dimensions.orientation {
                tile_dimensions.rotate90()
            } else {
                tile_dimensions.duplicate()
            };
            let _ = self.fit_tile(&tile_to_use, mosaic, results, self.cut_thickness);
            proof {
                let td = *tile_dimensions;
                let t = *self;
                lemma_thread_results_len(*mosaic, sheet_candidates(t, *mosaic, grain_oriented(*mosaic, td)), grain_oriented(*mosaic, td),
                    t.first_cut_orientation, results@.subrange(start.len() as int, results@.len() as int));
            }
        }
        Ok(())
    }
}

/// Every candidate of a well-formed layout is well formed.
proof fn lemma_trim_candidates_wf(n: TileNode, w: int, h: int, trim: int)
    requires
        n.wf(),
    ensures
        forall|k: int| 0 <= k < trim_candidates(n, w, h, trim).len() ==> (#[trigger] trim_candidates(n, w, h, trim)[k]).wf(),
    decreases n,
{
    if !(n.is_final || n.w() < w || n.h() < h) && !n.is_leaf() {
        let l1 = match n.child1 { Some(c) => trim_candidates(*c, w, h, trim), None => Seq::<TileNode>::empty() };
        let l2 = match n.child2 { Some(c) => trim_candidates(*c, w, h, trim), None => Seq::<TileNode>::empty() };
        match n.child1 { Some(c) => { lemma_trim_candidates_wf(*c, w, h, trim); }, None => {} }
        match n.child2 { Some(c) => { lemma_trim_candidates_wf(*c, w, h, trim); }, None => {} }
        assert(trim_candidates(n, w, h, trim) == l1 + l2);
        assert forall|k: int| 0 <= k < (l1 + l2).len() implies (#[trigger] (l1 + l2)[k]).wf() by {
            if k < l1.len() {
                assert((l1 + l2)[k] == l1[k]);
            } else {
                assert((l1 + l2)[k] == l2[k - l1.len()]);
            }
        }
    }
}

} // verus!
