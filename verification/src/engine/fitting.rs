//! Fitting one panel into a sheet: the candidate free nodes, and for each of them the
//! copy of the sheet with the panel placed there, by marking the node or by cutting it.

use vstd::prelude::*;
use crate::engine::cutting::{CuttingEngine, CutDirection, CutResult, is_fresh_free, vertical_cut, horizontal_cut};
use crate::error::CuttingError;
use crate::model::cut::Cut;
use crate::model::mosaic::{Mosaic, oriented};
use crate::model::tile::{Tile, TileDimensions, fits_spec};
use crate::model::solution::Solution;
use crate::model::tile_node::{TileNode, lemma_wf_sides, encloses};
use crate::model::placement::{
    node_placed, placement_cut_seq, placement_cuts, split_at_x, split_at_y, is_panel_node, same_but_children,
    lemma_free_leaf_inside,
};

verus! {

/// The outcome of trying to place a panel into one candidate node of a sheet.
#[derive(Debug)]
pub struct PlacementResult {
    pub placed: bool,
    pub cuts_made: usize,
    /// The area that the placed panel covers (0 when nothing was placed).
    pub used_area: i64,
    /// The sheet with the panel placed, when it was placed.
    pub new_mosaic: Option<Mosaic>,
}

/// The first node in pre-order with identifier `id`.
pub open spec fn first_with_id(n: TileNode, id: i32) -> Option<TileNode>
    decreases n,
{
    if n.id == id {
        Some(n)
    } else {
        match n.child1 {
            Some(c) => match first_with_id(*c, id) {
                Some(f) => Some(f),
                None => match n.child2 { Some(d) => first_with_id(*d, id), None => None },
            },
            None => match n.child2 { Some(d) => first_with_id(*d, id), None => None },
        }
    }
}

/// A free leaf is a candidate for a panel of `width` x `height` when it is at least as
/// large along both axes, and along each axis either exactly as large or larger by at
/// least `min_trim`.
pub open spec fn trim_ok(n: TileNode, width: int, height: int, min_trim: int) -> bool {
    &&& n.w() >= width
    &&& n.h() >= height
    &&& (n.w() == width || n.w() >= min_trim + width)
    &&& (n.h() == height || n.h() >= min_trim + height)
}

/// The candidate nodes of a tree for a panel, in pre-order.
pub open spec fn tree_candidates(root: TileNode, width: int, height: int, min_trim: int) -> Seq<TileNode> {
    root.free_leaves().filter(|n: TileNode| trim_ok(n, width, height, min_trim))
}

/// `n` is the tree `o` in which the first node in pre-order with identifier `id` was
/// changed as `op` says, the change making the cuts `cuts`; false when no node has
/// that identifier.
pub open spec fn changed_at_id(
    o: TileNode,
    n: TileNode,
    id: i32,
    op: spec_fn(TileNode, TileNode, Seq<Cut>) -> bool,
    cuts: Seq<Cut>,
) -> bool
    decreases o,
{
    if o.id == id {
        op(o, n, cuts)
    } else {
        let in_first = match o.child1 { Some(c1) => first_with_id(*c1, id) is Some, None => false };
        if in_first {
            match o.child1 {
                Some(c1) => {
                    &&& same_but_children(o, n)
                    &&& n.child2 == o.child2
                    &&& match n.child1 {
                        Some(d1) => changed_at_id(*c1, *d1, id, op, cuts),
                        None => false,
                    }
                },
                None => false,
            }
        } else {
            match o.child2 {
                Some(c2) => {
                    &&& same_but_children(o, n)
                    &&& n.child1 == o.child1
                    &&& match n.child2 {
                        Some(d2) => changed_at_id(*c2, *d2, id, op, cuts),
                        None => false,
                    }
                },
                None => false,
            }
        }
    }
}

/// Marking a node as holding panel `ext`, not turned, without cuts.
pub open spec fn mark_op(ext: i32) -> spec_fn(TileNode, TileNode, Seq<Cut>) -> bool {
    |o: TileNode, n: TileNode, cuts: Seq<Cut>|
        n == (TileNode { is_final: true, external_id: ext, is_rotated: false, ..o }) && cuts.len() == 0
}

/// When a node must be cut along both axes, whether the horizontal cut comes first: when
/// the vertical direction is asked for first, or, for `Both`, when the node is at least
/// as much too wide as it is too high.
pub open spec fn horizontal_first(o: TileNode, tw: int, th: int, first: CutDirection) -> bool {
    match first {
        CutDirection::Horizontal => false,
        CutDirection::Vertical => true,
        CutDirection::Both => o.w() - tw >= o.h() - th,
    }
}

/// A cut placement fails when a needed cut falls on or outside the node's edge: a
/// vertical cut for a panel of no positive width, a horizontal one for a panel of no
/// positive height.
pub open spec fn cut_fails(o: TileNode, tw: int, th: int) -> bool {
    (o.w() > tw && tw <= 0) || (o.h() > th && th <= 0)
}

/// `n` is the node `o` after a panel of `tw` x `th` was placed into it with cuts: when
/// it is larger along both axes, cut in the order `horizontal_first` gives, the panel in
/// the top-left part and not marked as turned; when larger along one axis, cut there and
/// the panel in the first part, marked as turned or not by `rot`; otherwise the node
/// itself marked.
pub open spec fn cut_placed(o: TileNode, n: TileNode, tw: int, th: int, ext: i32, rot: bool, first: CutDirection) -> bool {
    let t = o.tile;
    let wd = o.w() - tw;
    let hd = o.h() - th;
    let xm = t.x1 + tw;
    let ym = t.y1 + th;
    if wd > 0 && hd > 0 {
        if horizontal_first(o, tw, th, first) {
            &&& tw > 0
            &&& th > 0
            &&& split_at_y(o, n, ym)
            &&& {
                let u = *n.child1.unwrap();
                &&& !u.is_final
                &&& !u.is_rotated
                &&& u.external_id == -1
                &&& !u.is_area_totally_used
                &&& u.totally_used_area == 0
                &&& u.child1 is Some
                &&& u.child2 is Some
                &&& is_panel_node(*u.child1.unwrap(), Tile { x1: t.x1, x2: xm as i32, y1: t.y1, y2: ym as i32 }, ext, false)
                &&& is_fresh_free(*u.child2.unwrap(), Tile { x1: xm as i32, x2: t.x2, y1: t.y1, y2: ym as i32 })
            }
        } else {
            node_placed(o, n, tw, th, ext, false)
        }
    } else if wd > 0 || hd > 0 {
        node_placed(o, n, tw, th, ext, rot)
    } else {
        n == (TileNode { is_final: true, external_id: ext, is_rotated: rot, ..o })
    }
}

/// The cuts that `cut_placed` makes, in order.
pub open spec fn cut_seq(o: TileNode, n: TileNode, tw: int, th: int, first: CutDirection) -> Seq<Cut> {
    let t = o.tile;
    let wd = o.w() - tw;
    let hd = o.h() - th;
    if wd > 0 && hd > 0 && horizontal_first(o, tw, th, first) {
        let u = *n.child1.unwrap();
        seq![
            horizontal_cut(t, o.id, t.y1 + th, u.id, n.child2.unwrap().id),
            vertical_cut(u.tile, u.id, t.x1 + tw, u.child1.unwrap().id, u.child2.unwrap().id),
        ]
    } else if wd <= 0 && hd <= 0 {
        Seq::empty()
    } else {
        placement_cut_seq(o, n, tw, th)
    }
}

/// Placing a panel of `tw` x `th` with cuts, as `cut_placed` says.
pub open spec fn cut_op(tw: int, th: int, ext: i32, rot: bool, first: CutDirection) -> spec_fn(TileNode, TileNode, Seq<Cut>) -> bool {
    |o: TileNode, n: TileNode, cuts: Seq<Cut>| cut_placed(o, n, tw, th, ext, rot, first) && cuts == cut_seq(o, n, tw, th, first)
}

/// Placing a panel with cuts in either order (`CutDirection::Both`) into a node larger
/// than it along both axes makes two cuts, the first along the axis with the larger
/// excess: when the node is at least as much too wide as too high, first a horizontal cut
/// at the panel's height across the node's whole width, then a vertical one at the
/// panel's width through the upper part; otherwise first a vertical cut at the panel's
/// width over the node's whole height, then a horizontal one at the panel's height
/// through the left part.
pub proof fn lemma_both_cuts_larger_excess_first(
    o: TileNode, n: TileNode, cuts: Seq<Cut>, tw: int, th: int, ext: i32, rot: bool,
)
    requires
        (cut_op(tw, th, ext, rot, CutDirection::Both))(o, n, cuts),
        o.tile.x2 - o.tile.x1 > tw,
        o.tile.y2 - o.tile.y1 > th,
    ensures
        cuts.len() == 2,
        tw > 0,
        th > 0,
        o.tile.x2 - o.tile.x1 - tw >= o.tile.y2 - o.tile.y1 - th ==> {
            &&& cuts[0].is_horizontal
            &&& cuts[0].x1 == o.tile.x1 && cuts[0].x2 == o.tile.x2
            &&& cuts[0].y1 == o.tile.y1 + th && cuts[0].y2 == o.tile.y1 + th
            &&& !cuts[1].is_horizontal
            &&& cuts[1].x1 == o.tile.x1 + tw && cuts[1].x2 == o.tile.x1 + tw
            &&& cuts[1].y1 == o.tile.y1 && cuts[1].y2 == o.tile.y1 + th
        },
        o.tile.x2 - o.tile.x1 - tw < o.tile.y2 - o.tile.y1 - th ==> {
            &&& !cuts[0].is_horizontal
            &&& cuts[0].x1 == o.tile.x1 + tw && cuts[0].x2 == o.tile.x1 + tw
            &&& cuts[0].y1 == o.tile.y1 && cuts[0].y2 == o.tile.y2
            &&& cuts[1].is_horizontal
            &&& cuts[1].x1 == o.tile.x1 && cuts[1].x2 == o.tile.x1 + tw
            &&& cuts[1].y1 == o.tile.y1 + th && cuts[1].y2 == o.tile.y1 + th
        },
{
    let t = o.tile;
    assert(cut_placed(o, n, tw, th, ext, rot, CutDirection::Both));
    assert(tw > 0 && th > 0);
    assert((t.x1 + tw) as i32 == t.x1 + tw);
    assert((t.y1 + th) as i32 == t.y1 + th);
}

/// `nm` is the sheet `m` with its first node of identifier `id` changed as `op` says, the
/// new cuts following the old ones, and material, stock panel, orientation and kerf kept.
pub open spec fn sheet_changed(m: Mosaic, nm: Mosaic, id: i32, op: spec_fn(TileNode, TileNode, Seq<Cut>) -> bool) -> bool {
    &&& m.cuts@.len() <= nm.cuts@.len()
    &&& nm.cuts@.subrange(0, m.cuts@.len() as int) == m.cuts@
    &&& changed_at_id(m.root_tile_node, nm.root_tile_node, id, op,
            nm.cuts@.subrange(m.cuts@.len() as int, nm.cuts@.len() as int))
    &&& nm.material@ == m.material@
    &&& nm.stock_id == m.stock_id
    &&& nm.orientation == m.orientation
    &&& nm.kerf_width == m.kerf_width
}

/// Whether trying to place the panel (turned or not) into candidate `c` of sheet `m`
/// with cuts ends in an error: the candidate is large enough, and a cut needed in the
/// sheet's first node with the candidate's identifier falls on its edge.
pub open spec fn attempt_fails(m: Mosaic, c: TileNode, td: TileDimensions, rotate: bool) -> bool {
    let (tw, th) = oriented(td, rotate);
    if c.w() < tw || c.h() < th {
        false
    } else {
        match first_with_id(m.root_tile_node, c.id) {
            Some(t) => cut_fails(t, tw, th),
            None => false,
        }
    }
}

/// What trying to place the panel (turned or not) into candidate `c` gives when it is no
/// error: nothing placed when the candidate is too small; else a copy of the sheet in
/// which the first node with the candidate's identifier got the panel as `cut_placed`
/// says (the copy unchanged when there is no such node), the panel's area, and the
/// number of cuts made.
pub open spec fn attempt_result(m: Mosaic, c: TileNode, td: TileDimensions, first: CutDirection, rotate: bool, p: PlacementResult) -> bool {
    let (tw, th) = oriented(td, rotate);
    if c.w() < tw || c.h() < th {
        !p.placed && p.cuts_made == 0 && p.used_area == 0 && p.new_mosaic is None
    } else {
        &&& p.placed
        &&& p.used_area == tw * th
        &&& match p.new_mosaic {
            Some(nm) => match first_with_id(m.root_tile_node, c.id) {
                None => nm@ == m@ && p.cuts_made == 0,
                Some(t) => p.cuts_made == placement_cuts(t, tw, th)
                    && sheet_changed(m, nm, c.id, cut_op(tw, th, td.id, rotate, first)),
            },
            None => false,
        }
    }
}

/// What placing the panel into a candidate of exactly its size gives: a copy of the sheet
/// in which the first node with the candidate's identifier is marked as holding it.
pub open spec fn exact_result(m: Mosaic, c: TileNode, td: TileDimensions, p: PlacementResult) -> bool {
    &&& p.placed
    &&& p.cuts_made == 0
    &&& p.used_area == td.width * td.height
    &&& match p.new_mosaic {
        Some(nm) => match first_with_id(m.root_tile_node, c.id) {
            None => nm@ == m@,
            Some(_) => sheet_changed(m, nm, c.id, mark_op(td.id)),
        },
        None => false,
    }
}

/// How a candidate is tried: 0 for an exact fit, 1 for cuts with the panel as it is and,
/// unless it is square, turned too, 2 for cuts with the panel as it is only (the grain is
/// kept and runs as the sheet's), 3 for no try (the grain is kept and does not run so).
pub open spec fn try_kind(m: Mosaic, c: TileNode, td: TileDimensions, grain: bool) -> int {
    if c.w() == td.width && c.h() == td.height {
        0
    } else if !grain || m.orientation == 0 || td.orientation == 0 {
        1
    } else if m.orientation == td.orientation {
        2
    } else {
        3
    }
}

/// The number of results that a candidate gives: one per try that is no error.
pub open spec fn candidate_count(m: Mosaic, c: TileNode, td: TileDimensions, grain: bool) -> nat {
    let k = try_kind(m, c, td, grain);
    let normal: nat = if !attempt_fails(m, c, td, false) { 1 } else { 0 };
    let turned: nat = if td.width != td.height && !attempt_fails(m, c, td, true) { 1 } else { 0 };
    if k == 0 { 1 } else if k == 1 { normal + turned } else if k == 2 { normal } else { 0 }
}

/// `out` is what a candidate gives: its exact fit, or its tries with cuts that are no
/// error, the panel as it is before the panel turned.
pub open spec fn candidate_results(m: Mosaic, c: TileNode, td: TileDimensions, first: CutDirection, grain: bool, out: Seq<PlacementResult>) -> bool {
    let k = try_kind(m, c, td, grain);
    let n_ok = !attempt_fails(m, c, td, false);
    &&& out.len() == candidate_count(m, c, td, grain)
    &&& k == 0 ==> exact_result(m, c, td, out[0])
    &&& (k == 1 || k == 2) && n_ok ==> attempt_result(m, c, td, first, false, out[0])
    &&& k == 1 && td.width != td.height && !attempt_fails(m, c, td, true) ==> attempt_result(m, c, td, first, true, out[out.len() - 1])
}

/// The number of results that the candidates give together.
pub open spec fn results_count(m: Mosaic, cands: Seq<TileNode>, td: TileDimensions, grain: bool) -> nat
    decreases cands.len(),
{
    if cands.len() == 0 {
        0
    } else {
        results_count(m, cands.drop_last(), td, grain) + candidate_count(m, cands.last(), td, grain)
    }
}

/// `out` is what the candidates give, one after the other.
pub open spec fn main_results(m: Mosaic, cands: Seq<TileNode>, td: TileDimensions, first: CutDirection, grain: bool, out: Seq<PlacementResult>) -> bool
    decreases cands.len(),
{
    if cands.len() == 0 {
        out.len() == 0
    } else {
        let k = candidate_count(m, cands.last(), td, grain);
        &&& out.len() == results_count(m, cands, td, grain)
        &&& main_results(m, cands.drop_last(), td, first, grain, out.subrange(0, out.len() - k))
        &&& candidate_results(m, cands.last(), td, first, grain, out.subrange(out.len() - k, out.len() as int))
    }
}

/// The first candidate with which a try with cuts, the panel as it is, is no error.
pub open spec fn first_workable(m: Mosaic, cands: Seq<TileNode>, td: TileDimensions, j: int) -> bool {
    &&& 0 <= j < cands.len()
    &&& !attempt_fails(m, cands[j], td, false)
    &&& forall|q: int| 0 <= q < j ==> attempt_fails(m, #[trigger] cands[q], td, false)
}

/// `v` is what fitting the panel into the sheet gives (see `CuttingEngine::fit_tile`):
/// what every candidate gives; when none gives anything, the first candidate with which
/// a try with cuts, the panel as it is, is no error, gives its result.
pub open spec fn fit_ok(m: Mosaic, td: TileDimensions, first: CutDirection, grain: bool, v: Seq<PlacementResult>) -> bool {
    let cands = tree_candidates(m.root_tile_node, td.width as int, td.height as int, 0);
    if results_count(m, cands, td, grain) > 0 || cands.len() == 0 {
        main_results(m, cands, td, first, grain, v)
    } else if exists|j: int| first_workable(m, cands, td, j) {
        v.len() == 1 && exists|j: int| #[trigger] first_workable(m, cands, td, j)
            && attempt_result(m, cands[j], td, first, false, v[0])
    } else {
        v.len() == 0
    }
}

/// The first node of a well-formed tree with a given identifier is well formed.
pub proof fn lemma_first_with_id_wf(n: TileNode, id: i32)
    requires
        n.wf(),
    ensures
        first_with_id(n, id) matches Some(f) ==> f.wf() && f.id == id,
    decreases n,
{
    if n.id != id {
        match n.child1 {
            Some(c) => { lemma_first_with_id_wf(*c, id); },
            None => {},
        }
        match n.child2 {
            Some(c) => { lemma_first_with_id_wf(*c, id); },
            None => {},
        }
    }
}

impl CuttingEngine {
    /// Collects into `candidates` copies of the free leaves of `node` that can take a
    /// panel of `width` x `height` with at least `min_trim` to spare along each axis
    /// that is not an exact fit, in pre-order.
    pub fn find_candidates(width: i32, height: i32, node: &TileNode, candidates: &mut Vec<TileNode>, min_trim_dimension: i32)
        requires
            node.wf(),
            i32::MIN <= min_trim_dimension + width <= i32::MAX,
            i32::MIN <= min_trim_dimension + height <= i32::MAX,
        ensures
            final(candidates)@ == old(candidates)@ + tree_candidates(*node, width as int, height as int, min_trim_dimension as int),
        decreases node,
    {
        let ghost pred = |n: TileNode| trim_ok(n, width as int, height as int, min_trim_dimension as int);
        proof { lemma_wf_sides(*node); }
        if node.is_final || node.get_width() < width || node.get_height() < height {
            proof {
                assert forall|k: int| 0 <= k < node.free_leaves().len() implies !pred(#[trigger] node.free_leaves()[k]) by {
                    assert(node.free_leaves().contains(node.free_leaves()[k]));
                    lemma_free_leaf_inside(*node, node.free_leaves()[k]);
                    if node.is_final {
                        assert(node.is_leaf());
                        assert(node.free_leaves() =~= Seq::<TileNode>::empty());
                    }
                }
                lemma_filter_none(node.free_leaves(), pred);
                assert(candidates@ =~= old(candidates)@ + tree_candidates(*node, width as int, height as int, min_trim_dimension as int));
            }
            return;
        }
        if !node.has_children() {
            let width_ok = node.get_width() == width || node.get_width() >= min_trim_dimension + width;
            let height_ok = node.get_height() == height || node.get_height() >= min_trim_dimension + height;
            if width_ok && height_ok {
                candidates.push(node.duplicate());
            }
            proof {
                assert(node.free_leaves() =~= seq![*node]);
                assert(seq![*node].filter(pred) =~= if pred(*node) { seq![*node] } else { Seq::<TileNode>::empty() }) by {
                    reveal_with_fuel(Seq::filter, 2);
                }
                assert(candidates@ =~= old(candidates)@ + tree_candidates(*node, width as int, height as int, min_trim_dimension as int));
            }
            return;
        }
        let ghost l1 = match &node.child1 { Some(c) => c.free_leaves(), None => Seq::<TileNode>::empty() };
        let ghost l2 = match &node.child2 { Some(c) => c.free_leaves(), None => Seq::<TileNode>::empty() };
        let ghost c0 = candidates@;
        if let Some(child1) = &node.child1 {
            Self::find_candidates(width, height, child1, candidates, min_trim_dimension);
        }
        let ghost c1 = candidates@;
        if let Some(child2) = &node.child2 {
            Self::find_candidates(width, height, child2, candidates, min_trim_dimension);
        }
        proof {
            assert(c1 == c0 + l1.filter(pred)) by {
                if node.child1 is None { assert(l1.filter(pred) =~= Seq::<TileNode>::empty()); }
            }
            assert(candidates@ == c1 + l2.filter(pred)) by {
                if node.child2 is None { assert(l2.filter(pred) =~= Seq::<TileNode>::empty()); }
            }
            assert(node.free_leaves() =~= l1 + l2);
            Seq::filter_distributes_over_add(l1, l2, pred);
            assert(candidates@ =~= c0 + tree_candidates(*node, width as int, height as int, min_trim_dimension as int));
        }
    }

    /// The first node in pre-order with identifier `id`.
    fn find_tile_by_id(node: &TileNode, id: i32) -> (r: Option<&TileNode>)
        ensures
            match r {
                Some(f) => first_with_id(*node, id) == Some(*f),
                None => first_with_id(*node, id) is None,
            },
        decreases node,
    {
        if node.id == id {
            return Some(node);
        }
        if let Some(child1) = &node.child1 {
            if let Some(found) = Self::find_tile_by_id(child1, id) {
                return Some(found);
            }
        }
        if let Some(child2) = &node.child2 {
            if let Some(found) = Self::find_tile_by_id(child2, id) {
                return Some(found);
            }
        }
        None
    }

    /// Whether the grain of the panel may be ignored on this sheet: either has no
    /// orientation.
    fn check_grain_compatibility(mosaic: &Mosaic, tile_dimensions: &TileDimensions) -> (b: bool)
        ensures
            b == (mosaic.orientation == 0 || tile_dimensions.orientation == 0),
    {
        mosaic.get_orientation() == 0 || tile_dimensions.orientation == 0
    }

    /// Whether the panel's grain runs as the sheet's.
    fn check_grain_orientation(mosaic: &Mosaic, tile_dimensions: &TileDimensions) -> (b: bool)
        ensures
            b == (mosaic.orientation == tile_dimensions.orientation),
    {
        mosaic.get_orientation() == tile_dimensions.orientation
    }
}

/// A change to make to one node of a tree.
#[derive(Clone, Copy)]
enum NodeChange {
    /// Mark the node as holding panel `ext`.
    Mark { ext: i32 },
    /// Place a panel of `tw` x `th` into the node with cuts.
    Place { tw: i32, th: i32, ext: i32, rot: bool, first: CutDirection },
}

spec fn change_op(ch: NodeChange) -> spec_fn(TileNode, TileNode, Seq<Cut>) -> bool {
    match ch {
        NodeChange::Mark { ext } => mark_op(ext),
        NodeChange::Place { tw, th, ext, rot, first } => cut_op(tw as int, th as int, ext, rot, first),
    }
}

spec fn change_fails(ch: NodeChange, t: TileNode) -> bool {
    match ch {
        NodeChange::Mark { .. } => false,
        NodeChange::Place { tw, th, .. } => cut_fails(t, tw as int, th as int),
    }
}

/// The cuts appended to `before` that make `after`.
spec fn appended(before: Seq<Cut>, after: Seq<Cut>) -> Seq<Cut> {
    after.subrange(before.len() as int, after.len() as int)
}

impl CuttingEngine {
    /// A vertical cut at the panel's width, then a horizontal cut of the left part at the
    /// panel's height; the panel goes to the top-left part (not marked as turned).
    fn split_hv(node: &mut TileNode, tile_width: i32, tile_height: i32, cut_thickness: i32, tile_id: i32)
        -> (r: Result<Vec<Cut>, CuttingError>)
        requires
            old(node).wf(),
            old(node).w() > tile_width,
            old(node).h() > tile_height,
        ensures
            r is Ok <==> (tile_width > 0 && tile_height > 0),
            r matches Ok(cs) ==> node_placed(*old(node), *final(node), tile_width as int, tile_height as int, tile_id, false)
                && cs@ == placement_cut_seq(*old(node), *final(node), tile_width as int, tile_height as int),
    {
        proof { lemma_wf_sides(*node); }
        let mut cuts: Vec<Cut> = Vec::new();
        let cut = match Self::split_vertically(node, node.get_x1() + tile_width, cut_thickness) {
            Ok(c) => c,
            Err(e) => { return Err(e); },
        };
        let CutResult { left_node, right_node, cut: first_cut } = cut;
        cuts.push(first_cut);
        let mut left_child = left_node;
        let cut2 = match Self::split_horizontally(&left_child, left_child.get_y1() + tile_height, cut_thickness) {
            Ok(c) => c,
            Err(e) => {
                node.child1 = Some(Box::new(left_child));
                node.child2 = Some(Box::new(right_node));
                return Err(e);
            },
        };
        let CutResult { left_node: top_left, right_node: bottom_left, cut: second_cut } = cut2;
        cuts.push(second_cut);
        let mut panel = top_left;
        panel.is_final = true;
        panel.external_id = tile_id;
        left_child.child1 = Some(Box::new(panel));
        left_child.child2 = Some(Box::new(bottom_left));
        node.child1 = Some(Box::new(left_child));
        node.child2 = Some(Box::new(right_node));
        proof {
            assert(cuts@ =~= placement_cut_seq(*old(node), *node, tile_width as int, tile_height as int));
        }
        Ok(cuts)
    }

    /// A horizontal cut at the panel's height, then a vertical cut of the upper part at
    /// the panel's width; the panel goes to the top-left part (not marked as turned).
    fn split_vh(node: &mut TileNode, tile_width: i32, tile_height: i32, cut_thickness: i32, tile_id: i32)
        -> (r: Result<Vec<Cut>, CuttingError>)
        requires
            old(node).wf(),
            old(node).w() > tile_width,
            old(node).h() > tile_height,
        ensures
            r is Ok <==> (tile_width > 0 && tile_height > 0),
            r matches Ok(cs) ==> cut_placed(*old(node), *final(node), tile_width as int, tile_height as int, tile_id, false, CutDirection::Vertical)
                && cs@ == cut_seq(*old(node), *final(node), tile_width as int, tile_height as int, CutDirection::Vertical),
    {
        proof { lemma_wf_sides(*node); }
        let mut cuts: Vec<Cut> = Vec::new();
        let cut = match Self::split_horizontally(node, node.get_y1() + tile_height, cut_thickness) {
            Ok(c) => c,
            Err(e) => { return Err(e); },
        };
        let CutResult { left_node, right_node, cut: first_cut } = cut;
        cuts.push(first_cut);
        let mut top_child = left_node;
        let cut2 = match Self::split_vertically(&top_child, top_child.get_x1() + tile_width, cut_thickness) {
            Ok(c) => c,
            Err(e) => {
                node.child1 = Some(Box::new(top_child));
                node.child2 = Some(Box::new(right_node));
                return Err(e);
            },
        };
        let CutResult { left_node: top_left, right_node: top_right, cut: second_cut } = cut2;
        cuts.push(second_cut);
        let mut panel = top_left;
        panel.is_final = true;
        panel.external_id = tile_id;
        top_child.child1 = Some(Box::new(panel));
        top_child.child2 = Some(Box::new(top_right));
        node.child1 = Some(Box::new(top_child));
        node.child2 = Some(Box::new(right_node));
        proof {
            assert(cuts@ =~= cut_seq(*old(node), *node, tile_width as int, tile_height as int, CutDirection::Vertical));
        }
        Ok(cuts)
    }

    /// Places a panel of `tile_width` x `tile_height` into `node` as `cut_placed` says,
    /// appending the cuts to `cuts`; returns how many cuts were made.
    fn cut_place_node(
        node: &mut TileNode,
        tile_width: i32,
        tile_height: i32,
        cut_thickness: i32,
        first_cut_orientation: CutDirection,
        tile_id: i32,
        rotate: bool,
        cuts: &mut Vec<Cut>,
    ) -> (r: Result<usize, CuttingError>)
        requires
            old(node).wf(),
        ensures
            r is Ok <==> !cut_fails(*old(node), tile_width as int, tile_height as int),
            r matches Ok(k) ==> {
                &&& k == placement_cuts(*old(node), tile_width as int, tile_height as int)
                &&& old(cuts)@.len() <= final(cuts)@.len()
                &&& final(cuts)@.subrange(0, old(cuts)@.len() as int) == old(cuts)@
                &&& (cut_op(tile_width as int, tile_height as int, tile_id, rotate, first_cut_orientation))(
                        *old(node), *final(node), appended(old(cuts)@, final(cuts)@))
            },
            r is Ok && first_cut_orientation == CutDirection::Both
                && old(node).tile.x2 - old(node).tile.x1 > tile_width
                && old(node).tile.y2 - old(node).tile.y1 > tile_height ==> {
                let c = appended(old(cuts)@, final(cuts)@);
                &&& c.len() == 2
                &&& c[0].is_horizontal == (old(node).tile.x2 - old(node).tile.x1 - tile_width
                        >= old(node).tile.y2 - old(node).tile.y1 - tile_height)
            },
    {
        proof { lemma_wf_sides(*node); }
        let ghost c0 = cuts@;
        let need_vertical_cut = node.get_width() > tile_width;
        let need_horizontal_cut = node.get_height() > tile_height;
        if need_vertical_cut && need_horizontal_cut {
            let horizontal_first = match first_cut_orientation {
                CutDirection::Horizontal => false,
                CutDirection::Vertical => true,
                CutDirection::Both => (node.get_width() as i64 - tile_width as i64) >= (node.get_height() as i64 - tile_height as i64),
            };
            let made = if horizontal_first {
                Self::split_vh(node, tile_width, tile_height, cut_thickness, tile_id)
            } else {
                Self::split_hv(node, tile_width, tile_height, cut_thickness, tile_id)
            };
            match made {
                Ok(mut new_cuts) => {
                    let ghost nc = new_cuts@;
                    cuts.append(&mut new_cuts);
                    proof {
                        assert(cuts@.subrange(0, c0.len() as int) =~= c0);
                        assert(appended(c0, cuts@) =~= nc);
                        if first_cut_orientation == CutDirection::Both {
                            lemma_both_cuts_larger_excess_first(*old(node), *node, nc, tile_width as int,
                                tile_height as int, tile_id, rotate);
                        }
                    }
                    Ok(2)
                },
                Err(e) => Err(e),
            }
        } else if need_vertical_cut {
            let cut = match Self::split_vertically(node, node.get_x1() + tile_width, cut_thickness) {
                Ok(c) => c,
                Err(e) => { return Err(e); },
            };
            let CutResult { left_node, right_node, cut: made } = cut;
            let mut left_child = left_node;
            left_child.is_final = true;
            left_child.external_id = tile_id;
            left_child.is_rotated = rotate;
            node.child1 = Some(Box::new(left_child));
            node.child2 = Some(Box::new(right_node));
            cuts.push(made);
            proof {
                assert(cuts@.subrange(0, c0.len() as int) =~= c0);
                assert(appended(c0, cuts@) =~= cut_seq(*old(node), *node, tile_width as int, tile_height as int, first_cut_orientation));
            }
            Ok(1)
        } else if need_horizontal_cut {
            let cut = match Self::split_horizontally(node, node.get_y1() + tile_height, cut_thickness) {
                Ok(c) => c,
                Err(e) => { return Err(e); },
            };
            let CutResult { left_node, right_node, cut: made } = cut;
            let mut top_child = left_node;
            top_child.is_final = true;
            top_child.external_id = tile_id;
            top_child.is_rotated = rotate;
            node.child1 = Some(Box::new(top_child));
            node.child2 = Some(Box::new(right_node));
            cuts.push(made);
            proof {
                assert(cuts@.subrange(0, c0.len() as int) =~= c0);
                assert(appended(c0, cuts@) =~= cut_seq(*old(node), *node, tile_width as int, tile_height as int, first_cut_orientation));
            }
            Ok(1)
        } else {
            node.is_final = true;
            node.external_id = tile_id;
            node.is_rotated = rotate;
            proof {
                assert(cuts@.subrange(0, c0.len() as int) =~= c0);
                assert(appended(c0, cuts@) =~= Seq::<Cut>::empty());
            }
            Ok(0)
        }
    }

    /// Makes the change `ch` to `node` itself, appending its cuts to `cuts`; returns how
    /// many cuts were made.
    fn change_node(node: &mut TileNode, ch: NodeChange, cut_thickness: i32, cuts: &mut Vec<Cut>) -> (r: Result<usize, CuttingError>)
        requires
            old(node).wf(),
        ensures
            r is Ok <==> !change_fails(ch, *old(node)),
            r is Ok ==> {
                &&& old(cuts)@.len() <= final(cuts)@.len()
                &&& final(cuts)@.subrange(0, old(cuts)@.len() as int) == old(cuts)@
                &&& (change_op(ch))(*old(node), *final(node), appended(old(cuts)@, final(cuts)@))
            },
            r matches Ok(k) ==> (ch is Place ==> k == placement_cuts(*old(node), ch->tw as int, ch->th as int)),
    {
        match ch {
            NodeChange::Mark { ext } => {
                node.is_final = true;
                node.external_id = ext;
                node.is_rotated = false;
                proof {
                    assert(cuts@.subrange(0, cuts@.len() as int) =~= cuts@);
                    assert(appended(cuts@, cuts@) =~= Seq::<Cut>::empty());
                }
                Ok(0)
            },
            NodeChange::Place { tw, th, ext, rot, first } => {
                Self::cut_place_node(node, tw, th, cut_thickness, first, ext, rot, cuts)
            },
        }
    }

    /// Whether some node of the tree has identifier `id`.
    fn locate_id(node: &TileNode, id: i32) -> (b: bool)
        ensures
            b == first_with_id(*node, id) is Some,
        decreases node,
    {
        if node.id == id {
            return true;
        }
        if let Some(child1) = &node.child1 {
            if Self::locate_id(child1, id) {
                return true;
            }
        }
        if let Some(child2) = &node.child2 {
            return Self::locate_id(child2, id);
        }
        false
    }

    /// Makes the change `ch` to the first node in pre-order with identifier `id`.
    fn change_at_id(node: &mut TileNode, id: i32, ch: NodeChange, cut_thickness: i32, cuts: &mut Vec<Cut>)
        -> (r: Result<usize, CuttingError>)
        requires
            old(node).wf(),
            first_with_id(*old(node), id) is Some,
        ensures
            r is Ok <==> !change_fails(ch, first_with_id(*old(node), id).unwrap()),
            r is Ok ==> {
                &&& old(cuts)@.len() <= final(cuts)@.len()
                &&& final(cuts)@.subrange(0, old(cuts)@.len() as int) == old(cuts)@
                &&& changed_at_id(*old(node), *final(node), id, change_op(ch), appended(old(cuts)@, final(cuts)@))
            },
            r matches Ok(k) ==> (ch is Place ==> k == placement_cuts(first_with_id(*old(node), id).unwrap(), ch->tw as int, ch->th as int)),
        decreases *old(node),
    {
        if node.id == id {
            return Self::change_node(node, ch, cut_thickness, cuts);
        }
        let in_first = match &node.child1 {
            Some(c1) => Self::locate_id(c1, id),
            None => false,
        };
        if in_first {
            let mut c1 = node.child1.take().unwrap();
            let r = Self::change_at_id(&mut *c1, id, ch, cut_thickness, cuts);
            node.child1 = Some(c1);
            r
        } else {
            let mut c2 = node.child2.take().unwrap();
            let r = Self::change_at_id(&mut *c2, id, ch, cut_thickness, cuts);
            node.child2 = Some(c2);
            r
        }
    }
}

impl CuttingEngine {
    /// Tries to place the panel, turned or not, into a copy of the sheet at the node
    /// with the candidate's identifier, cutting it as `cut_placed` says.
    fn try_place_with_cuts(
        tile_dimensions: &TileDimensions,
        candidate_node: &TileNode,
        mosaic: &Mosaic,
        cut_thickness: i32,
        first_cut_orientation: CutDirection,
        rotate: bool,
    ) -> (r: Result<PlacementResult, CuttingError>)
        requires
            mosaic.wf(),
            candidate_node.wf(),
        ensures
            r is Err <==> attempt_fails(*mosaic, *candidate_node, *tile_dimensions, rotate),
            r matches Ok(p) ==> attempt_result(*mosaic, *candidate_node, *tile_dimensions, first_cut_orientation, rotate, p),
    {
        let (tile_width, tile_height) = if rotate {
            (tile_dimensions.height, tile_dimensions.width)
        } else {
            (tile_dimensions.width, tile_dimensions.height)
        };
        proof { lemma_wf_sides(*candidate_node); }
        if (candidate_node.get_width() as i64) < (tile_width as i64) || (candidate_node.get_height() as i64) < (tile_height as i64) {
            return Ok(PlacementResult { placed: false, cuts_made: 0, used_area: 0, new_mosaic: None });
        }
        let mut new_mosaic = mosaic.copy();
        let mut cuts_made: usize = 0;
        if Self::locate_id(&new_mosaic.root_tile_node, candidate_node.id) {
            proof { lemma_first_with_id_wf(mosaic.root_tile_node, candidate_node.id); }
            let change = NodeChange::Place {
                tw: tile_width,
                th: tile_height,
                ext: tile_dimensions.id,
                rot: rotate,
                first: first_cut_orientation,
            };
            match Self::change_at_id(&mut new_mosaic.root_tile_node, candidate_node.id, change, cut_thickness, &mut new_mosaic.cuts) {
                Ok(k) => { cuts_made = k; },
                Err(e) => { return Err(e); },
            }
        }
        proof {
            crate::model::tile::lemma_i32_product_fits_i64(tile_width as int, tile_height as int);
        }
        let used_area = (tile_width as i64) * (tile_height as i64);
        Ok(PlacementResult { placed: true, cuts_made, used_area, new_mosaic: Some(new_mosaic) })
    }

    /// A copy of the sheet with the node of the candidate's identifier marked as
    /// holding the panel, for a candidate of exactly the panel's size.
    fn place_exact(tile_dimensions: &TileDimensions, candidate_node: &TileNode, mosaic: &Mosaic) -> (p: PlacementResult)
        requires
            mosaic.wf(),
        ensures
            exact_result(*mosaic, *candidate_node, *tile_dimensions, p),
    {
        let mut new_mosaic = mosaic.copy();
        if Self::locate_id(&new_mosaic.root_tile_node, candidate_node.id) {
            let change = NodeChange::Mark { ext: tile_dimensions.id };
            let _ = Self::change_at_id(&mut new_mosaic.root_tile_node, candidate_node.id, change, 0, &mut new_mosaic.cuts);
        }
        proof {
            crate::model::tile::lemma_i32_product_fits_i64(tile_dimensions.width as int, tile_dimensions.height as int);
        }
        let used_area = (tile_dimensions.width as i64) * (tile_dimensions.height as i64);
        PlacementResult { placed: true, cuts_made: 0, used_area, new_mosaic: Some(new_mosaic) }
    }

    /// Every way of placing a panel into one free node of a sheet, each in a copy of the
    /// sheet. For each candidate node in pre-order (a free leaf at least as large as the
    /// panel as it is): when it is of the panel's size, it is marked as holding the
    /// panel; else the panel is placed with cuts, as it is and, unless it is square,
    /// turned, where the grain may be ignored (it is not to be kept, or the sheet or the
    /// panel has no orientation), and only as it is where the panel's grain runs as the
    /// sheet's. Tries that end in an error give nothing. When no candidate gives anything,
    /// the first candidate with which a try with cuts, the panel as it is, is no error
    /// gives its result. Never an error.
    pub fn fit_tile(
        tile_dimensions: &TileDimensions,
        mosaic: &Mosaic,
        cut_thickness: i32,
        first_cut_orientation: CutDirection,
        consider_grain_direction: bool,
    ) -> (r: Result<Vec<PlacementResult>, CuttingError>)
        requires
            mosaic.wf(),
        ensures
            r matches Ok(v) && fit_ok(*mosaic, *tile_dimensions, first_cut_orientation, consider_grain_direction, v@),
    {
        let ghost grain = consider_grain_direction;
        let mut results: Vec<PlacementResult> = Vec::new();
        let mut candidates: Vec<TileNode> = Vec::new();
        Self::find_candidates(tile_dimensions.width, tile_dimensions.height, &mosaic.root_tile_node, &mut candidates, 0);
        let ghost cands = candidates@;
        proof {
            assert(cands =~= tree_candidates(mosaic.root_tile_node, tile_dimensions.width as int, tile_dimensions.height as int, 0));
            let pred = |n: TileNode| trim_ok(n, tile_dimensions.width as int, tile_dimensions.height as int, 0);
            assert forall|k: int| 0 <= k < cands.len() implies (#[trigger] cands[k]).wf() by {
                mosaic.root_tile_node.free_leaves().lemma_filter_pred(pred, k);
                assert(cands.contains(cands[k]));
                mosaic.root_tile_node.free_leaves().lemma_filter_contains_rev(pred, cands[k]);
                lemma_free_leaf_inside(mosaic.root_tile_node, cands[k]);
            }
        }
        let square = tile_dimensions.is_square();
        let mut i: usize = 0;
        while i < candidates.len()
            invariant
                mosaic.wf(),
                0 <= i <= candidates@.len(),
                cands == candidates@,
                forall|k: int| 0 <= k < cands.len() ==> (#[trigger] cands[k]).wf(),
                grain == consider_grain_direction,
                square == (tile_dimensions.width == tile_dimensions.height),
                main_results(*mosaic, cands.subrange(0, i as int), *tile_dimensions, first_cut_orientation, grain, results@),
                results@.len() == results_count(*mosaic, cands.subrange(0, i as int), *tile_dimensions, grain),
            decreases candidates@.len() - i,
        {
            let candidate = &candidates[i];
            let ghost before = results@;
            assert(cands[i as int] == *candidate);
            proof { lemma_wf_sides(*candidate); }
            if candidate.get_width() == tile_dimensions.width && candidate.get_height() == tile_dimensions.height {
                results.push(Self::place_exact(tile_dimensions, candidate, mosaic));
            } else if !consider_grain_direction || Self::check_grain_compatibility(mosaic, tile_dimensions) {
                if let Ok(result) = Self::try_place_with_cuts(tile_dimensions, candidate, mosaic, cut_thickness, first_cut_orientation, false) {
                    results.push(result);
                }
                if !square {
                    if let Ok(result) = Self::try_place_with_cuts(tile_dimensions, candidate, mosaic, cut_thickness, first_cut_orientation, true) {
                        results.push(result);
                    }
                }
            } else if Self::check_grain_orientation(mosaic, tile_dimensions) {
                if let Ok(result) = Self::try_place_with_cuts(tile_dimensions, candidate, mosaic, cut_thickness, first_cut_orientation, false) {
                    results.push(result);
                }
            }
            proof {
                let sub = cands.subrange(0, i + 1);
                assert(sub.drop_last() =~= cands.subrange(0, i as int));
                assert(sub.last() == *candidate);
                let k = candidate_count(*mosaic, *candidate, *tile_dimensions, grain);
                assert(results@.len() == before.len() + k);
                assert(results@.subrange(0, results@.len() - k) =~= before);
                let tail = results@.subrange(results@.len() - k, results@.len() as int);
                assert(candidate_results(*mosaic, *candidate, *tile_dimensions, first_cut_orientation, grain, tail));
                assert(results_count(*mosaic, sub, *tile_dimensions, grain)
                    == results_count(*mosaic, cands.subrange(0, i as int), *tile_dimensions, grain) + k);
                assert(main_results(*mosaic, sub, *tile_dimensions, first_cut_orientation, grain, results@));
            }
            i = i + 1;
        }
        proof { assert(cands.subrange(0, cands.len() as int) =~= cands); }
        if results.len() == 0 && candidates.len() > 0 {
            assert(results_count(*mosaic, cands, *tile_dimensions, grain) == 0);
            let mut j: usize = 0;
            while j < candidates.len()
                invariant
                    mosaic.wf(),
                    0 <= j <= candidates@.len(),
                    cands == candidates@,
                    forall|k: int| 0 <= k < cands.len() ==> (#[trigger] cands[k]).wf(),
                    results@.len() == 0,
                    cands.len() > 0,
                    cands == tree_candidates(mosaic.root_tile_node, tile_dimensions.width as int, tile_dimensions.height as int, 0),
                    results_count(*mosaic, cands, *tile_dimensions, consider_grain_direction) == 0,
                    forall|q: int| 0 <= q < j ==> attempt_fails(*mosaic, #[trigger] cands[q], *tile_dimensions, false),
                decreases candidates@.len() - j,
            {
                assert(cands[j as int] == candidates@[j as int]);
                if let Ok(result) = Self::try_place_with_cuts(tile_dimensions, &candidates[j], mosaic, cut_thickness, first_cut_orientation, false) {
                    results.push(result);
                    proof {
                        assert(first_workable(*mosaic, cands, *tile_dimensions, j as int));
                        assert(results@[0] == result);
                    }
                    return Ok(results);
                }
                j = j + 1;
            }
            proof {
                assert forall|q: int| !first_workable(*mosaic, cands, *tile_dimensions, q) by {
                    if 0 <= q < cands.len() {
                        assert(attempt_fails(*mosaic, cands[q], *tile_dimensions, false));
                    }
                }
            }
        }
        Ok(results)
    }
}

/// A stock panel left unused can take the panel: it fits, as it is or turned, and is of
/// the panel's material.
pub open spec fn suitable_stock(u: TileDimensions, t: TileDimensions) -> bool {
    fits_spec(u.width as int, u.height as int, t.width as int, t.height as int) && u.material@ == t.material@
}

/// `unused[k]` is the first suitable stock panel.
pub open spec fn first_suitable_at(unused: Seq<TileDimensions>, t: TileDimensions, k: int) -> bool {
    &&& 0 <= k < unused.len()
    &&& suitable_stock(unused[k], t)
    &&& forall|q: int| 0 <= q < k ==> !suitable_stock(#[trigger] unused[q], t)
}

/// `x` is the first solution of `input` with its identifier.
pub open spec fn first_of_its_id(input: Seq<Solution>, x: Solution) -> bool {
    exists|q: int| 0 <= q < input.len() && input[q] == x && no_earlier_id(input, q, x.id)
}

/// No solution of `input` before index `q` has identifier `id`.
pub open spec fn no_earlier_id(input: Seq<Solution>, q: int, id: i32) -> bool {
    forall|r: int| 0 <= r < q ==> (#[trigger] input[r]).id != id
}

/// Identifiers grow along `out`.
pub open spec fn ids_increasing(out: Seq<Solution>) -> bool {
    forall|a: int, b: int| 0 <= a < b < out.len() ==> (#[trigger] out[a]).id < (#[trigger] out[b]).id
}

/// Every solution of `out` is the first of `input` with its identifier.
pub open spec fn all_first(input: Seq<Solution>, out: Seq<Solution>) -> bool {
    forall|k: int| 0 <= k < out.len() ==> first_of_its_id(input, #[trigger] out[k])
}

/// Every identifier of `input` is that of some solution of `out`.
pub open spec fn ids_present(input: Seq<Solution>, out: Seq<Solution>) -> bool {
    forall|k: int| 0 <= k < input.len() ==> has_id(out, #[trigger] input[k].id)
}

/// Some solution of `out` has identifier `id`.
pub open spec fn has_id(out: Seq<Solution>, id: i32) -> bool {
    exists|j: int| 0 <= j < out.len() && #[trigger] out[j].id == id
}

/// One solution per identifier, by growing identifier, each the first of the input with
/// its identifier.
pub open spec fn one_per_id(input: Seq<Solution>, out: Seq<Solution>) -> bool {
    ids_increasing(out) && all_first(input, out) && ids_present(input, out)
}

proof fn lemma_all_first_extends(p: Seq<Solution>, x: Solution, out: Seq<Solution>)
    requires
        all_first(p, out),
    ensures
        all_first(p.push(x), out),
{
    let p1 = p.push(x);
    assert forall|k: int| 0 <= k < out.len() implies first_of_its_id(p1, #[trigger] out[k]) by {
        let q = choose|q: int| 0 <= q < p.len() && p[q] == out[k] && no_earlier_id(p, q, out[k].id);
        assert(p1[q] == p[q]);
        assert forall|r: int| 0 <= r < q implies (#[trigger] p1[r]).id != out[k].id by {
            assert(p1[r] == p[r]);
        }
    }
}

proof fn lemma_repeat_dropped(p: Seq<Solution>, out: Seq<Solution>, j: int, x: Solution)
    requires
        one_per_id(p, out),
        0 <= j < out.len(),
        out[j].id == x.id,
    ensures
        one_per_id(p.push(x), out),
{
    lemma_all_first_extends(p, x, out);
    let p1 = p.push(x);
    assert forall|k: int| 0 <= k < p1.len() implies has_id(out, #[trigger] p1[k].id) by {
        if k < p.len() {
            assert(p1[k] == p[k]);
        } else {
            assert(out[j].id == p1[k].id);
        }
    }
}

proof fn lemma_insert_increasing(out0: Seq<Solution>, j: int, x: Solution)
    requires
        ids_increasing(out0),
        0 <= j <= out0.len(),
        forall|q: int| 0 <= q < j ==> (#[trigger] out0[q]).id < x.id,
        j < out0.len() ==> out0[j].id > x.id,
    ensures
        ids_increasing(out0.insert(j, x)),
{
    let out = out0.insert(j, x);
    assert forall|a: int, b: int| 0 <= a < b < out.len() implies (#[trigger] out[a]).id < (#[trigger] out[b]).id by {
        if b < j {
            assert(out[a] == out0[a]);
            assert(out[b] == out0[b]);
        } else if b == j {
            assert(out[a] == out0[a]);
        } else if a < j {
            assert(out[a] == out0[a]);
            assert(out[b] == out0[b - 1]);
        } else if a == j {
            assert(out[b] == out0[b - 1]);
            if b - 1 > j {
                assert(out0[j].id < out0[b - 1].id);
            }
        } else {
            assert(out[a] == out0[a - 1]);
            assert(out[b] == out0[b - 1]);
        }
    }
}

proof fn lemma_new_id_inserted(p: Seq<Solution>, out0: Seq<Solution>, j: int, x: Solution)
    requires
        one_per_id(p, out0),
        0 <= j <= out0.len(),
        forall|q: int| 0 <= q < j ==> (#[trigger] out0[q]).id < x.id,
        j < out0.len() ==> out0[j].id > x.id,
    ensures
        one_per_id(p.push(x), out0.insert(j, x)),
{
    let p1 = p.push(x);
    let out = out0.insert(j, x);
    lemma_insert_increasing(out0, j, x);
    assert(no_earlier_id(p, p.len() as int, x.id)) by {
        assert forall|r: int| 0 <= r < p.len() implies (#[trigger] p[r]).id != x.id by {
            assert(has_id(out0, p[r].id));
            let jj = choose|jj: int| 0 <= jj < out0.len() && #[trigger] out0[jj].id == p[r].id;
            if jj >= j {
                if jj > j {
                    assert(out0[j].id < out0[jj].id);
                }
            }
        }
    }
    lemma_all_first_extends(p, x, out0);
    assert forall|k: int| 0 <= k < out.len() implies first_of_its_id(p1, #[trigger] out[k]) by {
        if k == j {
            assert(p1[p.len() as int] == x);
            assert forall|r: int| 0 <= r < p.len() implies (#[trigger] p1[r]).id != x.id by {
                assert(p1[r] == p[r]);
            }
            assert(no_earlier_id(p1, p.len() as int, x.id));
        } else if k < j {
            assert(out[k] == out0[k]);
        } else {
            assert(out[k] == out0[k - 1]);
        }
    }
    assert forall|k: int| 0 <= k < p1.len() implies has_id(out, #[trigger] p1[k].id) by {
        if k < p.len() {
            assert(p1[k] == p[k]);
            assert(has_id(out0, p[k].id));
            let jj = choose|jj: int| 0 <= jj < out0.len() && #[trigger] out0[jj].id == p[k].id;
            if jj < j {
                assert(out[jj] == out0[jj]);
            } else {
                assert(out[jj + 1] == out0[jj]);
            }
        } else {
            assert(out[j] == x);
        }
    }
}

impl CuttingEngine {
    /// The first stock panel left unused in the solution that can take the panel.
    pub fn find_suitable_unused_stock(solution: &Solution, tile: &TileDimensions) -> (r: Option<TileDimensions>)
        ensures
            match r {
                Some(d) => exists|k: int| first_suitable_at(solution.unused_stock_panels@, *tile, k)
                    && d == #[trigger] solution.unused_stock_panels@[k],
                None => forall|k: int| 0 <= k < solution.unused_stock_panels@.len()
                    ==> !suitable_stock(#[trigger] solution.unused_stock_panels@[k], *tile),
            },
    {
        let unused = solution.get_unused_stock_panels();
        let mut i: usize = 0;
        while i < unused.len()
            invariant
                0 <= i <= unused@.len(),
                unused@ == solution.unused_stock_panels@,
                forall|q: int| 0 <= q < i ==> !suitable_stock(#[trigger] unused@[q], *tile),
            decreases unused@.len() - i,
        {
            let candidate = &unused[i];
            if candidate.fits(tile) && crate::support::same_text(candidate.material.as_str(), tile.material.as_str()) {
                proof { assert(first_suitable_at(unused@, *tile, i as int)); }
                return Some(candidate.duplicate());
            }
            i = i + 1;
        }
        None
    }

    /// Keeps one solution per identifier, the first with it, ordered by growing
    /// identifier (a stable sort by identifier followed by dropping repeats).
    pub fn remove_duplicates(solutions: &mut Vec<Solution>)
        ensures
            one_per_id(old(solutions)@, final(solutions)@),
    {
        let ghost input = solutions@;
        let mut src: Vec<Solution> = Vec::new();
        std::mem::swap(&mut src, solutions);
        let mut out: Vec<Solution> = Vec::new();
        let mut i: usize = 0;
        let n = src.len();
        proof {
            assert(input.take(0) =~= Seq::<Solution>::empty());
        }
        while src.len() > 0
            invariant
                n == input.len(),
                i + src@.len() == n,
                src@ == input.skip(i as int),
                one_per_id(input.take(i as int), out@),
            decreases src@.len(),
        {
            let x = src.remove(0);
            proof {
                assert(input[i as int] == x);
            }
            let ghost p = input.take(i as int);
            let ghost p1 = input.take(i + 1);
            proof { assert(p1 =~= p.push(x)); }
            let mut j: usize = 0;
            loop
                invariant
                    0 <= j <= out@.len(),
                    forall|q: int| 0 <= q < j ==> (#[trigger] out@[q]).id < x.id,
                ensures
                    0 <= j <= out@.len(),
                    forall|q: int| 0 <= q < j ==> (#[trigger] out@[q]).id < x.id,
                    j < out@.len() ==> out@[j as int].id >= x.id,
                decreases out@.len() - j,
            {
                if j >= out.len() {
                    break;
                }
                if out[j].id >= x.id {
                    break;
                }
                j = j + 1;
            }
            if j < out.len() && out[j].id == x.id {
                proof { lemma_repeat_dropped(p, out@, j as int, x); }
                assert(one_per_id(p1, out@));
            } else {
                let ghost out0 = out@;
                out.insert(j, x);
                proof { lemma_new_id_inserted(p, out0, j as int, x); }
                assert(one_per_id(p1, out@));
            }
            i = i + 1;
            proof { assert(src@ =~= input.skip(i as int)); }
        }
        proof { assert(input.take(i as int) =~= input); }
        *solutions = out;
    }
}

proof fn lemma_filter_none<A>(s: Seq<A>, pred: spec_fn(A) -> bool)
    requires
        forall|k: int| 0 <= k < s.len() ==> !pred(#[trigger] s[k]),
    ensures
        s.filter(pred) == Seq::<A>::empty(),
    decreases s.len(),
{
    reveal(Seq::filter);
    if s.len() > 0 {
        lemma_filter_none(s.drop_last(), pred);
        assert(!pred(s[s.len() - 1]));
    }
    assert(s.filter(pred) =~= Seq::<A>::empty());
}

} // verus!
