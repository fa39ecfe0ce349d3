//! Guillotine splits of tree nodes and the placement engine built on them.

use vstd::prelude::*;
use crate::error::CuttingError;
use crate::model::cut::{Cut, CutBuilder};
use crate::model::tile::Tile;
use crate::model::tile::{TileDimensions, fits_spec};
use crate::model::tile_node::{TileNode, lemma_wf_sides, deref_seq};
use crate::model::mosaic::{Mosaic, lemma_free_leaves_wf};
use crate::model::placement::{placement_succeeds, node_placed, split_at_x};

verus! {

/// Order in which the two cuts around a placed panel are made.
#[derive(Debug, Clone, Copy, PartialEq, Eq, Structural)]
pub enum CutDirection {
    Horizontal,
    Vertical,
    Both,
}

/// The two parts of a split node and the cut between them.
#[derive(Debug)]
pub struct CutResult {
    pub left_node: TileNode,
    pub right_node: TileNode,
    pub cut: Cut,
}

/// The placement engine.
pub struct CuttingEngine;

/// A fresh free node with the given rectangle (any identifier, no panel, no cache).
pub open spec fn is_fresh_free(n: TileNode, t: Tile) -> bool {
    &&& n.tile == t
    &&& n.child1 is None
    &&& n.child2 is None
    &&& !n.is_final
    &&& !n.is_rotated
    &&& n.external_id == -1
    &&& !n.is_area_totally_used
    &&& n.totally_used_area == 0
}

/// The horizontal cut at height `pos` through the rectangle `t` of node `id`, with the
/// identifiers of the two parts.
pub open spec fn horizontal_cut(t: Tile, id: i32, pos: int, c1: i32, c2: i32) -> Cut {
    Cut {
        x1: t.x1, y1: pos as i32, x2: t.x2, y2: pos as i32,
        original_width: t.width_spec() as i32, original_height: t.height_spec() as i32,
        is_horizontal: true, cut_coord: pos as i32, original_tile_id: id,
        child1_tile_id: c1, child2_tile_id: c2,
    }
}

/// The vertical cut at abscissa `pos` through the rectangle `t` of node `id`, with the
/// identifiers of the two parts.
pub open spec fn vertical_cut(t: Tile, id: i32, pos: int, c1: i32, c2: i32) -> Cut {
    Cut {
        x1: pos as i32, y1: t.y1, x2: pos as i32, y2: t.y2,
        original_width: t.width_spec() as i32, original_height: t.height_spec() as i32,
        is_horizontal: false, cut_coord: pos as i32, original_tile_id: id,
        child1_tile_id: c1, child2_tile_id: c2,
    }
}

/// The split that `split_horizontally` makes at `pos`: the upper and lower parts of the
/// node and the cut between them.
pub open spec fn horizontal_split_ok(node: TileNode, pos: int, r: CutResult) -> bool {
    let t = node.tile;
    &&& is_fresh_free(r.left_node, Tile { x1: t.x1, x2: t.x2, y1: t.y1, y2: pos as i32 })
    &&& is_fresh_free(r.right_node, Tile { x1: t.x1, x2: t.x2, y1: pos as i32, y2: t.y2 })
    &&& r.cut == horizontal_cut(t, node.id, pos, r.left_node.id, r.right_node.id)
}

/// The split that `split_vertically` makes at `pos`: the left and right parts of the
/// node and the cut between them.
pub open spec fn vertical_split_ok(node: TileNode, pos: int, r: CutResult) -> bool {
    let t = node.tile;
    &&& is_fresh_free(r.left_node, Tile { x1: t.x1, x2: pos as i32, y1: t.y1, y2: t.y2 })
    &&& is_fresh_free(r.right_node, Tile { x1: pos as i32, x2: t.x2, y1: t.y1, y2: t.y2 })
    &&& r.cut == vertical_cut(t, node.id, pos, r.left_node.id, r.right_node.id)
}


/// What placing a panel of `tw` x `th` with cuts does to a free leaf `o` that is at least
/// as large along both axes but not of the same size: when every cut lies strictly inside
/// the node, the panel is placed as `node_placed` says; otherwise the first cut that falls
/// outside is reported, after the vertical cut that was already made, if any.
pub open spec fn cut_placement_outcome(o: TileNode, n: TileNode, r: Result<bool, CuttingError>, tw: int, th: int, ext: i32, rot: bool) -> bool {
    let t = o.tile;
    let wd = o.w() - tw;
    let hd = o.h() - th;
    if placement_succeeds(o, tw, th) {
        r == Ok::<bool, CuttingError>(true) && node_placed(o, n, tw, th, ext, rot)
    } else if wd > 0 && tw > 0 {
        &&& r == Err::<bool, CuttingError>(CuttingError::InvalidCutPosition {
            position: (t.y1 + th) as i32, min: t.y1, max: t.y2 })
        &&& split_at_x(o, n, t.x1 + tw)
        &&& is_fresh_free(*n.child1.unwrap(), Tile { x1: t.x1, x2: (t.x1 + tw) as i32, y1: t.y1, y2: t.y2 })
    } else if wd > 0 {
        &&& r == Err::<bool, CuttingError>(CuttingError::InvalidCutPosition {
            position: (t.x1 + tw) as i32, min: t.x1, max: t.x2 })
        &&& n == o
    } else {
        &&& r == Err::<bool, CuttingError>(CuttingError::InvalidCutPosition {
            position: (t.y1 + th) as i32, min: t.y1, max: t.y2 })
        &&& n == o
    }
}

/// What `try_place_tile` does to the node `o`, ending as `n` with result `r`.
pub open spec fn try_place_outcome(o: TileNode, n: TileNode, r: Result<bool, CuttingError>, td: TileDimensions) -> bool {
    let w = o.w();
    let h = o.h();
    let tw = td.width as int;
    let th = td.height as int;
    let square = tw == th;
    if o.is_final || !o.is_leaf() {
        r == Ok::<bool, CuttingError>(false) && n == o
    } else if w == tw && h == th {
        r == Ok::<bool, CuttingError>(true) && n == (TileNode { is_final: true, external_id: td.id, ..o })
    } else if !square && w == th && h == tw {
        r == Ok::<bool, CuttingError>(true)
            && n == (TileNode { is_final: true, external_id: td.id, is_rotated: true, ..o })
    } else if w >= tw && h >= th {
        cut_placement_outcome(o, n, r, tw, th, td.id, false)
    } else if !square && w >= th && h >= tw {
        cut_placement_outcome(o, n, r, th, tw, td.id, true)
    } else {
        r == Ok::<bool, CuttingError>(false) && n == o
    }
}

/// `leaves[i]` has the smallest area, and every earlier leaf a larger one.
pub open spec fn first_smallest_at(leaves: Seq<TileNode>, i: int) -> bool {
    &&& 0 <= i < leaves.len()
    &&& forall|j: int| 0 <= j < leaves.len() ==> leaves[i].area() <= #[trigger] leaves[j].area()
    &&& forall|j: int| 0 <= j < i ==> leaves[i].area() < #[trigger] leaves[j].area()
}

impl CuttingEngine {
    /// Splits `node` by a horizontal cut at `cut_position` into an upper part
    /// (`left_node`) and a lower part (`right_node`). The cut must lie strictly between
    /// the node's top and bottom; the thickness of the saw does not shift the parts.
    pub fn split_horizontally(node: &TileNode, cut_position: i32, _cut_thickness: i32) -> (r: Result<CutResult, CuttingError>)
        requires
            node.tile.sides_fit(),
        ensures
            match r {
                Ok(res) => node.tile.y1 < cut_position < node.tile.y2 && horizontal_split_ok(*node, cut_position as int, res),
                Err(e) => !(node.tile.y1 < cut_position < node.tile.y2)
                    && e == CuttingError::InvalidCutPosition { position: cut_position, min: node.tile.y1, max: node.tile.y2 },
            },
    {
        if cut_position <= node.get_y1() || cut_position >= node.get_y2() {
            return Err(CuttingError::InvalidCutPosition {
                position: cut_position,
                min: node.get_y1(),
                max: node.get_y2(),
            });
        }
        let top_node = TileNode::new(node.get_x1(), node.get_x2(), node.get_y1(), cut_position);
        let bottom_node = TileNode::new(node.get_x1(), node.get_x2(), cut_position, node.get_y2());
        let cut = CutBuilder::new()
            .set_x1(node.get_x1())
            .set_y1(cut_position)
            .set_x2(node.get_x2())
            .set_y2(cut_position)
            .set_original_width(node.get_width())
            .set_original_height(node.get_height())
            .set_horizontal(true)
            .set_cut_coords(cut_position)
            .set_original_tile_id(node.id)
            .set_child1_tile_id(top_node.id)
            .set_child2_tile_id(bottom_node.id)
            .build();
        Ok(CutResult { left_node: top_node, right_node: bottom_node, cut })
    }

    /// Splits `node` by a vertical cut at `cut_position` into a left part (`left_node`)
    /// and a right part (`right_node`). The cut must lie strictly between the node's
    /// left and right sides; the thickness of the saw does not shift the parts.
    pub fn split_vertically(node: &TileNode, cut_position: i32, _cut_thickness: i32) -> (r: Result<CutResult, CuttingError>)
        requires
            node.tile.sides_fit(),
        ensures
            match r {
                Ok(res) => node.tile.x1 < cut_position < node.tile.x2 && vertical_split_ok(*node, cut_position as int, res),
                Err(e) => !(node.tile.x1 < cut_position < node.tile.x2)
                    && e == CuttingError::InvalidCutPosition { position: cut_position, min: node.tile.x1, max: node.tile.x2 },
            },
    {
        if cut_position <= node.get_x1() || cut_position >= node.get_x2() {
            return Err(CuttingError::InvalidCutPosition {
                position: cut_position,
                min: node.get_x1(),
                max: node.get_x2(),
            });
        }
        let left_node = TileNode::new(node.get_x1(), cut_position, node.get_y1(), node.get_y2());
        let right_node = TileNode::new(cut_position, node.get_x2(), node.get_y1(), node.get_y2());
        let cut = CutBuilder::new()
            .set_x1(cut_position)
            .set_y1(node.get_y1())
            .set_x2(cut_position)
            .set_y2(node.get_y2())
            .set_original_width(node.get_width())
            .set_original_height(node.get_height())
            .set_horizontal(false)
            .set_cut_coords(cut_position)
            .set_original_tile_id(node.id)
            .set_child1_tile_id(left_node.id)
            .set_child2_tile_id(right_node.id)
            .build();
        Ok(CutResult { left_node, right_node, cut })
    }
    /// Places a panel into a free leaf, as it is when it fits so, else turned (unless it is
    /// square): marking the leaf when the sizes match, else cutting at the panel's width
    /// and then at its height and marking the top-left part. `Ok(false)` when the node is
    /// not a free leaf or the panel does not fit; a cut outside the node is an error.
    pub fn try_place_tile(node: &mut TileNode, tile_dimensions: &TileDimensions) -> (r: Result<bool, CuttingError>)
        requires
            old(node).wf(),
        ensures
            try_place_outcome(*old(node), *final(node), r, *tile_dimensions),
    {
        if node.is_final || node.has_children() {
            return Ok(false);
        }
        proof { lemma_wf_sides(*node); }
        let w = node.get_width();
        let h = node.get_height();
        if w == tile_dimensions.width && h == tile_dimensions.height {
            node.is_final = true;
            node.external_id = tile_dimensions.id;
            return Ok(true);
        }
        if !tile_dimensions.is_square() && w == tile_dimensions.height && h == tile_dimensions.width {
            node.is_final = true;
            node.external_id = tile_dimensions.id;
            node.is_rotated = true;
            return Ok(true);
        }
        if w >= tile_dimensions.width && h >= tile_dimensions.height {
            return Self::place_with_cuts(node, tile_dimensions.width, tile_dimensions.height, tile_dimensions.id, false);
        }
        if !tile_dimensions.is_square() && w >= tile_dimensions.height && h >= tile_dimensions.width {
            return Self::place_with_cuts(node, tile_dimensions.height, tile_dimensions.width, tile_dimensions.id, true);
        }
        Ok(false)
    }

    /// Cuts a free leaf that is at least as large as the panel along both axes, but not
    /// of its size, and marks the top-left part as holding the panel.
    fn place_with_cuts(node: &mut TileNode, tile_width: i32, tile_height: i32, external_id: i32, rotated: bool)
        -> (r: Result<bool, CuttingError>)
        requires
            old(node).wf(),
            old(node).is_free_leaf(),
            old(node).w() >= tile_width,
            old(node).h() >= tile_height,
            !(old(node).w() == tile_width && old(node).h() == tile_height),
        ensures
            cut_placement_outcome(*old(node), *final(node), r, tile_width as int, tile_height as int, external_id, rotated),
    {
        proof { lemma_wf_sides(*node); }
        let cut_thickness: i32 = 3;
        let need_vertical_cut = node.get_width() > tile_width;
        let need_horizontal_cut = node.get_height() > tile_height;
        if need_vertical_cut && need_horizontal_cut {
            let vertical = match Self::split_vertically(node, node.get_x1() + tile_width, cut_thickness) {
                Ok(c) => c,
                Err(e) => { return Err(e); },
            };
            let CutResult { left_node, right_node, cut: _ } = vertical;
            let mut left_child = left_node;
            if left_child.get_height() > tile_height {
                let horizontal = match Self::split_horizontally(&left_child, left_child.get_y1() + tile_height, cut_thickness) {
                    Ok(c) => c,
                    Err(e) => {
                        node.child1 = Some(Box::new(left_child));
                        node.child2 = Some(Box::new(right_node));
                        return Err(e);
                    },
                };
                let CutResult { left_node: top_left, right_node: bottom_left, cut: _ } = horizontal;
                let mut panel = top_left;
                panel.is_final = true;
                panel.external_id = external_id;
                if rotated {
                    panel.is_rotated = true;
                }
                left_child.child1 = Some(Box::new(panel));
                left_child.child2 = Some(Box::new(bottom_left));
            } else {
                left_child.is_final = true;
                left_child.external_id = external_id;
                if rotated {
                    left_child.is_rotated = true;
                }
            }
            node.child1 = Some(Box::new(left_child));
            node.child2 = Some(Box::new(right_node));
        } else if need_vertical_cut {
            let cut = match Self::split_vertically(node, node.get_x1() + tile_width, cut_thickness) {
                Ok(c) => c,
                Err(e) => { return Err(e); },
            };
            let CutResult { left_node, right_node, cut: _ } = cut;
            let mut left_child = left_node;
            left_child.is_final = true;
            left_child.external_id = external_id;
            if rotated {
                left_child.is_rotated = true;
            }
            node.child1 = Some(Box::new(left_child));
            node.child2 = Some(Box::new(right_node));
        } else {
            let cut = match Self::split_horizontally(node, node.get_y1() + tile_height, cut_thickness) {
                Ok(c) => c,
                Err(e) => { return Err(e); },
            };
            let CutResult { left_node, right_node, cut: _ } = cut;
            let mut top_child = left_node;
            top_child.is_final = true;
            top_child.external_id = external_id;
            if rotated {
                top_child.is_rotated = true;
            }
            node.child1 = Some(Box::new(top_child));
            node.child2 = Some(Box::new(right_node));
        }
        Ok(true)
    }

    /// The free leaf of smallest area into which the panel fits, as it is or turned; the
    /// first such leaf in pre-order on ties.
    pub fn find_best_fit_node<'a>(root: &'a TileNode, tile_dimensions: &TileDimensions) -> (r: Option<&'a TileNode>)
        requires
            root.wf(),
        ensures
            ({
                let cands = root.free_leaves().filter(
                    |n: TileNode| fits_spec(n.w(), n.h(), tile_dimensions.width as int, tile_dimensions.height as int),
                );
                match r {
                    None => cands.len() == 0,
                    Some(n) => exists|i: int| #[trigger] first_smallest_at(cands, i) && cands[i] == *n,
                }
            }),
    {
        let ghost pred = |n: TileNode| fits_spec(n.w(), n.h(), tile_dimensions.width as int, tile_dimensions.height as int);
        let ghost cands = root.free_leaves().filter(pred);
        let mut found: Vec<&TileNode> = Vec::new();
        Mosaic::find_candidates_recursive(root, tile_dimensions, &mut found);
        proof {
            assert(deref_seq(Seq::<&TileNode>::empty()) =~= Seq::<TileNode>::empty());
            assert(Seq::<TileNode>::empty() + cands =~= cands);
            assert(deref_seq(found@).len() == found@.len());
            lemma_free_leaves_wf(*root);
            assert forall|k: int| 0 <= k < cands.len() implies (#[trigger] cands[k]).wf() by {
                root.free_leaves().lemma_filter_pred(pred, k);
                assert(cands.contains(cands[k]));
                root.free_leaves().lemma_filter_contains_rev(pred, cands[k]);
            }
        }
        let mut best_node: Option<&TileNode> = None;
        let mut best_area: i64 = i64::MAX;
        let mut best: usize = 0;
        let mut i: usize = 0;
        while i < found.len()
            invariant
                deref_seq(found@) == cands,
                forall|k: int| 0 <= k < cands.len() ==> (#[trigger] cands[k]).wf(),
                0 <= i <= found@.len(),
                best_node is None ==> i == 0 && best_area == i64::MAX,
                best_node matches Some(b) ==> {
                    &&& best < i
                    &&& *b == cands[best as int]
                    &&& best_area == cands[best as int].area()
                    &&& forall|j: int| 0 <= j < i ==> best_area <= #[trigger] cands[j].area()
                    &&& forall|j: int| 0 <= j < best ==> best_area < #[trigger] cands[j].area()
                },
            decreases found@.len() - i,
        {
            assert(deref_seq(found@)[i as int] == *found@[i as int]);
            proof {
                let c = cands[i as int];
                lemma_wf_sides(c);
                assert(c.w() * c.h() < i64::MAX) by (nonlinear_arith)
                    requires 0 <= c.w() <= i32::MAX, 0 <= c.h() <= i32::MAX;
            }
            let node_area = found[i].get_area();
            if node_area < best_area {
                best_area = node_area;
                best_node = Some(found[i]);
                best = i;
            }
            i = i + 1;
        }
        proof {
            if let Some(b) = best_node {
                assert(first_smallest_at(cands, best as int));
            }
        }
        best_node
    }
}

} // verus!
