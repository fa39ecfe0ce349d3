//! Cuts that the search makes at a panel's width or height.

use vstd::prelude::*;
use crate::engine::cut_list_thread::structs::CutListThread;
use crate::engine::cutting::is_fresh_free;
use crate::error::OptimizerError;
use crate::model::cut::Cut;
use crate::model::tile::{Tile, TileDimensions};
use crate::model::tile_node::TileNode;

verus! {

/// A cut along the abscissa `x1 + width` of the rectangle `t` of node `id` (called
/// horizontal by this search), apart from the identifiers of the parts.
pub open spec fn across_width_cut(c: Cut, t: Tile, id: i32, width: int) -> bool {
    &&& c.x1 == t.x1 + width
    &&& c.y1 == t.y1
    &&& c.x2 == t.x1 + width
    &&& c.y2 == t.y2
    &&& c.original_width == t.width_spec()
    &&& c.original_height == t.height_spec()
    &&& c.is_horizontal
    &&& c.cut_coord == width
    &&& c.original_tile_id == id
}

/// A cut along the ordinate `y1 + height` of the rectangle `t` of node `id` (called
/// vertical by this search), apart from the identifiers of the parts.
pub open spec fn across_height_cut(c: Cut, t: Tile, id: i32, height: int) -> bool {
    &&& c.x1 == t.x1
    &&& c.y1 == t.y1 + height
    &&& c.x2 == t.x2
    &&& c.y2 == t.y1 + height
    &&& c.original_width == t.width_spec()
    &&& c.original_height == t.height_spec()
    &&& !c.is_horizontal
    &&& c.cut_coord == height
    &&& c.original_tile_id == id
}

/// The coordinates stay in 32 bits when the node is cut at `x1 + width`, the second
/// part starting `thickness` further.
pub open spec fn width_cut_fits(t: Tile, width: int, thickness: int) -> bool {
    &&& i32::MIN <= t.x1 + width <= i32::MAX
    &&& i32::MIN <= t.x1 + width + thickness <= i32::MAX
    &&& i32::MIN <= t.x2 - (t.x1 + width + thickness) <= i32::MAX
    &&& t.sides_fit()
    &&& i32::MIN <= width <= i32::MAX
}

/// The coordinates stay in 32 bits when the node is cut at `y1 + height`, the second
/// part starting `thickness` further.
pub open spec fn height_cut_fits(t: Tile, height: int, thickness: int) -> bool {
    &&& i32::MIN <= t.y1 + height <= i32::MAX
    &&& i32::MIN <= t.y1 + height + thickness <= i32::MAX
    &&& i32::MIN <= t.y2 - (t.y1 + height + thickness) <= i32::MAX
    &&& t.sides_fit()
    &&& i32::MIN <= height <= i32::MAX
}

/// `n` is `o` after cutting off the parts `p1` and `p2`: each part becomes a child when
/// its area is positive, the child stays as it was otherwise, and nothing else changes.
pub open spec fn parts_attached(o: TileNode, n: TileNode, p1: TileNode, p2: TileNode) -> bool {
    &&& n.id == o.id
    &&& n.tile == o.tile
    &&& n.is_final == o.is_final
    &&& n.is_rotated == o.is_rotated
    &&& n.external_id == o.external_id
    &&& n.is_area_totally_used == o.is_area_totally_used
    &&& n.totally_used_area == o.totally_used_area
    &&& n.child1 == if p1.area() > 0 { Some(Box::new(p1)) } else { o.child1 }
    &&& n.child2 == if p2.area() > 0 { Some(Box::new(p2)) } else { o.child2 }
}


/// The first child of `node` after its cut at `x1 + width`: the new left part (with
/// identifier `id`) when its area is positive, the former first child otherwise.
pub open spec fn child_after_width_cut(node: TileNode, width: int, id: i32) -> Option<Tile> {
    if width * node.h() > 0 {
        Some(Tile { x1: node.tile.x1, x2: (node.tile.x1 + width) as i32, y1: node.tile.y1, y2: node.tile.y2 })
    } else {
        match node.child1 { Some(c) => Some(c.tile), None => None }
    }
}

/// The identifier of that first child.
pub open spec fn child_id_after_width_cut(node: TileNode, width: int, id: i32) -> i32 {
    if width * node.h() > 0 { id } else { match node.child1 { Some(c) => c.id, None => 0 } }
}

/// The first child of `node` after its cut at `y1 + height`.
pub open spec fn child_after_height_cut(node: TileNode, height: int, id: i32) -> Option<Tile> {
    if height * node.w() > 0 {
        Some(Tile { x1: node.tile.x1, x2: node.tile.x2, y1: node.tile.y1, y2: (node.tile.y1 + height) as i32 })
    } else {
        match node.child1 { Some(c) => Some(c.tile), None => None }
    }
}

/// The identifier of that first child.
pub open spec fn child_id_after_height_cut(node: TileNode, height: int, id: i32) -> i32 {
    if height * node.w() > 0 { id } else { match node.child1 { Some(c) => c.id, None => 0 } }
}

/// The cuts of `split_hv`: where the node is wider than the panel, a cut at the panel's
/// width, then, where it is also higher, a cut of the first child at the panel's height;
/// where it is only higher, a cut at the panel's height.
pub open spec fn hv_cuts(node: TileNode, tw: int, th: int, cuts: Seq<Cut>) -> bool {
    if node.w() > tw {
        &&& cuts.len() >= 1
        &&& across_width_cut(cuts[0], node.tile, node.id, tw)
        &&& match child_after_width_cut(node, tw, cuts[0].child1_tile_id) {
            Some(t) => if node.h() > th {
                cuts.len() == 2 && across_height_cut(cuts[1], t, child_id_after_width_cut(node, tw, cuts[0].child1_tile_id), th)
            } else {
                cuts.len() == 1
            },
            None => cuts.len() == 1,
        }
    } else if node.h() > th {
        cuts.len() == 1 && across_height_cut(cuts[0], node.tile, node.id, th)
    } else {
        cuts.len() == 0
    }
}

/// The cuts of `split_vh`: the same with the roles of width and height exchanged.
pub open spec fn vh_cuts(node: TileNode, tw: int, th: int, cuts: Seq<Cut>) -> bool {
    if node.h() > th {
        &&& cuts.len() >= 1
        &&& across_height_cut(cuts[0], node.tile, node.id, th)
        &&& match child_after_height_cut(node, th, cuts[0].child1_tile_id) {
            Some(t) => if node.w() > tw {
                cuts.len() == 2 && across_width_cut(cuts[1], t, child_id_after_height_cut(node, th, cuts[0].child1_tile_id), tw)
            } else {
                cuts.len() == 1
            },
            None => cuts.len() == 1,
        }
    } else if node.w() > tw {
        cuts.len() == 1 && across_width_cut(cuts[0], node.tile, node.id, tw)
    } else {
        cuts.len() == 0
    }
}

impl CutListThread {
    /// The cut at `x1 + width` of `node`, naming `tile_id` as its first part. Never an
    /// error.
    pub fn split_horizontally(&self, node: &TileNode, width: i32, _cut_thickness: i32, tile_id: i32)
        -> (r: Result<Cut, OptimizerError>)
        requires
            node.tile.sides_fit(),
            i32::MIN <= node.tile.x1 + width <= i32::MAX,
        ensures
            r matches Ok(c) && across_width_cut(c, node.tile, node.id, width as int)
                && c.child1_tile_id == tile_id && c.child2_tile_id == 0,
    {
        Ok(Cut {
            x1: node.tile.x1 + width,
            y1: node.tile.y1,
            x2: node.tile.x1 + width,
            y2: node.tile.y2,
            original_width: node.get_width(),
            original_height: node.get_height(),
            is_horizontal: true,
            cut_coord: width,
            original_tile_id: node.id,
            child1_tile_id: tile_id,
            child2_tile_id: 0,
        })
    }

    /// The cut at `y1 + height` of `node`, naming `tile_id` as its first part. Never an
    /// error.
    pub fn split_vertically(&self, node: &TileNode, height: i32, _cut_thickness: i32, tile_id: i32)
        -> (r: Result<Cut, OptimizerError>)
        requires
            node.tile.sides_fit(),
            i32::MIN <= node.tile.y1 + height <= i32::MAX,
        ensures
            r matches Ok(c) && across_height_cut(c, node.tile, node.id, height as int)
                && c.child1_tile_id == tile_id && c.child2_tile_id == 0,
    {
        Ok(Cut {
            x1: node.tile.x1,
            y1: node.tile.y1 + height,
            x2: node.tile.x2,
            y2: node.tile.y1 + height,
            original_width: node.get_width(),
            original_height: node.get_height(),
            is_horizontal: false,
            cut_coord: height,
            original_tile_id: node.id,
            child1_tile_id: tile_id,
            child2_tile_id: 0,
        })
    }

    /// Cuts `node` at `x1 + width` into a left part and a right part that starts
    /// `cut_thickness` further; each part of positive area becomes a child. Returns the
    /// cut, naming both parts. Never an error.
    pub fn split_horizontally_with_children(&self, node: &mut TileNode, width: i32, cut_thickness: i32)
        -> (r: Result<Cut, OptimizerError>)
        requires
            width_cut_fits(old(node).tile, width as int, cut_thickness as int),
        ensures
            r matches Ok(c) && across_width_cut(c, old(node).tile, old(node).id, width as int) && exists|p1: TileNode, p2: TileNode| {
                &&& is_fresh_free(p1, Tile { x1: old(node).tile.x1, x2: (old(node).tile.x1 + width) as i32,
                    y1: old(node).tile.y1, y2: old(node).tile.y2 })
                &&& is_fresh_free(p2, Tile { x1: (old(node).tile.x1 + width + cut_thickness) as i32,
                    x2: old(node).tile.x2, y1: old(node).tile.y1, y2: old(node).tile.y2 })
                &&& c.child1_tile_id == p1.id
                &&& c.child2_tile_id == p2.id
                &&& #[trigger] parts_attached(*old(node), *final(node), p1, p2)
            },
    {
        let original_width = node.get_width();
        let original_height = node.get_height();
        let x1 = node.tile.x1;
        let child1 = TileNode::new(x1, x1 + width, node.tile.y1, node.tile.y2);
        let child2 = TileNode::new(x1 + width + cut_thickness, node.tile.x2, node.tile.y1, node.tile.y2);
        let child1_id = child1.id;
        let child2_id = child2.id;
        let ghost g1 = child1;
        let ghost g2 = child2;
        if child1.get_area() > 0 {
            node.child1 = Some(Box::new(child1));
        }
        if child2.get_area() > 0 {
            node.child2 = Some(Box::new(child2));
        }
        let cut = Cut {
            x1: x1 + width,
            y1: node.tile.y1,
            x2: x1 + width,
            y2: node.tile.y2,
            original_width,
            original_height,
            is_horizontal: true,
            cut_coord: width,
            original_tile_id: node.id,
            child1_tile_id: child1_id,
            child2_tile_id: child2_id,
        };
        proof { assert(parts_attached(*old(node), *node, g1, g2)); }
        Ok(cut)
    }

    /// Cuts `node` at `y1 + height` into an upper part and a lower part that starts
    /// `cut_thickness` further; each part of positive area becomes a child. Returns the
    /// cut, naming both parts. Never an error.
    pub fn split_vertically_with_children(&self, node: &mut TileNode, height: i32, cut_thickness: i32)
        -> (r: Result<Cut, OptimizerError>)
        requires
            height_cut_fits(old(node).tile, height as int, cut_thickness as int),
        ensures
            r matches Ok(c) && across_height_cut(c, old(node).tile, old(node).id, height as int) && exists|p1: TileNode, p2: TileNode| {
                &&& is_fresh_free(p1, Tile { x1: old(node).tile.x1, x2: old(node).tile.x2,
                    y1: old(node).tile.y1, y2: (old(node).tile.y1 + height) as i32 })
                &&& is_fresh_free(p2, Tile { x1: old(node).tile.x1, x2: old(node).tile.x2,
                    y1: (old(node).tile.y1 + height + cut_thickness) as i32, y2: old(node).tile.y2 })
                &&& c.child1_tile_id == p1.id
                &&& c.child2_tile_id == p2.id
                &&& #[trigger] parts_attached(*old(node), *final(node), p1, p2)
            },
    {
        let original_width = node.get_width();
        let original_height = node.get_height();
        let y1 = node.tile.y1;
        let child1 = TileNode::new(node.tile.x1, node.tile.x2, y1, y1 + height);
        let child2 = TileNode::new(node.tile.x1, node.tile.x2, y1 + height + cut_thickness, node.tile.y2);
        let child1_id = child1.id;
        let child2_id = child2.id;
        let ghost g1 = child1;
        let ghost g2 = child2;
        if child1.get_area() > 0 {
            node.child1 = Some(Box::new(child1));
        }
        if child2.get_area() > 0 {
            node.child2 = Some(Box::new(child2));
        }
        let cut = Cut {
            x1: node.tile.x1,
            y1: y1 + height,
            x2: node.tile.x2,
            y2: y1 + height,
            original_width,
            original_height,
            is_horizontal: false,
            cut_coord: height,
            original_tile_id: node.id,
            child1_tile_id: child1_id,
            child2_tile_id: child2_id,
        };
        proof { assert(parts_attached(*old(node), *node, g1, g2)); }
        Ok(cut)
    }
    /// The cuts for placing the panel into `node` width first (see `hv_cuts`); the node
    /// itself is left as it is. Never an error.
    pub fn split_hv(&self, node: &TileNode, tile_dimensions: &TileDimensions, cut_thickness: i32)
        -> (r: Result<Vec<Cut>, OptimizerError>)
        requires
            node.tile.sides_fit(),
            node.w() > tile_dimensions.width ==> width_cut_fits(node.tile, tile_dimensions.width as int, cut_thickness as int),
            node.w() > tile_dimensions.width ==> height_cut_fits(Tile { x1: node.tile.x1,
                x2: (node.tile.x1 + tile_dimensions.width) as i32, y1: node.tile.y1, y2: node.tile.y2 },
                tile_dimensions.height as int, cut_thickness as int),
            node.child1 matches Some(c) ==> height_cut_fits(c.tile, tile_dimensions.height as int, cut_thickness as int),
            node.w() <= tile_dimensions.width ==> height_cut_fits(node.tile, tile_dimensions.height as int, cut_thickness as int),
        ensures
            r matches Ok(cuts) && hv_cuts(*node, tile_dimensions.width as int, tile_dimensions.height as int, cuts@),
    {
        let mut cuts: Vec<Cut> = Vec::new();
        let mut working_node = node.duplicate();
        if node.get_width() > tile_dimensions.width {
            let cut = match self.split_horizontally_with_children(&mut working_node, tile_dimensions.width, cut_thickness) {
                Ok(c) => c,
                Err(e) => { return Err(e); },
            };
            cuts.push(cut);
            proof {
                let (p1, p2) = choose|p1: TileNode, p2: TileNode| {
                    &&& is_fresh_free(p1, Tile { x1: node.tile.x1, x2: (node.tile.x1 + tile_dimensions.width) as i32,
                        y1: node.tile.y1, y2: node.tile.y2 })
                    &&& is_fresh_free(p2, Tile { x1: (node.tile.x1 + tile_dimensions.width + cut_thickness) as i32,
                        x2: node.tile.x2, y1: node.tile.y1, y2: node.tile.y2 })
                    &&& cut.child1_tile_id == p1.id
                    &&& cut.child2_tile_id == p2.id
                    &&& #[trigger] parts_attached(*node, working_node, p1, p2)
                };
                assert(p1.area() == tile_dimensions.width * node.h());
            }
            if node.get_height() > tile_dimensions.height {
                if let Some(child1) = &working_node.child1 {
                    let mut child1_clone = child1.duplicate();
                    let vertical_cut = match self.split_vertically_with_children(&mut child1_clone, tile_dimensions.height, cut_thickness) {
                        Ok(c) => c,
                        Err(e) => { return Err(e); },
                    };
                    cuts.push(vertical_cut);
                }
            }
        } else if node.get_height() > tile_dimensions.height {
            let cut = match self.split_vertically_with_children(&mut working_node, tile_dimensions.height, cut_thickness) {
                Ok(c) => c,
                Err(e) => { return Err(e); },
            };
            cuts.push(cut);
        }
        Ok(cuts)
    }

    /// The cuts for placing the panel into `node` height first (see `vh_cuts`); the node
    /// itself is left as it is. Never an error.
    pub fn split_vh(&self, node: &TileNode, tile_dimensions: &TileDimensions, cut_thickness: i32)
        -> (r: Result<Vec<Cut>, OptimizerError>)
        requires
            node.tile.sides_fit(),
            node.h() > tile_dimensions.height ==> height_cut_fits(node.tile, tile_dimensions.height as int, cut_thickness as int),
            node.h() > tile_dimensions.height ==> width_cut_fits(Tile { x1: node.tile.x1, x2: node.tile.x2,
                y1: node.tile.y1, y2: (node.tile.y1 + tile_dimensions.height) as i32 },
                tile_dimensions.width as int, cut_thickness as int),
            node.child1 matches Some(c) ==> width_cut_fits(c.tile, tile_dimensions.width as int, cut_thickness as int),
            node.h() <= tile_dimensions.height ==> width_cut_fits(node.tile, tile_dimensions.width as int, cut_thickness as int),
        ensures
            r matches Ok(cuts) && vh_cuts(*node, tile_dimensions.width as int, tile_dimensions.height as int, cuts@),
    {
        let mut cuts: Vec<Cut> = Vec::new();
        let mut working_node = node.duplicate();
        if node.get_height() > tile_dimensions.height {
            let cut = match self.split_vertically_with_children(&mut working_node, tile_dimensions.height, cut_thickness) {
                Ok(c) => c,
                Err(e) => { return Err(e); },
            };
            cuts.push(cut);
            proof {
                let (p1, p2) = choose|p1: TileNode, p2: TileNode| {
                    &&& is_fresh_free(p1, Tile { x1: node.tile.x1, x2: node.tile.x2,
                        y1: node.tile.y1, y2: (node.tile.y1 + tile_dimensions.height) as i32 })
                    &&& is_fresh_free(p2, Tile { x1: node.tile.x1, x2: node.tile.x2,
                        y1: (node.tile.y1 + tile_dimensions.height + cut_thickness) as i32, y2: node.tile.y2 })
                    &&& cut.child1_tile_id == p1.id
                    &&& cut.child2_tile_id == p2.id
                    &&& #[trigger] parts_attached(*node, working_node, p1, p2)
                };
                assert(p1.area() == tile_dimensions.height * node.w()) by (nonlinear_arith)
                    requires p1.area() == p1.w() * p1.h(), p1.w() == node.w(), p1.h() == tile_dimensions.height;
            }
            if node.get_width() > tile_dimensions.width {
                if let Some(child1) = &working_node.child1 {
                    let mut child1_clone = child1.duplicate();
                    let horizontal_cut = match self.split_horizontally_with_children(&mut child1_clone, tile_dimensions.width, cut_thickness) {
                        Ok(c) => c,
                        Err(e) => { return Err(e); },
                    };
                    cuts.push(horizontal_cut);
                }
            }
        } else if node.get_width() > tile_dimensions.width {
            let cut = match self.split_horizontally_with_children(&mut working_node, tile_dimensions.width, cut_thickness) {
                Ok(c) => c,
                Err(e) => { return Err(e); },
            };
            cuts.push(cut);
        }
        Ok(cuts)
    }
}

} // verus!
