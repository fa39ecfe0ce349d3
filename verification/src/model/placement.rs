//! What placing a panel into a node of the cutting tree does to the tree and to the
//! list of cuts, and the facts about layouts that placements keep.

use vstd::prelude::*;
use crate::engine::cutting::{is_fresh_free, horizontal_cut, vertical_cut};
use crate::model::cut::Cut;
use crate::model::tile::Tile;
use crate::model::tile_node::{TileNode, encloses, separated, lemma_children_area, lemma_used_area_bounds};

verus! {

/// The first node in pre-order whose rectangle is `t`.
pub open spec fn first_match(n: TileNode, t: Tile) -> Option<TileNode>
    decreases n,
{
    if n.tile == t {
        Some(n)
    } else {
        match n.child1 {
            Some(c) => match first_match(*c, t) {
                Some(f) => Some(f),
                None => match n.child2 { Some(d) => first_match(*d, t), None => None },
            },
            None => match n.child2 { Some(d) => first_match(*d, t), None => None },
        }
    }
}

/// The rectangle that a panel of `tw` x `th` takes when placed into `node`: the node's
/// top-left corner, and along each axis the panel's extent where the node is larger, the
/// node's extent otherwise.
pub open spec fn placed_tile(node: TileNode, tw: int, th: int) -> Tile {
    Tile {
        x1: node.tile.x1,
        x2: if node.w() > tw { (node.tile.x1 + tw) as i32 } else { node.tile.x2 },
        y1: node.tile.y1,
        y2: if node.h() > th { (node.tile.y1 + th) as i32 } else { node.tile.y2 },
    }
}

/// Whether placing a panel of `tw` x `th` into `node` succeeds: it matches the node
/// exactly, or every cut that it needs lies strictly inside the node.
pub open spec fn placement_succeeds(node: TileNode, tw: int, th: int) -> bool {
    let wd = node.w() - tw;
    let hd = node.h() - th;
    ||| (wd == 0 && hd == 0)
    ||| (wd > 0 && hd > 0 && tw > 0 && th > 0)
    ||| (wd > 0 && hd <= 0 && tw > 0)
    ||| (wd <= 0 && hd > 0 && th > 0)
}

/// Number of cuts a successful placement makes.
pub open spec fn placement_cuts(node: TileNode, tw: int, th: int) -> nat {
    (if node.w() > tw { 1nat } else { 0nat }) + (if node.h() > th { 1nat } else { 0nat })
}

/// A leaf holding a panel: the given rectangle, the panel's identifier and orientation
/// flag, nothing cached.
pub open spec fn is_panel_node(n: TileNode, t: Tile, ext: i32, rot: bool) -> bool {
    &&& n.tile == t
    &&& n.child1 is None
    &&& n.child2 is None
    &&& n.is_final
    &&& n.is_rotated == rot
    &&& n.external_id == ext
    &&& !n.is_area_totally_used
    &&& n.totally_used_area == 0
}

/// `n` is `o` with other children.
pub open spec fn same_but_children(o: TileNode, n: TileNode) -> bool {
    &&& n.id == o.id
    &&& n.tile == o.tile
    &&& n.is_final == o.is_final
    &&& n.is_rotated == o.is_rotated
    &&& n.external_id == o.external_id
    &&& n.is_area_totally_used == o.is_area_totally_used
    &&& n.totally_used_area == o.totally_used_area
}

/// `n` is `o` split at abscissa `xm` into a left part `l` and a free right part.
pub open spec fn split_at_x(o: TileNode, n: TileNode, xm: int) -> bool {
    let t = o.tile;
    &&& same_but_children(o, n)
    &&& n.child1 is Some
    &&& n.child2 is Some
    &&& n.child1.unwrap().tile == (Tile { x1: t.x1, x2: xm as i32, y1: t.y1, y2: t.y2 })
    &&& is_fresh_free(*n.child2.unwrap(), Tile { x1: xm as i32, x2: t.x2, y1: t.y1, y2: t.y2 })
}

/// `n` is `o` split at height `ym` into an upper part and a free lower part.
pub open spec fn split_at_y(o: TileNode, n: TileNode, ym: int) -> bool {
    let t = o.tile;
    &&& same_but_children(o, n)
    &&& n.child1 is Some
    &&& n.child2 is Some
    &&& n.child1.unwrap().tile == (Tile { x1: t.x1, x2: t.x2, y1: t.y1, y2: ym as i32 })
    &&& is_fresh_free(*n.child2.unwrap(), Tile { x1: t.x1, x2: t.x2, y1: ym as i32, y2: t.y2 })
}

/// `n` is the node `o` after a panel of `tw` x `th` with identifier `ext` and orientation
/// flag `rot` was placed into it: marked as holding the panel when they match; else cut
/// at `x1 + tw` when the node is wider, then at `y1 + th` when it is higher, with the
/// panel in the top-left part and the other parts free.
pub open spec fn node_placed(o: TileNode, n: TileNode, tw: int, th: int, ext: i32, rot: bool) -> bool {
    let t = o.tile;
    let wd = o.w() - tw;
    let hd = o.h() - th;
    let xm = t.x1 + tw;
    let ym = t.y1 + th;
    if wd == 0 && hd == 0 {
        n == (TileNode { is_final: true, external_id: ext, is_rotated: rot, ..o })
    } else if wd > 0 && hd > 0 {
        &&& tw > 0
        &&& th > 0
        &&& split_at_x(o, n, xm)
        &&& {
            let l = *n.child1.unwrap();
            &&& !l.is_final
            &&& !l.is_rotated
            &&& l.external_id == -1
            &&& !l.is_area_totally_used
            &&& l.totally_used_area == 0
            &&& l.child1 is Some
            &&& l.child2 is Some
            &&& is_panel_node(*l.child1.unwrap(), Tile { x1: t.x1, x2: xm as i32, y1: t.y1, y2: ym as i32 }, ext, rot)
            &&& is_fresh_free(*l.child2.unwrap(), Tile { x1: t.x1, x2: xm as i32, y1: ym as i32, y2: t.y2 })
        }
    } else if wd > 0 {
        &&& tw > 0
        &&& split_at_x(o, n, xm)
        &&& is_panel_node(*n.child1.unwrap(), Tile { x1: t.x1, x2: xm as i32, y1: t.y1, y2: t.y2 }, ext, rot)
    } else if hd > 0 {
        &&& th > 0
        &&& split_at_y(o, n, ym)
        &&& is_panel_node(*n.child1.unwrap(), Tile { x1: t.x1, x2: t.x2, y1: t.y1, y2: ym as i32 }, ext, rot)
    } else {
        false
    }
}

/// The cuts that the placement of `node_placed(o, n, tw, th, ..)` makes, in order.
pub open spec fn placement_cut_seq(o: TileNode, n: TileNode, tw: int, th: int) -> Seq<Cut> {
    let t = o.tile;
    let wd = o.w() - tw;
    let hd = o.h() - th;
    if wd == 0 && hd == 0 {
        Seq::empty()
    } else if wd > 0 && hd > 0 {
        let l = *n.child1.unwrap();
        seq![
            vertical_cut(t, o.id, t.x1 + tw, l.id, n.child2.unwrap().id),
            horizontal_cut(l.tile, l.id, t.y1 + th, l.child1.unwrap().id, l.child2.unwrap().id),
        ]
    } else if wd > 0 {
        seq![vertical_cut(t, o.id, t.x1 + tw, n.child1.unwrap().id, n.child2.unwrap().id)]
    } else {
        seq![horizontal_cut(t, o.id, t.y1 + th, n.child1.unwrap().id, n.child2.unwrap().id)]
    }
}

/// `n` is the tree `o` after the panel was placed into the first node in pre-order whose
/// rectangle is `t`, the placement making the cuts `cuts`; false when there is no such
/// node or the placement fails there.
pub open spec fn placed_in(o: TileNode, n: TileNode, t: Tile, tw: int, th: int, ext: i32, rot: bool, cuts: Seq<Cut>) -> bool
    decreases o,
{
    if o.tile == t {
        node_placed(o, n, tw, th, ext, rot) && cuts == placement_cut_seq(o, n, tw, th)
    } else {
        let in_first = match o.child1 { Some(c1) => first_match(*c1, t) is Some, None => false };
        if in_first {
            match o.child1 {
                Some(c1) => {
                    &&& same_but_children(o, n)
                    &&& n.child2 == o.child2
                    &&& match n.child1 {
                        Some(d1) => placed_in(*c1, *d1, t, tw, th, ext, rot, cuts),
                        None => false,
                    }
                },
                None => false,
            }
        } else {
            match o.child2 {
                Some(c2) => {
                    &&& same_but_children(o, n)
                    &&& n.child1 == o.child1
                    &&& match n.child2 {
                        Some(d2) => placed_in(*c2, *d2, t, tw, th, ext, rot, cuts),
                        None => false,
                    }
                },
                None => false,
            }
        }
    }
}


/// In a well-formed tree, the first node with rectangle `t` is well formed and lies
/// within the tree's rectangle; when it is a free leaf, the used area of the tree and
/// the leaf's area together are at most the tree's area.
pub proof fn lemma_first_match_inside(n: TileNode, t: Tile)
    requires
        n.wf(),
    ensures
        first_match(n, t) matches Some(f) ==> {
            &&& f.tile == t
            &&& encloses(n.tile, t)
            &&& f.wf()
            &&& (f.is_free_leaf() ==> n.used_area_spec() + f.area() <= n.area())
        },
    decreases n,
{
    lemma_children_area(n);
    lemma_used_area_bounds(n);
    if n.tile != t {
        match n.child1 {
            Some(c) => {
                lemma_first_match_inside(*c, t);
                lemma_used_area_bounds(*c);
            },
            None => {},
        }
        match n.child2 {
            Some(c) => {
                lemma_first_match_inside(*c, t);
                lemma_used_area_bounds(*c);
            },
            None => {},
        }
    }
}

/// Placing a panel into a free leaf of positive area itself: the placement succeeds,
/// the node stays well formed with its rectangle, holds one panel covering the placed
/// rectangle, and has as many free leaves, and made as many cuts, as the placement needs.
pub proof fn lemma_node_placed_effect(o: TileNode, n: TileNode, tw: int, th: int, ext: i32, rot: bool)
    requires
        o.wf(),
        o.is_free_leaf(),
        o.w() > 0,
        o.h() > 0,
        node_placed(o, n, tw, th, ext, rot),
    ensures
        placement_succeeds(o, tw, th),
        n.wf(),
        n.tile == o.tile,
        o.final_count() == 0,
        o.free_count() == 1,
        o.used_area_spec() == 0,
        n.final_count() == 1,
        n.used_area_spec() == placed_tile(o, tw, th).area_spec(),
        n.free_count() == placement_cuts(o, tw, th),
        placement_cut_seq(o, n, tw, th).len() == placement_cuts(o, tw, th),
{
    assert(o.area() > 0) by (nonlinear_arith)
        requires o.area() == o.w() * o.h(), o.w() > 0, o.h() > 0;
    assert(!o.is_area_totally_used);
    let t = o.tile;
    let wd = o.w() - tw;
    let hd = o.h() - th;
    if wd == 0 && hd == 0 {
        assert(placed_tile(o, tw, th) == t);
    } else if wd > 0 && hd > 0 {
        let l = *n.child1.unwrap();
        let r = *n.child2.unwrap();
        let p = *l.child1.unwrap();
        let b = *l.child2.unwrap();
        assert(p.wf());
        assert(b.wf());
        assert(r.wf());
        assert(l.wf());
        assert(p.tile == placed_tile(o, tw, th));
        assert(p.final_count() == 1 && b.final_count() == 0 && r.final_count() == 0);
        assert(p.used_area_spec() == p.area() && b.used_area_spec() == 0 && r.used_area_spec() == 0);
        assert(p.free_count() == 0 && b.free_count() == 1 && r.free_count() == 1);
        assert(l.final_count() == 1 && l.used_area_spec() == p.area() && l.free_count() == 1);
        assert(n.final_count() == 1 && n.used_area_spec() == p.area() && n.free_count() == 2);
    } else {
        let p = *n.child1.unwrap();
        let r = *n.child2.unwrap();
        assert(p.wf() && r.wf());
        assert(p.tile == placed_tile(o, tw, th));
        assert(p.final_count() == 1 && r.final_count() == 0);
        assert(p.used_area_spec() == p.area() && r.used_area_spec() == 0);
        assert(p.free_count() == 0 && r.free_count() == 1);
        assert(n.final_count() == 1 && n.used_area_spec() == p.area() && n.free_count() == 1);
    }
}

/// Placing a panel into the tree at a free leaf of positive area keeps the layout well
/// formed and its rectangle unchanged, adds exactly one placed panel, adds the area of
/// the placed rectangle to the used area, turns the free leaf into as many free leaves
/// as cuts were made, and makes exactly the cuts that the placement needs.
pub proof fn lemma_placement_effect(o: TileNode, n: TileNode, t: Tile, tw: int, th: int, ext: i32, rot: bool, cuts: Seq<Cut>)
    requires
        o.wf(),
        placed_in(o, n, t, tw, th, ext, rot, cuts),
        first_match(o, t) matches Some(f) && f.is_free_leaf() && f.w() > 0 && f.h() > 0,
    ensures
        ({
            let f = first_match(o, t).unwrap();
            &&& placement_succeeds(f, tw, th)
            &&& n.wf()
            &&& n.tile == o.tile
            &&& n.final_count() == o.final_count() + 1
            &&& n.used_area_spec() == o.used_area_spec() + placed_tile(f, tw, th).area_spec()
            &&& n.free_count() + 1 == o.free_count() + placement_cuts(f, tw, th)
            &&& cuts.len() == placement_cuts(f, tw, th)
        }),
    decreases o,
{
    let f = first_match(o, t).unwrap();
    lemma_first_match_inside(o, t);
    if o.tile == t {
        lemma_node_placed_effect(o, n, tw, th, ext, rot);
    } else {
        assert(f.area() > 0) by (nonlinear_arith)
            requires f.area() == f.w() * f.h(), f.w() > 0, f.h() > 0;
        assert(!o.is_area_totally_used);
        assert(!o.is_final);
        let in_first = match o.child1 { Some(c1) => first_match(*c1, t) is Some, None => false };
        if in_first {
            let c1 = *o.child1.unwrap();
            let d1 = *n.child1.unwrap();
            assert(first_match(c1, t) == first_match(o, t));
            lemma_placement_effect(c1, d1, t, tw, th, ext, rot, cuts);
            assert(n.wf());
        } else {
            let c2 = *o.child2.unwrap();
            let d2 = *n.child2.unwrap();
            assert(first_match(c2, t) == first_match(o, t));
            lemma_placement_effect(c2, d2, t, tw, th, ext, rot, cuts);
            assert(n.wf());
        }
    }
}


/// Every free leaf of a tree lies within the tree's rectangle.
pub proof fn lemma_free_leaf_inside(n: TileNode, m: TileNode)
    requires
        n.wf(),
        n.free_leaves().contains(m),
    ensures
        encloses(n.tile, m.tile),
        m.wf(),
        m.is_free_leaf(),
    decreases n,
{
    let own = if n.is_free_leaf() { seq![n] } else { Seq::<TileNode>::empty() };
    let l1 = match n.child1 { Some(c) => c.free_leaves(), None => Seq::<TileNode>::empty() };
    let l2 = match n.child2 { Some(c) => c.free_leaves(), None => Seq::<TileNode>::empty() };
    assert(n.free_leaves() == own + l1 + l2);
    let k = choose|k: int| 0 <= k < n.free_leaves().len() && n.free_leaves()[k] == m;
    if k < own.len() {
        assert(m == n);
    } else if k < own.len() + l1.len() {
        assert(l1[k - own.len()] == m);
        assert(l1.contains(m));
        lemma_free_leaf_inside(*n.child1.unwrap(), m);
    } else {
        assert(l2[k - own.len() - l1.len()] == m);
        assert(l2.contains(m));
        lemma_free_leaf_inside(*n.child2.unwrap(), m);
    }
}

/// In a well-formed tree, a free leaf of positive area is the only node with its
/// rectangle: it is the node that a search by that rectangle finds.
pub proof fn lemma_free_leaf_found(n: TileNode, m: TileNode)
    requires
        n.wf(),
        n.free_leaves().contains(m),
        m.w() > 0,
        m.h() > 0,
    ensures
        first_match(n, m.tile) == Some(m),
    decreases n,
{
    let own = if n.is_free_leaf() { seq![n] } else { Seq::<TileNode>::empty() };
    let l1 = match n.child1 { Some(c) => c.free_leaves(), None => Seq::<TileNode>::empty() };
    let l2 = match n.child2 { Some(c) => c.free_leaves(), None => Seq::<TileNode>::empty() };
    assert(n.free_leaves() == own + l1 + l2);
    let k = choose|k: int| 0 <= k < n.free_leaves().len() && n.free_leaves()[k] == m;
    if k < own.len() {
        assert(m == n);
    } else if k < own.len() + l1.len() {
        let c1 = *n.child1.unwrap();
        assert(l1[k - own.len()] == m);
        assert(l1.contains(m));
        lemma_free_leaf_inside(c1, m);
        lemma_free_leaf_found(c1, m);
        assert(n.tile != m.tile);
    } else {
        let c2 = *n.child2.unwrap();
        assert(l2[k - own.len() - l1.len()] == m);
        assert(l2.contains(m));
        lemma_free_leaf_inside(c2, m);
        lemma_free_leaf_found(c2, m);
        assert(n.tile != m.tile);
        match n.child1 {
            Some(c1) => {
                lemma_first_match_inside(*c1, m.tile);
                assert(first_match(*c1, m.tile) is None);
            },
            None => {},
        }
    }
}

} // verus!
