//! The free nodes into which the search may place a panel.

use vstd::prelude::*;
use crate::engine::cut_list_thread::structs::CutListThread;
use crate::model::tile_node::{TileNode, lemma_wf_sides};

verus! {

/// The leaves of `n`, in pre-order, into which a panel of `w` x `h` may go as it is: not
/// holding a panel, at least as large, and along each axis either of exactly the panel's
/// size or larger by at least `trim`; subtrees smaller than the panel or holding a panel
/// are not searched.
pub open spec fn trim_candidates(n: TileNode, w: int, h: int, trim: int) -> Seq<TileNode>
    decreases n,
{
    if n.is_final || n.w() < w || n.h() < h {
        Seq::empty()
    } else if n.is_leaf() {
        let width_ok = n.w() == w || n.w() >= trim + w;
        let height_ok = n.h() == h || n.h() >= trim + h;
        if width_ok && height_ok { seq![n] } else { Seq::empty() }
    } else {
        (match n.child1 { Some(c) => trim_candidates(*c, w, h, trim), None => Seq::empty() })
            + (match n.child2 { Some(c) => trim_candidates(*c, w, h, trim), None => Seq::empty() })
    }
}

/// Among the leaves of `n` that the search for `trim_candidates` visits, one is larger
/// than a panel of `w` x `h` along an axis but by less than `trim`: the trim kept the
/// panel out of it.
pub open spec fn trim_influenced(n: TileNode, w: int, h: int, trim: int) -> bool
    decreases n,
{
    if n.is_final || n.w() < w || n.h() < h {
        false
    } else if n.is_leaf() {
        let width_ok = n.w() == w || n.w() >= trim + w;
        let height_ok = n.h() == h || n.h() >= trim + h;
        (!width_ok && n.w() > w) || (!height_ok && n.h() > h)
    } else {
        (match n.child1 { Some(c) => trim_influenced(*c, w, h, trim), None => false })
            || (match n.child2 { Some(c) => trim_influenced(*c, w, h, trim), None => false })
    }
}

impl CutListThread {
    /// Appends to `candidates` copies of the leaves of `tile_node` into which a panel of
    /// `width` x `height` may go (see `trim_candidates`, with this search's trim), and
    /// tells whether the trim kept the panel out of a visited leaf (`trim_influenced`).
    pub fn find_candidates(&self, width: i32, height: i32, tile_node: &TileNode, candidates: &mut Vec<TileNode>) -> (influenced: bool)
        requires
            tile_node.wf(),
        ensures
            final(candidates)@ == old(candidates)@ + trim_candidates(*tile_node, width as int, height as int,
                self.min_trim_dimension as int),
            influenced == trim_influenced(*tile_node, width as int, height as int, self.min_trim_dimension as int),
        decreases tile_node,
    {
        proof { lemma_wf_sides(*tile_node); }
        if tile_node.is_final || tile_node.get_width() < width || tile_node.get_height() < height {
            proof { assert(old(candidates)@ + Seq::<TileNode>::empty() =~= old(candidates)@); }
            return false;
        }
        if tile_node.child1.is_none() && tile_node.child2.is_none() {
            let w = tile_node.get_width() as i64;
            let h = tile_node.get_height() as i64;
            let width_ok = w == width as i64 || w >= self.min_trim_dimension as i64 + width as i64;
            let height_ok = h == height as i64 || h >= self.min_trim_dimension as i64 + height as i64;
            if width_ok && height_ok {
                candidates.push(tile_node.duplicate());
            }
            proof { assert(candidates@ =~= old(candidates)@ + trim_candidates(*tile_node, width as int, height as int,
                self.min_trim_dimension as int)); }
            return (!width_ok && w > width as i64) || (!height_ok && h > height as i64);
        }
        let ghost c0 = candidates@;
        let mut influenced = false;
        if let Some(child1) = &tile_node.child1 {
            influenced = self.find_candidates(width, height, child1, candidates);
        }
        let ghost c1 = candidates@;
        if let Some(child2) = &tile_node.child2 {
            let second = self.find_candidates(width, height, child2, candidates);
            influenced = influenced || second;
        }
        proof {
            let l1 = match &tile_node.child1 { Some(c) => trim_candidates(**c, width as int, height as int, self.min_trim_dimension as int), None => Seq::<TileNode>::empty() };
            let l2 = match &tile_node.child2 { Some(c) => trim_candidates(**c, width as int, height as int, self.min_trim_dimension as int), None => Seq::<TileNode>::empty() };
            assert(c1 =~= c0 + l1);
            assert(candidates@ =~= c1 + l2);
            assert(candidates@ =~= c0 + (l1 + l2));
        }
        influenced
    }
}

} // verus!
