//! A stock sheet with the panels placed on it and the cuts made in it.

use vstd::prelude::*;
use vstd::string::*;
use crate::engine::cutting::{CuttingEngine, CutResult, vertical_split_ok, horizontal_split_ok, is_fresh_free, vertical_cut, horizontal_cut};
use crate::error::CuttingError;
use crate::model::cut::Cut;
use crate::model::tile::{Tile, TileDimensions, fits_spec};
use crate::model::placement::{
    first_match, placement_succeeds, placed_in, node_placed, placement_cut_seq, split_at_x,
    split_at_y, is_panel_node, placed_tile, placement_cuts, lemma_placement_effect, lemma_free_leaf_found, lemma_free_leaf_inside,
};
use crate::model::tile_node::{
    TileNode, deref_seq, encloses, separated, lemma_wf_sides, lemma_used_area_bounds, lemma_children_area,
    lemma_rect_within, lemma_deref_push_or_not,
};

verus! {

broadcast use vstd::std_specs::hash::group_hash_axioms;

/// One sheet of material: the tree of its regions, the cuts made so far, its material,
/// the stock panel it came from, its grain orientation and the saw kerf.
#[derive(Debug)]
pub struct Mosaic {
    pub root_tile_node: TileNode,
    pub cuts: Vec<Cut>,
    pub material: String,
    pub stock_id: i32,
    pub orientation: i32,
    pub kerf_width: i32,
}

/// What a sheet holds, as a value: layout, cuts, material, stock panel, orientation
/// and kerf.
pub type MosaicView = (TileNode, Seq<Cut>, Seq<char>, i32, i32, i32);

impl View for Mosaic {
    type V = MosaicView;

    open spec fn view(&self) -> MosaicView {
        (self.root_tile_node, self.cuts@, self.material@, self.stock_id, self.orientation, self.kerf_width)
    }
}

/// Two sheets are equal as the library compares them: layouts equal node by node, and
/// the same cuts, material, stock panel, orientation and kerf.
pub open spec fn same_view(a: MosaicView, b: MosaicView) -> bool {
    &&& a.0.same_node(b.0)
    &&& a.1 == b.1
    &&& a.2 == b.2
    &&& a.3 == b.3
    &&& a.4 == b.4
    &&& a.5 == b.5
}

/// Width and height of a panel in the orientation in which it is placed.
pub open spec fn oriented(td: TileDimensions, rotated: bool) -> (int, int) {
    if rotated { (td.height as int, td.width as int) } else { (td.width as int, td.height as int) }
}

/// Placing the panel, turned or not, into the first node of `m` whose rectangle is `t`
/// succeeds.
pub open spec fn placement_ok(m: Mosaic, t: Tile, td: TileDimensions, rotated: bool) -> bool {
    let (tw, th) = oriented(td, rotated);
    match first_match(m.root_tile_node, t) {
        Some(f) => placement_succeeds(f, tw, th),
        None => false,
    }
}

/// `r` is the sheet `m` after the panel, turned or not, was placed into the first node
/// whose rectangle is `t`: the new cuts follow the old ones, and material, stock panel,
/// orientation and kerf stay.
pub open spec fn placed_mosaic(m: Mosaic, r: Mosaic, t: Tile, td: TileDimensions, rotated: bool) -> bool {
    let (tw, th) = oriented(td, rotated);
    &&& m.cuts@.len() <= r.cuts@.len()
    &&& r.cuts@.subrange(0, m.cuts@.len() as int) == m.cuts@
    &&& placed_in(m.root_tile_node, r.root_tile_node, t, tw, th, td.id, rotated,
            r.cuts@.subrange(m.cuts@.len() as int, r.cuts@.len() as int))
    &&& r.material@ == m.material@
    &&& r.stock_id == m.stock_id
    &&& r.orientation == m.orientation
    &&& r.kerf_width == m.kerf_width
}

/// `out` is what `add` returns for the candidate nodes `cands`: for each candidate in
/// turn, the sheet with the panel placed as it is, if that succeeds, then, if turning is
/// tried, the sheet with the panel turned, if that succeeds.
pub open spec fn add_results(m: Mosaic, cands: Seq<TileNode>, td: TileDimensions, try_turned: bool, out: Seq<Mosaic>) -> bool
    decreases cands.len(),
{
    if cands.len() == 0 {
        out.len() == 0
    } else {
        let c = cands.last();
        let n_ok = placement_ok(m, c.tile, td, false);
        let r_ok = try_turned && placement_ok(m, c.tile, td, true);
        let k: int = (if n_ok { 1int } else { 0int }) + (if r_ok { 1int } else { 0int });
        &&& out.len() >= k
        &&& add_results(m, cands.drop_last(), td, try_turned, out.subrange(0, out.len() - k))
        &&& n_ok ==> placed_mosaic(m, out[out.len() - k], c.tile, td, false)
        &&& r_ok ==> placed_mosaic(m, out[out.len() - 1], c.tile, td, true)
    }
}

/// `r` is the sheet `m` after the panel, turned or not, was placed into its free leaf
/// `c`: the layout stays well formed over the same sheet, holds one more panel, covers
/// in addition the rectangle that the panel takes in `c`, and the cuts that the placement
/// needs follow the old ones.
pub open spec fn placed_into(m: Mosaic, r: Mosaic, c: TileNode, td: TileDimensions, rotated: bool) -> bool {
    let (tw, th) = oriented(td, rotated);
    &&& placed_mosaic(m, r, c.tile, td, rotated)
    &&& r.wf()
    &&& r.root_tile_node.tile == m.root_tile_node.tile
    &&& r.root_tile_node.final_count() == m.root_tile_node.final_count() + 1
    &&& r.root_tile_node.used_area_spec() == m.root_tile_node.used_area_spec() + placed_tile(c, tw, th).area_spec()
    &&& r.cuts@.len() == m.cuts@.len() + placement_cuts(c, tw, th)
}

/// `r` is the sheet `m` after the panel was placed into one of the nodes `cands`.
pub open spec fn placed_into_one_of(m: Mosaic, r: Mosaic, cands: Seq<TileNode>, td: TileDimensions) -> bool {
    exists|i: int, rotated: bool| 0 <= i < cands.len() && #[trigger] placed_into(m, r, cands[i], td, rotated)
}

/// `leaves[i]` has the largest area, and every later leaf a smaller one.
pub open spec fn last_biggest_at(leaves: Seq<TileNode>, i: int) -> bool {
    &&& 0 <= i < leaves.len()
    &&& forall|j: int| 0 <= j < leaves.len() ==> #[trigger] leaves[j].area() <= leaves[i].area()
    &&& forall|j: int| i < j < leaves.len() ==> #[trigger] leaves[j].area() < leaves[i].area()
}

impl Mosaic {
    /// The sheet's layout is well formed.
    pub open spec fn wf(self) -> bool {
        self.root_tile_node.wf()
    }

    /// Free leaves into which the panel fits, as is or turned, in pre-order.
    pub open spec fn candidates_spec(self, td: TileDimensions) -> Seq<TileNode> {
        self.root_tile_node.free_leaves().filter(
            |n: TileNode| fits_spec(n.w(), n.h(), td.width as int, td.height as int),
        )
    }

    /// A fresh sheet cut from a stock panel, with a saw kerf of 3.
    pub fn new(stock_tile: &TileDimensions) -> (m: Mosaic)
        requires
            stock_tile.width >= 0,
            stock_tile.height >= 0,
        ensures
            m.wf(),
            m.root_tile_node.tile == (Tile { x1: 0, x2: stock_tile.width, y1: 0, y2: stock_tile.height }),
            m.root_tile_node.is_free_leaf(),
            m.cuts@ == Seq::<Cut>::empty(),
            m.material == stock_tile.material,
            m.stock_id == stock_tile.id,
            m.orientation == stock_tile.orientation,
            m.kerf_width == 3,
    {
        Mosaic::new_with_kerf(stock_tile, 3)
    }

    /// A fresh sheet cut from a stock panel, with the given saw kerf.
    pub fn new_with_kerf(stock_tile: &TileDimensions, kerf_width: i32) -> (m: Mosaic)
        requires
            stock_tile.width >= 0,
            stock_tile.height >= 0,
        ensures
            m.wf(),
            m.root_tile_node.tile == (Tile { x1: 0, x2: stock_tile.width, y1: 0, y2: stock_tile.height }),
            m.root_tile_node.is_free_leaf(),
            !m.root_tile_node.is_area_totally_used,
            m.cuts@ == Seq::<Cut>::empty(),
            m.material == stock_tile.material,
            m.stock_id == stock_tile.id,
            m.orientation == stock_tile.orientation,
            m.kerf_width == kerf_width,
    {
        Mosaic {
            root_tile_node: TileNode::from_dimensions(stock_tile),
            cuts: Vec::new(),
            material: stock_tile.material.clone(),
            stock_id: stock_tile.id,
            orientation: stock_tile.orientation,
            kerf_width,
        }
    }

    /// Same layout, cuts, material, stock panel, orientation and kerf.
    pub open spec fn is_copy_of(self, other: Mosaic) -> bool {
        &&& self.root_tile_node == other.root_tile_node
        &&& self.cuts@ == other.cuts@
        &&& self.material@ == other.material@
        &&& self.stock_id == other.stock_id
        &&& self.orientation == other.orientation
        &&& self.kerf_width == other.kerf_width
    }

    /// A deep copy of the sheet.
    pub fn copy(&self) -> (m: Mosaic)
        ensures
            m.is_copy_of(*self),
            m@ == self@,
    {
        let mut cuts: Vec<Cut> = Vec::new();
        let mut i: usize = 0;
        while i < self.cuts.len()
            invariant
                0 <= i <= self.cuts@.len(),
                cuts@ == self.cuts@.subrange(0, i as int),
            decreases self.cuts@.len() - i,
        {
            cuts.push(self.cuts[i]);
            i = i + 1;
            proof { assert(cuts@ =~= self.cuts@.subrange(0, i as int)); }
        }
        proof { assert(cuts@ =~= self.cuts@); }
        Mosaic {
            root_tile_node: self.root_tile_node.duplicate(),
            cuts,
            material: self.material.clone(),
            stock_id: self.stock_id,
            orientation: self.orientation,
            kerf_width: self.kerf_width,
        }
    }

    /// Equality of sheets: same layout (by node equality), same cuts, material, stock
    /// panel, orientation and kerf.
    pub open spec fn same_mosaic(self, other: Mosaic) -> bool {
        &&& self.root_tile_node.same_node(other.root_tile_node)
        &&& self.cuts@ == other.cuts@
        &&& self.material@ == other.material@
        &&& self.stock_id == other.stock_id
        &&& self.orientation == other.orientation
        &&& self.kerf_width == other.kerf_width
    }

    /// Whether two sheets are equal.
    pub fn equals(&self, other: &Mosaic) -> (b: bool)
        ensures
            b == self.same_mosaic(*other),
            b == same_view(self@, other@),
    {
        if !self.root_tile_node.equals(&other.root_tile_node) {
            return false;
        }
        if self.cuts.len() != other.cuts.len() {
            return false;
        }
        let mut i: usize = 0;
        while i < self.cuts.len()
            invariant
                0 <= i <= self.cuts@.len(),
                self.cuts@.len() == other.cuts@.len(),
                forall|k: int| 0 <= k < i ==> self.cuts@[k] == other.cuts@[k],
            decreases self.cuts@.len() - i,
        {
            if self.cuts[i] != other.cuts[i] {
                return false;
            }
            i = i + 1;
        }
        proof { assert(self.cuts@ =~= other.cuts@); }
        self.material == other.material && self.stock_id == other.stock_id
            && self.orientation == other.orientation && self.kerf_width == other.kerf_width
    }

    pub fn get_root_tile_node(&self) -> (r: &TileNode)
        ensures
            *r == self.root_tile_node,
    {
        &self.root_tile_node
    }

    /// The layout, to be changed in place; the sheet's other fields stay as they are.
    pub fn get_root_tile_node_mut(&mut self) -> (r: &mut TileNode)
        ensures
            *r == old(self).root_tile_node,
            *final(self) == (Mosaic { root_tile_node: *final(r), ..*old(self) }),
    {
        &mut self.root_tile_node
    }

    /// Replaces the layout.
    pub fn set_root_tile_node(&mut self, root: TileNode)
        ensures
            *final(self) == (Mosaic { root_tile_node: root, ..*old(self) }),
    {
        self.root_tile_node = root;
    }

    /// Appends cuts.
    pub fn add_cuts(&mut self, cuts: Vec<Cut>)
        ensures
            final(self).cuts@ == old(self).cuts@ + cuts@,
            final(self).root_tile_node == old(self).root_tile_node,
            final(self).material == old(self).material,
            final(self).stock_id == old(self).stock_id,
            final(self).orientation == old(self).orientation,
            final(self).kerf_width == old(self).kerf_width,
    {
        let mut i: usize = 0;
        let ghost c0 = self.cuts@;
        while i < cuts.len()
            invariant
                0 <= i <= cuts@.len(),
                self.cuts@ == c0 + cuts@.subrange(0, i as int),
                self.root_tile_node == old(self).root_tile_node,
                self.material == old(self).material,
                self.stock_id == old(self).stock_id,
                self.orientation == old(self).orientation,
                self.kerf_width == old(self).kerf_width,
                c0 == old(self).cuts@,
            decreases cuts@.len() - i,
        {
            self.cuts.push(cuts[i]);
            i = i + 1;
            proof { assert(self.cuts@ =~= c0 + cuts@.subrange(0, i as int)); }
        }
        proof { assert(cuts@.subrange(0, cuts@.len() as int) =~= cuts@); }
    }

    pub fn get_material(&self) -> (r: &str)
        ensures
            r@ == self.material@,
    {
        self.material.as_str()
    }

    pub fn get_stock_id(&self) -> (r: i32)
        ensures
            r == self.stock_id,
    {
        self.stock_id
    }

    pub fn get_orientation(&self) -> (r: i32)
        ensures
            r == self.orientation,
    {
        self.orientation
    }

    pub fn get_cuts(&self) -> (r: &Vec<Cut>)
        ensures
            r@ == self.cuts@,
    {
        &self.cuts
    }

    /// Area covered by placed panels (marks fully used nodes on the way).
    pub fn get_used_area(&mut self) -> (r: i64)
        requires
            old(self).wf(),
        ensures
            r == old(self).root_tile_node.used_area_spec(),
            final(self).wf(),
            final(self).root_tile_node == old(self).root_tile_node.with_cache(),
            final(self).cuts == old(self).cuts,
            final(self).material == old(self).material,
    {
        self.root_tile_node.get_used_area()
    }

    /// Area of the sheet not covered by placed panels (marks fully used nodes on the way).
    pub fn get_unused_area(&mut self) -> (r: i64)
        requires
            old(self).wf(),
        ensures
            r == old(self).root_tile_node.area() - old(self).root_tile_node.used_area_spec(),
            final(self).wf(),
            final(self).root_tile_node == old(self).root_tile_node.with_cache(),
            final(self).cuts == old(self).cuts,
            final(self).material == old(self).material,
    {
        self.root_tile_node.get_unused_area()
    }

    /// Area covered by placed panels, computed on a copy.
    pub fn get_used_area_immutable(&self) -> (r: i64)
        requires
            self.wf(),
        ensures
            r == self.root_tile_node.used_area_spec(),
    {
        let mut mosaic_clone = self.copy();
        mosaic_clone.get_used_area()
    }

    /// Area not covered by placed panels, computed on a copy.
    pub fn get_unused_area_immutable(&self) -> (r: i64)
        requires
            self.wf(),
        ensures
            r == self.root_tile_node.area() - self.root_tile_node.used_area_spec(),
    {
        let mut mosaic_clone = self.copy();
        mosaic_clone.get_unused_area()
    }

    /// Area of the whole sheet.
    pub fn get_total_area(&self) -> (r: i64)
        requires
            self.wf(),
        ensures
            r == self.root_tile_node.area(),
    {
        proof { lemma_wf_sides(self.root_tile_node); }
        self.root_tile_node.get_area()
    }

    /// Number of cuts made.
    pub fn get_nbr_cuts(&self) -> (r: usize)
        ensures
            r == self.cuts@.len(),
    {
        self.cuts.len()
    }

    /// The nodes holding panels, in pre-order.
    pub fn get_final_tile_nodes(&self) -> (r: Vec<&TileNode>)
        ensures
            deref_seq(r@) == self.root_tile_node.final_nodes(),
    {
        self.root_tile_node.get_final_tile_nodes()
    }

    /// The nodes holding panels, in pre-order (never an error).
    pub fn get_final_tiles(&self) -> (r: Result<Vec<&TileNode>, CuttingError>)
        ensures
            r matches Ok(v) && deref_seq(v@) == self.root_tile_node.final_nodes(),
    {
        Ok(self.get_final_tile_nodes())
    }

    /// The free leaves, in pre-order.
    pub fn get_unused_tile_nodes(&self) -> (r: Vec<&TileNode>)
        ensures
            deref_seq(r@) == self.root_tile_node.free_leaves(),
    {
        self.root_tile_node.get_unused_tiles()
    }

    /// Whether some leaf is free.
    pub fn has_unused_nodes(&self) -> (b: bool)
        ensures
            b == (self.root_tile_node.free_leaves().len() > 0),
    {
        let v = self.get_unused_tile_nodes();
        proof { assert(deref_seq(v@).len() == v@.len()); }
        v.len() > 0
    }

    /// The free leaf of largest area; the last such leaf in pre-order on ties.
    pub fn get_biggest_unused_tile(&self) -> (r: Option<&TileNode>)
        requires
            self.wf(),
        ensures
            match r {
                None => self.root_tile_node.free_leaves().len() == 0,
                Some(n) => exists|i: int| #[trigger] last_biggest_at(self.root_tile_node.free_leaves(), i)
                    && self.root_tile_node.free_leaves()[i] == *n,
            },
    {
        let unused = self.get_unused_tile_nodes();
        let ghost leaves = self.root_tile_node.free_leaves();
        proof {
            assert(deref_seq(unused@).len() == unused@.len());
            lemma_free_leaves_wf(self.root_tile_node);
        }
        if unused.len() == 0 {
            return None;
        }
        let mut best: usize = 0;
        proof { lemma_wf_sides(leaves[0]); }
        let mut best_area: i64 = unused[0].get_area();
        let mut i: usize = 1;
        while i < unused.len()
            invariant
                deref_seq(unused@) == leaves,
                leaves == self.root_tile_node.free_leaves(),
                forall|k: int| 0 <= k < leaves.len() ==> (#[trigger] leaves[k]).wf(),
                1 <= i <= unused@.len(),
                0 <= best < i,
                best_area == leaves[best as int].area(),
                forall|j: int| 0 <= j < i ==> #[trigger] leaves[j].area() <= best_area,
                forall|j: int| best < j < i ==> #[trigger] leaves[j].area() < best_area,
            decreases unused@.len() - i,
        {
            assert(deref_seq(unused@)[i as int] == *unused@[i as int]);
            proof { lemma_wf_sides(leaves[i as int]); }
            let a = unused[i].get_area();
            if a >= best_area {
                best = i;
                best_area = a;
            }
            i = i + 1;
        }
        assert(deref_seq(unused@)[best as int] == *unused@[best as int]);
        assert(last_biggest_at(leaves, best as int));
        Some(unused[best])
    }

    /// Area of the largest free leaf (0 when there is none).
    pub fn get_biggest_area(&self) -> (r: i64)
        requires
            self.wf(),
        ensures
            r == self.root_tile_node.biggest_free_area(),
    {
        self.root_tile_node.get_biggest_area()
    }

    /// Difference between the numbers of placed panels wider than high and higher
    /// than wide, in absolute value.
    pub fn get_hv_diff(&self) -> (r: i32)
        requires
            self.wf(),
            self.root_tile_node.final_horizontal_count() <= i32::MAX,
            self.root_tile_node.final_vertical_count() <= i32::MAX,
        ensures
            r == if self.root_tile_node.final_horizontal_count() >= self.root_tile_node.final_vertical_count() {
                self.root_tile_node.final_horizontal_count() - self.root_tile_node.final_vertical_count()
            } else {
                self.root_tile_node.final_vertical_count() - self.root_tile_node.final_horizontal_count()
            },
    {
        let horizontal = self.root_tile_node.get_nbr_final_horizontal();
        let vertical = self.root_tile_node.get_nbr_final_vertical();
        if horizontal >= vertical { horizontal - vertical } else { vertical - horizontal }
    }

    /// Number of levels of the layout tree.
    pub fn get_max_depth(&self) -> (r: i32)
        requires
            self.root_tile_node.depth() <= i32::MAX,
        ensures
            r == self.root_tile_node.depth(),
    {
        Self::calculate_max_depth(&self.root_tile_node)
    }

    fn calculate_max_depth(node: &TileNode) -> (r: i32)
        requires
            node.depth() <= i32::MAX,
        ensures
            r == node.depth(),
        decreases node,
    {
        if node.child1.is_none() && node.child2.is_none() {
            return 1;
        }
        let mut max_depth: i32 = 0;
        if let Some(child1) = &node.child1 {
            let d = Self::calculate_max_depth(child1);
            if d > max_depth {
                max_depth = d;
            }
        }
        if let Some(child2) = &node.child2 {
            let d = Self::calculate_max_depth(child2);
            if d > max_depth {
                max_depth = d;
            }
        }
        max_depth + 1
    }

    /// The distinct pairing values of the sizes of placed panels, in no particular order.
    pub fn get_distinct_tile_set(&self) -> (r: Vec<i32>)
        requires
            self.wf(),
            self.root_tile_node.pairing_fits(),
        ensures
            r@.to_set() == self.root_tile_node.distinct_set(),
            r@.no_duplicates(),
    {
        let mut result: Vec<i32> = Vec::new();
        Self::collect_distinct_values(&self.root_tile_node, &mut result);
        proof { assert(Seq::<i32>::empty().to_set() =~= Set::<i32>::empty()); }
        result
    }

    /// Appends to `out` the pairing values of the panels under `node` that it does not
    /// hold yet.
    fn collect_distinct_values(node: &TileNode, out: &mut Vec<i32>)
        requires
            node.wf(),
            node.pairing_fits(),
            old(out)@.no_duplicates(),
        ensures
            final(out)@.to_set() == old(out)@.to_set().union(node.distinct_set()),
            final(out)@.no_duplicates(),
        decreases node,
    {
        proof { lemma_wf_sides(*node); }
        if node.is_final {
            let width = node.get_width();
            let height = node.get_height();
            proof { crate::model::tile_node::lemma_pairing_bounds(width as int, height as int); }
            let sum = width + height;
            let value = ((sum * (sum + 1)) / 2) + height;
            let mut found = false;
            let mut i: usize = 0;
            while i < out.len()
                invariant
                    0 <= i <= out@.len(),
                    found <==> exists|k: int| 0 <= k < i && out@[k] == value,
                decreases out@.len() - i,
            {
                if out[i] == value {
                    found = true;
                }
                i = i + 1;
            }
            assert(found <==> out@.contains(value));
            if !found {
                out.push(value);
                proof {
                    assert(out@.to_set() =~= old(out)@.to_set().insert(value)) by {
                        broadcast use vstd::seq_lib::group_seq_properties;
                    }
                }
            }
            proof {
                assert(node.distinct_set() == set![value]);
                assert(out@.to_set() =~= old(out)@.to_set().union(set![value])) by {
                    broadcast use vstd::seq_lib::group_seq_properties;
                }
            }
        } else {
            let ghost s0 = out@.to_set();
            if let Some(child1) = &node.child1 {
                Self::collect_distinct_values(child1, out);
            }
            let ghost s1 = out@.to_set();
            if let Some(child2) = &node.child2 {
                Self::collect_distinct_values(child2, out);
            }
            proof {
                let d1 = match &node.child1 { Some(c) => c.distinct_set(), None => Set::<i32>::empty() };
                let d2 = match &node.child2 { Some(c) => c.distinct_set(), None => Set::<i32>::empty() };
                assert(s0.union(Set::<i32>::empty()) =~= s0);
                assert(s1.union(Set::<i32>::empty()) =~= s1);
                assert(s1 == s0.union(d1));
                assert(out@.to_set() == s1.union(d2));
                assert(out@.to_set() =~= s0.union(d1.union(d2)));
            }
        }
    }
}


impl Mosaic {
    /// Free leaves of the layout into which the panel fits, as it is or turned, in
    /// pre-order.
    pub fn find_candidates(&self, tile_dimensions: &TileDimensions) -> (r: Vec<&TileNode>)
        requires
            self.wf(),
        ensures
            deref_seq(r@) == self.candidates_spec(*tile_dimensions),
    {
        let mut candidates: Vec<&TileNode> = Vec::new();
        Self::find_candidates_recursive(&self.root_tile_node, tile_dimensions, &mut candidates);
        proof {
            assert(deref_seq(Seq::<&TileNode>::empty()) =~= Seq::<TileNode>::empty());
            assert(Seq::<TileNode>::empty() + self.candidates_spec(*tile_dimensions)
                =~= self.candidates_spec(*tile_dimensions));
        }
        candidates
    }

    pub(crate) fn find_candidates_recursive<'a>(
        node: &'a TileNode,
        tile_dimensions: &TileDimensions,
        candidates: &mut Vec<&'a TileNode>,
    )
        requires
            node.wf(),
        ensures
            deref_seq(final(candidates)@) == deref_seq(old(candidates)@) + node.free_leaves().filter(
                |n: TileNode| fits_spec(n.w(), n.h(), tile_dimensions.width as int, tile_dimensions.height as int),
            ),
        decreases node,
    {
        let ghost pred = |n: TileNode| fits_spec(n.w(), n.h(), tile_dimensions.width as int, tile_dimensions.height as int);
        proof { lemma_wf_sides(*node); }
        let ghost l1 = match &node.child1 { Some(c) => c.free_leaves(), None => Seq::<TileNode>::empty() };
        let ghost l2 = match &node.child2 { Some(c) => c.free_leaves(), None => Seq::<TileNode>::empty() };
        if node.is_final || node.has_children() {
            let ghost c0 = deref_seq(candidates@);
            if let Some(child1) = &node.child1 {
                Self::find_candidates_recursive(child1, tile_dimensions, candidates);
            }
            let ghost c1 = deref_seq(candidates@);
            if let Some(child2) = &node.child2 {
                Self::find_candidates_recursive(child2, tile_dimensions, candidates);
            }
            proof {
                assert(c1 == c0 + l1.filter(pred)) by {
                    if node.child1 is None { assert(l1.filter(pred) =~= Seq::<TileNode>::empty()); }
                }
                assert(deref_seq(candidates@) == c1 + l2.filter(pred)) by {
                    if node.child2 is None { assert(l2.filter(pred) =~= Seq::<TileNode>::empty()); }
                }
                assert(node.free_leaves() =~= l1 + l2);
                Seq::filter_distributes_over_add(l1, l2, pred);
                assert(deref_seq(candidates@) =~= c0 + node.free_leaves().filter(pred));
            }
            return;
        }
        let w = node.get_width();
        let h = node.get_height();
        let fits_normal = w >= tile_dimensions.width && h >= tile_dimensions.height;
        let fits_rotated = !tile_dimensions.is_square() && w >= tile_dimensions.height
            && h >= tile_dimensions.width;
        let ghost before = candidates@;
        if fits_normal || fits_rotated {
            candidates.push(node);
        }
        proof {
            lemma_deref_push_or_not(before, candidates@, *node);
            assert(node.free_leaves() =~= seq![*node]);
            assert(seq![*node].filter(pred) =~= if pred(*node) { seq![*node] } else { Seq::<TileNode>::empty() }) by {
                reveal_with_fuel(Seq::filter, 2);
            }
        }
    }

    /// Whether some node of the tree has the rectangle `t`.
    fn locate(node: &TileNode, t: Tile) -> (b: bool)
        ensures
            b == first_match(*node, t) is Some,
        decreases node,
    {
        if node.tile == t {
            return true;
        }
        if let Some(child1) = &node.child1 {
            if Self::locate(child1, t) {
                return true;
            }
        }
        if let Some(child2) = &node.child2 {
            return Self::locate(child2, t);
        }
        false
    }

    /// Places the panel, turned or not, into the first node in pre-order whose rectangle
    /// is `t`.
    fn place_in_tree(
        node: &mut TileNode,
        t: Tile,
        tile_dimensions: &TileDimensions,
        rotated: bool,
        cuts: &mut Vec<Cut>,
    ) -> (r: Result<(), CuttingError>)
        requires
            old(node).wf(),
        ensures
            ({
                let (tw, th) = oriented(*tile_dimensions, rotated);
                &&& (r is Ok <==> match first_match(*old(node), t) {
                    Some(f) => placement_succeeds(f, tw, th),
                    None => false,
                })
                &&& r is Ok ==> old(cuts)@.len() <= final(cuts)@.len()
                &&& r is Ok ==> final(cuts)@.subrange(0, old(cuts)@.len() as int) == old(cuts)@
                &&& r is Ok ==> placed_in(*old(node), *final(node), t, tw, th, tile_dimensions.id, rotated,
                    final(cuts)@.subrange(old(cuts)@.len() as int, final(cuts)@.len() as int))
            }),
        decreases *old(node),
    {
        if node.tile == t {
            let r = Self::place_tile_in_node_direct(node, tile_dimensions, rotated, cuts);
            proof {
                if r is Ok {
                    assert(cuts@.subrange(0, old(cuts)@.len() as int) =~= old(cuts)@);
                    assert(cuts@.subrange(old(cuts)@.len() as int, cuts@.len() as int)
                        =~= placement_cut_seq(*old(node), *node, oriented(*tile_dimensions, rotated).0,
                            oriented(*tile_dimensions, rotated).1));
                }
            }
            return r;
        }
        let in_first = match &node.child1 {
            Some(c1) => Self::locate(c1, t),
            None => false,
        };
        if in_first {
            let mut c1 = node.child1.take().unwrap();
            let r = Self::place_in_tree(&mut *c1, t, tile_dimensions, rotated, cuts);
            node.child1 = Some(c1);
            r
        } else if node.child2.is_some() {
            let mut c2 = node.child2.take().unwrap();
            let r = Self::place_in_tree(&mut *c2, t, tile_dimensions, rotated, cuts);
            node.child2 = Some(c2);
            r
        } else {
            Err(CuttingError::GeneralCuttingError(String::from_str("Target node not found")))
        }
    }

    /// Places the panel, turned or not, into the node of `mosaic` with the given corner
    /// coordinates, appending the cuts made to the sheet's cuts.
    fn place_tile_at_coordinates(
        mosaic: &mut Mosaic,
        x1: i32,
        x2: i32,
        y1: i32,
        y2: i32,
        tile_dimensions: &TileDimensions,
        rotated: bool,
    ) -> (r: Result<(), CuttingError>)
        requires
            old(mosaic).wf(),
        ensures
            r is Ok <==> placement_ok(*old(mosaic), Tile { x1, x2, y1, y2 }, *tile_dimensions, rotated),
            r is Ok ==> placed_mosaic(*old(mosaic), *final(mosaic), Tile { x1, x2, y1, y2 }, *tile_dimensions, rotated),
    {
        let t = Tile { x1, x2, y1, y2 };
        if !Self::locate(&mosaic.root_tile_node, t) {
            return Err(CuttingError::GeneralCuttingError(String::from_str("Target node not found")));
        }
        Self::place_in_tree(&mut mosaic.root_tile_node, t, tile_dimensions, rotated, &mut mosaic.cuts)
    }

    /// A copy of the sheet with the panel, turned or not, placed into the node with the
    /// rectangle of `target_node`.
    fn try_place_in_node(&self, target_node: &TileNode, tile_dimensions: &TileDimensions, rotated: bool)
        -> (r: Result<Mosaic, CuttingError>)
        requires
            self.wf(),
        ensures
            r is Ok <==> placement_ok(*self, target_node.tile, *tile_dimensions, rotated),
            r matches Ok(m) ==> placed_mosaic(*self, m, target_node.tile, *tile_dimensions, rotated),
    {
        let mut new_mosaic = self.copy();
        let x1 = target_node.get_x1();
        let x2 = target_node.get_x2();
        let y1 = target_node.get_y1();
        let y2 = target_node.get_y2();
        match Self::place_tile_at_coordinates(&mut new_mosaic, x1, x2, y1, y2, tile_dimensions, rotated) {
            Ok(()) => Ok(new_mosaic),
            Err(e) => Err(e),
        }
    }

    /// Every way of placing the panel into one free node of the sheet: for each candidate
    /// node in pre-order, the sheet with the panel as it is, then, unless the panel is
    /// square or the grain direction is to be kept, the sheet with the panel turned;
    /// placements that fail are left out. Never an error.
    pub fn add(&self, tile_dimensions: &TileDimensions, consider_grain_direction: bool)
        -> (r: Result<Vec<Mosaic>, CuttingError>)
        requires
            self.wf(),
        ensures
            r matches Ok(v) && add_results(*self, self.candidates_spec(*tile_dimensions), *tile_dimensions,
                tile_dimensions.width != tile_dimensions.height && !consider_grain_direction, v@),
    {
        let candidates = self.find_candidates(tile_dimensions);
        let ghost cands = deref_seq(candidates@);
        let try_turned = !tile_dimensions.is_square() && !consider_grain_direction;
        let mut result_mosaics: Vec<Mosaic> = Vec::new();
        if candidates.len() == 0 {
            return Ok(result_mosaics);
        }
        let mut i: usize = 0;
        while i < candidates.len()
            invariant
                self.wf(),
                0 <= i <= candidates@.len(),
                cands == deref_seq(candidates@),
                try_turned == (tile_dimensions.width != tile_dimensions.height && !consider_grain_direction),
                add_results(*self, cands.subrange(0, i as int), *tile_dimensions, try_turned, result_mosaics@),
            decreases candidates@.len() - i,
        {
            let candidate = candidates[i];
            assert(cands[i as int] == *candidate);
            let ghost before = result_mosaics@;
            let normal = self.try_place_in_node(candidate, tile_dimensions, false);
            if let Ok(m) = normal {
                result_mosaics.push(m);
            }
            let ghost mid = result_mosaics@;
            if try_turned {
                let turned = self.try_place_in_node(candidate, tile_dimensions, true);
                if let Ok(m) = turned {
                    result_mosaics.push(m);
                }
            }
            proof {
                let sub = cands.subrange(0, i + 1);
                assert(sub.drop_last() =~= cands.subrange(0, i as int));
                assert(sub.last() == *candidate);
                let n_ok = placement_ok(*self, candidate.tile, *tile_dimensions, false);
                let r_ok = try_turned && placement_ok(*self, candidate.tile, *tile_dimensions, true);
                let k: int = (if n_ok { 1int } else { 0int }) + (if r_ok { 1int } else { 0int });
                assert(result_mosaics@.len() == before.len() + k);
                assert(result_mosaics@.subrange(0, result_mosaics@.len() - k) =~= before);
            }
            i = i + 1;
        }
        proof { assert(cands.subrange(0, cands.len() as int) =~= cands); }
        Ok(result_mosaics)
    }

    /// Places the panel, turned or not, into the free node `node` itself.
    fn place_tile_in_node_direct(
        node: &mut TileNode,
        tile_dimensions: &TileDimensions,
        rotated: bool,
        cuts: &mut Vec<Cut>,
    ) -> (r: Result<(), CuttingError>)
        requires
            old(node).wf(),
        ensures
            ({
                let (tw, th) = oriented(*tile_dimensions, rotated);
                &&& (r is Ok <==> placement_succeeds(*old(node), tw, th))
                &&& r is Ok ==> node_placed(*old(node), *final(node), tw, th, tile_dimensions.id, rotated)
                &&& r is Ok ==> final(cuts)@ == old(cuts)@ + placement_cut_seq(*old(node), *final(node), tw, th)
            }),
    {
        let (tile_width, tile_height) = if rotated {
            (tile_dimensions.height, tile_dimensions.width)
        } else {
            (tile_dimensions.width, tile_dimensions.height)
        };
        proof { lemma_wf_sides(*node); }
        let w = node.get_width();
        let h = node.get_height();
        if w == tile_width && h == tile_height {
            node.is_final = true;
            node.external_id = tile_dimensions.id;
            node.is_rotated = rotated;
            proof { assert(cuts@ =~= old(cuts)@ + Seq::<Cut>::empty()); }
            return Ok(());
        }
        let width_diff: i64 = w as i64 - tile_width as i64;
        let height_diff: i64 = h as i64 - tile_height as i64;
        if width_diff > 0 && height_diff > 0 {
            Self::split_hv_direct(node, tile_dimensions, tile_width, tile_height, rotated, cuts)
        } else if width_diff > 0 {
            Self::split_vertical_only_direct(node, tile_dimensions, tile_width, rotated, cuts)
        } else if height_diff > 0 {
            Self::split_horizontal_only_direct(node, tile_dimensions, tile_height, rotated, cuts)
        } else {
            Err(CuttingError::GeneralCuttingError(String::from_str("Invalid placement scenario")))
        }
    }

    /// A vertical cut at the panel's width, then a horizontal cut of the left part at the
    /// panel's height; the panel goes to the top-left part.
    fn split_hv_direct(
        node: &mut TileNode,
        tile_dimensions: &TileDimensions,
        tile_width: i32,
        tile_height: i32,
        rotated: bool,
        cuts: &mut Vec<Cut>,
    ) -> (r: Result<(), CuttingError>)
        requires
            old(node).wf(),
            old(node).w() > tile_width,
            old(node).h() > tile_height,
        ensures
            r is Ok <==> (tile_width > 0 && tile_height > 0),
            r is Ok ==> node_placed(*old(node), *final(node), tile_width as int, tile_height as int, tile_dimensions.id, rotated),
            r is Ok ==> final(cuts)@ == old(cuts)@ + placement_cut_seq(*old(node), *final(node), tile_width as int, tile_height as int),
    {
        proof { lemma_wf_sides(*node); }
        let cut_x = node.get_x1() + tile_width;
        let cut_result = match CuttingEngine::split_vertically(node, cut_x, 0) {
            Ok(c) => c,
            Err(e) => { return Err(e); },
        };
        let CutResult { left_node, right_node, cut } = cut_result;
        cuts.push(cut);
        let cut_y = left_node.get_y1() + tile_height;
        let cut_result2 = match CuttingEngine::split_horizontally(&left_node, cut_y, 0) {
            Ok(c) => c,
            Err(e) => {
                node.child1 = Some(Box::new(left_node));
                node.child2 = Some(Box::new(right_node));
                return Err(e);
            },
        };
        let CutResult { left_node: top_left, right_node: bottom_left, cut: cut2 } = cut_result2;
        cuts.push(cut2);
        let mut final_node = top_left;
        final_node.is_final = true;
        final_node.external_id = tile_dimensions.id;
        final_node.is_rotated = rotated;
        let mut left_child = left_node;
        left_child.child1 = Some(Box::new(final_node));
        left_child.child2 = Some(Box::new(bottom_left));
        node.child1 = Some(Box::new(left_child));
        node.child2 = Some(Box::new(right_node));
        proof {
            assert(cuts@ =~= old(cuts)@ + placement_cut_seq(*old(node), *node, tile_width as int, tile_height as int));
        }
        Ok(())
    }

    /// A vertical cut at the panel's width; the panel goes to the left part.
    fn split_vertical_only_direct(
        node: &mut TileNode,
        tile_dimensions: &TileDimensions,
        tile_width: i32,
        rotated: bool,
        cuts: &mut Vec<Cut>,
    ) -> (r: Result<(), CuttingError>)
        requires
            old(node).wf(),
            old(node).w() > tile_width,
        ensures
            r is Ok <==> tile_width > 0,
            r is Ok ==> split_at_x(*old(node), *final(node), old(node).tile.x1 + tile_width),
            r is Ok ==> is_panel_node(*final(node).child1.unwrap(),
                Tile { x1: old(node).tile.x1, x2: (old(node).tile.x1 + tile_width) as i32, y1: old(node).tile.y1, y2: old(node).tile.y2 },
                tile_dimensions.id, rotated),
            r is Ok ==> final(cuts)@ == old(cuts)@.push(vertical_cut(old(node).tile, old(node).id,
                old(node).tile.x1 + tile_width, final(node).child1.unwrap().id, final(node).child2.unwrap().id)),
    {
        proof { lemma_wf_sides(*node); }
        let cut_x = node.get_x1() + tile_width;
        let cut_result = match CuttingEngine::split_vertically(node, cut_x, 0) {
            Ok(c) => c,
            Err(e) => { return Err(e); },
        };
        let CutResult { left_node, right_node, cut } = cut_result;
        cuts.push(cut);
        let mut left_child = left_node;
        left_child.is_final = true;
        left_child.external_id = tile_dimensions.id;
        left_child.is_rotated = rotated;
        node.child1 = Some(Box::new(left_child));
        node.child2 = Some(Box::new(right_node));
        Ok(())
    }

    /// A horizontal cut at the panel's height; the panel goes to the upper part.
    fn split_horizontal_only_direct(
        node: &mut TileNode,
        tile_dimensions: &TileDimensions,
        tile_height: i32,
        rotated: bool,
        cuts: &mut Vec<Cut>,
    ) -> (r: Result<(), CuttingError>)
        requires
            old(node).wf(),
            old(node).h() > tile_height,
        ensures
            r is Ok <==> tile_height > 0,
            r is Ok ==> split_at_y(*old(node), *final(node), old(node).tile.y1 + tile_height),
            r is Ok ==> is_panel_node(*final(node).child1.unwrap(),
                Tile { x1: old(node).tile.x1, x2: old(node).tile.x2, y1: old(node).tile.y1, y2: (old(node).tile.y1 + tile_height) as i32 },
                tile_dimensions.id, rotated),
            r is Ok ==> final(cuts)@ == old(cuts)@.push(horizontal_cut(old(node).tile, old(node).id,
                old(node).tile.y1 + tile_height, final(node).child1.unwrap().id, final(node).child2.unwrap().id)),
    {
        proof { lemma_wf_sides(*node); }
        let cut_y = node.get_y1() + tile_height;
        let cut_result = match CuttingEngine::split_horizontally(node, cut_y, 0) {
            Ok(c) => c,
            Err(e) => { return Err(e); },
        };
        let CutResult { left_node, right_node, cut } = cut_result;
        cuts.push(cut);
        let mut top_child = left_node;
        top_child.is_final = true;
        top_child.external_id = tile_dimensions.id;
        top_child.is_rotated = rotated;
        node.child1 = Some(Box::new(top_child));
        node.child2 = Some(Box::new(right_node));
        Ok(())
    }
}

/// Each sheet that `add` returns for a panel of positive size is the sheet with the
/// panel placed, as it is or turned, into one of the candidate free leaves: its layout
/// stays well formed, holds one more panel and covers the rectangle the panel takes.
pub proof fn lemma_add_places_one_panel(m: Mosaic, td: TileDimensions, consider_grain_direction: bool, out: Seq<Mosaic>)
    requires
        m.wf(),
        td.width > 0,
        td.height > 0,
        add_results(m, m.candidates_spec(td), td, td.width != td.height && !consider_grain_direction, out),
    ensures
        forall|j: int| 0 <= j < out.len() ==> #[trigger] placed_into_one_of(m, out[j], m.candidates_spec(td), td),
{
    let cands = m.candidates_spec(td);
    let pred = |n: TileNode| fits_spec(n.w(), n.h(), td.width as int, td.height as int);
    let leaves = m.root_tile_node.free_leaves();
    assert forall|i: int| 0 <= i < cands.len() implies #[trigger] leaves.contains(cands[i])
        && cands[i].w() > 0 && cands[i].h() > 0 by {
        leaves.lemma_filter_pred(pred, i);
        assert(cands.contains(cands[i]));
        leaves.lemma_filter_contains_rev(pred, cands[i]);
    }
    lemma_add_results_each(m, cands, td, td.width != td.height && !consider_grain_direction, out);
}

/// Each sheet listed by `add_results` over free leaves of positive area is a placement
/// into one of them.
proof fn lemma_add_results_each(m: Mosaic, cands: Seq<TileNode>, td: TileDimensions, try_turned: bool, out: Seq<Mosaic>)
    requires
        m.wf(),
        add_results(m, cands, td, try_turned, out),
        forall|i: int| 0 <= i < cands.len() ==> #[trigger] m.root_tile_node.free_leaves().contains(cands[i])
            && cands[i].w() > 0 && cands[i].h() > 0,
    ensures
        forall|j: int| 0 <= j < out.len() ==> #[trigger] placed_into_one_of(m, out[j], cands, td),
    decreases cands.len(),
{
    if cands.len() > 0 {
        let c = cands.last();
        let n_ok = placement_ok(m, c.tile, td, false);
        let r_ok = try_turned && placement_ok(m, c.tile, td, true);
        let k: int = (if n_ok { 1int } else { 0int }) + (if r_ok { 1int } else { 0int });
        let front = cands.drop_last();
        let sub = out.subrange(0, out.len() - k);
        assert forall|i: int| 0 <= i < front.len() implies #[trigger] m.root_tile_node.free_leaves().contains(front[i])
            && front[i].w() > 0 && front[i].h() > 0 by {
            assert(front[i] == cands[i]);
        }
        lemma_add_results_each(m, front, td, try_turned, sub);
        assert(m.root_tile_node.free_leaves().contains(cands[cands.len() - 1]));
        lemma_free_leaf_found(m.root_tile_node, c);
        lemma_free_leaf_inside(m.root_tile_node, c);
        assert forall|j: int| 0 <= j < out.len() implies #[trigger] placed_into_one_of(m, out[j], cands, td) by {
            if j < out.len() - k {
                assert(out[j] == sub[j]);
                assert(placed_into_one_of(m, sub[j], front, td));
                let (i, rotated) = choose|i: int, rotated: bool| 0 <= i < front.len()
                    && #[trigger] placed_into(m, sub[j], front[i], td, rotated);
                assert(cands[i] == front[i]);
                assert(placed_into(m, out[j], cands[i], td, rotated));
            } else {
                let last = cands.len() - 1;
                let rotated = if n_ok && j == out.len() - k { false } else { true };
                let (tw, th) = oriented(td, rotated);
                let r = out[j];
                assert(placed_mosaic(m, r, c.tile, td, rotated));
                lemma_placement_effect(m.root_tile_node, r.root_tile_node, c.tile, tw, th, td.id, rotated,
                    r.cuts@.subrange(m.cuts@.len() as int, r.cuts@.len() as int));
                assert(placed_into(m, out[j], cands[last], td, rotated));
            }
        }
    } else {
        assert(out.len() == 0);
    }
}

/// Every free leaf of a well-formed tree is well formed.
pub proof fn lemma_free_leaves_wf(n: TileNode)
    requires
        n.wf(),
    ensures
        forall|k: int| 0 <= k < n.free_leaves().len() ==> (#[trigger] n.free_leaves()[k]).wf(),
        forall|k: int| 0 <= k < n.free_leaves().len() ==> (#[trigger] n.free_leaves()[k]).is_free_leaf(),
    decreases n,
{
    match n.child1 {
        Some(c) => { lemma_free_leaves_wf(*c); },
        None => {},
    }
    match n.child2 {
        Some(c) => { lemma_free_leaves_wf(*c); },
        None => {},
    }
    let own = if n.is_free_leaf() { seq![n] } else { Seq::<TileNode>::empty() };
    let l1 = match n.child1 { Some(c) => c.free_leaves(), None => Seq::<TileNode>::empty() };
    let l2 = match n.child2 { Some(c) => c.free_leaves(), None => Seq::<TileNode>::empty() };
    assert(n.free_leaves() == own + l1 + l2);
    assert forall|k: int| 0 <= k < n.free_leaves().len() implies (#[trigger] n.free_leaves()[k]).wf()
        && n.free_leaves()[k].is_free_leaf() by {
        if k < own.len() {
        } else if k < own.len() + l1.len() {
            assert(n.free_leaves()[k] == l1[k - own.len()]);
        } else {
            assert(n.free_leaves()[k] == l2[k - own.len() - l1.len()]);
        }
    }
}

} // verus!
