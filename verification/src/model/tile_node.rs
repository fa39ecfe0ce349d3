//! The binary tree of rectangular regions into which a stock sheet is cut.

use std::collections::HashSet;
use vstd::prelude::*;
use vstd::string::*;
use crate::model::tile::{Tile, TileDimensions, DEFAULT_MATERIAL, lemma_i32_product_fits_i64};
use crate::support::{next_id, int_decimal, bool_text, push_i64_decimal, push_bool_text};

verus! {

broadcast use vstd::std_specs::hash::group_hash_axioms;

/// A node of the cutting tree: a rectangle that is either free, holds a placed panel
/// (`is_final`), or has been split into up to two sub-rectangles.
#[derive(Debug)]
pub struct TileNode {
    pub id: i32,
    pub tile: Tile,
    pub child1: Option<Box<TileNode>>,
    pub child2: Option<Box<TileNode>>,
    pub is_final: bool,
    pub is_rotated: bool,
    pub external_id: i32,
    pub is_area_totally_used: bool,
    pub totally_used_area: i64,
}

/// The nodes that a sequence of references points to.
pub open spec fn deref_seq(s: Seq<&TileNode>) -> Seq<TileNode> {
    s.map_values(|r: &TileNode| *r)
}

/// Pushing a reference adds its node at the end; not pushing changes nothing.
pub proof fn lemma_deref_push_or_not(before: Seq<&TileNode>, after: Seq<&TileNode>, n: TileNode)
    ensures
        after == before.push(&n) ==> deref_seq(after) == deref_seq(before).push(n),
        after == before.push(&n) ==> deref_seq(after) == deref_seq(before) + seq![n],
        after == before ==> deref_seq(after) == deref_seq(before) + Seq::<TileNode>::empty(),
{
    if after == before.push(&n) {
        assert(deref_seq(after) =~= deref_seq(before).push(n));
        assert(deref_seq(before).push(n) =~= deref_seq(before) + seq![n]);
    }
    if after == before {
        assert(deref_seq(after) =~= deref_seq(before) + Seq::<TileNode>::empty());
    }
}

/// Two rectangles lie on either side of a vertical or a horizontal line.
pub open spec fn separated(a: Tile, b: Tile) -> bool {
    a.x2 <= b.x1 || a.y2 <= b.y1
}

/// `inner` lies within `outer`.
pub open spec fn encloses(outer: Tile, inner: Tile) -> bool {
    outer.x1 <= inner.x1 && inner.x2 <= outer.x2 && outer.y1 <= inner.y1 && inner.y2 <= outer.y2
}

/// Cantor pairing of width and height, by which placed panels of equal size are told apart.
pub open spec fn pairing(w: int, h: int) -> int {
    (w + h) * (w + h + 1) / 2 + h
}

impl TileNode {
    pub open spec fn w(self) -> int {
        self.tile.x2 - self.tile.x1
    }

    pub open spec fn h(self) -> int {
        self.tile.y2 - self.tile.y1
    }

    pub open spec fn area(self) -> int {
        self.w() * self.h()
    }

    pub open spec fn is_leaf(self) -> bool {
        self.child1 is None && self.child2 is None
    }

    /// A leaf that holds no panel.
    pub open spec fn is_free_leaf(self) -> bool {
        self.is_leaf() && !self.is_final
    }

    /// The tree is a proper guillotine layout: coordinates are non-negative and ordered,
    /// panels sit only in leaves, every child lies strictly within its parent (it is not
    /// the parent's whole rectangle), two children lie
    /// on either side of a cut line, and a node marked as totally used is so.
    pub open spec fn wf(self) -> bool
        decreases self,
    {
        &&& 0 <= self.tile.x1 <= self.tile.x2
        &&& 0 <= self.tile.y1 <= self.tile.y2
        &&& self.is_final ==> self.is_leaf()
        &&& self.is_area_totally_used ==> self.totally_used_area == self.area() && self.used_area_spec() == self.area()
        &&& match self.child1 {
            Some(c) => c.wf() && encloses(self.tile, c.tile) && c.tile != self.tile,
            None => true,
        }
        &&& match self.child2 {
            Some(c) => c.wf() && encloses(self.tile, c.tile) && c.tile != self.tile,
            None => true,
        }
        &&& match (self.child1, self.child2) {
            (Some(a), Some(b)) => separated(a.tile, b.tile),
            _ => true,
        }
    }

    /// Area covered by placed panels.
    pub open spec fn used_area_spec(self) -> int
        decreases self,
    {
        if self.is_final {
            self.area()
        } else {
            (match self.child1 { Some(c) => c.used_area_spec(), None => 0 })
                + (match self.child2 { Some(c) => c.used_area_spec(), None => 0 })
        }
    }

    /// Number of nodes in the tree.
    pub open spec fn size(self) -> nat
        decreases self,
    {
        1 + (match self.child1 { Some(c) => c.size(), None => 0 })
            + (match self.child2 { Some(c) => c.size(), None => 0 })
    }

    /// Number of nodes that hold a panel.
    pub open spec fn final_count(self) -> nat
        decreases self,
    {
        (if self.is_final { 1nat } else { 0nat })
            + (match self.child1 { Some(c) => c.final_count(), None => 0 })
            + (match self.child2 { Some(c) => c.final_count(), None => 0 })
    }

    /// Number of free leaves.
    pub open spec fn free_count(self) -> nat
        decreases self,
    {
        (if self.is_free_leaf() { 1nat } else { 0nat })
            + (match self.child1 { Some(c) => c.free_count(), None => 0 })
            + (match self.child2 { Some(c) => c.free_count(), None => 0 })
    }

    /// Number of nodes holding a panel that is wider than high.
    pub open spec fn final_horizontal_count(self) -> nat
        decreases self,
    {
        (if self.is_final && self.w() > self.h() { 1nat } else { 0nat })
            + (match self.child1 { Some(c) => c.final_horizontal_count(), None => 0 })
            + (match self.child2 { Some(c) => c.final_horizontal_count(), None => 0 })
    }

    /// Number of nodes holding a panel that is higher than wide.
    pub open spec fn final_vertical_count(self) -> nat
        decreases self,
    {
        (if self.is_final && self.h() > self.w() { 1nat } else { 0nat })
            + (match self.child1 { Some(c) => c.final_vertical_count(), None => 0 })
            + (match self.child2 { Some(c) => c.final_vertical_count(), None => 0 })
    }

    /// Largest area of a free leaf (0 when there is none).
    pub open spec fn biggest_free_area(self) -> int
        decreases self,
    {
        let own = if self.is_free_leaf() { self.area() } else { 0 };
        let a1 = match self.child1 { Some(c) => c.biggest_free_area(), None => 0 };
        let a2 = match self.child2 { Some(c) => c.biggest_free_area(), None => 0 };
        let m = if own >= a1 { own } else { a1 };
        if m >= a2 { m } else { a2 }
    }

    /// Some node holds a panel.
    pub open spec fn has_final_spec(self) -> bool
        decreases self,
    {
        self.is_final
            || (match self.child1 { Some(c) => c.has_final_spec(), None => false })
            || (match self.child2 { Some(c) => c.has_final_spec(), None => false })
    }

    /// The nodes holding panels, in pre-order.
    pub open spec fn final_nodes(self) -> Seq<TileNode>
        decreases self,
    {
        (if self.is_final { seq![self] } else { Seq::empty() })
            + (match self.child1 { Some(c) => c.final_nodes(), None => Seq::empty() })
            + (match self.child2 { Some(c) => c.final_nodes(), None => Seq::empty() })
    }

    /// The free leaves, in pre-order.
    pub open spec fn free_leaves(self) -> Seq<TileNode>
        decreases self,
    {
        (if self.is_free_leaf() { seq![self] } else { Seq::empty() })
            + (match self.child1 { Some(c) => c.free_leaves(), None => Seq::empty() })
            + (match self.child2 { Some(c) => c.free_leaves(), None => Seq::empty() })
    }

    /// Number of levels of the tree (a leaf has depth 1).
    pub open spec fn depth(self) -> nat
        decreases self,
    {
        if self.is_leaf() {
            1
        } else {
            let d1 = match &self.child1 { Some(c) => c.depth(), None => 0 };
            let d2 = match &self.child2 { Some(c) => c.depth(), None => 0 };
            1 + if d1 >= d2 { d1 } else { d2 }
        }
    }

    /// The pairing values of the sizes of placed panels.
    pub open spec fn distinct_set(self) -> Set<i32>
        decreases self,
    {
        if self.is_final {
            set![pairing(self.w(), self.h()) as i32]
        } else {
            (match self.child1 { Some(c) => c.distinct_set(), None => Set::empty() })
                .union(match self.child2 { Some(c) => c.distinct_set(), None => Set::empty() })
        }
    }

    /// Every placed panel's pairing value is computable in 32-bit arithmetic.
    pub open spec fn pairing_fits(self) -> bool
        decreases self,
    {
        &&& self.is_final ==> (self.w() + self.h()) * (self.w() + self.h() + 1) <= i32::MAX
        &&& (match self.child1 { Some(c) => c.pairing_fits(), None => true })
        &&& (match self.child2 { Some(c) => c.pairing_fits(), None => true })
    }

    /// Concatenated `x1 y1 x2 y2 is_final` of all nodes in pre-order.
    pub open spec fn identifier(self) -> Seq<char>
        decreases self,
    {
        self.own_identifier()
            + (match self.child1 { Some(c) => c.identifier(), None => Seq::empty() })
            + (match self.child2 { Some(c) => c.identifier(), None => Seq::empty() })
    }

    /// Equality as the library compares nodes: identifier, rectangle, panel flag and
    /// both subtrees.
    pub open spec fn same_node(self, other: TileNode) -> bool
        decreases self,
    {
        &&& self.id == other.id
        &&& self.tile == other.tile
        &&& self.is_final == other.is_final
        &&& match (self.child1, other.child1) {
            (Some(a), Some(b)) => a.same_node(*b),
            (None, None) => true,
            _ => false,
        }
        &&& match (self.child2, other.child2) {
            (Some(a), Some(b)) => a.same_node(*b),
            (None, None) => true,
            _ => false,
        }
    }

    /// The first node in pre-order that is the same node as `target`.
    pub open spec fn find_spec(self, target: TileNode) -> Option<TileNode>
        decreases self,
    {
        if self.same_node(target) {
            Some(self)
        } else {
            match self.child1 {
                Some(c) => match c.find_spec(target) {
                    Some(f) => Some(f),
                    None => match self.child2 { Some(d) => d.find_spec(target), None => None },
                },
                None => match self.child2 { Some(d) => d.find_spec(target), None => None },
            }
        }
    }

    /// The tree after `get_used_area` has marked every fully used node on its way.
    pub open spec fn with_cache(self) -> TileNode
        decreases self,
    {
        if self.is_area_totally_used || self.is_final {
            self
        } else {
            let c1 = match self.child1 { Some(c) => Some(Box::new(c.with_cache())), None => None };
            let c2 = match self.child2 { Some(c) => Some(Box::new(c.with_cache())), None => None };
            if self.used_area_spec() == self.area() {
                TileNode { child1: c1, child2: c2, is_area_totally_used: true, totally_used_area: self.area() as i64, ..self }
            } else {
                TileNode { child1: c1, child2: c2, ..self }
            }
        }
    }

    /// A free node with the given corner coordinates and a fresh identifier.
    pub fn new(x1: i32, x2: i32, y1: i32, y2: i32) -> (n: TileNode)
        ensures
            n.id >= 0,
            n.tile == (Tile { x1, x2, y1, y2 }),
            n.child1 is None,
            n.child2 is None,
            !n.is_final,
            !n.is_rotated,
            n.external_id == -1,
            !n.is_area_totally_used,
            n.totally_used_area == 0,
    {
        TileNode {
            id: next_id(),
            tile: Tile::new(x1, x2, y1, y2),
            child1: None,
            child2: None,
            is_final: false,
            is_rotated: false,
            external_id: -1,
            is_area_totally_used: false,
            totally_used_area: 0,
        }
    }

    /// A free node spanning `(0, 0)`-`(width, height)` of the given dimensions.
    pub fn from_dimensions(dimensions: &TileDimensions) -> (n: TileNode)
        ensures
            n.id >= 0,
            n.tile == (Tile { x1: 0, x2: dimensions.width, y1: 0, y2: dimensions.height }),
            n.child1 is None,
            n.child2 is None,
            !n.is_final,
            !n.is_rotated,
            n.external_id == -1,
            !n.is_area_totally_used,
            n.totally_used_area == 0,
    {
        TileNode::new(0, dimensions.width, 0, dimensions.height)
    }

    /// A deep copy of the tree.
    pub fn duplicate(&self) -> (n: TileNode)
        ensures
            n == *self,
        decreases self,
    {
        let c1 = match &self.child1 {
            Some(c) => Some(Box::new(c.duplicate())),
            None => None,
        };
        let c2 = match &self.child2 {
            Some(c) => Some(Box::new(c.duplicate())),
            None => None,
        };
        TileNode {
            id: self.id,
            tile: self.tile,
            child1: c1,
            child2: c2,
            is_final: self.is_final,
            is_rotated: self.is_rotated,
            external_id: self.external_id,
            is_area_totally_used: self.is_area_totally_used,
            totally_used_area: self.totally_used_area,
        }
    }

    /// Whether the node has been split.
    pub fn has_children(&self) -> (b: bool)
        ensures
            b == !self.is_leaf(),
    {
        self.child1.is_some() || self.child2.is_some()
    }

    /// Node equality: identifier, rectangle, panel flag and both subtrees.
    pub fn equals(&self, other: &TileNode) -> (b: bool)
        ensures
            b == self.same_node(*other),
        decreases self,
    {
        if self.id != other.id || self.tile != other.tile || self.is_final != other.is_final {
            return false;
        }
        let e1 = match (&self.child1, &other.child1) {
            (Some(a), Some(b)) => a.equals(b),
            (None, None) => true,
            _ => false,
        };
        if !e1 {
            return false;
        }
        match (&self.child2, &other.child2) {
            (Some(a), Some(b)) => a.equals(b),
            (None, None) => true,
            _ => false,
        }
    }

    /// The first node in pre-order that equals `target`.
    pub fn find_tile(&self, target: &TileNode) -> (r: Option<&TileNode>)
        ensures
            match r {
                Some(n) => self.find_spec(*target) == Some(*n),
                None => self.find_spec(*target) is None,
            },
        decreases self,
    {
        if self.equals(target) {
            return Some(self);
        }
        if let Some(child1) = &self.child1 {
            if let Some(found) = child1.find_tile(target) {
                return Some(found);
            }
        }
        if let Some(child2) = &self.child2 {
            return child2.find_tile(target);
        }
        None
    }

    /// The tree with its first node in pre-order that is the same node as `target`
    /// replaced by `new`; the tree itself when there is none.
    pub open spec fn with_found_replaced(self, target: TileNode, new: TileNode) -> TileNode
        decreases self,
    {
        if self.same_node(target) {
            new
        } else {
            match self.child1 {
                Some(c) if c.find_spec(target) is Some =>
                    TileNode { child1: Some(Box::new(c.with_found_replaced(target, new))), ..self },
                _ => match self.child2 {
                    Some(d) => TileNode { child2: Some(Box::new(d.with_found_replaced(target, new))), ..self },
                    None => self,
                },
            }
        }
    }

    /// The first node in pre-order that equals `target`, to be changed in place: the
    /// tree afterwards is the tree with that node replaced by what it was changed to.
    pub fn find_tile_mut(&mut self, target: &TileNode) -> (r: Option<&mut TileNode>)
        ensures
            match r {
                Some(n) => {
                    &&& old(self).find_spec(*target) == Some(*n)
                    &&& *final(self) == old(self).with_found_replaced(*target, *final(n))
                },
                None => {
                    &&& old(self).find_spec(*target) is None
                    &&& *final(self) == *old(self)
                },
            },
        decreases *old(self),
    {
        if self.equals(target) {
            return Some(self);
        }
        match &mut self.child1 {
            Some(c1) => {
                match c1.find_tile_mut(target) {
                    Some(found) => { return Some(found); },
                    None => {},
                }
            },
            None => {},
        }
        match &mut self.child2 {
            Some(c2) => c2.find_tile_mut(target),
            None => None,
        }
    }

    /// The tree with its first node below the root, in pre-order, that is the same node
    /// as `target` replaced by `new`; the tree itself when there is none.
    pub open spec fn with_descendant_replaced(self, target: TileNode, new: TileNode) -> TileNode {
        match self.child1 {
            Some(c) if c.find_spec(target) is Some =>
                TileNode { child1: Some(Box::new(c.with_found_replaced(target, new))), ..self },
            _ => match self.child2 {
                Some(d) if d.find_spec(target) is Some =>
                    TileNode { child2: Some(Box::new(d.with_found_replaced(target, new))), ..self },
                _ => self,
            },
        }
    }

    /// The first node below the root, in pre-order, that is the same node as `target`.
    pub open spec fn descendant_spec(self, target: TileNode) -> Option<TileNode> {
        match self.child1 {
            Some(c) => match c.find_spec(target) {
                Some(f) => Some(f),
                None => match self.child2 { Some(d) => d.find_spec(target), None => None },
            },
            None => match self.child2 { Some(d) => d.find_spec(target), None => None },
        }
    }

    /// Replacing in a tree where nothing is found changes nothing.
    proof fn lemma_replace_absent(self, target: TileNode, new: TileNode)
        requires
            self.find_spec(target) is None,
        ensures
            self.with_found_replaced(target, new) == self,
        decreases self,
    {
        if let Some(c) = self.child1 {
            c.lemma_replace_absent(target, new);
        }
        if let Some(d) = self.child2 {
            d.lemma_replace_absent(target, new);
        }
    }

    /// Below a root that is not the node looked for, finding and replacing are those of
    /// the whole tree.
    proof fn lemma_found_below(self, target: TileNode, new: TileNode)
        requires
            !self.same_node(target),
        ensures
            self.find_spec(target) == self.descendant_spec(target),
            self.with_found_replaced(target, new) == self.with_descendant_replaced(target, new),
    {
        if let Some(d) = self.child2 {
            if d.find_spec(target) is None {
                d.lemma_replace_absent(target, new);
            }
        }
    }

    /// Replaces the first node below the root, in pre-order, that equals `target` by
    /// `new_node`, and gives the new node to be changed in place; nothing changes when no
    /// node below the root equals `target`.
    pub fn replace_tile(&mut self, new_node: TileNode, target: &TileNode) -> (r: Option<&mut TileNode>)
        ensures
            match r {
                Some(n) => {
                    &&& old(self).descendant_spec(*target) is Some
                    &&& *n == new_node
                    &&& *final(self) == old(self).with_descendant_replaced(*target, *final(n))
                },
                None => old(self).descendant_spec(*target) is None && *final(self) == *old(self),
            },
        decreases *old(self),
    {
        match &mut self.child1 {
            Some(c1) => {
                if c1.equals(target) {
                    *c1 = Box::new(new_node);
                    return Some(&mut **c1);
                }
                proof { c1.lemma_found_below(*target, new_node); }
                match c1.replace_tile(new_node.duplicate(), target) {
                    Some(found) => { return Some(found); },
                    None => {},
                }
            },
            None => {},
        }
        match &mut self.child2 {
            Some(c2) => {
                if c2.equals(target) {
                    *c2 = Box::new(new_node);
                    return Some(&mut **c2);
                }
                proof { c2.lemma_found_below(*target, new_node); }
                c2.replace_tile(new_node, target)
            },
            None => None,
        }
    }

    /// The rendering that `append_to_string` produces, each level indented four spaces
    /// further than its parent.
    pub open spec fn display_text(self, indent: Seq<char>) -> Seq<char>
        decreases self,
    {
        self.own_line(indent)
            + (match self.child1 { Some(c) => c.display_text(indent + seq![' ', ' ', ' ', ' ']), None => Seq::empty() })
            + (match self.child2 { Some(c) => c.display_text(indent + seq![' ', ' ', ' ', ' ']), None => Seq::empty() })
    }

    /// Whether the tree is well formed (see `wf`), and if so the area that its placed
    /// panels cover.
    pub fn layout_check(&self) -> (r: Option<i64>)
        ensures
            r is Some <==> self.wf(),
            r matches Some(u) ==> u == self.used_area_spec(),
        decreases self,
    {
        let t = self.tile;
        if t.x1 < 0 || t.x2 < t.x1 || t.y1 < 0 || t.y2 < t.y1 {
            return None;
        }
        if self.is_final && (self.child1.is_some() || self.child2.is_some()) {
            return None;
        }
        let u1: i64 = match &self.child1 {
            Some(c) => {
                match c.layout_check() {
                    None => { return None; },
                    Some(u) => {
                        let ct = c.tile;
                        if !(t.x1 <= ct.x1 && ct.x2 <= t.x2 && t.y1 <= ct.y1 && ct.y2 <= t.y2)
                            || (ct.x1 == t.x1 && ct.x2 == t.x2 && ct.y1 == t.y1 && ct.y2 == t.y2) {
                            return None;
                        }
                        u
                    },
                }
            },
            None => 0,
        };
        let u2: i64 = match &self.child2 {
            Some(c) => {
                match c.layout_check() {
                    None => { return None; },
                    Some(u) => {
                        let ct = c.tile;
                        if !(t.x1 <= ct.x1 && ct.x2 <= t.x2 && t.y1 <= ct.y1 && ct.y2 <= t.y2)
                            || (ct.x1 == t.x1 && ct.x2 == t.x2 && ct.y1 == t.y1 && ct.y2 == t.y2) {
                            return None;
                        }
                        u
                    },
                }
            },
            None => 0,
        };
        if let (Some(a), Some(b)) = (&self.child1, &self.child2) {
            if !(a.tile.x2 <= b.tile.x1 || a.tile.y2 <= b.tile.y1) {
                return None;
            }
        }
        let ghost m = TileNode { is_area_totally_used: false, is_final: false, ..*self };
        proof {
            assert(m.wf());
            lemma_children_area(m);
            lemma_wf_sides(m);
            if let Some(c) = &self.child1 { lemma_used_area_bounds(**c); }
            if let Some(c) = &self.child2 { lemma_used_area_bounds(**c); }
            assert(m.area() == self.area());
        }
        let area = (t.x2 as i64 - t.x1 as i64) * (t.y2 as i64 - t.y1 as i64);
        let used = if self.is_final { area } else { u1 + u2 };
        if self.is_area_totally_used && (self.totally_used_area != area || used != area) {
            return None;
        }
        Some(used)
    }

    /// Area covered by placed panels; marks on the way every node whose area is fully
    /// used, so that later calls return its area at once.
    pub fn get_used_area(&mut self) -> (r: i64)
        requires
            old(self).wf(),
        ensures
            r == old(self).used_area_spec(),
            *final(self) == old(self).with_cache(),
            final(self).wf(),
        decreases *old(self),
    {
        proof {
            lemma_used_area_bounds(*self);
            lemma_with_cache(*self);
            lemma_wf_sides(*self);
        }
        if self.is_area_totally_used {
            return self.totally_used_area;
        }
        if self.is_final {
            return self.get_area();
        }
        let ghost old_self = *self;
        let mut used_area: i64 = 0;
        let mut c1 = self.child1.take();
        match c1 {
            Some(mut b) => {
                proof { lemma_used_area_bounds(*b); }
                let u = (&mut *b).get_used_area();
                used_area = used_area + u;
                c1 = Some(b);
            },
            None => {},
        }
        let mut c2 = self.child2.take();
        match c2 {
            Some(mut b) => {
                proof { lemma_used_area_bounds(*b); lemma_children_area(old_self); }
                let u = (&mut *b).get_used_area();
                used_area = used_area + u;
                c2 = Some(b);
            },
            None => {},
        }
        self.child1 = c1;
        self.child2 = c2;
        let area = self.get_area();
        if used_area == area {
            self.is_area_totally_used = true;
            self.totally_used_area = area;
        }
        used_area
    }

    /// Area of the node not covered by placed panels.
    pub fn get_unused_area(&mut self) -> (r: i64)
        requires
            old(self).wf(),
        ensures
            r == old(self).area() - old(self).used_area_spec(),
            *final(self) == old(self).with_cache(),
            final(self).wf(),
    {
        proof { lemma_wf_sides(*self); lemma_used_area_bounds(*self); }
        let a = self.get_area();
        let u = self.get_used_area();
        a - u
    }

    /// Whether some node of the tree holds a panel.
    pub fn has_final(&self) -> (b: bool)
        ensures
            b == self.has_final_spec(),
        decreases self,
    {
        if self.is_final {
            return true;
        }
        if let Some(child1) = &self.child1 {
            if child1.has_final() {
                return true;
            }
        }
        if let Some(child2) = &self.child2 {
            if child2.has_final() {
                return true;
            }
        }
        false
    }

    /// Number of free leaves.
    pub fn get_nbr_unused_tiles(&self) -> (r: i32)
        requires
            self.free_count() <= i32::MAX,
        ensures
            r == self.free_count(),
        decreases self,
    {
        let mut count: i32 = 0;
        if !self.is_final && self.child1.is_none() && self.child2.is_none() {
            count = count + 1;
        }
        if let Some(child1) = &self.child1 {
            count = count + child1.get_nbr_unused_tiles();
        }
        if let Some(child2) = &self.child2 {
            count = count + child2.get_nbr_unused_tiles();
        }
        count
    }

    /// Number of nodes holding a panel.
    pub fn get_nbr_final_tiles(&self) -> (r: i32)
        requires
            self.final_count() <= i32::MAX,
        ensures
            r == self.final_count(),
        decreases self,
    {
        let mut count: i32 = if self.is_final { 1 } else { 0 };
        if let Some(child1) = &self.child1 {
            count = count + child1.get_nbr_final_tiles();
        }
        if let Some(child2) = &self.child2 {
            count = count + child2.get_nbr_final_tiles();
        }
        count
    }

    /// Largest area of a free leaf (0 when there is none).
    pub fn get_biggest_area(&self) -> (r: i64)
        requires
            self.wf(),
        ensures
            r == self.biggest_free_area(),
        decreases self,
    {
        proof { lemma_wf_sides(*self); }
        let mut area: i64 = if self.child1.is_none() && self.child2.is_none() && !self.is_final {
            self.get_area()
        } else {
            0
        };
        if let Some(child1) = &self.child1 {
            let a = child1.get_biggest_area();
            if a > area {
                area = a;
            }
        }
        if let Some(child2) = &self.child2 {
            let a = child2.get_biggest_area();
            if a > area {
                area = a;
            }
        }
        area
    }

    /// Number of nodes holding a panel wider than high.
    pub fn get_nbr_final_horizontal(&self) -> (r: i32)
        requires
            self.wf(),
            self.final_horizontal_count() <= i32::MAX,
        ensures
            r == self.final_horizontal_count(),
        decreases self,
    {
        proof { lemma_wf_sides(*self); }
        let mut count: i32 = if self.is_final && self.is_horizontal() { 1 } else { 0 };
        if let Some(child1) = &self.child1 {
            count = count + child1.get_nbr_final_horizontal();
        }
        if let Some(child2) = &self.child2 {
            count = count + child2.get_nbr_final_horizontal();
        }
        count
    }

    /// Number of nodes holding a panel higher than wide.
    pub fn get_nbr_final_vertical(&self) -> (r: i32)
        requires
            self.wf(),
            self.final_vertical_count() <= i32::MAX,
        ensures
            r == self.final_vertical_count(),
        decreases self,
    {
        proof { lemma_wf_sides(*self); }
        let mut count: i32 = if self.is_final && self.is_vertical() { 1 } else { 0 };
        if let Some(child1) = &self.child1 {
            count = count + child1.get_nbr_final_vertical();
        }
        if let Some(child2) = &self.child2 {
            count = count + child2.get_nbr_final_vertical();
        }
        count
    }

    /// The set of pairing values of the sizes of placed panels.
    pub fn get_distinct_tile_set(&self) -> (r: HashSet<i32>)
        requires
            self.wf(),
            self.pairing_fits(),
        ensures
            r@ == self.distinct_set(),
    {
        let mut set: HashSet<i32> = HashSet::new();
        self.collect_distinct_tiles(&mut set);
        proof { assert(Set::<i32>::empty().union(self.distinct_set()) == self.distinct_set()); }
        set
    }

    fn collect_distinct_tiles(&self, set: &mut HashSet<i32>)
        requires
            self.wf(),
            self.pairing_fits(),
        ensures
            final(set)@ == old(set)@.union(self.distinct_set()),
        decreases self,
    {
        proof { lemma_wf_sides(*self); }
        if self.is_final {
            let width = self.get_width();
            let height = self.get_height();
            proof { lemma_pairing_bounds(width as int, height as int); }
            let sum = width + height;
            let hash = ((sum * (sum + 1)) / 2) + height;
            set.insert(hash);
            proof { assert(old(set)@.insert(hash) == old(set)@.union(set![hash])); }
        } else {
            let ghost s0 = set@;
            if let Some(child1) = &self.child1 {
                child1.collect_distinct_tiles(set);
            }
            let ghost s1 = set@;
            if let Some(child2) = &self.child2 {
                child2.collect_distinct_tiles(set);
            }
            proof {
                let d1 = match &self.child1 { Some(c) => c.distinct_set(), None => Set::<i32>::empty() };
                let d2 = match &self.child2 { Some(c) => c.distinct_set(), None => Set::<i32>::empty() };
                assert(s1 == s0.union(d1));
                assert(set@ == s1.union(d2));
                assert(set@ == s0.union(d1.union(d2)));
            }
        }
    }

    /// Free dimensions with the node's width and height.
    pub fn to_tile_dimensions(&self) -> (d: TileDimensions)
        requires
            self.tile.sides_fit(),
        ensures
            d.id == -1,
            d.width == self.w(),
            d.height == self.h(),
            d.material@ == DEFAULT_MATERIAL@,
            d.orientation == 0,
            d.label is None,
            !d.is_rotated,
    {
        TileDimensions::simple(self.get_width(), self.get_height())
    }

    /// The coordinates and panel flags of all nodes, concatenated in pre-order; two trees
    /// with the same layout have the same identifier.
    pub fn to_string_identifier(&self) -> (s: String)
        ensures
            s@ == self.identifier(),
    {
        let mut result = String::new();
        self.append_to_string_identifier(&mut result);
        proof { assert(Seq::<char>::empty() + self.identifier() == self.identifier()); }
        result
    }

    /// The node's own part of the identifier.
    pub open spec fn own_identifier(self) -> Seq<char> {
        int_decimal(self.tile.x1 as int) + int_decimal(self.tile.y1 as int) + int_decimal(self.tile.x2 as int)
            + int_decimal(self.tile.y2 as int) + bool_text(self.is_final)
    }

    fn append_own_identifier(&self, sb: &mut String)
        ensures
            final(sb)@ == old(sb)@ + self.own_identifier(),
    {
        let ghost s0 = sb@;
        push_i64_decimal(sb, self.tile.x1 as i64);
        push_i64_decimal(sb, self.tile.y1 as i64);
        push_i64_decimal(sb, self.tile.x2 as i64);
        push_i64_decimal(sb, self.tile.y2 as i64);
        push_bool_text(sb, self.is_final);
        proof {
            assert(sb@ =~= s0 + self.own_identifier());
        }
    }

    #[verifier::rlimit(30)]
    fn append_to_string_identifier(&self, sb: &mut String)
        ensures
            final(sb)@ == old(sb)@ + self.identifier(),
        decreases self,
    {
        self.append_own_identifier(sb);
        let ghost mid = sb@;
        if let Some(child1) = &self.child1 {
            child1.append_to_string_identifier(sb);
        }
        let ghost mid2 = sb@;
        if let Some(child2) = &self.child2 {
            child2.append_to_string_identifier(sb);
        }
        proof {
            let own = self.own_identifier();
            let i1 = match &self.child1 { Some(c) => c.identifier(), None => Seq::<char>::empty() };
            let i2 = match &self.child2 { Some(c) => c.identifier(), None => Seq::<char>::empty() };
            assert(mid2 == mid + i1);
            assert(sb@ == mid2 + i2);
            assert(self.identifier() == own + i1 + i2);
            assert(sb@ =~= old(sb)@ + (own + i1 + i2));
        }
    }

    /// The node's own line in `display_text`.
    pub open spec fn own_line(self, indent: Seq<char>) -> Seq<char> {
        seq!['\n'] + indent + seq!['('] + int_decimal(self.tile.x1 as int) + seq![',', ' '] + int_decimal(self.tile.y1 as int)
            + seq![')', '('] + int_decimal(self.tile.x2 as int) + seq![',', ' '] + int_decimal(self.tile.y2 as int) + seq![')']
            + (if self.is_final { seq!['*'] } else { Seq::empty() })
    }

    fn own_line_text(&self, indent: &str) -> (s: String)
        ensures
            s@ == self.own_line(indent@),
    {
        let mut result = String::new();
        proof {
            reveal_strlit("\n"); reveal_strlit("("); reveal_strlit(", "); reveal_strlit(")(");
            reveal_strlit(")"); reveal_strlit("*");
        }
        result.append("\n");
        result.append(indent);
        result.append("(");
        push_i64_decimal(&mut result, self.tile.x1 as i64);
        result.append(", ");
        push_i64_decimal(&mut result, self.tile.y1 as i64);
        result.append(")(");
        push_i64_decimal(&mut result, self.tile.x2 as i64);
        result.append(", ");
        push_i64_decimal(&mut result, self.tile.y2 as i64);
        result.append(")");
        if self.is_final {
            result.append("*");
        }
        proof { assert(result@ =~= self.own_line(indent@)); }
        result
    }

    /// A multi-line rendering of the tree: one line per node with its corners, a `*`
    /// after nodes holding a panel, children indented by four more spaces.
    #[verifier::rlimit(30)]
    pub fn append_to_string(&self, indent: &str) -> (s: String)
        ensures
            s@ == self.display_text(indent@),
        decreases self,
    {
        let mut result = self.own_line_text(indent);
        let ghost own = result@;
        let mut new_indent = String::new();
        proof { reveal_strlit("    "); }
        new_indent.append(indent);
        new_indent.append("    ");
        if let Some(child1) = &self.child1 {
            let t = child1.append_to_string(new_indent.as_str());
            result.append(t.as_str());
        }
        let ghost mid = result@;
        if let Some(child2) = &self.child2 {
            let t = child2.append_to_string(new_indent.as_str());
            result.append(t.as_str());
        }
        proof {
            let ni = indent@ + seq![' ', ' ', ' ', ' '];
            assert(new_indent@ =~= ni);
            let t1 = match &self.child1 { Some(c) => c.display_text(ni), None => Seq::<char>::empty() };
            let t2 = match &self.child2 { Some(c) => c.display_text(ni), None => Seq::<char>::empty() };
            assert(mid == own + t1);
            assert(result@ == mid + t2);
            assert(self.display_text(indent@) == self.own_line(indent@) + t1 + t2);
        }
        result
    }

    /// The free leaves, in pre-order.
    pub fn get_unused_tiles(&self) -> (r: Vec<&TileNode>)
        ensures
            deref_seq(r@) == self.free_leaves(),
    {
        let mut unused: Vec<&TileNode> = Vec::new();
        self.collect_unused_tiles(&mut unused);
        proof { assert(deref_seq(Seq::<&TileNode>::empty()) + self.free_leaves() =~= self.free_leaves()); }
        unused
    }

    fn collect_unused_tiles<'a>(&'a self, unused: &mut Vec<&'a TileNode>)
        ensures
            deref_seq(final(unused)@) == deref_seq(old(unused)@) + self.free_leaves(),
        decreases self,
    {
        let ghost s0 = deref_seq(unused@);
        if !self.is_final && self.child1.is_none() && self.child2.is_none() {
            unused.push(self);
        }
        proof { lemma_deref_push_or_not(old(unused)@, unused@, *self); }
        let ghost s1 = deref_seq(unused@);
        if let Some(child1) = &self.child1 {
            child1.collect_unused_tiles(unused);
        }
        let ghost s2 = deref_seq(unused@);
        if let Some(child2) = &self.child2 {
            child2.collect_unused_tiles(unused);
        }
        proof {
            let own = if self.is_free_leaf() { seq![*self] } else { Seq::<TileNode>::empty() };
            let l1 = match &self.child1 { Some(c) => c.free_leaves(), None => Seq::<TileNode>::empty() };
            let l2 = match &self.child2 { Some(c) => c.free_leaves(), None => Seq::<TileNode>::empty() };
            assert(s1 == s0 + own);
            assert(s2 == s1 + l1);
            assert(deref_seq(unused@) == s2 + l2);
            assert(self.free_leaves() == own + l1 + l2);
            assert(deref_seq(unused@) =~= s0 + (own + l1 + l2));
        }
    }

    /// The nodes holding a panel, in pre-order.
    pub fn get_final_tile_nodes(&self) -> (r: Vec<&TileNode>)
        ensures
            deref_seq(r@) == self.final_nodes(),
    {
        let mut nodes: Vec<&TileNode> = Vec::new();
        self.collect_final_tile_nodes(&mut nodes);
        proof { assert(deref_seq(Seq::<&TileNode>::empty()) + self.final_nodes() =~= self.final_nodes()); }
        nodes
    }

    fn collect_final_tile_nodes<'a>(&'a self, nodes: &mut Vec<&'a TileNode>)
        ensures
            deref_seq(final(nodes)@) == deref_seq(old(nodes)@) + self.final_nodes(),
        decreases self,
    {
        let ghost s0 = deref_seq(nodes@);
        if self.is_final {
            nodes.push(self);
        }
        proof { lemma_deref_push_or_not(old(nodes)@, nodes@, *self); }
        let ghost s1 = deref_seq(nodes@);
        if let Some(child1) = &self.child1 {
            child1.collect_final_tile_nodes(nodes);
        }
        let ghost s2 = deref_seq(nodes@);
        if let Some(child2) = &self.child2 {
            child2.collect_final_tile_nodes(nodes);
        }
        proof {
            let own = if self.is_final { seq![*self] } else { Seq::<TileNode>::empty() };
            let l1 = match &self.child1 { Some(c) => c.final_nodes(), None => Seq::<TileNode>::empty() };
            let l2 = match &self.child2 { Some(c) => c.final_nodes(), None => Seq::<TileNode>::empty() };
            assert(s1 == s0 + own);
            assert(s2 == s1 + l1);
            assert(deref_seq(nodes@) == s2 + l2);
            assert(self.final_nodes() == own + l1 + l2);
            assert(deref_seq(nodes@) =~= s0 + (own + l1 + l2));
        }
    }

    // ----- rectangle accessors -----

    pub fn get_x1(&self) -> (r: i32)
        ensures
            r == self.tile.x1,
    {
        self.tile.x1
    }

    pub fn get_x2(&self) -> (r: i32)
        ensures
            r == self.tile.x2,
    {
        self.tile.x2
    }

    pub fn get_y1(&self) -> (r: i32)
        ensures
            r == self.tile.y1,
    {
        self.tile.y1
    }

    pub fn get_y2(&self) -> (r: i32)
        ensures
            r == self.tile.y2,
    {
        self.tile.y2
    }

    pub fn get_width(&self) -> (r: i32)
        requires
            self.tile.sides_fit(),
        ensures
            r == self.w(),
    {
        self.tile.get_width()
    }

    pub fn get_height(&self) -> (r: i32)
        requires
            self.tile.sides_fit(),
        ensures
            r == self.h(),
    {
        self.tile.get_height()
    }

    pub fn get_area(&self) -> (r: i64)
        requires
            self.tile.sides_fit(),
        ensures
            r == self.area(),
    {
        self.tile.get_area()
    }

    pub fn get_max_side(&self) -> (r: i32)
        requires
            self.tile.sides_fit(),
        ensures
            r == if self.w() >= self.h() { self.w() } else { self.h() },
    {
        self.tile.get_max_side()
    }

    pub fn is_horizontal(&self) -> (b: bool)
        requires
            self.tile.sides_fit(),
        ensures
            b == (self.w() > self.h()),
    {
        self.tile.is_horizontal()
    }

    pub fn is_vertical(&self) -> (b: bool)
        requires
            self.tile.sides_fit(),
        ensures
            b == (self.h() > self.w()),
    {
        self.tile.is_vertical()
    }
}

/// A rectangle within another has no more area; two rectangles within another that lie
/// on either side of a cut line have together no more area.
pub proof fn lemma_children_area(n: TileNode)
    requires
        n.wf(),
    ensures
        match n.child1 { Some(c) => 0 <= c.area() <= n.area(), None => true },
        match n.child2 { Some(c) => 0 <= c.area() <= n.area(), None => true },
        match (n.child1, n.child2) {
            (Some(a), Some(b)) => a.area() + b.area() <= n.area(),
            _ => true,
        },
{
    let ww = n.w();
    let hh = n.h();
    match n.child1 {
        Some(c) => { lemma_wf_sides(*c); lemma_rect_within(ww, hh, c.w(), c.h()); },
        None => {},
    }
    match n.child2 {
        Some(c) => { lemma_wf_sides(*c); lemma_rect_within(ww, hh, c.w(), c.h()); },
        None => {},
    }
    match (n.child1, n.child2) {
        (Some(a), Some(b)) => {
            if a.tile.x2 <= b.tile.x1 {
                lemma_rect_pair(ww, hh, a.w(), a.h(), b.w(), b.h());
            } else {
                lemma_rect_pair(hh, ww, a.h(), a.w(), b.h(), b.w());
                assert(a.h() * a.w() == a.area()) by (nonlinear_arith);
                assert(b.h() * b.w() == b.area()) by (nonlinear_arith);
                assert(hh * ww == ww * hh) by (nonlinear_arith);
            }
        },
        _ => {},
    }
}

pub proof fn lemma_rect_within(ww: int, hh: int, w: int, h: int)
    requires
        0 <= w <= ww,
        0 <= h <= hh,
    ensures
        0 <= w * h <= ww * hh,
{
    assert(0 <= w * h <= ww * hh) by (nonlinear_arith)
        requires 0 <= w <= ww, 0 <= h <= hh;
}

pub proof fn lemma_rect_pair(ww: int, hh: int, aw: int, ah: int, bw: int, bh: int)
    requires
        0 <= aw,
        0 <= bw,
        aw + bw <= ww,
        0 <= ah <= hh,
        0 <= bh <= hh,
    ensures
        aw * ah + bw * bh <= ww * hh,
{
    assert(aw * ah + bw * bh <= ww * hh) by (nonlinear_arith)
        requires 0 <= aw, 0 <= bw, aw + bw <= ww, 0 <= ah <= hh, 0 <= bh <= hh;
}

/// In a well-formed tree the used area lies between 0 and the node's area.
pub proof fn lemma_used_area_bounds(n: TileNode)
    requires
        n.wf(),
    ensures
        0 <= n.used_area_spec() <= n.area(),
    decreases n,
{
    lemma_children_area(n);
    lemma_rect_within(n.w(), n.h(), n.w(), n.h());
    match n.child1 {
        Some(c) => { lemma_used_area_bounds(*c); },
        None => {},
    }
    match n.child2 {
        Some(c) => { lemma_used_area_bounds(*c); },
        None => {},
    }
}

/// Sides of a well-formed node are representable and its area fits in an `i64`.
pub proof fn lemma_wf_sides(n: TileNode)
    requires
        n.wf(),
    ensures
        n.tile.sides_fit(),
        0 <= n.w() <= i32::MAX,
        0 <= n.h() <= i32::MAX,
        0 <= n.area() <= i64::MAX,
{
    lemma_i32_product_fits_i64(n.w(), n.h());
    lemma_rect_within(n.w(), n.h(), n.w(), n.h());
}

/// Marking fully used nodes keeps the tree well formed and changes none of its
/// measures.
pub proof fn lemma_with_cache(n: TileNode)
    requires
        n.wf(),
    ensures
        n.with_cache().wf(),
        n.with_cache().used_area_spec() == n.used_area_spec(),
        n.with_cache().tile == n.tile,
        n.with_cache().is_final == n.is_final,
        n.with_cache().child1 is Some == n.child1 is Some,
        n.with_cache().child2 is Some == n.child2 is Some,
    decreases n,
{
    lemma_wf_sides(n);
    match n.child1 {
        Some(c) => { lemma_with_cache(*c); },
        None => {},
    }
    match n.child2 {
        Some(c) => { lemma_with_cache(*c); },
        None => {},
    }
}

pub proof fn lemma_pairing_bounds(w: int, h: int)
    requires
        0 <= w,
        0 <= h,
        (w + h) * (w + h + 1) <= i32::MAX,
    ensures
        0 <= (w + h) * (w + h + 1),
        0 <= (w + h) * (w + h + 1) / 2 + h <= i32::MAX,
        w + h + 1 <= i32::MAX,
{
    let s = w + h;
    assert(0 <= s * (s + 1)) by (nonlinear_arith) requires 0 <= s;
    assert(s + 1 <= s * (s + 1) + 1) by (nonlinear_arith) requires 0 <= s;
    assert(s * (s + 1) / 2 + s <= s * (s + 1) || s == 0) by (nonlinear_arith) requires 0 <= s;
}

} // verus!
