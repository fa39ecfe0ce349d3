//! Guillotine cuts.

use vstd::prelude::*;

verus! {

/// Direction of a cut.
#[derive(Debug, Clone, Copy, PartialEq, Eq, Structural)]
pub enum CutType {
    Horizontal,
    Vertical,
}

/// A straight cut through a node, from `(x1, y1)` to `(x2, y2)`, with the node it
/// split and the two nodes it produced.
#[derive(Debug, Clone, Copy, PartialEq, Eq, Structural)]
pub struct Cut {
    pub x1: i32,
    pub y1: i32,
    pub x2: i32,
    pub y2: i32,
    pub original_width: i32,
    pub original_height: i32,
    pub is_horizontal: bool,
    pub cut_coord: i32,
    pub original_tile_id: i32,
    pub child1_tile_id: i32,
    pub child2_tile_id: i32,
}

/// Absolute value over the integers.
pub open spec fn abs_int(x: int) -> int {
    if x < 0 { -x } else { x }
}

impl Cut {
    /// A cut with all fields given.
    pub fn new(
        x1: i32,
        y1: i32,
        x2: i32,
        y2: i32,
        original_width: i32,
        original_height: i32,
        is_horizontal: bool,
        cut_coord: i32,
        original_tile_id: i32,
        child1_tile_id: i32,
        child2_tile_id: i32,
    ) -> (c: Self)
        ensures
            c == (Cut {
                x1, y1, x2, y2, original_width, original_height, is_horizontal, cut_coord,
                original_tile_id, child1_tile_id, child2_tile_id,
            }),
    {
        Cut {
            x1,
            y1,
            x2,
            y2,
            original_width,
            original_height,
            is_horizontal,
            cut_coord,
            original_tile_id,
            child1_tile_id,
            child2_tile_id,
        }
    }

    /// Length of the cut: `|x2 - x1| + |y2 - y1|`.
    pub fn get_length(&self) -> (l: i64)
        requires
            i32::MIN < self.x2 - self.x1 <= i32::MAX,
            i32::MIN < self.y2 - self.y1 <= i32::MAX,
            abs_int(self.x2 - self.x1) + abs_int(self.y2 - self.y1) <= i32::MAX,
        ensures
            l == abs_int(self.x2 - self.x1) + abs_int(self.y2 - self.y1),
    {
        let dx = self.x2 - self.x1;
        let dy = self.y2 - self.y1;
        let ax = if dx < 0 { -dx } else { dx };
        let ay = if dy < 0 { -dy } else { dy };
        (ax + ay) as i64
    }

    /// Whether the cut runs horizontally.
    pub fn get_is_horizontal(&self) -> (b: bool)
        ensures
            b == self.is_horizontal,
    {
        self.is_horizontal
    }

    /// The coordinate at which the cut was made.
    pub fn get_cut_coords(&self) -> (c: i32)
        ensures
            c == self.cut_coord,
    {
        self.cut_coord
    }

    /// The coordinate at which the cut was made.
    pub fn cut_coord(&self) -> (c: i32)
        ensures
            c == self.cut_coord,
    {
        self.cut_coord
    }
}

/// Builder of cuts; every field starts at zero / `false`.
#[derive(Debug)]
pub struct CutBuilder {
    x1: i32,
    y1: i32,
    x2: i32,
    y2: i32,
    original_width: i32,
    original_height: i32,
    is_horizontal: bool,
    cut_coord: i32,
    original_tile_id: i32,
    child1_tile_id: i32,
    child2_tile_id: i32,
}

impl CutBuilder {
    /// The cut that `build` would produce now.
    pub closed spec fn view_cut(self) -> Cut {
        Cut {
            x1: self.x1,
            y1: self.y1,
            x2: self.x2,
            y2: self.y2,
            original_width: self.original_width,
            original_height: self.original_height,
            is_horizontal: self.is_horizontal,
            cut_coord: self.cut_coord,
            original_tile_id: self.original_tile_id,
            child1_tile_id: self.child1_tile_id,
            child2_tile_id: self.child2_tile_id,
        }
    }

    /// A builder with every field zero / `false`.
    pub fn new() -> (b: Self)
        ensures
            b.view_cut() == (Cut {
                x1: 0, y1: 0, x2: 0, y2: 0, original_width: 0, original_height: 0, is_horizontal: false,
                cut_coord: 0, original_tile_id: 0, child1_tile_id: 0, child2_tile_id: 0,
            }),
    {
        CutBuilder {
            x1: 0,
            y1: 0,
            x2: 0,
            y2: 0,
            original_width: 0,
            original_height: 0,
            is_horizontal: false,
            cut_coord: 0,
            original_tile_id: 0,
            child1_tile_id: 0,
            child2_tile_id: 0,
        }
    }

    pub fn set_x1(self, x1: i32) -> (b: Self)
        ensures
            b.view_cut() == (Cut { x1, ..self.view_cut() }),
    {
        CutBuilder { x1: x1, ..self }
    }

    pub fn set_y1(self, y1: i32) -> (b: Self)
        ensures
            b.view_cut() == (Cut { y1, ..self.view_cut() }),
    {
        CutBuilder { y1: y1, ..self }
    }

    pub fn set_x2(self, x2: i32) -> (b: Self)
        ensures
            b.view_cut() == (Cut { x2, ..self.view_cut() }),
    {
        CutBuilder { x2: x2, ..self }
    }

    pub fn set_y2(self, y2: i32) -> (b: Self)
        ensures
            b.view_cut() == (Cut { y2, ..self.view_cut() }),
    {
        CutBuilder { y2: y2, ..self }
    }

    pub fn set_original_width(self, width: i32) -> (b: Self)
        ensures
            b.view_cut() == (Cut { original_width: width, ..self.view_cut() }),
    {
        CutBuilder { original_width: width, ..self }
    }

    pub fn set_original_height(self, height: i32) -> (b: Self)
        ensures
            b.view_cut() == (Cut { original_height: height, ..self.view_cut() }),
    {
        CutBuilder { original_height: height, ..self }
    }

    pub fn set_horizontal(self, is_horizontal: bool) -> (b: Self)
        ensures
            b.view_cut() == (Cut { is_horizontal, ..self.view_cut() }),
    {
        CutBuilder { is_horizontal: is_horizontal, ..self }
    }

    pub fn set_cut_coords(self, cut_coord: i32) -> (b: Self)
        ensures
            b.view_cut() == (Cut { cut_coord, ..self.view_cut() }),
    {
        CutBuilder { cut_coord: cut_coord, ..self }
    }

    pub fn set_original_tile_id(self, id: i32) -> (b: Self)
        ensures
            b.view_cut() == (Cut { original_tile_id: id, ..self.view_cut() }),
    {
        CutBuilder { original_tile_id: id, ..self }
    }

    pub fn set_child1_tile_id(self, id: i32) -> (b: Self)
        ensures
            b.view_cut() == (Cut { child1_tile_id: id, ..self.view_cut() }),
    {
        CutBuilder { child1_tile_id: id, ..self }
    }

    pub fn set_child2_tile_id(self, id: i32) -> (b: Self)
        ensures
            b.view_cut() == (Cut { child2_tile_id: id, ..self.view_cut() }),
    {
        CutBuilder { child2_tile_id: id, ..self }
    }

    /// The cut with the fields set so far.
    pub fn build(self) -> (c: Cut)
        ensures
            c == self.view_cut(),
    {
        Cut::new(
            self.x1,
            self.y1,
            self.x2,
            self.y2,
            self.original_width,
            self.original_height,
            self.is_horizontal,
            self.cut_coord,
            self.original_tile_id,
            self.child1_tile_id,
            self.child2_tile_id,
        )
    }
}

impl Default for CutBuilder {
    fn default() -> (b: Self)
        ensures
            b.view_cut() == (Cut {
                x1: 0, y1: 0, x2: 0, y2: 0, original_width: 0, original_height: 0, is_horizontal: false,
                cut_coord: 0, original_tile_id: 0, child1_tile_id: 0, child2_tile_id: 0,
            }),
    {
        CutBuilder::new()
    }
}

} // verus!
