//! One-line renderings of panels, sheets and solutions.

use vstd::prelude::*;
use crate::model::mosaic::Mosaic;
use crate::model::solution::{Solution, unused_areas, used_areas};
use crate::model::tile::TileDimensions;
use crate::model::tile_node::lemma_wf_sides;
use crate::support::{int_decimal, nat_digits, push_i64_decimal, push_nat_digits, seq_sum};

verus! {

impl TileDimensions {
    /// `"id=<id>[<width>x<height>]"`.
    pub fn to_text(&self) -> (s: String)
        ensures
            s@ == "id="@ + int_decimal(self.id as int) + seq!['['] + int_decimal(self.width as int) + seq!['x']
                + int_decimal(self.height as int) + seq![']'],
    {
        let mut s = String::new();
        s.append("id=");
        push_i64_decimal(&mut s, self.id as i64);
        proof { reveal_strlit("["); reveal_strlit("x"); reveal_strlit("]"); }
        s.append("[");
        push_i64_decimal(&mut s, self.width as i64);
        s.append("x");
        push_i64_decimal(&mut s, self.height as i64);
        s.append("]");
        s
    }
}

impl Mosaic {
    /// `"Mosaic[<width>x<height>, material=<material>, cuts=<count>, used_area=N/A]"`.
    pub fn to_text(&self) -> (s: String)
        requires
            self.wf(),
        ensures
            s@ == "Mosaic["@ + int_decimal(self.root_tile_node.w()) + seq!['x'] + int_decimal(self.root_tile_node.h())
                + ", material="@ + self.material@ + ", cuts="@ + nat_digits(self.cuts@.len()) + ", used_area=N/A]"@,
    {
        proof { lemma_wf_sides(self.root_tile_node); }
        let mut s = String::new();
        s.append("Mosaic[");
        push_i64_decimal(&mut s, self.root_tile_node.get_width() as i64);
        proof { reveal_strlit("x"); }
        s.append("x");
        push_i64_decimal(&mut s, self.root_tile_node.get_height() as i64);
        s.append(", material=");
        s.append(self.material.as_str());
        s.append(", cuts=");
        push_nat_digits(&mut s, self.cuts.len() as u64);
        s.append(", used_area=N/A]");
        s
    }
}

impl Solution {
    /// `"Solution[id=<id>, mosaics=<count>, used_area=<used>, unused_area=<unused>]"`.
    pub fn to_text(&self) -> (s: String)
        requires
            self.wf(),
            seq_sum(used_areas(self.mosaics@)) <= i64::MAX,
            seq_sum(unused_areas(self.mosaics@)) <= i64::MAX,
        ensures
            s@ == "Solution[id="@ + int_decimal(self.id as int) + ", mosaics="@ + nat_digits(self.mosaics@.len())
                + ", used_area="@ + int_decimal(seq_sum(used_areas(self.mosaics@)))
                + ", unused_area="@ + int_decimal(seq_sum(unused_areas(self.mosaics@))) + seq![']'],
    {
        let mut s = String::new();
        s.append("Solution[id=");
        push_i64_decimal(&mut s, self.id as i64);
        s.append(", mosaics=");
        push_nat_digits(&mut s, self.mosaics.len() as u64);
        s.append(", used_area=");
        push_i64_decimal(&mut s, self.get_used_area());
        s.append(", unused_area=");
        push_i64_decimal(&mut s, self.get_unused_area());
        proof { reveal_strlit("]"); }
        s.append("]");
        s
    }
}

} // verus!
