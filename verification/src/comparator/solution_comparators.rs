//! Orders on solutions by one measure each. A criterion that prefers less of its measure
//! orders solutions from best to worst; one that prefers more of it (the largest free leaf,
//! the placed panels, the free area of one sheet) orders them by the measure, so that the
//! better solution compares `Greater`.

use std::cmp::Ordering;
use vstd::prelude::*;
use crate::model::solution::Solution;

verus! {

/// The order of two integers.
pub open spec fn order_of(x: int, y: int) -> Ordering {
    if x < y {
        Ordering::Less
    } else if x == y {
        Ordering::Equal
    } else {
        Ordering::Greater
    }
}

/// Orders two solutions by the area of their largest free leaf: `Greater` when `a`'s is
/// the larger.
pub fn compare_by_biggest_unused_tile_area(a: &Solution, b: &Solution) -> (r: Ordering)
    requires
        a.measures_fit(),
        b.measures_fit(),
    ensures
        r == order_of(a.biggest_area_spec(), b.biggest_area_spec()),
{
    let x = a.get_biggest_area();
    let y = b.get_biggest_area();
    if x < y { Ordering::Less } else if x == y { Ordering::Equal } else { Ordering::Greater }
}

/// The solution with fewer cuts comes first.
pub fn compare_by_least_nbr_cuts(a: &Solution, b: &Solution) -> (r: Ordering)
    requires
        a.measures_fit(),
        b.measures_fit(),
    ensures
        r == order_of(a.nbr_cuts_spec(), b.nbr_cuts_spec()),
{
    let x = a.get_nbr_cuts();
    let y = b.get_nbr_cuts();
    if x < y { Ordering::Less } else if x == y { Ordering::Equal } else { Ordering::Greater }
}

/// The solution with fewer sheets comes first.
pub fn compare_by_least_nbr_mosaics(a: &Solution, b: &Solution) -> (r: Ordering)
    ensures
        r == order_of(a.nbr_mosaics_spec(), b.nbr_mosaics_spec()),
{
    let x = a.get_mosaics().len();
    let y = b.get_mosaics().len();
    if x < y { Ordering::Less } else if x == y { Ordering::Equal } else { Ordering::Greater }
}

/// The solution with fewer free leaves comes first.
pub fn compare_by_least_nbr_unused_tiles(a: &Solution, b: &Solution) -> (r: Ordering)
    requires
        a.measures_fit(),
        b.measures_fit(),
    ensures
        r == order_of(a.nbr_unused_tiles_spec(), b.nbr_unused_tiles_spec()),
{
    let x = a.get_nbr_unused_tiles();
    let y = b.get_nbr_unused_tiles();
    if x < y { Ordering::Less } else if x == y { Ordering::Equal } else { Ordering::Greater }
}

/// The solution with less area not covered by panels comes first.
pub fn compare_by_least_wasted_area(a: &Solution, b: &Solution) -> (r: Ordering)
    requires
        a.measures_fit(),
        b.measures_fit(),
    ensures
        r == order_of(a.unused_area_spec(), b.unused_area_spec()),
{
    let x = a.get_unused_area();
    let y = b.get_unused_area();
    proof {
        crate::model::solution::lemma_unused_area_nonneg(a.mosaics@);
        crate::model::solution::lemma_unused_area_nonneg(b.mosaics@);
    }
    let unused_area_diff = x - y;
    if unused_area_diff == 0 {
        Ordering::Equal
    } else if unused_area_diff > 0 {
        Ordering::Greater
    } else {
        Ordering::Less
    }
}

/// The solution whose sheets have fewer distinct panel sizes (at most, per sheet) comes
/// first.
pub fn compare_by_hv_discrepancy(a: &Solution, b: &Solution) -> (r: Ordering)
    requires
        a.measures_fit(),
        b.measures_fit(),
    ensures
        r == order_of(a.distinct_spec(), b.distinct_spec()),
{
    let x = a.get_distinct_tile_set();
    let y = b.get_distinct_tile_set();
    if x < y { Ordering::Less } else if x == y { Ordering::Equal } else { Ordering::Greater }
}

/// Orders two solutions by the number of placed panels: `Greater` when `a` has more.
pub fn compare_by_most_nbr_tiles(a: &Solution, b: &Solution) -> (r: Ordering)
    requires
        a.measures_fit(),
        b.measures_fit(),
    ensures
        r == order_of(a.nbr_final_spec(), b.nbr_final_spec()),
{
    let x = a.get_nbr_final_tiles();
    let y = b.get_nbr_final_tiles();
    if x < y { Ordering::Less } else if x == y { Ordering::Equal } else { Ordering::Greater }
}

/// Orders two solutions by the largest uncovered area on one sheet: `Greater` when `a`'s
/// is the larger.
pub fn compare_by_most_unused_panel_area(a: &Solution, b: &Solution) -> (r: Ordering)
    requires
        a.measures_fit(),
        b.measures_fit(),
    ensures
        r == order_of(a.most_unused_panel_area_spec(), b.most_unused_panel_area_spec()),
{
    let x = a.get_most_unused_panel_area();
    let y = b.get_most_unused_panel_area();
    if x < y { Ordering::Less } else if x == y { Ordering::Equal } else { Ordering::Greater }
}

} // verus!
