//! Whole-number figures of a set of panels: count, areas, extreme sides, distinct sizes
//! and materials, square and elongated panels.

use vstd::prelude::*;
use crate::model::tile::{TileDimensions, TileUtils};
use crate::model::tile_groups::{first_keys, groups_view, grouped, material_keys, size_keys};
use crate::support::seq_sum;

verus! {

/// Whole-number figures of a set of panels (all zero for no panels).
#[derive(Debug, Clone, Copy, PartialEq, Eq)]
pub struct TileTotals {
    pub total_count: usize,
    pub total_area: i64,
    pub max_area: i64,
    pub min_area: i64,
    pub max_width: i32,
    pub max_height: i32,
    pub min_width: i32,
    pub min_height: i32,
    pub unique_sizes: usize,
    pub unique_materials: usize,
    pub square_count: usize,
    pub elongated_count: usize,
}

/// The areas of the panels.
pub open spec fn areas(tiles: Seq<TileDimensions>) -> Seq<int> {
    tiles.map_values(|t: TileDimensions| t.area_spec())
}

/// One side is more than `k` times the other, the width compared with the height as a
/// ratio (a panel of zero height counts as infinitely wide).
pub open spec fn elongated_by(t: TileDimensions, k: int) -> bool {
    let w = t.width as int;
    let h = t.height as int;
    if h == 0 {
        true
    } else if h > 0 {
        w > k * h || k * w < h
    } else {
        w < k * h || k * w > h
    }
}

/// For a panel with sides of positive length, being elongated by a factor `k` means that
/// either side is more than `k` times the other, the width or the height alike; and a
/// panel with no side below zero gets the same verdict as its turned copy.
pub proof fn lemma_elongated_either_way(t: TileDimensions, k: int)
    requires
        k > 0,
        t.width >= 0,
        t.height >= 0,
    ensures
        t.width > 0 && t.height > 0 ==>
            (elongated_by(t, k) <==> (t.width > k * t.height || t.height > k * t.width)),
        elongated_by(TileDimensions { width: t.height, height: t.width, ..t }, k) == elongated_by(t, k),
{
}

/// The number of panels that satisfy `p`.
pub open spec fn count_where(tiles: Seq<TileDimensions>, p: spec_fn(TileDimensions) -> bool) -> nat {
    tiles.filter(p).len()
}

/// `x` is the largest of the values `f` gives on the panels.
pub open spec fn is_max_of(tiles: Seq<TileDimensions>, f: spec_fn(TileDimensions) -> int, x: int) -> bool {
    &&& exists|i: int| 0 <= i < tiles.len() && f(#[trigger] tiles[i]) == x
    &&& forall|i: int| 0 <= i < tiles.len() ==> f(#[trigger] tiles[i]) <= x
}

/// `x` is the smallest of the values `f` gives on the panels.
pub open spec fn is_min_of(tiles: Seq<TileDimensions>, f: spec_fn(TileDimensions) -> int, x: int) -> bool {
    &&& exists|i: int| 0 <= i < tiles.len() && f(#[trigger] tiles[i]) == x
    &&& forall|i: int| 0 <= i < tiles.len() ==> x <= f(#[trigger] tiles[i])
}

/// The figures of a non-empty set of panels.
pub open spec fn totals_of(tiles: Seq<TileDimensions>, r: TileTotals) -> bool {
    &&& r.total_count == tiles.len()
    &&& r.total_area == seq_sum(areas(tiles))
    &&& is_max_of(tiles, |t: TileDimensions| t.area_spec(), r.max_area as int)
    &&& is_min_of(tiles, |t: TileDimensions| t.area_spec(), r.min_area as int)
    &&& is_max_of(tiles, |t: TileDimensions| t.width as int, r.max_width as int)
    &&& is_max_of(tiles, |t: TileDimensions| t.height as int, r.max_height as int)
    &&& is_min_of(tiles, |t: TileDimensions| t.width as int, r.min_width as int)
    &&& is_min_of(tiles, |t: TileDimensions| t.height as int, r.min_height as int)
    &&& r.unique_sizes == first_keys(size_keys(tiles)).len()
    &&& r.unique_materials == first_keys(material_keys(tiles)).len()
    &&& r.square_count == count_where(tiles, |t: TileDimensions| t.width == t.height)
    &&& r.elongated_count == count_where(tiles, |t: TileDimensions| elongated_by(t, 2))
}

/// Filtering a sequence extended by one element.
proof fn lemma_filter_step(s: Seq<TileDimensions>, x: TileDimensions, p: spec_fn(TileDimensions) -> bool)
    ensures
        s.push(x).filter(p).len() == s.filter(p).len() + if p(x) { 1int } else { 0int },
{
    reveal(Seq::filter);
    assert(s.push(x).drop_last() =~= s);
}

/// Filtering with two tests that agree on every panel of the list keeps the same panels.
proof fn lemma_filter_agree(s: Seq<TileDimensions>, p: spec_fn(TileDimensions) -> bool, q: spec_fn(TileDimensions) -> bool)
    requires
        forall|i: int| 0 <= i < s.len() ==> p(#[trigger] s[i]) == q(s[i]),
    ensures
        s.filter(p) == s.filter(q),
    decreases s.len(),
{
    reveal(Seq::filter);
    if s.len() > 0 {
        let d = s.drop_last();
        assert forall|i: int| 0 <= i < d.len() implies p(#[trigger] d[i]) == q(d[i]) by {
            assert(d[i] == s[i]);
        }
        lemma_filter_agree(d, p, q);
        assert(p(s[s.len() - 1]) == q(s[s.len() - 1]));
    }
}

/// The elongated panels that the figures count are those with either side more than
/// twice the other, wide and tall panels alike (for panels with sides of positive length).
pub proof fn lemma_elongated_count_either_way(tiles: Seq<TileDimensions>, r: TileTotals)
    requires
        totals_of(tiles, r),
        forall|i: int| 0 <= i < tiles.len() ==> (#[trigger] tiles[i]).width > 0 && tiles[i].height > 0,
    ensures
        r.elongated_count == tiles.filter(
            |t: TileDimensions| t.width > 2 * t.height || t.height > 2 * t.width).len(),
{
    let p = |t: TileDimensions| elongated_by(t, 2);
    let q = |t: TileDimensions| t.width > 2 * t.height || t.height > 2 * t.width;
    assert forall|i: int| 0 <= i < tiles.len() implies p(#[trigger] tiles[i]) == q(tiles[i]) by {
        lemma_elongated_either_way(tiles[i], 2);
    }
    lemma_filter_agree(tiles, p, q);
}

/// One side is more than twice the other.
fn elongated_twice(t: &TileDimensions) -> (b: bool)
    ensures
        b == elongated_by(*t, 2),
{
    let w = t.width as i64;
    let h = t.height as i64;
    if h == 0 {
        true
    } else if h > 0 {
        w > 2 * h || 2 * w < h
    } else {
        w < 2 * h || 2 * w > h
    }
}

impl TileUtils {
    /// Whole-number figures of the panels: their count and total area, the largest and
    /// smallest area, width and height, the number of distinct sizes and materials, and
    /// how many are square and how many have one side more than twice the other; all
    /// zero for no panels.
    pub fn tile_totals(tiles: &[TileDimensions]) -> (r: TileTotals)
        requires
            forall|k: int| 0 <= k <= tiles@.len() ==> i64::MIN <= #[trigger] seq_sum(areas(tiles@.take(k))) <= i64::MAX,
        ensures
            tiles@.len() == 0 ==> r == (TileTotals {
                total_count: 0, total_area: 0, max_area: 0, min_area: 0, max_width: 0, max_height: 0,
                min_width: 0, min_height: 0, unique_sizes: 0, unique_materials: 0, square_count: 0,
                elongated_count: 0,
            }),
            tiles@.len() > 0 ==> totals_of(tiles@, r),
    {
        let n = tiles.len();
        if n == 0 {
            return TileTotals {
                total_count: 0, total_area: 0, max_area: 0, min_area: 0, max_width: 0, max_height: 0,
                min_width: 0, min_height: 0, unique_sizes: 0, unique_materials: 0, square_count: 0,
                elongated_count: 0,
            };
        }
        let ghost s = tiles@;
        let ghost fa = |t: TileDimensions| t.area_spec();
        let ghost fw = |t: TileDimensions| t.width as int;
        let ghost fh = |t: TileDimensions| t.height as int;
        let ghost sq = |t: TileDimensions| t.width == t.height;
        let ghost el = |t: TileDimensions| elongated_by(t, 2);
        let first_area = tiles[0].get_area();
        let mut total: i64 = 0;
        let mut max_area = first_area;
        let mut min_area = first_area;
        let mut max_width = tiles[0].width;
        let mut max_height = tiles[0].height;
        let mut min_width = tiles[0].width;
        let mut min_height = tiles[0].height;
        let mut squares: usize = 0;
        let mut elongated: usize = 0;
        let mut i: usize = 0;
        proof {
            reveal(Seq::filter);
            assert(s.take(0).filter(sq) =~= Seq::<TileDimensions>::empty());
            assert(s.take(0).filter(el) =~= Seq::<TileDimensions>::empty());
            assert(areas(s.take(0)) =~= Seq::<int>::empty());
            assert(fa(s[0]) == first_area);
        }
        while i < n
            invariant
                0 <= i <= n,
                n == s.len(),
                s == tiles@,
                n > 0,
                forall|k: int| 0 <= k <= s.len() ==> i64::MIN <= #[trigger] seq_sum(areas(s.take(k))) <= i64::MAX,
                fa == (|t: TileDimensions| t.area_spec()),
                fw == (|t: TileDimensions| t.width as int),
                fh == (|t: TileDimensions| t.height as int),
                sq == (|t: TileDimensions| t.width == t.height),
                el == (|t: TileDimensions| elongated_by(t, 2)),
                total == seq_sum(areas(s.take(i as int))),
                squares == s.take(i as int).filter(sq).len(),
                elongated == s.take(i as int).filter(el).len(),
                exists|k: int| 0 <= k < n && fa(#[trigger] s[k]) == max_area,
                exists|k: int| 0 <= k < n && fa(#[trigger] s[k]) == min_area,
                exists|k: int| 0 <= k < n && fw(#[trigger] s[k]) == max_width,
                exists|k: int| 0 <= k < n && fh(#[trigger] s[k]) == max_height,
                exists|k: int| 0 <= k < n && fw(#[trigger] s[k]) == min_width,
                exists|k: int| 0 <= k < n && fh(#[trigger] s[k]) == min_height,
                forall|k: int| 0 <= k < i ==> fa(#[trigger] s[k]) <= max_area && min_area <= fa(s[k]),
                forall|k: int| 0 <= k < i ==> fw(#[trigger] s[k]) <= max_width && min_width <= fw(s[k]),
                forall|k: int| 0 <= k < i ==> fh(#[trigger] s[k]) <= max_height && min_height <= fh(s[k]),
            decreases n - i,
        {
            let t = &tiles[i];
            let a = t.get_area();
            proof {
                let p = s.take(i + 1);
                assert(p =~= s.take(i as int).push(s[i as int]));
                assert(areas(p).drop_last() =~= areas(s.take(i as int)));
                assert(areas(p).last() == a);
                assert(i64::MIN <= seq_sum(areas(s.take(i + 1))) <= i64::MAX);
                lemma_filter_step(s.take(i as int), s[i as int], sq);
                lemma_filter_step(s.take(i as int), s[i as int], el);
            }
            total = total + a;
            if a > max_area { max_area = a; }
            if a < min_area { min_area = a; }
            if t.width > max_width { max_width = t.width; }
            if t.width < min_width { min_width = t.width; }
            if t.height > max_height { max_height = t.height; }
            if t.height < min_height { min_height = t.height; }
            if t.width == t.height { squares = squares + 1; }
            if elongated_twice(t) { elongated = elongated + 1; }
            proof {
                assert(fa(s[i as int]) == a);
                assert(fw(s[i as int]) == t.width);
                assert(fh(s[i as int]) == t.height);
            }
            i = i + 1;
        }
        proof { assert(s.take(n as int) =~= s); }
        let sizes = TileUtils::group_by_size(tiles);
        let materials = TileUtils::group_by_material(tiles);
        proof {
            assert(groups_view(sizes@).len() == sizes@.len());
            assert(groups_view(materials@).len() == materials@.len());
        }
        TileTotals {
            total_count: n,
            total_area: total,
            max_area,
            min_area,
            max_width,
            max_height,
            min_width,
            min_height,
            unique_sizes: sizes.len(),
            unique_materials: materials.len(),
            square_count: squares,
            elongated_count: elongated,
        }
    }
}

} // verus!
