//! A cutting solution: the sheets in use, the panels that found no place, and the stock
//! panels not cut yet.

use std::collections::VecDeque;
use vstd::prelude::*;
use vstd::string::*;
use vstd::multiset::Multiset;
use crate::engine::stock::StockSolution;
use crate::error::CuttingError;
use crate::model::mosaic::{Mosaic, MosaicView, same_view, add_results, placed_into_one_of, lemma_add_places_one_panel};
use crate::model::tile::{Tile, TileDimensions, DEFAULT_MATERIAL};
use crate::model::tile_node::{TileNode, deref_seq};
use crate::support::{
    next_id, next_id_other_than, current_time_millis, seq_sum, seq_max0, int_decimal, push_i64_decimal, lemma_seq_take_step,
    lemma_seq_sum_prefix_le, lemma_seq_max0_prefix_le, lemma_seq_max0_nonneg,
};
use crate::model::tile_node::{lemma_wf_sides, lemma_used_area_bounds};

verus! {

/// A cutting solution.
#[derive(Debug)]
pub struct Solution {
    pub id: i32,
    pub mosaics: Vec<Mosaic>,
    pub no_fit_panels: Vec<TileDimensions>,
    pub unused_stock_panels: VecDeque<TileDimensions>,
    pub timestamp: u64,
    pub creator_thread_group: Option<String>,
    pub aux_info: Option<String>,
}

/// `s` is a solution over the stock panels `stock`: the first becomes a sheet, the others
/// wait in order.
pub open spec fn started_from_stock(stock: Seq<TileDimensions>, s: Solution) -> bool {
    &&& s.id >= 0
    &&& stock.len() == 0 ==> s.mosaics@.len() == 0 && s.unused_stock_panels@.len() == 0
    &&& stock.len() > 0 ==> {
        &&& s.mosaics@.len() == 1
        &&& s.mosaics@[0].root_tile_node.tile == (crate::model::tile::Tile {
            x1: 0, x2: stock[0].width, y1: 0, y2: stock[0].height })
        &&& s.mosaics@[0].root_tile_node.is_free_leaf()
        &&& s.mosaics@[0].cuts@.len() == 0
        &&& s.mosaics@[0].material == stock[0].material
        &&& s.mosaics@[0].stock_id == stock[0].id
        &&& s.mosaics@[0].orientation == stock[0].orientation
        &&& s.unused_stock_panels@ == stock.drop_first()
    }
    &&& s.no_fit_panels@.len() == 0
    &&& s.creator_thread_group is None
    &&& s.aux_info is None
    &&& s.wf()
}

/// The contents of a list of sheets.
pub open spec fn views(s: Seq<Mosaic>) -> Seq<MosaicView> {
    s.map_values(|m: Mosaic| m@)
}

/// Area of a sheet not covered by placed panels.
pub open spec fn unused_of(v: MosaicView) -> int {
    v.0.area() - v.0.used_area_spec()
}

/// Sheets ordered by growing unused area.
pub open spec fn sorted_by_unused(s: Seq<MosaicView>) -> bool {
    forall|i: int, j: int| 0 <= i < j < s.len() ==> unused_of(#[trigger] s[i]) <= unused_of(#[trigger] s[j])
}

/// `x` put into `s` before the first sheet with more unused area than it, after those
/// with as much or less.
pub open spec fn sorted_insert(s: Seq<MosaicView>, x: MosaicView) -> Seq<MosaicView>
    decreases s.len(),
{
    if s.len() == 0 {
        seq![x]
    } else if unused_of(s[0]) > unused_of(x) {
        seq![x] + s
    } else {
        seq![s[0]] + sorted_insert(s.drop_first(), x)
    }
}

/// The sheets of `s` in the order of a stable sort by growing unused area: each put
/// into those before it by `sorted_insert`, first to last.
pub open spec fn insertion_sorted(s: Seq<MosaicView>) -> Seq<MosaicView>
    decreases s.len(),
{
    if s.len() == 0 {
        Seq::empty()
    } else {
        sorted_insert(insertion_sorted(s.drop_last()), s.last())
    }
}

/// Putting `x` at the first index whose sheet has more unused area is `sorted_insert`.
proof fn lemma_insert_at_first_larger(s: Seq<MosaicView>, x: MosaicView, j: int)
    requires
        0 <= j <= s.len(),
        forall|q: int| 0 <= q < j ==> unused_of(#[trigger] s[q]) <= unused_of(x),
        j < s.len() ==> unused_of(s[j]) > unused_of(x),
    ensures
        s.insert(j, x) == sorted_insert(s, x),
    decreases s.len(),
{
    if s.len() == 0 {
        assert(s.insert(j, x) =~= seq![x]);
    } else if j == 0 {
        assert(s.insert(0, x) =~= seq![x] + s);
    } else {
        let t = s.drop_first();
        assert forall|q: int| 0 <= q < j - 1 implies unused_of(#[trigger] t[q]) <= unused_of(x) by {
            assert(t[q] == s[q + 1]);
        }
        lemma_insert_at_first_larger(t, x, j - 1);
        assert(s.insert(j, x) =~= seq![s[0]] + t.insert(j - 1, x));
    }
}

/// A sheet with at least as much unused area as every sheet of `s` goes last.
proof fn lemma_sorted_insert_last(s: Seq<MosaicView>, x: MosaicView)
    requires
        forall|q: int| 0 <= q < s.len() ==> unused_of(#[trigger] s[q]) <= unused_of(x),
    ensures
        sorted_insert(s, x) == s.push(x),
    decreases s.len(),
{
    if s.len() == 0 {
        assert(seq![x] =~= s.push(x));
    } else {
        let t = s.drop_first();
        assert forall|q: int| 0 <= q < t.len() implies unused_of(#[trigger] t[q]) <= unused_of(x) by {
            assert(t[q] == s[q + 1]);
        }
        lemma_sorted_insert_last(t, x);
        assert(seq![s[0]] + t.push(x) =~= s.push(x));
    }
}

/// The stable sort leaves sheets already in order as they are.
pub proof fn lemma_insertion_sorted_of_sorted(s: Seq<MosaicView>)
    requires
        sorted_by_unused(s),
    ensures
        insertion_sorted(s) == s,
    decreases s.len(),
{
    if s.len() > 0 {
        let t = s.drop_last();
        assert(sorted_by_unused(t)) by {
            assert forall|i: int, j: int| 0 <= i < j < t.len() implies
                unused_of(#[trigger] t[i]) <= unused_of(#[trigger] t[j]) by {
                assert(t[i] == s[i] && t[j] == s[j]);
            }
        }
        lemma_insertion_sorted_of_sorted(t);
        assert forall|q: int| 0 <= q < t.len() implies unused_of(#[trigger] t[q]) <= unused_of(s.last()) by {
            assert(t[q] == s[q]);
        }
        lemma_sorted_insert_last(t, s.last());
        assert(t.push(s.last()) =~= s);
    }
}

/// Every sheet's layout is well formed.
pub open spec fn all_wf(s: Seq<MosaicView>) -> bool {
    forall|i: int| 0 <= i < s.len() ==> (#[trigger] s[i]).0.wf()
}

/// A copy of a list of panel dimensions.
fn copy_dimensions(v: &Vec<TileDimensions>) -> (r: Vec<TileDimensions>)
    ensures
        r@ == v@,
{
    let mut r: Vec<TileDimensions> = Vec::new();
    let mut i: usize = 0;
    while i < v.len()
        invariant
            0 <= i <= v@.len(),
            r@ == v@.take(i as int),
        decreases v@.len() - i,
    {
        r.push(v[i].duplicate());
        i = i + 1;
        proof { assert(r@ =~= v@.take(i as int)); }
    }
    proof { assert(v@.take(v@.len() as int) =~= v@); }
    r
}

/// A copy of a queue of panel dimensions.
fn copy_dimension_queue(v: &VecDeque<TileDimensions>) -> (r: VecDeque<TileDimensions>)
    ensures
        r@ == v@,
{
    let mut r: VecDeque<TileDimensions> = VecDeque::new();
    let mut i: usize = 0;
    while i < v.len()
        invariant
            0 <= i <= v@.len(),
            r@ == v@.take(i as int),
        decreases v@.len() - i,
    {
        r.push_back(v[i].duplicate());
        i = i + 1;
        proof { assert(r@ =~= v@.take(i as int)); }
    }
    proof { assert(v@.take(v@.len() as int) =~= v@); }
    r
}

/// A copy of an optional text.
fn copy_text(s: &Option<String>) -> (r: Option<String>)
    ensures
        r == *s,
{
    match s {
        Some(x) => Some(x.clone()),
        None => None,
    }
}




/// The panel is not square, so that turning it is tried.
pub open spec fn turnable(td: TileDimensions) -> bool {
    td.width != td.height
}

/// `ns` is `s` with the sheets equal to `excluded` replaced by the sheet `added`, the
/// sheets reordered by growing unused area.
pub open spec fn replaced_sheet(s: Solution, ns: Solution, excluded: MosaicView, added: MosaicView) -> bool {
    &&& views(ns.mosaics@).to_multiset() == views(s.mosaics@).filter(
        |v: MosaicView| !same_view(v, excluded)).to_multiset().insert(added)
    &&& ns.wf()
    &&& ns.id >= 0
    &&& ns.no_fit_panels@ == s.no_fit_panels@
    &&& ns.unused_stock_panels@ == s.unused_stock_panels@
    &&& ns.creator_thread_group == s.creator_thread_group
    &&& ns.aux_info == s.aux_info
}

/// `sols` are the solutions obtained from `s` by placing the panel on the sheets `ms`
/// in turn: for each sheet, one solution per way in which `add` places the panel on it
/// (as it is or turned), in the order in which `add` lists them.
pub open spec fn placed_in_sheets(s: Solution, ms: Seq<Mosaic>, td: TileDimensions, sols: Seq<Solution>) -> bool
    decreases ms.len(),
{
    if ms.len() == 0 {
        sols.len() == 0
    } else {
        let m = ms.last();
        exists|out: Seq<Mosaic>| {
            &&& #[trigger] add_results(m, m.candidates_spec(td), td, turnable(td), out)
            &&& out.len() <= sols.len()
            &&& placed_in_sheets(s, ms.drop_last(), td, sols.subrange(0, sols.len() - out.len()))
            &&& forall|j: int| 0 <= j < out.len() ==>
                #[trigger] replaced_sheet(s, sols[sols.len() - out.len() + j], m@, out[j]@)
        }
    }
}

/// A fresh sheet cut from the stock panel `stock`.
pub open spec fn fresh_sheet(m: Mosaic, stock: TileDimensions) -> bool {
    &&& m.wf()
    &&& m.root_tile_node.tile == (Tile { x1: 0, x2: stock.width, y1: 0, y2: stock.height })
    &&& m.root_tile_node.is_free_leaf()
    &&& m.cuts@.len() == 0
    &&& m.material == stock.material
    &&& m.stock_id == stock.id
    &&& m.orientation == stock.orientation
    &&& m.kerf_width == 3
}

/// `ns` is `s` with the first stock panel taken off and the sheet `added` cut from it.
pub open spec fn new_sheet_solution(s: Solution, ns: Solution, added: MosaicView) -> bool {
    &&& views(ns.mosaics@).to_multiset() == views(s.mosaics@).to_multiset().insert(added)
    &&& ns.wf()
    &&& ns.id >= 0
    &&& ns.no_fit_panels@ == s.no_fit_panels@
    &&& ns.unused_stock_panels@ == s.unused_stock_panels@.drop_first()
    &&& ns.creator_thread_group == s.creator_thread_group
    &&& ns.aux_info == s.aux_info
}

/// `ns` is `s` with the panel `td` listed as finding no place.
pub open spec fn no_fit_solution(s: Solution, ns: Solution, td: TileDimensions) -> bool {
    &&& views(ns.mosaics@) == views(s.mosaics@)
    &&& ns.wf() == s.wf()
    &&& ns.id >= 0
    &&& ns.no_fit_panels@ == s.no_fit_panels@.push(td)
    &&& ns.unused_stock_panels@ == s.unused_stock_panels@
    &&& ns.creator_thread_group == s.creator_thread_group
    &&& ns.aux_info == s.aux_info
}

/// The solutions that `try_place_tile` returns: the placements on the sheets in use if
/// there is any; otherwise the placements on a fresh sheet cut from the first stock
/// panel, if there is one (none when the panel does not fit it); otherwise the solution
/// with the panel listed as finding no place.
pub open spec fn placement_solutions(s: Solution, td: TileDimensions, sols: Seq<Solution>) -> bool {
    ||| sols.len() > 0 && placed_in_sheets(s, s.mosaics@, td, sols)
    ||| placed_in_sheets(s, s.mosaics@, td, Seq::empty()) && if s.unused_stock_panels@.len() > 0 {
        exists|nm: Mosaic, out: Seq<Mosaic>| {
            &&& fresh_sheet(nm, s.unused_stock_panels@[0])
            &&& #[trigger] add_results(nm, nm.candidates_spec(td), td, turnable(td), out)
            &&& sols.len() == out.len()
            &&& forall|j: int| 0 <= j < out.len() ==> #[trigger] new_sheet_solution(s, sols[j], out[j]@)
        }
    } else {
        sols.len() == 1 && no_fit_solution(s, sols[0], td)
    }
}


/// `a` comes before `b` in lexicographic order of characters (the order of `String`).
pub open spec fn text_less(a: Seq<char>, b: Seq<char>) -> bool
    decreases a.len(),
{
    if a.len() == 0 {
        b.len() > 0
    } else if b.len() == 0 {
        false
    } else if a[0] != b[0] {
        a[0] < b[0]
    } else {
        text_less(a.drop_first(), b.drop_first())
    }
}

/// `s` with `x` inserted after every element that does not come after it.
pub open spec fn text_insert(s: Seq<Seq<char>>, x: Seq<char>) -> Seq<Seq<char>>
    decreases s.len(),
{
    if s.len() == 0 {
        seq![x]
    } else if text_less(x, s[0]) {
        seq![x] + s
    } else {
        seq![s[0]] + text_insert(s.drop_first(), x)
    }
}

/// The texts in lexicographic order.
pub open spec fn text_sort(s: Seq<Seq<char>>) -> Seq<Seq<char>>
    decreases s.len(),
{
    if s.len() == 0 { Seq::empty() } else { text_insert(text_sort(s.drop_last()), s.last()) }
}

/// The texts joined with `|` between them.
pub open spec fn join_bar(s: Seq<Seq<char>>) -> Seq<char>
    decreases s.len(),
{
    if s.len() == 0 {
        Seq::empty()
    } else if s.len() == 1 {
        s[0]
    } else {
        join_bar(s.drop_last()) + seq!['|'] + s.last()
    }
}

/// Every sheet of `s` is well formed.
pub proof fn lemma_mosaic_wf(s: Seq<Mosaic>, i: int)
    requires
        all_wf(views(s)),
        0 <= i < s.len(),
    ensures
        s[i].wf(),
        s[i].root_tile_node.area() >= 0,
        0 <= s[i].root_tile_node.used_area_spec() <= s[i].root_tile_node.area(),
{
    assert(views(s)[i] == s[i]@);
    lemma_wf_sides(s[i].root_tile_node);
    lemma_used_area_bounds(s[i].root_tile_node);
}

/// Areas of the sheets.
pub open spec fn total_areas(s: Seq<Mosaic>) -> Seq<int> {
    s.map_values(|m: Mosaic| m.root_tile_node.area())
}

/// Areas covered by placed panels, sheet by sheet.
pub open spec fn used_areas(s: Seq<Mosaic>) -> Seq<int> {
    s.map_values(|m: Mosaic| m.root_tile_node.used_area_spec())
}

/// Areas not covered by placed panels, sheet by sheet.
pub open spec fn unused_areas(s: Seq<Mosaic>) -> Seq<int> {
    s.map_values(|m: Mosaic| m.root_tile_node.area() - m.root_tile_node.used_area_spec())
}

/// Numbers of free leaves, sheet by sheet.
pub open spec fn free_counts(s: Seq<Mosaic>) -> Seq<int> {
    s.map_values(|m: Mosaic| m.root_tile_node.free_count() as int)
}

/// Numbers of placed panels, sheet by sheet.
pub open spec fn final_counts(s: Seq<Mosaic>) -> Seq<int> {
    s.map_values(|m: Mosaic| m.root_tile_node.final_count() as int)
}

/// Numbers of placed panels wider than high, sheet by sheet.
pub open spec fn horizontal_counts(s: Seq<Mosaic>) -> Seq<int> {
    s.map_values(|m: Mosaic| m.root_tile_node.final_horizontal_count() as int)
}

/// Numbers of cuts, sheet by sheet.
pub open spec fn cut_counts(s: Seq<Mosaic>) -> Seq<int> {
    s.map_values(|m: Mosaic| m.cuts@.len() as int)
}

/// Depths of the layouts, sheet by sheet.
pub open spec fn depths(s: Seq<Mosaic>) -> Seq<int> {
    s.map_values(|m: Mosaic| m.root_tile_node.depth() as int)
}

/// Areas of the largest free leaves, sheet by sheet.
pub open spec fn biggest_free_areas(s: Seq<Mosaic>) -> Seq<int> {
    s.map_values(|m: Mosaic| m.root_tile_node.biggest_free_area())
}

/// Numbers of distinct sizes of placed panels, sheet by sheet.
pub open spec fn distinct_counts(s: Seq<Mosaic>) -> Seq<int> {
    s.map_values(|m: Mosaic| m.root_tile_node.distinct_set().len() as int)
}

/// The nodes holding panels, sheet after sheet, each in pre-order.
pub open spec fn all_final_nodes(s: Seq<Mosaic>) -> Seq<TileNode>
    decreases s.len(),
{
    if s.len() == 0 {
        Seq::empty()
    } else {
        all_final_nodes(s.drop_last()) + s.last().root_tile_node.final_nodes()
    }
}

/// `[WxH]` for each sheet, concatenated.
pub open spec fn bases_text(s: Seq<Mosaic>) -> Seq<char>
    decreases s.len(),
{
    if s.len() == 0 {
        Seq::empty()
    } else {
        bases_text(s.drop_last()) + seq!['['] + int_decimal(s.last().root_tile_node.w()) + seq!['x']
            + int_decimal(s.last().root_tile_node.h()) + seq![']']
    }
}


/// Uncovered areas of well-formed sheets are not negative, and neither is their sum.
pub proof fn lemma_unused_area_nonneg(s: Seq<Mosaic>)
    requires
        all_wf(views(s)),
    ensures
        forall|k: int| 0 <= k < s.len() ==> #[trigger] unused_areas(s)[k] >= 0,
        seq_sum(unused_areas(s)) >= 0,
{
    assert forall|k: int| 0 <= k < s.len() implies #[trigger] unused_areas(s)[k] >= 0 by {
        lemma_mosaic_wf(s, k);
    }
    crate::support::lemma_seq_sum_nonneg(unused_areas(s));
}

/// The largest element is at least every element.
pub proof fn lemma_seq_max0_ge(s: Seq<int>, k: int)
    requires
        0 <= k < s.len(),
    ensures
        s[k] <= seq_max0(s),
    decreases s.len(),
{
    if k < s.len() - 1 {
        lemma_seq_max0_ge(s.drop_last(), k);
    }
}

/// Every element of a sequence of non-negative numbers is at most their sum.
pub proof fn lemma_seq_sum_ge(s: Seq<int>, k: int)
    requires
        0 <= k < s.len(),
        forall|q: int| 0 <= q < s.len() ==> s[q] >= 0,
    ensures
        s[k] <= seq_sum(s),
{
    lemma_seq_sum_prefix_le(s, k);
    lemma_seq_take_step(s, k);
    lemma_seq_sum_prefix_le(s, k + 1);
}


/// Whether `a` comes before `b` in lexicographic order of characters.
pub fn text_before(a: &str, b: &str) -> (r: bool)
    ensures
        r == text_less(a@, b@),
{
    let n = a.unicode_len();
    let m = b.unicode_len();
    let mut i: usize = 0;
    proof {
        assert(a@.skip(0) =~= a@);
        assert(b@.skip(0) =~= b@);
    }
    while i < n && i < m
        invariant
            0 <= i <= n,
            i <= m,
            n == a@.len(),
            m == b@.len(),
            forall|k: int| 0 <= k < i ==> a@[k] == b@[k],
            text_less(a@, b@) == text_less(a@.skip(i as int), b@.skip(i as int)),
        decreases n - i,
    {
        let ca = a.get_char(i);
        let cb = b.get_char(i);
        proof {
            assert(a@.skip(i as int)[0] == ca);
            assert(b@.skip(i as int)[0] == cb);
            assert(a@.skip(i as int).drop_first() =~= a@.skip(i + 1));
            assert(b@.skip(i as int).drop_first() =~= b@.skip(i + 1));
        }
        if ca != cb {
            return ca < cb;
        }
        i = i + 1;
    }
    proof {
        assert(a@.skip(i as int).len() == n - i);
        assert(b@.skip(i as int).len() == m - i);
    }
    i == n && i < m
}

/// Inserts `x` into texts in lexicographic order, after every text that does not come
/// after it.
fn insert_text_sorted(v: &mut Vec<String>, x: String)
    ensures
        final(v)@.map_values(|t: String| t@) == text_insert(old(v)@.map_values(|t: String| t@), x@),
{
    let ghost s0 = v@.map_values(|t: String| t@);
    let mut j: usize = 0;
    proof {
        assert(s0.skip(0) =~= s0);
        assert(s0.take(0) + s0 =~= s0);
    }
    loop
        invariant
            0 <= j <= v@.len(),
            v@ == old(v)@,
            s0 == v@.map_values(|t: String| t@),
            text_insert(s0, x@) == s0.take(j as int) + text_insert(s0.skip(j as int), x@),
        ensures
            0 <= j <= v@.len(),
            v@ == old(v)@,
            text_insert(s0, x@) == s0.take(j as int) + text_insert(s0.skip(j as int), x@),
            j == v@.len() || text_less(x@, s0[j as int]),
        decreases v@.len() - j,
    {
        if j >= v.len() {
            break;
        }
        if text_before(x.as_str(), v[j].as_str()) {
            break;
        }
        proof {
            let t = s0.skip(j as int);
            assert(t[0] == s0[j as int]);
            assert(t.drop_first() =~= s0.skip(j + 1));
            assert(s0.take(j + 1) =~= s0.take(j as int) + seq![s0[j as int]]);
        }
        j = j + 1;
    }
    proof {
        let t = s0.skip(j as int);
        if j < v@.len() {
            assert(t[0] == s0[j as int]);
            assert(text_insert(t, x@) == seq![x@] + t);
        } else {
            assert(t.len() == 0);
        }
    }
    v.insert(j, x);
    proof {
        assert(v@.map_values(|t: String| t@) =~= s0.take(j as int) + (seq![x@] + s0.skip(j as int)));
        if j < s0.len() {
        } else {
            assert(s0.skip(j as int) =~= Seq::<Seq<char>>::empty());
        }
    }
}

/// Filtering the empty sequence gives the empty sequence.
pub proof fn lemma_filter_empty<A>(pred: spec_fn(A) -> bool)
    ensures
        Seq::<A>::empty().filter(pred) == Seq::<A>::empty(),
{
    reveal(Seq::filter);
    assert(Seq::<A>::empty().filter(pred) =~= Seq::<A>::empty());
}

/// Filtering a sequence extended by one element.
pub proof fn lemma_filter_push<A>(s: Seq<A>, x: A, pred: spec_fn(A) -> bool)
    ensures
        s.push(x).filter(pred) == if pred(x) { s.filter(pred).push(x) } else { s.filter(pred) },
{
    reveal(Seq::filter);
    assert(s.push(x).drop_last() =~= s);
}

impl Solution {
    /// Fields other than the sheets are those of `other`.
    pub open spec fn same_but_mosaics(self, other: Solution) -> bool {
        &&& self.id == other.id
        &&& self.no_fit_panels@ == other.no_fit_panels@
        &&& self.unused_stock_panels@ == other.unused_stock_panels@
        &&& self.timestamp == other.timestamp
        &&& self.creator_thread_group == other.creator_thread_group
        &&& self.aux_info == other.aux_info
    }

    /// The solution's sheets are well formed and every measure of it fits the integer
    /// type in which it is computed.
    pub open spec fn measures_fit(self) -> bool {
        &&& self.wf()
        &&& self.mosaics@.len() <= i32::MAX
        &&& seq_sum(free_counts(self.mosaics@)) <= i32::MAX
        &&& seq_sum(final_counts(self.mosaics@)) <= i32::MAX
        &&& seq_sum(horizontal_counts(self.mosaics@)) <= i32::MAX
        &&& seq_sum(cut_counts(self.mosaics@)) <= i32::MAX
        &&& seq_sum(total_areas(self.mosaics@)) <= i64::MAX
        &&& seq_sum(used_areas(self.mosaics@)) <= i64::MAX
        &&& seq_sum(unused_areas(self.mosaics@)) <= i64::MAX
        &&& seq_max0(depths(self.mosaics@)) <= i32::MAX
        &&& seq_max0(distinct_counts(self.mosaics@)) <= i32::MAX
        &&& seq_max0(unused_areas(self.mosaics@)) <= i64::MAX
        &&& seq_max0(biggest_free_areas(self.mosaics@)) <= i64::MAX
        &&& forall|k: int| 0 <= k < self.mosaics@.len() ==> (#[trigger] self.mosaics@[k]).root_tile_node.pairing_fits()
    }

    /// The identifiers of the sheets' layouts, in lexicographic order, joined with `|`.
    pub open spec fn structure_identifier_spec(self) -> Seq<char> {
        join_bar(text_sort(self.mosaics@.map_values(|m: Mosaic| m.root_tile_node.identifier())))
    }

    /// Number of sheets.
    pub open spec fn nbr_mosaics_spec(self) -> int {
        self.mosaics@.len() as int
    }

    /// Number of placed panels.
    pub open spec fn nbr_final_spec(self) -> int {
        seq_sum(final_counts(self.mosaics@))
    }

    /// Number of cuts.
    pub open spec fn nbr_cuts_spec(self) -> int {
        seq_sum(cut_counts(self.mosaics@))
    }

    /// Number of free leaves.
    pub open spec fn nbr_unused_tiles_spec(self) -> int {
        seq_sum(free_counts(self.mosaics@))
    }

    /// Area not covered by placed panels.
    pub open spec fn unused_area_spec(self) -> int {
        seq_sum(unused_areas(self.mosaics@))
    }

    /// Largest area of a free leaf.
    pub open spec fn biggest_area_spec(self) -> int {
        seq_max0(biggest_free_areas(self.mosaics@))
    }

    /// Largest area not covered by placed panels on one sheet.
    pub open spec fn most_unused_panel_area_spec(self) -> int {
        seq_max0(unused_areas(self.mosaics@))
    }

    /// Largest number of distinct panel sizes on one sheet.
    pub open spec fn distinct_spec(self) -> int {
        seq_max0(distinct_counts(self.mosaics@))
    }

    /// The sheets are well formed and ordered by growing unused area.
    pub open spec fn wf(self) -> bool {
        &&& all_wf(views(self.mosaics@))
        &&& sorted_by_unused(views(self.mosaics@))
    }

    /// An empty solution with a fresh identifier, stamped with the current time.
    pub fn new() -> (s: Solution)
        ensures
            s.id >= 0,
            s.mosaics@.len() == 0,
            s.no_fit_panels@.len() == 0,
            s.unused_stock_panels@.len() == 0,
            s.creator_thread_group is None,
            s.aux_info is None,
            s.wf(),
    {
        Solution {
            id: next_id(),
            mosaics: Vec::new(),
            no_fit_panels: Vec::new(),
            unused_stock_panels: VecDeque::new(),
            timestamp: current_time_millis(),
            creator_thread_group: None,
            aux_info: None,
        }
    }

    /// A solution with one fresh sheet cut from the given stock panel.
    pub fn from_tile_dimensions(tile_dimensions: TileDimensions) -> (s: Solution)
        requires
            tile_dimensions.width >= 0,
            tile_dimensions.height >= 0,
        ensures
            s.id >= 0,
            s.mosaics@.len() == 1,
            s.mosaics@[0].root_tile_node.tile == (crate::model::tile::Tile {
                x1: 0, x2: tile_dimensions.width, y1: 0, y2: tile_dimensions.height }),
            s.mosaics@[0].root_tile_node.is_free_leaf(),
            s.mosaics@[0].cuts@.len() == 0,
            s.mosaics@[0].material == tile_dimensions.material,
            s.mosaics@[0].stock_id == tile_dimensions.id,
            s.no_fit_panels@.len() == 0,
            s.unused_stock_panels@.len() == 0,
            s.creator_thread_group is None,
            s.aux_info is None,
            s.wf(),
    {
        let mut solution = Self::new();
        let mosaic = Mosaic::new(&tile_dimensions);
        solution.mosaics.push(mosaic);
        proof { assert(views(solution.mosaics@) =~= seq![solution.mosaics@[0]@]); }
        solution
    }

    /// A solution over the given stock: the first stock panel becomes a sheet, the others
    /// wait in order.
    pub fn from_stock_solution(stock_solution: &StockSolution) -> (s: Solution)
        requires
            forall|i: int| 0 <= i < stock_solution.stock_tile_dimensions@.len() ==>
                (#[trigger] stock_solution.stock_tile_dimensions@[i]).width >= 0
                && stock_solution.stock_tile_dimensions@[i].height >= 0,
        ensures
            started_from_stock(stock_solution.stock_tile_dimensions@, s),
    {
        let mut solution = Self::new();
        let stock = stock_solution.get_stock_tile_dimensions();
        let mut i: usize = 0;
        while i < stock.len()
            invariant
                0 <= i <= stock@.len(),
                stock@ == stock_solution.stock_tile_dimensions@,
                solution.unused_stock_panels@ == stock@.take(i as int),
                solution.mosaics@.len() == 0,
                solution.no_fit_panels@.len() == 0,
                solution.id >= 0,
                solution.creator_thread_group is None,
                solution.aux_info is None,
            decreases stock@.len() - i,
        {
            solution.unused_stock_panels.push_back(stock[i].duplicate());
            i = i + 1;
            proof { assert(solution.unused_stock_panels@ =~= stock@.take(i as int)); }
        }
        proof { assert(stock@.take(stock@.len() as int) =~= stock@); }
        if let Some(first_tile) = solution.unused_stock_panels.pop_front() {
            let mosaic = Mosaic::new(&first_tile);
            solution.mosaics.push(mosaic);
            proof { assert(views(solution.mosaics@) =~= seq![solution.mosaics@[0]@]); }
        }
        solution
    }

    /// A copy of `other` with a fresh identifier, other than `other`'s, and time stamp.
    pub fn copy(other: &Solution) -> (s: Solution)
        ensures
            s.id >= 0,
            s.id != other.id,
            views(s.mosaics@) == views(other.mosaics@),
            s.no_fit_panels@ == other.no_fit_panels@,
            s.unused_stock_panels@ == other.unused_stock_panels@,
            s.creator_thread_group == other.creator_thread_group,
            s.aux_info == other.aux_info,
    {
        let mut mosaics: Vec<Mosaic> = Vec::new();
        let mut i: usize = 0;
        while i < other.mosaics.len()
            invariant
                0 <= i <= other.mosaics@.len(),
                mosaics@.len() == i,
                forall|k: int| 0 <= k < i ==> (#[trigger] mosaics@[k])@ == other.mosaics@[k]@,
            decreases other.mosaics@.len() - i,
        {
            mosaics.push(other.mosaics[i].copy());
            i = i + 1;
        }
        proof { assert(views(mosaics@) =~= views(other.mosaics@)); }
        Solution {
            id: next_id_other_than(other.id),
            mosaics,
            no_fit_panels: copy_dimensions(&other.no_fit_panels),
            unused_stock_panels: copy_dimension_queue(&other.unused_stock_panels),
            timestamp: current_time_millis(),
            creator_thread_group: copy_text(&other.creator_thread_group),
            aux_info: copy_text(&other.aux_info),
        }
    }

    /// A field-by-field copy, the identifier and time stamp included.
    pub fn duplicate(&self) -> (s: Solution)
        ensures
            views(s.mosaics@) == views(self.mosaics@),
            s.same_but_mosaics(*self),
    {
        let mut mosaics: Vec<Mosaic> = Vec::new();
        let mut i: usize = 0;
        while i < self.mosaics.len()
            invariant
                0 <= i <= self.mosaics@.len(),
                mosaics@.len() == i,
                forall|k: int| 0 <= k < i ==> (#[trigger] mosaics@[k])@ == self.mosaics@[k]@,
            decreases self.mosaics@.len() - i,
        {
            mosaics.push(self.mosaics[i].copy());
            i = i + 1;
        }
        proof { assert(views(mosaics@) =~= views(self.mosaics@)); }
        Solution {
            id: self.id,
            mosaics,
            no_fit_panels: copy_dimensions(&self.no_fit_panels),
            unused_stock_panels: copy_dimension_queue(&self.unused_stock_panels),
            timestamp: self.timestamp,
            creator_thread_group: copy_text(&self.creator_thread_group),
            aux_info: copy_text(&self.aux_info),
        }
    }

    /// Reorders the sheets by growing unused area, keeping the order of sheets with equal
    /// unused area.
    fn sort_mosaics(&mut self)
        requires
            all_wf(views(old(self).mosaics@)),
        ensures
            views(final(self).mosaics@) == insertion_sorted(views(old(self).mosaics@)),
            views(final(self).mosaics@).to_multiset() == views(old(self).mosaics@).to_multiset(),
            final(self).wf(),
            final(self).same_but_mosaics(*old(self)),
    {
        let mut src: Vec<Mosaic> = Vec::new();
        std::mem::swap(&mut src, &mut self.mosaics);
        let ghost orig = views(src@);
        let mut out: Vec<Mosaic> = Vec::new();
        let mut keys: Vec<i64> = Vec::new();
        let ghost mut taken: Seq<MosaicView> = Seq::empty();
        proof {
            assert(views(out@).to_multiset() =~= Multiset::<MosaicView>::empty()) by {
                broadcast use vstd::seq_lib::group_to_multiset_ensures;
            }
            assert(orig =~= taken + views(src@));
            assert(views(out@) =~= insertion_sorted(taken));
        }
        while src.len() > 0
            invariant
                orig == taken + views(src@),
                views(out@) == insertion_sorted(taken),
                all_wf(views(src@)),
                all_wf(views(out@)),
                keys@.len() == out@.len(),
                forall|k: int| 0 <= k < keys@.len() ==> keys@[k] == unused_of(#[trigger] out@[k]@),
                sorted_by_unused(views(out@)),
                views(out@).to_multiset().add(views(src@).to_multiset()) == orig.to_multiset(),
                self.same_but_mosaics(*old(self)),
            decreases src@.len(),
        {
            let ghost src0 = src@;
            let ghost out0 = out@;
            let m = src.remove(0);
            assert(views(src0)[0] == m@);
            assert(m.wf());
            let k = m.get_unused_area_immutable();
            let mut j: usize = 0;
            while j < keys.len() && keys[j] <= k
                invariant
                    0 <= j <= keys@.len(),
                    forall|q: int| 0 <= q < j ==> keys@[q] <= k,
                decreases keys@.len() - j,
            {
                j = j + 1;
            }
            let ghost keys0 = keys@;
            proof {
                assert forall|q: int| 0 <= q < j implies unused_of(#[trigger] views(out0)[q]) <= unused_of(m@) by {
                    assert(views(out0)[q] == out0[q]@);
                }
                if j < keys0.len() {
                    assert(views(out0)[j as int] == out0[j as int]@);
                }
                lemma_insert_at_first_larger(views(out0), m@, j as int);
                let taken0 = taken;
                taken = taken.push(m@);
                assert(taken.drop_last() =~= taken0);
                assert(orig =~= taken + views(src0).drop_first());
            }
            out.insert(j, m);
            keys.insert(j, k);
            proof {
                broadcast use vstd::seq_lib::group_to_multiset_ensures;
                assert(views(src@) =~= views(src0).remove(0));
                assert(views(out@) =~= views(out0).insert(j as int, m@));
                vstd::seq_lib::to_multiset_remove(views(src0), 0);
                vstd::seq_lib::to_multiset_insert(views(out0), j as int, m@);
                assert(views(src0).to_multiset().count(m@) > 0);
                assert(views(out@).to_multiset().add(views(src@).to_multiset())
                    =~= views(out0).to_multiset().add(views(src0).to_multiset()));
                assert forall|q: int| 0 <= q < keys@.len() implies keys@[q] == unused_of(#[trigger] out@[q]@) by {
                    if q < j {
                        assert(out@[q] == out0[q]);
                    } else if q > j {
                        assert(out@[q] == out0[q - 1]);
                    }
                }
                assert forall|a: int, b: int| 0 <= a < b < views(out@).len() implies
                    unused_of(#[trigger] views(out@)[a]) <= unused_of(#[trigger] views(out@)[b]) by {
                    assert(views(out@)[a] == out@[a]@);
                    assert(views(out@)[b] == out@[b]@);
                    if j < keys0.len() {
                        assert(keys0[j as int] > k);
                    }
                    if a < j && b > j {
                        assert(keys@[a] == keys0[a]);
                        assert(keys@[b] == keys0[b - 1]);
                        assert(views(out0)[a] == out0[a]@);
                        assert(views(out0)[b - 1] == out0[b - 1]@);
                    } else if a == j && b > j {
                        assert(views(out0)[j as int] == out0[j as int]@);
                        assert(views(out0)[b - 1] == out0[b - 1]@);
                    } else if a < j && b == j {
                    } else if a > j {
                        assert(views(out0)[a - 1] == out0[a - 1]@);
                        assert(views(out0)[b - 1] == out0[b - 1]@);
                    } else {
                        assert(views(out0)[a] == out0[a]@);
                        assert(views(out0)[b] == out0[b]@);
                    }
                }
                assert forall|q: int| 0 <= q < views(out@).len() implies (#[trigger] views(out@)[q]).0.wf() by {
                    if q < j {
                        assert(views(out@)[q] == views(out0)[q]);
                    } else if q > j {
                        assert(views(out@)[q] == views(out0)[q - 1]);
                    }
                }
                assert forall|q: int| 0 <= q < views(src@).len() implies (#[trigger] views(src@)[q]).0.wf() by {
                    assert(views(src@)[q] == views(src0)[q + 1]);
                }
            }
        }
        proof {
            assert(views(src@).to_multiset() =~= Multiset::<MosaicView>::empty()) by {
                broadcast use vstd::seq_lib::group_to_multiset_ensures;
            }
            assert(views(out@).to_multiset().add(Multiset::<MosaicView>::empty()) =~= views(out@).to_multiset());
        }
        self.mosaics = out;
    }
    /// A copy of `other` with a fresh identifier, other than `other`'s, and time stamp,
    /// leaving out every sheet equal to `mosaic_to_exclude`; the sheets are reordered by
    /// growing unused area.
    pub fn copy_excluding_mosaic(other: &Solution, mosaic_to_exclude: &Mosaic) -> (s: Solution)
        requires
            all_wf(views(other.mosaics@)),
        ensures
            s.id >= 0,
            s.id != other.id,
            views(s.mosaics@).to_multiset() == views(other.mosaics@).filter(
                |v: MosaicView| !same_view(v, mosaic_to_exclude@)).to_multiset(),
            s.wf(),
            s.no_fit_panels@ == other.no_fit_panels@,
            s.unused_stock_panels@ == other.unused_stock_panels@,
            s.creator_thread_group == other.creator_thread_group,
            s.aux_info == other.aux_info,
    {
        let ghost pred = |v: MosaicView| !same_view(v, mosaic_to_exclude@);
        let mut solution = Solution {
            id: next_id_other_than(other.id),
            mosaics: Vec::new(),
            no_fit_panels: copy_dimensions(&other.no_fit_panels),
            unused_stock_panels: copy_dimension_queue(&other.unused_stock_panels),
            timestamp: current_time_millis(),
            creator_thread_group: copy_text(&other.creator_thread_group),
            aux_info: copy_text(&other.aux_info),
        };
        proof { lemma_filter_empty(pred); }
        let mut i: usize = 0;
        while i < other.mosaics.len()
            invariant
                0 <= i <= other.mosaics@.len(),
                all_wf(views(other.mosaics@)),
                views(solution.mosaics@) == views(other.mosaics@.take(i as int)).filter(pred),
                all_wf(views(solution.mosaics@)),
                solution.id >= 0,
                solution.id != other.id,
                solution.no_fit_panels@ == other.no_fit_panels@,
                solution.unused_stock_panels@ == other.unused_stock_panels@,
                solution.creator_thread_group == other.creator_thread_group,
                solution.aux_info == other.aux_info,
                pred == (|v: MosaicView| !same_view(v, mosaic_to_exclude@)),
            decreases other.mosaics@.len() - i,
        {
            let ghost before = solution.mosaics@;
            let ghost v = other.mosaics@[i as int]@;
            proof {
                assert(views(other.mosaics@.take(i + 1)) =~= views(other.mosaics@.take(i as int)).push(v));
                lemma_filter_push(views(other.mosaics@.take(i as int)), v, pred);
                assert(views(other.mosaics@)[i as int] == v);
            }
            if !other.mosaics[i].equals(mosaic_to_exclude) {
                let c = other.mosaics[i].copy();
                solution.mosaics.push(c);
                proof {
                    assert(views(solution.mosaics@) =~= views(before).push(v));
                }
            }
            i = i + 1;
        }
        proof { assert(other.mosaics@.take(other.mosaics@.len() as int) =~= other.mosaics@); }
        solution.sort_mosaics();
        solution
    }

    pub fn get_id(&self) -> (r: i32)
        ensures
            r == self.id,
    {
        self.id
    }

    pub fn get_timestamp(&self) -> (r: u64)
        ensures
            r == self.timestamp,
    {
        self.timestamp
    }

    pub fn get_creator_thread_group(&self) -> (r: Option<&String>)
        ensures
            r is None <==> self.creator_thread_group is None,
            r matches Some(g) ==> self.creator_thread_group == Some(*g),
    {
        match &self.creator_thread_group {
            Some(g) => Some(g),
            None => None,
        }
    }

    pub fn set_creator_thread_group(&mut self, group: String)
        ensures
            *final(self) == (Solution { creator_thread_group: Some(group), ..*old(self) }),
    {
        self.creator_thread_group = Some(group);
    }

    pub fn get_aux_info(&self) -> (r: Option<&String>)
        ensures
            r is None <==> self.aux_info is None,
            r matches Some(g) ==> self.aux_info == Some(*g),
    {
        match &self.aux_info {
            Some(g) => Some(g),
            None => None,
        }
    }

    pub fn set_aux_info(&mut self, info: String)
        ensures
            *final(self) == (Solution { aux_info: Some(info), ..*old(self) }),
    {
        self.aux_info = Some(info);
    }

    /// Adds a sheet; the sheets are then reordered by growing unused area by a stable sort,
    /// so that sheets with equal unused area keep their order (the new one after them).
    pub fn add_mosaic(&mut self, mosaic: Mosaic)
        requires
            all_wf(views(old(self).mosaics@)),
            mosaic.wf(),
        ensures
            views(final(self).mosaics@) == insertion_sorted(views(old(self).mosaics@).push(mosaic@)),
            sorted_by_unused(views(old(self).mosaics@)) ==>
                views(final(self).mosaics@) == sorted_insert(views(old(self).mosaics@), mosaic@),
            views(final(self).mosaics@).to_multiset() == views(old(self).mosaics@).to_multiset().insert(mosaic@),
            final(self).wf(),
            final(self).same_but_mosaics(*old(self)),
    {
        let ghost m = mosaic@;
        let ghost before = views(self.mosaics@);
        self.mosaics.push(mosaic);
        proof {
            broadcast use vstd::seq_lib::group_to_multiset_ensures;
            assert(views(self.mosaics@) =~= before.push(m));
            assert forall|q: int| 0 <= q < views(self.mosaics@).len() implies (#[trigger] views(self.mosaics@)[q]).0.wf() by {
                if q < before.len() {
                    assert(views(self.mosaics@)[q] == before[q]);
                }
            }
        }
        self.sort_mosaics();
        proof {
            let p = before.push(m);
            assert(p.drop_last() =~= before);
            if sorted_by_unused(before) {
                lemma_insertion_sorted_of_sorted(before);
            }
        }
    }

    /// Adds sheets; the sheets are then reordered by growing unused area by a stable sort.
    pub fn add_all_mosaics(&mut self, mosaics: Vec<Mosaic>)
        requires
            all_wf(views(old(self).mosaics@)),
            all_wf(views(mosaics@)),
        ensures
            views(final(self).mosaics@) == insertion_sorted(views(old(self).mosaics@) + views(mosaics@)),
            views(final(self).mosaics@).to_multiset() == (views(old(self).mosaics@) + views(mosaics@)).to_multiset(),
            final(self).wf(),
            final(self).same_but_mosaics(*old(self)),
    {
        let ghost before = views(self.mosaics@);
        let mut added = mosaics;
        self.mosaics.append(&mut added);
        proof {
            assert(views(self.mosaics@) =~= before + views(mosaics@));
            assert forall|q: int| 0 <= q < views(self.mosaics@).len() implies (#[trigger] views(self.mosaics@)[q]).0.wf() by {
                if q < before.len() {
                    assert(views(self.mosaics@)[q] == before[q]);
                } else {
                    assert(views(self.mosaics@)[q] == views(mosaics@)[q - before.len()]);
                }
            }
        }
        self.sort_mosaics();
    }

    pub fn get_mosaics(&self) -> (r: &Vec<Mosaic>)
        ensures
            r@ == self.mosaics@,
    {
        &self.mosaics
    }

    pub fn get_mosaics_mut(&mut self) -> (r: &mut Vec<Mosaic>)
        ensures
            *r == old(self).mosaics,
            *final(self) == (Solution { mosaics: *final(r), ..*old(self) }),
    {
        &mut self.mosaics
    }

    /// Removes every sheet equal to `mosaic`.
    pub fn remove_mosaic(&mut self, mosaic: &Mosaic)
        ensures
            views(final(self).mosaics@) == views(old(self).mosaics@).filter(|v: MosaicView| !same_view(v, mosaic@)),
            final(self).same_but_mosaics(*old(self)),
    {
        let ghost pred = |v: MosaicView| !same_view(v, mosaic@);
        let mut src: Vec<Mosaic> = Vec::new();
        std::mem::swap(&mut src, &mut self.mosaics);
        let ghost orig = src@;
        let n = src.len();
        assert(orig.len() == n);
        let mut kept: Vec<Mosaic> = Vec::new();
        proof { lemma_filter_empty(pred); }
        let mut i: usize = 0;
        while src.len() > 0
            invariant
                0 <= i <= orig.len(),
                orig.len() <= usize::MAX,
                src@ == orig.skip(i as int),
                views(kept@) == views(orig.take(i as int)).filter(pred),
                self.same_but_mosaics(*old(self)),
                pred == (|v: MosaicView| !same_view(v, mosaic@)),
            decreases src@.len(),
        {
            let ghost before = kept@;
            let m = src.remove(0);
            let ghost v = m@;
            proof {
                assert(orig.skip(i as int)[0] == orig[i as int]);
                assert(views(orig.take(i + 1)) =~= views(orig.take(i as int)).push(v));
                lemma_filter_push(views(orig.take(i as int)), v, pred);
            }
            if !m.equals(mosaic) {
                kept.push(m);
                proof { assert(views(kept@) =~= views(before).push(v)); }
            }
            i = i + 1;
            proof { assert(src@ =~= orig.skip(i as int)); }
        }
        proof { assert(orig.take(i as int) =~= orig); }
        self.mosaics = kept;
    }

    pub fn get_unused_stock_panels(&self) -> (r: &VecDeque<TileDimensions>)
        ensures
            r@ == self.unused_stock_panels@,
    {
        &self.unused_stock_panels
    }

    pub fn get_unused_stock_panels_mut(&mut self) -> (r: &mut VecDeque<TileDimensions>)
        ensures
            *r == old(self).unused_stock_panels,
            *final(self) == (Solution { unused_stock_panels: *final(r), ..*old(self) }),
    {
        &mut self.unused_stock_panels
    }

    pub fn get_no_fit_panels(&self) -> (r: &Vec<TileDimensions>)
        ensures
            r@ == self.no_fit_panels@,
    {
        &self.no_fit_panels
    }

    pub fn get_no_fit_panels_mut(&mut self) -> (r: &mut Vec<TileDimensions>)
        ensures
            *r == old(self).no_fit_panels,
            *final(self) == (Solution { no_fit_panels: *final(r), ..*old(self) }),
    {
        &mut self.no_fit_panels
    }

    pub fn set_no_fit_panels(&mut self, panels: Vec<TileDimensions>)
        ensures
            *final(self) == (Solution { no_fit_panels: panels, ..*old(self) }),
    {
        self.no_fit_panels = panels;
    }

    /// Appends panels that found no place.
    pub fn add_all_no_fit_panels(&mut self, panels: Vec<TileDimensions>)
        ensures
            final(self).no_fit_panels@ == old(self).no_fit_panels@ + panels@,
            views(final(self).mosaics@) == views(old(self).mosaics@),
            final(self).id == old(self).id,
            final(self).unused_stock_panels@ == old(self).unused_stock_panels@,
    {
        let mut added = panels;
        self.no_fit_panels.append(&mut added);
    }
    /// Number of free leaves over all sheets.
    pub fn get_nbr_unused_tiles(&self) -> (r: i32)
        requires
            self.wf(),
            seq_sum(free_counts(self.mosaics@)) <= i32::MAX,
        ensures
            r == seq_sum(free_counts(self.mosaics@)),
    {
        let ghost vals = free_counts(self.mosaics@);
        let mut total: i32 = 0;
        let mut i: usize = 0;
        proof {
            assert forall|k: int| 0 <= k < vals.len() implies vals[k] >= 0 by {
                lemma_mosaic_wf(self.mosaics@, k);
            }
        }
        while i < self.mosaics.len()
            invariant
                0 <= i <= self.mosaics@.len(),
                vals == free_counts(self.mosaics@),
                forall|k: int| 0 <= k < vals.len() ==> vals[k] >= 0,
                seq_sum(vals) <= i32::MAX,
                all_wf(views(self.mosaics@)),
                total == seq_sum(vals.take(i as int)),
            decreases self.mosaics@.len() - i,
        {
            proof {
                lemma_seq_take_step(vals, i as int);
                lemma_seq_sum_prefix_le(vals, i + 1);
                lemma_seq_sum_ge(vals, i as int);
                lemma_mosaic_wf(self.mosaics@, i as int);
            }
            let v = self.mosaics[i].get_root_tile_node().get_nbr_unused_tiles();
            total = total + v;
            i = i + 1;
        }
        proof { assert(vals.take(vals.len() as int) =~= vals); }
        total
    }

    /// Number of placed panels wider than high over all sheets.
    pub fn get_nbr_horizontal(&self) -> (r: i32)
        requires
            self.wf(),
            seq_sum(horizontal_counts(self.mosaics@)) <= i32::MAX,
        ensures
            r == seq_sum(horizontal_counts(self.mosaics@)),
    {
        let ghost vals = horizontal_counts(self.mosaics@);
        let mut total: i32 = 0;
        let mut i: usize = 0;
        proof {
            assert forall|k: int| 0 <= k < vals.len() implies vals[k] >= 0 by {
                lemma_mosaic_wf(self.mosaics@, k);
            }
        }
        while i < self.mosaics.len()
            invariant
                0 <= i <= self.mosaics@.len(),
                vals == horizontal_counts(self.mosaics@),
                forall|k: int| 0 <= k < vals.len() ==> vals[k] >= 0,
                seq_sum(vals) <= i32::MAX,
                all_wf(views(self.mosaics@)),
                total == seq_sum(vals.take(i as int)),
            decreases self.mosaics@.len() - i,
        {
            proof {
                lemma_seq_take_step(vals, i as int);
                lemma_seq_sum_prefix_le(vals, i + 1);
                lemma_seq_sum_ge(vals, i as int);
                lemma_mosaic_wf(self.mosaics@, i as int);
            }
            let v = self.mosaics[i].get_root_tile_node().get_nbr_final_horizontal();
            total = total + v;
            i = i + 1;
        }
        proof { assert(vals.take(vals.len() as int) =~= vals); }
        total
    }

    /// Number of placed panels over all sheets.
    pub fn get_nbr_final_tiles(&self) -> (r: i32)
        requires
            self.wf(),
            seq_sum(final_counts(self.mosaics@)) <= i32::MAX,
        ensures
            r == seq_sum(final_counts(self.mosaics@)),
    {
        let ghost vals = final_counts(self.mosaics@);
        let mut total: i32 = 0;
        let mut i: usize = 0;
        proof {
            assert forall|k: int| 0 <= k < vals.len() implies vals[k] >= 0 by {
                lemma_mosaic_wf(self.mosaics@, k);
            }
        }
        while i < self.mosaics.len()
            invariant
                0 <= i <= self.mosaics@.len(),
                vals == final_counts(self.mosaics@),
                forall|k: int| 0 <= k < vals.len() ==> vals[k] >= 0,
                seq_sum(vals) <= i32::MAX,
                all_wf(views(self.mosaics@)),
                total == seq_sum(vals.take(i as int)),
            decreases self.mosaics@.len() - i,
        {
            proof {
                lemma_seq_take_step(vals, i as int);
                lemma_seq_sum_prefix_le(vals, i + 1);
                lemma_seq_sum_ge(vals, i as int);
                lemma_mosaic_wf(self.mosaics@, i as int);
            }
            let v = self.mosaics[i].get_root_tile_node().get_nbr_final_tiles();
            total = total + v;
            i = i + 1;
        }
        proof { assert(vals.take(vals.len() as int) =~= vals); }
        total
    }

    /// Area of all sheets.
    pub fn get_total_area(&self) -> (r: i64)
        requires
            self.wf(),
            seq_sum(total_areas(self.mosaics@)) <= i64::MAX,
        ensures
            r == seq_sum(total_areas(self.mosaics@)),
    {
        let ghost vals = total_areas(self.mosaics@);
        let mut total: i64 = 0;
        let mut i: usize = 0;
        proof {
            assert forall|k: int| 0 <= k < vals.len() implies vals[k] >= 0 by {
                lemma_mosaic_wf(self.mosaics@, k);
            }
        }
        while i < self.mosaics.len()
            invariant
                0 <= i <= self.mosaics@.len(),
                vals == total_areas(self.mosaics@),
                forall|k: int| 0 <= k < vals.len() ==> vals[k] >= 0,
                seq_sum(vals) <= i64::MAX,
                all_wf(views(self.mosaics@)),
                total == seq_sum(vals.take(i as int)),
            decreases self.mosaics@.len() - i,
        {
            proof {
                lemma_seq_take_step(vals, i as int);
                lemma_seq_sum_prefix_le(vals, i + 1);
                lemma_seq_sum_ge(vals, i as int);
                lemma_mosaic_wf(self.mosaics@, i as int);
            }
            let v = self.mosaics[i].get_total_area();
            total = total + v;
            i = i + 1;
        }
        proof { assert(vals.take(vals.len() as int) =~= vals); }
        total
    }

    /// Area covered by placed panels over all sheets.
    pub fn get_used_area(&self) -> (r: i64)
        requires
            self.wf(),
            seq_sum(used_areas(self.mosaics@)) <= i64::MAX,
        ensures
            r == seq_sum(used_areas(self.mosaics@)),
    {
        let ghost vals = used_areas(self.mosaics@);
        let mut total: i64 = 0;
        let mut i: usize = 0;
        proof {
            assert forall|k: int| 0 <= k < vals.len() implies vals[k] >= 0 by {
                lemma_mosaic_wf(self.mosaics@, k);
            }
        }
        while i < self.mosaics.len()
            invariant
                0 <= i <= self.mosaics@.len(),
                vals == used_areas(self.mosaics@),
                forall|k: int| 0 <= k < vals.len() ==> vals[k] >= 0,
                seq_sum(vals) <= i64::MAX,
                all_wf(views(self.mosaics@)),
                total == seq_sum(vals.take(i as int)),
            decreases self.mosaics@.len() - i,
        {
            proof {
                lemma_seq_take_step(vals, i as int);
                lemma_seq_sum_prefix_le(vals, i + 1);
                lemma_seq_sum_ge(vals, i as int);
                lemma_mosaic_wf(self.mosaics@, i as int);
            }
            let v = self.mosaics[i].get_used_area_immutable();
            total = total + v;
            i = i + 1;
        }
        proof { assert(vals.take(vals.len() as int) =~= vals); }
        total
    }

    /// Area not covered by placed panels over all sheets.
    pub fn get_unused_area(&self) -> (r: i64)
        requires
            self.wf(),
            seq_sum(unused_areas(self.mosaics@)) <= i64::MAX,
        ensures
            r == seq_sum(unused_areas(self.mosaics@)),
    {
        let ghost vals = unused_areas(self.mosaics@);
        let mut total: i64 = 0;
        let mut i: usize = 0;
        proof {
            assert forall|k: int| 0 <= k < vals.len() implies vals[k] >= 0 by {
                lemma_mosaic_wf(self.mosaics@, k);
            }
        }
        while i < self.mosaics.len()
            invariant
                0 <= i <= self.mosaics@.len(),
                vals == unused_areas(self.mosaics@),
                forall|k: int| 0 <= k < vals.len() ==> vals[k] >= 0,
                seq_sum(vals) <= i64::MAX,
                all_wf(views(self.mosaics@)),
                total == seq_sum(vals.take(i as int)),
            decreases self.mosaics@.len() - i,
        {
            proof {
                lemma_seq_take_step(vals, i as int);
                lemma_seq_sum_prefix_le(vals, i + 1);
                lemma_seq_sum_ge(vals, i as int);
                lemma_mosaic_wf(self.mosaics@, i as int);
            }
            let v = self.mosaics[i].get_unused_area_immutable();
            total = total + v;
            i = i + 1;
        }
        proof { assert(vals.take(vals.len() as int) =~= vals); }
        total
    }

    /// Number of cuts over all sheets.
    pub fn get_nbr_cuts(&self) -> (r: i32)
        requires
            self.wf(),
            seq_sum(cut_counts(self.mosaics@)) <= i32::MAX,
        ensures
            r == seq_sum(cut_counts(self.mosaics@)),
    {
        let ghost vals = cut_counts(self.mosaics@);
        let mut total: i32 = 0;
        let mut i: usize = 0;
        proof {
            assert forall|k: int| 0 <= k < vals.len() implies vals[k] >= 0 by {
                lemma_mosaic_wf(self.mosaics@, k);
            }
        }
        while i < self.mosaics.len()
            invariant
                0 <= i <= self.mosaics@.len(),
                vals == cut_counts(self.mosaics@),
                forall|k: int| 0 <= k < vals.len() ==> vals[k] >= 0,
                seq_sum(vals) <= i32::MAX,
                all_wf(views(self.mosaics@)),
                total == seq_sum(vals.take(i as int)),
            decreases self.mosaics@.len() - i,
        {
            proof {
                lemma_seq_take_step(vals, i as int);
                lemma_seq_sum_prefix_le(vals, i + 1);
                lemma_seq_sum_ge(vals, i as int);
                lemma_mosaic_wf(self.mosaics@, i as int);
            }
            let v = self.mosaics[i].get_nbr_cuts() as i32;
            total = total + v;
            i = i + 1;
        }
        proof { assert(vals.take(vals.len() as int) =~= vals); }
        total
    }

    /// Number of cuts over all sheets.
    pub fn get_cuts_count(&self) -> (r: i32)
        requires
            self.wf(),
            seq_sum(cut_counts(self.mosaics@)) <= i32::MAX,
        ensures
            r == seq_sum(cut_counts(self.mosaics@)),
    {
        self.get_nbr_cuts()
    }

    /// Number of cuts over all sheets.
    pub fn get_total_cuts_count(&self) -> (r: i32)
        requires
            self.wf(),
            seq_sum(cut_counts(self.mosaics@)) <= i32::MAX,
        ensures
            r == seq_sum(cut_counts(self.mosaics@)),
    {
        self.get_nbr_cuts()
    }

    /// Area not covered by placed panels over all sheets.
    pub fn get_wasted_area(&self) -> (r: i64)
        requires
            self.wf(),
            seq_sum(unused_areas(self.mosaics@)) <= i64::MAX,
        ensures
            r == seq_sum(unused_areas(self.mosaics@)),
    {
        self.get_unused_area()
    }

    /// Area not covered by placed panels over all sheets.
    pub fn get_total_wasted_area(&self) -> (r: i64)
        requires
            self.wf(),
            seq_sum(unused_areas(self.mosaics@)) <= i64::MAX,
        ensures
            r == seq_sum(unused_areas(self.mosaics@)),
    {
        self.get_unused_area()
    }

    /// Whether there is a first sheet and it holds no panel yet.
    pub fn has_unused_base_tile(&self) -> (b: bool)
        ensures
            b == (self.mosaics@.len() > 0 && !self.mosaics@[0].root_tile_node.has_final_spec()),
    {
        if self.mosaics.len() == 0 {
            return false;
        }
        !self.mosaics[0].get_root_tile_node().has_final()
    }

    /// Number of sheets.
    pub fn get_nbr_mosaics(&self) -> (r: i32)
        requires
            self.mosaics@.len() <= i32::MAX,
        ensures
            r == self.mosaics@.len(),
    {
        self.mosaics.len() as i32
    }

    /// Material of the first sheet, if any.
    pub fn get_material(&self) -> (r: Option<String>)
        ensures
            self.mosaics@.len() == 0 ==> r is None,
            self.mosaics@.len() > 0 ==> (r matches Some(m) && m@ == self.mosaics@[0].material@),
    {
        if self.mosaics.len() == 0 {
            return None;
        }
        Some(self.mosaics[0].get_material().to_string())
    }
    /// Largest number of levels of a sheet's layout (0 without sheets).
    pub fn get_max_depth(&self) -> (r: i32)
        requires
            self.wf(),
            seq_max0(depths(self.mosaics@)) <= i32::MAX,
        ensures
            r == seq_max0(depths(self.mosaics@)),
    {
        let ghost vals = depths(self.mosaics@);
        let mut best: i32 = 0;
        let mut i: usize = 0;
        while i < self.mosaics.len()
            invariant
                0 <= i <= self.mosaics@.len(),
                vals == depths(self.mosaics@),
                seq_max0(vals) <= i32::MAX,
                all_wf(views(self.mosaics@)),
                best == seq_max0(vals.take(i as int)),
            decreases self.mosaics@.len() - i,
        {
            proof {
                lemma_seq_take_step(vals, i as int);
                lemma_seq_max0_ge(vals, i as int);
                lemma_mosaic_wf(self.mosaics@, i as int);
            }
            let v = self.mosaics[i].get_max_depth();
            if v > best {
                best = v;
            }
            i = i + 1;
        }
        proof { assert(vals.take(vals.len() as int) =~= vals); }
        best
    }

    /// Largest area not covered by placed panels on one sheet (0 without sheets).
    pub fn get_most_unused_panel_area(&self) -> (r: i64)
        requires
            self.wf(),
            seq_max0(unused_areas(self.mosaics@)) <= i64::MAX,
        ensures
            r == seq_max0(unused_areas(self.mosaics@)),
    {
        let ghost vals = unused_areas(self.mosaics@);
        let mut best: i64 = 0;
        let mut i: usize = 0;
        while i < self.mosaics.len()
            invariant
                0 <= i <= self.mosaics@.len(),
                vals == unused_areas(self.mosaics@),
                seq_max0(vals) <= i64::MAX,
                all_wf(views(self.mosaics@)),
                best == seq_max0(vals.take(i as int)),
            decreases self.mosaics@.len() - i,
        {
            proof {
                lemma_seq_take_step(vals, i as int);
                lemma_seq_max0_ge(vals, i as int);
                lemma_mosaic_wf(self.mosaics@, i as int);
            }
            let v = self.mosaics[i].get_unused_area_immutable();
            if v > best {
                best = v;
            }
            i = i + 1;
        }
        proof { assert(vals.take(vals.len() as int) =~= vals); }
        best
    }

    /// Largest area of a free leaf over all sheets (0 when there is none).
    pub fn get_biggest_area(&self) -> (r: i64)
        requires
            self.wf(),
            seq_max0(biggest_free_areas(self.mosaics@)) <= i64::MAX,
        ensures
            r == seq_max0(biggest_free_areas(self.mosaics@)),
    {
        let ghost vals = biggest_free_areas(self.mosaics@);
        let mut best: i64 = 0;
        let mut i: usize = 0;
        while i < self.mosaics.len()
            invariant
                0 <= i <= self.mosaics@.len(),
                vals == biggest_free_areas(self.mosaics@),
                seq_max0(vals) <= i64::MAX,
                all_wf(views(self.mosaics@)),
                best == seq_max0(vals.take(i as int)),
            decreases self.mosaics@.len() - i,
        {
            proof {
                lemma_seq_take_step(vals, i as int);
                lemma_seq_max0_ge(vals, i as int);
                lemma_mosaic_wf(self.mosaics@, i as int);
            }
            let v = self.mosaics[i].get_biggest_area();
            if v > best {
                best = v;
            }
            i = i + 1;
        }
        proof { assert(vals.take(vals.len() as int) =~= vals); }
        best
    }

    /// Largest number of distinct sizes of placed panels on one sheet (0 without sheets).
    pub fn get_distinct_tile_set(&self) -> (r: i32)
        requires
            self.wf(),
            seq_max0(distinct_counts(self.mosaics@)) <= i32::MAX,
            forall|k: int| 0 <= k < self.mosaics@.len() ==> (#[trigger] self.mosaics@[k]).root_tile_node.pairing_fits(),
        ensures
            r == seq_max0(distinct_counts(self.mosaics@)),
    {
        let ghost vals = distinct_counts(self.mosaics@);
        let mut best: i32 = 0;
        let mut i: usize = 0;
        while i < self.mosaics.len()
            invariant
                0 <= i <= self.mosaics@.len(),
                vals == distinct_counts(self.mosaics@),
                seq_max0(vals) <= i32::MAX,
                all_wf(views(self.mosaics@)),
                forall|k: int| 0 <= k < self.mosaics@.len() ==> (#[trigger] self.mosaics@[k]).root_tile_node.pairing_fits(),
                best == seq_max0(vals.take(i as int)),
            decreases self.mosaics@.len() - i,
        {
            proof {
                lemma_seq_take_step(vals, i as int);
                lemma_seq_max0_ge(vals, i as int);
                lemma_mosaic_wf(self.mosaics@, i as int);
            }
            let set = self.mosaics[i].get_distinct_tile_set();
            proof { set@.unique_seq_to_set(); }
            let v = set.len() as i32;
            if v > best {
                best = v;
            }
            i = i + 1;
        }
        proof { assert(vals.take(vals.len() as int) =~= vals); }
        best
    }

    /// Largest area of a free leaf over all sheets (0 when there is none).
    pub fn get_biggest_unused_tile_area(&self) -> (r: i64)
        requires
            self.wf(),
            seq_max0(biggest_free_areas(self.mosaics@)) <= i64::MAX,
        ensures
            r == seq_max0(biggest_free_areas(self.mosaics@)),
    {
        self.get_biggest_area()
    }

    /// `[WxH]` for each sheet, in order.
    pub fn get_bases_as_string(&self) -> (r: String)
        requires
            self.wf(),
        ensures
            r@ == bases_text(self.mosaics@),
    {
        let mut result = String::new();
        let mut i: usize = 0;
        while i < self.mosaics.len()
            invariant
                0 <= i <= self.mosaics@.len(),
                all_wf(views(self.mosaics@)),
                result@ == bases_text(self.mosaics@.take(i as int)),
            decreases self.mosaics@.len() - i,
        {
            proof {
                lemma_mosaic_wf(self.mosaics@, i as int);
                lemma_wf_sides(self.mosaics@[i as int].root_tile_node);
                assert(self.mosaics@.take(i + 1).drop_last() =~= self.mosaics@.take(i as int));
            }
            let root = self.mosaics[i].get_root_tile_node();
            let ghost before = result@;
            result.append("[");
            push_i64_decimal(&mut result, root.get_width() as i64);
            result.append("x");
            push_i64_decimal(&mut result, root.get_height() as i64);
            result.append("]");
            proof {
                reveal_strlit("[");
                reveal_strlit("x");
                reveal_strlit("]");
                assert(result@ =~= bases_text(self.mosaics@.take(i + 1)));
            }
            i = i + 1;
        }
        proof { assert(self.mosaics@.take(self.mosaics@.len() as int) =~= self.mosaics@); }
        result
    }

    /// Copies of the nodes holding panels, sheet after sheet.
    pub fn get_final_tile_nodes(&self) -> (r: Vec<TileNode>)
        ensures
            r@ == all_final_nodes(self.mosaics@),
    {
        let mut result: Vec<TileNode> = Vec::new();
        let mut i: usize = 0;
        while i < self.mosaics.len()
            invariant
                0 <= i <= self.mosaics@.len(),
                result@ == all_final_nodes(self.mosaics@.take(i as int)),
            decreases self.mosaics@.len() - i,
        {
            proof { assert(self.mosaics@.take(i + 1).drop_last() =~= self.mosaics@.take(i as int)); }
            let nodes = self.mosaics[i].get_root_tile_node().get_final_tile_nodes();
            let ghost before = result@;
            let mut j: usize = 0;
            while j < nodes.len()
                invariant
                    0 <= j <= nodes@.len(),
                    result@ == before + deref_seq(nodes@).take(j as int),
                decreases nodes@.len() - j,
            {
                result.push(nodes[j].duplicate());
                j = j + 1;
                proof { assert(result@ =~= before + deref_seq(nodes@).take(j as int)); }
            }
            proof {
                assert(deref_seq(nodes@).take(nodes@.len() as int) =~= deref_seq(nodes@));
            }
            i = i + 1;
        }
        proof { assert(self.mosaics@.take(self.mosaics@.len() as int) =~= self.mosaics@); }
        result
    }

    /// Rectangles of the placed panels, sheet after sheet.
    pub fn get_final_tiles(&self) -> (r: Vec<Tile>)
        ensures
            r@ == all_final_nodes(self.mosaics@).map_values(|n: TileNode| n.tile),
    {
        let nodes = self.get_final_tile_nodes();
        let mut result: Vec<Tile> = Vec::new();
        let mut i: usize = 0;
        while i < nodes.len()
            invariant
                0 <= i <= nodes@.len(),
                result@ == nodes@.take(i as int).map_values(|n: TileNode| n.tile),
            decreases nodes@.len() - i,
        {
            let n = &nodes[i];
            result.push(Tile::new(n.get_x1(), n.get_x2(), n.get_y1(), n.get_y2()));
            i = i + 1;
            proof { assert(result@ =~= nodes@.take(i as int).map_values(|n: TileNode| n.tile)); }
        }
        proof { assert(nodes@.take(nodes@.len() as int) =~= nodes@); }
        result
    }

    /// The size of each sheet as free dimensions, in order.
    pub fn get_stock_tiles_dimensions(&self) -> (r: Vec<TileDimensions>)
        requires
            self.wf(),
        ensures
            r@.len() == self.mosaics@.len(),
            forall|k: int| 0 <= k < r@.len() ==> {
                &&& (#[trigger] r@[k]).width == self.mosaics@[k].root_tile_node.w()
                &&& r@[k].height == self.mosaics@[k].root_tile_node.h()
                &&& r@[k].id == -1
                &&& r@[k].material@ == DEFAULT_MATERIAL@
                &&& r@[k].orientation == 0
                &&& r@[k].label is None
                &&& !r@[k].is_rotated
            },
    {
        let mut result: Vec<TileDimensions> = Vec::new();
        let mut i: usize = 0;
        while i < self.mosaics.len()
            invariant
                0 <= i <= self.mosaics@.len(),
                all_wf(views(self.mosaics@)),
                result@.len() == i,
                forall|k: int| 0 <= k < i ==> {
                    &&& (#[trigger] result@[k]).width == self.mosaics@[k].root_tile_node.w()
                    &&& result@[k].height == self.mosaics@[k].root_tile_node.h()
                    &&& result@[k].id == -1
                    &&& result@[k].material@ == DEFAULT_MATERIAL@
                    &&& result@[k].orientation == 0
                    &&& result@[k].label is None
                    &&& !result@[k].is_rotated
                },
            decreases self.mosaics@.len() - i,
        {
            proof {
                lemma_mosaic_wf(self.mosaics@, i as int);
                lemma_wf_sides(self.mosaics@[i as int].root_tile_node);
            }
            result.push(self.mosaics[i].get_root_tile_node().to_tile_dimensions());
            i = i + 1;
        }
        result
    }
    /// All the ways of placing the panel: on each sheet in use, every placement that
    /// `add` finds, each giving a solution in which that sheet is replaced by the new one;
    /// if there is none, on a fresh sheet cut from the first stock panel; if there is no
    /// stock panel left, the panel is listed as finding no place. Never an error.
    pub fn try_place_tile(&mut self, tile_to_place: &TileDimensions) -> (r: Result<Vec<Solution>, CuttingError>)
        requires
            old(self).wf(),
            tile_to_place.width > 0,
            tile_to_place.height > 0,
            forall|k: int| 0 <= k < old(self).unused_stock_panels@.len() ==>
                (#[trigger] old(self).unused_stock_panels@[k]).width >= 0
                && old(self).unused_stock_panels@[k].height >= 0,
        ensures
            *final(self) == *old(self),
            r matches Ok(sols) && placement_solutions(*old(self), *tile_to_place, sols@),
            r matches Ok(sols) && forall|k: int| 0 <= k < sols@.len() ==> (#[trigger] sols@[k]).id != old(self).id,
    {
        let ghost td = *tile_to_place;
        let mut new_solutions: Vec<Solution> = Vec::new();
        let mut i: usize = 0;
        while i < self.mosaics.len()
            invariant
                0 <= i <= self.mosaics@.len(),
                self.wf(),
                *self == *old(self),
                td == *tile_to_place,
                tile_to_place.width > 0,
                tile_to_place.height > 0,
                placed_in_sheets(*self, self.mosaics@.take(i as int), td, new_solutions@),
                forall|q: int| 0 <= q < new_solutions@.len() ==> (#[trigger] new_solutions@[q]).id != self.id,
            decreases self.mosaics@.len() - i,
        {
            proof { lemma_mosaic_wf(self.mosaics@, i as int); }
            let mosaic = &self.mosaics[i];
            let ghost before = new_solutions@;
            match mosaic.add(tile_to_place, false) {
                Ok(result_mosaics) => {
                    let ghost out = result_mosaics@;
                    let n_results = result_mosaics.len();
                    proof { lemma_add_places_one_panel(*mosaic, td, false, out); }
                    let mut rest = result_mosaics;
                    let mut j: usize = 0;
                    while rest.len() > 0
                        invariant
                            0 <= j <= out.len(),
                            out.len() <= usize::MAX,
                            rest@ == out.skip(j as int),
                            self.wf(),
                            *self == *old(self),
                            mosaic == &self.mosaics@[i as int],
                            forall|q: int| 0 <= q < out.len() ==>
                                #[trigger] placed_into_one_of(*mosaic, out[q], mosaic.candidates_spec(td), td),
                            new_solutions@.len() == before.len() + j,
                            new_solutions@.subrange(0, before.len() as int) == before,
                            forall|q: int| 0 <= q < j ==>
                                #[trigger] replaced_sheet(*self, new_solutions@[before.len() + q], mosaic@, out[q]@),
                            forall|q: int| 0 <= q < new_solutions@.len() ==> (#[trigger] new_solutions@[q]).id != self.id,
                        decreases rest@.len(),
                    {
                        let rm = rest.remove(0);
                        proof {
                            assert(out.skip(j as int)[0] == out[j as int]);
                            assert(placed_into_one_of(*mosaic, out[j as int], mosaic.candidates_spec(td), td));
                        }
                        let mut new_solution = Solution::copy_excluding_mosaic(self, mosaic);
                        proof {
                            broadcast use vstd::seq_lib::group_filter_ensures;
                            assert forall|q: int| 0 <= q < views(new_solution.mosaics@).len()
                                implies (#[trigger] views(new_solution.mosaics@)[q]).0.wf() by {}
                        }
                        new_solution.add_mosaic(rm);
                        let ghost prev = new_solutions@;
                        new_solutions.push(new_solution);
                        proof {
                            assert(new_solutions@.subrange(0, before.len() as int) =~= prev.subrange(0, before.len() as int));
                            assert forall|q: int| 0 <= q < j + 1 implies
                                #[trigger] replaced_sheet(*self, new_solutions@[before.len() + q], mosaic@, out[q]@) by {
                                if q < j {
                                    assert(new_solutions@[before.len() + q] == prev[before.len() + q]);
                                }
                            }
                        }
                        j = j + 1;
                        proof { assert(rest@ =~= out.skip(j as int)); }
                    }
                    proof {
                        let ms = self.mosaics@.take(i + 1);
                        assert(ms.drop_last() =~= self.mosaics@.take(i as int));
                        assert(ms.last() == *mosaic);
                        assert(j == out.len());
                        assert(new_solutions@.subrange(0, new_solutions@.len() - out.len()) =~= before);
                        assert forall|q: int| 0 <= q < out.len() implies #[trigger] replaced_sheet(*self,
                            new_solutions@[new_solutions@.len() - out.len() + q], ms.last()@, out[q]@) by {
                            assert(new_solutions@.len() - out.len() + q == before.len() + q);
                        }
                        assert(add_results(ms.last(), ms.last().candidates_spec(td), td, turnable(td), out));
                    }
                },
                Err(_) => {
                    proof { assert(false); }
                },
            }
            i = i + 1;
        }
        proof { assert(self.mosaics@.take(self.mosaics@.len() as int) =~= self.mosaics@); }
        if new_solutions.len() > 0 {
            return Ok(new_solutions);
        }
        proof { assert(new_solutions@ =~= Seq::<Solution>::empty()); }
        if self.unused_stock_panels.len() > 0 {
            let unused_tile = &self.unused_stock_panels[0];
            let new_mosaic = Mosaic::new(unused_tile);
            match new_mosaic.add(tile_to_place, false) {
                Ok(result_mosaics) => {
                    let ghost out = result_mosaics@;
                    let n_results = result_mosaics.len();
                    proof { lemma_add_places_one_panel(new_mosaic, td, false, out); }
                    let mut rest = result_mosaics;
                    let mut j: usize = 0;
                    while rest.len() > 0
                        invariant
                            0 <= j <= out.len(),
                            out.len() <= usize::MAX,
                            rest@ == out.skip(j as int),
                            self.wf(),
                            *self == *old(self),
                            self.unused_stock_panels@.len() > 0,
                            placed_in_sheets(*self, self.mosaics@, td, Seq::<Solution>::empty()),
                            forall|q: int| 0 <= q < out.len() ==>
                                #[trigger] placed_into_one_of(new_mosaic, out[q], new_mosaic.candidates_spec(td), td),
                            new_solutions@.len() == j,
                            forall|q: int| 0 <= q < j ==> #[trigger] new_sheet_solution(*self, new_solutions@[q], out[q]@),
                            forall|q: int| 0 <= q < new_solutions@.len() ==> (#[trigger] new_solutions@[q]).id != self.id,
                        decreases rest@.len(),
                    {
                        let rm = rest.remove(0);
                        proof {
                            assert(out.skip(j as int)[0] == out[j as int]);
                            assert(placed_into_one_of(new_mosaic, out[j as int], new_mosaic.candidates_spec(td), td));
                        }
                        let mut new_solution = Solution::copy(self);
                        new_solution.unused_stock_panels.pop_front();
                        new_solution.add_mosaic(rm);
                        let ghost prev = new_solutions@;
                        new_solutions.push(new_solution);
                        proof {
                            assert forall|q: int| 0 <= q < j + 1 implies
                                #[trigger] new_sheet_solution(*self, new_solutions@[q], out[q]@) by {
                                if q < j {
                                    assert(new_solutions@[q] == prev[q]);
                                }
                            }
                        }
                        j = j + 1;
                        proof { assert(rest@ =~= out.skip(j as int)); }
                    }
                    proof {
                        assert(add_results(new_mosaic, new_mosaic.candidates_spec(td), td, turnable(td), out));
                        assert(j == out.len());
                        assert(fresh_sheet(new_mosaic, self.unused_stock_panels@[0]));
                        assert(placement_solutions(*self, td, new_solutions@));
                    }
                },
                Err(_) => {
                    proof { assert(false); }
                },
            }
            Ok(new_solutions)
        } else {
            let mut new_solution = Solution::copy(self);
            new_solution.no_fit_panels.push(tile_to_place.duplicate());
            new_solutions.push(new_solution);
            Ok(new_solutions)
        }
    }
    /// The identifiers of the sheets' layouts, in lexicographic order, joined with `|`;
    /// equal for solutions with the same layouts in any order of sheets.
    pub fn get_structure_identifier(&self) -> (r: String)
        ensures
            r@ == self.structure_identifier_spec(),
    {
        let ghost ids = self.mosaics@.map_values(|m: Mosaic| m.root_tile_node.identifier());
        let mut identifiers: Vec<String> = Vec::new();
        let mut i: usize = 0;
        while i < self.mosaics.len()
            invariant
                0 <= i <= self.mosaics@.len(),
                ids == self.mosaics@.map_values(|m: Mosaic| m.root_tile_node.identifier()),
                identifiers@.map_values(|t: String| t@) == text_sort(ids.take(i as int)),
            decreases self.mosaics@.len() - i,
        {
            let id = self.mosaics[i].get_root_tile_node().to_string_identifier();
            proof {
                assert(ids.take(i + 1).drop_last() =~= ids.take(i as int));
                assert(ids.take(i + 1).last() == id@);
            }
            insert_text_sorted(&mut identifiers, id);
            i = i + 1;
        }
        proof { assert(ids.take(ids.len() as int) =~= ids); }
        let mut result = String::new();
        let mut j: usize = 0;
        let ghost sorted = identifiers@.map_values(|t: String| t@);
        while j < identifiers.len()
            invariant
                0 <= j <= identifiers@.len(),
                sorted == identifiers@.map_values(|t: String| t@),
                result@ == join_bar(sorted.take(j as int)),
            decreases identifiers@.len() - j,
        {
            proof {
                assert(sorted.take(j + 1).drop_last() =~= sorted.take(j as int));
                reveal_strlit("|");
            }
            if j > 0 {
                result.append("|");
            }
            result.append(identifiers[j].as_str());
            proof {
                if j == 0 {
                    assert(sorted.take(1) =~= seq![sorted[0]]);
                }
                assert(result@ =~= join_bar(sorted.take(j + 1)));
            }
            j = j + 1;
        }
        proof { assert(sorted.take(sorted.len() as int) =~= sorted); }
        result
    }
}

} // verus!
