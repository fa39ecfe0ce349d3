//! Panels grouped by size or by material, and the priority in which a panel is placed.

use vstd::prelude::*;
use vstd::multiset::Multiset;
use crate::model::tile::{TileDimensions, TileUtils};
use crate::support::{int_decimal, same_text};

verus! {

/// The size signature of a panel: `"<min>x<max>"` of its two sides.
pub open spec fn size_signature(t: TileDimensions) -> Seq<char> {
    int_decimal(if t.width <= t.height { t.width as int } else { t.height as int })
        + seq!['x'] + int_decimal(if t.width >= t.height { t.width as int } else { t.height as int })
}

/// The distinct keys of `ks`, in the order in which each first occurs.
pub open spec fn first_keys(ks: Seq<Seq<char>>) -> Seq<Seq<char>>
    decreases ks.len(),
{
    if ks.len() == 0 {
        Seq::empty()
    } else {
        let p = first_keys(ks.drop_last());
        if p.contains(ks.last()) { p } else { p.push(ks.last()) }
    }
}

/// The items whose key (`ks[i]` for `items[i]`) is `k`, in their order.
pub open spec fn members_keyed(items: Seq<TileDimensions>, ks: Seq<Seq<char>>, k: Seq<char>) -> Seq<TileDimensions>
    decreases items.len(),
{
    if items.len() == 0 || ks.len() != items.len() {
        Seq::empty()
    } else {
        let p = members_keyed(items.drop_last(), ks.drop_last(), k);
        if ks.last() == k { p.push(items.last()) } else { p }
    }
}

/// The groups of items by key: one per distinct key, in the order in which the keys
/// first occur, each with its items in their order.
pub open spec fn grouped(items: Seq<TileDimensions>, ks: Seq<Seq<char>>) -> Seq<(Seq<char>, Seq<TileDimensions>)> {
    first_keys(ks).map_values(|k: Seq<char>| (k, members_keyed(items, ks, k)))
}

/// Groups viewed as (key text, panels).
pub open spec fn groups_view(g: Seq<(String, Vec<TileDimensions>)>) -> Seq<(Seq<char>, Seq<TileDimensions>)> {
    g.map_values(|e: (String, Vec<TileDimensions>)| (e.0@, e.1@))
}

/// The size signature of each panel.
pub open spec fn size_keys(items: Seq<TileDimensions>) -> Seq<Seq<char>> {
    items.map_values(|t: TileDimensions| size_signature(t))
}

/// The material of each panel.
pub open spec fn material_keys(items: Seq<TileDimensions>) -> Seq<Seq<char>> {
    items.map_values(|t: TileDimensions| t.material@)
}

/// A key occurs among the first keys exactly when it occurs at all.
pub proof fn lemma_first_keys_contains(ks: Seq<Seq<char>>, k: Seq<char>)
    ensures
        first_keys(ks).contains(k) == ks.contains(k),
    decreases ks.len(),
{
    if ks.len() > 0 {
        lemma_first_keys_contains(ks.drop_last(), k);
        let p = first_keys(ks.drop_last());
        if ks.contains(k) && !ks.drop_last().contains(k) {
            assert(ks.last() == k) by {
                let i = choose|i: int| 0 <= i < ks.len() && ks[i] == k;
                if i < ks.len() - 1 {
                    assert(ks.drop_last()[i] == k);
                }
            }
        }
        if ks.drop_last().contains(k) {
            let i = choose|i: int| 0 <= i < ks.drop_last().len() && ks.drop_last()[i] == k;
            assert(ks[i] == k);
        }
        if !p.contains(ks.last()) {
            assert(p.push(ks.last()).last() == ks.last());
            if p.contains(k) {
                let i = choose|i: int| 0 <= i < p.len() && p[i] == k;
                assert(p.push(ks.last())[i] == k);
            }
            if p.push(ks.last()).contains(k) && k != ks.last() {
                let i = choose|i: int| 0 <= i < p.len() + 1 && p.push(ks.last())[i] == k;
                assert(p[i] == k);
            }
        }
    }
}

/// No key is listed twice among the first keys.
pub proof fn lemma_first_keys_distinct(ks: Seq<Seq<char>>)
    ensures
        first_keys(ks).no_duplicates(),
    decreases ks.len(),
{
    if ks.len() > 0 {
        lemma_first_keys_distinct(ks.drop_last());
    }
}

proof fn lemma_members_absent(items: Seq<TileDimensions>, ks: Seq<Seq<char>>, k: Seq<char>)
    requires
        !ks.contains(k),
    ensures
        members_keyed(items, ks, k) == Seq::<TileDimensions>::empty(),
    decreases items.len(),
{
    if items.len() > 0 && ks.len() == items.len() {
        assert(ks[ks.len() - 1] == ks.last());
        if ks.drop_last().contains(k) {
            let i = choose|i: int| 0 <= i < ks.drop_last().len() && ks.drop_last()[i] == k;
            assert(ks[i] == k);
        }
        lemma_members_absent(items.drop_last(), ks.drop_last(), k);
    }
}

/// Groups `tiles` by the keys given for them, one per tile.
fn group_by_keys(tiles: &[TileDimensions], keys: Vec<String>) -> (r: Vec<(String, Vec<TileDimensions>)>)
    requires
        keys@.len() == tiles@.len(),
    ensures
        groups_view(r@) == grouped(tiles@, keys@.map_values(|s: String| s@)),
{
    let ghost ks = keys@.map_values(|s: String| s@);
    let ghost items = tiles@;
    let mut groups: Vec<(String, Vec<TileDimensions>)> = Vec::new();
    let mut i: usize = 0;
    while i < tiles.len()
        invariant
            i <= tiles@.len(),
            keys@.len() == tiles@.len(),
            ks == keys@.map_values(|s: String| s@),
            items == tiles@,
            groups@.len() == first_keys(ks.take(i as int)).len(),
            forall|g: int| 0 <= g < groups@.len() ==> (#[trigger] groups@[g]).0@ == first_keys(ks.take(i as int))[g]
                && groups@[g].1@ == members_keyed(items.take(i as int), ks.take(i as int), first_keys(ks.take(i as int))[g]),
        decreases tiles@.len() - i,
    {
        let ghost fk = first_keys(ks.take(i as int));
        let ghost ks1 = ks.take(i + 1);
        let ghost items1 = items.take(i + 1);
        proof {
            assert(ks1.drop_last() =~= ks.take(i as int));
            assert(items1.drop_last() =~= items.take(i as int));
            assert(ks1.last() == keys@[i as int]@);
            assert(items1.last() == tiles@[i as int]);
        }
        let mut g: usize = 0;
        while g < groups.len()
            invariant
                g <= groups@.len(),
                i < keys@.len(),
                forall|q: int| 0 <= q < g ==> (#[trigger] groups@[q]).0@ != keys@[i as int]@,
            ensures
                g <= groups@.len(),
                forall|q: int| 0 <= q < g ==> (#[trigger] groups@[q]).0@ != keys@[i as int]@,
                g < groups@.len() ==> groups@[g as int].0@ == keys@[i as int]@,
            decreases groups@.len() - g,
        {
            if same_text(groups[g].0.as_str(), keys[i].as_str()) {
                break;
            }
            g = g + 1;
        }
        let tile = tiles[i].duplicate();
        if g < groups.len() {
            proof {
                assert(fk[g as int] == ks1.last());
                assert(fk.contains(ks1.last()));
                assert(first_keys(ks1) == fk);
            }
            let ghost old_groups = groups@;
            groups[g].1.push(tile);
            proof {
                assert forall|h: int| 0 <= h < groups@.len() implies (#[trigger] groups@[h]).0@ == first_keys(ks1)[h]
                    && groups@[h].1@ == members_keyed(items1, ks1, first_keys(ks1)[h]) by {
                    if h != g {
                        assert(groups@[h] == old_groups[h]);
                        lemma_first_keys_distinct(ks.take(i as int));
                        assert(fk[h] != fk[g as int]);
                    }
                }
            }
        } else {
            let key = keys[i].clone();
            let mut members: Vec<TileDimensions> = Vec::new();
            members.push(tile);
            proof {
                if fk.contains(ks1.last()) {
                    let h = choose|h: int| 0 <= h < fk.len() && fk[h] == ks1.last();
                    assert(groups@[h].0@ == fk[h]);
                }
                assert(!fk.contains(ks1.last()));
                assert(first_keys(ks1) == fk.push(ks1.last()));
                lemma_first_keys_contains(ks.take(i as int), ks1.last());
                lemma_members_absent(items.take(i as int), ks.take(i as int), ks1.last());
            }
            let ghost old_groups = groups@;
            groups.push((key, members));
            proof {
                assert forall|h: int| 0 <= h < groups@.len() implies (#[trigger] groups@[h]).0@ == first_keys(ks1)[h]
                    && groups@[h].1@ == members_keyed(items1, ks1, first_keys(ks1)[h]) by {
                    if h < old_groups.len() {
                        assert(groups@[h] == old_groups[h]);
                        assert(fk[h] != ks1.last());
                    } else {
                        assert(members_keyed(items1, ks1, ks1.last()) =~= seq![items1.last()]);
                    }
                }
            }
        }
        i = i + 1;
    }
    proof {
        assert(ks.take(i as int) =~= ks);
        assert(items.take(i as int) =~= items);
        assert(groups_view(groups@) =~= grouped(tiles@, ks));
    }
    groups
}

impl TileUtils {
    /// Groups panels by size signature (`"<min>x<max>"`, so a panel and its quarter turn
    /// share a group): one group per signature, in the order in which the signatures
    /// first occur, each with its panels in their order.
    pub fn group_by_size(tiles: &[TileDimensions]) -> (r: Vec<(String, Vec<TileDimensions>)>)
        ensures
            groups_view(r@) == grouped(tiles@, size_keys(tiles@)),
    {
        let mut keys: Vec<String> = Vec::new();
        let mut i: usize = 0;
        while i < tiles.len()
            invariant
                i <= tiles@.len(),
                keys@.len() == i,
                forall|q: int| 0 <= q < i ==> (#[trigger] keys@[q])@ == size_signature(tiles@[q]),
            decreases tiles@.len() - i,
        {
            keys.push(tiles[i].get_size_signature());
            i = i + 1;
        }
        assert(keys@.map_values(|s: String| s@) =~= size_keys(tiles@));
        group_by_keys(tiles, keys)
    }

    /// Groups panels by material: one group per material, in the order in which the
    /// materials first occur, each with its panels in their order.
    pub fn group_by_material(tiles: &[TileDimensions]) -> (r: Vec<(String, Vec<TileDimensions>)>)
        ensures
            groups_view(r@) == grouped(tiles@, material_keys(tiles@)),
    {
        let mut keys: Vec<String> = Vec::new();
        let mut i: usize = 0;
        while i < tiles.len()
            invariant
                i <= tiles@.len(),
                keys@.len() == i,
                forall|q: int| 0 <= q < i ==> (#[trigger] keys@[q])@ == tiles@[q].material@,
            decreases tiles@.len() - i,
        {
            keys.push(tiles[i].material.clone());
            i = i + 1;
        }
        assert(keys@.map_values(|s: String| s@) =~= material_keys(tiles@));
        group_by_keys(tiles, keys)
    }
}

/// The aspect ratio `width / height` is above 3 or below 0.33; a zero height counts as
/// an infinite ratio. (For sides that fit in `i32` this is exactly the comparison of the
/// ratio in floating point.)
pub open spec fn awkward_shape(w: int, h: int) -> bool {
    if h == 0 {
        true
    } else if h > 0 {
        w > 3 * h || 100 * w < 33 * h
    } else {
        w < 3 * h || 100 * w > 33 * h
    }
}

/// `a / b` rounded toward zero, as integer division in Rust does.
pub open spec fn div_toward_zero(a: int, b: int) -> int {
    if a >= 0 { a / b } else { -((-a) / b) }
}

/// The placement priority of a panel: its area in units of 10000 (rounded toward zero,
/// then taken as an `i32`), less 1000 for an awkward shape.
pub open spec fn placement_priority(t: TileDimensions) -> int {
    (div_toward_zero(t.area_spec(), 10000) as i32) as int + if awkward_shape(t.width as int, t.height as int) { -1000int } else { 0int }
}

impl TileDimensions {
    /// Larger panels first; panels of awkward shape are pushed back by 1000.
    pub fn get_placement_priority(&self) -> (r: i32)
        requires
            i32::MIN <= placement_priority(*self),
        ensures
            r == placement_priority(*self),
    {
        let area = self.get_area();
        proof {
            crate::model::tile::lemma_i32_product_fits_i64(self.width as int, self.height as int);
        }
        let units: i64 = if area >= 0 { area / 10000 } else { -((-area) / 10000) };
        let w = self.width as i64;
        let h = self.height as i64;
        let awkward = if h == 0 {
            true
        } else if h > 0 {
            w > 3 * h || 100 * w < 33 * h
        } else {
            w < 3 * h || 100 * w > 33 * h
        };
        let base = units as i32;
        if awkward {
            base - 1000
        } else {
            base
        }
    }
}

/// `s` cut into consecutive pieces of `m` items, the last piece possibly shorter.
pub open spec fn chunks_of(s: Seq<TileDimensions>, m: nat) -> Seq<Seq<TileDimensions>>
    decreases s.len(),
{
    if s.len() == 0 || m == 0 {
        Seq::empty()
    } else if s.len() <= m {
        seq![s]
    } else {
        seq![s.take(m as int)] + chunks_of(s.skip(m as int), m)
    }
}

/// The pieces of each group, group after group.
pub open spec fn group_chunks(gs: Seq<(Seq<char>, Seq<TileDimensions>)>, m: nat) -> Seq<Seq<TileDimensions>>
    decreases gs.len(),
{
    if gs.len() == 0 {
        Seq::empty()
    } else {
        group_chunks(gs.drop_last(), m) + chunks_of(gs.last().1, m)
    }
}

/// For each size group, its panels grouped by material and cut into pieces.
pub open spec fn size_group_chunks(gs: Seq<(Seq<char>, Seq<TileDimensions>)>, m: nat) -> Seq<Seq<TileDimensions>>
    decreases gs.len(),
{
    if gs.len() == 0 {
        Seq::empty()
    } else {
        size_group_chunks(gs.drop_last(), m) + group_chunks(grouped(gs.last().1, material_keys(gs.last().1)), m)
    }
}

/// The processing groups of a set of panels before ordering: panels of one size and one
/// material, at most `m` per group.
pub open spec fn processing_chunks(tiles: Seq<TileDimensions>, m: nat) -> Seq<Seq<TileDimensions>> {
    size_group_chunks(grouped(tiles, size_keys(tiles)), m)
}

/// The total area of some panels.
pub open spec fn total_area(s: Seq<TileDimensions>) -> int
    decreases s.len(),
{
    if s.len() == 0 { 0 } else { total_area(s.drop_last()) + s.last().area_spec() }
}

/// The total area of some panels adds up the panels' own areas: one panel's is its width
/// times its height, none have none, and two lists together have the sum of theirs.
pub proof fn lemma_total_area_adds_up(a: Seq<TileDimensions>, b: Seq<TileDimensions>, t: TileDimensions)
    ensures
        total_area(Seq::empty()) == 0,
        total_area(seq![t]) == t.width * t.height,
        total_area(a + b) == total_area(a) + total_area(b),
        total_area(a.push(t)) == total_area(a) + t.width * t.height,
    decreases b.len(),
{
    assert(seq![t].drop_last() =~= Seq::<TileDimensions>::empty());
    assert(a.push(t).drop_last() =~= a);
    if b.len() == 0 {
        assert(a + b =~= a);
    } else {
        lemma_total_area_adds_up(a, b.drop_last(), t);
        assert((a + b).drop_last() =~= a + b.drop_last());
        assert((a + b).last() == b.last());
    }
}

/// The contents of a list of groups.
pub open spec fn group_views(v: Seq<Vec<TileDimensions>>) -> Seq<Seq<TileDimensions>> {
    v.map_values(|g: Vec<TileDimensions>| g@)
}

/// Groups ordered by decreasing total area.
pub open spec fn by_decreasing_area(v: Seq<Seq<TileDimensions>>) -> bool {
    forall|a: int, b: int| 0 <= a < b < v.len() ==> total_area(#[trigger] v[a]) >= total_area(#[trigger] v[b])
}

proof fn lemma_group_views_push(v: Seq<Vec<TileDimensions>>, g: Vec<TileDimensions>)
    ensures
        group_views(v.push(g)) == group_views(v).push(g@),
{
    assert(group_views(v.push(g)) =~= group_views(v).push(g@));
}

/// Appends `items` cut into pieces of `max` items.
fn chunk_into(items: &Vec<TileDimensions>, max: usize, out: &mut Vec<Vec<TileDimensions>>)
    requires
        max > 0,
    ensures
        group_views(final(out)@) == group_views(old(out)@) + chunks_of(items@, max as nat),
{
    let ghost start = group_views(out@);
    let mut pos: usize = 0;
    assert(items@.skip(0) =~= items@);
    while pos < items.len()
        invariant
            max > 0,
            pos <= items@.len(),
            group_views(out@) + chunks_of(items@.skip(pos as int), max as nat) == start + chunks_of(items@, max as nat),
        decreases items@.len() - pos,
    {
        let ghost rest = items@.skip(pos as int);
        let end = if items.len() - pos <= max { items.len() } else { pos + max };
        let mut piece: Vec<TileDimensions> = Vec::new();
        let mut k: usize = pos;
        while k < end
            invariant
                pos <= k <= end <= items@.len(),
                piece@ == items@.subrange(pos as int, k as int),
            decreases end - k,
        {
            piece.push(items[k].duplicate());
            k = k + 1;
            proof { assert(piece@ =~= items@.subrange(pos as int, k as int)); }
        }
        let ghost before = out@;
        out.push(piece);
        proof {
            lemma_group_views_push(before, out@.last());
            assert(out@ == before.push(out@.last()));
            if rest.len() <= max {
                assert(items@.subrange(pos as int, end as int) =~= rest);
                assert(chunks_of(rest, max as nat) == seq![rest]);
                assert(items@.skip(end as int) =~= Seq::<TileDimensions>::empty());
            } else {
                assert(items@.subrange(pos as int, end as int) =~= rest.take(max as int));
                assert(rest.skip(max as int) =~= items@.skip(end as int));
                assert(chunks_of(rest, max as nat) == seq![rest.take(max as int)] + chunks_of(rest.skip(max as int), max as nat));
            }
            assert(group_views(out@) + chunks_of(items@.skip(end as int), max as nat)
                =~= group_views(before) + chunks_of(rest, max as nat));
        }
        pos = end;
    }
    proof {
        assert(items@.skip(pos as int) =~= Seq::<TileDimensions>::empty());
        assert(group_views(out@) + Seq::<Seq<TileDimensions>>::empty() =~= group_views(out@));
    }
}

/// Appends the material groups of `items`, each cut into pieces of `max` items.
fn material_chunks_into(items: &Vec<TileDimensions>, max: usize, out: &mut Vec<Vec<TileDimensions>>)
    requires
        max > 0,
    ensures
        group_views(final(out)@) == group_views(old(out)@) + group_chunks(grouped(items@, material_keys(items@)), max as nat),
{
    let groups = TileUtils::group_by_material(items.as_slice());
    let ghost gs = grouped(items@, material_keys(items@));
    let ghost start = group_views(out@);
    let mut g: usize = 0;
    while g < groups.len()
        invariant
            max > 0,
            g <= groups@.len(),
            groups_view(groups@) == gs,
            group_views(out@) == start + group_chunks(gs.take(g as int), max as nat),
        decreases groups@.len() - g,
    {
        proof {
            assert(gs.take(g + 1).drop_last() =~= gs.take(g as int));
            assert(gs[g as int].1 == groups@[g as int].1@);
        }
        chunk_into(&groups[g].1, max, out);
        g = g + 1;
        proof { assert(group_views(out@) =~= start + group_chunks(gs.take(g as int), max as nat)); }
    }
    proof { assert(gs.take(g as int) =~= gs); }
}

/// The total area of a group, exactly.
fn group_area(g: &Vec<TileDimensions>) -> (r: i128)
    ensures
        r == total_area(g@),
{
    let mut sum: i128 = 0;
    let mut k: usize = 0;
    while k < g.len()
        invariant
            k <= g@.len(),
            sum == total_area(g@.take(k as int)),
            -0x4000_0000_0000_0000 * k <= sum <= 0x4000_0000_0000_0000 * k,
        decreases g@.len() - k,
    {
        let a = g[k].get_area();
        proof {
            crate::model::tile::lemma_i32_product_fits_i64(g@[k as int].width as int, g@[k as int].height as int);
            assert(g@.take(k + 1).drop_last() =~= g@.take(k as int));
            assert(k < 0x1_0000_0000_0000_0000);
        }
        sum = sum + a as i128;
        k = k + 1;
    }
    proof { assert(g@.take(k as int) =~= g@); }
    sum
}

impl TileUtils {
    /// Groups for processing: the panels of each size, grouped by material and cut into
    /// pieces of at most `max_group_size`, ordered by decreasing total area.
    pub fn create_processing_groups(tiles: &[TileDimensions], max_group_size: usize) -> (r: Vec<Vec<TileDimensions>>)
        requires
            max_group_size > 0,
        ensures
            group_views(r@).to_multiset() == processing_chunks(tiles@, max_group_size as nat).to_multiset(),
            by_decreasing_area(group_views(r@)),
    {
        let size_groups = Self::group_by_size(tiles);
        let ghost sgs = grouped(tiles@, size_keys(tiles@));
        let mut pieces: Vec<Vec<TileDimensions>> = Vec::new();
        let mut g: usize = 0;
        assert(group_views(pieces@) =~= size_group_chunks(sgs.take(0), max_group_size as nat));
        while g < size_groups.len()
            invariant
                max_group_size > 0,
                g <= size_groups@.len(),
                groups_view(size_groups@) == sgs,
                group_views(pieces@) == size_group_chunks(sgs.take(g as int), max_group_size as nat),
            decreases size_groups@.len() - g,
        {
            proof {
                assert(sgs.take(g + 1).drop_last() =~= sgs.take(g as int));
                assert(sgs[g as int].1 == size_groups@[g as int].1@);
            }
            material_chunks_into(&size_groups[g].1, max_group_size, &mut pieces);
            g = g + 1;
        }
        proof { assert(sgs.take(g as int) =~= sgs); }
        sort_by_area(pieces)
    }
}

proof fn lemma_insert_by_area(v0: Seq<Seq<TileDimensions>>, j: int, xv: Seq<TileDimensions>, key: int)
    requires
        by_decreasing_area(v0),
        0 <= j <= v0.len(),
        forall|q: int| 0 <= q < j ==> total_area(#[trigger] v0[q]) >= key,
        j < v0.len() ==> total_area(v0[j]) < key,
        key == total_area(xv),
    ensures
        by_decreasing_area(v0.insert(j, xv)),
{
    let v = v0.insert(j, xv);
    assert forall|a: int, b: int| 0 <= a < b < v.len() implies total_area(#[trigger] v[a]) >= total_area(#[trigger] v[b]) by {
        if b < j {
            assert(v[a] == v0[a] && v[b] == v0[b]);
        } else if b == j {
            assert(v[a] == v0[a]);
        } else if a < j {
            assert(v[a] == v0[a] && v[b] == v0[b - 1]);
            assert(total_area(v0[a]) >= key);
            if b - 1 >= j {
                assert(total_area(v0[j]) >= total_area(v0[b - 1]));
            }
        } else if a == j {
            assert(v[b] == v0[b - 1]);
            if b - 1 > j {
                assert(total_area(v0[j]) >= total_area(v0[b - 1]));
            }
        } else {
            assert(v[a] == v0[a - 1] && v[b] == v0[b - 1]);
        }
    }
}

/// The groups ordered by decreasing total area.
fn sort_by_area(groups: Vec<Vec<TileDimensions>>) -> (r: Vec<Vec<TileDimensions>>)
    ensures
        group_views(r@).to_multiset() == group_views(groups@).to_multiset(),
        by_decreasing_area(group_views(r@)),
{
    let ghost orig = group_views(groups@);
    let mut src = groups;
    let mut out: Vec<Vec<TileDimensions>> = Vec::new();
    let mut keys: Vec<i128> = Vec::new();
    proof {
        broadcast use vstd::seq_lib::group_to_multiset_ensures;
        assert(group_views(out@).to_multiset() =~= Multiset::<Seq<TileDimensions>>::empty());
    }
    while src.len() > 0
        invariant
            keys@.len() == out@.len(),
            forall|k: int| 0 <= k < out@.len() ==> keys@[k] == total_area(#[trigger] out@[k]@),
            by_decreasing_area(group_views(out@)),
            group_views(out@).to_multiset().add(group_views(src@).to_multiset()) == orig.to_multiset(),
        decreases src@.len(),
    {
        let ghost src0 = src@;
        let ghost out0 = out@;
        let ghost keys0 = keys@;
        let x = src.remove(0);
        let key = group_area(&x);
        let mut j: usize = 0;
        loop
            invariant
                j <= out@.len(),
                keys@.len() == out@.len(),
                out@ == out0,
                forall|k: int| 0 <= k < out@.len() ==> keys@[k] == total_area(#[trigger] out@[k]@),
                forall|q: int| 0 <= q < j ==> keys@[q] >= key,
            ensures
                j <= out@.len(),
                forall|q: int| 0 <= q < j ==> keys@[q] >= key,
                j < out@.len() ==> keys@[j as int] < key,
            decreases out@.len() - j,
        {
            if j >= out.len() {
                break;
            }
            if keys[j] < key {
                break;
            }
            j = j + 1;
        }
        let ghost xv = x@;
        out.insert(j, x);
        keys.insert(j, key);
        proof {
            broadcast use vstd::seq_lib::group_to_multiset_ensures;
            let v0 = group_views(out0);
            assert(group_views(out@) =~= v0.insert(j as int, xv));
            assert(group_views(src0) =~= group_views(src@).insert(0, xv)) by {
                assert(src0 =~= src@.insert(0, src0[0]));
            }
            vstd::seq_lib::to_multiset_insert(v0, j as int, xv);
            vstd::seq_lib::to_multiset_insert(group_views(src@), 0, xv);
            assert(group_views(out@).to_multiset().add(group_views(src@).to_multiset())
                =~= v0.to_multiset().add(group_views(src0).to_multiset()));
            assert forall|k: int| 0 <= k < out@.len() implies keys@[k] == total_area(#[trigger] out@[k]@) by {
                if k < j {
                    assert(out@[k] == out0[k]);
                } else if k > j {
                    assert(out@[k] == out0[k - 1]);
                }
            }
            assert forall|q: int| 0 <= q < j implies total_area(#[trigger] v0[q]) >= key by {
                assert(v0[q] == out0[q]@);
                assert(keys0[q] == total_area(out0[q]@));
            }
            if j < out0.len() {
                assert(v0[j as int] == out0[j as int]@);
                assert(keys0[j as int] == total_area(out0[j as int]@));
            }
            lemma_insert_by_area(v0, j as int, xv, key as int);
        }
    }
    proof {
        broadcast use vstd::seq_lib::group_to_multiset_ensures;
        assert(group_views(src@).to_multiset() =~= Multiset::<Seq<TileDimensions>>::empty());
        assert(group_views(out@).to_multiset().add(Multiset::<Seq<TileDimensions>>::empty()) =~= group_views(out@).to_multiset());
    }
    out
}

} // verus!
