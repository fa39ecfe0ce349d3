//! Checking a set of panels: sides out of range are errors; an empty material, a side
//! more than ten times the other, and a size and material seen before are warnings.

use vstd::prelude::*;
use crate::model::tile::{TileDimensions, TileUtils};
use crate::model::tile_groups::size_signature;
use crate::model::tile_totals::elongated_by;
use crate::support::{int_decimal, nat_digits, push_i64_decimal, push_nat_digits, same_text};

verus! {

/// What a check of a set of panels found.
#[derive(Debug)]
pub struct ValidationResult {
    pub is_valid: bool,
    pub errors: Vec<String>,
    pub warnings: Vec<String>,
}

/// The texts of a list of strings.
pub open spec fn texts(v: Seq<String>) -> Seq<Seq<char>> {
    v.map_values(|s: String| s@)
}

/// The sides are positive and at most 100000.
pub open spec fn valid_sides(t: TileDimensions) -> bool {
    t.width > 0 && t.height > 0 && t.width <= 100000 && t.height <= 100000
}

/// The key by which repeated panels are found: size signature, `_`, material.
pub open spec fn duplicate_key(t: TileDimensions) -> Seq<char> {
    size_signature(t) + seq!['_'] + t.material@
}

/// The error for panel `i` with sides out of range.
pub open spec fn size_error(i: int, t: TileDimensions) -> Seq<char> {
    "Панель "@ + nat_digits(i as nat) + ": неверные размеры "@ + int_decimal(t.width as int) + seq!['x']
        + int_decimal(t.height as int)
}

/// The warnings about panel `i` itself: an empty material, then an extreme shape with
/// the ratio of its sides given as `ratio`.
pub open spec fn panel_warnings(i: int, t: TileDimensions, ratio: Seq<char>) -> Seq<Seq<char>> {
    (if t.material@.len() == 0 { seq!["Панель "@ + nat_digits(i as nat) + ": пустой материал"@] } else { Seq::empty() })
        + (if elongated_by(t, 10) {
            seq!["Панель "@ + nat_digits(i as nat) + ": экстремальные пропорции ("@ + ratio + ":1)"@]
        } else {
            Seq::empty()
        })
}

/// For a panel with sides of positive length, the warning about an extreme shape comes
/// exactly when either side is more than ten times the other, wide and tall panels alike,
/// so a panel and its turned copy get the same warnings.
pub proof fn lemma_extreme_shape_warning_either_way(i: int, t: TileDimensions, ratio: Seq<char>)
    requires
        t.width > 0,
        t.height > 0,
    ensures
        (t.width > 10 * t.height || t.height > 10 * t.width) ==> panel_warnings(i, t, ratio).last()
            == "Панель "@ + nat_digits(i as nat) + ": экстремальные пропорции ("@ + ratio + ":1)"@,
        !(t.width > 10 * t.height || t.height > 10 * t.width) ==> panel_warnings(i, t, ratio).len()
            == if t.material@.len() == 0 { 1int } else { 0int },
        panel_warnings(i, TileDimensions { width: t.height, height: t.width, ..t }, ratio) == panel_warnings(i, t, ratio),
{
    crate::model::tile_totals::lemma_elongated_either_way(t, 10);
}

/// The errors of the first `n` panels, in order.
pub open spec fn errors_upto(tiles: Seq<TileDimensions>, n: int) -> Seq<Seq<char>>
    decreases n,
{
    if n <= 0 {
        Seq::empty()
    } else {
        errors_upto(tiles, n - 1) + if valid_sides(tiles[n - 1]) { Seq::empty() } else { seq![size_error(n - 1, tiles[n - 1])] }
    }
}

/// The warnings about the first `n` panels themselves, in order.
pub open spec fn panel_warnings_upto(tiles: Seq<TileDimensions>, ratios: Seq<Seq<char>>, n: int) -> Seq<Seq<char>>
    decreases n,
{
    if n <= 0 {
        Seq::empty()
    } else {
        panel_warnings_upto(tiles, ratios, n - 1) + panel_warnings(n - 1, tiles[n - 1], ratios[n - 1])
    }
}

/// A panel before `i` has the key of panel `i`.
pub open spec fn seen_before(tiles: Seq<TileDimensions>, i: int) -> bool {
    exists|j: int| 0 <= j < i && duplicate_key(#[trigger] tiles[j]) == duplicate_key(tiles[i])
}

/// The warnings about repeated panels among the first `n`, in order.
pub open spec fn duplicate_warnings_upto(tiles: Seq<TileDimensions>, n: int) -> Seq<Seq<char>>
    decreases n,
{
    if n <= 0 {
        Seq::empty()
    } else {
        duplicate_warnings_upto(tiles, n - 1) + if seen_before(tiles, n - 1) {
            seq!["Панель "@ + nat_digits((n - 1) as nat) + ": дубликат "@ + duplicate_key(tiles[n - 1])]
        } else {
            Seq::empty()
        }
    }
}

/// There is no error exactly when every panel has its sides in range.
pub proof fn lemma_no_errors_iff_valid(tiles: Seq<TileDimensions>, n: int)
    requires
        0 <= n <= tiles.len(),
    ensures
        errors_upto(tiles, n).len() == 0 <==> forall|i: int| 0 <= i < n ==> valid_sides(#[trigger] tiles[i]),
    decreases n,
{
    if n > 0 {
        lemma_no_errors_iff_valid(tiles, n - 1);
    }
}

/// Appends a string to a list of strings.
fn push_text(v: &mut Vec<String>, s: String)
    ensures
        texts(final(v)@) == texts(old(v)@).push(s@),
{
    v.push(s);
    proof { assert(texts(v@) =~= texts(old(v)@).push(s@)); }
}

/// The key by which repeated panels are found.
fn duplicate_key_of(t: &TileDimensions) -> (s: String)
    ensures
        s@ == duplicate_key(*t),
{
    let mut s = t.get_size_signature();
    proof { reveal_strlit("_"); }
    s.append("_");
    s.append(t.material.as_str());
    s
}

/// `"Панель <i>"`.
fn panel_prefix(i: usize) -> (s: String)
    ensures
        s@ == "Панель "@ + nat_digits(i as nat),
{
    let mut s = String::new();
    s.append("Панель ");
    push_nat_digits(&mut s, i as u64);
    proof { assert(s@ =~= "Панель "@ + nat_digits(i as nat)); }
    s
}

/// Whether `key` is among `seen`.
fn contains_text(seen: &Vec<String>, key: &str) -> (b: bool)
    ensures
        b == texts(seen@).contains(key@),
{
    let mut i: usize = 0;
    while i < seen.len()
        invariant
            0 <= i <= seen@.len(),
            forall|k: int| 0 <= k < i ==> seen@[k]@ != key@,
        decreases seen@.len() - i,
    {
        if same_text(seen[i].as_str(), key) {
            proof { assert(texts(seen@)[i as int] == key@); }
            return true;
        }
        i = i + 1;
    }
    proof {
        if texts(seen@).contains(key@) {
            let k = choose|k: int| 0 <= k < texts(seen@).len() && texts(seen@)[k] == key@;
            assert(seen@[k]@ == key@);
        }
    }
    false
}

impl TileUtils {
    /// Checks a set of panels. Errors: for each panel with a side not in 1..=100000,
    /// `"Панель <i>: неверные размеры <w>x<h>"`. Warnings: for each panel in turn,
    /// `"Панель <i>: пустой материал"` for an empty material and
    /// `"Панель <i>: экстремальные пропорции (<ratio>:1)"` when one side is more than
    /// ten times the other, `ratio_texts[i]` giving the ratio of the longer side to the
    /// shorter as it is to be shown; then `"Панель <i>: дубликат <key>"` for each panel
    /// whose size signature and material an earlier panel has. Valid when there is no
    /// error.
    pub fn validate_tile_set(tiles: &[TileDimensions], ratio_texts: &[String]) -> (r: ValidationResult)
        requires
            ratio_texts@.len() == tiles@.len(),
        ensures
            texts(r.errors@) == errors_upto(tiles@, tiles@.len() as int),
            texts(r.warnings@) == panel_warnings_upto(tiles@, texts(ratio_texts@), tiles@.len() as int)
                + duplicate_warnings_upto(tiles@, tiles@.len() as int),
            r.is_valid == (r.errors@.len() == 0),
            r.is_valid == forall|i: int| 0 <= i < tiles@.len() ==> valid_sides(#[trigger] tiles@[i]),
    {
        let ghost ratios = texts(ratio_texts@);
        let mut errors: Vec<String> = Vec::new();
        let mut warnings: Vec<String> = Vec::new();
        let mut i: usize = 0;
        proof {
            assert(texts(errors@) =~= errors_upto(tiles@, 0));
            assert(texts(warnings@) =~= panel_warnings_upto(tiles@, ratios, 0));
        }
        while i < tiles.len()
            invariant
                0 <= i <= tiles@.len(),
                ratio_texts@.len() == tiles@.len(),
                ratios == texts(ratio_texts@),
                texts(errors@) == errors_upto(tiles@, i as int),
                texts(warnings@) == panel_warnings_upto(tiles@, ratios, i as int),
            decreases tiles@.len() - i,
        {
            let tile = &tiles[i];
            let ghost e0 = texts(errors@);
            let ghost w0 = texts(warnings@);
            if !tile.is_valid_dimensions() {
                let mut msg = panel_prefix(i);
                msg.append(": неверные размеры ");
                push_i64_decimal(&mut msg, tile.width as i64);
                proof { reveal_strlit("x"); }
                msg.append("x");
                push_i64_decimal(&mut msg, tile.height as i64);
                proof { assert(msg@ =~= size_error(i as int, tiles@[i as int])); }
                push_text(&mut errors, msg);
            }
            proof { assert(texts(errors@) =~= errors_upto(tiles@, i + 1)); }
            if tile.material.unicode_len() == 0 {
                let mut msg = panel_prefix(i);
                msg.append(": пустой материал");
                push_text(&mut warnings, msg);
            }
            let ghost w1 = texts(warnings@);
            let w = tile.width as i64;
            let h = tile.height as i64;
            let elongated = if h == 0 {
                true
            } else if h > 0 {
                w > 10 * h || 10 * w < h
            } else {
                w < 10 * h || 10 * w > h
            };
            if elongated {
                let mut msg = panel_prefix(i);
                msg.append(": экстремальные пропорции (");
                msg.append(ratio_texts[i].as_str());
                msg.append(":1)");
                push_text(&mut warnings, msg);
            }
            proof {
                assert(ratios[i as int] == ratio_texts@[i as int]@);
                assert(texts(warnings@) =~= w0 + panel_warnings(i as int, tiles@[i as int], ratios[i as int]));
            }
            i = i + 1;
        }
        let ghost first_part = texts(warnings@);
        let mut seen: Vec<String> = Vec::new();
        let mut j: usize = 0;
        proof { assert(first_part + duplicate_warnings_upto(tiles@, 0) =~= first_part); }
        while j < tiles.len()
            invariant
                0 <= j <= tiles@.len(),
                texts(warnings@) == first_part + duplicate_warnings_upto(tiles@, j as int),
                texts(seen@) == tiles@.take(j as int).map_values(|t: TileDimensions| duplicate_key(t)),
            decreases tiles@.len() - j,
        {
            let key = duplicate_key_of(&tiles[j]);
            let ghost before = texts(warnings@);
            let repeated = contains_text(&seen, key.as_str());
            proof {
                let keys = tiles@.take(j as int).map_values(|t: TileDimensions| duplicate_key(t));
                if repeated {
                    let k = choose|k: int| 0 <= k < keys.len() && keys[k] == key@;
                    assert(duplicate_key(tiles@[k]) == duplicate_key(tiles@[j as int]));
                    assert(seen_before(tiles@, j as int));
                } else {
                    assert forall|k: int| 0 <= k < j implies duplicate_key(#[trigger] tiles@[k]) != duplicate_key(tiles@[j as int]) by {
                        assert(keys[k] == duplicate_key(tiles@[k]));
                    }
                }
            }
            if repeated {
                let mut msg = panel_prefix(j);
                msg.append(": дубликат ");
                msg.append(key.as_str());
                push_text(&mut warnings, msg);
            }
            proof {
                assert(texts(warnings@) =~= first_part + duplicate_warnings_upto(tiles@, j + 1));
            }
            push_text(&mut seen, key);
            proof {
                assert(texts(seen@) =~= tiles@.take(j + 1).map_values(|t: TileDimensions| duplicate_key(t)));
            }
            j = j + 1;
        }
        let is_valid = errors.len() == 0;
        proof {
            lemma_no_errors_iff_valid(tiles@, tiles@.len() as int);
            assert(texts(errors@).len() == errors@.len());
        }
        ValidationResult { is_valid, errors, warnings }
    }
}

} // verus!
