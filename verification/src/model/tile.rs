//! Rectangles and panel dimensions.

use vstd::prelude::*;
use vstd::string::*;
use crate::support::{int_decimal, bool_text, push_i64_decimal, push_bool_text};

verus! {

/// Material name given to panels created without one.
pub const DEFAULT_MATERIAL: &'static str = "DEFAULT_MATERIAL";

/// An axis-aligned rectangle given by its corner coordinates.
#[derive(Debug, Clone, Copy, PartialEq, Eq, Structural)]
pub struct Tile {
    pub x1: i32,
    pub x2: i32,
    pub y1: i32,
    pub y2: i32,
}

impl Tile {
    pub open spec fn width_spec(self) -> int {
        self.x2 - self.x1
    }

    pub open spec fn height_spec(self) -> int {
        self.y2 - self.y1
    }

    pub open spec fn area_spec(self) -> int {
        self.width_spec() * self.height_spec()
    }

    /// Width and height are representable as `i32` (the subtractions do not overflow).
    pub open spec fn sides_fit(self) -> bool {
        i32::MIN <= self.width_spec() <= i32::MAX && i32::MIN <= self.height_spec() <= i32::MAX
    }

    /// A rectangle spanning `(0, 0)`-`(width, height)`.
    pub fn from_dimensions(dimensions: &TileDimensions) -> (t: Tile)
        ensures
            t == (Tile { x1: 0, x2: dimensions.width, y1: 0, y2: dimensions.height }),
    {
        Tile { x1: 0, x2: dimensions.width, y1: 0, y2: dimensions.height }
    }

    /// A rectangle with the given corner coordinates.
    pub fn new(x1: i32, x2: i32, y1: i32, y2: i32) -> (t: Tile)
        ensures
            t == (Tile { x1, x2, y1, y2 }),
    {
        Tile { x1, x2, y1, y2 }
    }

    /// `x2 - x1`.
    pub fn get_width(&self) -> (w: i32)
        requires
            self.sides_fit(),
        ensures
            w == self.width_spec(),
    {
        self.x2 - self.x1
    }

    /// `y2 - y1`.
    pub fn get_height(&self) -> (h: i32)
        requires
            self.sides_fit(),
        ensures
            h == self.height_spec(),
    {
        self.y2 - self.y1
    }

    /// Width times height.
    pub fn get_area(&self) -> (a: i64)
        requires
            self.sides_fit(),
        ensures
            a == self.area_spec(),
    {
        let w = self.get_width() as i64;
        let h = self.get_height() as i64;
        proof { lemma_i32_product_fits_i64(w as int, h as int); }
        w * h
    }

    /// The larger of width and height.
    pub fn get_max_side(&self) -> (m: i32)
        requires
            self.sides_fit(),
        ensures
            m == if self.width_spec() >= self.height_spec() { self.width_spec() } else { self.height_spec() },
    {
        let w = self.get_width();
        let h = self.get_height();
        if w >= h { w } else { h }
    }

    /// Wider than high.
    pub fn is_horizontal(&self) -> (b: bool)
        requires
            self.sides_fit(),
        ensures
            b == (self.width_spec() > self.height_spec()),
    {
        self.get_width() > self.get_height()
    }

    /// Higher than wide.
    pub fn is_vertical(&self) -> (b: bool)
        requires
            self.sides_fit(),
        ensures
            b == (self.height_spec() > self.width_spec()),
    {
        self.get_height() > self.get_width()
    }
}

/// The product of two `i32` values fits in an `i64`.
pub proof fn lemma_i32_product_fits_i64(a: int, b: int)
    requires
        i32::MIN <= a <= i32::MAX,
        i32::MIN <= b <= i32::MAX,
    ensures
        i64::MIN <= a * b <= i64::MAX,
        -0x4000_0000_0000_0000 <= a * b <= 0x4000_0000_0000_0000,
{
    assert(-0x8000_0000 <= a <= 0x7fff_ffff);
    assert(a * b <= 0x4000_0000_0000_0000) by (nonlinear_arith)
        requires -0x8000_0000 <= a <= 0x7fff_ffff, -0x8000_0000 <= b <= 0x7fff_ffff;
    assert(a * b >= -0x4000_0000_0000_0000) by (nonlinear_arith)
        requires -0x8000_0000 <= a <= 0x7fff_ffff, -0x8000_0000 <= b <= 0x7fff_ffff;
}

/// Dimensions of a panel together with its material and orientation.
#[derive(Debug, Clone)]
pub struct TileDimensions {
    pub id: i32,
    pub width: i32,
    pub height: i32,
    pub material: String,
    pub orientation: i32,
    pub label: Option<String>,
    pub is_rotated: bool,
}

/// A copy of an optional string.
pub fn copy_opt_string(s: &Option<String>) -> (r: Option<String>)
    ensures
        r == *s,
{
    match s {
        Some(x) => Some(x.clone()),
        None => None,
    }
}

/// Whether a panel of `w` x `h` fits into a space of `cw` x `ch`, as is or turned by a
/// quarter (turning is only tried for non-square panels).
pub open spec fn fits_spec(cw: int, ch: int, w: int, h: int) -> bool {
    (cw >= w && ch >= h) || (w != h && cw >= h && ch >= w)
}

impl TileDimensions {
    pub open spec fn area_spec(self) -> int {
        self.width * self.height
    }

    /// Panel dimensions with all fields given; the panel is not rotated.
    pub fn new(
        id: i32,
        width: i32,
        height: i32,
        material: String,
        orientation: i32,
        label: Option<String>,
    ) -> (d: Self)
        ensures
            d == (TileDimensions { id, width, height, material, orientation, label, is_rotated: false }),
    {
        TileDimensions { id, width, height, material, orientation, label, is_rotated: false }
    }

    /// A field-by-field copy.
    pub fn duplicate(&self) -> (d: Self)
        ensures
            d == *self,
    {
        TileDimensions {
            id: self.id,
            width: self.width,
            height: self.height,
            material: self.material.clone(),
            orientation: self.orientation,
            label: copy_opt_string(&self.label),
            is_rotated: self.is_rotated,
        }
    }

    /// Whether `other` fits into this panel, as is or (if not square) turned by a quarter.
    pub fn fits(&self, other: &TileDimensions) -> (b: bool)
        ensures
            b == fits_spec(self.width as int, self.height as int, other.width as int, other.height as int),
    {
        (self.width >= other.width && self.height >= other.height)
            || (!other.is_square() && self.width >= other.height && self.height >= other.width)
    }

    /// The same panel turned by a quarter: width and height swap, the rotation flag
    /// flips, and orientation 0 becomes 1 while any other orientation becomes 0.
    pub fn rotate90(&self) -> (r: Self)
        ensures
            r == (TileDimensions {
                width: self.height,
                height: self.width,
                is_rotated: !self.is_rotated,
                orientation: if self.orientation == 0 { 1i32 } else { 0i32 },
                ..*self
            }),
    {
        let mut rotated = self.duplicate();
        rotated.width = self.height;
        rotated.height = self.width;
        rotated.is_rotated = !self.is_rotated;
        rotated.orientation = if self.orientation == 0 { 1 } else { 0 };
        rotated
    }

    /// Panel dimensions with all fields given, the rotation flag included.
    pub fn new_with_rotation(
        id: i32,
        width: i32,
        height: i32,
        material: String,
        orientation: i32,
        label: Option<String>,
        is_rotated: bool,
    ) -> (d: Self)
        ensures
            d == (TileDimensions { id, width, height, material, orientation, label, is_rotated }),
    {
        TileDimensions { id, width, height, material, orientation, label, is_rotated }
    }

    /// Panel dimensions with only width and height: id -1, the default material,
    /// orientation 0, no label, not rotated.
    pub fn simple(width: i32, height: i32) -> (d: Self)
        ensures
            d.id == -1,
            d.width == width,
            d.height == height,
            d.material@ == DEFAULT_MATERIAL@,
            d.orientation == 0,
            d.label is None,
            !d.is_rotated,
    {
        TileDimensions {
            id: -1,
            width,
            height,
            material: String::from_str(DEFAULT_MATERIAL),
            orientation: 0,
            label: None,
            is_rotated: false,
        }
    }

    /// The larger of width and height.
    pub fn get_max_dimension(&self) -> (m: i32)
        ensures
            m == if self.width >= self.height { self.width } else { self.height },
    {
        if self.width >= self.height { self.width } else { self.height }
    }

    /// The smaller of width and height.
    pub fn get_min_dimension(&self) -> (m: i32)
        ensures
            m == if self.width <= self.height { self.width } else { self.height },
    {
        if self.width <= self.height { self.width } else { self.height }
    }

    /// Width times height.
    pub fn get_area(&self) -> (a: i64)
        ensures
            a == self.area_spec(),
    {
        proof { lemma_i32_product_fits_i64(self.width as int, self.height as int); }
        (self.width as i64) * (self.height as i64)
    }

    /// Width equals height.
    pub fn is_square(&self) -> (b: bool)
        ensures
            b == (self.width == self.height),
    {
        self.width == self.height
    }

    /// Wider than high.
    pub fn is_horizontal(&self) -> (b: bool)
        ensures
            b == (self.width > self.height),
    {
        self.width > self.height
    }

    /// Same width and height as `other`, possibly swapped.
    pub fn has_same_dimensions(&self, other: &TileDimensions) -> (b: bool)
        ensures
            b == ((self.width == other.width && self.height == other.height)
                || (self.width == other.height && self.height == other.width)),
    {
        (self.width == other.width && self.height == other.height)
            || (self.width == other.height && self.height == other.width)
    }

    /// `"<width>x<height>"`.
    pub fn dimensions_to_string(&self) -> (s: String)
        ensures
            s@ == int_decimal(self.width as int) + seq!['x'] + int_decimal(self.height as int),
    {
        let mut s = String::new();
        push_i64_decimal(&mut s, self.width as i64);
        proof { reveal_strlit("x"); }
        s.append("x");
        push_i64_decimal(&mut s, self.height as i64);
        proof {
            assert(Seq::<char>::empty() + int_decimal(self.width as int) == int_decimal(self.width as int));
        }
        s
    }

    /// `31 * (31 + width) + height` in wrapping 32-bit arithmetic.
    pub fn dimensions_based_hash_code(&self) -> (h: i32)
        ensures
            h == (961 + 31 * (self.width as int) + (self.height as int)) as i32,
    {
        let v: i64 = 961 + 31 * (self.width as i64) + (self.height as i64);
        #[verifier::truncate]
        (v as i32)
    }

    /// `2 * (width + height)`.
    pub fn get_perimeter(&self) -> (p: i32)
        requires
            i32::MIN <= 2 * (self.width + self.height) <= i32::MAX,
        ensures
            p == 2 * (self.width + self.height),
    {
        2 * (self.width + self.height)
    }

    /// Both sides in `1..=100000`.
    pub fn is_valid_dimensions(&self) -> (b: bool)
        ensures
            b == (self.width > 0 && self.height > 0 && self.width <= 100000 && self.height <= 100000),
    {
        self.width > 0 && self.height > 0 && self.width <= 100000 && self.height <= 100000
    }

    /// A copy with new width and height.
    pub fn with_dimensions(&self, width: i32, height: i32) -> (d: Self)
        ensures
            d == (TileDimensions { width, height, ..*self }),
    {
        let mut d = self.duplicate();
        d.width = width;
        d.height = height;
        d
    }

    /// A copy with a new material.
    pub fn with_material(&self, material: String) -> (d: Self)
        ensures
            d == (TileDimensions { material, ..*self }),
    {
        let mut d = self.duplicate();
        d.material = material;
        d
    }

    /// A copy with a new orientation.
    pub fn with_orientation(&self, orientation: i32) -> (d: Self)
        ensures
            d == (TileDimensions { orientation, ..*self }),
    {
        let mut d = self.duplicate();
        d.orientation = orientation;
        d
    }

    /// Same material as `other`.
    pub fn is_material_compatible(&self, other: &TileDimensions) -> (b: bool)
        ensures
            b == (self.material@ == other.material@),
    {
        self.material == other.material
    }

    /// `"<min>x<max>"` of the two sides.
    pub fn get_size_signature(&self) -> (s: String)
        ensures
            s@ == int_decimal(if self.width <= self.height { self.width as int } else { self.height as int })
                + seq!['x'] + int_decimal(if self.width >= self.height { self.width as int } else { self.height as int }),
    {
        let mut s = String::new();
        push_i64_decimal(&mut s, self.get_min_dimension() as i64);
        proof { reveal_strlit("x"); }
        s.append("x");
        push_i64_decimal(&mut s, self.get_max_dimension() as i64);
        proof {
            let a = int_decimal(if self.width <= self.height { self.width as int } else { self.height as int });
            assert(Seq::<char>::empty() + a == a);
        }
        s
    }

    /// `"<min>x<max>_<material>"`.
    pub fn get_grouping_signature(&self) -> (s: String)
        ensures
            s@ == int_decimal(if self.width <= self.height { self.width as int } else { self.height as int })
                + seq!['x'] + int_decimal(if self.width >= self.height { self.width as int } else { self.height as int })
                + seq!['_'] + self.material@,
    {
        let mut s = self.get_size_signature();
        proof { reveal_strlit("_"); }
        s.append("_");
        s.append(self.material.as_str());
        s
    }

    /// `"<w>x<h> [<material>] orient:<orientation> rotated:<true|false>"`.
    pub fn full_description(&self) -> (s: String)
        ensures
            s@ == int_decimal(self.width as int) + seq!['x'] + int_decimal(self.height as int)
                + seq![' ', '['] + self.material@ + seq![']', ' ', 'o', 'r', 'i', 'e', 'n', 't', ':']
                + int_decimal(self.orientation as int)
                + seq![' ', 'r', 'o', 't', 'a', 't', 'e', 'd', ':'] + bool_text(self.is_rotated),
    {
        let mut s = self.dimensions_to_string();
        proof { reveal_strlit(" ["); reveal_strlit("] orient:"); reveal_strlit(" rotated:"); }
        s.append(" [");
        s.append(self.material.as_str());
        s.append("] orient:");
        push_i64_decimal(&mut s, self.orientation as i64);
        s.append(" rotated:");
        push_bool_text(&mut s, self.is_rotated);
        s
    }

    /// Rotation is possible unless the panel is square.
    pub fn can_rotate(&self) -> (b: bool)
        ensures
            b == (self.width != self.height),
    {
        !self.is_square()
    }

    /// The orientation in which the panel is best placed into a container of
    /// `container_width` x `container_height`: unchanged if square; otherwise the
    /// orientation that fits, and when both fit the one with the smaller waste
    /// (unchanged on a tie); unchanged when neither fits.
    pub fn get_optimal_orientation(&self, container_width: i32, container_height: i32) -> (d: Self)
        requires
            i32::MIN <= container_width * container_height <= i32::MAX,
            i32::MIN <= self.width * self.height <= i32::MAX,
            i32::MIN <= container_width * container_height - self.width * self.height <= i32::MAX,
        ensures
            ({
                let fits_normal = self.width <= container_width && self.height <= container_height;
                let fits_rotated = self.height <= container_width && self.width <= container_height;
                if self.width == self.height || !fits_rotated || (fits_normal && fits_rotated) {
                    d == *self
                } else {
                    d == self.rotate90_spec()
                }
            }),
    {
        if self.is_square() {
            return self.duplicate();
        }
        let fits_normal = self.width <= container_width && self.height <= container_height;
        let fits_rotated = self.height <= container_width && self.width <= container_height;
        if fits_normal && !fits_rotated {
            self.duplicate()
        } else if !fits_normal && fits_rotated {
            self.rotate90()
        } else if fits_normal && fits_rotated {
            let waste_normal = (container_width * container_height) - (self.width * self.height);
            proof {
                assert(self.height * self.width == self.width * self.height) by (nonlinear_arith);
            }
            let waste_rotated = (container_width * container_height) - (self.height * self.width);
            if waste_normal <= waste_rotated {
                self.duplicate()
            } else {
                self.rotate90()
            }
        } else {
            self.duplicate()
        }
    }

    /// The value that `rotate90` returns.
    pub open spec fn rotate90_spec(self) -> Self {
        TileDimensions {
            width: self.height,
            height: self.width,
            is_rotated: !self.is_rotated,
            orientation: if self.orientation == 0 { 1i32 } else { 0i32 },
            ..self
        }
    }
}

/// Helpers over sets of panels.
pub struct TileUtils;

/// Summary of how many panels can be cut from the given containers.
#[derive(Debug, Clone, Copy)]
pub struct CompatibilityReport {
    pub total_tiles: usize,
    pub compatible_tiles: usize,
    pub material_mismatches: usize,
    pub size_mismatches: usize,
    pub no_container_found: usize,
}

/// Some container of the same material fits the panel.
pub open spec fn has_compatible_container(t: TileDimensions, containers: Seq<TileDimensions>) -> bool {
    exists|j: int| 0 <= j < containers.len()
        && #[trigger] containers[j].material@ == t.material@
        && fits_spec(containers[j].width as int, containers[j].height as int, t.width as int, t.height as int)
}

/// Some container has the panel's material.
pub open spec fn has_material_container(t: TileDimensions, containers: Seq<TileDimensions>) -> bool {
    exists|j: int| 0 <= j < containers.len() && #[trigger] containers[j].material@ == t.material@
}

/// Number of panels among the first `n` that some container of the same material fits.
pub open spec fn count_compatible(tiles: Seq<TileDimensions>, containers: Seq<TileDimensions>, n: int) -> nat
    decreases n,
{
    if n <= 0 {
        0
    } else {
        count_compatible(tiles, containers, n - 1)
            + if has_compatible_container(tiles[n - 1], containers) { 1nat } else { 0nat }
    }
}

/// Number of panels among the first `n` whose material no container has.
pub open spec fn count_material_mismatch(tiles: Seq<TileDimensions>, containers: Seq<TileDimensions>, n: int) -> nat
    decreases n,
{
    if n <= 0 {
        0
    } else {
        count_material_mismatch(tiles, containers, n - 1)
            + if !has_material_container(tiles[n - 1], containers) { 1nat } else { 0nat }
    }
}

/// Number of panels among the first `n` whose material some container has but which no
/// container of that material fits.
pub open spec fn count_size_mismatch(tiles: Seq<TileDimensions>, containers: Seq<TileDimensions>, n: int) -> nat
    decreases n,
{
    if n <= 0 {
        0
    } else {
        count_size_mismatch(tiles, containers, n - 1)
            + if has_material_container(tiles[n - 1], containers) && !has_compatible_container(tiles[n - 1], containers) { 1nat } else { 0nat }
    }
}

/// Index of the candidate with the least waste (area minus the target's area) among
/// those that fit the target; the first such candidate on ties. A waste of `i64::MAX`
/// counts as no fit.
pub open spec fn best_fit_index(target: TileDimensions, candidates: Seq<TileDimensions>, n: int) -> Option<int>
    decreases n,
{
    if n <= 0 {
        None
    } else {
        let prev = best_fit_index(target, candidates, n - 1);
        let c = candidates[n - 1];
        if fits_spec(c.width as int, c.height as int, target.width as int, target.height as int) {
            match prev {
                None => if c.area_spec() - target.area_spec() < i64::MAX { Some(n - 1) } else { None },
                Some(p) => if c.area_spec() - target.area_spec() < candidates[p].area_spec() - target.area_spec() {
                    Some(n - 1)
                } else {
                    Some(p)
                },
            }
        } else {
            prev
        }
    }
}

impl TileUtils {
    /// The candidate that fits `target` with the least waste, with its index.
    pub fn find_best_fit(target: &TileDimensions, candidates: &[TileDimensions]) -> (r: Option<(usize, TileDimensions)>)
        requires
            forall|k: int| 0 <= k < candidates@.len() ==>
                i64::MIN <= #[trigger] candidates@[k].area_spec() - target.area_spec() <= i64::MAX,
        ensures
            match best_fit_index(*target, candidates@, candidates@.len() as int) {
                None => r is None,
                Some(i) => r == Some((i as usize, candidates@[i])),
            },
    {
        let mut best: Option<(usize, TileDimensions)> = None;
        let mut best_waste: i64 = i64::MAX;
        let mut i: usize = 0;
        while i < candidates.len()
            invariant
                0 <= i <= candidates@.len(),
                forall|k: int| 0 <= k < candidates@.len() ==>
                    i64::MIN <= #[trigger] candidates@[k].area_spec() - target.area_spec() <= i64::MAX,
                match best_fit_index(*target, candidates@, i as int) {
                    None => best is None && best_waste == i64::MAX,
                    Some(p) => best == Some((p as usize, candidates@[p]))
                        && 0 <= p < i
                        && best_waste == candidates@[p].area_spec() - target.area_spec(),
                },
            decreases candidates@.len() - i,
        {
            let candidate = &candidates[i];
            assert(candidates@[i as int].area_spec() - target.area_spec() <= i64::MAX);
            if candidate.fits(target) {
                let waste = candidate.get_area() - target.get_area();
                if waste < best_waste {
                    best_waste = waste;
                    best = Some((i, candidate.duplicate()));
                }
            }
            proof {
                assert(candidates@.subrange(0, candidates@.len() as int) == candidates@);
            }
            i = i + 1;
        }
        best
    }

    /// Counts, for each panel, whether a container of the same material fits it
    /// (compatible), whether no container has its material (material mismatch), or
    /// otherwise (size mismatch).
    pub fn check_compatibility(tiles: &[TileDimensions], containers: &[TileDimensions]) -> (r: CompatibilityReport)
        ensures
            r.total_tiles == tiles@.len(),
            r.compatible_tiles == count_compatible(tiles@, containers@, tiles@.len() as int),
            r.material_mismatches == count_material_mismatch(tiles@, containers@, tiles@.len() as int),
            r.size_mismatches == count_size_mismatch(tiles@, containers@, tiles@.len() as int),
            r.no_container_found == 0,
    {
        let mut compatible_tiles: usize = 0;
        let mut material_mismatches: usize = 0;
        let mut size_mismatches: usize = 0;
        let mut i: usize = 0;
        while i < tiles.len()
            invariant
                0 <= i <= tiles@.len(),
                compatible_tiles == count_compatible(tiles@, containers@, i as int),
                material_mismatches == count_material_mismatch(tiles@, containers@, i as int),
                size_mismatches == count_size_mismatch(tiles@, containers@, i as int),
                compatible_tiles + material_mismatches + size_mismatches == i,
            decreases tiles@.len() - i,
        {
            let tile = &tiles[i];
            let mut found_compatible = false;
            let mut found_material_match = false;
            let mut j: usize = 0;
            while j < containers.len() && !found_compatible
                invariant
                    0 <= j <= containers@.len(),
                    *tile == tiles@[i as int],
                    found_compatible ==> has_compatible_container(*tile, containers@),
                    found_compatible ==> found_material_match,
                    !found_compatible ==> forall|k: int| 0 <= k < j ==> !(#[trigger] containers@[k].material@ == tile.material@
                        && fits_spec(containers@[k].width as int, containers@[k].height as int, tile.width as int, tile.height as int)),
                    !found_compatible ==> found_material_match == exists|k: int| 0 <= k < j && #[trigger] containers@[k].material@ == tile.material@,
                    found_material_match ==> has_material_container(*tile, containers@),
                decreases containers@.len() - j,
            {
                let container = &containers[j];
                if container.is_material_compatible(tile) {
                    found_material_match = true;
                    if container.fits(tile) {
                        found_compatible = true;
                    }
                }
                j = j + 1;
            }
            proof {
                if !found_compatible {
                    assert(j == containers@.len());
                    assert(!has_compatible_container(*tile, containers@));
                    assert(found_material_match == has_material_container(*tile, containers@));
                }
            }
            if found_compatible {
                compatible_tiles = compatible_tiles + 1;
            } else if !found_material_match {
                material_mismatches = material_mismatches + 1;
            } else {
                size_mismatches = size_mismatches + 1;
            }
            i = i + 1;
        }
        CompatibilityReport {
            total_tiles: tiles.len(),
            compatible_tiles,
            material_mismatches,
            size_mismatches,
            no_container_found: 0,
        }
    }
}

} // verus!
