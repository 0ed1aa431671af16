//! The coloring strategies: the per-column reduction policies that turn the
//! discretized points of a tile into pixel colors.

use vstd::prelude::*;
use crate::color::{Color, white_spec, transparent_spec};
use crate::colormap::{Colormap, ColormapArgument, colormap_value_spec, purplish, purplish_spec};
use crate::point_data::{
    AttributeData, PointsBatch, Point3u, lookup_attribute, floor_div, FIXED_ONE,
};
use crate::saturation::{
    xray_gray, xray_gray_spec, xray_gray_thresholds, xray_gray_thresholds_vec, intensity_gray,
    intensity_gray_spec, log2_frac_table, log2_frac_table_vec, isqrt,
};
use crate::tile::lemma_rowmajor_bound;

verus! {

/// Which fixed color fills the background of finished leaf tiles.
#[derive(Clone, Copy, Debug, PartialEq, Eq, Structural)]
pub enum TileBackgroundColorArgument {
    White,
    Transparent,
}

impl TileBackgroundColorArgument {
    /// The RGBA color this argument stands for.
    pub fn to_color(&self) -> (c: Color)
        ensures
            c == match *self {
                TileBackgroundColorArgument::White => white_spec(),
                TileBackgroundColorArgument::Transparent => transparent_spec(),
            },
    {
        match self {
            TileBackgroundColorArgument::White => crate::color::white(),
            TileBackgroundColorArgument::Transparent => crate::color::transparent(),
        }
    }
}

/// Partitions the points of a column by an auxiliary attribute: each point
/// lands in the bin numbered by its value divided by `bin_size`, rounded
/// toward negative infinity.  `bin_size` is in `FIXED_ONE` units.
#[derive(Clone, Debug)]
pub struct Binning {
    pub attribute_name: String,
    pub bin_size: i64,
}

/// The attribute value of point `i` scaled to `FIXED_ONE` units; a color
/// triple has no scalar value and scales to zero.
pub open spec fn scaled_attr_value(d: AttributeData, i: int) -> int {
    match d {
        AttributeData::U8(v) => (v@[i] as int) * (FIXED_ONE as int),
        AttributeData::I64(v) => (v@[i] as int) * (FIXED_ONE as int),
        AttributeData::U64(v) => (v@[i] as int) * (FIXED_ONE as int),
        AttributeData::Fixed(v) => v@[i] as int,
        AttributeData::U8Vec3(_) => 0,
    }
}

/// Saturates an integer to the 64-bit signed range, the way a float cast
/// would.
pub open spec fn sat_i64(v: int) -> i64 {
    if v < i64::MIN {
        i64::MIN
    } else if v > i64::MAX {
        i64::MAX
    } else {
        v as i64
    }
}

/// The bin key of point `i`: its scaled value floor-divided by the bin size.
pub open spec fn bin_key_spec(d: AttributeData, i: int, bin_size: int) -> i64 {
    sat_i64(scaled_attr_value(d, i) / bin_size)
}

/// The bin keys of a whole batch under an optional binning: without one,
/// every point shares bin 0.
pub open spec fn bins_spec(
    binning: Option<Binning>,
    attrs: Seq<(String, AttributeData)>,
    n: int,
) -> Seq<i64> {
    match binning {
        Option::None => Seq::new(n as nat, |i: int| 0i64),
        Option::Some(b) => {
            let d = lookup_attribute(attrs, b.attribute_name@).unwrap();
            Seq::new(n as nat, |i: int| bin_key_spec(d, i, b.bin_size as int))
        },
    }
}

/// Whether an attribute array is a one-dimensional scalar.
pub open spec fn is_scalar_attr(d: AttributeData) -> bool {
    !(d is U8Vec3)
}

/// Scales an attribute value to `FIXED_ONE` units.
fn scale_to_fixed(v: i128) -> (r: i128)
    requires
        -0x10000000000000000 <= v <= 0x10000000000000000,
    ensures
        r == v * (FIXED_ONE as int),
{
    proof {
        assert(-0x100000000000000000000 <= v * 65536 <= 0x100000000000000000000)
            by (nonlinear_arith)
            requires
                -0x10000000000000000 <= v <= 0x10000000000000000,
        ;
    }
    v * (FIXED_ONE as i128)
}

/// Computes the bin key of one scaled value.
fn bin_key_exec(scaled: i128, bin_size: i64) -> (r: i64)
    requires
        1 <= bin_size,
        -0x40000000000000000000000000000000 <= scaled <= 0x40000000000000000000000000000000,
    ensures
        r == sat_i64(scaled as int / bin_size as int),
{
    let q = floor_div(scaled, bin_size as i128);
    proof {
        vstd::arithmetic::div_mod::lemma_div_is_ordered(
            -0x40000000000000000000000000000000,
            scaled as int,
            bin_size as int,
        );
        vstd::arithmetic::div_mod::lemma_div_is_ordered(
            scaled as int,
            0x40000000000000000000000000000000,
            bin_size as int,
        );
    }
    if q < i64::MIN as i128 {
        i64::MIN
    } else if q > i64::MAX as i128 {
        i64::MAX
    } else {
        q as i64
    }
}

/// The bin keys of every point of a batch.
pub fn bins_for_batch(binning: &Option<Binning>, points_batch: &PointsBatch) -> (r: Vec<i64>)
    requires
        points_batch.wf(),
        match binning {
            Option::Some(b) => 1 <= b.bin_size && {
                let d = lookup_attribute(points_batch.attributes@, b.attribute_name@);
                d is Some && is_scalar_attr(d.unwrap())
            },
            Option::None => true,
        },
    ensures
        r@.len() == points_batch.position@.len(),
        r@ == bins_spec(*binning, points_batch.attributes@, points_batch.position@.len() as int),
{
    let n = points_batch.position.len();
    let mut r: Vec<i64> = Vec::new();
    match binning {
        Option::None => {
            let mut i: usize = 0;
            while i < n
                invariant
                    0 <= i <= n,
                    r@.len() == i,
                    forall|j: int| 0 <= j < i ==> r@[j] == 0i64,
                decreases n - i,
            {
                r.push(0);
                i = i + 1;
            }
            proof {
                assert(r@ =~= bins_spec(
                    Option::None,
                    points_batch.attributes@,
                    points_batch.position@.len() as int,
                ));
            }
        },
        Option::Some(b) => {
            let d = points_batch.get_attribute(&b.attribute_name).unwrap();
            let ghost dg = *d;
            proof {
                crate::point_data::lemma_lookup_is_element(
                    points_batch.attributes@,
                    b.attribute_name@,
                );
            }
            let mut i: usize = 0;
            while i < n
                invariant
                    0 <= i <= n,
                    n == points_batch.position@.len(),
                    n == dg.len_spec(),
                    d == dg,
                    1 <= b.bin_size,
                    is_scalar_attr(dg),
                    r@.len() == i,
                    forall|j: int|
                        0 <= j < i ==> r@[j] == bin_key_spec(dg, j, b.bin_size as int),
                decreases n - i,
            {
                let scaled: i128 = match d {
                    AttributeData::U8(v) => scale_to_fixed(v[i] as i128),
                    AttributeData::I64(v) => scale_to_fixed(v[i] as i128),
                    AttributeData::U64(v) => scale_to_fixed(v[i] as i128),
                    AttributeData::Fixed(v) => v[i] as i128,
                    AttributeData::U8Vec3(_) => 0,
                };
                proof {
                    assert(scaled == scaled_attr_value(dg, i as int));
                    assert(-0x40000000000000000000000000000000 <= scaled
                        <= 0x40000000000000000000000000000000);
                }
                r.push(bin_key_exec(scaled, b.bin_size));
                i = i + 1;
            }
            proof {
                assert(r@ =~= bins_spec(
                    Option::Some(*b),
                    points_batch.attributes@,
                    points_batch.position@.len() as int,
                ));
            }
        },
    }
    r
}

/// The grid dimensions and cell lookup shared by every strategy: a column
/// `(x, y)` of a `width x height` tile maps to the row-major cell index.
pub open spec fn cell_index(w: int, x: int, y: int) -> int {
    y * w + x
}

// ------------------------------------------------------------------
// X-ray strategy
// ------------------------------------------------------------------

/// One discretized point absorbed into the z-bucket sets: an in-range point
/// adds its z-bucket to its column unless the column already holds it.
pub open spec fn xray_step(cells: Seq<Seq<u32>>, w: int, h: int, p: Point3u) -> Seq<Seq<u32>> {
    if p.x < w && p.y < h {
        let idx = cell_index(w, p.x as int, p.y as int);
        if cells[idx].contains(p.z) {
            cells
        } else {
            cells.update(idx, cells[idx].push(p.z))
        }
    } else {
        cells
    }
}

/// The z-bucket sets after absorbing the points of `locs` from index `i` on.
pub open spec fn xray_ingest(
    cells: Seq<Seq<u32>>,
    w: int,
    h: int,
    locs: Seq<Point3u>,
    i: int,
) -> Seq<Seq<u32>>
    decreases locs.len() - i,
{
    if i < 0 || i >= locs.len() {
        cells
    } else {
        xray_ingest(xray_step(cells, w, h, locs[i]), w, h, locs, i + 1)
    }
}

/// The X-ray strategy: it counts, per pixel column, the distinct z-buckets
/// that contain a point, and darkens the pixel logarithmically with that
/// count.
pub struct XRayColoringStrategy {
    pub width: u32,
    pub height: u32,
    pub z_buckets: Vec<Vec<u32>>,
    pub thresholds: Vec<u32>,
}

impl XRayColoringStrategy {
    /// Each column holds each z-bucket at most once.
    pub open spec fn wf(self) -> bool {
        &&& self.z_buckets@.len() == (self.width as int) * (self.height as int)
        &&& (forall|c: int, a: int, b: int|
            0 <= c < self.z_buckets@.len() && 0 <= a < b < self.z_buckets@[c]@.len()
                ==> self.z_buckets@[c]@[a] != self.z_buckets@[c]@[b])
        &&& self.thresholds@ == xray_gray_thresholds()
    }

    /// The z-bucket sets as sequences of distinct bucket indices.
    pub open spec fn cells(self) -> Seq<Seq<u32>> {
        self.z_buckets@.map_values(|v: Vec<u32>| v@)
    }

    /// A fresh strategy for a tile of the given size, all columns empty.
    pub fn new(width: u32, height: u32) -> (r: XRayColoringStrategy)
        requires
            (width as int) * (height as int) <= 0xFFFFFFFF,
        ensures
            r.wf(),
            r.width == width,
            r.height == height,
            forall|c: int| 0 <= c < r.cells().len() ==> (#[trigger] r.cells()[c]).len() == 0,
    {
        proof {
            assert((width as int) * (height as int) >= 0) by (nonlinear_arith);
        }
        let n: usize = (width as usize) * (height as usize);
        let mut z_buckets: Vec<Vec<u32>> = Vec::new();
        let mut i: usize = 0;
        while i < n
            invariant
                0 <= i <= n,
                z_buckets@.len() == i,
                forall|j: int| 0 <= j < i ==> (#[trigger] z_buckets@[j])@.len() == 0,
            decreases n - i,
        {
            z_buckets.push(Vec::new());
            i = i + 1;
        }
        XRayColoringStrategy { width, height, z_buckets, thresholds: xray_gray_thresholds_vec() }
    }

    /// Absorbs a batch of discretized points into the z-bucket sets.
    pub fn process_discretized_point_data(&mut self, discretized_locations: &Vec<Point3u>)
        requires
            old(self).wf(),
        ensures
            final(self).wf(),
            final(self).width == old(self).width,
            final(self).height == old(self).height,
            final(self).cells() == xray_ingest(
                old(self).cells(),
                old(self).width as int,
                old(self).height as int,
                discretized_locations@,
                0,
            ),
    {
        let ghost w = self.width as int;
        let ghost h = self.height as int;
        let ghost locs = discretized_locations@;
        let n = discretized_locations.len();
        let mut i: usize = 0;
        while i < n
            invariant
                0 <= i <= n,
                n == locs.len(),
                locs == discretized_locations@,
                self.wf(),
                self.width == old(self).width,
                self.height == old(self).height,
                w == self.width as int,
                h == self.height as int,
                xray_ingest(self.cells(), w, h, locs, i as int) == xray_ingest(
                    old(self).cells(),
                    w,
                    h,
                    locs,
                    0,
                ),
            decreases n - i,
        {
            let p = discretized_locations[i];
            let ghost pre = self.cells();
            if p.x < self.width && p.y < self.height {
                proof {
                    lemma_rowmajor_bound(w, h, p.x as int, p.y as int);
                }
                let _buffer_len = self.z_buckets.len();
                let idx: usize = (p.y as usize) * (self.width as usize) + (p.x as usize);
                let cell = &self.z_buckets[idx];
                let mut found = false;
                let mut j: usize = 0;
                let m = cell.len();
                while j < m
                    invariant
                        0 <= j <= m,
                        m == cell@.len(),
                        cell == self.z_buckets@[idx as int],
                        found <==> exists|k: int| 0 <= k < j && cell@[k] == p.z,
                    decreases m - j,
                {
                    if cell[j] == p.z {
                        found = true;
                        proof {
                            assert(cell@[j as int] == p.z);
                        }
                    }
                    j = j + 1;
                }
                proof {
                    assert(found <==> pre[idx as int].contains(p.z));
                }
                if !found {
                    self.z_buckets[idx].push(p.z);
                    proof {
                        assert(self.cells() =~= pre.update(
                            idx as int,
                            pre[idx as int].push(p.z),
                        ));
                        assert(self.cells() == xray_step(pre, w, h, p));
                    }
                } else {
                    proof {
                        assert(self.cells() =~= pre);
                        assert(self.cells() == xray_step(pre, w, h, p));
                    }
                }
            } else {
                proof {
                    assert(self.cells() == xray_step(pre, w, h, p));
                }
            }
            i = i + 1;
        }
    }

    /// The pixel color of a column: `None` where no point fell, otherwise
    /// the gray level of the column's distinct z-bucket count.
    pub fn get_pixel_color(&self, x: u32, y: u32) -> (r: Option<Color>)
        requires
            self.wf(),
            x < self.width,
            y < self.height,
        ensures
            r == xray_pixel_spec(self.cells(), self.width as int, x as int, y as int),
    {
        proof {
            lemma_rowmajor_bound(self.width as int, self.height as int, x as int, y as int);
        }
        let _buffer_len = self.z_buckets.len();
        let idx: usize = (y as usize) * (self.width as usize) + (x as usize);
        let cell_len = self.z_buckets[idx].len();
        if cell_len == 0 {
            Option::None
        } else {
            let count: u32 = if cell_len >= 0xFFFFFFFF {
                0xFFFFFFFF
            } else {
                cell_len as u32
            };
            let v = xray_gray(count, &self.thresholds);
            Option::Some(Color { red: v, green: v, blue: v, alpha: 255 })
        }
    }
}

/// What the X-ray strategy answers for column `(x, y)`: the gray level of
/// the distinct z-bucket count, opaque, or nothing for an empty column.
pub open spec fn xray_pixel_spec(cells: Seq<Seq<u32>>, w: int, x: int, y: int) -> Option<Color> {
    let cell = cells[cell_index(w, x, y)];
    if cell.len() == 0 {
        Option::None
    } else {
        let count = if cell.len() >= 0xFFFFFFFF {
            0xFFFFFFFFu32
        } else {
            cell.len() as u32
        };
        let v = xray_gray_spec(count) as u8;
        Option::Some(Color { red: v, green: v, blue: v, alpha: 255u8 })
    }
}

} // verus!

verus! {

// ------------------------------------------------------------------
// Intensity strategy
// ------------------------------------------------------------------

/// The running sum and count of the intensities of one bin of one column.
#[derive(Clone, Copy, Debug, PartialEq, Eq, Structural)]
pub struct IntAcc {
    pub bin: i64,
    pub sum: i128,
    pub count: u64,
}

/// The position of bin `key` in a column, or -1 if the column lacks it.
pub open spec fn find_bin_int(cell: Seq<IntAcc>, key: i64) -> int
    decreases cell.len(),
{
    if cell.len() == 0 {
        -1
    } else if cell[0].bin == key {
        0
    } else {
        let r = find_bin_int(cell.drop_first(), key);
        if r < 0 {
            -1
        } else {
            1 + r
        }
    }
}

/// The found bin is in range and carries the key; a missing key means no
/// bin carries it.
pub proof fn lemma_find_bin_int(cell: Seq<IntAcc>, key: i64)
    ensures
        find_bin_int(cell, key) >= 0 ==> 0 <= find_bin_int(cell, key) < cell.len() && cell[
            find_bin_int(cell, key)
        ].bin == key,
        find_bin_int(cell, key) < 0 ==> forall|j: int|
            0 <= j < cell.len() ==> (#[trigger] cell[j]).bin != key,
    decreases cell.len(),
{
    if cell.len() > 0 && cell[0].bin != key {
        lemma_find_bin_int(cell.drop_first(), key);
        let r = find_bin_int(cell.drop_first(), key);
        if r >= 0 {
            assert(cell[1 + r] == cell.drop_first()[r]);
        } else {
            assert(forall|j: int|
                1 <= j < cell.len() ==> cell[j] == cell.drop_first()[j - 1]);
        }
    }
}

/// A nonnegative intensity absorbed into a column: a new bin starts at the
/// value, an existing one accumulates until its count reaches the cap.
pub open spec fn int_upsert(cell: Seq<IntAcc>, key: i64, val: i64) -> Seq<IntAcc> {
    let j = find_bin_int(cell, key);
    if j < 0 {
        cell.push(IntAcc { bin: key, sum: val as i128, count: 1u64 })
    } else if cell[j].count < 0x8000000000000000 {
        cell.update(
            j,
            IntAcc {
                bin: key,
                sum: (cell[j].sum + val) as i128,
                count: (cell[j].count + 1) as u64,
            },
        )
    } else {
        cell
    }
}

/// Every bin of a column is distinct, counted, and its sum stays within the
/// bounds its count allows.
pub open spec fn int_cell_wf(cell: Seq<IntAcc>) -> bool {
    &&& (forall|a: int, b: int| 0 <= a < b < cell.len() ==> cell[a].bin != cell[b].bin)
    &&& (forall|j: int|
        0 <= j < cell.len() ==> {
            let acc = #[trigger] cell[j];
            1 <= acc.count <= 0x8000000000000000 && 0 <= acc.sum <= (acc.count as int) * (
            i64::MAX as int)
        })
}

/// Upserting a nonnegative value preserves a column's well-formedness.
pub proof fn lemma_int_upsert_wf(cell: Seq<IntAcc>, key: i64, val: i64)
    requires
        int_cell_wf(cell),
        0 <= val,
    ensures
        int_cell_wf(int_upsert(cell, key, val)),
{
    lemma_find_bin_int(cell, key);
    let j = find_bin_int(cell, key);
    if j >= 0 && cell[j].count < 0x8000000000000000 {
        assert((cell[j].sum + val) <= ((cell[j].count + 1) as int) * (i64::MAX as int))
            by (nonlinear_arith)
            requires
                cell[j].sum <= (cell[j].count as int) * (i64::MAX as int),
                val <= i64::MAX,
        ;
    }
}

/// One discretized point absorbed into the intensity columns.
pub open spec fn intensity_step(
    cells: Seq<Seq<IntAcc>>,
    w: int,
    h: int,
    p: Point3u,
    key: i64,
    val: i64,
) -> Seq<Seq<IntAcc>> {
    if p.x < w && p.y < h {
        let idx = cell_index(w, p.x as int, p.y as int);
        cells.update(idx, int_upsert(cells[idx], key, val))
    } else {
        cells
    }
}

/// The intensity columns after absorbing the batch from index `i` on; the
/// first negative intensity abandons the rest of the batch.
pub open spec fn intensity_ingest(
    cells: Seq<Seq<IntAcc>>,
    w: int,
    h: int,
    locs: Seq<Point3u>,
    keys: Seq<i64>,
    vals: Seq<i64>,
    i: int,
) -> Seq<Seq<IntAcc>>
    decreases vals.len() - i,
{
    if i < 0 || i >= vals.len() || i >= locs.len() || i >= keys.len() {
        cells
    } else if vals[i] < 0 {
        cells
    } else {
        intensity_ingest(
            intensity_step(cells, w, h, locs[i], keys[i], vals[i]),
            w,
            h,
            locs,
            keys,
            vals,
            i + 1,
        )
    }
}

/// Absorbs one keyed intensity into a column vector.
fn upsert_int_cell(cell: &mut Vec<IntAcc>, key: i64, val: i64)
    requires
        int_cell_wf(old(cell)@),
        0 <= val,
    ensures
        final(cell)@ == int_upsert(old(cell)@, key, val),
        int_cell_wf(final(cell)@),
{
    let ghost orig = cell@;
    proof {
        lemma_find_bin_int(orig, key);
        lemma_int_upsert_wf(orig, key, val);
        assert(orig == old(cell)@);
    }
    let n = cell.len();
    let mut j: usize = 0;
    while j < n
        invariant
            0 <= j <= n,
            n == cell@.len(),
            int_cell_wf(cell@),
            cell@ == orig,
            orig == old(cell)@,
            0 <= val,
            forall|k: int| 0 <= k < j ==> (#[trigger] cell@[k]).bin != key,
        decreases n - j,
    {
        if cell[j].bin == key {
            proof {
                lemma_find_bin_int(cell@, key);
                let f = find_bin_int(cell@, key);
                assert(cell@[j as int].bin == key);
                if f < 0 {
                    assert(cell@[j as int].bin != key);
                    assert(false);
                } else if f != j {
                    assert(cell@[f].bin == key);
                    assert(false);
                }
                assert(f == j);
            }
            let acc = cell[j];
            if acc.count < 0x8000000000000000 {
                proof {
                    assert(acc.sum + val <= ((acc.count + 1) as int) * (i64::MAX as int))
                        by (nonlinear_arith)
                        requires
                            acc.sum <= (acc.count as int) * (i64::MAX as int),
                            val <= i64::MAX,
                    ;
                }
                cell.set(
                    j,
                    IntAcc { bin: key, sum: acc.sum + (val as i128), count: acc.count + 1 },
                );
            }
            proof {
                lemma_int_upsert_wf(orig, key, val);
                assert(cell@ == int_upsert(orig, key, val));
                assert(int_cell_wf(cell@));
            }
            return ;
        }
        j = j + 1;
    }
    proof {
        lemma_find_bin_int(cell@, key);
    }
    cell.push(IntAcc { bin: key, sum: val as i128, count: 1 });
}

/// The intensity strategy: per column and bin, the mean of the point
/// intensities; the column brightness follows the logarithm of the bin
/// means' average, clamped to `[min, max]`.
pub struct IntensityColoringStrategy {
    pub min: i64,
    pub max: i64,
    pub binning: Option<Binning>,
    pub width: u32,
    pub height: u32,
    pub per_column: Vec<Vec<IntAcc>>,
    pub frac_table: Vec<u16>,
}

impl IntensityColoringStrategy {
    pub open spec fn wf(self) -> bool {
        &&& self.per_column@.len() == (self.width as int) * (self.height as int)
        &&& (forall|c: int|
            0 <= c < self.per_column@.len() ==> int_cell_wf(#[trigger] self.per_column@[c]@))
        &&& self.frac_table@ == log2_frac_table()
        &&& self.min < self.max
        &&& self.max - self.min <= i64::MAX
    }

    pub open spec fn cells(self) -> Seq<Seq<IntAcc>> {
        self.per_column@.map_values(|v: Vec<IntAcc>| v@)
    }

    /// A fresh strategy for a tile of the given size, all columns empty.
    pub fn new(
        min: i64,
        max: i64,
        binning: Option<Binning>,
        width: u32,
        height: u32,
    ) -> (r: IntensityColoringStrategy)
        requires
            min < max,
            max - min <= i64::MAX,
            (width as int) * (height as int) <= 0xFFFFFFFF,
        ensures
            r.wf(),
            r.min == min,
            r.max == max,
            r.binning == binning,
            r.width == width,
            r.height == height,
            forall|c: int| 0 <= c < r.cells().len() ==> (#[trigger] r.cells()[c]).len() == 0,
    {
        proof {
            assert((width as int) * (height as int) >= 0) by (nonlinear_arith);
        }
        let n: usize = (width as usize) * (height as usize);
        let mut per_column: Vec<Vec<IntAcc>> = Vec::new();
        let mut i: usize = 0;
        while i < n
            invariant
                0 <= i <= n,
                per_column@.len() == i,
                forall|j: int| 0 <= j < i ==> (#[trigger] per_column@[j])@.len() == 0,
            decreases n - i,
        {
            per_column.push(Vec::new());
            i = i + 1;
        }
        IntensityColoringStrategy {
            min,
            max,
            binning,
            width,
            height,
            per_column,
            frac_table: log2_frac_table_vec(),
        }
    }

    /// The fixed-point intensities of a batch.
    pub open spec fn intensities_of(attrs: Seq<(String, AttributeData)>) -> Seq<i64> {
        match lookup_attribute(attrs, "intensity"@) {
            Option::Some(AttributeData::Fixed(v)) => v@,
            _ => Seq::empty(),
        }
    }

    /// What this strategy asks of a batch: an intensity array parallel to
    /// the discretized points, and the binning attribute where binning is on.
    pub open spec fn batch_ok(self, batch: PointsBatch, locs: Seq<Point3u>) -> bool {
        &&& batch.wf()
        &&& locs.len() == batch.position@.len()
        &&& match lookup_attribute(batch.attributes@, "intensity"@) {
            Option::Some(AttributeData::Fixed(v)) => true,
            _ => false,
        }
        &&& match self.binning {
            Option::Some(b) => 1 <= b.bin_size && {
                let d = lookup_attribute(batch.attributes@, b.attribute_name@);
                d is Some && is_scalar_attr(d.unwrap())
            },
            Option::None => true,
        }
    }

    /// Absorbs a batch: each point's intensity joins its column's bin until
    /// the first negative intensity abandons the rest of the batch.
    pub fn process_discretized_point_data(
        &mut self,
        points_batch: &PointsBatch,
        discretized_locations: &Vec<Point3u>,
    )
        requires
            old(self).wf(),
            old(self).batch_ok(*points_batch, discretized_locations@),
        ensures
            final(self).wf(),
            final(self).width == old(self).width,
            final(self).height == old(self).height,
            final(self).min == old(self).min,
            final(self).max == old(self).max,
            final(self).binning == old(self).binning,
            final(self).cells() == intensity_ingest(
                old(self).cells(),
                old(self).width as int,
                old(self).height as int,
                discretized_locations@,
                bins_spec(
                    old(self).binning,
                    points_batch.attributes@,
                    points_batch.position@.len() as int,
                ),
                Self::intensities_of(points_batch.attributes@),
                0,
            ),
    {
        let ghost w = self.width as int;
        let ghost h = self.height as int;
        let ghost locs = discretized_locations@;
        let bins = bins_for_batch(&self.binning, points_batch);
        let ghost keys = bins@;
        let intensity_name: String = "intensity".to_owned();
        let intensity_attribute = points_batch.get_attribute(&intensity_name).unwrap();
        let vals = match intensity_attribute {
            AttributeData::Fixed(v) => v,
            _ => {
                proof {
                    assert(false);
                }
                unreached()
            },
        };
        let ghost valsg = vals@;
        proof {
            assert(valsg == Self::intensities_of(points_batch.attributes@));
            crate::point_data::lemma_lookup_is_element(points_batch.attributes@, "intensity"@);
        }
        let n = vals.len();
        let mut i: usize = 0;
        while i < n
            invariant
                0 <= i <= n,
                n == valsg.len(),
                n == locs.len(),
                n == keys.len(),
                valsg == Self::intensities_of(points_batch.attributes@),
                keys == bins@,
                bins@.len() == n,
                keys == bins_spec(
                    self.binning,
                    points_batch.attributes@,
                    points_batch.position@.len() as int,
                ),
                vals@ == valsg,
                locs == discretized_locations@,
                self.wf(),
                self.width == old(self).width,
                self.height == old(self).height,
                self.min == old(self).min,
                self.max == old(self).max,
                self.binning == old(self).binning,
                w == self.width as int,
                h == self.height as int,
                intensity_ingest(self.cells(), w, h, locs, keys, valsg, i as int)
                    == intensity_ingest(old(self).cells(), w, h, locs, keys, valsg, 0),
            decreases n - i,
        {
            let val = vals[i];
            if val < 0 {
                proof {
                    assert(intensity_ingest(self.cells(), w, h, locs, keys, valsg, i as int)
                        == self.cells());
                    assert(self.cells() == intensity_ingest(
                        old(self).cells(),
                        w,
                        h,
                        locs,
                        keys,
                        valsg,
                        0,
                    ));
                }
                return ;
            }
            let p = discretized_locations[i];
            let ghost pre = self.cells();
            if p.x < self.width && p.y < self.height {
                proof {
                    lemma_rowmajor_bound(w, h, p.x as int, p.y as int);
                }
                let _buffer_len = self.per_column.len();
                let idx: usize = (p.y as usize) * (self.width as usize) + (p.x as usize);
                upsert_int_cell(&mut self.per_column[idx], bins[i], val);
                proof {
                    assert(self.cells() =~= pre.update(
                        idx as int,
                        int_upsert(pre[idx as int], keys[i as int], val),
                    ));
                    assert(self.cells() == intensity_step(pre, w, h, p, keys[i as int], val));
                }
            } else {
                proof {
                    assert(self.cells() == intensity_step(pre, w, h, p, keys[i as int], val));
                }
            }
            i = i + 1;
        }
        proof {
            assert(intensity_ingest(self.cells(), w, h, locs, keys, valsg, n as int)
                == self.cells());
            assert(self.cells() == intensity_ingest(old(self).cells(), w, h, locs, keys, valsg, 0));
        }
    }

    /// The pixel color of a column: the logarithmic brightness of the
    /// clamped average of the bin means, or `None` where no point fell.
    pub fn get_pixel_color(&self, x: u32, y: u32) -> (r: Option<Color>)
        requires
            self.wf(),
            x < self.width,
            y < self.height,
        ensures
            r == intensity_pixel_spec(
                self.cells(),
                self.width as int,
                self.min as int,
                self.max as int,
                x as int,
                y as int,
            ),
    {
        proof {
            lemma_rowmajor_bound(self.width as int, self.height as int, x as int, y as int);
        }
        let _buffer_len = self.per_column.len();
        let idx: usize = (y as usize) * (self.width as usize) + (x as usize);
        let cell = &self.per_column[idx];
        let m = cell.len();
        if m == 0 {
            return Option::None;
        }
        let mut acc_means: i128 = 0;
        let mut j: usize = 0;
        while j < m
            invariant
                0 <= j <= m,
                m == cell@.len(),
                int_cell_wf(cell@),
                acc_means == int_means_sum(cell@, j as int),
                0 <= acc_means <= (j as int) * (i64::MAX as int),
            decreases m - j,
        {
            let acc = cell[j];
            let mean = ((acc.sum as u128) / (acc.count as u128)) as i128;
            proof {
                assert(acc.sum / (acc.count as i128) <= i64::MAX as int) by (nonlinear_arith)
                    requires
                        1 <= acc.count,
                        0 <= acc.sum <= (acc.count as int) * (i64::MAX as int),
                ;
                assert(0 <= acc.sum / (acc.count as i128));
                assert(((j + 1) as int) * (i64::MAX as int) == (j as int) * (i64::MAX as int)
                    + i64::MAX) by (nonlinear_arith);
            }
            acc_means = acc_means + mean;
            j = j + 1;
        }
        let mean_of_means = ((acc_means as u128) / (m as u128)) as i128;
        proof {
            assert(int_means_sum(cell@, m as int) / (m as int) <= i64::MAX as int)
                by (nonlinear_arith)
                requires
                    1 <= m,
                    0 <= int_means_sum(cell@, m as int) <= (m as int) * (i64::MAX as int),
            ;
        }
        let clamped: i64 = if mean_of_means < (self.min as i128) {
            self.min
        } else if mean_of_means > (self.max as i128) {
            self.max
        } else {
            mean_of_means as i64
        };
        let g = intensity_gray(clamped - self.min, self.max - self.min, &self.frac_table);
        Option::Some(Color { red: g, green: g, blue: g, alpha: 255 })
    }
}

/// The sum of the first `i` bin means of a column.
pub open spec fn int_means_sum(cell: Seq<IntAcc>, i: int) -> int
    decreases i,
{
    if i <= 0 {
        0
    } else {
        int_means_sum(cell, i - 1) + (cell[i - 1].sum as int) / (cell[i - 1].count as int)
    }
}

/// What the intensity strategy answers for column `(x, y)`.
pub open spec fn intensity_pixel_spec(
    cells: Seq<Seq<IntAcc>>,
    w: int,
    min: int,
    max: int,
    x: int,
    y: int,
) -> Option<Color> {
    let cell = cells[cell_index(w, x, y)];
    if cell.len() == 0 {
        Option::None
    } else {
        let mean = int_means_sum(cell, cell.len() as int) / (cell.len() as int);
        let clamped = if mean < min {
            min
        } else if mean > max {
            max
        } else {
            mean
        };
        let g = intensity_gray_spec(clamped - min, max - min) as u8;
        Option::Some(Color { red: g, green: g, blue: g, alpha: 255u8 })
    }
}

} // verus!

verus! {

// ------------------------------------------------------------------
// Point-color strategy
// ------------------------------------------------------------------

/// The running channel sums and count of the point colors of one bin.
#[derive(Clone, Copy, Debug, PartialEq, Eq, Structural)]
pub struct ColorAcc {
    pub bin: i64,
    pub red_sum: u64,
    pub green_sum: u64,
    pub blue_sum: u64,
    pub count: u64,
}

/// The position of bin `key` in a color column, or -1 if absent.
pub open spec fn find_bin_color(cell: Seq<ColorAcc>, key: i64) -> int
    decreases cell.len(),
{
    if cell.len() == 0 {
        -1
    } else if cell[0].bin == key {
        0
    } else {
        let r = find_bin_color(cell.drop_first(), key);
        if r < 0 {
            -1
        } else {
            1 + r
        }
    }
}

pub proof fn lemma_find_bin_color(cell: Seq<ColorAcc>, key: i64)
    ensures
        find_bin_color(cell, key) >= 0 ==> 0 <= find_bin_color(cell, key) < cell.len() && cell[
            find_bin_color(cell, key)
        ].bin == key,
        find_bin_color(cell, key) < 0 ==> forall|j: int|
            0 <= j < cell.len() ==> (#[trigger] cell[j]).bin != key,
    decreases cell.len(),
{
    if cell.len() > 0 && cell[0].bin != key {
        lemma_find_bin_color(cell.drop_first(), key);
        let r = find_bin_color(cell.drop_first(), key);
        if r >= 0 {
            assert(cell[1 + r] == cell.drop_first()[r]);
        } else {
            assert(forall|j: int|
                1 <= j < cell.len() ==> cell[j] == cell.drop_first()[j - 1]);
        }
    }
}

/// A point color absorbed into a column: a new bin starts at the color,
/// an existing one accumulates until its count reaches the cap.
pub open spec fn color_upsert(cell: Seq<ColorAcc>, key: i64, c: crate::point_data::Rgb8) -> Seq<
    ColorAcc,
> {
    let j = find_bin_color(cell, key);
    if j < 0 {
        cell.push(
            ColorAcc {
                bin: key,
                red_sum: c.red as u64,
                green_sum: c.green as u64,
                blue_sum: c.blue as u64,
                count: 1u64,
            },
        )
    } else if cell[j].count < 0x100000000000000 {
        cell.update(
            j,
            ColorAcc {
                bin: key,
                red_sum: (cell[j].red_sum + c.red) as u64,
                green_sum: (cell[j].green_sum + c.green) as u64,
                blue_sum: (cell[j].blue_sum + c.blue) as u64,
                count: (cell[j].count + 1) as u64,
            },
        )
    } else {
        cell
    }
}

/// Every bin of a color column is distinct and its sums stay within the
/// bounds its count allows.
pub open spec fn color_cell_wf(cell: Seq<ColorAcc>) -> bool {
    &&& (forall|a: int, b: int| 0 <= a < b < cell.len() ==> cell[a].bin != cell[b].bin)
    &&& (forall|j: int|
        0 <= j < cell.len() ==> {
            let acc = #[trigger] cell[j];
            1 <= acc.count <= 0x100000000000000 && acc.red_sum <= (acc.count as int) * 255
                && acc.green_sum <= (acc.count as int) * 255 && acc.blue_sum <= (acc.count as int)
                * 255
        })
}

pub proof fn lemma_color_upsert_wf(cell: Seq<ColorAcc>, key: i64, c: crate::point_data::Rgb8)
    requires
        color_cell_wf(cell),
    ensures
        color_cell_wf(color_upsert(cell, key, c)),
{
    lemma_find_bin_color(cell, key);
    let j = find_bin_color(cell, key);
    if j >= 0 && cell[j].count < 0x100000000000000 {
        assert((cell[j].red_sum + c.red) <= ((cell[j].count + 1) as int) * 255
            && (cell[j].green_sum + c.green) <= ((cell[j].count + 1) as int) * 255
            && (cell[j].blue_sum + c.blue) <= ((cell[j].count + 1) as int) * 255)
            by (nonlinear_arith)
            requires
                cell[j].red_sum <= (cell[j].count as int) * 255,
                cell[j].green_sum <= (cell[j].count as int) * 255,
                cell[j].blue_sum <= (cell[j].count as int) * 255,
                c.red <= 255,
                c.green <= 255,
                c.blue <= 255,
        ;
    }
}

/// One discretized point absorbed into the color columns.
pub open spec fn color_step(
    cells: Seq<Seq<ColorAcc>>,
    w: int,
    h: int,
    p: Point3u,
    key: i64,
    c: crate::point_data::Rgb8,
) -> Seq<Seq<ColorAcc>> {
    if p.x < w && p.y < h {
        let idx = cell_index(w, p.x as int, p.y as int);
        cells.update(idx, color_upsert(cells[idx], key, c))
    } else {
        cells
    }
}

/// The color columns after absorbing the batch from index `i` on.
pub open spec fn color_ingest(
    cells: Seq<Seq<ColorAcc>>,
    w: int,
    h: int,
    locs: Seq<Point3u>,
    keys: Seq<i64>,
    colors: Seq<crate::point_data::Rgb8>,
    i: int,
) -> Seq<Seq<ColorAcc>>
    decreases colors.len() - i,
{
    if i < 0 || i >= colors.len() || i >= locs.len() || i >= keys.len() {
        cells
    } else {
        color_ingest(
            color_step(cells, w, h, locs[i], keys[i], colors[i]),
            w,
            h,
            locs,
            keys,
            colors,
            i + 1,
        )
    }
}

/// Absorbs one keyed color into a column vector.
fn upsert_color_cell(cell: &mut Vec<ColorAcc>, key: i64, c: crate::point_data::Rgb8)
    requires
        color_cell_wf(old(cell)@),
    ensures
        final(cell)@ == color_upsert(old(cell)@, key, c),
        color_cell_wf(final(cell)@),
{
    let ghost orig = cell@;
    proof {
        lemma_find_bin_color(orig, key);
        assert(orig == old(cell)@);
    }
    let n = cell.len();
    let mut j: usize = 0;
    while j < n
        invariant
            0 <= j <= n,
            n == cell@.len(),
            color_cell_wf(cell@),
            cell@ == orig,
            orig == old(cell)@,
            forall|k: int| 0 <= k < j ==> (#[trigger] cell@[k]).bin != key,
        decreases n - j,
    {
        if cell[j].bin == key {
            proof {
                lemma_find_bin_color(cell@, key);
                let f = find_bin_color(cell@, key);
                assert(cell@[j as int].bin == key);
                if f < 0 {
                    assert(cell@[j as int].bin != key);
                    assert(false);
                } else if f != j {
                    assert(cell@[f].bin == key);
                    assert(false);
                }
                assert(f == j);
            }
            let acc = cell[j];
            if acc.count < 0x100000000000000 {
                proof {
                    assert(acc.red_sum + c.red <= ((acc.count + 1) as int) * 255
                        && acc.green_sum + c.green <= ((acc.count + 1) as int) * 255
                        && acc.blue_sum + c.blue <= ((acc.count + 1) as int) * 255)
                        by (nonlinear_arith)
                        requires
                            acc.red_sum <= (acc.count as int) * 255,
                            acc.green_sum <= (acc.count as int) * 255,
                            acc.blue_sum <= (acc.count as int) * 255,
                            c.red <= 255,
                            c.green <= 255,
                            c.blue <= 255,
                    ;
                }
                cell.set(
                    j,
                    ColorAcc {
                        bin: key,
                        red_sum: acc.red_sum + (c.red as u64),
                        green_sum: acc.green_sum + (c.green as u64),
                        blue_sum: acc.blue_sum + (c.blue as u64),
                        count: acc.count + 1,
                    },
                );
            }
            proof {
                lemma_color_upsert_wf(orig, key, c);
                assert(cell@ == color_upsert(orig, key, c));
                assert(color_cell_wf(cell@));
            }
            return ;
        }
        j = j + 1;
    }
    proof {
        lemma_find_bin_color(cell@, key);
    }
    cell.push(
        ColorAcc {
            bin: key,
            red_sum: c.red as u64,
            green_sum: c.green as u64,
            blue_sum: c.blue as u64,
            count: 1,
        },
    );
}

/// The point-color strategy: per column and bin, the mean of the point
/// colors, averaged over bins and stored opaque.
pub struct PointColorColoringStrategy {
    pub binning: Option<Binning>,
    pub width: u32,
    pub height: u32,
    pub per_column: Vec<Vec<ColorAcc>>,
}

/// The per-channel sums of the first `i` bin means of a color column.
pub open spec fn color_means_sum_red(cell: Seq<ColorAcc>, i: int) -> int
    decreases i,
{
    if i <= 0 {
        0
    } else {
        color_means_sum_red(cell, i - 1) + (cell[i - 1].red_sum as int) / (cell[i - 1].count as int)
    }
}

pub open spec fn color_means_sum_green(cell: Seq<ColorAcc>, i: int) -> int
    decreases i,
{
    if i <= 0 {
        0
    } else {
        color_means_sum_green(cell, i - 1) + (cell[i - 1].green_sum as int) / (
        cell[i - 1].count as int)
    }
}

pub open spec fn color_means_sum_blue(cell: Seq<ColorAcc>, i: int) -> int
    decreases i,
{
    if i <= 0 {
        0
    } else {
        color_means_sum_blue(cell, i - 1) + (cell[i - 1].blue_sum as int) / (
        cell[i - 1].count as int)
    }
}

/// What the point-color strategy answers for column `(x, y)`: the average
/// over bins of the per-bin mean color, opaque, or nothing for an empty
/// column.
pub open spec fn color_pixel_spec(cells: Seq<Seq<ColorAcc>>, w: int, x: int, y: int) -> Option<
    Color,
> {
    let cell = cells[cell_index(w, x, y)];
    if cell.len() == 0 {
        Option::None
    } else {
        let n = cell.len() as int;
        Option::Some(
            Color {
                red: (color_means_sum_red(cell, n) / n) as u8,
                green: (color_means_sum_green(cell, n) / n) as u8,
                blue: (color_means_sum_blue(cell, n) / n) as u8,
                alpha: 255u8,
            },
        )
    }
}

impl PointColorColoringStrategy {
    pub open spec fn wf(self) -> bool {
        &&& self.per_column@.len() == (self.width as int) * (self.height as int)
        &&& (forall|c: int|
            0 <= c < self.per_column@.len() ==> color_cell_wf(#[trigger] self.per_column@[c]@))
    }

    pub open spec fn cells(self) -> Seq<Seq<ColorAcc>> {
        self.per_column@.map_values(|v: Vec<ColorAcc>| v@)
    }

    /// A fresh strategy for a tile of the given size, all columns empty.
    pub fn new(binning: Option<Binning>, width: u32, height: u32) -> (r:
        PointColorColoringStrategy)
        requires
            (width as int) * (height as int) <= 0xFFFFFFFF,
        ensures
            r.wf(),
            r.binning == binning,
            r.width == width,
            r.height == height,
            forall|c: int| 0 <= c < r.cells().len() ==> (#[trigger] r.cells()[c]).len() == 0,
    {
        proof {
            assert((width as int) * (height as int) >= 0) by (nonlinear_arith);
        }
        let n: usize = (width as usize) * (height as usize);
        let mut per_column: Vec<Vec<ColorAcc>> = Vec::new();
        let mut i: usize = 0;
        while i < n
            invariant
                0 <= i <= n,
                per_column@.len() == i,
                forall|j: int| 0 <= j < i ==> (#[trigger] per_column@[j])@.len() == 0,
            decreases n - i,
        {
            per_column.push(Vec::new());
            i = i + 1;
        }
        PointColorColoringStrategy { binning, width, height, per_column }
    }

    /// The point colors of a batch.
    pub open spec fn colors_of(attrs: Seq<(String, AttributeData)>) -> Seq<
        crate::point_data::Rgb8,
    > {
        match lookup_attribute(attrs, "color"@) {
            Option::Some(AttributeData::U8Vec3(v)) => v@,
            _ => Seq::empty(),
        }
    }

    /// What this strategy asks of a batch: a color array parallel to the
    /// discretized points, and the binning attribute where binning is on.
    pub open spec fn batch_ok(self, batch: PointsBatch, locs: Seq<Point3u>) -> bool {
        &&& batch.wf()
        &&& locs.len() == batch.position@.len()
        &&& match lookup_attribute(batch.attributes@, "color"@) {
            Option::Some(AttributeData::U8Vec3(v)) => true,
            _ => false,
        }
        &&& match self.binning {
            Option::Some(b) => 1 <= b.bin_size && {
                let d = lookup_attribute(batch.attributes@, b.attribute_name@);
                d is Some && is_scalar_attr(d.unwrap())
            },
            Option::None => true,
        }
    }

    /// Absorbs a batch: each point's color joins its column's bin.
    pub fn process_discretized_point_data(
        &mut self,
        points_batch: &PointsBatch,
        discretized_locations: &Vec<Point3u>,
    )
        requires
            old(self).wf(),
            old(self).batch_ok(*points_batch, discretized_locations@),
        ensures
            final(self).wf(),
            final(self).width == old(self).width,
            final(self).height == old(self).height,
            final(self).binning == old(self).binning,
            final(self).cells() == color_ingest(
                old(self).cells(),
                old(self).width as int,
                old(self).height as int,
                discretized_locations@,
                bins_spec(
                    old(self).binning,
                    points_batch.attributes@,
                    points_batch.position@.len() as int,
                ),
                Self::colors_of(points_batch.attributes@),
                0,
            ),
    {
        let ghost w = self.width as int;
        let ghost h = self.height as int;
        let ghost locs = discretized_locations@;
        let bins = bins_for_batch(&self.binning, points_batch);
        let ghost keys = bins@;
        let color_name: String = "color".to_owned();
        let color_attribute = points_batch.get_attribute(&color_name).unwrap();
        let colors = match color_attribute {
            AttributeData::U8Vec3(v) => v,
            _ => {
                proof {
                    assert(false);
                }
                unreached()
            },
        };
        let ghost colorsg = colors@;
        proof {
            assert(colorsg == Self::colors_of(points_batch.attributes@));
            crate::point_data::lemma_lookup_is_element(points_batch.attributes@, "color"@);
        }
        let n = colors.len();
        let mut i: usize = 0;
        while i < n
            invariant
                0 <= i <= n,
                n == colorsg.len(),
                n == locs.len(),
                n == keys.len(),
                colorsg == Self::colors_of(points_batch.attributes@),
                keys == bins@,
                bins@.len() == n,
                keys == bins_spec(
                    self.binning,
                    points_batch.attributes@,
                    points_batch.position@.len() as int,
                ),
                colors@ == colorsg,
                locs == discretized_locations@,
                self.wf(),
                self.width == old(self).width,
                self.height == old(self).height,
                self.binning == old(self).binning,
                w == self.width as int,
                h == self.height as int,
                color_ingest(self.cells(), w, h, locs, keys, colorsg, i as int) == color_ingest(
                    old(self).cells(),
                    w,
                    h,
                    locs,
                    keys,
                    colorsg,
                    0,
                ),
            decreases n - i,
        {
            let c = colors[i];
            let p = discretized_locations[i];
            let ghost pre = self.cells();
            if p.x < self.width && p.y < self.height {
                proof {
                    lemma_rowmajor_bound(w, h, p.x as int, p.y as int);
                }
                let _buffer_len = self.per_column.len();
                let idx: usize = (p.y as usize) * (self.width as usize) + (p.x as usize);
                upsert_color_cell(&mut self.per_column[idx], bins[i], c);
                proof {
                    assert(self.cells() =~= pre.update(
                        idx as int,
                        color_upsert(pre[idx as int], keys[i as int], c),
                    ));
                    assert(self.cells() == color_step(pre, w, h, p, keys[i as int], c));
                }
            } else {
                proof {
                    assert(self.cells() == color_step(pre, w, h, p, keys[i as int], c));
                }
            }
            i = i + 1;
        }
        proof {
            assert(color_ingest(self.cells(), w, h, locs, keys, colorsg, n as int)
                == self.cells());
            assert(self.cells() == color_ingest(old(self).cells(), w, h, locs, keys, colorsg, 0));
        }
    }

    /// The pixel color of a column: the average of the bin mean colors, or
    /// `None` where no point fell.
    pub fn get_pixel_color(&self, x: u32, y: u32) -> (r: Option<Color>)
        requires
            self.wf(),
            x < self.width,
            y < self.height,
        ensures
            r == color_pixel_spec(self.cells(), self.width as int, x as int, y as int),
    {
        proof {
            lemma_rowmajor_bound(self.width as int, self.height as int, x as int, y as int);
        }
        let _buffer_len = self.per_column.len();
        let idx: usize = (y as usize) * (self.width as usize) + (x as usize);
        let cell = &self.per_column[idx];
        let m = cell.len();
        if m == 0 {
            return Option::None;
        }
        let mut red_acc: u128 = 0;
        let mut green_acc: u128 = 0;
        let mut blue_acc: u128 = 0;
        let mut j: usize = 0;
        while j < m
            invariant
                0 <= j <= m,
                m == cell@.len(),
                color_cell_wf(cell@),
                red_acc == color_means_sum_red(cell@, j as int),
                green_acc == color_means_sum_green(cell@, j as int),
                blue_acc == color_means_sum_blue(cell@, j as int),
                red_acc <= (j as int) * 255,
                green_acc <= (j as int) * 255,
                blue_acc <= (j as int) * 255,
            decreases m - j,
        {
            let acc = cell[j];
            let red_mean = acc.red_sum / acc.count;
            let green_mean = acc.green_sum / acc.count;
            let blue_mean = acc.blue_sum / acc.count;
            proof {
                assert((acc.red_sum as int) / (acc.count as int) <= 255 && (
                acc.green_sum as int) / (acc.count as int) <= 255 && (acc.blue_sum as int) / (
                acc.count as int) <= 255) by (nonlinear_arith)
                    requires
                        1 <= acc.count,
                        acc.red_sum <= (acc.count as int) * 255,
                        acc.green_sum <= (acc.count as int) * 255,
                        acc.blue_sum <= (acc.count as int) * 255,
                ;
                assert(((j + 1) as int) * 255 == (j as int) * 255 + 255) by (nonlinear_arith);
            }
            red_acc = red_acc + (red_mean as u128);
            green_acc = green_acc + (green_mean as u128);
            blue_acc = blue_acc + (blue_mean as u128);
            j = j + 1;
        }
        proof {
            assert(color_means_sum_red(cell@, m as int) / (m as int) <= 255
                && color_means_sum_green(cell@, m as int) / (m as int) <= 255
                && color_means_sum_blue(cell@, m as int) / (m as int) <= 255)
                by (nonlinear_arith)
                requires
                    1 <= m,
                    0 <= color_means_sum_red(cell@, m as int) <= (m as int) * 255,
                    0 <= color_means_sum_green(cell@, m as int) <= (m as int) * 255,
                    0 <= color_means_sum_blue(cell@, m as int) <= (m as int) * 255,
            ;
        }
        Option::Some(
            Color {
                red: (red_acc / (m as u128)) as u8,
                green: (green_acc / (m as u128)) as u8,
                blue: (blue_acc / (m as u128)) as u8,
                alpha: 255,
            },
        )
    }
}

} // verus!

verus! {

// ------------------------------------------------------------------
// Height-stddev strategy
// ------------------------------------------------------------------

/// The running count, sum and sum of squares of the world heights of one
/// column.
#[derive(Clone, Copy, Debug, PartialEq, Eq, Structural)]
pub struct StatsAcc {
    pub count: u64,
    pub sum: i128,
    pub sum_sq: u128,
}

/// A world height absorbed into a column's statistics, until the count cap.
pub open spec fn stats_add(acc: StatsAcc, z: i64) -> StatsAcc {
    if acc.count < 0x800000000000 {
        StatsAcc {
            count: (acc.count + 1) as u64,
            sum: (acc.sum + z) as i128,
            sum_sq: (acc.sum_sq + z * z) as u128,
        }
    } else {
        acc
    }
}

/// The bounds a column's statistics keep when every absorbed height is at
/// most `2^40` in magnitude.
pub open spec fn stats_wf(acc: StatsAcc) -> bool {
    &&& acc.count <= 0x800000000000
    &&& -(acc.count as int) * 0x10000000000 <= acc.sum <= (acc.count as int) * 0x10000000000
    &&& acc.sum_sq <= (acc.count as int) * 0x100000000000000000000
}

pub proof fn lemma_stats_add_wf(acc: StatsAcc, z: i64)
    requires
        stats_wf(acc),
        -0x10000000000 <= z <= 0x10000000000,
    ensures
        stats_wf(stats_add(acc, z)),
{
    if acc.count < 0x800000000000 {
        assert(-((acc.count + 1) as int) * 0x10000000000 <= acc.sum + z <= ((acc.count
            + 1) as int) * 0x10000000000) by (nonlinear_arith)
            requires
                -(acc.count as int) * 0x10000000000 <= acc.sum <= (acc.count as int)
                    * 0x10000000000,
                -0x10000000000 <= z <= 0x10000000000,
        ;
        assert(0 <= z * z <= 0x100000000000000000000) by (nonlinear_arith)
            requires
                -0x10000000000 <= z <= 0x10000000000,
        ;
        assert(acc.sum_sq + z * z <= ((acc.count + 1) as int) * 0x100000000000000000000)
            by (nonlinear_arith)
            requires
                acc.sum_sq <= (acc.count as int) * 0x100000000000000000000,
                0 <= z * z <= 0x100000000000000000000,
        ;
    }
}

/// One point's world height absorbed into the statistics columns.
pub open spec fn stats_step(
    cells: Seq<StatsAcc>,
    w: int,
    h: int,
    p: Point3u,
    z: i64,
) -> Seq<StatsAcc> {
    if p.x < w && p.y < h {
        let idx = cell_index(w, p.x as int, p.y as int);
        cells.update(idx, stats_add(cells[idx], z))
    } else {
        cells
    }
}

/// The statistics columns after absorbing the batch from index `i` on.
pub open spec fn stats_ingest(
    cells: Seq<StatsAcc>,
    w: int,
    h: int,
    locs: Seq<Point3u>,
    zs: Seq<i64>,
    i: int,
) -> Seq<StatsAcc>
    decreases zs.len() - i,
{
    if i < 0 || i >= zs.len() || i >= locs.len() {
        cells
    } else {
        stats_ingest(stats_step(cells, w, h, locs[i], zs[i]), w, h, locs, zs, i + 1)
    }
}

/// The height-stddev strategy: per column, the running statistics of the
/// world heights; the pixel follows the colormap at the clamped standard
/// deviation.
pub struct HeightStddevColoringStrategy {
    pub max_stddev: u64,
    pub colormap: Colormap,
    pub width: u32,
    pub height: u32,
    pub per_column: Vec<StatsAcc>,
}

/// The sample standard deviation of a column, in floored integer
/// arithmetic: the integer square root of the mean of squares minus the
/// squared floored mean, never below zero.
pub open spec fn stddev_spec(acc: StatsAcc) -> int {
    let n = acc.count as int;
    let mean = (acc.sum as int) / n;
    let msq = mean * mean;
    let raw = (acc.sum_sq as int) / n - msq;
    let var = if raw < 0 {
        0
    } else {
        raw
    };
    sqrt_floor(var)
}

/// The integer square root as a spec value: the unique `r` with
/// `r^2 <= x < (r+1)^2`.
pub open spec fn sqrt_floor(x: int) -> int {
    choose|r: int| 0 <= r && #[trigger] (r * r) <= x < (r + 1) * (r + 1)
}

/// The integer square root exists and is unique, so `sqrt_floor` names it.
pub proof fn lemma_sqrt_floor(x: int, r: int)
    requires
        0 <= r,
        r * r <= x,
        x < (r + 1) * (r + 1),
    ensures
        sqrt_floor(x) == r,
{
    assert(0 <= r && #[trigger] (r * r) <= x < (r + 1) * (r + 1));
    let c = sqrt_floor(x);
    assert(0 <= c && c * c <= x < (c + 1) * (c + 1));
    if c < r {
        assert((c + 1) * (c + 1) <= r * r) by (nonlinear_arith)
            requires
                0 <= c,
                c < r,
        ;
    } else if r < c {
        assert((r + 1) * (r + 1) <= c * c) by (nonlinear_arith)
            requires
                0 <= r,
                r < c,
        ;
    }
}

/// What the height-stddev strategy answers for column `(x, y)`: the
/// colormap at the clamped standard deviation over the maximum, or nothing
/// for an empty column.
pub open spec fn stddev_pixel_spec(
    cells: Seq<StatsAcc>,
    w: int,
    max_stddev: int,
    cm: Colormap,
    x: int,
    y: int,
) -> Option<Color> {
    let acc = cells[cell_index(w, x, y)];
    if acc.count == 0 {
        Option::None
    } else {
        let sd = stddev_spec(acc);
        let num = if sd > max_stddev {
            max_stddev
        } else {
            sd
        };
        Option::Some(colormap_value_spec(cm, num, max_stddev))
    }
}

impl HeightStddevColoringStrategy {
    pub open spec fn wf(self) -> bool {
        &&& self.per_column@.len() == (self.width as int) * (self.height as int)
        &&& (forall|c: int| 0 <= c < self.per_column@.len() ==> stats_wf(#[trigger] self.per_column@[c]))
        &&& 1 <= self.max_stddev <= 0x100000000
    }

    pub open spec fn cells(self) -> Seq<StatsAcc> {
        self.per_column@
    }

    /// A fresh strategy for a tile of the given size, all columns empty.
    pub fn new(max_stddev: u64, colormap: Colormap, width: u32, height: u32) -> (r:
        HeightStddevColoringStrategy)
        requires
            1 <= max_stddev <= 0x100000000,
            (width as int) * (height as int) <= 0xFFFFFFFF,
        ensures
            r.wf(),
            r.max_stddev == max_stddev,
            r.colormap == colormap,
            r.width == width,
            r.height == height,
            forall|c: int| 0 <= c < r.cells().len() ==> (#[trigger] r.cells()[c]).count == 0,
    {
        proof {
            assert((width as int) * (height as int) >= 0) by (nonlinear_arith);
        }
        let n: usize = (width as usize) * (height as usize);
        let mut per_column: Vec<StatsAcc> = Vec::new();
        let mut i: usize = 0;
        while i < n
            invariant
                0 <= i <= n,
                per_column@.len() == i,
                forall|j: int|
                    0 <= j < i ==> #[trigger] per_column@[j] == (StatsAcc {
                        count: 0u64,
                        sum: 0i128,
                        sum_sq: 0u128,
                    }),
            decreases n - i,
        {
            per_column.push(StatsAcc { count: 0, sum: 0, sum_sq: 0 });
            i = i + 1;
        }
        HeightStddevColoringStrategy { max_stddev, colormap, width, height, per_column }
    }

    /// Absorbs a batch: each point's world height joins its column's
    /// statistics.
    pub fn process_discretized_point_data(
        &mut self,
        points_batch: &PointsBatch,
        discretized_locations: &Vec<Point3u>,
    )
        requires
            old(self).wf(),
            discretized_locations@.len() == points_batch.position@.len(),
            forall|i: int|
                0 <= i < points_batch.position@.len() ==> -0x10000000000 <= (#[trigger]
                points_batch.position@[i]).z <= 0x10000000000,
        ensures
            final(self).wf(),
            final(self).width == old(self).width,
            final(self).height == old(self).height,
            final(self).max_stddev == old(self).max_stddev,
            final(self).colormap == old(self).colormap,
            final(self).cells() == stats_ingest(
                old(self).cells(),
                old(self).width as int,
                old(self).height as int,
                discretized_locations@,
                points_batch.position@.map_values(|p: crate::point_data::Point3i| p.z),
                0,
            ),
    {
        let ghost w = self.width as int;
        let ghost h = self.height as int;
        let ghost locs = discretized_locations@;
        let ghost zs = points_batch.position@.map_values(|p: crate::point_data::Point3i| p.z);
        let n = discretized_locations.len();
        let mut i: usize = 0;
        while i < n
            invariant
                0 <= i <= n,
                n == locs.len(),
                n == zs.len(),
                n == points_batch.position@.len(),
                zs == points_batch.position@.map_values(|p: crate::point_data::Point3i| p.z),
                locs == discretized_locations@,
                forall|k: int|
                    0 <= k < n ==> -0x10000000000 <= (#[trigger] points_batch.position@[k]).z
                        <= 0x10000000000,
                self.wf(),
                self.width == old(self).width,
                self.height == old(self).height,
                self.max_stddev == old(self).max_stddev,
                self.colormap == old(self).colormap,
                w == self.width as int,
                h == self.height as int,
                stats_ingest(self.cells(), w, h, locs, zs, i as int) == stats_ingest(
                    old(self).cells(),
                    w,
                    h,
                    locs,
                    zs,
                    0,
                ),
            decreases n - i,
        {
            let p = discretized_locations[i];
            let z = points_batch.position[i].z;
            proof {
                assert(zs[i as int] == z);
            }
            let ghost pre = self.cells();
            if p.x < self.width && p.y < self.height {
                proof {
                    lemma_rowmajor_bound(w, h, p.x as int, p.y as int);
                }
                let _buffer_len = self.per_column.len();
                let idx: usize = (p.y as usize) * (self.width as usize) + (p.x as usize);
                let acc = self.per_column[idx];
                proof {
                    lemma_stats_add_wf(acc, z);
                    assert(-0x10000000000 <= z <= 0x10000000000);
                    assert(0 <= z * z <= 0x100000000000000000000) by (nonlinear_arith)
                        requires
                            -0x10000000000 <= z <= 0x10000000000,
                    ;
                }
                if acc.count < 0x800000000000 {
                    let zz: u128 = ((z as i128) * (z as i128)) as u128;
                    self.per_column.set(
                        idx,
                        StatsAcc {
                            count: acc.count + 1,
                            sum: acc.sum + (z as i128),
                            sum_sq: acc.sum_sq + zz,
                        },
                    );
                }
                proof {
                    assert(self.cells() =~= pre.update(idx as int, stats_add(pre[idx as int], z)));
                    assert(self.cells() == stats_step(pre, w, h, p, z));
                }
            } else {
                proof {
                    assert(self.cells() == stats_step(pre, w, h, p, z));
                }
            }
            i = i + 1;
        }
        proof {
            assert(stats_ingest(self.cells(), w, h, locs, zs, n as int) == self.cells());
            assert(self.cells() == stats_ingest(old(self).cells(), w, h, locs, zs, 0));
        }
    }

    /// The pixel color of a column: the colormap at the clamped standard
    /// deviation, or `None` where no point fell.
    pub fn get_pixel_color(&self, x: u32, y: u32) -> (r: Option<Color>)
        requires
            self.wf(),
            x < self.width,
            y < self.height,
        ensures
            r == stddev_pixel_spec(
                self.cells(),
                self.width as int,
                self.max_stddev as int,
                self.colormap,
                x as int,
                y as int,
            ),
    {
        proof {
            lemma_rowmajor_bound(self.width as int, self.height as int, x as int, y as int);
        }
        let _buffer_len = self.per_column.len();
        let idx: usize = (y as usize) * (self.width as usize) + (x as usize);
        let acc = self.per_column[idx];
        if acc.count == 0 {
            return Option::None;
        }
        let mean: i128 = crate::point_data::floor_div(acc.sum, acc.count as i128);
        proof {
            assert(-0x10000000000 <= (acc.sum as int) / (acc.count as int) <= 0x10000000000)
                by (nonlinear_arith)
                requires
                    1 <= acc.count,
                    -(acc.count as int) * 0x10000000000 <= acc.sum <= (acc.count as int)
                        * 0x10000000000,
            ;
            assert(0 <= (acc.sum_sq as int) / (acc.count as int) <= 0x100000000000000000000)
                by (nonlinear_arith)
                requires
                    1 <= acc.count,
                    0 <= acc.sum_sq <= (acc.count as int) * 0x100000000000000000000,
            ;
            assert(0 <= mean * mean <= 0x100000000000000000000) by (nonlinear_arith)
                requires
                    -0x10000000000 <= mean <= 0x10000000000,
            ;
        }
        let msq: i128 = mean * mean;
        let mean_sq: i128 = ((acc.sum_sq / (acc.count as u128)) as i128);
        let raw: i128 = mean_sq - msq;
        let var: i128 = if raw < 0 {
            0
        } else {
            raw
        };
        let sd128 = isqrt(var as u128);
        proof {
            lemma_sqrt_floor(var as int, sd128 as int);
        }
        let sd: u64 = if sd128 > (self.max_stddev as u128) {
            self.max_stddev
        } else {
            sd128 as u64
        };
        Option::Some(self.colormap.for_value(sd, self.max_stddev))
    }
}

} // verus!

verus! {

// ------------------------------------------------------------------
// Strategy selection and dispatch
// ------------------------------------------------------------------

/// Which coloring strategy a pyramid build uses, with its parameters.
/// Intensities, intensity bounds and bin sizes are fixed-point numbers in
/// `FIXED_ONE` units; the stddev bound is in world units.
#[derive(Clone, Debug)]
pub enum ColoringStrategyKind {
    XRay,
    Colored(Option<Binning>),
    ColoredWithIntensity(i64, i64, Option<Binning>),
    ColoredWithHeightStddev(u64, ColormapArgument),
}

impl ColoringStrategyKind {
    /// The parameters a kind needs to make sense.
    pub open spec fn wf(self) -> bool {
        match self {
            ColoringStrategyKind::XRay => true,
            ColoringStrategyKind::Colored(b) => true,
            ColoringStrategyKind::ColoredWithIntensity(min, max, b) => min < max && max - min
                <= i64::MAX,
            ColoringStrategyKind::ColoredWithHeightStddev(max_stddev, _) => 1 <= max_stddev
                <= 0x100000000,
        }
    }

    /// A fresh strategy of this kind for one leaf tile of the given size.
    pub fn new_strategy(&self, width: u32, height: u32) -> (r: ColoringStrategy)
        requires
            self.wf(),
            (width as int) * (height as int) <= 0xFFFFFFFF,
        ensures
            r.wf(),
            r.width_spec() == width,
            r.height_spec() == height,
            r.is_fresh_of_kind(*self),
    {
        match self {
            ColoringStrategyKind::XRay => ColoringStrategy::XRay(
                XRayColoringStrategy::new(width, height),
            ),
            ColoringStrategyKind::Colored(binning) => ColoringStrategy::Colored(
                PointColorColoringStrategy::new(clone_binning(binning), width, height),
            ),
            ColoringStrategyKind::ColoredWithIntensity(min, max, binning) => {
                ColoringStrategy::Intensity(
                    IntensityColoringStrategy::new(
                        *min,
                        *max,
                        clone_binning(binning),
                        width,
                        height,
                    ),
                )
            },
            ColoringStrategyKind::ColoredWithHeightStddev(max_stddev, ColormapArgument::Jet) => {
                ColoringStrategy::HeightStddev(
                    HeightStddevColoringStrategy::new(*max_stddev, Colormap::Jet, width, height),
                )
            },
            ColoringStrategyKind::ColoredWithHeightStddev(
                max_stddev,
                ColormapArgument::Purplish,
            ) => {
                ColoringStrategy::HeightStddev(
                    HeightStddevColoringStrategy::new(
                        *max_stddev,
                        Colormap::Monochrome(purplish()),
                        width,
                        height,
                    ),
                )
            },
        }
    }
}

/// Two optional binnings that partition identically: same attribute name
/// text and same bin size.
pub open spec fn binning_like(a: Option<Binning>, b: Option<Binning>) -> bool {
    match (a, b) {
        (Option::None, Option::None) => true,
        (Option::Some(x), Option::Some(y)) => x.bin_size == y.bin_size && x.attribute_name@
            == y.attribute_name@,
        _ => false,
    }
}

/// Copies an optional binning.
fn clone_binning(binning: &Option<Binning>) -> (r: Option<Binning>)
    ensures
        binning_like(r, *binning),
{
    match binning {
        Option::None => Option::None,
        Option::Some(b) => {
            let name = b.attribute_name.clone();
            Option::Some(Binning { attribute_name: name, bin_size: b.bin_size })
        },
    }
}

/// A column reducer: one of the four interchangeable per-column policies.
pub enum ColoringStrategy {
    XRay(XRayColoringStrategy),
    Colored(PointColorColoringStrategy),
    Intensity(IntensityColoringStrategy),
    HeightStddev(HeightStddevColoringStrategy),
}

impl ColoringStrategy {
    pub open spec fn wf(self) -> bool {
        match self {
            ColoringStrategy::XRay(s) => s.wf(),
            ColoringStrategy::Colored(s) => s.wf(),
            ColoringStrategy::Intensity(s) => s.wf(),
            ColoringStrategy::HeightStddev(s) => s.wf(),
        }
    }

    pub open spec fn width_spec(self) -> u32 {
        match self {
            ColoringStrategy::XRay(s) => s.width,
            ColoringStrategy::Colored(s) => s.width,
            ColoringStrategy::Intensity(s) => s.width,
            ColoringStrategy::HeightStddev(s) => s.width,
        }
    }

    pub open spec fn height_spec(self) -> u32 {
        match self {
            ColoringStrategy::XRay(s) => s.height,
            ColoringStrategy::Colored(s) => s.height,
            ColoringStrategy::Intensity(s) => s.height,
            ColoringStrategy::HeightStddev(s) => s.height,
        }
    }

    /// A strategy fresh from `new_strategy`: the right variant with the
    /// kind's parameters and no accumulated point.
    pub open spec fn is_fresh_of_kind(self, kind: ColoringStrategyKind) -> bool {
        match (kind, self) {
            (ColoringStrategyKind::XRay, ColoringStrategy::XRay(s)) => forall|c: int|
                0 <= c < s.cells().len() ==> (#[trigger] s.cells()[c]).len() == 0,
            (ColoringStrategyKind::Colored(b), ColoringStrategy::Colored(s)) => binning_like(
                s.binning,
                b,
            ) && forall|c: int| 0 <= c < s.cells().len() ==> (#[trigger] s.cells()[c]).len() == 0,
            (
                ColoringStrategyKind::ColoredWithIntensity(min, max, b),
                ColoringStrategy::Intensity(s),
            ) => s.min == min && s.max == max && binning_like(s.binning, b) && forall|c: int|
                0 <= c < s.cells().len() ==> (#[trigger] s.cells()[c]).len() == 0,
            (
                ColoringStrategyKind::ColoredWithHeightStddev(max_stddev, cma),
                ColoringStrategy::HeightStddev(s),
            ) => s.max_stddev == max_stddev && (match cma {
                ColormapArgument::Jet => s.colormap is Jet,
                ColormapArgument::Purplish => s.colormap == Colormap::Monochrome(purplish_spec()),
            }) && forall|c: int| 0 <= c < s.cells().len() ==> (#[trigger] s.cells()[c]).count == 0,
            _ => false,
        }
    }

    /// What a strategy asks of a batch before it can absorb it.
    pub open spec fn batch_ok(self, batch: PointsBatch, locs: Seq<Point3u>) -> bool {
        match self {
            ColoringStrategy::XRay(s) => true,
            ColoringStrategy::Colored(s) => s.batch_ok(batch, locs),
            ColoringStrategy::Intensity(s) => s.batch_ok(batch, locs),
            ColoringStrategy::HeightStddev(s) => locs.len() == batch.position@.len() && forall|
                i: int,
            |
                0 <= i < batch.position@.len() ==> -0x10000000000 <= (#[trigger] batch.position@[
                    i
                ]).z <= 0x10000000000,
        }
    }

    /// Absorbs one batch of points already discretized to columns.
    pub fn process_discretized_point_data(
        &mut self,
        points_batch: &PointsBatch,
        discretized_locations: &Vec<Point3u>,
    )
        requires
            old(self).wf(),
            old(self).batch_ok(*points_batch, discretized_locations@),
        ensures
            final(self).wf(),
            final(self).width_spec() == old(self).width_spec(),
            final(self).height_spec() == old(self).height_spec(),
            match (*old(self), *final(self)) {
                (ColoringStrategy::XRay(s0), ColoringStrategy::XRay(s1)) => s1.cells()
                    == xray_ingest(
                    s0.cells(),
                    s0.width as int,
                    s0.height as int,
                    discretized_locations@,
                    0,
                ),
                (ColoringStrategy::Colored(s0), ColoringStrategy::Colored(s1)) => s1.binning
                    == s0.binning && s1.cells() == color_ingest(
                    s0.cells(),
                    s0.width as int,
                    s0.height as int,
                    discretized_locations@,
                    bins_spec(
                        s0.binning,
                        points_batch.attributes@,
                        points_batch.position@.len() as int,
                    ),
                    PointColorColoringStrategy::colors_of(points_batch.attributes@),
                    0,
                ),
                (ColoringStrategy::Intensity(s0), ColoringStrategy::Intensity(s1)) => s1.min
                    == s0.min && s1.max == s0.max && s1.binning == s0.binning && s1.cells()
                    == intensity_ingest(
                    s0.cells(),
                    s0.width as int,
                    s0.height as int,
                    discretized_locations@,
                    bins_spec(
                        s0.binning,
                        points_batch.attributes@,
                        points_batch.position@.len() as int,
                    ),
                    IntensityColoringStrategy::intensities_of(points_batch.attributes@),
                    0,
                ),
                (ColoringStrategy::HeightStddev(s0), ColoringStrategy::HeightStddev(s1)) => {
                    s1.max_stddev == s0.max_stddev && s1.colormap == s0.colormap && s1.cells()
                        == stats_ingest(
                        s0.cells(),
                        s0.width as int,
                        s0.height as int,
                        discretized_locations@,
                        points_batch.position@.map_values(
                            |p: crate::point_data::Point3i| p.z,
                        ),
                        0,
                    )
                },
                _ => false,
            },
    {
        match self {
            ColoringStrategy::XRay(s) => s.process_discretized_point_data(discretized_locations),
            ColoringStrategy::Colored(s) => s.process_discretized_point_data(
                points_batch,
                discretized_locations,
            ),
            ColoringStrategy::Intensity(s) => s.process_discretized_point_data(
                points_batch,
                discretized_locations,
            ),
            ColoringStrategy::HeightStddev(s) => s.process_discretized_point_data(
                points_batch,
                discretized_locations,
            ),
        }
    }

    /// The color a strategy assigns to pixel `(x, y)`.
    pub open spec fn pixel_color_spec(self, x: int, y: int) -> Option<Color> {
        match self {
            ColoringStrategy::XRay(s) => xray_pixel_spec(s.cells(), s.width as int, x, y),
            ColoringStrategy::Colored(s) => color_pixel_spec(s.cells(), s.width as int, x, y),
            ColoringStrategy::Intensity(s) => intensity_pixel_spec(
                s.cells(),
                s.width as int,
                s.min as int,
                s.max as int,
                x,
                y,
            ),
            ColoringStrategy::HeightStddev(s) => stddev_pixel_spec(
                s.cells(),
                s.width as int,
                s.max_stddev as int,
                s.colormap,
                x,
                y,
            ),
        }
    }

    /// The color of pixel `(x, y)` after all batches, `None` where no point
    /// fell.
    pub fn get_pixel_color(&self, x: u32, y: u32) -> (r: Option<Color>)
        requires
            self.wf(),
            x < self.width_spec(),
            y < self.height_spec(),
        ensures
            r == self.pixel_color_spec(x as int, y as int),
    {
        match self {
            ColoringStrategy::XRay(s) => s.get_pixel_color(x, y),
            ColoringStrategy::Colored(s) => s.get_pixel_color(x, y),
            ColoringStrategy::Intensity(s) => s.get_pixel_color(x, y),
            ColoringStrategy::HeightStddev(s) => s.get_pixel_color(x, y),
        }
    }

    /// The attribute names this strategy needs the point source to deliver.
    pub open spec fn attributes_spec(self) -> Seq<Seq<char>> {
        match self {
            ColoringStrategy::XRay(_) => Seq::empty(),
            ColoringStrategy::Colored(s) => match s.binning {
                Option::Some(b) => seq!["color"@, b.attribute_name@],
                Option::None => seq!["color"@],
            },
            ColoringStrategy::Intensity(s) => match s.binning {
                Option::Some(b) => seq!["intensity"@, b.attribute_name@],
                Option::None => seq!["intensity"@],
            },
            ColoringStrategy::HeightStddev(_) => Seq::empty(),
        }
    }

    /// Lists the attribute names this strategy needs.
    pub fn attributes(&self) -> (r: Vec<String>)
        ensures
            r.deep_view() == self.attributes_spec(),
    {
        let mut r: Vec<String> = Vec::new();
        match self {
            ColoringStrategy::XRay(_) => {},
            ColoringStrategy::Colored(s) => {
                r.push("color".to_owned());
                if let Option::Some(b) = &s.binning {
                    r.push(b.attribute_name.clone());
                }
            },
            ColoringStrategy::Intensity(s) => {
                r.push("intensity".to_owned());
                if let Option::Some(b) = &s.binning {
                    r.push(b.attribute_name.clone());
                }
            },
            ColoringStrategy::HeightStddev(_) => {},
        }
        proof {
            assert(r.deep_view() =~= self.attributes_spec());
        }
        r
    }
}

} // verus!
