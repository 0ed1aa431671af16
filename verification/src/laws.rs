//! Laws of the rasterizer that relate several functions: how batch splits
//! and extra points change — or cannot change — the rendered pixels.

use vstd::prelude::*;
use crate::point_data::Point3u;
use crate::saturation::{lemma_xray_gray_antitone, lemma_xray_gray_in_range};
use crate::strategies::{
    cell_index, xray_step, xray_ingest, xray_pixel_spec, color_step, color_ingest, stats_step,
    stats_ingest, intensity_step, intensity_ingest,
};

verus! {

/// Absorbing one more point never brightens an X-ray pixel: where the
/// column already shows a gray level, the level after the extra point is at
/// most as high, channel for channel.
pub proof fn lemma_xray_monotone_darkness(
    cells: Seq<Seq<u32>>,
    w: int,
    h: int,
    p: Point3u,
    x: int,
    y: int,
)
    requires
        0 <= x < w,
        0 <= y < h,
        cells.len() == w * h,
    ensures
        xray_pixel_spec(cells, w, x, y) is Some ==> {
            let before = xray_pixel_spec(cells, w, x, y).unwrap();
            let after = xray_pixel_spec(xray_step(cells, w, h, p), w, x, y).unwrap();
            after.red <= before.red && after.green <= before.green && after.blue <= before.blue
                && after.alpha == before.alpha
        },
{
    let idx = cell_index(w, x, y);
    crate::tile::lemma_rowmajor_bound(w, h, x, y);
    if p.x < w && p.y < h {
        crate::tile::lemma_rowmajor_bound(w, h, p.x as int, p.y as int);
    }
    let c0 = cells[idx];
    let c1 = xray_step(cells, w, h, p)[idx];
    assert(c0.len() <= c1.len() <= c0.len() + 1);
    if c0.len() > 0 {
        let n0: u32 = if c0.len() >= 0xFFFFFFFF {
            0xFFFFFFFFu32
        } else {
            c0.len() as u32
        };
        let n1: u32 = if c1.len() >= 0xFFFFFFFF {
            0xFFFFFFFFu32
        } else {
            c1.len() as u32
        };
        assert(n0 <= n1);
        lemma_xray_gray_antitone(n0, n1);
        lemma_xray_gray_in_range(n0);
        lemma_xray_gray_in_range(n1);
    }
}

/// The entries of a concatenation, read from the length of the first part
/// on, are the entries of the second part: absorbing them is the same.
proof fn lemma_xray_ingest_shift(
    cells: Seq<Seq<u32>>,
    w: int,
    h: int,
    a: Seq<Point3u>,
    b: Seq<Point3u>,
    i: int,
)
    requires
        a.len() <= i <= a.len() + b.len(),
    ensures
        xray_ingest(cells, w, h, a + b, i) == xray_ingest(cells, w, h, b, i - a.len()),
    decreases a.len() + b.len() - i,
{
    if i < a.len() + b.len() {
        assert((a + b).len() == a.len() + b.len());
        assert((a + b)[i] == b[i - a.len()]);
        lemma_xray_ingest_shift(xray_step(cells, w, h, (a + b)[i]), w, h, a, b, i + 1);
    }
}

proof fn lemma_xray_ingest_concat_from(
    cells: Seq<Seq<u32>>,
    w: int,
    h: int,
    a: Seq<Point3u>,
    b: Seq<Point3u>,
    i: int,
)
    requires
        0 <= i <= a.len(),
    ensures
        xray_ingest(cells, w, h, a + b, i) == xray_ingest(
            xray_ingest(cells, w, h, a, i),
            w,
            h,
            b,
            0,
        ),
    decreases a.len() - i,
{
    if i == a.len() {
        lemma_xray_ingest_shift(cells, w, h, a, b, i);
    } else {
        assert((a + b)[i] == a[i]);
        lemma_xray_ingest_concat_from(xray_step(cells, w, h, a[i]), w, h, a, b, i + 1);
    }
}

/// Batch-split commutativity of the X-ray strategy: absorbing a point set
/// in one batch or split into two consecutive batches fills the very same
/// z-bucket sets, so every pixel comes out bit-identical.
pub proof fn lemma_xray_batch_split(
    cells: Seq<Seq<u32>>,
    w: int,
    h: int,
    a: Seq<Point3u>,
    b: Seq<Point3u>,
)
    ensures
        xray_ingest(cells, w, h, a + b, 0) == xray_ingest(
            xray_ingest(cells, w, h, a, 0),
            w,
            h,
            b,
            0,
        ),
{
    lemma_xray_ingest_concat_from(cells, w, h, a, b, 0);
}

/// Batch-split commutativity of the point-color strategy.
pub proof fn lemma_color_batch_split(
    cells: Seq<Seq<crate::strategies::ColorAcc>>,
    w: int,
    h: int,
    a_locs: Seq<Point3u>,
    b_locs: Seq<Point3u>,
    a_keys: Seq<i64>,
    b_keys: Seq<i64>,
    a_colors: Seq<crate::point_data::Rgb8>,
    b_colors: Seq<crate::point_data::Rgb8>,
)
    requires
        a_locs.len() == a_keys.len() == a_colors.len(),
        b_locs.len() == b_keys.len() == b_colors.len(),
    ensures
        color_ingest(cells, w, h, a_locs + b_locs, a_keys + b_keys, a_colors + b_colors, 0)
            == color_ingest(
            color_ingest(cells, w, h, a_locs, a_keys, a_colors, 0),
            w,
            h,
            b_locs,
            b_keys,
            b_colors,
            0,
        ),
{
    lemma_color_concat_from(
        cells,
        w,
        h,
        a_locs,
        b_locs,
        a_keys,
        b_keys,
        a_colors,
        b_colors,
        0,
    );
}

proof fn lemma_color_shift(
    cells: Seq<Seq<crate::strategies::ColorAcc>>,
    w: int,
    h: int,
    a_locs: Seq<Point3u>,
    b_locs: Seq<Point3u>,
    a_keys: Seq<i64>,
    b_keys: Seq<i64>,
    a_colors: Seq<crate::point_data::Rgb8>,
    b_colors: Seq<crate::point_data::Rgb8>,
    i: int,
)
    requires
        a_locs.len() == a_keys.len() == a_colors.len(),
        b_locs.len() == b_keys.len() == b_colors.len(),
        a_locs.len() <= i <= a_locs.len() + b_locs.len(),
    ensures
        color_ingest(cells, w, h, a_locs + b_locs, a_keys + b_keys, a_colors + b_colors, i)
            == color_ingest(cells, w, h, b_locs, b_keys, b_colors, i - a_locs.len()),
    decreases a_locs.len() + b_locs.len() - i,
{
    if i < a_locs.len() + b_locs.len() {
        assert((a_locs + b_locs)[i] == b_locs[i - a_locs.len()]);
        assert((a_keys + b_keys)[i] == b_keys[i - a_keys.len()]);
        assert((a_colors + b_colors)[i] == b_colors[i - a_colors.len()]);
        lemma_color_shift(
            color_step(
                cells,
                w,
                h,
                (a_locs + b_locs)[i],
                (a_keys + b_keys)[i],
                (a_colors + b_colors)[i],
            ),
            w,
            h,
            a_locs,
            b_locs,
            a_keys,
            b_keys,
            a_colors,
            b_colors,
            i + 1,
        );
    }
}

proof fn lemma_color_concat_from(
    cells: Seq<Seq<crate::strategies::ColorAcc>>,
    w: int,
    h: int,
    a_locs: Seq<Point3u>,
    b_locs: Seq<Point3u>,
    a_keys: Seq<i64>,
    b_keys: Seq<i64>,
    a_colors: Seq<crate::point_data::Rgb8>,
    b_colors: Seq<crate::point_data::Rgb8>,
    i: int,
)
    requires
        a_locs.len() == a_keys.len() == a_colors.len(),
        b_locs.len() == b_keys.len() == b_colors.len(),
        0 <= i <= a_locs.len(),
    ensures
        color_ingest(cells, w, h, a_locs + b_locs, a_keys + b_keys, a_colors + b_colors, i)
            == color_ingest(
            color_ingest(cells, w, h, a_locs, a_keys, a_colors, i),
            w,
            h,
            b_locs,
            b_keys,
            b_colors,
            0,
        ),
    decreases a_locs.len() - i,
{
    if i == a_locs.len() {
        lemma_color_shift(cells, w, h, a_locs, b_locs, a_keys, b_keys, a_colors, b_colors, i);
    } else {
        assert((a_locs + b_locs)[i] == a_locs[i]);
        assert((a_keys + b_keys)[i] == a_keys[i]);
        assert((a_colors + b_colors)[i] == a_colors[i]);
        lemma_color_concat_from(
            color_step(cells, w, h, a_locs[i], a_keys[i], a_colors[i]),
            w,
            h,
            a_locs,
            b_locs,
            a_keys,
            b_keys,
            a_colors,
            b_colors,
            i + 1,
        );
    }
}

/// Batch-split commutativity of the height-stddev strategy.
pub proof fn lemma_stats_batch_split(
    cells: Seq<crate::strategies::StatsAcc>,
    w: int,
    h: int,
    a_locs: Seq<Point3u>,
    b_locs: Seq<Point3u>,
    a_zs: Seq<i64>,
    b_zs: Seq<i64>,
)
    requires
        a_locs.len() == a_zs.len(),
        b_locs.len() == b_zs.len(),
    ensures
        stats_ingest(cells, w, h, a_locs + b_locs, a_zs + b_zs, 0) == stats_ingest(
            stats_ingest(cells, w, h, a_locs, a_zs, 0),
            w,
            h,
            b_locs,
            b_zs,
            0,
        ),
{
    lemma_stats_concat_from(cells, w, h, a_locs, b_locs, a_zs, b_zs, 0);
}

proof fn lemma_stats_shift(
    cells: Seq<crate::strategies::StatsAcc>,
    w: int,
    h: int,
    a_locs: Seq<Point3u>,
    b_locs: Seq<Point3u>,
    a_zs: Seq<i64>,
    b_zs: Seq<i64>,
    i: int,
)
    requires
        a_locs.len() == a_zs.len(),
        b_locs.len() == b_zs.len(),
        a_locs.len() <= i <= a_locs.len() + b_locs.len(),
    ensures
        stats_ingest(cells, w, h, a_locs + b_locs, a_zs + b_zs, i) == stats_ingest(
            cells,
            w,
            h,
            b_locs,
            b_zs,
            i - a_locs.len(),
        ),
    decreases a_locs.len() + b_locs.len() - i,
{
    if i < a_locs.len() + b_locs.len() {
        assert((a_locs + b_locs)[i] == b_locs[i - a_locs.len()]);
        assert((a_zs + b_zs)[i] == b_zs[i - a_zs.len()]);
        lemma_stats_shift(
            stats_step(cells, w, h, (a_locs + b_locs)[i], (a_zs + b_zs)[i]),
            w,
            h,
            a_locs,
            b_locs,
            a_zs,
            b_zs,
            i + 1,
        );
    }
}

proof fn lemma_stats_concat_from(
    cells: Seq<crate::strategies::StatsAcc>,
    w: int,
    h: int,
    a_locs: Seq<Point3u>,
    b_locs: Seq<Point3u>,
    a_zs: Seq<i64>,
    b_zs: Seq<i64>,
    i: int,
)
    requires
        a_locs.len() == a_zs.len(),
        b_locs.len() == b_zs.len(),
        0 <= i <= a_locs.len(),
    ensures
        stats_ingest(cells, w, h, a_locs + b_locs, a_zs + b_zs, i) == stats_ingest(
            stats_ingest(cells, w, h, a_locs, a_zs, i),
            w,
            h,
            b_locs,
            b_zs,
            0,
        ),
    decreases a_locs.len() - i,
{
    if i == a_locs.len() {
        lemma_stats_shift(cells, w, h, a_locs, b_locs, a_zs, b_zs, i);
    } else {
        assert((a_locs + b_locs)[i] == a_locs[i]);
        assert((a_zs + b_zs)[i] == a_zs[i]);
        lemma_stats_concat_from(
            stats_step(cells, w, h, a_locs[i], a_zs[i]),
            w,
            h,
            a_locs,
            b_locs,
            a_zs,
            b_zs,
            i + 1,
        );
    }
}

/// Batch-split commutativity of the intensity strategy, on batches whose
/// intensities are all nonnegative; a negative intensity aborts the rest of
/// its own batch, so splitting around it changes which points survive.
pub proof fn lemma_intensity_batch_split(
    cells: Seq<Seq<crate::strategies::IntAcc>>,
    w: int,
    h: int,
    a_locs: Seq<Point3u>,
    b_locs: Seq<Point3u>,
    a_keys: Seq<i64>,
    b_keys: Seq<i64>,
    a_vals: Seq<i64>,
    b_vals: Seq<i64>,
)
    requires
        a_locs.len() == a_keys.len() == a_vals.len(),
        b_locs.len() == b_keys.len() == b_vals.len(),
        forall|i: int| 0 <= i < a_vals.len() ==> #[trigger] a_vals[i] >= 0,
        forall|i: int| 0 <= i < b_vals.len() ==> #[trigger] b_vals[i] >= 0,
    ensures
        intensity_ingest(cells, w, h, a_locs + b_locs, a_keys + b_keys, a_vals + b_vals, 0)
            == intensity_ingest(
            intensity_ingest(cells, w, h, a_locs, a_keys, a_vals, 0),
            w,
            h,
            b_locs,
            b_keys,
            b_vals,
            0,
        ),
{
    lemma_intensity_concat_from(
        cells,
        w,
        h,
        a_locs,
        b_locs,
        a_keys,
        b_keys,
        a_vals,
        b_vals,
        0,
    );
}

proof fn lemma_intensity_shift(
    cells: Seq<Seq<crate::strategies::IntAcc>>,
    w: int,
    h: int,
    a_locs: Seq<Point3u>,
    b_locs: Seq<Point3u>,
    a_keys: Seq<i64>,
    b_keys: Seq<i64>,
    a_vals: Seq<i64>,
    b_vals: Seq<i64>,
    i: int,
)
    requires
        a_locs.len() == a_keys.len() == a_vals.len(),
        b_locs.len() == b_keys.len() == b_vals.len(),
        a_locs.len() <= i <= a_locs.len() + b_locs.len(),
    ensures
        intensity_ingest(cells, w, h, a_locs + b_locs, a_keys + b_keys, a_vals + b_vals, i)
            == intensity_ingest(cells, w, h, b_locs, b_keys, b_vals, i - a_locs.len()),
    decreases a_locs.len() + b_locs.len() - i,
{
    if i < a_locs.len() + b_locs.len() {
        assert((a_locs + b_locs)[i] == b_locs[i - a_locs.len()]);
        assert((a_keys + b_keys)[i] == b_keys[i - a_keys.len()]);
        assert((a_vals + b_vals)[i] == b_vals[i - a_vals.len()]);
        if (a_vals + b_vals)[i] >= 0 {
            lemma_intensity_shift(
                intensity_step(
                    cells,
                    w,
                    h,
                    (a_locs + b_locs)[i],
                    (a_keys + b_keys)[i],
                    (a_vals + b_vals)[i],
                ),
                w,
                h,
                a_locs,
                b_locs,
                a_keys,
                b_keys,
                a_vals,
                b_vals,
                i + 1,
            );
        }
    }
}

proof fn lemma_intensity_concat_from(
    cells: Seq<Seq<crate::strategies::IntAcc>>,
    w: int,
    h: int,
    a_locs: Seq<Point3u>,
    b_locs: Seq<Point3u>,
    a_keys: Seq<i64>,
    b_keys: Seq<i64>,
    a_vals: Seq<i64>,
    b_vals: Seq<i64>,
    i: int,
)
    requires
        a_locs.len() == a_keys.len() == a_vals.len(),
        b_locs.len() == b_keys.len() == b_vals.len(),
        forall|k: int| 0 <= k < a_vals.len() ==> #[trigger] a_vals[k] >= 0,
        0 <= i <= a_locs.len(),
    ensures
        intensity_ingest(cells, w, h, a_locs + b_locs, a_keys + b_keys, a_vals + b_vals, i)
            == intensity_ingest(
            intensity_ingest(cells, w, h, a_locs, a_keys, a_vals, i),
            w,
            h,
            b_locs,
            b_keys,
            b_vals,
            0,
        ),
    decreases a_locs.len() - i,
{
    if i == a_locs.len() {
        lemma_intensity_shift(cells, w, h, a_locs, b_locs, a_keys, b_keys, a_vals, b_vals, i);
    } else {
        assert((a_locs + b_locs)[i] == a_locs[i]);
        assert((a_keys + b_keys)[i] == a_keys[i]);
        assert((a_vals + b_vals)[i] == a_vals[i]);
        assert(a_vals[i] >= 0);
        lemma_intensity_concat_from(
            intensity_step(cells, w, h, a_locs[i], a_keys[i], a_vals[i]),
            w,
            h,
            a_locs,
            b_locs,
            a_keys,
            b_keys,
            a_vals,
            b_vals,
            i + 1,
        );
    }
}

} // verus!

use crate::strategies::{
    IntAcc, ColorAcc, int_upsert, color_upsert, find_bin_int, find_bin_color, int_means_sum,
    color_means_sum_red, color_means_sum_green, color_means_sum_blue, intensity_pixel_spec,
    color_pixel_spec,
};

verus! {

/// Two intensity columns that hold the same single bin under different
/// keys: same occupancy, same sum and count.
pub open spec fn int_cell_alike(c1: Seq<IntAcc>, c2: Seq<IntAcc>, k1: i64, k2: i64) -> bool {
    &&& c1.len() == c2.len()
    &&& c1.len() <= 1
    &&& (c1.len() == 1 ==> c1[0].bin == k1 && c2[0].bin == k2 && c1[0].sum == c2[0].sum && c1[
        0
    ].count == c2[0].count)
}

pub open spec fn int_cells_alike(
    cs1: Seq<Seq<IntAcc>>,
    cs2: Seq<Seq<IntAcc>>,
    k1: i64,
    k2: i64,
) -> bool {
    &&& cs1.len() == cs2.len()
    &&& forall|c: int| 0 <= c < cs1.len() ==> int_cell_alike(#[trigger] cs1[c], cs2[c], k1, k2)
}

proof fn lemma_int_upsert_alike(c1: Seq<IntAcc>, c2: Seq<IntAcc>, k1: i64, k2: i64, val: i64)
    requires
        int_cell_alike(c1, c2, k1, k2),
    ensures
        int_cell_alike(int_upsert(c1, k1, val), int_upsert(c2, k2, val), k1, k2),
{
    if c1.len() == 0 {
        assert(find_bin_int(c1, k1) == -1);
        assert(find_bin_int(c2, k2) == -1);
    } else {
        assert(find_bin_int(c1, k1) == 0);
        assert(find_bin_int(c2, k2) == 0);
    }
}

proof fn lemma_intensity_step_alike(
    cs1: Seq<Seq<IntAcc>>,
    cs2: Seq<Seq<IntAcc>>,
    w: int,
    h: int,
    p: Point3u,
    k1: i64,
    k2: i64,
    val: i64,
)
    requires
        int_cells_alike(cs1, cs2, k1, k2),
        cs1.len() == w * h,
    ensures
        int_cells_alike(intensity_step(cs1, w, h, p, k1, val), intensity_step(cs2, w, h, p, k2, val), k1, k2),
        intensity_step(cs1, w, h, p, k1, val).len() == cs1.len(),
{
    if p.x < w && p.y < h {
        crate::tile::lemma_rowmajor_bound(w, h, p.x as int, p.y as int);
        let idx = cell_index(w, p.x as int, p.y as int);
        if 0 <= idx < cs1.len() {
            lemma_int_upsert_alike(cs1[idx], cs2[idx], k1, k2, val);
        }
        assert forall|c: int| 0 <= c < cs1.len() implies int_cell_alike(
            #[trigger] intensity_step(cs1, w, h, p, k1, val)[c],
            intensity_step(cs2, w, h, p, k2, val)[c],
            k1,
            k2,
        ) by {
            if c != idx {
                assert(intensity_step(cs1, w, h, p, k1, val)[c] == cs1[c]);
                assert(intensity_step(cs2, w, h, p, k2, val)[c] == cs2[c]);
            }
        }
    }
}

/// Bin invariance of the intensity strategy, accumulation half: runs that
/// key every point with one constant bin key build the same sums and
/// counts whatever that key is.  Keying by nothing (bin key 0 throughout)
/// is therefore the same as any single-bin keying.
pub proof fn lemma_intensity_bin_invariance_ingest(
    cs1: Seq<Seq<IntAcc>>,
    cs2: Seq<Seq<IntAcc>>,
    w: int,
    h: int,
    locs: Seq<Point3u>,
    keys1: Seq<i64>,
    keys2: Seq<i64>,
    vals: Seq<i64>,
    k1: i64,
    k2: i64,
    i: int,
)
    requires
        int_cells_alike(cs1, cs2, k1, k2),
        cs1.len() == w * h,
        keys1.len() == keys2.len() == vals.len(),
        forall|j: int| 0 <= j < keys1.len() ==> #[trigger] keys1[j] == k1,
        forall|j: int| 0 <= j < keys2.len() ==> #[trigger] keys2[j] == k2,
    ensures
        int_cells_alike(
            intensity_ingest(cs1, w, h, locs, keys1, vals, i),
            intensity_ingest(cs2, w, h, locs, keys2, vals, i),
            k1,
            k2,
        ),
    decreases vals.len() - i,
{
    if 0 <= i < vals.len() && i < locs.len() && vals[i] >= 0 {
        lemma_intensity_step_alike(cs1, cs2, w, h, locs[i], k1, k2, vals[i]);
        lemma_intensity_bin_invariance_ingest(
            intensity_step(cs1, w, h, locs[i], k1, vals[i]),
            intensity_step(cs2, w, h, locs[i], k2, vals[i]),
            w,
            h,
            locs,
            keys1,
            keys2,
            vals,
            k1,
            k2,
            i + 1,
        );
    }
}

/// Bin invariance of the intensity strategy, rendering half: columns with
/// the same single bin give the same pixel whatever the bin's key.
pub proof fn lemma_intensity_bin_invariance_pixel(
    cs1: Seq<Seq<IntAcc>>,
    cs2: Seq<Seq<IntAcc>>,
    k1: i64,
    k2: i64,
    w: int,
    min: int,
    max: int,
    x: int,
    y: int,
)
    requires
        int_cells_alike(cs1, cs2, k1, k2),
        0 <= cell_index(w, x, y) < cs1.len(),
    ensures
        intensity_pixel_spec(cs1, w, min, max, x, y) == intensity_pixel_spec(
            cs2,
            w,
            min,
            max,
            x,
            y,
        ),
{
    let idx = cell_index(w, x, y);
    let c1 = cs1[idx];
    let c2 = cs2[idx];
    if c1.len() == 1 {
        assert(int_means_sum(c1, 1) == int_means_sum(c1, 0) + (c1[0].sum as int) / (
        c1[0].count as int));
        assert(int_means_sum(c2, 1) == int_means_sum(c2, 0) + (c2[0].sum as int) / (
        c2[0].count as int));
    }
}

/// Two color columns that hold the same single bin under different keys.
pub open spec fn color_cell_alike(c1: Seq<ColorAcc>, c2: Seq<ColorAcc>, k1: i64, k2: i64) -> bool {
    &&& c1.len() == c2.len()
    &&& c1.len() <= 1
    &&& (c1.len() == 1 ==> c1[0].bin == k1 && c2[0].bin == k2 && c1[0].red_sum == c2[0].red_sum
        && c1[0].green_sum == c2[0].green_sum && c1[0].blue_sum == c2[0].blue_sum && c1[0].count
        == c2[0].count)
}

pub open spec fn color_cells_alike(
    cs1: Seq<Seq<ColorAcc>>,
    cs2: Seq<Seq<ColorAcc>>,
    k1: i64,
    k2: i64,
) -> bool {
    &&& cs1.len() == cs2.len()
    &&& forall|c: int| 0 <= c < cs1.len() ==> color_cell_alike(#[trigger] cs1[c], cs2[c], k1, k2)
}

proof fn lemma_color_upsert_alike(
    c1: Seq<ColorAcc>,
    c2: Seq<ColorAcc>,
    k1: i64,
    k2: i64,
    col: crate::point_data::Rgb8,
)
    requires
        color_cell_alike(c1, c2, k1, k2),
    ensures
        color_cell_alike(color_upsert(c1, k1, col), color_upsert(c2, k2, col), k1, k2),
{
    if c1.len() == 0 {
        assert(find_bin_color(c1, k1) == -1);
        assert(find_bin_color(c2, k2) == -1);
    } else {
        assert(find_bin_color(c1, k1) == 0);
        assert(find_bin_color(c2, k2) == 0);
    }
}

proof fn lemma_color_step_alike(
    cs1: Seq<Seq<ColorAcc>>,
    cs2: Seq<Seq<ColorAcc>>,
    w: int,
    h: int,
    p: Point3u,
    k1: i64,
    k2: i64,
    col: crate::point_data::Rgb8,
)
    requires
        color_cells_alike(cs1, cs2, k1, k2),
        cs1.len() == w * h,
    ensures
        color_cells_alike(color_step(cs1, w, h, p, k1, col), color_step(cs2, w, h, p, k2, col), k1, k2),
        color_step(cs1, w, h, p, k1, col).len() == cs1.len(),
{
    if p.x < w && p.y < h {
        crate::tile::lemma_rowmajor_bound(w, h, p.x as int, p.y as int);
        let idx = cell_index(w, p.x as int, p.y as int);
        if 0 <= idx < cs1.len() {
            lemma_color_upsert_alike(cs1[idx], cs2[idx], k1, k2, col);
        }
        assert forall|c: int| 0 <= c < cs1.len() implies color_cell_alike(
            #[trigger] color_step(cs1, w, h, p, k1, col)[c],
            color_step(cs2, w, h, p, k2, col)[c],
            k1,
            k2,
        ) by {
            if c != idx {
                assert(color_step(cs1, w, h, p, k1, col)[c] == cs1[c]);
                assert(color_step(cs2, w, h, p, k2, col)[c] == cs2[c]);
            }
        }
    }
}

/// Bin invariance of the point-color strategy, accumulation half.
pub proof fn lemma_color_bin_invariance_ingest(
    cs1: Seq<Seq<ColorAcc>>,
    cs2: Seq<Seq<ColorAcc>>,
    w: int,
    h: int,
    locs: Seq<Point3u>,
    keys1: Seq<i64>,
    keys2: Seq<i64>,
    colors: Seq<crate::point_data::Rgb8>,
    k1: i64,
    k2: i64,
    i: int,
)
    requires
        color_cells_alike(cs1, cs2, k1, k2),
        cs1.len() == w * h,
        keys1.len() == keys2.len() == colors.len(),
        forall|j: int| 0 <= j < keys1.len() ==> #[trigger] keys1[j] == k1,
        forall|j: int| 0 <= j < keys2.len() ==> #[trigger] keys2[j] == k2,
    ensures
        color_cells_alike(
            color_ingest(cs1, w, h, locs, keys1, colors, i),
            color_ingest(cs2, w, h, locs, keys2, colors, i),
            k1,
            k2,
        ),
    decreases colors.len() - i,
{
    if 0 <= i < colors.len() && i < locs.len() {
        lemma_color_step_alike(cs1, cs2, w, h, locs[i], k1, k2, colors[i]);
        lemma_color_bin_invariance_ingest(
            color_step(cs1, w, h, locs[i], k1, colors[i]),
            color_step(cs2, w, h, locs[i], k2, colors[i]),
            w,
            h,
            locs,
            keys1,
            keys2,
            colors,
            k1,
            k2,
            i + 1,
        );
    }
}

/// Bin invariance of the point-color strategy, rendering half.
pub proof fn lemma_color_bin_invariance_pixel(
    cs1: Seq<Seq<ColorAcc>>,
    cs2: Seq<Seq<ColorAcc>>,
    k1: i64,
    k2: i64,
    w: int,
    x: int,
    y: int,
)
    requires
        color_cells_alike(cs1, cs2, k1, k2),
        0 <= cell_index(w, x, y) < cs1.len(),
    ensures
        color_pixel_spec(cs1, w, x, y) == color_pixel_spec(cs2, w, x, y),
{
    let idx = cell_index(w, x, y);
    let c1 = cs1[idx];
    let c2 = cs2[idx];
    if c1.len() == 1 {
        assert(color_means_sum_red(c1, 1) == color_means_sum_red(c1, 0) + (
        c1[0].red_sum as int) / (c1[0].count as int));
        assert(color_means_sum_red(c2, 1) == color_means_sum_red(c2, 0) + (
        c2[0].red_sum as int) / (c2[0].count as int));
        assert(color_means_sum_green(c1, 1) == color_means_sum_green(c1, 0) + (
        c1[0].green_sum as int) / (c1[0].count as int));
        assert(color_means_sum_green(c2, 1) == color_means_sum_green(c2, 0) + (
        c2[0].green_sum as int) / (c2[0].count as int));
        assert(color_means_sum_blue(c1, 1) == color_means_sum_blue(c1, 0) + (
        c1[0].blue_sum as int) / (c1[0].count as int));
        assert(color_means_sum_blue(c2, 1) == color_means_sum_blue(c2, 0) + (
        c2[0].blue_sum as int) / (c2[0].count as int));
    }
}

} // verus!
