//! Rasterization: discretizing world points into pixel columns and turning
//! an accumulated strategy into a tile image.

use vstd::prelude::*;
use vstd::arithmetic::div_mod::{
    lemma_fundamental_div_mod, lemma_div_is_ordered, lemma_div_multiples_vanish,
};
use crate::color::{Color, transparent, transparent_spec};
use crate::point_data::{Aabb, Point3i, Point3u, PointsBatch};
use crate::strategies::ColoringStrategy;
use crate::tile::TileImage;

verus! {

/// The number of z-buckets a tile column is subdivided into.
pub const NUM_Z_BUCKETS: u64 = 1024;

/// The pixel column of a point: its fraction of the box's x extent, scaled
/// to the tile width and truncated.
pub open spec fn disc_x(p: Point3i, bbox: Aabb, size: int) -> int {
    (p.x - bbox.min.x) * size / bbox.diag_x()
}

/// The pixel row of a point: world y grows northward but rows grow
/// downward, so the fraction is taken from the box's top edge.
pub open spec fn disc_y(p: Point3i, bbox: Aabb, size: int) -> int {
    (bbox.max.y - p.y) * size / bbox.diag_y()
}

/// The z-bucket of a point: its fraction of the box's z extent over the
/// fixed bucket count.
pub open spec fn disc_z(p: Point3i, bbox: Aabb) -> int {
    (p.z - bbox.min.z) * (NUM_Z_BUCKETS as int) / bbox.diag_z()
}

/// A point inside the box, bounds included.
pub open spec fn in_box(p: Point3i, bbox: Aabb) -> bool {
    &&& bbox.min.x <= p.x <= bbox.max.x
    &&& bbox.min.y <= p.y <= bbox.max.y
    &&& bbox.min.z <= p.z <= bbox.max.z
}

/// A box that can discretize: every extent is positive.
pub open spec fn box_ok(bbox: Aabb) -> bool {
    bbox.wf() && bbox.diag_x() >= 1 && bbox.diag_y() >= 1 && bbox.diag_z() >= 1
}

/// The discretized locations of a whole position array.
pub open spec fn discretized_of(positions: Seq<Point3i>, bbox: Aabb, size: int) -> Seq<Point3u> {
    Seq::new(
        positions.len(),
        |i: int|
            Point3u {
                x: disc_x(positions[i], bbox, size) as u32,
                y: disc_y(positions[i], bbox, size) as u32,
                z: disc_z(positions[i], bbox) as u32,
            },
    )
}

/// A nonnegative number below `s * d` divides by `d` to below `s`.
proof fn lemma_div_below(a: int, d: int, s: int)
    requires
        0 <= a,
        0 < d,
        a < s * d,
    ensures
        a / d < s,
{
    lemma_fundamental_div_mod(a, d);
    vstd::arithmetic::div_mod::lemma_mod_bound(a, d);
    assert(a / d < s) by (nonlinear_arith)
        requires
            a == d * (a / d) + a % d,
            0 <= a % d < d,
            a < s * d,
            0 < d,
            0 <= a,
    ;
}

/// The ratio of a part to the whole extent stays within the tile scale.
proof fn lemma_disc_bounds(num: int, d: int, s: int)
    requires
        0 <= num <= d,
        1 <= d,
        0 <= s,
    ensures
        0 <= num * s / d <= s,
        num < d && s >= 1 ==> num * s / d < s,
        num == d ==> num * s / d == s,
        num == 0 ==> num * s / d == 0,
{
    assert(0 <= num * s) by (nonlinear_arith)
        requires
            0 <= num,
            0 <= s,
    ;
    assert(num * s <= d * s) by (nonlinear_arith)
        requires
            num <= d,
            0 <= s,
    ;
    lemma_div_is_ordered(num * s, d * s, d);
    lemma_div_multiples_vanish(s, d);
    assert((d * s) / d == s);
    if num < d {
        assert(num * s < s * d || s == 0) by (nonlinear_arith)
            requires
                num < d,
                0 <= s,
        ;
        if s > 0 {
            lemma_div_below(num * s, d, s);
        } else {
            assert(num * s == 0) by (nonlinear_arith)
                requires
                    s == 0,
            ;
        }
    }
    if num == 0 {
        assert(num * s == 0) by (nonlinear_arith)
            requires
                num == 0,
        ;
    }
}

/// Pixel range: every point of the box lands in column and row indices
/// within `[0, size]`, and strictly below `size` when it does not touch
/// the eastern, southern or upper face; its z-bucket behaves alike against
/// the bucket count.
pub proof fn lemma_pixel_range(p: Point3i, bbox: Aabb, size: int)
    requires
        box_ok(bbox),
        in_box(p, bbox),
        0 <= size,
    ensures
        0 <= disc_x(p, bbox, size) <= size,
        0 <= disc_y(p, bbox, size) <= size,
        0 <= disc_z(p, bbox) <= NUM_Z_BUCKETS,
        p.x < bbox.max.x && size >= 1 ==> disc_x(p, bbox, size) < size,
        p.y > bbox.min.y && size >= 1 ==> disc_y(p, bbox, size) < size,
        p.z < bbox.max.z ==> disc_z(p, bbox) < NUM_Z_BUCKETS,
{
    lemma_disc_bounds(p.x - bbox.min.x, bbox.diag_x(), size);
    lemma_disc_bounds(bbox.max.y - p.y, bbox.diag_y(), size);
    lemma_disc_bounds(p.z - bbox.min.z, bbox.diag_z(), NUM_Z_BUCKETS as int);
}

/// Row inversion: a point on the box's southern edge maps to row `size`
/// (one past the last row, never read back), and a point on the northern
/// edge maps to row 0.
pub proof fn lemma_y_inversion(p: Point3i, bbox: Aabb, size: int)
    requires
        box_ok(bbox),
        in_box(p, bbox),
        0 <= size,
    ensures
        p.y == bbox.min.y ==> disc_y(p, bbox, size) == size,
        p.y == bbox.max.y ==> disc_y(p, bbox, size) == 0,
{
    lemma_disc_bounds(bbox.max.y - p.y, bbox.diag_y(), size);
}

/// Discretizes the positions of a batch into pixel columns and z-buckets.
pub fn discretize(positions: &Vec<Point3i>, bbox: &Aabb, image_size: u32) -> (r: Vec<Point3u>)
    requires
        box_ok(*bbox),
        forall|i: int| 0 <= i < positions@.len() ==> in_box(#[trigger] positions@[i], *bbox),
    ensures
        r@ == discretized_of(positions@, *bbox, image_size as int),
{
    let n = positions.len();
    let mut r: Vec<Point3u> = Vec::new();
    let mut i: usize = 0;
    while i < n
        invariant
            0 <= i <= n,
            n == positions@.len(),
            box_ok(*bbox),
            forall|j: int| 0 <= j < n ==> in_box(#[trigger] positions@[j], *bbox),
            r@.len() == i,
            forall|j: int|
                0 <= j < i ==> r@[j] == discretized_of(positions@, *bbox, image_size as int)[j],
        decreases n - i,
    {
        let p = positions[i];
        proof {
            lemma_pixel_range(p, *bbox, image_size as int);
        }
        let dx: i128 = (p.x as i128) - (bbox.min.x as i128);
        let dy: i128 = (bbox.max.y as i128) - (p.y as i128);
        let dz: i128 = (p.z as i128) - (bbox.min.z as i128);
        let diag_x: i128 = (bbox.max.x as i128) - (bbox.min.x as i128);
        let diag_y: i128 = (bbox.max.y as i128) - (bbox.min.y as i128);
        let diag_z: i128 = (bbox.max.z as i128) - (bbox.min.z as i128);
        proof {
            assert(0 <= dx * (image_size as int) <= diag_x * (image_size as int))
                by (nonlinear_arith)
                requires
                    0 <= dx <= diag_x,
                    0 <= image_size,
            ;
            assert(diag_x * (image_size as int) < 0x10000000000000000000000000)
                by (nonlinear_arith)
                requires
                    0 <= diag_x < 0x20000000000000000,
                    0 <= image_size < 0x100000000,
            ;
            assert(0 <= dy * (image_size as int) <= diag_y * (image_size as int))
                by (nonlinear_arith)
                requires
                    0 <= dy <= diag_y,
                    0 <= image_size,
            ;
            assert(diag_y * (image_size as int) < 0x10000000000000000000000000)
                by (nonlinear_arith)
                requires
                    0 <= diag_y < 0x20000000000000000,
                    0 <= image_size < 0x100000000,
            ;
            assert(0 <= dz * 1024 <= diag_z * 1024) by (nonlinear_arith)
                requires
                    0 <= dz <= diag_z,
            ;
        }
        let x = ((dx * (image_size as i128)) / diag_x) as u32;
        let y = ((dy * (image_size as i128)) / diag_y) as u32;
        let z = ((dz * 1024) / diag_z) as u32;
        r.push(Point3u { x, y, z });
        proof {
            assert(r@[i as int] == discretized_of(positions@, *bbox, image_size as int)[i as int]);
        }
        i = i + 1;
    }
    proof {
        assert(r@ =~= discretized_of(positions@, *bbox, image_size as int));
    }
    r
}

/// Discretizes a batch against the tile box and hands it to the strategy.
pub fn process_point_data(
    strategy: &mut ColoringStrategy,
    points_batch: &PointsBatch,
    bbox: &Aabb,
    image_size: u32,
)
    requires
        old(strategy).wf(),
        box_ok(*bbox),
        forall|i: int|
            0 <= i < points_batch.position@.len() ==> in_box(
                #[trigger] points_batch.position@[i],
                *bbox,
            ),
        old(strategy).batch_ok(
            *points_batch,
            discretized_of(points_batch.position@, *bbox, image_size as int),
        ),
    ensures
        final(strategy).wf(),
        final(strategy).width_spec() == old(strategy).width_spec(),
        final(strategy).height_spec() == old(strategy).height_spec(),
        strategy_step_rel(*old(strategy), *final(strategy), *points_batch, *bbox, image_size as int),
{
    let discretized_locations = discretize(&points_batch.position, bbox, image_size);
    strategy.process_discretized_point_data(points_batch, &discretized_locations);
}

/// How one batch advances a strategy: the successor state accumulates the
/// batch's discretized points under the strategy's own policy.
pub open spec fn strategy_step_rel(
    s0: ColoringStrategy,
    s1: ColoringStrategy,
    batch: PointsBatch,
    bbox: Aabb,
    size: int,
) -> bool {
    let locs = discretized_of(batch.position@, bbox, size);
    match (s0, s1) {
        (ColoringStrategy::XRay(a), ColoringStrategy::XRay(b)) => b.width == a.width && b.height
            == a.height && b.cells() == crate::strategies::xray_ingest(
            a.cells(),
            a.width as int,
            a.height as int,
            locs,
            0,
        ),
        (ColoringStrategy::Colored(a), ColoringStrategy::Colored(b)) => b.width == a.width
            && b.height == a.height && b.binning == a.binning && b.cells()
            == crate::strategies::color_ingest(
            a.cells(),
            a.width as int,
            a.height as int,
            locs,
            crate::strategies::bins_spec(a.binning, batch.attributes@, batch.position@.len() as int),
            crate::strategies::PointColorColoringStrategy::colors_of(batch.attributes@),
            0,
        ),
        (ColoringStrategy::Intensity(a), ColoringStrategy::Intensity(b)) => b.width == a.width
            && b.height == a.height && b.binning == a.binning && b.min == a.min && b.max == a.max
            && b.cells() == crate::strategies::intensity_ingest(
            a.cells(),
            a.width as int,
            a.height as int,
            locs,
            crate::strategies::bins_spec(a.binning, batch.attributes@, batch.position@.len() as int),
            crate::strategies::IntensityColoringStrategy::intensities_of(batch.attributes@),
            0,
        ),
        (ColoringStrategy::HeightStddev(a), ColoringStrategy::HeightStddev(b)) => b.width
            == a.width && b.height == a.height && b.max_stddev == a.max_stddev && b.colormap
            == a.colormap && b.cells() == crate::strategies::stats_ingest(
            a.cells(),
            a.width as int,
            a.height as int,
            locs,
            batch.position@.map_values(|p: Point3i| p.z),
            0,
        ),
        _ => false,
    }
}

/// A run of the rasterizer: `states[0]` is the fresh strategy and each
/// later state absorbs the next batch.
pub open spec fn chain_ok(
    states: Seq<ColoringStrategy>,
    batches: Seq<PointsBatch>,
    bbox: Aabb,
    size: int,
) -> bool {
    &&& states.len() == batches.len() + 1
    &&& forall|k: int|
        0 <= k < batches.len() ==> strategy_step_rel(
            states[k],
            #[trigger] states[k + 1],
            batches[k],
            bbox,
            size,
        )
}

/// Renders the accumulated strategy into a tile image: each pixel takes
/// the strategy's color for its column, or stays transparent.
#[verifier::rlimit(80)]
pub fn render_image(strategy: &ColoringStrategy, width: u32, height: u32) -> (r: TileImage)
    requires
        strategy.wf(),
        strategy.width_spec() == width,
        strategy.height_spec() == height,
        (width as int) * (height as int) <= 0xFFFFFFFF,
    ensures
        r.wf(),
        r.width == width,
        r.height == height,
        forall|x: int, y: int|
            0 <= x < width && 0 <= y < height ==> r.pixel_spec(x, y) == (
            match strategy.pixel_color_spec(x, y) {
                Option::Some(c) => c,
                Option::None => transparent_spec(),
            }),
{
    let background_color = transparent();
    let mut image = TileImage::new_filled(width, height, background_color);
    let mut y: u32 = 0;
    while y < height
        invariant
            strategy.wf(),
            strategy.width_spec() == width,
            strategy.height_spec() == height,
            0 <= y <= height,
            background_color == transparent_spec(),
            image.wf(),
            image.width == width,
            image.height == height,
            forall|a: int, b: int|
                0 <= a < width && 0 <= b < y ==> image.pixel_spec(a, b) == (
                match strategy.pixel_color_spec(a, b) {
                    Option::Some(c) => c,
                    Option::None => transparent_spec(),
                }),
            forall|a: int, b: int|
                0 <= a < width && y <= b < height ==> image.pixel_spec(a, b)
                    == transparent_spec(),
        decreases height - y,
    {
        let mut x: u32 = 0;
        while x < width
            invariant
                strategy.wf(),
                strategy.width_spec() == width,
                strategy.height_spec() == height,
                0 <= y < height,
                0 <= x <= width,
                background_color == transparent_spec(),
                image.wf(),
                image.width == width,
                image.height == height,
                forall|a: int, b: int|
                    0 <= a < width && 0 <= b < y ==> image.pixel_spec(a, b) == (
                    match strategy.pixel_color_spec(a, b) {
                        Option::Some(c) => c,
                        Option::None => transparent_spec(),
                    }),
                forall|a: int|
                    0 <= a < x ==> image.pixel_spec(a, y as int) == (
                    match strategy.pixel_color_spec(a, y as int) {
                        Option::Some(c) => c,
                        Option::None => transparent_spec(),
                    }),
                forall|a: int, b: int|
                    0 <= a < width && y <= b < height && !(b == y && 0 <= a < x)
                        ==> image.pixel_spec(a, b) == transparent_spec(),
            decreases width - x,
        {
            let pixel_color = strategy.get_pixel_color(x, y);
            let chosen: Color = match pixel_color {
                Option::Some(c) => c,
                Option::None => background_color,
            };
            image.put_pixel(x, y, chosen);
            proof {
                assert(image.pixel_spec(x as int, y as int) == (
                match strategy.pixel_color_spec(x as int, y as int) {
                    Option::Some(c) => c,
                    Option::None => transparent_spec(),
                }));
            }
            x = x + 1;
        }
        y = y + 1;
    }
    image
}

/// Rasterizes a tile: absorbs every batch into the strategy in order, then
/// renders the tile, or yields nothing when no batch was seen.
pub fn xray_from_points(
    bbox: &Aabb,
    image_size: u32,
    coloring_strategy: ColoringStrategy,
    batches: &Vec<PointsBatch>,
) -> (r: Option<TileImage>)
    requires
        coloring_strategy.wf(),
        coloring_strategy.width_spec() == image_size,
        coloring_strategy.height_spec() == image_size,
        (image_size as int) * (image_size as int) <= 0xFFFFFFFF,
        box_ok(*bbox),
        forall|k: int, i: int|
            0 <= k < batches@.len() && 0 <= i < batches@[k].position@.len() ==> in_box(
                #[trigger] batches@[k].position@[i],
                *bbox,
            ),
        forall|k: int|
            0 <= k < batches@.len() ==> coloring_strategy.batch_ok(
                #[trigger] batches@[k],
                discretized_of(batches@[k].position@, *bbox, image_size as int),
            ),
    ensures
        r is None <==> batches@.len() == 0,
        r is Some ==> {
            let im = r.unwrap();
            &&& im.wf()
            &&& im.width == image_size
            &&& im.height == image_size
            &&& exists|states: Seq<ColoringStrategy>|
                {
                    &&& #[trigger] chain_ok(states, batches@, *bbox, image_size as int)
                    &&& states[0] == coloring_strategy
                    &&& states.last().wf()
                    &&& forall|x: int, y: int|
                        0 <= x < image_size && 0 <= y < image_size ==> im.pixel_spec(x, y) == (
                        match states.last().pixel_color_spec(x, y) {
                            Option::Some(c) => c,
                            Option::None => transparent_spec(),
                        })
                }
        },
{
    let ghost s0 = coloring_strategy;
    let mut strategy = coloring_strategy;
    let ghost mut states: Seq<ColoringStrategy> = seq![s0];
    let n = batches.len();
    if n == 0 {
        return Option::None;
    }
    let mut k: usize = 0;
    while k < n
        invariant
            0 <= k <= n,
            n == batches@.len(),
            box_ok(*bbox),
            forall|kk: int, i: int|
                0 <= kk < n && 0 <= i < batches@[kk].position@.len() ==> in_box(
                    #[trigger] batches@[kk].position@[i],
                    *bbox,
                ),
            strategy.wf(),
            strategy.width_spec() == image_size,
            strategy.height_spec() == image_size,
            states.len() == k + 1,
            states[0] == s0,
            states.last() == strategy,
            forall|j: int|
                0 <= j < k ==> strategy_step_rel(
                    states[j],
                    #[trigger] states[j + 1],
                    batches@[j],
                    *bbox,
                    image_size as int,
                ),
            forall|kk: int|
                0 <= kk < n ==> strategy.batch_ok(
                    #[trigger] batches@[kk],
                    discretized_of(batches@[kk].position@, *bbox, image_size as int),
                ),
        decreases n - k,
    {
        let ghost pre = strategy;
        process_point_data(&mut strategy, &batches[k], bbox, image_size);
        proof {
            states = states.push(strategy);
            assert(states.last() == strategy);
            assert(states[k + 1] == strategy);
            assert forall|j: int| 0 <= j < k + 1 implies strategy_step_rel(
                states[j],
                #[trigger] states[j + 1],
                batches@[j],
                *bbox,
                image_size as int,
            ) by {
                if j < k {
                    assert(states[j] == states.drop_last()[j]);
                    assert(states[j + 1] == states.drop_last()[j + 1]);
                } else {
                    assert(states[j] == pre && states[j + 1] == strategy);
                }
            }
            assert forall|kk: int| 0 <= kk < n implies strategy.batch_ok(
                #[trigger] batches@[kk],
                discretized_of(batches@[kk].position@, *bbox, image_size as int),
            ) by {
                assert(pre.batch_ok(
                    batches@[kk],
                    discretized_of(batches@[kk].position@, *bbox, image_size as int),
                ));
            }
        }
        k = k + 1;
    }
    let image = render_image(&strategy, image_size, image_size);
    proof {
        assert(chain_ok(states, batches@, *bbox, image_size as int));
        assert(states[0] == s0 && states.last() == strategy && strategy.wf());
    }
    Option::Some(image)
}

} // verus!
