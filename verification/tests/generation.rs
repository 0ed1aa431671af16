//! Tests of the rasterization core: discretization, strategies, the
//! quadtree planner, parent composition and the background pass.

use xray::color::Color;
use xray::colormap::Colormap;
use xray::point_data::{Aabb, AttributeData, Point3i, PointsBatch, Rgb8, FIXED_ONE};
use xray::quadtree::{ChildIndex, Node, NodeId, Rect};
use xray::raster::xray_from_points;
use xray::resample::build_node_image;
use xray::saturation::{intensity_gray, log2_frac_table_vec, xray_gray, xray_gray_thresholds_vec};
use xray::strategies::{Binning, ColoringStrategyKind};
use xray::tile::{build_parent, TileImage};

fn unit_box(units: i64) -> Aabb {
    Aabb::new(Point3i::new(0, 0, 0), Point3i::new(units, units, units))
}

fn batch_of(points: Vec<Point3i>) -> PointsBatch {
    PointsBatch { position: points, attributes: Vec::new() }
}

#[test]
fn xray_gray_matches_log_curve() {
    let thresholds = xray_gray_thresholds_vec();
    for n in 1u32..=1024 {
        let expected = ((1.0 - f64::from(n).ln() / 1024f64.ln()) * 255.0) as u8;
        assert_eq!(xray_gray(n, &thresholds), expected, "count {}", n);
    }
}

#[test]
fn xray_gray_monotone() {
    let thresholds = xray_gray_thresholds_vec();
    let mut last = xray_gray(1, &thresholds);
    for n in 2u32..=1100 {
        let g = xray_gray(n, &thresholds);
        assert!(g <= last);
        last = g;
    }
}

#[test]
fn single_point_xray() {
    // One point in the middle of a unit box drawn on a 4x4 tile: one white
    // opaque pixel at column 2, row 2, everything else transparent.
    let bbox = unit_box(1000);
    let strategy = ColoringStrategyKind::XRay.new_strategy(4, 4);
    let batches = vec![batch_of(vec![Point3i::new(500, 500, 500)])];
    let image = xray_from_points(&bbox, 4, strategy, &batches).unwrap();
    for x in 0..4u32 {
        for y in 0..4u32 {
            let c = image.get_pixel(x, y);
            if x == 2 && y == 2 {
                assert_eq!(c, Color::new(255, 255, 255, 255));
            } else {
                assert_eq!(c, Color::new(0, 0, 0, 0));
            }
        }
    }
}

#[test]
fn xray_saturation() {
    // 1024 points in one column, one per z-bucket: the pixel saturates to
    // black.
    let bbox = unit_box(1024);
    let strategy = ColoringStrategyKind::XRay.new_strategy(4, 4);
    let mut points = Vec::new();
    for k in 0..1024i64 {
        points.push(Point3i::new(512, 512, k));
    }
    let batches = vec![batch_of(points)];
    let image = xray_from_points(&bbox, 4, strategy, &batches).unwrap();
    assert_eq!(image.get_pixel(2, 2), Color::new(0, 0, 0, 255));
}

#[test]
fn xray_batch_split_commutes() {
    // The same 60 points split in two different ways give bit-identical
    // tiles.
    let bbox = unit_box(1024);
    let mut points = Vec::new();
    for k in 0..60i64 {
        points.push(Point3i::new((k * 17) % 1024, (k * 29) % 1024, (k * 13) % 1024));
    }
    let split_a = vec![
        batch_of(points[..10].to_vec()),
        batch_of(points[10..].to_vec()),
    ];
    let split_b = vec![
        batch_of(points[..45].to_vec()),
        batch_of(points[45..].to_vec()),
    ];
    let im_a = xray_from_points(&bbox, 8, ColoringStrategyKind::XRay.new_strategy(8, 8), &split_a)
        .unwrap();
    let im_b = xray_from_points(&bbox, 8, ColoringStrategyKind::XRay.new_strategy(8, 8), &split_b)
        .unwrap();
    for x in 0..8u32 {
        for y in 0..8u32 {
            assert_eq!(im_a.get_pixel(x, y), im_b.get_pixel(x, y));
        }
    }
}

#[test]
fn y_inversion() {
    // A point on the southern edge saturates to row `size` (outside the
    // tile); a point on the northern edge lands in row 0.
    let bbox = unit_box(1000);
    let strategy = ColoringStrategyKind::XRay.new_strategy(4, 4);
    let batches = vec![batch_of(vec![
        Point3i::new(500, 1000, 500), // northern edge -> row 0
        Point3i::new(500, 0, 500),    // southern edge -> row 4, dropped
    ])];
    let image = xray_from_points(&bbox, 4, strategy, &batches).unwrap();
    assert_ne!(image.get_pixel(2, 0), Color::new(0, 0, 0, 0));
    for y in 1..4u32 {
        assert_eq!(image.get_pixel(2, y), Color::new(0, 0, 0, 0));
    }
}

#[test]
fn intensity_negative_aborts_batch() {
    // A negative intensity abandons the whole batch: the tile is produced
    // (the batch was seen) but stays fully transparent.
    let min = 0i64;
    let max = 10 * FIXED_ONE;
    let strategy =
        ColoringStrategyKind::ColoredWithIntensity(min, max, None).new_strategy(4, 4);
    let bbox = unit_box(1000);
    let mut batch = batch_of(vec![Point3i::new(600, 400, 500)]);
    batch
        .attributes
        .push(("intensity".to_owned(), AttributeData::Fixed(vec![-FIXED_ONE])));
    let batches = vec![batch];
    let image = xray_from_points(&bbox, 4, strategy, &batches).unwrap();
    for x in 0..4u32 {
        for y in 0..4u32 {
            assert_eq!(image.get_pixel(x, y), Color::new(0, 0, 0, 0));
        }
    }
}

#[test]
fn intensity_prefix_before_negative_counts() {
    // Points before the first negative intensity are kept.
    let min = 0i64;
    let max = 10 * FIXED_ONE;
    let strategy =
        ColoringStrategyKind::ColoredWithIntensity(min, max, None).new_strategy(4, 4);
    let bbox = unit_box(1000);
    let mut batch = batch_of(vec![
        Point3i::new(600, 400, 500),
        Point3i::new(100, 400, 500),
    ]);
    batch.attributes.push((
        "intensity".to_owned(),
        AttributeData::Fixed(vec![5 * FIXED_ONE, -FIXED_ONE]),
    ));
    let batches = vec![batch];
    let image = xray_from_points(&bbox, 4, strategy, &batches).unwrap();
    // First point lands at column 2, row 2 and stays; the second is after
    // the negative value... the negative is second, so only point 0 counts.
    assert_ne!(image.get_pixel(2, 2), Color::new(0, 0, 0, 0));
    assert_eq!(image.get_pixel(0, 2), Color::new(0, 0, 0, 0));
}

#[test]
fn intensity_gray_endpoints() {
    let table = log2_frac_table_vec();
    let range = 10 * FIXED_ONE;
    assert_eq!(intensity_gray(0, range, &table), 0);
    assert_eq!(intensity_gray(range, range, &table), 255);
    let mid = intensity_gray(range / 2, range, &table);
    assert!(0 < mid && mid < 255);
    assert!(intensity_gray(range / 4, range, &table) <= mid);
}

#[test]
fn bin_invariance_colored() {
    // With no binning, and with a binning that puts every point in one
    // bin, the colored strategy produces the same pixels.
    let bbox = unit_box(1000);
    let mk_batch = || {
        let mut b = batch_of(vec![
            Point3i::new(500, 500, 100),
            Point3i::new(500, 500, 900),
        ]);
        b.attributes.push((
            "color".to_owned(),
            AttributeData::U8Vec3(vec![
                Rgb8 { red: 10, green: 20, blue: 30 },
                Rgb8 { red: 50, green: 60, blue: 70 },
            ]),
        ));
        b.attributes
            .push(("height".to_owned(), AttributeData::U8(vec![3, 3])));
        b
    };
    let none_strategy = ColoringStrategyKind::Colored(None).new_strategy(4, 4);
    let one_bin = Some(Binning { attribute_name: "height".to_owned(), bin_size: 100 * FIXED_ONE });
    let binned_strategy = ColoringStrategyKind::Colored(one_bin).new_strategy(4, 4);
    let im_a = xray_from_points(&bbox, 4, none_strategy, &vec![mk_batch()]).unwrap();
    let im_b = xray_from_points(&bbox, 4, binned_strategy, &vec![mk_batch()]).unwrap();
    for x in 0..4u32 {
        for y in 0..4u32 {
            assert_eq!(im_a.get_pixel(x, y), im_b.get_pixel(x, y));
        }
    }
    // The mean of the two colors, opaque.
    assert_eq!(im_a.get_pixel(2, 2), Color::new(30, 40, 50, 255));
}

#[test]
fn colored_two_bins_average_of_means() {
    // Three points, two bins: bin means are averaged, not points.
    let bbox = unit_box(1000);
    let mut b = batch_of(vec![
        Point3i::new(500, 500, 100),
        Point3i::new(500, 500, 200),
        Point3i::new(500, 500, 900),
    ]);
    b.attributes.push((
        "color".to_owned(),
        AttributeData::U8Vec3(vec![
            Rgb8 { red: 100, green: 0, blue: 0 },
            Rgb8 { red: 200, green: 0, blue: 0 },
            Rgb8 { red: 40, green: 0, blue: 0 },
        ]),
    ));
    b.attributes
        .push(("height".to_owned(), AttributeData::U8(vec![1, 1, 9])));
    let binning = Some(Binning { attribute_name: "height".to_owned(), bin_size: 2 * FIXED_ONE });
    let strategy = ColoringStrategyKind::Colored(binning).new_strategy(4, 4);
    let image = xray_from_points(&bbox, 4, strategy, &vec![b]).unwrap();
    // Bin A mean red = 150, bin B mean red = 40; average = 95.
    assert_eq!(image.get_pixel(2, 2), Color::new(95, 0, 0, 255));
}

#[test]
fn height_stddev_pixel() {
    let bbox = unit_box(1000);
    let strategy = ColoringStrategyKind::ColoredWithHeightStddev(
        2,
        xray::colormap::ColormapArgument::Jet,
    )
    .new_strategy(4, 4);
    let batches = vec![batch_of(vec![
        Point3i::new(500, 500, 400),
        Point3i::new(500, 500, 402),
    ])];
    let image = xray_from_points(&bbox, 4, strategy, &batches).unwrap();
    // Heights 400 and 402: mean 401, variance 1, stddev 1, saturation 1/2.
    let expected = Colormap::Jet.for_value(1, 2);
    assert_eq!(image.get_pixel(2, 2), expected);
}

#[test]
fn query_frame_rotation() {
    // With a 90-degree rotation about z as the query frame, the global
    // point (1, 0, 0) accumulates at the pixel of query point (0, 1, 0).
    let query_from_global =
        nalgebra::Isometry3::rotation(nalgebra::Vector3::new(0.0, 0.0, std::f64::consts::FRAC_PI_2));
    let global = nalgebra::Point3::new(1.0f64, 0.0, 0.0);
    let query = query_from_global.transform_point(&global);
    // Integer world units: millionths.
    let to_units = |v: f64| (v * 1e6).round() as i64;
    let p = Point3i::new(to_units(query.x), to_units(query.y), to_units(query.z));
    let bbox = Aabb::new(
        Point3i::new(-2_000_000, -2_000_000, -2_000_000),
        Point3i::new(2_000_000, 2_000_000, 2_000_000),
    );
    let strategy = ColoringStrategyKind::XRay.new_strategy(4, 4);
    let image = xray_from_points(&bbox, 4, strategy, &vec![batch_of(vec![p])]).unwrap();
    // Query (0, 1, 0): x fraction 1/2 -> column 2; the row measures down
    // from the box top: (2 - 1) / 4 of the extent -> row 1.
    assert_ne!(image.get_pixel(2, 1), Color::new(0, 0, 0, 0));
    assert_eq!(image.get_pixel(2, 2), Color::new(0, 0, 0, 0));
}

fn solid(side: u32, c: Color) -> TileImage {
    TileImage::new_filled(side, side, c)
}

#[test]
fn parent_quadrant_placement() {
    // Children 0..3 in solid red, green, blue, yellow: the composite holds
    // them at offsets (0,N), (0,0), (N,N), (N,0).
    let red = Color::new(255, 0, 0, 255);
    let green = Color::new(0, 255, 0, 255);
    let blue = Color::new(0, 0, 255, 255);
    let yellow = Color::new(255, 255, 0, 255);
    let bg = Color::new(255, 255, 255, 255);
    let children = vec![
        Some(solid(2, red)),
        Some(solid(2, green)),
        Some(solid(2, blue)),
        Some(solid(2, yellow)),
    ];
    let composite = build_parent(&children, bg);
    assert_eq!(composite.width, 4);
    assert_eq!(composite.height, 4);
    assert_eq!(composite.get_pixel(0, 2), red);
    assert_eq!(composite.get_pixel(1, 3), red);
    assert_eq!(composite.get_pixel(0, 0), green);
    assert_eq!(composite.get_pixel(1, 1), green);
    assert_eq!(composite.get_pixel(2, 2), blue);
    assert_eq!(composite.get_pixel(3, 3), blue);
    assert_eq!(composite.get_pixel(2, 0), yellow);
    assert_eq!(composite.get_pixel(3, 1), yellow);
}

fn channel_close(a: u8, b: u8, tol: u8) -> bool {
    (a as i32 - b as i32).abs() <= tol as i32
}

fn color_close(a: Color, b: Color, tol: u8) -> bool {
    channel_close(a.red, b.red, tol)
        && channel_close(a.green, b.green, tol)
        && channel_close(a.blue, b.blue, tol)
        && channel_close(a.alpha, b.alpha, tol)
}

#[test]
fn parent_downsample_solid_colors() {
    // Four solid 8x8 children, composed and Lanczos-downsampled back to
    // 8x8: each quadrant center keeps its child's color up to the filter's
    // response.
    let red = Color::new(255, 0, 0, 255);
    let green = Color::new(0, 255, 0, 255);
    let blue = Color::new(0, 0, 255, 255);
    let yellow = Color::new(255, 255, 0, 255);
    let bg = Color::new(255, 255, 255, 255);
    let children = vec![
        Some(solid(8, red)),
        Some(solid(8, green)),
        Some(solid(8, blue)),
        Some(solid(8, yellow)),
    ];
    let image = build_node_image(&children, 8, bg).unwrap();
    assert_eq!(image.width, 8);
    assert_eq!(image.height, 8);
    assert!(color_close(image.get_pixel(1, 5), red, 24));
    assert!(color_close(image.get_pixel(1, 1), green, 24));
    assert!(color_close(image.get_pixel(5, 5), blue, 24));
    assert!(color_close(image.get_pixel(5, 1), yellow, 24));
}

#[test]
fn parent_single_child_keeps_color() {
    // One solid child among three background slots stays its own color
    // after composition and downsampling, at its quadrant center.
    let c = Color::new(40, 80, 120, 255);
    let bg = Color::new(40, 80, 120, 255);
    let children = vec![Some(solid(8, c)), None, None, None];
    let image = build_node_image(&children, 8, bg).unwrap();
    for x in 0..8u32 {
        for y in 0..8u32 {
            assert!(color_close(image.get_pixel(x, y), c, 2));
        }
    }
}

#[test]
fn missing_children_top_half_background() {
    // Only child 2 present: the top half of the downsampled node is the
    // background and the bottom-right quadrant is the child.
    let red = Color::new(255, 0, 0, 255);
    let bg = Color::new(255, 255, 255, 255);
    let children = vec![None, None, Some(solid(8, red)), None];
    let image = build_node_image(&children, 8, bg).unwrap();
    assert!(color_close(image.get_pixel(1, 1), bg, 8));
    assert!(color_close(image.get_pixel(6, 1), bg, 8));
    assert!(color_close(image.get_pixel(6, 6), red, 24));
    assert!(color_close(image.get_pixel(1, 6), bg, 24));
}

#[test]
fn build_node_all_missing_skips() {
    let bg = Color::new(255, 255, 255, 255);
    let children: Vec<Option<TileImage>> = vec![None, None, None, None];
    assert!(build_node_image(&children, 8, bg).is_none());
}

#[test]
fn background_fill_threshold() {
    let bg = Color::new(9, 9, 9, 255);
    let faint = Color::new(1, 2, 3, 127);
    let strong = Color::new(4, 5, 6, 128);
    let mut image = TileImage::new_filled(2, 2, faint);
    image.put_pixel(1, 1, strong);
    image.apply_background(bg);
    assert_eq!(image.get_pixel(0, 0), bg);
    assert_eq!(image.get_pixel(1, 0), bg);
    assert_eq!(image.get_pixel(0, 1), bg);
    assert_eq!(image.get_pixel(1, 1), strong);
}

#[test]
fn quadtree_planner_covers() {
    // A 5 x 3 box with one-unit pixels and 1-pixel tiles: the smallest
    // power-of-2 multiple of the tile that covers it is 8, three levels
    // deep.
    let bbox = Aabb::new(Point3i::new(0, 0, 0), Point3i::new(5, 3, 1));
    let (rect, levels) = xray::quadtree::find_quadtree_bounding_rect_and_levels(&bbox, 1, 1);
    assert_eq!(levels, 3);
    assert_eq!(rect.edge_length, 8);
    assert_eq!(rect.min_x, 0);
    assert_eq!(rect.min_y, 0);
}

#[test]
fn quadtree_planner_exact_fit() {
    let bbox = Aabb::new(Point3i::new(2, 7, 0), Point3i::new(6, 11, 1));
    let (rect, levels) = xray::quadtree::find_quadtree_bounding_rect_and_levels(&bbox, 2, 2);
    // Tile ground size 4 covers the 4 x 4 box at level 0.
    assert_eq!(levels, 0);
    assert_eq!(rect.edge_length, 4);
    assert_eq!(rect.min_x, 2);
    assert_eq!(rect.min_y, 7);
}

#[test]
fn leaf_count_is_power_of_four() {
    let root = Node::new(NodeId::new(0, 0), Rect::new(0, 0, 16));
    for level in 0..3u8 {
        let nodes = xray::quadtree::get_nodes_at_level(&root, level);
        assert_eq!(nodes.len(), 4usize.pow(u32::from(level) * 2) / 4usize.pow(u32::from(level)));
        assert_eq!(nodes.len(), 4usize.pow(u32::from(level)));
        for n in &nodes {
            assert_eq!(n.id.level, level);
        }
    }
}

#[test]
fn child_rects_partition_parent() {
    let root = Node::new(NodeId::new(0, 0), Rect::new(0, 0, 16));
    let c0 = root.get_child(&ChildIndex::from_u8(0));
    let c1 = root.get_child(&ChildIndex::from_u8(1));
    let c2 = root.get_child(&ChildIndex::from_u8(2));
    let c3 = root.get_child(&ChildIndex::from_u8(3));
    assert_eq!((c0.bounding_rect.min_x, c0.bounding_rect.min_y), (0, 0));
    assert_eq!((c1.bounding_rect.min_x, c1.bounding_rect.min_y), (0, 8));
    assert_eq!((c2.bounding_rect.min_x, c2.bounding_rect.min_y), (8, 0));
    assert_eq!((c3.bounding_rect.min_x, c3.bounding_rect.min_y), (8, 8));
    assert_eq!(c0.bounding_rect.edge_length, 8);
    assert_eq!(c0.id.level, 1);
}

#[test]
fn parent_child_round_trip() {
    let id = NodeId::new(3, 37);
    for k in 0..4u8 {
        let child = id.get_child_id(&ChildIndex::from_u8(k));
        assert_eq!(child.parent_id(), Some(id));
        assert_eq!(child.level, 4);
        assert_eq!(child.index, 37 * 4 + u64::from(k));
    }
    assert_eq!(NodeId::new(0, 0).parent_id(), None);
}

#[test]
fn parents_dedup() {
    let nodes = vec![
        NodeId::new(2, 0),
        NodeId::new(2, 1),
        NodeId::new(2, 2),
        NodeId::new(2, 3),
        NodeId::new(2, 4),
        NodeId::new(0, 0),
    ];
    let parents = xray::quadtree::parents_of(&nodes);
    assert_eq!(parents.len(), 2);
    assert!(parents.contains(&NodeId::new(1, 0)));
    assert!(parents.contains(&NodeId::new(1, 1)));
}

#[test]
fn no_points_no_tile() {
    let bbox = unit_box(1000);
    let strategy = ColoringStrategyKind::XRay.new_strategy(4, 4);
    let batches: Vec<PointsBatch> = Vec::new();
    assert!(xray_from_points(&bbox, 4, strategy, &batches).is_none());
}

#[test]
fn floor_division_rounds_down() {
    assert_eq!(xray::point_data::floor_div(7, 2), 3);
    assert_eq!(xray::point_data::floor_div(-7, 2), -4);
    assert_eq!(xray::point_data::floor_div(-8, 2), -4);
    assert_eq!(xray::point_data::floor_div(0, 5), 0);
}

#[test]
fn bins_follow_floor_of_ratio() {
    let mut batch = batch_of(vec![
        Point3i::new(0, 0, 0),
        Point3i::new(0, 0, 0),
        Point3i::new(0, 0, 0),
    ]);
    batch
        .attributes
        .push(("height".to_owned(), AttributeData::U8(vec![7, 5, 0])));
    // Bin size 2.5: keys floor(7/2.5) = 2, floor(5/2.5) = 2, floor(0) = 0.
    let binning = Some(Binning {
        attribute_name: "height".to_owned(),
        bin_size: 2 * FIXED_ONE + FIXED_ONE / 2,
    });
    let bins = xray::strategies::bins_for_batch(&binning, &batch);
    assert_eq!(bins, vec![2, 2, 0]);
    let unbinned = xray::strategies::bins_for_batch(&None, &batch);
    assert_eq!(unbinned, vec![0, 0, 0]);
}

#[test]
fn negative_fixed_attribute_bins_floorward() {
    let mut batch = batch_of(vec![Point3i::new(0, 0, 0)]);
    batch.attributes.push((
        "depth".to_owned(),
        AttributeData::Fixed(vec![-3 * FIXED_ONE / 2]),
    ));
    let binning = Some(Binning { attribute_name: "depth".to_owned(), bin_size: FIXED_ONE });
    let bins = xray::strategies::bins_for_batch(&binning, &batch);
    assert_eq!(bins, vec![-2]);
}

#[test]
fn colormap_endpoints() {
    let jet_low = Colormap::Jet.for_value(0, 4);
    let jet_high = Colormap::Jet.for_value(4, 4);
    assert_eq!(jet_low.alpha, 255);
    assert_eq!(jet_high.alpha, 255);
    // At saturation 0 the red channel is off, at 1 the blue channel is off.
    assert_eq!(jet_low.red, 0);
    assert_eq!(jet_high.blue, 0);
    let base = xray::colormap::purplish();
    let mono0 = Colormap::Monochrome(base).for_value(0, 7);
    let mono1 = Colormap::Monochrome(base).for_value(7, 7);
    assert_eq!(mono0, Color::new(255, 255, 255, 255));
    assert_eq!(mono1, base);
}

#[test]
fn background_color_arguments() {
    assert_eq!(
        xray::strategies::TileBackgroundColorArgument::White.to_color(),
        Color::new(255, 255, 255, 255)
    );
    assert_eq!(
        xray::strategies::TileBackgroundColorArgument::Transparent.to_color(),
        Color::new(0, 0, 0, 0)
    );
}

#[test]
fn intensity_gray_tracks_log_ratio() {
    // The fixed-point brightness stays within a few levels of the real
    // logarithm ratio over the whole range.
    let table = log2_frac_table_vec();
    let range = 50 * FIXED_ONE;
    for k in 0..=1000i64 {
        let m = range * k / 1000;
        let g = i64::from(intensity_gray(m, range, &table));
        let mm = m as f64 / FIXED_ONE as f64;
        let rr = range as f64 / FIXED_ONE as f64;
        let reference = if mm <= 0.0 {
            0.0
        } else {
            (mm.ln() / rr.ln() * 255.0).clamp(0.0, 255.0)
        };
        assert!((g as f64 - reference).abs() <= 4.0, "m {} g {} ref {}", m, g, reference);
    }
}
