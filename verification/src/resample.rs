//! Down-sampling of composite tiles and the node synthesis step that turns
//! four children tiles into their parent tile.

use vstd::prelude::*;
use crate::color::Color;
use crate::tile::{TileImage, build_parent, quadrant_x, quadrant_y};

verus! {

/// Channel `j` of a color in RGBA order.
pub open spec fn channel_of(c: Color, j: int) -> u8 {
    if j == 0 {
        c.red
    } else if j == 1 {
        c.green
    } else if j == 2 {
        c.blue
    } else {
        c.alpha
    }
}

/// A pixel sequence flattened to interleaved RGBA bytes.
pub open spec fn rgba_bytes_of(pixels: Seq<Color>) -> Seq<u8> {
    Seq::new(4 * pixels.len(), |k: int| channel_of(pixels[k / 4], k % 4))
}

/// Interleaved RGBA bytes regrouped into pixels.
pub open spec fn colors_of_bytes(bytes: Seq<u8>) -> Seq<Color> {
    Seq::new(
        bytes.len() / 4,
        |j: int|
            Color {
                red: bytes[4 * j],
                green: bytes[4 * j + 1],
                blue: bytes[4 * j + 2],
                alpha: bytes[4 * j + 3],
            },
    )
}

/// What the Lanczos3 resampler of the image codec returns for an RGBA
/// buffer of side `src_side` scaled to side `dst_side`: a function of the
/// source pixels and the sides alone.
pub uninterp spec fn lanczos3_resample(rgba: Seq<u8>, src_side: int, dst_side: int) -> Seq<u8>;

/// Relies on image's `DynamicImage::resize` with the Lanczos3 filter: on a
/// square source and a square target no larger than it, the result has
/// exactly the target side, and it depends on the source bytes and the two
/// sides alone.
#[verifier::external_body]
fn resize_rgba_lanczos3(rgba: Vec<u8>, src_side: u32, dst_side: u32) -> (r: Vec<u8>)
    requires
        1 <= dst_side <= src_side,
        rgba@.len() == 4 * src_side * src_side,
    ensures
        r@.len() == 4 * dst_side * dst_side,
        r@ == lanczos3_resample(rgba@, src_side as int, dst_side as int),
{
    let img = image::RgbaImage::from_raw(src_side, src_side, rgba).unwrap();
    let resized = image::DynamicImage::ImageRgba8(img).resize(
        dst_side,
        dst_side,
        image::imageops::FilterType::Lanczos3,
    );
    resized.to_rgba8().into_raw()
}

/// Flattens a tile into interleaved RGBA bytes.
pub fn to_rgba_bytes(img: &TileImage) -> (r: Vec<u8>)
    requires
        img.wf(),
        4 * (img.width as int) * (img.height as int) <= 0xFFFFFFFF,
    ensures
        r@ == rgba_bytes_of(img.pixels@),
{
    proof {
        assert(4 * (img.width as int) * (img.height as int) == 4 * ((img.width as int) * (
        img.height as int))) by (nonlinear_arith);
    }
    let n = img.pixels.len();
    let mut bytes: Vec<u8> = Vec::new();
    let mut j: usize = 0;
    while j < n
        invariant
            0 <= j <= n,
            n == img.pixels@.len(),
            4 * n <= 0xFFFFFFFF,
            bytes@.len() == 4 * j,
            forall|k: int| 0 <= k < 4 * j ==> bytes@[k] == rgba_bytes_of(img.pixels@)[k],
        decreases n - j,
    {
        let c = img.pixels[j];
        bytes.push(c.red);
        bytes.push(c.green);
        bytes.push(c.blue);
        bytes.push(c.alpha);
        proof {
            assert forall|k: int| 0 <= k < 4 * (j + 1) implies bytes@[k] == rgba_bytes_of(
                img.pixels@,
            )[k] by {
                if k >= 4 * j {
                    assert(k / 4 == j && (k == 4 * j + k % 4));
                }
            }
        }
        j = j + 1;
    }
    proof {
        assert(bytes@ =~= rgba_bytes_of(img.pixels@));
    }
    bytes
}

/// Groups interleaved RGBA bytes back into a square tile of side `side`.
pub fn image_from_rgba_bytes(bytes: &Vec<u8>, side: u32) -> (r: TileImage)
    requires
        bytes@.len() == 4 * side * side,
        4 * (side as int) * (side as int) <= 0xFFFFFFFF,
    ensures
        r.wf(),
        r.width == side,
        r.height == side,
        r.pixels@ == colors_of_bytes(bytes@),
{
    proof {
        assert(4 * (side as int) * (side as int) == 4 * ((side as int) * (side as int)))
            by (nonlinear_arith);
        vstd::arithmetic::div_mod::lemma_div_multiples_vanish(
            (side as int) * (side as int),
            4,
        );
    }
    let byte_len = bytes.len();
    let n = byte_len / 4;
    let mut pixels: Vec<Color> = Vec::new();
    let mut j: usize = 0;
    while j < n
        invariant
            0 <= j <= n,
            4 * n == bytes@.len(),
            n <= 0x3FFFFFFF,
            pixels@.len() == j,
            forall|k: int| 0 <= k < j ==> pixels@[k] == colors_of_bytes(bytes@)[k],
        decreases n - j,
    {
        let c = Color {
            red: bytes[4 * j],
            green: bytes[4 * j + 1],
            blue: bytes[4 * j + 2],
            alpha: bytes[4 * j + 3],
        };
        pixels.push(c);
        j = j + 1;
    }
    let r = TileImage { width: side, height: side, pixels };
    proof {
        assert(r.pixels@ =~= colors_of_bytes(bytes@));
    }
    r
}

/// Scales a square tile down to side `dst_side` with the Lanczos3 filter.
pub fn downsample(img: &TileImage, dst_side: u32) -> (r: TileImage)
    requires
        img.wf(),
        img.width == img.height,
        1 <= dst_side <= img.width,
        4 * (img.width as int) * (img.width as int) <= 0xFFFFFFFF,
    ensures
        r.wf(),
        r.width == dst_side,
        r.height == dst_side,
        r.pixels@ == colors_of_bytes(
            lanczos3_resample(rgba_bytes_of(img.pixels@), img.width as int, dst_side as int),
        ),
{
    let bytes = to_rgba_bytes(img);
    proof {
        assert(4 * (img.width as int) * (img.width as int) == 4 * ((img.width as int) * (
        img.width as int))) by (nonlinear_arith);
    }
    let resized = resize_rgba_lanczos3(bytes, img.width, dst_side);
    proof {
        assert(4 * (dst_side as int) * (dst_side as int) <= 4 * (img.width as int) * (
        img.width as int)) by (nonlinear_arith)
            requires
                1 <= dst_side <= img.width,
        ;
    }
    image_from_rgba_bytes(&resized, dst_side)
}

/// Synthesizes the tile of a node from the tiles of its children: `None`
/// when no child exists, otherwise the four children composed into a square
/// of twice their side and scaled down to `tile_size_px`.
pub fn build_node_image(
    children: &Vec<Option<TileImage>>,
    tile_size_px: u32,
    tile_background_color: Color,
) -> (r: Option<TileImage>)
    requires
        children@.len() == 4,
        forall|i: int|
            0 <= i < 4 && children@[i] is Some ==> {
                let c = (#[trigger] children@[i]).unwrap();
                c.wf() && c.width == c.height && 1 <= c.width <= 8192
            },
        forall|i: int, j: int|
            0 <= i < 4 && 0 <= j < 4 && children@[i] is Some && children@[j] is Some
                ==> children@[i].unwrap().width == children@[j].unwrap().width,
        forall|i: int|
            0 <= i < 4 && children@[i] is Some ==> 1 <= tile_size_px <= 2 * children@[
                i
            ].unwrap().width,
    ensures
        r is None <==> (forall|i: int| 0 <= i < 4 ==> children@[i] is None),
        r is Some ==> {
            let im = r.unwrap();
            im.wf() && im.width == tile_size_px && im.height == tile_size_px
                && exists|comp: TileImage|
                {
                    &&& #[trigger] comp.wf()
                    &&& comp.width == comp.height
                    &&& (forall|i: int|
                        0 <= i < 4 && children@[i] is Some ==> comp.width == 2 * children@[
                            i
                        ].unwrap().width)
                    &&& (forall|i: int|
                        0 <= i < 4 && children@[i] is Some ==> {
                            let c = (#[trigger] children@[i]).unwrap();
                            forall|x: int, y: int|
                                0 <= x < c.width && 0 <= y < c.height ==> comp.pixel_spec(
                                    quadrant_x(i, c.width as int) + x,
                                    quadrant_y(i, c.width as int) + y,
                                ) == c.pixel_spec(x, y)
                        })
                    &&& (forall|i: int|
                        0 <= i < 4 && children@[i] is None ==> (forall|x: int, y: int|
                            0 <= x < comp.width as int / 2 && 0 <= y < comp.width as int / 2
                                ==> #[trigger] comp.pixel_spec(
                                quadrant_x(i, comp.width as int / 2) + x,
                                quadrant_y(i, comp.width as int / 2) + y,
                            ) == tile_background_color))
                    &&& im.pixels@ == colors_of_bytes(
                        lanczos3_resample(
                            rgba_bytes_of(comp.pixels@),
                            comp.width as int,
                            tile_size_px as int,
                        ),
                    )
                }
        },
{
    let mut any_some = false;
    let mut k: usize = 0;
    while k < 4
        invariant
            0 <= k <= 4,
            children@.len() == 4,
            any_some <==> exists|i: int| 0 <= i < k && children@[i] is Some,
        decreases 4 - k,
    {
        if children[k].is_some() {
            any_some = true;
            proof {
                assert(children@[k as int] is Some);
            }
        }
        k = k + 1;
    }
    if !any_some {
        return Option::None;
    }
    let composite = build_parent(children, tile_background_color);
    proof {
        let i = choose|i: int| 0 <= i < 4 && children@[i] is Some;
        assert(composite.width == 2 * children@[i].unwrap().width);
        assert(1 <= tile_size_px <= composite.width);
        assert(composite.width <= 16384);
        assert(4 * (composite.width as int) * (composite.width as int) <= 0xFFFFFFFF)
            by (nonlinear_arith)
            requires
                composite.width <= 16384,
        ;
    }
    proof {
        assert(composite.wf() && composite.width == composite.height);
    }
    let image = downsample(&composite, tile_size_px);
    Option::Some(image)
}

} // verus!
