//! Square RGBA tile images, the composition of a parent tile from its four
//! children, and the background pass over leaf tiles.

use vstd::prelude::*;
use vstd::pervasive::VecAdditionalExecFns;
use crate::color::Color;

verus! {

/// Row-major indices of distinct pixels are distinct.
pub proof fn lemma_rowmajor_inj(w: int, x1: int, y1: int, x2: int, y2: int)
    requires
        0 <= x1 < w,
        0 <= x2 < w,
        y1 >= 0,
        y2 >= 0,
        !(x1 == x2 && y1 == y2),
    ensures
        y1 * w + x1 != y2 * w + x2,
{
    if y1 != y2 {
        assert(y1 * w + x1 != y2 * w + x2) by (nonlinear_arith)
            requires
                0 <= x1 < w,
                0 <= x2 < w,
                y1 >= 0,
                y2 >= 0,
                y1 != y2,
        ;
    }
}

/// A row-major index stays inside the pixel buffer.
pub proof fn lemma_rowmajor_bound(w: int, h: int, x: int, y: int)
    requires
        0 <= x < w,
        0 <= y < h,
    ensures
        0 <= y * w + x < w * h,
{
    assert(0 <= y * w + x < w * h) by (nonlinear_arith)
        requires
            0 <= x < w,
            0 <= y < h,
    ;
}

/// An RGBA image stored as a row-major pixel buffer.
#[derive(Clone, Debug)]
pub struct TileImage {
    pub width: u32,
    pub height: u32,
    pub pixels: Vec<Color>,
}

impl TileImage {
    /// The buffer holds exactly one color per pixel.
    pub open spec fn wf(self) -> bool {
        self.pixels@.len() == (self.width as int) * (self.height as int)
    }

    /// The color of pixel `(x, y)`, row-major.
    pub open spec fn pixel_spec(self, x: int, y: int) -> Color {
        self.pixels@[y * self.width + x]
    }

    /// A fresh image of the given size with every pixel set to `color`.
    pub fn new_filled(width: u32, height: u32, color: Color) -> (r: TileImage)
        requires
            (width as int) * (height as int) <= 0xFFFFFFFF,
        ensures
            r.wf(),
            r.width == width,
            r.height == height,
            forall|x: int, y: int|
                0 <= x < width && 0 <= y < height ==> r.pixel_spec(x, y) == color,
    {
        proof {
            assert((width as int) * (height as int) >= 0) by (nonlinear_arith);
        }
        let n: usize = (width as usize) * (height as usize);
        let mut pixels: Vec<Color> = Vec::new();
        let mut i: usize = 0;
        while i < n
            invariant
                0 <= i <= n,
                pixels@.len() == i,
                forall|j: int| 0 <= j < i ==> pixels@[j] == color,
            decreases n - i,
        {
            pixels.push(color);
            i = i + 1;
        }
        let r = TileImage { width, height, pixels };
        proof {
            assert forall|x: int, y: int|
                0 <= x < width && 0 <= y < height implies r.pixel_spec(x, y) == color by {
                lemma_rowmajor_bound(width as int, height as int, x, y);
            }
        }
        r
    }

    /// The color of pixel `(x, y)`.
    pub fn get_pixel(&self, x: u32, y: u32) -> (c: Color)
        requires
            self.wf(),
            x < self.width,
            y < self.height,
        ensures
            c == self.pixel_spec(x as int, y as int),
    {
        proof {
            lemma_rowmajor_bound(self.width as int, self.height as int, x as int, y as int);
        }
        let _buffer_len = self.pixels.len();
        let idx: usize = (y as usize) * (self.width as usize) + (x as usize);
        self.pixels[idx]
    }

    /// Recolors pixel `(x, y)`, leaving every other pixel as it was.
    pub fn put_pixel(&mut self, x: u32, y: u32, color: Color)
        requires
            old(self).wf(),
            x < old(self).width,
            y < old(self).height,
        ensures
            final(self).wf(),
            final(self).width == old(self).width,
            final(self).height == old(self).height,
            final(self).pixel_spec(x as int, y as int) == color,
            forall|a: int, b: int|
                0 <= a < old(self).width && 0 <= b < old(self).height && !(a == x && b == y)
                    ==> final(self).pixel_spec(a, b) == old(self).pixel_spec(a, b),
    {
        proof {
            lemma_rowmajor_bound(self.width as int, self.height as int, x as int, y as int);
        }
        let _buffer_len = self.pixels.len();
        let idx: usize = (y as usize) * (self.width as usize) + (x as usize);
        self.pixels.set(idx, color);
        proof {
            assert forall|a: int, b: int|
                0 <= a < self.width && 0 <= b < self.height && !(a == x && b == y)
                    implies self.pixel_spec(a, b) == old(self).pixel_spec(a, b) by {
                lemma_rowmajor_bound(self.width as int, self.height as int, a, b);
                lemma_rowmajor_inj(self.width as int, a, b, x as int, y as int);
            }
        }
    }

    /// Copies `src` into this image with its top-left corner at
    /// `(xoff, yoff)`; pixels outside the pasted region keep their colors.
    pub fn copy_from(&mut self, src: &TileImage, xoff: u32, yoff: u32)
        requires
            old(self).wf(),
            src.wf(),
            xoff + src.width <= old(self).width,
            yoff + src.height <= old(self).height,
        ensures
            final(self).wf(),
            final(self).width == old(self).width,
            final(self).height == old(self).height,
            forall|x: int, y: int|
                0 <= x < src.width && 0 <= y < src.height ==> final(self).pixel_spec(
                    xoff + x,
                    yoff + y,
                ) == src.pixel_spec(x, y),
            forall|a: int, b: int|
                0 <= a < old(self).width && 0 <= b < old(self).height && !(xoff <= a < xoff
                    + src.width && yoff <= b < yoff + src.height) ==> final(self).pixel_spec(a, b)
                    == old(self).pixel_spec(a, b),
    {
        let mut y: u32 = 0;
        while y < src.height
            invariant
                old(self).wf(),
                src.wf(),
                xoff + src.width <= old(self).width,
                yoff + src.height <= old(self).height,
                0 <= y <= src.height,
                self.wf(),
                self.width == old(self).width,
                self.height == old(self).height,
                forall|a: int, b: int|
                    0 <= a < src.width && 0 <= b < y ==> self.pixel_spec(xoff + a, yoff + b)
                        == src.pixel_spec(a, b),
                forall|a: int, b: int|
                    0 <= a < self.width && 0 <= b < self.height && !(xoff <= a < xoff + src.width
                        && yoff <= b < yoff + y) ==> self.pixel_spec(a, b) == old(
                        self,
                    ).pixel_spec(a, b),
            decreases src.height - y,
        {
            let mut x: u32 = 0;
            while x < src.width
                invariant
                    old(self).wf(),
                    src.wf(),
                    xoff + src.width <= old(self).width,
                    yoff + src.height <= old(self).height,
                    0 <= y < src.height,
                    0 <= x <= src.width,
                    self.wf(),
                    self.width == old(self).width,
                    self.height == old(self).height,
                    forall|a: int, b: int|
                        0 <= a < src.width && 0 <= b < y ==> self.pixel_spec(xoff + a, yoff + b)
                            == src.pixel_spec(a, b),
                    forall|a: int|
                        0 <= a < x ==> self.pixel_spec(xoff + a, yoff + y) == src.pixel_spec(
                            a,
                            y as int,
                        ),
                    forall|a: int, b: int|
                        0 <= a < self.width && 0 <= b < self.height && !(xoff <= a < xoff
                            + src.width && yoff <= b < yoff + y) && !(xoff <= a < xoff + x && b
                            == yoff + y) ==> self.pixel_spec(a, b) == old(self).pixel_spec(a, b),
                decreases src.width - x,
            {
                let c = src.get_pixel(x, y);
                self.put_pixel(xoff + x, yoff + y, c);
                x = x + 1;
            }
            y = y + 1;
        }
    }

    /// Replaces every nearly transparent pixel (alpha below 128) with the
    /// given background color and keeps every other pixel.
    pub fn apply_background(&mut self, background_color: Color)
        requires
            old(self).wf(),
        ensures
            final(self).wf(),
            final(self).width == old(self).width,
            final(self).height == old(self).height,
            forall|x: int, y: int|
                0 <= x < old(self).width && 0 <= y < old(self).height ==> final(self).pixel_spec(
                    x,
                    y,
                ) == (if old(self).pixel_spec(x, y).alpha < 128 {
                    background_color
                } else {
                    old(self).pixel_spec(x, y)
                }),
    {
        let mut y: u32 = 0;
        while y < self.height
            invariant
                old(self).wf(),
                self.wf(),
                self.width == old(self).width,
                self.height == old(self).height,
                0 <= y <= self.height,
                forall|a: int, b: int|
                    0 <= a < self.width && 0 <= b < y ==> self.pixel_spec(a, b) == (if old(
                        self,
                    ).pixel_spec(a, b).alpha < 128 {
                        background_color
                    } else {
                        old(self).pixel_spec(a, b)
                    }),
                forall|a: int, b: int|
                    0 <= a < self.width && y <= b < self.height ==> self.pixel_spec(a, b) == old(
                        self,
                    ).pixel_spec(a, b),
            decreases self.height - y,
        {
            let mut x: u32 = 0;
            while x < self.width
                invariant
                    old(self).wf(),
                    self.wf(),
                    self.width == old(self).width,
                    self.height == old(self).height,
                    0 <= y < self.height,
                    0 <= x <= self.width,
                    forall|a: int, b: int|
                        0 <= a < self.width && 0 <= b < y ==> self.pixel_spec(a, b) == (if old(
                            self,
                        ).pixel_spec(a, b).alpha < 128 {
                            background_color
                        } else {
                            old(self).pixel_spec(a, b)
                        }),
                    forall|a: int|
                        0 <= a < x ==> self.pixel_spec(a, y as int) == (if old(self).pixel_spec(
                            a,
                            y as int,
                        ).alpha < 128 {
                            background_color
                        } else {
                            old(self).pixel_spec(a, y as int)
                        }),
                    forall|a: int, b: int|
                        0 <= a < self.width && y <= b < self.height && !(b == y && 0 <= a < x)
                            ==> self.pixel_spec(a, b) == old(self).pixel_spec(a, b),
                decreases self.width - x,
            {
                let c = self.get_pixel(x, y);
                if c.alpha < 128 {
                    self.put_pixel(x, y, background_color);
                } else {
                    self.put_pixel(x, y, c);
                }
                x = x + 1;
            }
            y = y + 1;
        }
    }
}

/// Where the left edge of the quadrant of child `i` sits in the composite:
/// the eastern children (indices 2 and 3) go to the right half.
pub open spec fn quadrant_x(i: int, n: int) -> int {
    if i >= 2 {
        n
    } else {
        0
    }
}

/// Where the top edge of the quadrant of child `i` sits in the composite:
/// the southern children (indices 0 and 2) go to the lower half, because
/// image rows grow southward while world y grows northward.
pub open spec fn quadrant_y(i: int, n: int) -> int {
    if i % 2 == 0 {
        n
    } else {
        0
    }
}

/// Builds the composite of the four optional children tiles of a node: a
/// square of twice their side, each present child pasted into its quadrant,
/// the rest filled with the background color.
pub fn build_parent(children: &Vec<Option<TileImage>>, tile_background_color: Color) -> (r:
    TileImage)
    requires
        children@.len() == 4,
        exists|i: int| 0 <= i < 4 && children@[i] is Some,
        forall|i: int|
            0 <= i < 4 && children@[i] is Some ==> {
                let c = (#[trigger] children@[i]).unwrap();
                c.wf() && c.width == c.height && 1 <= c.width <= 16384
            },
        forall|i: int, j: int|
            0 <= i < 4 && 0 <= j < 4 && children@[i] is Some && children@[j] is Some
                ==> children@[i].unwrap().width == children@[j].unwrap().width,
    ensures
        r.wf(),
        r.width == r.height,
        forall|i: int|
            0 <= i < 4 && children@[i] is Some ==> r.width == 2 * children@[i].unwrap().width,
        forall|i: int|
            0 <= i < 4 && children@[i] is Some ==> {
                let c = (#[trigger] children@[i]).unwrap();
                forall|x: int, y: int|
                    0 <= x < c.width && 0 <= y < c.height ==> r.pixel_spec(
                        quadrant_x(i, c.width as int) + x,
                        quadrant_y(i, c.width as int) + y,
                    ) == c.pixel_spec(x, y)
            },
        forall|i: int|
            0 <= i < 4 && children@[i] is None ==> (forall|x: int, y: int|
                0 <= x < r.width as int / 2 && 0 <= y < r.width as int / 2 ==> #[trigger] r.pixel_spec(
                    quadrant_x(i, r.width as int / 2) + x,
                    quadrant_y(i, r.width as int / 2) + y,
                ) == tile_background_color),
{
    let mut child_size_px: u32 = 0;
    let mut k: usize = 0;
    while k < 4
        invariant
            0 <= k <= 4,
            children@.len() == 4,
            forall|i: int|
                0 <= i < 4 && children@[i] is Some ==> {
                    let c = (#[trigger] children@[i]).unwrap();
                    c.wf() && c.width == c.height && 1 <= c.width <= 16384
                },
            forall|i: int, j: int|
                0 <= i < 4 && 0 <= j < 4 && children@[i] is Some && children@[j] is Some
                    ==> children@[i].unwrap().width == children@[j].unwrap().width,
            child_size_px != 0 ==> exists|i: int|
                0 <= i < 4 && children@[i] is Some && child_size_px == children@[i].unwrap().width,
            child_size_px == 0 ==> forall|i: int| 0 <= i < k ==> children@[i] is None,
        decreases 4 - k,
    {
        if child_size_px == 0 {
            if let Option::Some(c) = &children[k] {
                child_size_px = c.width;
            }
        }
        k = k + 1;
    }
    let n = child_size_px;
    proof {
        assert(n >= 1);
        assert((2 * n as int) * (2 * n as int) <= 0xFFFFFFFF) by (nonlinear_arith)
            requires
                1 <= n <= 16384,
        ;
    }
    let mut large_image = TileImage::new_filled(2 * n, 2 * n, tile_background_color);

    let mut id: usize = 0;
    while id < 4
        invariant
            0 <= id <= 4,
            children@.len() == 4,
            1 <= n <= 16384,
            forall|i: int|
                0 <= i < 4 && children@[i] is Some ==> {
                    let c = (#[trigger] children@[i]).unwrap();
                    c.wf() && c.width == c.height && c.width == n
                },
            large_image.wf(),
            large_image.width == 2 * n,
            large_image.height == 2 * n,
            forall|i: int|
                0 <= i < id && children@[i] is Some ==> {
                    let c = (#[trigger] children@[i]).unwrap();
                    forall|x: int, y: int|
                        0 <= x < n && 0 <= y < n ==> large_image.pixel_spec(
                            quadrant_x(i, n as int) + x,
                            quadrant_y(i, n as int) + y,
                        ) == c.pixel_spec(x, y)
                },
            forall|i: int|
                0 <= i < 4 && !(0 <= i < id && children@[i] is Some) ==> (forall|x: int, y: int|
                    0 <= x < n && 0 <= y < n ==> #[trigger] large_image.pixel_spec(
                        quadrant_x(i, n as int) + x,
                        quadrant_y(i, n as int) + y,
                    ) == tile_background_color),
        decreases 4 - id,
    {
        let xoffs: u32 = if id >= 2 {
            n
        } else {
            0
        };
        let yoffs: u32 = if id % 2 == 0 {
            n
        } else {
            0
        };
        let ghost pre = large_image;
        if let Option::Some(img) = &children[id] {
            large_image.copy_from(img, xoffs, yoffs);
            proof {
                assert forall|i: int|
                    0 <= i < 4 && i != id && !(0 <= i < id + 1 && children@[i] is Some) implies (
                forall|x: int, y: int|
                    0 <= x < n && 0 <= y < n ==> #[trigger] large_image.pixel_spec(
                        quadrant_x(i, n as int) + x,
                        quadrant_y(i, n as int) + y,
                    ) == tile_background_color) by {
                    assert forall|x: int, y: int| 0 <= x < n && 0 <= y < n implies
                        #[trigger] large_image.pixel_spec(
                            quadrant_x(i, n as int) + x,
                            quadrant_y(i, n as int) + y,
                        ) == tile_background_color by {
                        assert(quadrant_x(i, n as int) != quadrant_x(id as int, n as int)
                            || quadrant_y(i, n as int) != quadrant_y(id as int, n as int));
                        assert(large_image.pixel_spec(
                            quadrant_x(i, n as int) + x,
                            quadrant_y(i, n as int) + y,
                        ) == pre.pixel_spec(quadrant_x(i, n as int) + x, quadrant_y(i, n as int) + y));
                    }
                }
            }
        }
        id = id + 1;
    }
    large_image
}

} // verus!
