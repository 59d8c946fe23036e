//! The framebuffer: where a pixel lies in it, and how the bands that the
//! workers render are put together.
//!
//! Rows are counted as the renderer walks them, from the bottom of the image
//! up; the framebuffer holds them in output order, top row first.

use vstd::prelude::*;
use crate::render::{
    band, band_rows, in_band, lemma_band_bounds, lemma_bands_partition, scheduled_rows, Band,
};

verus! {

/// Where the three bytes of pixel `(x, y)` begin in the bytes of an image:
/// the rows lie top row first, so row `y`, counted from the bottom, is row
/// `height - 1 - y` of the output.
pub open spec fn offset(width: int, height: int, x: int, y: int) -> int {
    ((height - 1 - y) * width + x) * 3
}

/// The bytes of a pixel lie within the image, in the output row that mirrors
/// the pixel's row, at the pixel's column.
pub proof fn lemma_offset_bounds(width: int, height: int, x: int, y: int)
    requires
        0 <= x < width,
        0 <= y < height,
    ensures
        offset(width, height, x, y) == (height - y - 1) * width * 3 + x * 3,
        0 <= offset(width, height, x, y),
        offset(width, height, x, y) + 3 <= 3 * width * height,
        offset(width, height, x, y) / (3 * width) == height - 1 - y,
        offset(width, height, x, y) % (3 * width) == 3 * x,
{
    let row = height - 1 - y;
    let o = offset(width, height, x, y);
    assert(o == (height - y - 1) * width * 3 + x * 3) by (nonlinear_arith)
        requires
            o == ((height - 1 - y) * width + x) * 3,
    ;
    assert(o == row * (3 * width) + 3 * x) by (nonlinear_arith)
        requires
            o == (row * width + x) * 3,
    ;
    assert(0 <= row * (3 * width) && row * (3 * width) + 3 * width <= 3 * width * height)
        by (nonlinear_arith)
        requires
            0 <= row,
            row + 1 <= height,
            0 < width,
    ;
    vstd::arithmetic::div_mod::lemma_fundamental_div_mod_converse(o, 3 * width, row, 3 * x);
}

/// Two different pixels share no byte.
pub proof fn lemma_pixels_disjoint(width: int, height: int, x1: int, y1: int, x2: int, y2: int)
    requires
        0 <= x1 < width,
        0 <= y1 < height,
        0 <= x2 < width,
        0 <= y2 < height,
        x1 != x2 || y1 != y2,
    ensures
        offset(width, height, x1, y1) + 3 <= offset(width, height, x2, y2) || offset(
            width,
            height,
            x2,
            y2,
        ) + 3 <= offset(width, height, x1, y1),
{
    let r1 = height - 1 - y1;
    let r2 = height - 1 - y2;
    if r1 < r2 {
        assert((r1 * width + x1) + 1 <= r2 * width + x2) by (nonlinear_arith)
            requires
                r1 + 1 <= r2,
                0 <= x1 < width,
                0 <= x2,
        ;
    } else if r2 < r1 {
        assert((r2 * width + x2) + 1 <= r1 * width + x1) by (nonlinear_arith)
            requires
                r2 + 1 <= r1,
                0 <= x2 < width,
                0 <= x1,
        ;
    }
}

/// Where the three bytes of pixel `(x, y)` begin in the bytes of an image
/// of the given size.
pub fn pixel_offset(width: usize, height: usize, x: usize, y: usize) -> (o: usize)
    requires
        x < width,
        y < height,
        3 * width * height <= usize::MAX,
    ensures
        o == offset(width as int, height as int, x as int, y as int),
        o + 3 <= 3 * width * height,
{
    proof {
        lemma_offset_bounds(width as int, height as int, x as int, y as int);
        let row = height - 1 - y;
        assert(0 <= row * width && row * width <= (row * width + x) * 3) by (nonlinear_arith)
            requires
                0 <= row,
                0 <= width,
                0 <= x,
        ;
    }
    ((height - 1 - y) * width + x) * 3
}

/// An image: three bytes for each pixel (red, green, blue), the pixels of a
/// row from left to right, the rows from the top of the image down.
#[derive(Debug)]
pub struct Framebuffer {
    width: usize,
    height: usize,
    data: Vec<u8>,
}

impl View for Framebuffer {
    type V = Seq<u8>;

    /// The bytes of the image.
    closed spec fn view(&self) -> Seq<u8> {
        self.data@
    }
}

impl Framebuffer {
    /// The number of pixels in a row.
    pub closed spec fn cols(&self) -> int {
        self.width as int
    }

    /// The number of rows.
    pub closed spec fn rows(&self) -> int {
        self.height as int
    }

    /// An image holds three bytes for each of its pixels.
    pub open spec fn wf(&self) -> bool {
        &&& 0 <= self.cols()
        &&& 0 <= self.rows()
        &&& self@.len() == 3 * self.cols() * self.rows()
    }

    /// The colour of pixel `(x, y)`, row `y` counted from the bottom.
    pub open spec fn pixel(&self, x: int, y: int) -> (u8, u8, u8) {
        let o = offset(self.cols(), self.rows(), x, y);
        (self@[o], self@[o + 1], self@[o + 2])
    }

    /// A black image of the given size.
    pub fn new(width: usize, height: usize) -> (image: Framebuffer)
        requires
            3 * width * height <= usize::MAX,
        ensures
            image.wf(),
            image.cols() == width,
            image.rows() == height,
            forall|i: int| 0 <= i < image@.len() ==> image@[i] == 0,
    {
        proof {
            assert(width * height <= 3 * width * height) by (nonlinear_arith);
            assert(3 * (width * height) == 3 * width * height) by (nonlinear_arith);
            assert(0 <= width * height) by (nonlinear_arith);
        }
        let pixels: usize = width * height;
        let data: Vec<u8> = vec![0u8; 3 * pixels];
        Framebuffer { width, height, data }
    }

    /// The number of pixels in a row.
    pub fn width(&self) -> (w: usize)
        ensures
            w == self.cols(),
    {
        self.width
    }

    /// The number of rows.
    pub fn height(&self) -> (h: usize)
        ensures
            h == self.rows(),
    {
        self.height
    }

    /// The bytes of the image, top row first.
    pub fn as_bytes(&self) -> (bytes: &[u8])
        ensures
            bytes@ == self@,
    {
        self.data.as_slice()
    }

    /// The bytes of the image, top row first, as a vector of its own.
    pub fn into_bytes(self) -> (bytes: Vec<u8>)
        ensures
            bytes@ == self@,
    {
        self.data
    }

    /// Gives pixel `(x, y)` the colour `rgb`; every other pixel keeps its
    /// colour.
    pub fn set_pixel(&mut self, x: usize, y: usize, rgb: (u8, u8, u8))
        requires
            old(self).wf(),
            x < old(self).cols(),
            y < old(self).rows(),
        ensures
            final(self).wf(),
            final(self).cols() == old(self).cols(),
            final(self).rows() == old(self).rows(),
            final(self)@ == ({
                let o = offset(old(self).cols(), old(self).rows(), x as int, y as int);
                old(self)@.update(o, rgb.0).update(o + 1, rgb.1).update(o + 2, rgb.2)
            }),
            final(self).pixel(x as int, y as int) == rgb,
            forall|x2: int, y2: int|
                0 <= x2 < old(self).cols() && 0 <= y2 < old(self).rows() && (x2 != x || y2 != y)
                    ==> #[trigger] final(self).pixel(x2, y2) == old(self).pixel(x2, y2),
    {
        assert(self.data.len() == 3 * self.width * self.height);
        let o: usize = pixel_offset(self.width, self.height, x, y);
        self.data.set(o, rgb.0);
        self.data.set(o + 1, rgb.1);
        self.data.set(o + 2, rgb.2);
        proof {
            assert forall|x2: int, y2: int|
                0 <= x2 < old(self).cols() && 0 <= y2 < old(self).rows() && (x2 != x || y2
                    != y) implies #[trigger] self.pixel(x2, y2) == old(self).pixel(x2, y2) by {
                lemma_pixels_disjoint(self.cols(), self.rows(), x as int, y as int, x2, y2);
                lemma_offset_bounds(self.cols(), self.rows(), x2, y2);
            }
        }
    }

    /// Where the bytes of a band begin in the image: the band's top row is
    /// the first of its rows in the output.
    pub open spec fn band_start(&self, band: Band) -> int {
        3 * self.cols() * (self.rows() - band.top)
    }

    /// Puts the rows that a worker rendered into their place. `part` holds
    /// the rows of `band` as an image of its own, with the band's first row
    /// as its row 0. The pixels of the band take the colours of `part`; every
    /// other pixel keeps its colour.
    pub fn stitch(&mut self, band: Band, part: &Framebuffer)
        requires
            old(self).wf(),
            part.wf(),
            part.cols() == old(self).cols(),
            band.bot <= band.top <= old(self).rows(),
            part.rows() == band.top - band.bot,
        ensures
            final(self).wf(),
            final(self).cols() == old(self).cols(),
            final(self).rows() == old(self).rows(),
            final(self)@ == ({
                let start = old(self).band_start(band);
                old(self)@.subrange(0, start) + part@ + old(self)@.subrange(
                    start + part@.len(),
                    old(self)@.len() as int,
                )
            }),
            forall|x: int, y: int|
                0 <= x < old(self).cols() && 0 <= y < old(self).rows()
                    ==> #[trigger] final(self).pixel(x, y) == if band.contains(y) {
                    part.pixel(x, y - band.bot)
                } else {
                    old(self).pixel(x, y)
                },
    {
        let n: usize = part.data.len();
        assert(self.data.len() == 3 * self.width * self.height);
        proof {
            lemma_band_bytes(self.cols(), self.rows(), band.bot as int, band.top as int);
            let gap = self.height - band.top;
            assert(0 <= gap * self.width <= 3 * (gap * self.width) == 3 * self.width * gap)
                by (nonlinear_arith)
                requires
                    0 <= gap,
                    0 <= self.width,
            ;
        }
        let start: usize = (self.height - band.top) * self.width * 3;
        assert(start == self.band_start(band));
        assert(n == 3 * self.cols() * (band.top - band.bot));
        let mut i: usize = 0;
        while i < n
            invariant
                i <= n,
                n == part.data@.len(),
                start + n <= self.data@.len() <= usize::MAX,
                self.data@.len() == old(self).data@.len(),
                self.width == old(self).width,
                self.height == old(self).height,
                forall|k: int| 0 <= k < i ==> self.data@[start + k] == part.data@[k],
                forall|j: int|
                    0 <= j < self.data@.len() && !(start <= j < start + i) ==> self.data@[j]
                        == old(self).data@[j],
            decreases n - i,
        {
            self.data.set(start + i, part.data[i]);
            i = i + 1;
        }
        proof {
            assert(self@ =~= old(self)@.subrange(0, start as int) + part@ + old(self)@.subrange(
                start + n,
                old(self)@.len() as int,
            ));
            assert forall|x: int, y: int|
                0 <= x < old(self).cols() && 0 <= y < old(self).rows() implies #[trigger] self.pixel(x, y)
                == if band.contains(y) {
                part.pixel(x, y - band.bot)
            } else {
                old(self).pixel(x, y)
            } by {
                lemma_band_pixel(self.cols(), self.rows(), band.bot as int, band.top as int, x, y);
                lemma_offset_bounds(self.cols(), self.rows(), x, y);
                if band.contains(y) {
                    lemma_offset_bounds(part.cols(), part.rows(), x, y - band.bot);
                    let o = offset(part.cols(), part.rows(), x, y - band.bot);
                    assert(self.data@[start + o] == part.data@[o]);
                    assert(self.data@[start + (o + 1)] == part.data@[o + 1]);
                    assert(self.data@[start + (o + 2)] == part.data@[o + 2]);
                }
            }
        }
    }
}

/// The bytes of the rows from `bot` up to `top` lie together in the image,
/// three for each pixel of the band.
pub proof fn lemma_band_bytes(width: int, height: int, bot: int, top: int)
    requires
        0 <= width,
        0 <= bot <= top <= height,
    ensures
        0 <= 3 * width * (height - top),
        3 * width * (height - top) == 3 * width * height - 3 * width * top,
        3 * width * (height - top) + 3 * width * (top - bot) == 3 * width * (height - bot),
        3 * width * (height - bot) <= 3 * width * height,
{
    assert(0 <= 3 * width * (height - top)) by (nonlinear_arith)
        requires
            0 <= width,
            top <= height,
    ;
    assert(3 * width * (height - top) == 3 * width * height - 3 * width * top)
        by (nonlinear_arith);
    assert(3 * width * (height - top) + 3 * width * (top - bot) == 3 * width * (height - bot))
        by (nonlinear_arith);
    assert(3 * width * (height - bot) <= 3 * width * height) by (nonlinear_arith)
        requires
            0 <= width,
            0 <= bot,
    ;
}

/// A pixel of the rows from `bot` up to `top` lies as far behind the first
/// byte of the band as it lies behind the first byte of the band's own image;
/// the pixels of all other rows lie outside the band's bytes.
pub proof fn lemma_band_pixel(width: int, height: int, bot: int, top: int, x: int, y: int)
    requires
        0 <= bot <= top <= height,
        0 <= x < width,
        0 <= y < height,
    ensures
        bot <= y < top ==> offset(width, height, x, y) == 3 * width * (height - top) + offset(
            width,
            top - bot,
            x,
            y - bot,
        ),
        y >= top ==> offset(width, height, x, y) + 3 <= 3 * width * (height - top),
        y < bot ==> offset(width, height, x, y) >= 3 * width * (height - bot),
{
    lemma_offset_bounds(width, height, x, y);
    lemma_band_bytes(width, height, bot, top);
    if bot <= y < top {
        assert(((height - 1 - y) * width + x) * 3 == 3 * width * (height - top) + (((top - bot) - 1
            - (y - bot)) * width + x) * 3) by (nonlinear_arith);
    } else if y >= top {
        assert(((height - 1 - y) * width + x) * 3 + 3 <= 3 * width * (height - top))
            by (nonlinear_arith)
            requires
                height - 1 - y + 1 <= height - top,
                0 <= x < width,
                0 <= height - 1 - y,
        ;
    } else {
        assert(((height - 1 - y) * width + x) * 3 >= 3 * width * (height - bot))
            by (nonlinear_arith)
            requires
                height - 1 - y >= height - bot,
                0 <= x < width,
                0 <= height - bot,
        ;
    }
}

/// The colour that pixel `(x, y)` of the finished image has, where `parts`
/// holds what each worker rendered: a pixel of a rendered row has the
/// worker's colour, a pixel of a row that no worker has is black.
pub open spec fn assembled(parts: Seq<Framebuffer>, height: int, x: int, y: int) -> (u8, u8, u8) {
    let rows = band_rows(height, parts.len() as int);
    if y < scheduled_rows(height, parts.len() as int) {
        parts[y / rows].pixel(x, y % rows)
    } else {
        (0u8, 0u8, 0u8)
    }
}

/// Puts the bands of all workers together. `parts` holds, in the workers'
/// order, what each of them rendered: images as wide as the whole, each as
/// high as a band. The rows that are left over where the height is no
/// multiple of the number of workers stay black.
pub fn assemble(width: usize, height: usize, parts: &[Framebuffer]) -> (image: Framebuffer)
    requires
        parts@.len() > 0,
        3 * width * height <= usize::MAX,
        forall|t: int|
            0 <= t < parts@.len() ==> {
                &&& (#[trigger] parts@[t]).wf()
                &&& parts@[t].cols() == width
                &&& parts@[t].rows() == band_rows(height as int, parts@.len() as int)
            },
    ensures
        image.wf(),
        image.cols() == width,
        image.rows() == height,
        forall|x: int, y: int|
            0 <= x < width && 0 <= y < height ==> #[trigger] image.pixel(x, y) == assembled(
                parts@,
                height as int,
                x,
                y,
            ),
{
    let workers: usize = parts.len();
    let ghost rows = band_rows(height as int, workers as int);
    let mut image = Framebuffer::new(width, height);
    assert forall|x: int, y: int| 0 <= x < width && 0 <= y < height implies #[trigger] image.pixel(
        x,
        y,
    ) == (0u8, 0u8, 0u8) by {
        lemma_offset_bounds(width as int, height as int, x, y);
    }
    let mut t: usize = 0;
    while t < workers
        invariant
            t <= workers,
            workers == parts@.len(),
            rows == band_rows(height as int, workers as int),
            image.wf(),
            image.cols() == width,
            image.rows() == height,
            forall|k: int|
                0 <= k < parts@.len() ==> {
                    &&& (#[trigger] parts@[k]).wf()
                    &&& parts@[k].cols() == width
                    &&& parts@[k].rows() == rows
                },
            forall|x: int, y: int|
                0 <= x < width && 0 <= y < height ==> #[trigger] image.pixel(x, y) == if y < rows
                    * t {
                    parts@[y / rows].pixel(x, y % rows)
                } else {
                    (0u8, 0u8, 0u8)
                },
        decreases workers - t,
    {
        let b = band(height, workers, t);
        let ghost before = image;
        proof {
            lemma_band_bounds(height as int, workers as int, t as int);
        }
        image.stitch(b, &parts[t]);
        proof {
            assert forall|x: int, y: int|
                0 <= x < width && 0 <= y < height implies #[trigger] image.pixel(x, y) == if y
                < rows * (t + 1) {
                parts@[y / rows].pixel(x, y % rows)
            } else {
                (0u8, 0u8, 0u8)
            } by {
                assert(before.pixel(x, y) == if y < rows * t {
                    parts@[y / rows].pixel(x, y % rows)
                } else {
                    (0u8, 0u8, 0u8)
                });
                if b.contains(y) {
                    assert(in_band(height as int, workers as int, t as int, y));
                    lemma_bands_partition(height as int, workers as int, y);
                    vstd::arithmetic::div_mod::lemma_fundamental_div_mod(y, rows);
                    assert(rows * (y / rows) == rows * t);
                }
            }
        }
        t = t + 1;
    }
    image
}

} // verus!
