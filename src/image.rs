use vstd::prelude::*;
use vstd::arithmetic::div_mod::{lemma_fundamental_div_mod, lemma_fundamental_div_mod_converse};

verus! {

/// How the bytes of a buffer handed to `Image::from_buffer` are laid out.
#[derive(Debug, PartialEq, Eq, Structural)]
pub enum Colors {
    /// Three bytes per pixel: red, green, blue.
    RGB,
    /// One byte per pixel, used for all three channels.
    Grey,
}

/// An RGB canvas stored row by row, three bytes per pixel.
pub struct Image {
    width: usize,
    height: usize,
    data: Vec<u8>,
}

/// The byte of `color` that goes into channel `ch` (0 red, 1 green, 2 blue).
pub open spec fn channel(color: (u8, u8, u8), ch: int) -> u8 {
    if ch == 0 {
        color.0
    } else if ch == 1 {
        color.1
    } else {
        color.2
    }
}

/// Position of channel `ch` of pixel (`x`, `y`) in a buffer of rows `w` pixels wide.
pub open spec fn byte_index(w: int, x: int, y: int) -> int {
    (y * w + x) * 3
}

/// Whether pixel `p` (counted row by row) lies on the run of `len` pixels
/// that starts at (`x`, `y`) in rows `w` pixels wide.
pub open spec fn on_hline(p: int, w: int, x: int, y: int, len: int) -> bool {
    y * w + x <= p < y * w + x + len
}

/// Whether pixel `p` lies on the column of `len` pixels that starts at
/// (`x`, `y`) and goes down, in rows `w` pixels wide.
pub open spec fn on_vline(p: int, w: int, x: int, y: int, len: int) -> bool {
    exists|k: int| 0 <= k < len && p == #[trigger] column_pixel(w, x, y, k)
}

/// The pixel `k` rows below (`x`, `y`), in rows `w` pixels wide.
pub open spec fn column_pixel(w: int, x: int, y: int, k: int) -> int {
    (y + k) * w + x
}

/// Whether pixel `p` lies on the outline that `Image::rect` draws.
pub open spec fn on_rect(p: int, w: int, x: int, y: int, width: int, height: int) -> bool {
    ||| on_vline(p, w, x, y, height)
    ||| on_hline(p, w, x, y, width)
    ||| on_vline(p, w, x + width, y, height)
    ||| on_hline(p, w, x, y + height, width)
}

/// `c1` moved towards `c2` by `a` out of 255, rounded down.
pub open spec fn blend(c1: u8, c2: u8, a: u8) -> u8 {
    ((c1 * (255 - a) + c2 * a) / 255) as u8
}

/// Byte `i` of a canvas `w` pixels wide, holding `canvas`, after `Image::draw_img`
/// laid the image `src` (`iw` by `ih` pixels) on it with its top left corner
/// at (`off_x`, `off_y`). The source's red byte is how far each channel moves
/// towards `color`; where `ignore_black` holds, a source pixel whose red and
/// green bytes are zero leaves the canvas as it was.
pub open spec fn drawn_byte(
    canvas: Seq<u8>,
    w: int,
    src: Seq<u8>,
    iw: int,
    ih: int,
    off_x: int,
    off_y: int,
    ignore_black: bool,
    color: (u8, u8, u8),
    i: int,
) -> u8 {
    let sx = (i / 3) % w - off_x;
    let sy = (i / 3) / w - off_y;
    if 0 <= sx < iw && 0 <= sy < ih {
        let s = byte_index(iw, sx, sy);
        if ignore_black && src[s] == 0 && src[s + 1] == 0 {
            canvas[i]
        } else {
            blend(canvas[i], channel(color, i % 3), src[s])
        }
    } else {
        canvas[i]
    }
}

/// Whether `draw_img` has reached the source pixel that lands on byte `i`
/// before source pixel (`sx`, `sy`).
pub open spec fn drawn_before(i: int, w: int, off_x: int, off_y: int, sx: int, sy: int) -> bool {
    let row = (i / 3) / w - off_y;
    row < sy || (row == sy && (i / 3) % w - off_x < sx)
}

proof fn lemma_pixel_parts(p: int, w: int, h: int)
    requires
        0 <= w,
        0 <= h,
        0 <= p < w * h,
    ensures
        w > 0,
        p == (p / w) * w + p % w,
        0 <= p % w < w,
        0 <= p / w < h,
{
    if w == 0 {
        assert(w * h == 0) by (nonlinear_arith)
            requires
                w == 0,
        ;
    }
    lemma_fundamental_div_mod(p, w);
    assert((p / w) * w == w * (p / w)) by (nonlinear_arith);
    assert(0 <= p % w < w);
    assert(p / w >= 0) by (nonlinear_arith)
        requires
            p == w * (p / w) + p % w,
            0 <= p % w < w,
            0 <= p,
            w > 0,
    ;
    assert(p / w < h) by (nonlinear_arith)
        requires
            p == w * (p / w) + p % w,
            0 <= p % w,
            p < w * h,
            w > 0,
    ;
}

fn blend_exec(c1: u8, c2: u8, a: u8) -> (r: u8)
    ensures
        r == blend(c1, c2, a),
{
    let x1: u32 = c1 as u32;
    let x2: u32 = c2 as u32;
    let k: u32 = a as u32;
    assert(x1 * (255 - k) <= 255 * 255 && x2 * k <= 255 * 255 && x1 * (255 - k) + x2 * k <= 255
        * 255) by (nonlinear_arith)
        requires
            x1 <= 255,
            x2 <= 255,
            k <= 255,
    ;
    let v: u32 = (x1 * (255 - k) + x2 * k) / 255;
    v as u8
}

impl Image {
    pub closed spec fn spec_width(&self) -> nat {
        self.width as nat
    }

    pub closed spec fn spec_height(&self) -> nat {
        self.height as nat
    }

    /// The pixel bytes, row by row.
    pub closed spec fn bytes(&self) -> Seq<u8> {
        self.data@
    }

    /// The buffer holds exactly three bytes for each pixel.
    pub open spec fn wf(&self) -> bool {
        &&& self.bytes().len() == self.spec_width() * self.spec_height() * 3
        &&& self.spec_width() * self.spec_height() * 3 <= usize::MAX
    }

    /// A black image.
    pub fn new(width: usize, height: usize) -> (r: Image)
        requires
            width * height * 3 <= usize::MAX,
        ensures
            r.wf(),
            r.spec_width() == width,
            r.spec_height() == height,
            forall|i: int| 0 <= i < r.bytes().len() ==> r.bytes()[i] == 0,
    {
        Self::with_color(width, height, (0, 0, 0))
    }

    /// An image of one colour.
    pub fn with_color(width: usize, height: usize, color: (u8, u8, u8)) -> (r: Image)
        requires
            width * height * 3 <= usize::MAX,
        ensures
            r.wf(),
            r.spec_width() == width,
            r.spec_height() == height,
            forall|i: int| 0 <= i < r.bytes().len() ==> r.bytes()[i] == channel(color, i % 3),
    {
        let n: usize = width * height;
        let mut data: Vec<u8> = Vec::with_capacity(n * 3);
        let mut k: usize = 0;
        while k < n
            invariant
                k <= n,
                n * 3 <= usize::MAX,
                data@.len() == k * 3,
                forall|i: int| 0 <= i < data@.len() ==> data@[i] == channel(color, i % 3),
            decreases n - k,
        {
            data.push(color.0);
            data.push(color.1);
            data.push(color.2);
            k = k + 1;
        }
        Image { width, height, data }
    }

    /// Wraps a buffer of `width * height` pixels. A grey buffer is widened to
    /// RGB by repeating each byte three times.
    pub fn from_buffer(width: usize, height: usize, data: Vec<u8>, colors: Colors) -> (r: Image)
        requires
            width * height * 3 <= usize::MAX,
            colors == Colors::Grey ==> data@.len() == width * height,
            colors == Colors::RGB ==> data@.len() == width * height * 3,
        ensures
            r.wf(),
            r.spec_width() == width,
            r.spec_height() == height,
            colors == Colors::RGB ==> r.bytes() == data@,
            colors == Colors::Grey ==> forall|i: int|
                0 <= i < r.bytes().len() ==> r.bytes()[i] == data@[i / 3],
    {
        match colors {
            Colors::RGB => Image { width, height, data },
            Colors::Grey => {
                let n: usize = data.len();
                let mut colordata: Vec<u8> = Vec::with_capacity(n * 3);
                let mut k: usize = 0;
                while k < n
                    invariant
                        k <= n,
                        n == data@.len(),
                        n * 3 <= usize::MAX,
                        colordata@.len() == k * 3,
                        forall|i: int| 0 <= i < colordata@.len() ==> colordata@[i] == data@[i / 3],
                    decreases n - k,
                {
                    let byte = data[k];
                    colordata.push(byte);
                    colordata.push(byte);
                    colordata.push(byte);
                    k = k + 1;
                }
                Image { width, height, data: colordata }
            },
        }
    }

    pub fn width(&self) -> (r: usize)
        ensures
            r == self.spec_width(),
    {
        self.width
    }

    pub fn height(&self) -> (r: usize)
        ensures
            r == self.spec_height(),
    {
        self.height
    }

    pub fn data(&self) -> (r: &[u8])
        ensures
            r@ == self.bytes(),
    {
        self.data.as_slice()
    }

    /// Index of the red byte of pixel (`x`, `y`).
    pub fn xy_to_index(&self, x: usize, y: usize) -> (r: usize)
        requires
            byte_index(self.spec_width() as int, x as int, y as int) <= usize::MAX,
        ensures
            r == byte_index(self.spec_width() as int, x as int, y as int),
    {
        proof {
            assert(0 <= y * self.width <= y * self.width + x) by (nonlinear_arith)
                requires x >= 0, y >= 0, self.width >= 0;
        }
        (y * self.width + x) * 3
    }

    /// Sets the three bytes of pixel `p` to `rgb`.
    fn put_pixel(&mut self, p: usize, rgb: (u8, u8, u8))
        requires
            old(self).wf(),
            p * 3 + 3 <= old(self).bytes().len(),
        ensures
            final(self).wf(),
            final(self).spec_width() == old(self).spec_width(),
            final(self).spec_height() == old(self).spec_height(),
            forall|i: int|
                0 <= i < final(self).bytes().len() ==> #[trigger] final(self).bytes()[i] == if i / 3
                    == p {
                    channel(rgb, i % 3)
                } else {
                    old(self).bytes()[i]
                },
    {
        let index = p * 3;
        self.data.set(index, rgb.0);
        self.data.set(index + 1, rgb.1);
        self.data.set(index + 2, rgb.2);
        assert forall|i: int| 0 <= i < self.bytes().len() implies #[trigger] self.bytes()[i] == if i
            / 3 == p {
            channel(rgb, i % 3)
        } else {
            old(self).bytes()[i]
        } by {
            lemma_fundamental_div_mod(i, 3);
        }
    }

    /// Paints `len` pixels from (`x`, `y`) rightwards, running on into the
    /// next row past the right edge.
    pub fn horizontal_line(&mut self, x: usize, y: usize, len: usize, color: (u8, u8, u8))
        requires
            old(self).wf(),
            len == 0 || (y * old(self).spec_width() + x + len) * 3 <= old(self).bytes().len(),
        ensures
            final(self).wf(),
            final(self).spec_width() == old(self).spec_width(),
            final(self).spec_height() == old(self).spec_height(),
            forall|i: int|
                0 <= i < final(self).bytes().len() ==> #[trigger] final(self).bytes()[i] == if on_hline(
                    i / 3,
                    old(self).spec_width() as int,
                    x as int,
                    y as int,
                    len as int,
                ) {
                    channel(color, i % 3)
                } else {
                    old(self).bytes()[i]
                },
    {
        let ghost w = self.spec_width() as int;
        let mut k: usize = 0;
        while k < len
            invariant
                self.wf(),
                self.spec_width() == old(self).spec_width(),
                self.spec_height() == old(self).spec_height(),
                k <= len,
                len == 0 || (y * w + x + len) * 3 <= self.bytes().len(),
                w == self.spec_width(),
                forall|i: int|
                    0 <= i < self.bytes().len() ==> #[trigger] self.bytes()[i] == if on_hline(
                        i / 3,
                        w,
                        x as int,
                        y as int,
                        k as int,
                    ) {
                        channel(color, i % 3)
                    } else {
                        old(self).bytes()[i]
                    },
            decreases len - k,
        {
            proof {
                assert(0 <= y * w) by (nonlinear_arith)
                    requires
                        y >= 0,
                        w >= 0,
                ;
            }
            let index = self.xy_to_index(x + k, y);
            self.put_pixel(index / 3, color);
            k = k + 1;
        }
    }

    /// Paints `len` pixels from (`x`, `y`) downwards.
    pub fn vertical_line(&mut self, x: usize, y: usize, len: usize, color: (u8, u8, u8))
        requires
            old(self).wf(),
            len == 0 || ((y + len - 1) * old(self).spec_width() + x) * 3 + 3 <= old(self).bytes().len(),
        ensures
            final(self).wf(),
            final(self).spec_width() == old(self).spec_width(),
            final(self).spec_height() == old(self).spec_height(),
            forall|i: int|
                0 <= i < final(self).bytes().len() ==> #[trigger] final(self).bytes()[i] == if on_vline(
                    i / 3,
                    old(self).spec_width() as int,
                    x as int,
                    y as int,
                    len as int,
                ) {
                    channel(color, i % 3)
                } else {
                    old(self).bytes()[i]
                },
    {
        let ghost w = self.spec_width() as int;
        let mut k: usize = 0;
        while k < len
            invariant
                self.wf(),
                self.spec_width() == old(self).spec_width(),
                self.spec_height() == old(self).spec_height(),
                k <= len,
                len == 0 || ((y + len - 1) * w + x) * 3 + 3 <= self.bytes().len(),
                w == self.spec_width(),
                forall|i: int|
                    0 <= i < self.bytes().len() ==> #[trigger] self.bytes()[i] == if on_vline(
                        i / 3,
                        w,
                        x as int,
                        y as int,
                        k as int,
                    ) {
                        channel(color, i % 3)
                    } else {
                        old(self).bytes()[i]
                    },
            decreases len - k,
        {
            proof {
                assert(0 <= (y + k) * w <= (y + len - 1) * w) by (nonlinear_arith)
                    requires
                        y >= 0,
                        w >= 0,
                        k < len,
                ;
                assert(w >= 1);
                assert(y + len - 1 <= (y + len - 1) * w) by (nonlinear_arith)
                    requires
                        y + len - 1 >= 0,
                        w >= 1,
                ;
            }
            let index = self.xy_to_index(x, y + k);
            let ghost before = self.bytes();
            self.put_pixel(index / 3, color);
            assert forall|i: int| 0 <= i < self.bytes().len() implies #[trigger] self.bytes()[i]
                == if on_vline(i / 3, w, x as int, y as int, k + 1) {
                channel(color, i % 3)
            } else {
                old(self).bytes()[i]
            } by {
                if i / 3 == (y + k) * w + x {
                    assert(i / 3 == column_pixel(w, x as int, y as int, k as int));
                    assert(on_vline(i / 3, w, x as int, y as int, k + 1));
                } else {
                    if on_vline(i / 3, w, x as int, y as int, k + 1) {
                        let j = choose|j: int| 0 <= j < k + 1 && i / 3 == #[trigger] column_pixel(w, x as int, y as int, j);
                        assert(j != k);
                        assert(on_vline(i / 3, w, x as int, y as int, k as int));
                    } else {
                        assert(!on_vline(i / 3, w, x as int, y as int, k as int));
                    }
                }
            }
            k = k + 1;
        }
    }

    /// Paints the outline of the `width` by `height` rectangle whose top left
    /// corner is (`x1`, `y1`): its left and right columns `height` pixels
    /// long, its top and bottom rows `width` pixels long.
    pub fn rect(&mut self, x1: usize, y1: usize, width: usize, height: usize, color: (u8, u8, u8))
        requires
            old(self).wf(),
            height == 0 || ((y1 + height - 1) * old(self).spec_width() + x1 + width) * 3 + 3
                <= old(self).bytes().len(),
            width == 0 || ((y1 + height) * old(self).spec_width() + x1 + width) * 3
                <= old(self).bytes().len(),
        ensures
            final(self).wf(),
            final(self).spec_width() == old(self).spec_width(),
            final(self).spec_height() == old(self).spec_height(),
            forall|i: int|
                0 <= i < final(self).bytes().len() ==> #[trigger] final(self).bytes()[i] == if on_rect(
                    i / 3,
                    old(self).spec_width() as int,
                    x1 as int,
                    y1 as int,
                    width as int,
                    height as int,
                ) {
                    channel(color, i % 3)
                } else {
                    old(self).bytes()[i]
                },
    {
        let ghost w = self.spec_width() as int;
        proof {
            assert(y1 * w <= (y1 + height) * w) by (nonlinear_arith)
                requires
                    y1 >= 0,
                    height >= 0,
                    w >= 0,
            ;
            let h = self.spec_height() as int;
            if w == 0 {
                assert(w * h * 3 == 0 && (y1 + height) * w == 0 && (y1 + height - 1) * w == 0)
                    by (nonlinear_arith)
                    requires
                        w == 0,
                ;
            } else {
                assert(y1 + height <= (y1 + height) * w) by (nonlinear_arith)
                    requires
                        y1 + height >= 0,
                        w >= 1,
                ;
                assert((y1 + height - 1) * w <= (y1 + height) * w) by (nonlinear_arith)
                    requires
                        w >= 1,
                ;
                if height > 0 {
                    assert(0 <= y1 + height - 1 <= (y1 + height - 1) * w) by (nonlinear_arith)
                        requires
                            y1 + height >= 1,
                            w >= 1,
                    ;
                }
            }
        }
        self.vertical_line(x1, y1, height, color);
        self.horizontal_line(x1, y1, width, color);
        self.vertical_line(x1 + width, y1, height, color);
        self.horizontal_line(x1, y1 + height, width, color);
    }

    /// Lays `img` on this image with its top left corner at (`off_x`, `off_y`);
    /// see `drawn_byte`. What falls outside this image is dropped.
    pub fn draw_img(
        &mut self,
        img: Image,
        off_x: isize,
        off_y: isize,
        ignore_black: bool,
        replace_white_color: (u8, u8, u8),
    )
        requires
            old(self).wf(),
            img.wf(),
            img.spec_width() <= isize::MAX,
            img.spec_height() <= isize::MAX,
            off_x + img.spec_width() <= isize::MAX,
            off_y + img.spec_height() <= isize::MAX,
        ensures
            final(self).wf(),
            final(self).spec_width() == old(self).spec_width(),
            final(self).spec_height() == old(self).spec_height(),
            forall|i: int|
                0 <= i < final(self).bytes().len() ==> #[trigger] final(self).bytes()[i] == drawn_byte(
                    old(self).bytes(),
                    old(self).spec_width() as int,
                    img.bytes(),
                    img.spec_width() as int,
                    img.spec_height() as int,
                    off_x as int,
                    off_y as int,
                    ignore_black,
                    replace_white_color,
                    i,
                ),
    {
        let ghost w = self.spec_width() as int;
        let ghost h = self.spec_height() as int;
        let ghost canvas = self.bytes();
        let ghost iw = img.spec_width() as int;
        let ghost ih = img.spec_height() as int;
        let img_data = img.data();
        let color = replace_white_color;
        let mut sy: usize = 0;
        while sy < img.height()
            invariant
                self.wf(),
                img.wf(),
                img_data@ == img.bytes(),
                w == self.spec_width(),
                h == self.spec_height(),
                w == old(self).spec_width(),
                h == old(self).spec_height(),
                canvas == old(self).bytes(),
                canvas.len() == self.bytes().len(),
                iw == img.spec_width(),
                ih == img.spec_height(),
                ih <= isize::MAX,
                iw <= isize::MAX,
                off_x + iw <= isize::MAX,
                off_y + ih <= isize::MAX,
                color == replace_white_color,
                sy <= ih,
                forall|i: int|
                    0 <= i < self.bytes().len() ==> #[trigger] self.bytes()[i] == if drawn_before(
                        i,
                        w,
                        off_x as int,
                        off_y as int,
                        0,
                        sy as int,
                    ) {
                        drawn_byte(canvas, w, img.bytes(), iw, ih, off_x as int, off_y as int, ignore_black, color, i)
                    } else {
                        canvas[i]
                    },
            decreases ih - sy,
        {
            let y = off_y + sy as isize;
            let mut sx: usize = 0;
            if y >= 0 && (y as usize) < self.height {
                while sx < img.width()
                    invariant
                        self.wf(),
                        img.wf(),
                        img_data@ == img.bytes(),
                        w == self.spec_width(),
                        h == self.spec_height(),
                        canvas.len() == self.bytes().len(),
                        iw == img.spec_width(),
                        ih == img.spec_height(),
                        iw <= isize::MAX,
                        off_x + iw <= isize::MAX,
                        color == replace_white_color,
                        sy < ih,
                        y == off_y + sy,
                        0 <= y < h,
                        sx <= iw,
                        forall|i: int|
                            0 <= i < self.bytes().len() ==> #[trigger] self.bytes()[i] == if drawn_before(
                                i,
                                w,
                                off_x as int,
                                off_y as int,
                                sx as int,
                                sy as int,
                            ) {
                                drawn_byte(canvas, w, img.bytes(), iw, ih, off_x as int, off_y as int, ignore_black, color, i)
                            } else {
                                canvas[i]
                            },
                    decreases iw - sx,
                {
                    let x = off_x + sx as isize;
                    let ghost before = self.bytes();
                    if x >= 0 && (x as usize) < self.width {
                        proof {
                            assert(y * w + x < w * h) by (nonlinear_arith)
                                requires
                                    0 <= x < w,
                                    0 <= y < h,
                            ;
                            assert(0 <= y * w) by (nonlinear_arith)
                                requires
                                    0 <= y,
                                    0 <= w,
                            ;
                            assert(sy * iw + sx < iw * ih) by (nonlinear_arith)
                                requires
                                    0 <= sx < iw,
                                    0 <= sy < ih,
                            ;
                            assert(0 <= sy * iw) by (nonlinear_arith)
                                requires
                                    0 <= sy,
                                    0 <= iw,
                            ;
                        }
                        let ii = img.xy_to_index(sx, sy);
                        let oi = self.xy_to_index(x as usize, y as usize);
                        let p = oi / 3;
                        proof {
                            lemma_fundamental_div_mod_converse(oi as int, 3, y * w + x, 0);
                            lemma_fundamental_div_mod_converse(p as int, w, y as int, x as int);
                            lemma_fundamental_div_mod_converse(ii as int, 3, sy * iw + sx, 0);
                        }
                        if !(ignore_black && img_data[ii] == 0 && img_data[ii + 1] == 0
                            && img_data[ii] == 0) {
                            let a = img_data[ii];
                            let r = blend_exec(self.data[oi], color.0, a);
                            let g = blend_exec(self.data[oi + 1], color.1, a);
                            let b = blend_exec(self.data[oi + 2], color.2, a);
                            self.put_pixel(p, (r, g, b));
                        }
                        assert forall|i: int| 0 <= i < self.bytes().len() implies #[trigger] self.bytes()[i]
                            == if drawn_before(i, w, off_x as int, off_y as int, sx + 1, sy as int) {
                            drawn_byte(canvas, w, img.bytes(), iw, ih, off_x as int, off_y as int, ignore_black, color, i)
                        } else {
                            canvas[i]
                        } by {
                            lemma_fundamental_div_mod(i, 3);
                            lemma_pixel_parts(i / 3, w, h);
                            if i / 3 == p {
                                assert(before[i] == canvas[i]);
                                assert(before[(p * 3) as int] == canvas[(p * 3) as int]);
                                assert(before[p * 3 + 1] == canvas[p * 3 + 1]);
                                assert(before[p * 3 + 2] == canvas[p * 3 + 2]);
                            } else {
                                assert(((i / 3) / w, (i / 3) % w) != (y as int, x as int));
                            }
                        }
                    } else {
                        assert forall|i: int| 0 <= i < self.bytes().len() implies #[trigger] self.bytes()[i]
                            == if drawn_before(i, w, off_x as int, off_y as int, sx + 1, sy as int) {
                            drawn_byte(canvas, w, img.bytes(), iw, ih, off_x as int, off_y as int, ignore_black, color, i)
                        } else {
                            canvas[i]
                        } by {
                            lemma_fundamental_div_mod(i, 3);
                            lemma_pixel_parts(i / 3, w, h);
                        }
                    }
                    sx = sx + 1;
                }
            }
            assert forall|i: int| 0 <= i < self.bytes().len() implies #[trigger] self.bytes()[i]
                == if drawn_before(i, w, off_x as int, off_y as int, 0, sy + 1) {
                drawn_byte(canvas, w, img.bytes(), iw, ih, off_x as int, off_y as int, ignore_black, color, i)
            } else {
                canvas[i]
            } by {
                lemma_fundamental_div_mod(i, 3);
                lemma_pixel_parts(i / 3, w, h);
            }
            sy = sy + 1;
        }
        assert forall|i: int| 0 <= i < self.bytes().len() implies #[trigger] self.bytes()[i]
            == drawn_byte(canvas, w, img.bytes(), iw, ih, off_x as int, off_y as int, ignore_black, color, i) by {
            lemma_fundamental_div_mod(i, 3);
            lemma_pixel_parts(i / 3, w, h);
        }
    }
}

} // verus!
