//! Minimal raster primitives for drawing over RGB frames.

use image::RgbImage;
use vstd::arithmetic::div_mod::{lemma_fundamental_div_mod, lemma_fundamental_div_mod_converse};
use vstd::arithmetic::mul::lemma_mul_is_commutative;
use vstd::prelude::*;

verus! {

pub type Color = [u8; 3];

pub const RED: Color = [235, 45, 45];

pub const GREEN: Color = [40, 220, 70];

pub const BLUE: Color = [60, 120, 255];

pub const CYAN: Color = [0, 220, 230];

/// An RGB image.
#[verifier::external_body]
pub struct Canvas {
    img: RgbImage,
}

/// The bytes of an image: red, green and blue of each pixel, row by row, and
/// whatever room is left behind.
pub uninterp spec fn canvas_bytes(c: Canvas) -> Seq<u8>;

/// The width and height of an image.
pub uninterp spec fn canvas_size(c: Canvas) -> (u32, u32);

/// How many bytes the pixels of an image take up.
pub open spec fn pixel_bytes(size: (u32, u32)) -> int {
    3 * (size.0 * size.1)
}

/// Whether this many bytes are enough for an image, and a row of it can be
/// counted.
pub open spec fn enough(size: (u32, u32), len: nat) -> bool {
    3 * size.0 <= usize::MAX && pixel_bytes(size) <= len
}

impl Canvas {
    /// An image has room for its pixels.
    pub open spec fn wf(&self) -> bool {
        pixel_bytes(canvas_size(*self)) <= canvas_bytes(*self).len()
    }

    /// `RgbImage::from_raw` makes an image of these bytes if there are enough
    /// for its size, and a row of it can be counted.
    #[verifier::external_body]
    fn from_raw(width: u32, height: u32, bytes: Vec<u8>) -> (c: Option<Canvas>)
        ensures
            c is Some <==> enough((width, height), bytes@.len()),
            c is Some ==> canvas_size(c->0) == (width, height) && canvas_bytes(c->0) == bytes@,
    {
        RgbImage::from_raw(width, height, bytes).map(|img| Canvas { img })
    }

    /// `RgbImage::into_raw` gives the bytes back.
    #[verifier::external_body]
    fn into_raw(self) -> (bytes: Vec<u8>)
        ensures
            bytes@ == canvas_bytes(self),
    {
        self.img.into_raw()
    }

    /// `RgbImage::dimensions` gives the width and height.
    #[verifier::external_body]
    fn dimensions(&self) -> (size: (u32, u32))
        ensures
            size == canvas_size(*self),
    {
        self.img.dimensions()
    }

    /// `RgbImage::put_pixel` sets the three bytes of one pixel. It panics
    /// outside the image, which is left out.
    #[verifier::external_body]
    fn put_pixel(&mut self, x: u32, y: u32, color: Color)
        requires
            x < canvas_size(*old(self)).0,
            y < canvas_size(*old(self)).1,
        ensures
            canvas_size(*final(self)) == canvas_size(*old(self)),
            ({
                let at = 3 * (y * canvas_size(*old(self)).0 + x);
                canvas_bytes(*final(self)) == canvas_bytes(*old(self)).update(
                    at,
                    color@[0],
                ).update(at + 1, color@[1]).update(at + 2, color@[2])
            }),
    {
        self.img.put_pixel(x, y, image::Rgb(color));
    }

    /// An image of these bytes, if there are enough for its size.
    pub fn new(width: u32, height: u32, bytes: Vec<u8>) -> (c: Option<Canvas>)
        ensures
            c is Some <==> enough((width, height), bytes@.len()),
            c is Some ==> c->0.wf() && canvas_size(c->0) == (width, height) && canvas_bytes(c->0)
                == bytes@,
    {
        Canvas::from_raw(width, height, bytes)
    }

    pub fn width(&self) -> (w: u32)
        ensures
            w == canvas_size(*self).0,
    {
        self.dimensions().0
    }

    pub fn height(&self) -> (h: u32)
        ensures
            h == canvas_size(*self).1,
    {
        self.dimensions().1
    }

    /// The bytes of the image.
    pub fn into_bytes(self) -> (bytes: Vec<u8>)
        ensures
            bytes@ == canvas_bytes(self),
    {
        self.into_raw()
    }
}

/// A rectangle, which may reach beyond the image.
pub ghost struct Rect {
    pub x: int,
    pub y: int,
    pub w: int,
    pub h: int,
}

impl Rect {
    pub open spec fn contains(self, x: int, y: int) -> bool {
        self.x <= x < self.x + self.w && self.y <= y < self.y + self.h
    }
}

/// Byte `k` of an image of this width once a rectangle of it has been filled.
pub open spec fn filled(before: Seq<u8>, width: int, r: Rect, color: Color, k: int) -> u8 {
    if r.contains(k / 3 % width, k / 3 / width) {
        color@[k % 3]
    } else {
        before[k]
    }
}

/// The pixel at `x`, `y` takes up three bytes of its own.
proof fn lemma_pixel(x: int, y: int, w: int, h: int, k: int)
    requires
        0 <= x < w,
        0 <= y < h,
    ensures
        0 <= 3 * (y * w + x),
        3 * (y * w + x) + 3 <= 3 * (w * h),
        k / 3 == y * w + x <==> k / 3 % w == x && k / 3 / w == y,
{
    assert(0 <= y * w && y * w + w <= w * h) by (nonlinear_arith)
        requires
            0 <= y < h,
            0 < w,
    ;
    lemma_fundamental_div_mod_converse(y * w + x, w, y, x);
    lemma_fundamental_div_mod(k / 3, w);
    lemma_mul_is_commutative(w, y);
}

/// Whether a rectangle has been filled in the rows above `y`, and in row `y`
/// left of `x`.
spec fn filled_to(
    now: Seq<u8>,
    before: Seq<u8>,
    size: (u32, u32),
    r: Rect,
    color: Color,
    x: int,
    y: int,
) -> bool {
    let width = size.0 as int;
    &&& now.len() == before.len()
    &&& forall|k: int|
        0 <= k < before.len() ==> #[trigger] now[k] == (if k < pixel_bytes(size) && comes_before(
            k,
            width,
            x,
            y,
        ) {
            filled(before, width, r, color, k)
        } else {
            before[k]
        })
}

/// Whether byte `k` is of a pixel before the one at `x`, `y`, row by row.
spec fn comes_before(k: int, width: int, x: int, y: int) -> bool {
    let py = k / 3 / width;
    py < y || py == y && k / 3 % width < x
}

/// Filling may pass over pixels that are not in the rectangle.
proof fn lemma_nothing_to_fill(
    now: Seq<u8>,
    before: Seq<u8>,
    size: (u32, u32),
    r: Rect,
    color: Color,
    from: (int, int),
    to: (int, int),
)
    requires
        filled_to(now, before, size, r, color, from.0, from.1),
        from.1 < to.1 || from.1 == to.1 && from.0 <= to.0,
        forall|px: int, py: int|
            0 <= px < size.0 && 0 <= py < size.1 && #[trigger] r.contains(px, py) ==> py < from.1
                || py == from.1 && px < from.0 || py > to.1 || py == to.1 && px >= to.0,
    ensures
        filled_to(now, before, size, r, color, to.0, to.1),
{
    let width = size.0 as int;
    assert forall|k: int| 0 <= k < pixel_bytes(size) && comes_before(k, width, to.0, to.1)
        && !comes_before(k, width, from.0, from.1) implies #[trigger] before[k] == filled(
        before,
        width,
        r,
        color,
        k,
    ) by {
        lemma_inside(k, width, size.1 as int);
        assert(!r.contains(k / 3 % width, k / 3 / width));
    }
    assert forall|k: int| 0 <= k < before.len() implies #[trigger] now[k] == (if k < pixel_bytes(
        size,
    ) && comes_before(k, width, to.0, to.1) {
        filled(before, width, r, color, k)
    } else {
        before[k]
    }) by {
        assert(before[k] == before[k]);
    }
}

/// Sets one pixel of a rectangle, the next after those filled already.
fn fill_pixel(
    img: &mut Canvas,
    x: u32,
    y: u32,
    color: Color,
    before: Ghost<Seq<u8>>,
    r: Ghost<Rect>,
)
    requires
        x < canvas_size(*old(img)).0,
        y < canvas_size(*old(img)).1,
        r@.contains(x as int, y as int),
        pixel_bytes(canvas_size(*old(img))) <= before@.len(),
        filled_to(
            canvas_bytes(*old(img)),
            before@,
            canvas_size(*old(img)),
            r@,
            color,
            x as int,
            y as int,
        ),
    ensures
        canvas_size(*final(img)) == canvas_size(*old(img)),
        filled_to(
            canvas_bytes(*final(img)),
            before@,
            canvas_size(*old(img)),
            r@,
            color,
            x + 1,
            y as int,
        ),
{
    let ghost size = canvas_size(*img);
    let ghost width = size.0 as int;
    let ghost earlier = canvas_bytes(*img);
    proof {
        lemma_pixel(x as int, y as int, width, size.1 as int, 0);
    }
    img.put_pixel(x, y, color);
    proof {
        let now = canvas_bytes(*img);
        let at = 3 * (y * width + x);
        assert forall|k: int| 0 <= k < before@.len() implies #[trigger] now[k] == (if k
            < pixel_bytes(size) && comes_before(k, width, x + 1, y as int) {
            filled(before@, width, r@, color, k)
        } else {
            before@[k]
        }) by {
            lemma_pixel(x as int, y as int, width, size.1 as int, k);
            if k / 3 == y * width + x {
                assert(at <= k < at + 3);
            } else {
                assert(now[k] == earlier[k]);
            }
        }
    }
}

/// Fills a rectangle, clipped to the image.
pub fn fill_rect(img: &mut Canvas, x: i64, y: i64, w: i64, h: i64, color: Color)
    requires
        old(img).wf(),
    ensures
        final(img).wf(),
        canvas_size(*final(img)) == canvas_size(*old(img)),
        canvas_bytes(*final(img)).len() == canvas_bytes(*old(img)).len(),
        forall|k: int|
            0 <= k < canvas_bytes(*old(img)).len() ==> #[trigger] canvas_bytes(*final(img))[k] == (
            if k < pixel_bytes(canvas_size(*old(img))) {
                filled(
                    canvas_bytes(*old(img)),
                    canvas_size(*old(img)).0 as int,
                    (Rect { x: x as int, y: y as int, w: w as int, h: h as int }),
                    color,
                    k,
                )
            } else {
                canvas_bytes(*old(img))[k]
            }),
{
    let (width, height): (u32, u32) = img.dimensions();
    let x0: i128 = if x > 0 {
        x as i128
    } else {
        0
    };
    let y0: i128 = if y > 0 {
        y as i128
    } else {
        0
    };
    let right: i128 = x as i128 + w as i128;
    let below: i128 = y as i128 + h as i128;
    let x1: i128 = if right < width as i128 {
        right
    } else {
        width as i128
    };
    let y1: i128 = if below < height as i128 {
        below
    } else {
        height as i128
    };
    let ghost before = canvas_bytes(*img);
    let ghost size = (width, height);
    let ghost r = Rect { x: x as int, y: y as int, w: w as int, h: h as int };
    assert forall|px: int, py: int| 0 <= px < width && 0 <= py < height implies (
    #[trigger] r.contains(px, py) <==> x0 <= px < x1 && y0 <= py < y1) by {}
    proof {
        assert forall|k: int| 0 <= k < pixel_bytes(size) implies !#[trigger] comes_before(
            k,
            width as int,
            0,
            0,
        ) by {
            lemma_inside(k, width as int, height as int);
        }
        assert(filled_to(before, before, size, r, color, 0, 0));
        lemma_nothing_to_fill(before, before, size, r, color, (0, 0), (0, y0 as int));
    }
    let mut yy: i128 = y0;
    while yy < y1
        invariant
            0 <= y0 <= yy,
            0 <= x0,
            y1 <= height,
            x1 <= width,
            size == (width, height),
            pixel_bytes(size) <= before.len(),
            canvas_size(*img) == size,
            forall|px: int, py: int|
                0 <= px < width && 0 <= py < height ==> (#[trigger] r.contains(px, py) <==> x0 <= px
                    < x1 && y0 <= py < y1),
            filled_to(canvas_bytes(*img), before, size, r, color, 0, yy as int),
        decreases y1 - yy,
    {
        let mut xx: i128 = x0;
        proof {
            let now = canvas_bytes(*img);
            lemma_nothing_to_fill(
                now,
                before,
                size,
                r,
                color,
                (0, yy as int),
                (x0 as int, yy as int),
            );
        }
        while xx < x1
            invariant
                0 <= x0 <= xx,
                0 <= y0 <= yy < y1,
                y1 <= height,
                x1 <= width,
                size == (width, height),
                pixel_bytes(size) <= before.len(),
                canvas_size(*img) == size,
                forall|px: int, py: int|
                    0 <= px < width && 0 <= py < height ==> (#[trigger] r.contains(px, py) <==> x0
                        <= px < x1 && y0 <= py < y1),
                filled_to(canvas_bytes(*img), before, size, r, color, xx as int, yy as int),
            decreases x1 - xx,
        {
            assert(r.contains(xx as int, yy as int));
            fill_pixel(img, xx as u32, yy as u32, color, Ghost(before), Ghost(r));
            xx = xx + 1;
        }
        proof {
            let now = canvas_bytes(*img);
            lemma_nothing_to_fill(
                now,
                before,
                size,
                r,
                color,
                (xx as int, yy as int),
                (0, yy + 1),
            );
        }
        yy = yy + 1;
    }
    proof {
        let now = canvas_bytes(*img);
        let end = if yy > height {
            yy as int
        } else {
            height as int
        };
        lemma_nothing_to_fill(now, before, size, r, color, (0, yy as int), (0, end));
        assert forall|k: int| 0 <= k < pixel_bytes(size) implies #[trigger] comes_before(
            k,
            width as int,
            0,
            end,
        ) by {
            lemma_inside(k, width as int, height as int);
        }
    }
}

/// Every byte of an image's pixels is of a pixel inside it.
proof fn lemma_inside(k: int, w: int, h: int)
    requires
        0 <= k < 3 * (w * h),
        0 <= w,
        0 <= h,
    ensures
        0 < w,
        0 <= k / 3 % w < w,
        0 <= k / 3 / w < h,
{
    assert(0 < w) by (nonlinear_arith)
        requires
            0 < w * h,
            0 <= w,
            0 <= h,
    ;
    lemma_fundamental_div_mod(k / 3, w);
    let q = k / 3 / w;
    assert(0 <= q < h) by (nonlinear_arith)
        requires
            0 <= k / 3 < w * h,
            w * q <= k / 3 < w * q + w,
            0 < w,
    ;
}

/// Filling a rectangle colours the pixels in it, red, green and blue, and
/// leaves every other pixel as it was.
pub proof fn law_filling_colours_the_pixels_inside(
    before: Seq<u8>,
    width: int,
    r: Rect,
    color: Color,
    x: int,
    y: int,
    channel: int,
)
    requires
        0 <= x < width,
        0 <= y,
        0 <= channel < 3,
    ensures
        r.x <= x < r.x + r.w && r.y <= y < r.y + r.h ==> filled(
            before,
            width,
            r,
            color,
            3 * (y * width + x) + channel,
        ) == color@[channel],
        !(r.x <= x < r.x + r.w && r.y <= y < r.y + r.h) ==> filled(
            before,
            width,
            r,
            color,
            3 * (y * width + x) + channel,
        ) == before[3 * (y * width + x) + channel],
{
    let k = 3 * (y * width + x) + channel;
    assert(k / 3 == y * width + x && k % 3 == channel);
    lemma_fundamental_div_mod_converse(y * width + x, width, y, x);
}

} // verus!
