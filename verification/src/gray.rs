//! Grayscale images for the tag detector, from the luma of camera frames.

use apriltag::{Error, Image};
use vstd::arithmetic::div_mod::{lemma_fundamental_div_mod, lemma_fundamental_div_mod_converse};
use vstd::arithmetic::mul::lemma_mul_is_commutative;
use vstd::prelude::*;

verus! {

#[verifier::external_type_specification]
#[verifier::external_body]
pub struct ExImage(Image);

#[verifier::external_type_specification]
#[verifier::external_body]
pub struct ExError(Error);

/// What [`Image::width`] gives.
pub uninterp spec fn image_width(g: Image) -> nat;

/// What [`Image::height`] gives.
pub uninterp spec fn image_height(g: Image) -> nat;

/// What [`Image::stride`] gives: how many bytes each row takes up.
pub uninterp spec fn image_stride(g: Image) -> nat;

/// What [`Image::as_slice_mut`] gives: the rows, one after the other, each
/// with its padding.
pub uninterp spec fn image_bytes(g: Image) -> Seq<u8>;

/// [`Image::width`] reads the width.
pub assume_specification[ Image::width ](g: &Image) -> (n: usize)
    ensures
        n == image_width(*g),
;

/// [`Image::height`] reads the height.
pub assume_specification[ Image::height ](g: &Image) -> (n: usize)
    ensures
        n == image_height(*g),
;

/// [`Image::stride`] reads the stride.
pub assume_specification[ Image::stride ](g: &Image) -> (n: usize)
    ensures
        n == image_stride(*g),
;

/// [`Image::as_slice_mut`] lends the bytes out. What is written there is
/// written in the image, and nothing else changes. It counts them in 32 bits;
/// an image with more is left out.
pub assume_specification[ Image::as_slice_mut ](g: &mut Image) -> (s: &mut [u8])
    requires
        image_height(*old(g)) * image_stride(*old(g)) <= i32::MAX,
    ensures
        s@ == image_bytes(*old(g)),
        image_bytes(*final(g)) == final(s)@,
        image_width(*final(g)) == image_width(*old(g)),
        image_height(*final(g)) == image_height(*old(g)),
        image_stride(*final(g)) == image_stride(*old(g)),
;

/// `width`, rounded up to a multiple of `alignment`.
pub open spec fn padded(width: nat, alignment: nat) -> nat {
    if width % alignment == 0 {
        width
    } else {
        (width + alignment - width % alignment) as nat
    }
}

/// [`Image::zeros_with_alignment`] makes an image of zeros, its rows padded to
/// a multiple of `alignment`, which only an alignment of zero keeps it from.
/// It fills in the block it has allocated before it looks whether there is one,
/// so where it comes back at all, it comes back with an image. Sizes are kept
/// in 32 bits: those whose bytes do not count up in them are left out.
pub assume_specification[ Image::zeros_with_alignment ](
    width: usize,
    height: usize,
    alignment: usize,
) -> (r: Result<Image, Error>)
    requires
        height <= i32::MAX,
        0 < alignment <= i32::MAX,
        padded(width as nat, alignment as nat) <= i32::MAX,
        padded(width as nat, alignment as nat) * height <= i32::MAX,
    ensures
        r is Ok,
        match r {
            Ok(g) => {
                let stride = padded(width as nat, alignment as nat);
                &&& image_width(g) == width
                &&& image_height(g) == height
                &&& image_stride(g) == stride
                &&& image_bytes(g) == Seq::new(stride * height as nat, |i: int| 0u8)
            },
            Err(_) => true,
        },
;

/// Whether an image's rows are as wide as it is, and all there, and its bytes
/// can be counted.
pub open spec fn image_wf(g: Image) -> bool {
    &&& image_width(g) <= image_stride(g)
    &&& image_bytes(g).len() == image_height(g) * image_stride(g)
    &&& image_height(g) * image_stride(g) <= i32::MAX
}

/// Whether an image is new: padded as the detector likes it, and all zeros.
pub open spec fn is_blank(g: Image) -> bool {
    &&& image_stride(g) == padded(image_width(g), 96)
    &&& image_bytes(g) == Seq::new(image_stride(g) * image_height(g), |i: int| 0u8)
}

/// Whether an image of this size can be made.
pub open spec fn can_hold(w: usize, h: usize) -> bool {
    &&& h <= i32::MAX
    &&& padded(w as nat, 96) <= i32::MAX
    &&& padded(w as nat, 96) * h <= i32::MAX
}

/// Whether an image of this size can be made.
pub fn fits(w: usize, h: usize) -> (b: bool)
    ensures
        b == can_hold(w, h),
{
    let max: usize = i32::MAX as usize;
    if w > max || h > max {
        return false;
    }
    let stride: u64 = if w % 96 == 0 {
        w as u64
    } else {
        w as u64 + 96 - w as u64 % 96
    };
    if stride > max as u64 {
        return false;
    }
    assert(0 <= stride * h <= i32::MAX * i32::MAX) by (nonlinear_arith)
        requires
            0 <= stride <= i32::MAX,
            0 <= h <= i32::MAX,
    ;
    stride * h as u64 <= max as u64
}

/// The grayscale image in `slot`, allocated on first use and again whenever
/// the frame size changes.
pub fn gray_image(slot: &mut Option<Image>, w: usize, h: usize) -> (r: Result<&mut Image, Error>)
    requires
        can_hold(w, h),
    ensures
        r is Ok,
        match r {
            Ok(g) => {
                &&& image_width(*g) == w
                &&& image_height(*g) == h
                &&& match *old(slot) {
                    Some(before) => if image_width(before) == w && image_height(before) == h {
                        *g == before
                    } else {
                        is_blank(*g)
                    },
                    None => is_blank(*g),
                }
                &&& *final(slot) == Some(*final(g))
            },
            Err(_) => true,
        },
{
    let reuse: bool = match slot.as_ref() {
        Some(g) => g.width() == w && g.height() == h,
        None => false,
    };
    if !reuse {
        match Image::zeros_with_alignment(w, h, 96) {
            Ok(g) => {
                *slot = Some(g);
            },
            Err(e) => return Err(e),
        }
    }
    Ok(slot.as_mut().unwrap())
}

/// A frame that is not packed YUYV of its image's size.
#[derive(Clone, Copy, Debug)]
pub struct WrongSize {
    pub len: usize,
    pub width: usize,
    pub height: usize,
}

/// What byte `i` of an image is once the luma of a packed YUYV frame has been
/// copied in: every other byte of the frame, where there is a pixel.
pub open spec fn luma_byte(data: Seq<u8>, before: Seq<u8>, w: int, stride: int, i: int) -> u8 {
    let x = i % stride;
    let y = i / stride;
    if x < w {
        data[2 * (y * w + x)]
    } else {
        before[i]
    }
}

/// The pixel at `x`, `y` stands in one place, within its row and its image.
proof fn lemma_place(x: int, y: int, w: int, h: int, stride: int)
    requires
        0 <= x < w <= stride,
        0 <= y < h,
    ensures
        0 <= y * stride <= y * stride + x < h * stride,
        (y * stride + x) / stride == y,
        (y * stride + x) % stride == x,
        0 <= y * w <= y * w + x < w * h,
        forall|i: int|
            #![trigger comes_before(i, x, y, stride)]
            comes_before(i, x + 1, y, stride) <==> comes_before(i, x, y, stride) || i == y * stride
                + x,
{
    lemma_fundamental_div_mod_converse(y * stride + x, stride, y, x);
    assert(0 <= y * stride && y * stride + stride <= h * stride) by (nonlinear_arith)
        requires
            0 <= y < h,
            0 < stride,
    ;
    assert(0 <= y * w && y * w + w <= w * h) by (nonlinear_arith)
        requires
            0 <= y < h,
            0 < w,
    ;
    assert forall|i: int|
        #![trigger comes_before(i, x, y, stride)]
        comes_before(i, x + 1, y, stride) <==> comes_before(i, x, y, stride) || i == y * stride
            + x by {
        lemma_fundamental_div_mod(i, stride);
        lemma_mul_is_commutative(stride, y);
    }
}

/// Whether pixel `i` of an image comes before the one at `x`, `y`, row by row.
spec fn comes_before(i: int, x: int, y: int, stride: int) -> bool {
    i / stride < y || i / stride == y && i % stride < x
}

/// Copies the luma of a packed YUYV frame into `gray`: every other byte.
/// Packed YUYV is exactly 2 bytes a pixel, so a frame of any other length is
/// in some other layout (NV12, MJPEG) and is refused rather than misread.
pub fn luma_from_yuyv(data: &[u8], gray: &mut Image) -> (r: Result<(), WrongSize>)
    requires
        image_wf(*old(gray)),
        image_width(*old(gray)) > 0,
    ensures
        image_wf(*final(gray)),
        image_width(*final(gray)) == image_width(*old(gray)),
        image_height(*final(gray)) == image_height(*old(gray)),
        image_stride(*final(gray)) == image_stride(*old(gray)),
        r is Ok <==> data@.len() == 2 * (image_width(*old(gray)) * image_height(*old(gray))),
        match r {
            Ok(()) => {
                let before = image_bytes(*old(gray));
                image_bytes(*final(gray)) == Seq::new(
                    before.len(),
                    |i: int|
                        luma_byte(
                            data@,
                            before,
                            image_width(*old(gray)) as int,
                            image_stride(*old(gray)) as int,
                            i,
                        ),
                )
            },
            Err(e) => {
                &&& e.len == data@.len()
                &&& e.width == image_width(*old(gray))
                &&& e.height == image_height(*old(gray))
                &&& *final(gray) == *old(gray)
            },
        },
{
    let (w, h, stride): (usize, usize, usize) = (gray.width(), gray.height(), gray.stride());
    proof {
        assert(0 <= w * h <= usize::MAX * usize::MAX) by (nonlinear_arith)
            requires
                0 <= w <= usize::MAX,
                0 <= h <= usize::MAX,
        ;
    }
    let pixels: u128 = w as u128 * h as u128;
    if data.len() % 2 != 0 || data.len() as u128 / 2 != pixels {
        return Err(WrongSize { len: data.len(), width: w, height: h });
    }
    let ghost before = image_bytes(*gray);
    let buf: &mut [u8] = gray.as_slice_mut();
    let mut y: usize = 0;
    while y < h
        invariant
            y <= h,
            0 < w <= stride,
            before.len() == h * stride,
            before.len() <= usize::MAX,
            buf@.len() == before.len(),
            data@.len() == 2 * (w * h),
            data@.len() <= usize::MAX,
            forall|i: int|
                0 <= i < before.len() ==> #[trigger] buf@[i] == (if comes_before(
                    i,
                    0,
                    y as int,
                    stride as int,
                ) {
                    luma_byte(data@, before, w as int, stride as int, i)
                } else {
                    before[i]
                }),
        decreases h - y,
    {
        let mut x: usize = 0;
        while x < w
            invariant
                x <= w,
                y < h,
                0 < w <= stride,
                before.len() == h * stride,
                before.len() <= usize::MAX,
                buf@.len() == before.len(),
                data@.len() == 2 * (w * h),
                data@.len() <= usize::MAX,
                forall|i: int|
                    0 <= i < before.len() ==> #[trigger] buf@[i] == (if comes_before(
                        i,
                        x as int,
                        y as int,
                        stride as int,
                    ) {
                        luma_byte(data@, before, w as int, stride as int, i)
                    } else {
                        before[i]
                    }),
            decreases w - x,
        {
            proof {
                lemma_place(x as int, y as int, w as int, h as int, stride as int);
            }
            let ghost earlier = buf@;
            let at: usize = y * stride + x;
            buf[at] = data[2 * (y * w + x)];
            assert(buf@ =~= earlier.update(at as int, data@[2 * (y * w + x)]));
            x = x + 1;
        }
        assert forall|i: int| 0 <= i < before.len() implies #[trigger] buf@[i] == (
        if comes_before(i, 0, y + 1, stride as int) {
            luma_byte(data@, before, w as int, stride as int, i)
        } else {
            before[i]
        }) by {}
        y = y + 1;
    }
    assert(buf@ =~= Seq::new(
        before.len(),
        |i: int| luma_byte(data@, before, w as int, stride as int, i),
    )) by {
        assert forall|i: int| 0 <= i < before.len() implies #[trigger] comes_before(
            i,
            0,
            h as int,
            stride as int,
        ) by {
            lemma_fundamental_div_mod(i, stride as int);
            let q = i / stride as int;
            assert(q < h) by (nonlinear_arith)
                requires
                    stride * q <= i,
                    i < h * stride,
                    stride > 0,
            ;
        }
    }
    Ok(())
}

/// A new image is sound.
pub proof fn law_a_blank_image_is_sound(g: Image)
    requires
        is_blank(g),
        padded(image_width(g), 96) * image_height(g) <= i32::MAX,
    ensures
        image_wf(g),
{
    lemma_mul_is_commutative(image_stride(g) as int, image_height(g) as int);
}

/// Why a frame could not be looked at.
#[derive(Debug)]
pub enum FrameError {
    /// There is no image to copy it to.
    NoImage(Error),
    /// It is not packed YUYV of its size.
    Refused(WrongSize),
}

/// Whether an image holds the luma of a frame: every other byte, row by row.
pub open spec fn shows(g: Image, data: Seq<u8>) -> bool {
    forall|x: int, y: int|
        0 <= x < image_width(g) && 0 <= y < image_height(g) ==> image_bytes(g)[
            #[trigger] place(x, y, image_stride(g) as int)] == data[2 * place(
            x,
            y,
            image_width(g) as int,
        )]
}

/// Where the pixel at `x`, `y` stands among rows this long.
pub open spec fn place(x: int, y: int, stride: int) -> int {
    y * stride + x
}

/// Copies the luma of a `w` x `h` frame of packed YUYV into the image in
/// `slot`, which is made anew if it is not of that size. A frame that is
/// refused changes nothing in that image.
pub fn gray_frame(
    slot: &mut Option<Image>,
    w: usize,
    h: usize,
    yuyv: &[u8],
) -> (r: Result<(), FrameError>)
    requires
        can_hold(w, h),
        w > 0,
        *old(slot) matches Some(g) ==> image_wf(g),
    ensures
        *final(slot) is Some,
        image_wf((*final(slot))->0),
        image_width((*final(slot))->0) == w,
        image_height((*final(slot))->0) == h,
        r is Ok <==> yuyv@.len() == 2 * (w * h),
        match r {
            Ok(()) => shows((*final(slot))->0, yuyv@),
            Err(FrameError::Refused(e)) => {
                &&& e.len == yuyv@.len()
                &&& e.width == w
                &&& e.height == h
                &&& match *old(slot) {
                    Some(before) => if image_width(before) == w && image_height(before) == h {
                        (*final(slot))->0 == before
                    } else {
                        is_blank((*final(slot))->0)
                    },
                    None => is_blank((*final(slot))->0),
                }
            },
            Err(FrameError::NoImage(_)) => false,
        },
{
    let gray: &mut Image = match gray_image(slot, w, h) {
        Ok(gray) => gray,
        Err(e) => return Err(FrameError::NoImage(e)),
    };
    proof {
        if is_blank(*gray) {
            law_a_blank_image_is_sound(*gray);
        }
    }
    let ghost before = image_bytes(*gray);
    match luma_from_yuyv(yuyv, gray) {
        Ok(()) => {
            proof {
                let stride = image_stride(*gray) as int;
                assert forall|x: int, y: int| 0 <= x < w && 0 <= y < h implies image_bytes(*gray)[
                    #[trigger] place(x, y, stride)] == yuyv@[2 * place(x, y, w as int)] by {
                    lemma_place(x, y, w as int, h as int, stride);
                }
            }
            Ok(())
        },
        Err(e) => Err(FrameError::Refused(e)),
    }
}

/// The luma of each pixel goes to its place in the image, and the padding
/// behind each row stays as it was.
pub proof fn law_each_pixel_gets_its_luma(
    data: Seq<u8>,
    before: Seq<u8>,
    w: int,
    stride: int,
    x: int,
    y: int,
)
    requires
        0 < w <= stride,
        0 <= x < stride,
        0 <= y,
    ensures
        x < w ==> luma_byte(data, before, w, stride, y * stride + x) == data[2 * (y * w + x)],
        x >= w ==> luma_byte(data, before, w, stride, y * stride + x) == before[y * stride + x],
{
    lemma_fundamental_div_mod_converse(y * stride + x, stride, y, x);
}

/// Padding is to the next multiple, and no further.
pub proof fn law_padding_is_to_the_next_multiple(width: nat, alignment: nat)
    requires
        alignment > 0,
    ensures
        padded(width, alignment) % alignment == 0,
        width <= padded(width, alignment) < width + alignment,
{
    let rest = width % alignment;
    let whole = width / alignment;
    lemma_fundamental_div_mod(width as int, alignment as int);
    if rest > 0 {
        assert(padded(width, alignment) == (whole + 1) * alignment) by (nonlinear_arith)
            requires
                width == alignment * whole + rest,
                padded(width, alignment) == width + alignment - rest,
        ;
        lemma_fundamental_div_mod_converse(
            padded(width, alignment) as int,
            alignment as int,
            (whole + 1) as int,
            0,
        );
    }
}

/// An image that shows a frame has the luma of each pixel, the first of its two
/// bytes, in the row and the column of the pixel.
pub proof fn law_an_image_shows_each_pixel(g: Image, data: Seq<u8>, x: int, y: int)
    requires
        shows(g, data),
        0 <= x < image_width(g),
        0 <= y < image_height(g),
    ensures
        image_bytes(g)[y * image_stride(g) + x] == data[2 * (y * image_width(g) + x)],
{
    assert(place(x, y, image_stride(g) as int) == y * image_stride(g) + x);
}

} // verus!
