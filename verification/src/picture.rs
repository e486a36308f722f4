//! Camera frames as RGB images.

use crate::draw::{canvas_bytes, canvas_size, enough, pixel_bytes, Canvas};
use crate::yuyv::{colour, is_packed_yuyv, rgb_byte, rgb_bytes, to_rgb};
use nokhwa::pixel_format::RgbFormat;
use nokhwa::utils::{FrameFormat, Resolution};
use nokhwa::{Buffer, NokhwaError};
use vstd::prelude::*;

verus! {

#[verifier::external_type_specification]
#[verifier::external_body]
pub struct ExNokhwaError(NokhwaError);

/// What a camera calls the layout of a frame's bytes. Compressed frames are
/// not among them.
#[derive(Clone, Copy, Debug, PartialEq, Eq, Structural)]
pub enum Layout {
    /// Two pixels in four bytes: luma, chroma, luma, chroma.
    Yuyv,
    /// The luma of every pixel, then the chroma of every square of four.
    Nv12,
    /// The luma of every pixel.
    Gray,
    RawRgb,
    RawBgr,
}

/// How many bytes of RGB a frame decodes to. None if its bytes do not fit its
/// layout.
pub open spec fn decoded_len(layout: Layout, size: (u32, u32), len: nat) -> Option<int> {
    match layout {
        Layout::Yuyv => if len % 4 == 0 {
            Some(6 * (len / 4) as int)
        } else {
            None
        },
        Layout::Nv12 => if size.0 % 2 == 0 && size.1 % 2 == 0 && 2 * len == pixel_bytes(size) {
            Some(pixel_bytes(size))
        } else {
            None
        },
        Layout::Gray => Some(3 * len as int),
        Layout::RawRgb | Layout::RawBgr => Some(len as int),
    }
}

/// Byte `k` of the RGB of a frame `width` pixels wide.
pub open spec fn decoded_byte(layout: Layout, size: (u32, u32), data: Seq<u8>, k: int) -> u8 {
    match layout {
        Layout::Yuyv => rgb_byte(data, k),
        Layout::Nv12 => {
            let (x, y) = (k / 3 % size.0 as int, k / 3 / size.0 as int);
            let chroma = size.0 * size.1 + y / 2 * size.0 + x / 2 * 2;
            colour(data[y * size.0 + x], data[chroma], data[chroma + 1], k % 3)
        },
        Layout::Gray => data[k / 3],
        Layout::RawRgb => data[k],
        Layout::RawBgr => if k - k % 3 + 2 < data.len() {
            data[k - k % 3 + 2 - k % 3]
        } else {
            0
        },
    }
}

/// Whether a frame can be decoded to an image of its size.
pub open spec fn decodable(layout: Layout, size: (u32, u32), len: nat) -> bool {
    match decoded_len(layout, size, len) {
        Some(n) => enough(size, n as nat),
        None => false,
    }
}

/// Whether a frame's sizes can be counted.
pub open spec fn countable(layout: Layout, size: (u32, u32), len: nat) -> bool {
    &&& 3 * len <= isize::MAX
    &&& layout is Nv12 ==> 0 < 3 * size.0 <= u32::MAX && pixel_bytes(size) <= u32::MAX
}

/// [`Buffer::decode_image`] converts a frame to RGB byte by byte, and fails if
/// its bytes do not fit its layout or are too few for an image of its size. It
/// panics on an NV12 frame without width, and where a size cannot be counted;
/// that is left out.
#[verifier::external_body]
fn decode(layout: Layout, width: u32, height: u32, data: &[u8]) -> (r: Result<
    Vec<u8>,
    NokhwaError,
>)
    requires
        countable(layout, (width, height), data@.len()),
    ensures
        r is Ok <==> decodable(layout, (width, height), data@.len()),
        r matches Ok(rgb) ==> decoded_len(layout, (width, height), data@.len()) == Some(
            rgb@.len() as int,
        ) && forall|k: int|
            0 <= k < rgb@.len() ==> #[trigger] rgb@[k] == decoded_byte(
                layout,
                (width, height),
                data@,
                k,
            ),
{
    let format = match layout {
        Layout::Yuyv => FrameFormat::YUYV,
        Layout::Nv12 => FrameFormat::NV12,
        Layout::Gray => FrameFormat::GRAY,
        Layout::RawRgb => FrameFormat::RAWRGB,
        Layout::RawBgr => FrameFormat::RAWBGR,
    };
    let frame = Buffer::new(Resolution::new(width, height), data, format);
    Ok(frame.decode_image::<RgbFormat>()?.into_raw())
}

/// Whether a frame is packed YUYV at its nominal size.
pub open spec fn packed(layout: Layout, size: (u32, u32), len: nat) -> bool {
    layout is Yuyv && len == 2 * (size.0 * size.1)
}

/// Converts a frame to an RGB image. A packed YUYV frame is converted here,
/// where a pixel without a partner stays black; any other is decoded.
pub fn picture(layout: Layout, width: u32, height: u32, data: &[u8]) -> (r: Result<
    Canvas,
    NokhwaError,
>)
    requires
        countable(layout, (width, height), data@.len()),
        packed(layout, (width, height), data@.len()) ==> 3 * width <= usize::MAX,
    ensures
        ({
            let size = (width, height);
            &&& r is Ok <==> packed(layout, size, data@.len()) || decodable(
                layout,
                size,
                data@.len(),
            )
            &&& r matches Ok(c) ==> {
                let rgb = canvas_bytes(c);
                &&& c.wf()
                &&& canvas_size(c) == size
                &&& if packed(layout, size, data@.len()) {
                    &&& rgb.len() == pixel_bytes(size)
                    &&& forall|k: int|
                        0 <= k < rgb.len() ==> #[trigger] rgb[k] == (if k < rgb_bytes(
                            data@.len(),
                            rgb.len(),
                        ) {
                            rgb_byte(data@, k)
                        } else {
                            0
                        })
                } else {
                    &&& decoded_len(layout, size, data@.len()) == Some(rgb.len() as int)
                    &&& forall|k: int|
                        0 <= k < rgb.len() ==> #[trigger] rgb[k] == decoded_byte(
                            layout,
                            size,
                            data@,
                            k,
                        )
                }
            }
        }),
{
    let yuyv: bool = match layout {
        Layout::Yuyv => true,
        _ => false,
    };
    proof {
        assert(2 * width * height == 2 * (width * height)) by (nonlinear_arith);
        assert(0 <= width * height) by (nonlinear_arith)
            requires
                0 <= width,
                0 <= height,
        ;
    }
    if !is_packed_yuyv(yuyv, width, height, data.len()) {
        let rgb: Vec<u8> = match decode(layout, width, height, data) {
            Ok(rgb) => rgb,
            Err(e) => return Err(e),
        };
        return Ok(Canvas::new(width, height, rgb).unwrap());
    }
    let room: usize = 3 * (data.len() / 2);
    let mut rgb: Vec<u8> = Vec::new();
    while rgb.len() < room
        invariant
            rgb@.len() <= room,
            forall|k: int| 0 <= k < rgb@.len() ==> #[trigger] rgb@[k] == 0,
        decreases room - rgb@.len(),
    {
        rgb.push(0);
    }
    to_rgb(data, rgb.as_mut_slice());
    Ok(Canvas::new(width, height, rgb).unwrap())
}

} // verus!
