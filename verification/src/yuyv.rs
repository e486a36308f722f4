//! YUYV (packed 4:2:2) frames, and their conversion to RGB.
//!
//! BT.601 limited-range integer maths, as a flat loop into a reused buffer.

use vstd::prelude::*;

verus! {

/// Whether a frame is packed YUYV at its nominal size: `yuyv` says that the
/// camera calls it so. Some other layouts (NV12) are called YUYV too; the size
/// keeps those off the fast paths.
pub fn is_packed_yuyv(yuyv: bool, width: u32, height: u32, len: usize) -> (b: bool)
    ensures
        b <==> yuyv && len == 2 * width * height,
{
    proof {
        assert(2 * width * height == 2 * (width * height)) by (nonlinear_arith);
        assert(0 <= width * height <= u32::MAX * u32::MAX) by (nonlinear_arith)
            requires
                0 <= width <= u32::MAX,
                0 <= height <= u32::MAX,
        ;
    }
    yuyv && len as u128 == 2 * (width as u128 * height as u128)
}

/// `x`, kept between 0 and 255.
pub open spec fn clamped(x: int) -> u8 {
    if x < 0 {
        0
    } else if x > 255 {
        255
    } else {
        x as u8
    }
}

/// One colour of a pixel with this luma and chroma: red, green or blue.
pub open spec fn colour(y: u8, u: u8, v: u8, channel: int) -> u8 {
    let c = 298 * (y - 16);
    if channel == 0 {
        clamped((c + 409 * (v - 128) + 128) / 256)
    } else if channel == 1 {
        clamped((c - 100 * (u - 128) - 208 * (v - 128) + 128) / 256)
    } else {
        clamped((c + 516 * (u - 128) + 128) / 256)
    }
}

/// Byte `k` of the RGB of packed Y0 U Y1 V bytes: two pixels of three bytes
/// for every four.
pub open spec fn rgb_byte(yuyv: Seq<u8>, k: int) -> u8 {
    let at = 4 * (k / 6);
    let y = if k % 6 < 3 {
        yuyv[at]
    } else {
        yuyv[at + 2]
    };
    colour(y, yuyv[at + 1], yuyv[at + 3], k % 3)
}

/// How many bytes of RGB come of this many bytes of YUYV, in a buffer of
/// `room`: whole pairs of pixels only.
pub open spec fn rgb_bytes(len: nat, room: nat) -> int {
    if len / 4 <= room / 6 {
        6 * (len / 4) as int
    } else {
        6 * (room / 6) as int
    }
}

/// A 256th of `sum`, rounded down, kept between 0 and 255.
fn clamp(sum: i32) -> (x: u8)
    ensures
        x == clamped(sum as int / 256),
{
    let x: i32 = sum >> 8;
    assert(x == sum / 256i32) by (bit_vector)
        requires
            x == sum >> 8,
    ;
    if x < 0 {
        0
    } else if x > 255 {
        255
    } else {
        x as u8
    }
}

/// The colours of a pixel with this luma and chroma.
fn pixel(y: u8, u: u8, v: u8) -> (rgb: (u8, u8, u8))
    ensures
        rgb == (colour(y, u, v, 0), colour(y, u, v, 1), colour(y, u, v, 2)),
{
    let c: i32 = (y as i32 - 16) * 298;
    let d: i32 = u as i32 - 128;
    let e: i32 = v as i32 - 128;
    let r: i32 = 409 * e + 128;
    let g: i32 = -(100 * d) - 208 * e + 128;
    let b: i32 = 516 * d + 128;
    (clamp(c + r), clamp(c + g), clamp(c + b))
}

/// The six bytes of pair `i`.
proof fn lemma_pair(yuyv: Seq<u8>, i: int)
    requires
        i >= 0,
    ensures
        ({
            let (y0, u, y1, v) = (yuyv[4 * i], yuyv[4 * i + 1], yuyv[4 * i + 2], yuyv[4 * i + 3]);
            &&& rgb_byte(yuyv, 6 * i) == colour(y0, u, v, 0)
            &&& rgb_byte(yuyv, 6 * i + 1) == colour(y0, u, v, 1)
            &&& rgb_byte(yuyv, 6 * i + 2) == colour(y0, u, v, 2)
            &&& rgb_byte(yuyv, 6 * i + 3) == colour(y1, u, v, 0)
            &&& rgb_byte(yuyv, 6 * i + 4) == colour(y1, u, v, 1)
            &&& rgb_byte(yuyv, 6 * i + 5) == colour(y1, u, v, 2)
        }),
{
}

/// Converts packed Y0 U Y1 V bytes into RGB, 3 bytes per pixel.
pub fn to_rgb(yuyv: &[u8], rgb: &mut [u8])
    ensures
        final(rgb)@.len() == old(rgb)@.len(),
        forall|k: int|
            0 <= k < old(rgb)@.len() ==> #[trigger] final(rgb)@[k] == (if k < rgb_bytes(
                yuyv@.len(),
                old(rgb)@.len(),
            ) {
                rgb_byte(yuyv@, k)
            } else {
                old(rgb)@[k]
            }),
{
    let len: usize = yuyv.len();
    let room: usize = rgb.len();
    let pairs: usize = if len / 4 <= room / 6 {
        len / 4
    } else {
        room / 6
    };
    let mut i: usize = 0;
    while i < pairs
        invariant
            i <= pairs,
            len == yuyv@.len(),
            room == rgb@.len(),
            pairs <= len / 4,
            pairs <= room / 6,
            rgb@.len() == old(rgb)@.len(),
            forall|k: int| 0 <= k < 6 * i ==> #[trigger] rgb@[k] == rgb_byte(yuyv@, k),
            forall|k: int| 6 * i <= k < rgb@.len() ==> #[trigger] rgb@[k] == old(rgb)@[k],
        decreases pairs - i,
    {
        let (y0, u, y1, v): (u8, u8, u8, u8) = (
            yuyv[4 * i],
            yuyv[4 * i + 1],
            yuyv[4 * i + 2],
            yuyv[4 * i + 3],
        );
        let (r0, g0, b0): (u8, u8, u8) = pixel(y0, u, v);
        let (r1, g1, b1): (u8, u8, u8) = pixel(y1, u, v);
        let ghost before = rgb@;
        rgb[6 * i] = r0;
        rgb[6 * i + 1] = g0;
        rgb[6 * i + 2] = b0;
        rgb[6 * i + 3] = r1;
        rgb[6 * i + 4] = g1;
        rgb[6 * i + 5] = b1;
        proof {
            lemma_pair(yuyv@, i as int);
            let first = 6 * i as int;
            assert(rgb@ =~= before.update(first, r0).update(first + 1, g0).update(
                first + 2,
                b0,
            ).update(first + 3, r1).update(first + 4, g1).update(first + 5, b1));
            assert forall|k: int| 0 <= k < first + 6 implies #[trigger] rgb@[k] == rgb_byte(
                yuyv@,
                k,
            ) by {
                if k < first {
                    assert(rgb@[k] == before[k]);
                }
            }
            assert forall|k: int| first + 6 <= k < rgb@.len() implies #[trigger] rgb@[k] == old(
                rgb,
            )@[k] by {
                assert(rgb@[k] == before[k]);
            }
        }
        i = i + 1;
    }
}

/// A whole frame is converted: a packed frame leaves no pixel of an image of
/// its size as it was, if the pixels come in pairs.
pub proof fn law_a_packed_frame_fills_its_image(width: u32, height: u32)
    requires
        width * height % 2 == 0,
    ensures
        rgb_bytes((2 * width * height) as nat, (3 * width * height) as nat) == 3 * width * height,
{
    let n = width * height;
    assert(2 * width * height == 2 * n) by (nonlinear_arith)
        requires
            n == width * height,
    ;
    assert(3 * width * height == 3 * n) by (nonlinear_arith)
        requires
            n == width * height,
    ;
    assert(n >= 0) by (nonlinear_arith)
        requires
            n == width * height,
    ;
}

/// The colours are BT.601's, to the nearest step: as long as the exact value
/// rounds to 0 to 255, red, green and blue are within half a step of it, and
/// above it if it is half a step off. Beyond, they stay at the end it passed.
pub proof fn law_colours_are_the_nearest(y: u8, u: u8, v: u8, channel: int)
    requires
        0 <= channel < 3,
    ensures
        ({
            let exact = 298 * (y - 16) + (if channel == 0 {
                409 * (v - 128)
            } else if channel == 1 {
                -100 * (u - 128) - 208 * (v - 128)
            } else {
                516 * (u - 128)
            });
            let got = colour(y, u, v, channel) as int;
            &&& -128 <= exact < 255 * 256 + 128 ==> -128 <= exact - 256 * got < 128
            &&& exact < -128 ==> got == 0
            &&& exact >= 255 * 256 + 128 ==> got == 255
        }),
{
}

/// A pixel gets its colours from its own luma and from the chroma it shares
/// with its neighbour.
pub proof fn law_a_pixel_shares_its_pairs_chroma(yuyv: Seq<u8>, pair: int, channel: int)
    requires
        0 <= pair,
        0 <= channel < 3,
    ensures
        rgb_byte(yuyv, 3 * (2 * pair) + channel) == colour(
            yuyv[4 * pair],
            yuyv[4 * pair + 1],
            yuyv[4 * pair + 3],
            channel,
        ),
        rgb_byte(yuyv, 3 * (2 * pair + 1) + channel) == colour(
            yuyv[4 * pair + 2],
            yuyv[4 * pair + 1],
            yuyv[4 * pair + 3],
            channel,
        ),
{
}

/// As many pairs are converted as there are, and as there is room for.
pub proof fn law_whole_pairs_are_converted(pairs: nat, rest: nat, room: nat, left: nat)
    requires
        rest < 4,
        left < 6,
    ensures
        pairs <= room ==> rgb_bytes(4 * pairs + rest, 6 * room + left) == 6 * pairs,
        pairs > room ==> rgb_bytes(4 * pairs + rest, 6 * room + left) == 6 * room,
{
}

} // verus!
