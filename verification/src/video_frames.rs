//! The pictures handed to the virtual camera: 1280×720 frames in BGRA and in NV12 (BT.601
//! studio range, chroma averaged over 2×2 blocks), the grey frame shown when no picture is
//! fresh, and the 24-byte header of the local frame channel.
use vstd::prelude::*;
use crate::camera::le64_bytes;
use crate::ucd2::{le32_at, le32_bytes, lemma_le32_roundtrip, push_le32, read_le32};

verus! {

/// Frame width in pixels.
pub const FRAME_WIDTH: u32 = 1280;
/// Frame height in pixels.
pub const FRAME_HEIGHT: u32 = 720;
/// Length of a frame-channel header.
pub const FRAME_BRIDGE_HEADER_LEN: usize = 24;
/// Length of an NV12 frame: the luma plane plus half as much chroma.
pub const FRAME_BRIDGE_MAX_PAYLOAD: usize = 1382400;

/// The number of pixels of a frame.
pub open spec fn pixel_count() -> int {
    921600int
}

/// `value` limited to `0..=255`.
pub open spec fn clamp_spec(value: int) -> u8 {
    if value < 0 {
        0
    } else if value > 255 {
        255
    } else {
        value as u8
    }
}

/// The luma of a pixel: `((66 r + 129 g + 25 b + 128) >> 8) + 16`, limited to a byte.
pub open spec fn y_spec(r: u8, g: u8, b: u8) -> u8 {
    clamp_spec((66 * r + 129 * g + 25 * b + 128) / 256 + 16)
}

/// The blue-difference chroma: `((-38 r - 74 g + 112 b + 128) >> 8) + 128`, limited to a byte.
pub open spec fn u_spec(r: u8, g: u8, b: u8) -> u8 {
    clamp_spec((-38 * r - 74 * g + 112 * b + 128) / 256 + 128)
}

/// The red-difference chroma: `((112 r - 94 g - 18 b + 128) >> 8) + 128`, limited to a byte.
pub open spec fn v_spec(r: u8, g: u8, b: u8) -> u8 {
    clamp_spec((112 * r - 94 * g - 18 * b + 128) / 256 + 128)
}

/// `value` limited to `0..=255`.
pub fn clamp_u8(value: i32) -> (r: u8)
    ensures
        r == clamp_spec(value as int),
{
    if value < 0 {
        0
    } else if value > 255 {
        255
    } else {
        value as u8
    }
}

/// An arithmetic shift right by eight bits is division by 256 rounded down.
proof fn lemma_shr8(x: i32)
    ensures
        (x >> 8u32) as int == (x as int) / 256,
{
    let q = x >> 8u32;
    assert(q * 256 <= x && x < q * 256 + 256) by (bit_vector)
        requires
            q == x >> 8u32,
    ;
}

/// The luma of a pixel.
pub fn rgb_to_y(r: u8, g: u8, b: u8) -> (y: u8)
    ensures
        y == y_spec(r, g, b),
{
    let (rr, gg, bb) = (r as i32, g as i32, b as i32);
    let sum: i32 = 66 * rr + 129 * gg + 25 * bb + 128;
    proof {
        lemma_shr8(sum);
    }
    clamp_u8((sum >> 8u32) + 16)
}

/// The blue-difference chroma of a pixel.
pub fn rgb_to_u(r: u8, g: u8, b: u8) -> (u: u8)
    ensures
        u == u_spec(r, g, b),
{
    let (rr, gg, bb) = (r as i32, g as i32, b as i32);
    let sum: i32 = 112 * bb + 128 - 38 * rr - 74 * gg;
    proof {
        lemma_shr8(sum);
    }
    clamp_u8((sum >> 8u32) + 128)
}

/// The red-difference chroma of a pixel.
pub fn rgb_to_v(r: u8, g: u8, b: u8) -> (v: u8)
    ensures
        v == v_spec(r, g, b),
{
    let (rr, gg, bb) = (r as i32, g as i32, b as i32);
    let sum: i32 = 112 * rr + 128 - 94 * gg - 18 * bb;
    proof {
        lemma_shr8(sum);
    }
    clamp_u8((sum >> 8u32) + 128)
}

/// The red, green and blue bytes of pixel `i` of an RGBA picture.
pub open spec fn pixel(rgba: Seq<u8>, i: int) -> (u8, u8, u8) {
    (rgba[4 * i], rgba[4 * i + 1], rgba[4 * i + 2])
}

/// The chroma of a pixel as a pair of sums' terms.
pub open spec fn u_of(rgba: Seq<u8>, i: int) -> int {
    u_spec(pixel(rgba, i).0, pixel(rgba, i).1, pixel(rgba, i).2) as int
}

/// The red-difference chroma of pixel `i`.
pub open spec fn v_of(rgba: Seq<u8>, i: int) -> int {
    v_spec(pixel(rgba, i).0, pixel(rgba, i).1, pixel(rgba, i).2) as int
}

/// The average blue-difference chroma of the 2×2 block whose top-left pixel is at `row`,
/// `column` of a 1280-pixel-wide picture, rounded down.
pub open spec fn block_u(rgba: Seq<u8>, row: int, column: int) -> int {
    (u_of(rgba, row * 1280 + column) + u_of(rgba, row * 1280 + column + 1) + u_of(rgba, (row + 1) * 1280
        + column) + u_of(rgba, (row + 1) * 1280 + column + 1)) / 4
}

/// The average red-difference chroma of the 2×2 block whose top-left pixel is at `row`,
/// `column`, rounded down.
pub open spec fn block_v(rgba: Seq<u8>, row: int, column: int) -> int {
    (v_of(rgba, row * 1280 + column) + v_of(rgba, row * 1280 + column + 1) + v_of(rgba, (row + 1) * 1280
        + column) + v_of(rgba, (row + 1) * 1280 + column + 1)) / 4
}

/// The four bytes of pixel `i` of a four-byte-per-pixel picture.
pub open spec fn quad(p: Seq<u8>, i: int) -> (u8, u8, u8, u8) {
    (p[4 * i], p[4 * i + 1], p[4 * i + 2], p[4 * i + 3])
}

/// Whether `bgra` is the BGRA form of the first `n` pixels of the RGBA picture: red and blue
/// swapped, alpha opaque.
pub open spec fn is_bgra_of(bgra: Seq<u8>, rgba: Seq<u8>, n: int) -> bool {
    &&& bgra.len() == 4 * n
    &&& forall|i: int|
        0 <= i < n ==> #[trigger] quad(bgra, i) == (rgba[4 * i + 2], rgba[4 * i + 1], rgba[4 * i], 255u8)
}

/// The chroma pair of block `bc` of block row `br` in an NV12 frame.
pub open spec fn chroma_pair(nv12: Seq<u8>, br: int, bc: int) -> (u8, u8) {
    (nv12[pixel_count() + br * 1280 + 2 * bc], nv12[pixel_count() + br * 1280 + 2 * bc + 1])
}

/// Whether the first `n` bytes of `nv12` are the luma of the first `n` pixels.
pub open spec fn is_luma_of(nv12: Seq<u8>, rgba: Seq<u8>, n: int) -> bool {
    forall|i: int|
        #![trigger nv12[i]]
        0 <= i < n ==> nv12[i] == y_spec(pixel(rgba, i).0, pixel(rgba, i).1, pixel(rgba, i).2)
}

/// Whether the chroma plane, from `pixel_count()` on, holds the block averages of the first
/// `rows` block rows, each block row holding 640 pairs (blue, red).
pub open spec fn is_chroma_of(nv12: Seq<u8>, rgba: Seq<u8>, rows: int) -> bool {
    forall|br: int, bc: int|
        0 <= br < rows && 0 <= bc < 640 ==> #[trigger] chroma_pair(nv12, br, bc) == (
            block_u(rgba, 2 * br, 2 * bc) as u8,
            block_v(rgba, 2 * br, 2 * bc) as u8,
        )
}

/// The averaged chroma of the 2×2 block whose top-left pixel is at `row`, `column`.
fn block_chroma(rgba: &[u8], row: usize, column: usize) -> (r: (u8, u8))
    requires
        4 * pixel_count() <= rgba@.len(),
        row < 719,
        column < 1279,
    ensures
        r.0 == block_u(rgba@, row as int, column as int) as u8,
        r.1 == block_v(rgba@, row as int, column as int) as u8,
        0 <= block_u(rgba@, row as int, column as int) < 256,
        0 <= block_v(rgba@, row as int, column as int) < 256,
{
    let i0 = row * 1280 + column;
    let p0 = 4 * i0;
    let p1 = 4 * (i0 + 1);
    let p2 = 4 * (i0 + 1280);
    let p3 = 4 * (i0 + 1281);
    let u0 = rgb_to_u(rgba[p0], rgba[p0 + 1], rgba[p0 + 2]);
    let u1 = rgb_to_u(rgba[p1], rgba[p1 + 1], rgba[p1 + 2]);
    let u2 = rgb_to_u(rgba[p2], rgba[p2 + 1], rgba[p2 + 2]);
    let u3 = rgb_to_u(rgba[p3], rgba[p3 + 1], rgba[p3 + 2]);
    let v0 = rgb_to_v(rgba[p0], rgba[p0 + 1], rgba[p0 + 2]);
    let v1 = rgb_to_v(rgba[p1], rgba[p1 + 1], rgba[p1 + 2]);
    let v2 = rgb_to_v(rgba[p2], rgba[p2 + 1], rgba[p2 + 2]);
    let v3 = rgb_to_v(rgba[p3], rgba[p3 + 1], rgba[p3 + 2]);
    let u_sum: u16 = u0 as u16 + u1 as u16 + u2 as u16 + u3 as u16;
    let v_sum: u16 = v0 as u16 + v1 as u16 + v2 as u16 + v3 as u16;
    assert(i0 + 1280 == (row + 1) * 1280 + column);
    assert(u_sum as int == u_of(rgba@, i0 as int) + u_of(rgba@, i0 + 1) + u_of(rgba@, i0 + 1280) + u_of(rgba@, i0 + 1281));
    assert(v_sum as int == v_of(rgba@, i0 as int) + v_of(rgba@, i0 + 1) + v_of(rgba@, i0 + 1280) + v_of(rgba@, i0 + 1281));
    ((u_sum / 4) as u8, (v_sum / 4) as u8)
}

/// Facts about a prefix of an NV12 frame stay true of any longer frame that starts with it.
proof fn lemma_prefix_keeps(old: Seq<u8>, new: Seq<u8>, rgba: Seq<u8>, rows: int)
    requires
        0 <= rows,
        old.len() == pixel_count() + rows * 1280,
        new.len() >= old.len(),
        new.subrange(0, old.len() as int) == old,
        is_luma_of(old, rgba, pixel_count()),
        is_chroma_of(old, rgba, rows),
    ensures
        is_luma_of(new, rgba, pixel_count()),
        is_chroma_of(new, rgba, rows),
{
    assert forall|i: int| 0 <= i < pixel_count() implies #[trigger] new[i] == y_spec(
        pixel(rgba, i).0,
        pixel(rgba, i).1,
        pixel(rgba, i).2,
    ) by {
        assert(new.subrange(0, old.len() as int)[i] == new[i]);
        assert(old[i] == y_spec(pixel(rgba, i).0, pixel(rgba, i).1, pixel(rgba, i).2));
    }
    assert forall|br: int, bc: int|
        0 <= br < rows && 0 <= bc < 640 implies #[trigger] chroma_pair(new, br, bc) == (
        block_u(rgba, 2 * br, 2 * bc) as u8,
        block_v(rgba, 2 * br, 2 * bc) as u8,
    ) by {
        let k = pixel_count() + br * 1280 + 2 * bc;
        assert(k + 1 < old.len()) by (nonlinear_arith)
            requires
                0 <= br < rows,
                0 <= bc < 640,
                k == pixel_count() + br * 1280 + 2 * bc,
                old.len() == pixel_count() + rows * 1280,
        ;
        assert(new.subrange(0, old.len() as int)[k] == new[k]);
        assert(new.subrange(0, old.len() as int)[k + 1] == new[k + 1]);
        assert(chroma_pair(old, br, bc) == (block_u(rgba, 2 * br, 2 * bc) as u8, block_v(rgba, 2 * br, 2 * bc) as u8));
    }
}

/// Appends the chroma pairs of block row `row / 2`, left to right.
fn push_chroma_row(rgba: &[u8], row: usize, nv12: &mut Vec<u8>)
    requires
        4 * pixel_count() <= rgba@.len(),
        row < 720,
        row % 2 == 0,
        old(nv12)@.len() == pixel_count() + (row / 2) * 1280,
    ensures
        final(nv12)@.len() == old(nv12)@.len() + 1280,
        final(nv12)@.subrange(0, old(nv12)@.len() as int) == old(nv12)@,
        forall|bc: int|
            0 <= bc < 640 ==> #[trigger] chroma_pair(final(nv12)@, (row / 2) as int, bc) == (
                block_u(rgba@, row as int, 2 * bc) as u8,
                block_v(rgba@, row as int, 2 * bc) as u8,
            ),
{
    let ghost start = old(nv12)@.len() as int;
    let ghost hr = (row / 2) as int;
    let mut column: usize = 0;
    while column < 1280
        invariant
            4 * pixel_count() <= rgba@.len(),
            row < 720,
            row % 2 == 0,
            hr == row / 2,
            start == pixel_count() + hr * 1280,
            column <= 1280,
            column % 2 == 0,
            nv12@.len() == start + column,
            nv12@.subrange(0, start) == old(nv12)@,
            forall|bc: int|
                0 <= bc < column / 2 ==> #[trigger] chroma_pair(nv12@, hr, bc) == (
                    block_u(rgba@, row as int, 2 * bc) as u8,
                    block_v(rgba@, row as int, 2 * bc) as u8,
                ),
        decreases 1280 - column,
    {
        let (u, v) = block_chroma(rgba, row, column);
        let ghost prev = nv12@;
        nv12.push(u);
        nv12.push(v);
        assert(nv12@.subrange(0, start) =~= prev.subrange(0, start));
        assert forall|bc: int| 0 <= bc < (column + 2) / 2 implies #[trigger] chroma_pair(nv12@, hr, bc) == (
            block_u(rgba@, row as int, 2 * bc) as u8,
            block_v(rgba@, row as int, 2 * bc) as u8,
        ) by {
            if bc < column / 2 {
                assert(chroma_pair(nv12@, hr, bc) == chroma_pair(prev, hr, bc));
            } else {
                assert(2 * bc == column);
            }
        }
        column = column + 2;
    }
}

/// Converts a 1280×720 RGBA picture into the BGRA and NV12 frames of the virtual camera.
pub fn rgba_to_video_frames(rgba: &[u8]) -> (r: (Vec<u8>, Vec<u8>))
    requires
        4 * pixel_count() <= rgba@.len() < 4 * pixel_count() + 4,
    ensures
        is_bgra_of(r.0@, rgba@, pixel_count()),
        r.1@.len() == pixel_count() + pixel_count() / 2,
        is_luma_of(r.1@, rgba@, pixel_count()),
        is_chroma_of(r.1@, rgba@, 360),
{
    let count: usize = 921600;
    let mut bgra: Vec<u8> = Vec::new();
    let mut nv12: Vec<u8> = Vec::new();
    let mut index: usize = 0;
    while index < count
        invariant
            count == pixel_count(),
            4 * pixel_count() <= rgba@.len(),
            index <= count,
            is_bgra_of(bgra@, rgba@, index as int),
            nv12@.len() == index,
            is_luma_of(nv12@, rgba@, index as int),
        decreases count - index,
    {
        let r = rgba[4 * index];
        let g = rgba[4 * index + 1];
        let b = rgba[4 * index + 2];
        let ghost old_bgra = bgra@;
        let ghost old_nv12 = nv12@;
        bgra.push(b);
        bgra.push(g);
        bgra.push(r);
        bgra.push(255);
        nv12.push(rgb_to_y(r, g, b));
        assert forall|i: int| 0 <= i < index + 1 implies #[trigger] quad(bgra@, i) == (
            rgba@[4 * i + 2],
            rgba@[4 * i + 1],
            rgba@[4 * i],
            255u8,
        ) by {
            if i < index {
                assert(quad(old_bgra, i) == quad(bgra@, i));
            }
        }
        assert forall|i: int| 0 <= i < index + 1 implies #[trigger] nv12@[i] == y_spec(
            pixel(rgba@, i).0,
            pixel(rgba@, i).1,
            pixel(rgba@, i).2,
        ) by {
            if i < index {
                assert(old_nv12[i] == nv12@[i]);
            }
        }
        index = index + 1;
    }
    let mut row: usize = 0;
    while row < 720
        invariant
            count == pixel_count(),
            4 * pixel_count() <= rgba@.len(),
            row <= 720,
            row % 2 == 0,
            is_bgra_of(bgra@, rgba@, pixel_count()),
            nv12@.len() == pixel_count() + (row / 2) * 1280,
            is_luma_of(nv12@, rgba@, pixel_count()),
            is_chroma_of(nv12@, rgba@, (row / 2) as int),
        decreases 720 - row,
    {
        let ghost before = nv12@;
        push_chroma_row(rgba, row, &mut nv12);
        proof {
            lemma_prefix_keeps(before, nv12@, rgba@, (row / 2) as int);
            let hr = (row / 2) as int;
            assert forall|br: int, bc: int|
                0 <= br < hr + 1 && 0 <= bc < 640 implies #[trigger] chroma_pair(nv12@, br, bc) == (
                block_u(rgba@, 2 * br, 2 * bc) as u8,
                block_v(rgba@, 2 * br, 2 * bc) as u8,
            ) by {
                if br == hr {
                    assert(2 * br == row);
                }
            }
        }
        row = row + 2;
    }
    (bgra, nv12)
}

/// Whether every pixel of a BGRA frame is the fallback grey `[22, 25, 30, 255]`.
pub open spec fn is_fallback_bgra(bgra: Seq<u8>) -> bool {
    &&& bgra.len() == 4 * pixel_count()
    &&& forall|i: int| 0 <= i < pixel_count() ==> #[trigger] quad(bgra, i) == (22u8, 25u8, 30u8, 255u8)
}

/// Whether an NV12 frame is the fallback grey: luma 30, chroma 128.
pub open spec fn is_fallback_nv12(nv12: Seq<u8>) -> bool {
    &&& nv12.len() == pixel_count() + pixel_count() / 2
    &&& forall|i: int| 0 <= i < pixel_count() ==> #[trigger] nv12[i] == 30u8
    &&& forall|i: int| pixel_count() <= i < nv12.len() ==> #[trigger] nv12[i] == 128u8
}

/// The grey frames shown while no camera picture is fresh, in BGRA and in NV12.
pub fn fallback_video_frames() -> (r: (Vec<u8>, Vec<u8>))
    ensures
        is_fallback_bgra(r.0@),
        is_fallback_nv12(r.1@),
{
    let mut bgra: Vec<u8> = Vec::new();
    let mut nv12: Vec<u8> = Vec::new();
    let mut i: usize = 0;
    while i < 921600
        invariant
            i <= 921600,
            bgra@.len() == 4 * i,
            nv12@.len() == i,
            forall|k: int| 0 <= k < i ==> #[trigger] quad(bgra@, k) == (22u8, 25u8, 30u8, 255u8),
            forall|k: int| 0 <= k < i ==> #[trigger] nv12@[k] == 30u8,
        decreases 921600 - i,
    {
        let ghost prev = bgra@;
        bgra.push(22);
        bgra.push(25);
        bgra.push(30);
        bgra.push(255);
        nv12.push(30);
        assert forall|k: int| 0 <= k < i + 1 implies #[trigger] quad(bgra@, k) == (22u8, 25u8, 30u8, 255u8) by {
            if k < i {
                assert(quad(bgra@, k) == quad(prev, k));
            }
        }
        i = i + 1;
    }
    while i < 1382400
        invariant
            921600 <= i <= 1382400,
            nv12@.len() == i,
            forall|k: int| 0 <= k < pixel_count() ==> #[trigger] nv12@[k] == 30u8,
            forall|k: int| pixel_count() <= k < i ==> #[trigger] nv12@[k] == 128u8,
        decreases 1382400 - i,
    {
        nv12.push(128);
        i = i + 1;
    }
    (bgra, nv12)
}

/// Why the receiving side refused a frame-channel header.
#[derive(Debug, Clone, Copy, PartialEq, Eq, Structural)]
pub enum FrameBridgeError {
    /// The header does not start with `LVC1`.
    BadMagic,
    /// The size is not that of a 1280×720 NV12 frame.
    BadFrame,
}

impl FrameBridgeError {
    /// The message the receiving side reports.
    pub fn message(self) -> (r: &'static str)
        ensures
            match self {
                FrameBridgeError::BadMagic => r@ == "invalid frame bridge header"@,
                FrameBridgeError::BadFrame => r@ == "invalid virtual camera frame"@,
            },
    {
        match self {
            FrameBridgeError::BadMagic => "invalid frame bridge header",
            FrameBridgeError::BadFrame => "invalid virtual camera frame",
        }
    }
}

/// The header sent before each frame: `LVC1`, width, height and payload length (LE32 each),
/// then the frame's sequence number (LE64).
pub open spec fn bridge_header_spec(payload_len: u32, sequence: u64) -> Seq<u8> {
    seq![0x4cu8, 0x56u8, 0x43u8, 0x31u8] + le32_bytes(1280) + le32_bytes(720) + le32_bytes(payload_len)
        + le64_bytes(sequence)
}

/// What the receiving side makes of a header: the payload length to read, or why the header is
/// refused (the magic is checked first).
pub open spec fn bridge_check_spec(h: Seq<u8>) -> Result<int, FrameBridgeError> {
    if h.subrange(0, 4) != seq![0x4cu8, 0x56u8, 0x43u8, 0x31u8] {
        Err(FrameBridgeError::BadMagic)
    } else if read_le32(h, 4) != 1280 || read_le32(h, 8) != 720 || read_le32(h, 12) != FRAME_BRIDGE_MAX_PAYLOAD {
        Err(FrameBridgeError::BadFrame)
    } else {
        Ok(read_le32(h, 12))
    }
}

/// The header sent before a frame of `payload_len` bytes with sequence number `sequence`.
pub fn frame_bridge_header(payload_len: u32, sequence: u64) -> (r: Vec<u8>)
    ensures
        r@ == bridge_header_spec(payload_len, sequence),
        r@.len() == FRAME_BRIDGE_HEADER_LEN,
{
    let mut h: Vec<u8> = vec![0x4c, 0x56, 0x43, 0x31];
    push_le32(&mut h, 1280);
    push_le32(&mut h, 720);
    push_le32(&mut h, payload_len);
    h.push(sequence as u8);
    h.push((sequence >> 8u64) as u8);
    h.push((sequence >> 16u64) as u8);
    h.push((sequence >> 24u64) as u8);
    h.push((sequence >> 32u64) as u8);
    h.push((sequence >> 40u64) as u8);
    h.push((sequence >> 48u64) as u8);
    h.push((sequence >> 56u64) as u8);
    assert(h@ =~= bridge_header_spec(payload_len, sequence));
    h
}

/// Checks a received header and gives the length of the frame that follows it.
pub fn check_frame_bridge_header(header: &[u8]) -> (r: Result<usize, FrameBridgeError>)
    requires
        header@.len() == FRAME_BRIDGE_HEADER_LEN,
    ensures
        match bridge_check_spec(header@) {
            Ok(n) => r == Ok::<usize, FrameBridgeError>(n as usize),
            Err(e) => r == Err::<usize, FrameBridgeError>(e),
        },
{
    if !(header[0] == 0x4c && header[1] == 0x56 && header[2] == 0x43 && header[3] == 0x31) {
        assert(header@.subrange(0, 4) != seq![0x4cu8, 0x56u8, 0x43u8, 0x31u8]) by {
            if header@.subrange(0, 4) == seq![0x4cu8, 0x56u8, 0x43u8, 0x31u8] {
                assert(header@.subrange(0, 4)[0] == header@[0]);
                assert(header@.subrange(0, 4)[1] == header@[1]);
                assert(header@.subrange(0, 4)[2] == header@[2]);
                assert(header@.subrange(0, 4)[3] == header@[3]);
            }
        }
        return Err(FrameBridgeError::BadMagic);
    }
    assert(header@.subrange(0, 4) =~= seq![0x4cu8, 0x56u8, 0x43u8, 0x31u8]);
    let width = le32_at(header, 4);
    let height = le32_at(header, 8);
    let payload_len = le32_at(header, 12);
    if width != 1280 || height != 720 || payload_len != 1382400 {
        return Err(FrameBridgeError::BadFrame);
    }
    Ok(payload_len as usize)
}

/// A header written for a frame is accepted exactly when the frame has the size of a
/// 1280×720 NV12 picture, whatever its sequence number; the length read back is the length
/// written.
pub proof fn lemma_bridge_header_roundtrip(payload_len: u32, sequence: u64)
    ensures
        bridge_check_spec(bridge_header_spec(payload_len, sequence)) == (if payload_len == FRAME_BRIDGE_MAX_PAYLOAD {
            Ok::<int, FrameBridgeError>(payload_len as int)
        } else {
            Err::<int, FrameBridgeError>(FrameBridgeError::BadFrame)
        }),
{
    let h = bridge_header_spec(payload_len, sequence);
    assert(h.subrange(0, 4) =~= seq![0x4cu8, 0x56u8, 0x43u8, 0x31u8]);
    lemma_le32_roundtrip(1280);
    lemma_le32_roundtrip(720);
    lemma_le32_roundtrip(payload_len);
    assert(h.subrange(4, 8) =~= le32_bytes(1280));
    assert(read_le32(h, 4) == read_le32(le32_bytes(1280), 0));
    assert(read_le32(h, 8) == read_le32(le32_bytes(720), 0));
    assert(read_le32(h, 12) == read_le32(le32_bytes(payload_len), 0));
}

} // verus!
