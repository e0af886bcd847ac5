use luna_linker::pixels::{embolden_pixels, prepare_moment_pixels, sample_photo_colors, tint_logo_pixels};
use luna_linker::runtime_files::{fnv1a_update, FNV_OFFSET_BASIS};
use luna_linker::video_frames::{
    check_frame_bridge_header, fallback_video_frames, frame_bridge_header, rgb_to_u, rgb_to_v,
    rgb_to_y, rgba_to_video_frames, FrameBridgeError, FRAME_BRIDGE_HEADER_LEN,
    FRAME_BRIDGE_MAX_PAYLOAD, FRAME_HEIGHT, FRAME_WIDTH,
};

#[test]
fn frame_conversions_have_expected_sizes() {
    let rgba = vec![127u8; (FRAME_WIDTH * FRAME_HEIGHT * 4) as usize];
    let (bgra, nv12) = rgba_to_video_frames(&rgba);
    assert_eq!(bgra.len(), (FRAME_WIDTH * FRAME_HEIGHT * 4) as usize);
    assert_eq!(nv12.len(), (FRAME_WIDTH * FRAME_HEIGHT * 3 / 2) as usize);
}

#[test]
fn yuv_conversion_stays_in_video_range() {
    assert_eq!(rgb_to_y(0, 0, 0), 16);
    assert!(rgb_to_y(255, 255, 255) >= 235);
    assert_eq!(rgb_to_u(0, 0, 0), 128);
    assert_eq!(rgb_to_v(0, 0, 0), 128);
}

#[test]
fn chroma_of_negative_sums_rounds_down() {
    // -38*255 - 74*255 + 128 = -28432; shifted right by eight: -112 (rounded down), + 128 = 16.
    assert_eq!(rgb_to_u(255, 255, 0), 16);
    assert_eq!(rgb_to_v(0, 255, 255), 16);
    assert_eq!(rgb_to_y(255, 255, 255), 235);
    assert_eq!(rgb_to_u(0, 0, 255), 240);
}

#[test]
fn pixels_swap_channels_and_blocks_average_their_chroma() {
    let width = FRAME_WIDTH as usize;
    let mut rgba = vec![0u8; width * FRAME_HEIGHT as usize * 4];
    // First pixel red, the one right of it blue; the rest of the first block stays black.
    rgba[0..4].copy_from_slice(&[255, 0, 0, 9]);
    rgba[4..8].copy_from_slice(&[0, 0, 255, 9]);
    let (bgra, nv12) = rgba_to_video_frames(&rgba);
    assert_eq!(&bgra[0..8], &[0, 0, 255, 255, 255, 0, 0, 255]);
    assert_eq!(nv12[0], rgb_to_y(255, 0, 0));
    assert_eq!(nv12[1], rgb_to_y(0, 0, 255));
    let pixels = width * FRAME_HEIGHT as usize;
    let u = (rgb_to_u(255, 0, 0) as u16 + rgb_to_u(0, 0, 255) as u16 + 2 * rgb_to_u(0, 0, 0) as u16) / 4;
    let v = (rgb_to_v(255, 0, 0) as u16 + rgb_to_v(0, 0, 255) as u16 + 2 * rgb_to_v(0, 0, 0) as u16) / 4;
    assert_eq!(nv12[pixels], u as u8);
    assert_eq!(nv12[pixels + 1], v as u8);
    assert_eq!(nv12[pixels + 2], 128);
}

#[test]
fn fallback_frames_are_grey() {
    let (bgra, nv12) = fallback_video_frames();
    assert_eq!(bgra.len(), FRAME_BRIDGE_MAX_PAYLOAD / 3 * 8);
    assert_eq!(&bgra[0..4], &[22, 25, 30, 255]);
    assert_eq!(nv12.len(), FRAME_BRIDGE_MAX_PAYLOAD);
    assert_eq!(nv12[0], 30);
    assert_eq!(nv12[FRAME_BRIDGE_MAX_PAYLOAD - 1], 128);
}

#[test]
fn frame_headers_are_read_back() {
    let header = frame_bridge_header(FRAME_BRIDGE_MAX_PAYLOAD as u32, 7);
    assert_eq!(header.len(), FRAME_BRIDGE_HEADER_LEN);
    assert_eq!(&header[..4], b"LVC1");
    assert_eq!(u32::from_le_bytes(header[12..16].try_into().unwrap()) as usize, FRAME_BRIDGE_MAX_PAYLOAD);
    assert_eq!(u64::from_le_bytes(header[16..24].try_into().unwrap()), 7);
    assert_eq!(check_frame_bridge_header(&header), Ok(FRAME_BRIDGE_MAX_PAYLOAD));
    let short = frame_bridge_header(100, 7);
    assert_eq!(check_frame_bridge_header(&short), Err(FrameBridgeError::BadFrame));
    let mut bad = header.clone();
    bad[0] = b'X';
    assert_eq!(check_frame_bridge_header(&bad), Err(FrameBridgeError::BadMagic));
    assert_eq!(FrameBridgeError::BadMagic.message(), "invalid frame bridge header");
}

#[test]
fn runtime_files_hash_with_fnv1a_in_chunks() {
    assert_eq!(fnv1a_update(FNV_OFFSET_BASIS, b""), FNV_OFFSET_BASIS);
    assert_eq!(fnv1a_update(FNV_OFFSET_BASIS, b"a"), 0xaf63dc4c8601ec8c);
    assert_eq!(fnv1a_update(FNV_OFFSET_BASIS, b"foobar"), 0x85944171f73967e8);
    let whole = fnv1a_update(FNV_OFFSET_BASIS, b"foobar");
    let first = fnv1a_update(FNV_OFFSET_BASIS, b"foo");
    assert_eq!(fnv1a_update(first, b"bar"), whole);
}

fn picture(width: usize, height: usize, pixel: [u8; 4]) -> Vec<u8> {
    let mut out = Vec::with_capacity(width * height * 4);
    for _ in 0..width * height {
        out.extend_from_slice(&pixel);
    }
    out
}

fn put(buffer: &mut [u8], width: usize, x: usize, y: usize, pixel: [u8; 4]) {
    let i = 4 * (y * width + x);
    buffer[i..i + 4].copy_from_slice(&pixel);
}

fn get(buffer: &[u8], width: usize, x: usize, y: usize) -> [u8; 4] {
    let i = 4 * (y * width + x);
    [buffer[i], buffer[i + 1], buffer[i + 2], buffer[i + 3]]
}

#[test]
fn moment_assets_become_masks_in_the_foreground_colour() {
    let mut buffer = vec![10, 200, 50, 128, 0, 0, 0, 255];
    prepare_moment_pixels(&mut buffer, [1, 2, 3]);
    assert_eq!(buffer, vec![1, 2, 3, 100, 1, 2, 3, 0]);
}

#[test]
fn logos_are_tinted_around_their_red_dot() {
    let mut buffer = picture(10, 10, [255, 255, 255, 255]);
    put(&mut buffer, 10, 5, 5, [200, 20, 20, 255]);
    put(&mut buffer, 10, 0, 0, [9, 9, 9, 0]);
    tint_logo_pixels(&mut buffer, 10, 10, [24, 24, 24]);
    assert_eq!(get(&buffer, 10, 5, 5), [200, 20, 20, 255]);
    assert_eq!(get(&buffer, 10, 3, 3), [255, 255, 255, 255]);
    assert_eq!(get(&buffer, 10, 7, 7), [255, 255, 255, 255]);
    assert_eq!(get(&buffer, 10, 8, 5), [24, 24, 24, 255]);
    assert_eq!(get(&buffer, 10, 2, 2), [24, 24, 24, 255]);
    assert_eq!(get(&buffer, 10, 0, 0), [9, 9, 9, 0]);
    let mut plain = picture(2, 2, [255, 255, 255, 10]);
    tint_logo_pixels(&mut plain, 2, 2, [1, 1, 1]);
    assert_eq!(plain, picture(2, 2, [1, 1, 1, 10]));
}

#[test]
fn text_is_thickened_into_its_neighbours() {
    let mut buffer = picture(3, 3, [0, 0, 0, 0]);
    put(&mut buffer, 3, 1, 1, [7, 7, 7, 255]);
    embolden_pixels(&mut buffer, 3, 3, [200, 100, 50]);
    assert_eq!(get(&buffer, 3, 1, 1), [7, 7, 7, 255]);
    for (x, y) in [(0, 1), (2, 1), (1, 0), (1, 2)] {
        assert_eq!(get(&buffer, 3, x, y), [200, 100, 50, 112]);
    }
    for (x, y) in [(0, 0), (2, 0), (0, 2), (2, 2)] {
        assert_eq!(get(&buffer, 3, x, y), [0, 0, 0, 0]);
    }
    // A row edge does not wrap round to the next row.
    let mut row = picture(2, 2, [0, 0, 0, 0]);
    put(&mut row, 2, 1, 0, [1, 1, 1, 255]);
    embolden_pixels(&mut row, 2, 2, [5, 5, 5]);
    assert_eq!(get(&row, 2, 0, 1), [0, 0, 0, 0]);
    assert_eq!(get(&row, 2, 0, 0), [5, 5, 5, 112]);
    assert_eq!(get(&row, 2, 1, 1), [5, 5, 5, 112]);
}

#[test]
fn photo_colours_are_sampled_per_half() {
    let mut buffer = picture(16, 16, [20, 80, 210, 255]);
    for y in 0..8 {
        for x in 0..16 {
            put(&mut buffer, 16, x, y, [220, 30, 40, 255]);
        }
    }
    assert_eq!(sample_photo_colors(&buffer, 16, 16), ([220, 30, 40], [20, 80, 210]));
    assert_eq!(sample_photo_colors(&[], 0, 0), ([0, 0, 0], [0, 0, 0]));
    let mut big = picture(200, 2, [0, 0, 0, 255]);
    put(&mut big, 200, 3, 0, [255, 255, 255, 255]);
    // Every third column is sampled: columns 0, 3, 6, … of the upper row.
    let (upper, lower) = sample_photo_colors(&big, 200, 2);
    assert_eq!(upper, [(255 / 67) as u8; 3]);
    assert_eq!(lower, [0, 0, 0]);
}
