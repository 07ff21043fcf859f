use qoi_decoder::cache::ColorCache;
use qoi_decoder::decode::{decode, decode_pixels};
use qoi_decoder::error::DecodeError;
use qoi_decoder::header::{Header, Qoi};
use qoi_decoder::ops::{handle_diff, handle_index, handle_luma, handle_rgb, handle_rgba, handle_run};
use qoi_decoder::pixel::{color_hash, Pixel};

const MARKER: [u8; 8] = [0, 0, 0, 0, 0, 0, 0, 1];

fn file(width: u32, height: u32, payload: &[u8]) -> Vec<u8> {
    let mut b = vec![b'q', b'o', b'i', b'f'];
    b.extend_from_slice(&width.to_be_bytes());
    b.extend_from_slice(&height.to_be_bytes());
    b.push(4);
    b.push(0);
    b.extend_from_slice(payload);
    b
}

fn px(r: u8, g: u8, b: u8, a: u8) -> Pixel {
    Pixel { r, g, b, a }
}

#[test]
fn single_rgba_pixel_then_marker() {
    let mut payload = vec![0xFF, 10, 20, 30, 40];
    payload.extend_from_slice(&MARKER);
    assert_eq!(decode(file(1, 1, &payload)), Ok(vec![10, 20, 30, 40]));
}

#[test]
fn rgb_then_run_of_one() {
    let mut payload = vec![0xFE, 5, 6, 7, 0b1100_0000];
    payload.extend_from_slice(&MARKER);
    assert_eq!(decode(file(2, 1, &payload)), Ok(vec![5, 6, 7, 255, 5, 6, 7, 255]));
}

#[test]
fn bad_magic_is_rejected() {
    let mut b = file(1, 1, &[0xFF, 1, 2, 3, 4]);
    b[3] = b'g';
    assert_eq!(Qoi::new(b.clone()).err(), Some(DecodeError::InvalidMagic));
    assert_eq!(decode(b), Err(DecodeError::InvalidMagic));
}

#[test]
fn short_header_is_rejected() {
    assert_eq!(decode(vec![b'q', b'o', b'i', b'f', 0, 0]), Err(DecodeError::TruncatedHeader));
    assert_eq!(decode(vec![]), Err(DecodeError::TruncatedHeader));
}

#[test]
fn header_fields_are_big_endian() {
    let mut b = vec![b'q', b'o', b'i', b'f', 0, 0, 1, 2, 0x01, 0, 0, 3, 3, 1];
    b.extend_from_slice(&[9, 8, 7]);
    let q = Qoi::new(b).unwrap();
    assert_eq!(q.header, Header { width: 258, height: 0x0100_0003, channels: 3, colorspace: 1 });
    assert_eq!(q.data, vec![9, 8, 7]);
}

#[test]
fn header_only_file_has_empty_payload() {
    let q = Qoi::new(file(0, 0, &[])).unwrap();
    assert!(q.data.is_empty());
    assert_eq!(decode_pixels(&q), Ok(vec![]));
}

#[test]
fn output_is_exactly_width_times_height_times_four() {
    // A run of six pixels into a 2x2 image: the overshoot is cut.
    let mut payload = vec![0xFF, 1, 2, 3, 4, 0b1100_0101];
    payload.extend_from_slice(&MARKER);
    let out = decode(file(2, 2, &payload)).unwrap();
    assert_eq!(out.len(), 2 * 2 * 4);
    assert_eq!(out, [1, 2, 3, 4].repeat(4));
}

#[test]
fn too_few_pixels_is_length_mismatch() {
    let mut payload = vec![0xFF, 1, 2, 3, 4];
    payload.extend_from_slice(&MARKER);
    assert_eq!(decode(file(2, 1, &payload)), Err(DecodeError::LengthMismatch));
}

#[test]
fn stream_without_marker_ends_at_data_end() {
    assert_eq!(decode(file(1, 1, &[0xFF, 1, 2, 3, 4])), Ok(vec![1, 2, 3, 4]));
}

#[test]
fn marker_stops_even_with_bytes_after_it() {
    let mut payload = vec![0xFF, 1, 2, 3, 4];
    payload.extend_from_slice(&MARKER);
    payload.extend_from_slice(&[0xFF, 9, 9, 9, 9]);
    assert_eq!(decode(file(1, 1, &payload)), Ok(vec![1, 2, 3, 4]));
    assert_eq!(decode(file(2, 1, &payload)), Err(DecodeError::LengthMismatch));
}

#[test]
fn truncated_rgb_chunk() {
    assert_eq!(decode(file(1, 1, &[0xFE, 1, 2])), Err(DecodeError::TruncatedChunk));
}

#[test]
fn truncated_rgba_chunk() {
    assert_eq!(decode(file(1, 1, &[0xFF, 1, 2, 3])), Err(DecodeError::TruncatedChunk));
}

#[test]
fn truncated_luma_chunk() {
    assert_eq!(decode(file(1, 1, &[0xA0])), Err(DecodeError::TruncatedChunk));
}

#[test]
fn error_after_enough_pixels_still_fails() {
    assert_eq!(decode(file(1, 1, &[0xFF, 1, 2, 3, 4, 0xFE, 1])), Err(DecodeError::TruncatedChunk));
}

#[test]
fn index_of_unwritten_slot_is_clear() {
    let cache = ColorCache::new();
    let mut out = Vec::new();
    let mut prev = px(9, 9, 9, 9);
    assert_eq!(handle_index(&cache, &mut out, &mut prev, 5), 1);
    assert_eq!(prev, px(0, 0, 0, 0));
    assert_eq!(out, vec![0, 0, 0, 0]);
    let mut payload = vec![0x05];
    payload.extend_from_slice(&MARKER);
    assert_eq!(decode(file(1, 1, &payload)), Ok(vec![0, 0, 0, 0]));
}

#[test]
fn index_reads_back_remembered_pixel() {
    // hash(10, 20, 30, 40) = (30 + 100 + 210 + 440) % 64 = 12
    assert_eq!(color_hash(px(10, 20, 30, 40)), 12);
    let mut payload = vec![0xFF, 10, 20, 30, 40, 0x0C];
    payload.extend_from_slice(&MARKER);
    assert_eq!(decode(file(2, 1, &payload)), Ok(vec![10, 20, 30, 40, 10, 20, 30, 40]));
}

#[test]
fn cache_remember_and_get() {
    let mut cache = ColorCache::new();
    let p = px(10, 20, 30, 40);
    cache.remember(p);
    assert_eq!(cache.get(12), p);
    assert_eq!(cache.get(13), px(0, 0, 0, 0));
}

#[test]
fn start_pixel_hashes_into_cache_after_run() {
    // A run of the initial (0,0,0,255) stores it at hash 255 * 11 % 64 = 53.
    let mut payload = vec![0b1100_0000, 53];
    payload.extend_from_slice(&MARKER);
    assert_eq!(decode(file(2, 1, &payload)), Ok(vec![0, 0, 0, 255, 0, 0, 0, 255]));
}

#[test]
fn diff_small_steps() {
    let mut out = Vec::new();
    let mut prev = px(100, 100, 100, 255);
    // dr = 3 - 2 = 1, dg = 2 - 2 = 0, db = 1 - 2 = -1
    assert_eq!(handle_diff(&mut out, &mut prev, 0b01_11_10_01), 1);
    assert_eq!(prev, px(101, 100, 99, 255));
    assert_eq!(out, vec![101, 100, 99, 255]);
}

#[test]
fn diff_wraps_below_zero() {
    let mut out = Vec::new();
    let mut prev = px(0, 50, 50, 7);
    assert_eq!(handle_diff(&mut out, &mut prev, 0b01_00_10_10), 1);
    assert_eq!(prev, px(254, 50, 50, 7));
}

#[test]
fn diff_wraps_above_255() {
    let mut out = Vec::new();
    let mut prev = px(255, 255, 255, 1);
    assert_eq!(handle_diff(&mut out, &mut prev, 0b01_11_11_11), 1);
    assert_eq!(prev, px(0, 0, 0, 1));
}

#[test]
fn luma_at_bias_changes_nothing() {
    let mut out = Vec::new();
    let mut prev = px(12, 34, 56, 78);
    let data = [0b1010_0000, 0x88];
    assert_eq!(handle_luma(&data, &mut out, &mut prev, 0), Ok(2));
    assert_eq!(prev, px(12, 34, 56, 78));
    assert_eq!(out, vec![12, 34, 56, 78]);
}

#[test]
fn luma_exact_value() {
    let mut out = Vec::new();
    let mut prev = px(0, 0, 0, 255);
    // dg = 37 - 32 = 5, dr = 5 + (10 - 8) = 7, db = 5 + (5 - 8) = 2
    let data = [0x80 | 37, 0xA5];
    assert_eq!(handle_luma(&data, &mut out, &mut prev, 0), Ok(2));
    assert_eq!(prev, px(7, 5, 2, 255));
}

#[test]
fn luma_wraps() {
    let mut out = Vec::new();
    let mut prev = px(0, 0, 0, 255);
    // dg = -32, dr = -40, db = -25
    let data = [0x80, 0x0F];
    assert_eq!(handle_luma(&data, &mut out, &mut prev, 0), Ok(2));
    assert_eq!(prev, px(216, 224, 231, 255));
}

#[test]
fn rgb_keeps_alpha() {
    let mut out = Vec::new();
    let mut prev = px(1, 2, 3, 99);
    assert_eq!(handle_rgb(&[0xFE, 5, 6, 7], &mut out, &mut prev, 0), Ok(4));
    assert_eq!(prev, px(5, 6, 7, 99));
    assert_eq!(out, vec![5, 6, 7, 99]);
    let mut short = Vec::new();
    assert_eq!(handle_rgb(&[0xFE, 5, 6], &mut short, &mut prev, 0), Err(DecodeError::TruncatedChunk));
    assert!(short.is_empty());
}

#[test]
fn rgba_sets_all_channels() {
    let mut out = Vec::new();
    let mut prev = px(1, 2, 3, 99);
    assert_eq!(handle_rgba(&[0, 0xFF, 5, 6, 7, 8], &mut out, &mut prev, 1), Ok(5));
    assert_eq!(prev, px(5, 6, 7, 8));
    assert_eq!(handle_rgba(&[0xFF, 5, 6, 7], &mut out, &mut prev, 0), Err(DecodeError::TruncatedChunk));
}

#[test]
fn run_lengths() {
    let prev = px(4, 3, 2, 1);
    let mut one = Vec::new();
    assert_eq!(handle_run(&mut one, &prev, 0b1100_0000), 1);
    assert_eq!(one, vec![4, 3, 2, 1]);
    let mut many = Vec::new();
    assert_eq!(handle_run(&mut many, &prev, 0b1111_1101), 1);
    assert_eq!(many.len(), 62 * 4);
}

#[test]
fn error_messages_are_distinct() {
    let all = [
        DecodeError::TruncatedHeader,
        DecodeError::InvalidMagic,
        DecodeError::UnknownOpcode,
        DecodeError::TruncatedChunk,
        DecodeError::LengthMismatch,
    ];
    for (i, a) in all.iter().enumerate() {
        for b in &all[i + 1..] {
            assert_ne!(a.message(), b.message());
        }
    }
}
