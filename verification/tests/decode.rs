use qoiv::decode::{DecodeError, Img, ImgFmt};
use qoiv::render;

/// A 14-byte header: magic, big-endian dimensions, channel and colorspace
/// bytes.
fn hdr(width: u32, height: u32, channels: u8, colorspace: u8) -> Vec<u8> {
    let mut v = vec![b'q', b'o', b'i', b'f'];
    v.extend_from_slice(&width.to_be_bytes());
    v.extend_from_slice(&height.to_be_bytes());
    v.push(channels);
    v.push(colorspace);
    v
}

fn with_chunks(mut head: Vec<u8>, chunks: &[u8]) -> Vec<u8> {
    head.extend_from_slice(chunks);
    head
}

#[test]
fn rejects_short_buffer() {
    assert!(matches!(
        Img::from_bytes(vec![b'q', b'o', b'i', b'f']),
        Err(DecodeError::MalformedHeader)
    ));
}

#[test]
fn rejects_bad_magic() {
    let mut bytes = hdr(1, 1, 3, 0);
    bytes[3] = b'x';
    assert!(matches!(
        Img::from_bytes(with_chunks(bytes, &[0xFE, 1, 2, 3])),
        Err(DecodeError::MalformedHeader)
    ));
}

#[test]
fn rejects_channel_byte_five() {
    let bytes = with_chunks(hdr(1, 1, 5, 0), &[0xFE, 1, 2, 3]);
    assert!(matches!(
        Img::from_bytes(bytes),
        Err(DecodeError::MalformedHeader)
    ));
}

#[test]
fn rejects_colorspace_byte_two() {
    let bytes = with_chunks(hdr(1, 1, 3, 2), &[0xFE, 1, 2, 3]);
    assert!(matches!(
        Img::from_bytes(bytes),
        Err(DecodeError::MalformedHeader)
    ));
}

#[test]
fn minimal_rgb_literal_round_trip() {
    let bytes = with_chunks(hdr(1, 1, 3, 0), &[0xFE, 0x10, 0x20, 0x30]);
    let img = Img::from_bytes(bytes).unwrap();
    assert_eq!(img.width, 1);
    assert_eq!(img.height, 1);
    assert_eq!(img.fmt, ImgFmt::SRGB);
    assert_eq!(img.data, vec![0x10, 0x20, 0x30]);
}

#[test]
fn rgba_literal_carries_alpha() {
    let bytes = with_chunks(hdr(1, 1, 4, 0), &[0xFF, 1, 2, 3, 4]);
    let img = Img::from_bytes(bytes).unwrap();
    assert_eq!(img.fmt, ImgFmt::SRGBA);
    assert_eq!(img.data, vec![1, 2, 3, 4]);
}

#[test]
fn rgb_literal_inherits_alpha() {
    let bytes = with_chunks(hdr(2, 1, 4, 1), &[0xFF, 9, 9, 9, 7, 0xFE, 1, 2, 3]);
    let img = Img::from_bytes(bytes).unwrap();
    assert_eq!(img.fmt, ImgFmt::LinearRGBA);
    assert_eq!(img.data, vec![9, 9, 9, 7, 1, 2, 3, 7]);
}

#[test]
fn format_from_channel_and_colorspace_bytes() {
    let linear_rgb = Img::from_bytes(with_chunks(hdr(1, 1, 3, 1), &[0xFE, 1, 2, 3])).unwrap();
    assert_eq!(linear_rgb.fmt, ImgFmt::LinearRGB);
    assert_eq!(linear_rgb.data.len(), 3);
    let srgba = Img::from_bytes(with_chunks(hdr(1, 1, 4, 0), &[0xFF, 1, 2, 3, 4])).unwrap();
    assert_eq!(srgba.fmt, ImgFmt::SRGBA);
    assert_eq!(srgba.data.len(), 4);
}

#[test]
fn samples_len_is_width_height_stride() {
    let bytes = with_chunks(hdr(2, 2, 4, 0), &[0xFF, 1, 2, 3, 4, 0xC3]);
    let img = Img::from_bytes(bytes).unwrap();
    assert_eq!(img.data.len(), 2 * 2 * 4);
}

#[test]
fn index_of_unpopulated_slot_is_transparent_black() {
    let bytes = with_chunks(hdr(1, 1, 4, 0), &[0x01]);
    let img = Img::from_bytes(bytes).unwrap();
    assert_eq!(img.data, vec![0, 0, 0, 0]);
}

#[test]
fn index_returns_cached_pixel() {
    // (5,6,7,0) hashes to slot (5*3 + 6*5 + 7*7 + 0*11) % 64 == 30.
    let bytes = with_chunks(hdr(3, 1, 3, 0), &[0xFE, 5, 6, 7, 0xFE, 1, 1, 1, 0x1E]);
    let img = Img::from_bytes(bytes).unwrap();
    assert_eq!(img.data, vec![5, 6, 7, 1, 1, 1, 5, 6, 7]);
}

#[test]
fn diff_all_fields_two_is_identity() {
    let bytes = with_chunks(hdr(2, 1, 4, 0), &[0xFF, 10, 20, 30, 255, 0x6A]);
    let img = Img::from_bytes(bytes).unwrap();
    assert_eq!(img.data, vec![10, 20, 30, 255, 10, 20, 30, 255]);
}

#[test]
fn diff_wraps_below_zero() {
    // Fields 0,0,0 mean a delta of -2 on every channel of (0,0,0).
    let bytes = with_chunks(hdr(1, 1, 3, 0), &[0x40]);
    let img = Img::from_bytes(bytes).unwrap();
    assert_eq!(img.data, vec![254, 254, 254]);
}

#[test]
fn luma_zero_deltas_is_identity() {
    let bytes = with_chunks(hdr(2, 1, 4, 0), &[0xFF, 10, 20, 30, 255, 0xA0, 0x88]);
    let img = Img::from_bytes(bytes).unwrap();
    assert_eq!(img.data, vec![10, 20, 30, 255, 10, 20, 30, 255]);
}

#[test]
fn luma_applies_biased_deltas() {
    // dg = 34-32 = 2; dr = 2 + 9 - 8 = 3; db = 2 + 15 - 8 = 9.
    let bytes = with_chunks(hdr(2, 1, 3, 0), &[0xFE, 100, 100, 100, 0xA2, 0x9F]);
    let img = Img::from_bytes(bytes).unwrap();
    assert_eq!(img.data, vec![100, 100, 100, 103, 102, 109]);
}

#[test]
fn run_repeats_previous_pixel() {
    let bytes = with_chunks(hdr(3, 1, 3, 0), &[0xFE, 5, 6, 7, 0xC2]);
    let img = Img::from_bytes(bytes).unwrap();
    assert_eq!(img.data, vec![5, 6, 7, 5, 6, 7, 5, 6, 7]);
}

#[test]
fn run_equals_repeated_index_chunks() {
    let by_run = with_chunks(hdr(3, 1, 3, 0), &[0xFE, 5, 6, 7, 0xC2]);
    let by_index = with_chunks(hdr(3, 1, 3, 0), &[0xFE, 5, 6, 7, 0x1E, 0x1E]);
    let a = Img::from_bytes(by_run).unwrap();
    let b = Img::from_bytes(by_index).unwrap();
    assert_eq!(a.data, b.data);
}

#[test]
fn run_clamps_at_full_raster() {
    let bytes = with_chunks(hdr(2, 1, 3, 0), &[0xFE, 1, 2, 3, 0xC5]);
    let img = Img::from_bytes(bytes).unwrap();
    assert_eq!(img.data, vec![1, 2, 3, 1, 2, 3]);
}

#[test]
fn truncated_two_by_two_is_missing_data() {
    let bytes = with_chunks(hdr(2, 2, 3, 0), &[0xFE, 1, 2, 3]);
    assert!(matches!(
        Img::from_bytes(bytes),
        Err(DecodeError::MissingData)
    ));
}

#[test]
fn truncated_rgb_literal_is_missing_data() {
    let bytes = with_chunks(hdr(1, 1, 3, 0), &[0xFE, 1]);
    assert!(matches!(
        Img::from_bytes(bytes),
        Err(DecodeError::MissingData)
    ));
}

#[test]
fn truncated_luma_is_missing_data() {
    let bytes = with_chunks(hdr(1, 1, 3, 0), &[0x80]);
    assert!(matches!(
        Img::from_bytes(bytes),
        Err(DecodeError::MissingData)
    ));
}

#[test]
fn empty_chunk_stream_is_missing_data() {
    assert!(matches!(
        Img::from_bytes(hdr(1, 1, 3, 0)),
        Err(DecodeError::MissingData)
    ));
}

#[test]
fn zero_area_image_needs_no_chunks() {
    let img = Img::from_bytes(hdr(0, 5, 3, 0)).unwrap();
    assert_eq!(img.width, 0);
    assert_eq!(img.height, 5);
    assert!(img.data.is_empty());
}

#[test]
fn excess_chunks_are_never_read() {
    let bytes = with_chunks(hdr(1, 1, 3, 0), &[0xFE, 1, 2, 3, 0xFE, 9, 9, 9]);
    let img = Img::from_bytes(bytes).unwrap();
    assert_eq!(img.data, vec![1, 2, 3]);
}

#[test]
fn error_values_are_distinct() {
    assert_ne!(DecodeError::MalformedHeader, DecodeError::MissingData);
    assert_ne!(DecodeError::FailedToReadFile, DecodeError::MissingData);
    assert_ne!(DecodeError::FailedToReadFile, DecodeError::MalformedHeader);
}

#[test]
fn display_shell_entry_points_are_inert() {
    let img = Img::from_bytes(with_chunks(hdr(1, 1, 3, 0), &[0xFE, 1, 2, 3])).unwrap();
    render::resize(640, 480);
    render::render();
    render::set_texture(img);
}
