use clipkeep::imaging::{build_image_filename, encode_rgba_to_png};

#[test]
fn test_build_image_filename_uses_hash_prefix() {
    let filename = build_image_filename(1_700_000_000_000_000_000, "abcdef1234567890");
    assert_eq!(filename, "1700000000000000000_abcdef123456.png");
}

#[test]
fn test_build_image_filename_short_hash() {
    let filename = build_image_filename(5, "abc");
    assert_eq!(filename, "5_abc.png");
}

#[test]
fn test_encode_rgba_to_png_roundtrip_dimensions() {
    let rgba = vec![
        255, 0, 0, 255, // red pixel
        0, 255, 0, 255, // green pixel
        0, 0, 255, 255, // blue pixel
        255, 255, 255, 255, // white pixel
    ];

    let png = encode_rgba_to_png(&rgba, 2, 2).expect("expected valid PNG bytes");
    let decoded = image::load_from_memory(&png).expect("expected decodable PNG");
    let decoded_rgba = decoded.to_rgba8();

    assert_eq!(decoded_rgba.width(), 2);
    assert_eq!(decoded_rgba.height(), 2);
    assert_eq!(decoded_rgba.into_raw(), rgba);
}

#[test]
fn test_encode_rgba_to_png_rejects_invalid_length() {
    let invalid = vec![0_u8; 3];
    assert!(encode_rgba_to_png(&invalid, 1, 1).is_none());
}

#[test]
fn test_encode_rejects_mismatched_dimensions() {
    // 16 bytes is four pixels, not the twelve that 3x1 would need... nor 2x3
    let buf = vec![7_u8; 16];
    assert!(encode_rgba_to_png(&buf, 3, 1).is_none());
    assert!(encode_rgba_to_png(&buf, 2, 3).is_none());
    assert!(encode_rgba_to_png(&buf, 2, 2).is_some());
}
