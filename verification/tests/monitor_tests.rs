use clipkeep::digest::{digest_of_bytes, digest_of_text};
use clipkeep::monitor::ClipboardMonitor;
use clipkeep::platform::get_frontmost_app;

#[test]
fn test_digest_stable_and_separating() {
    // the same bytes twice give the same digest
    assert_eq!(digest_of_bytes(&[1, 2, 3]), digest_of_bytes(&[1, 2, 3]));
    assert_eq!(digest_of_text("hello"), digest_of_text("hello"));
    // one differing byte gives a different digest
    assert_ne!(digest_of_bytes(&[1, 2, 3]), digest_of_bytes(&[1, 2, 4]));
    assert_ne!(digest_of_text("hello"), digest_of_text("hellp"));
    assert_eq!(digest_of_text("abc").len(), 64);
}

#[test]
fn test_process_text_accepts_new_content() {
    let mut m = ClipboardMonitor::new("/data/images".to_string());
    let item = m.process_text("hello world", "Editor".to_string(), 42).expect("capture");
    assert_eq!(item.content, "hello world");
    assert_eq!(item.content_type, "text");
    assert_eq!(item.category, "misc");
    assert_eq!(item.source_app, "Editor");
    assert!(!item.is_sensitive);
    assert!(item.image_path.is_none());
    assert_eq!(item.hash, digest_of_text("hello world"));
    assert_eq!(item.preview, "hello world");
    assert_eq!(item.copied_at, 42);
}

#[test]
fn test_process_text_skips_repeated_content() {
    let mut m = ClipboardMonitor::new("/data/images".to_string());
    assert!(m.process_text("same thing", "Editor".to_string(), 1).is_some());
    // the next tick sees the identical clipboard again
    assert!(m.process_text("same thing", "Editor".to_string(), 2).is_none());
    // new content is captured again
    assert!(m.process_text("another thing", "Editor".to_string(), 3).is_some());
}

#[test]
fn test_process_text_suppresses_self_echo() {
    let mut m = ClipboardMonitor::new("/data/images".to_string());
    // the application just wrote this item back onto the clipboard
    m.set_last_copied_hash(digest_of_text("copied back"));
    assert!(m.process_text("copied back", "Editor".to_string(), 1).is_none());
}

#[test]
fn test_process_text_drops_excluded_app() {
    let mut m = ClipboardMonitor::new("/data/images".to_string());
    m.set_exclusions(vec!["Vault".to_string()]);
    assert!(m.process_text("secret stuff", "Vault".to_string(), 1).is_none());
    // the digest was still recorded, so the same content is not retried
    assert!(m.process_text("secret stuff", "Editor".to_string(), 2).is_none());
    assert!(m.process_text("public stuff", "Editor".to_string(), 3).is_some());
}

#[test]
fn test_process_text_drops_sensitive_when_configured() {
    let mut m = ClipboardMonitor::new("/data/images".to_string());
    assert!(m.process_text("123-45-6789", "Editor".to_string(), 1).is_none());
    m.set_auto_exclude_sensitive(false);
    let item = m.process_text("SSN: 123-45-6789", "Editor".to_string(), 2).expect("capture");
    assert!(item.is_sensitive);
}

#[test]
fn test_process_text_preview_truncates_on_character_boundary() {
    let mut m = ClipboardMonitor::new("/data/images".to_string());
    let long: String = "\u{e9}".repeat(100);
    let item = m.process_text(&long, "Editor".to_string(), 1).expect("capture");
    assert_eq!(item.preview.chars().count(), 81);
    let expected: String = "\u{e9}".repeat(80) + "\u{2026}";
    assert_eq!(item.preview, expected);
    // short content passes through untouched
    let short = m.process_text("short", "Editor".to_string(), 2).expect("capture");
    assert_eq!(short.preview, "short");
}

#[test]
fn test_process_image_accepts_consistent_buffer() {
    let mut m = ClipboardMonitor::new("/data/images".to_string());
    let rgba = vec![255_u8; 2 * 2 * 4];
    let cap = m.process_image(&rgba, 2, 2, "Editor".to_string(), 1_000, 1).expect("capture");
    assert_eq!(cap.item.content_type, "image");
    assert_eq!(cap.item.category, "misc");
    assert!(!cap.item.is_sensitive);
    assert_eq!(cap.item.content, "Image 2\u{d7}2");
    assert_eq!(cap.item.preview, "Image 2\u{d7}2");
    assert_eq!(cap.item.hash, digest_of_bytes(&rgba));
    assert_eq!(cap.item.image_path.as_deref(), Some(cap.file_path.as_str()));
    assert!(cap.file_path.starts_with("/data/images/1000_"));
    assert!(cap.file_path.ends_with(".png"));
    assert!(!cap.png_bytes.is_empty());
    let decoded = image::load_from_memory(&cap.png_bytes).expect("decodable PNG");
    assert_eq!(decoded.to_rgba8().into_raw(), rgba);
}

#[test]
fn test_process_image_rejects_inconsistent_buffer() {
    // a raw buffer whose length disagrees with width * height * 4:
    // encoding fails, no event is emitted, nothing to write to disk
    let mut m = ClipboardMonitor::new("/data/images".to_string());
    let bad = vec![0_u8; 3];
    assert!(m.process_image(&bad, 1, 1, "Editor".to_string(), 1_000, 1).is_none());
}

#[test]
fn test_process_image_enforces_size_limit() {
    let mut m = ClipboardMonitor::new("/data/images".to_string());
    m.set_max_image_size_mb(1);
    let big = vec![0_u8; 2 * 1024 * 1024];
    assert!(m.process_image(&big, 512, 1024, "Editor".to_string(), 1_000, 1).is_none());
    m.set_max_image_size_mb(5);
    // the size rejection did not record the digest, so the same buffer is
    // reconsidered once the limit allows it
    assert!(m.process_image(&big, 512, 1024, "Editor".to_string(), 2_000, 2).is_some());
}

#[test]
fn test_process_image_suppresses_repeat() {
    let mut m = ClipboardMonitor::new("/data/images".to_string());
    let rgba = vec![9_u8; 4];
    assert!(m.process_image(&rgba, 1, 1, "Editor".to_string(), 1_000, 1).is_some());
    assert!(m.process_image(&rgba, 1, 1, "Editor".to_string(), 2_000, 2).is_none());
}

#[test]
fn test_frontmost_app_fallback() {
    assert_eq!(get_frontmost_app(), "Unknown");
}

#[test]
fn test_images_dir_accessor() {
    let m = ClipboardMonitor::new("/data/images".to_string());
    assert_eq!(m.images_dir(), "/data/images");
}
