use sitekit::utils::{
    char_pos_to_byte_offset, format_size, sanitize_filename, slug_from_path, title_from_slug,
};

#[test]
fn test_slug_from_path_plain_file() {
    assert_eq!(slug_from_path("content/blog/my-post.md"), "my-post");
}

#[test]
fn test_slug_from_path_index() {
    assert_eq!(slug_from_path("content/blog/my-post/index.md"), "my-post");
}

#[test]
fn test_slug_from_path_underscore_index() {
    assert_eq!(slug_from_path("content/_index.md"), "content");
}

#[test]
fn test_title_from_slug() {
    assert_eq!(title_from_slug("my-post"), "My post");
    assert_eq!(title_from_slug("hello-world"), "Hello world");
    assert_eq!(title_from_slug(""), "");
}

#[test]
fn test_sanitize_filename() {
    assert_eq!(sanitize_filename("Hello World!"), "hello-world");
    assert_eq!(sanitize_filename("my_post.md"), "my_post.md");
    assert_eq!(sanitize_filename("foo bar baz"), "foo-bar-baz");
}

#[test]
fn test_char_pos_to_byte_offset_ascii() {
    let s = "hello";
    assert_eq!(char_pos_to_byte_offset(s, 0), 0);
    assert_eq!(char_pos_to_byte_offset(s, 3), 3);
    assert_eq!(char_pos_to_byte_offset(s, 10), 5); // past end → s.len()
}

#[test]
fn test_char_pos_to_byte_offset_multibyte() {
    let s = "hé"; // 'é' is 2 bytes
    assert_eq!(char_pos_to_byte_offset(s, 0), 0);
    assert_eq!(char_pos_to_byte_offset(s, 1), 1);
    assert_eq!(char_pos_to_byte_offset(s, 2), 3); // past end
}

#[test]
fn test_format_size() {
    assert_eq!(format_size(0), "0 B");
    assert_eq!(format_size(512), "512 B");
    assert_eq!(format_size(1024), "1.0 KB");
    assert_eq!(format_size(1536), "1.5 KB");
    assert_eq!(format_size(1024 * 1024), "1.0 MB");
}

// ── further cases ──────────────────────────────────────────────

fn float_reference(bytes: u64) -> String {
    if bytes < 1024 {
        format!("{bytes} B")
    } else if bytes < 1024 * 1024 {
        format!("{:.1} KB", bytes as f64 / 1024.0)
    } else {
        format!("{:.1} MB", bytes as f64 / (1024.0 * 1024.0))
    }
}

#[test]
fn format_size_matches_float_formatting() {
    let mut samples: Vec<u64> = vec![
        1023, 1279, 1280, 1331, 1332, 1434, 1946, 3840, 6400, 1048575, 1048576, 1153433,
        1258291, 1310720, 1572864, 10 * 1024 * 1024 + 52428, 1 << 40, (1 << 53) - 1, 1 << 53,
        (1 << 53) + 1, (1 << 53) + 3, u64::MAX, u64::MAX - 1, 0x7fff_ffff_ffff_ffff,
        12345678901234567, 98765432109876543,
    ];
    for k in 0..4000u64 {
        samples.push(1024 + k * 37);
        samples.push(1048576 + k * 104857);
        samples.push(k * 13);
    }
    for b in samples {
        assert_eq!(format_size(b), float_reference(b), "bytes = {b}");
    }
}

#[test]
fn slug_from_path_edge_cases() {
    assert_eq!(slug_from_path("index.md"), "untitled");
    assert_eq!(slug_from_path("content/blog/"), "blog");
    assert_eq!(slug_from_path("notes.md.md"), "notes");
    assert_eq!(slug_from_path(""), "");
    assert_eq!(slug_from_path("a//index.md"), "");
}

#[test]
fn title_from_slug_uses_unicode_uppercase() {
    assert_eq!(title_from_slug("ß-ok"), "SS ok");
    assert_eq!(title_from_slug("-lead"), " lead");
}

#[test]
fn sanitize_filename_keeps_unicode_alphanumerics() {
    assert_eq!(sanitize_filename("Café Menu.PNG"), "café-menu.png");
    assert_eq!(sanitize_filename("a/b\\c:d"), "abcd");
}

#[test]
fn char_pos_to_byte_offset_four_byte_chars() {
    let s = "a😀b";
    assert_eq!(char_pos_to_byte_offset(s, 1), 1);
    assert_eq!(char_pos_to_byte_offset(s, 2), 5);
    assert_eq!(char_pos_to_byte_offset(s, 3), 6);
}

#[test]
fn sanitized_ascii_names_are_stable() {
    for name in ["Hello World!.PNG", "My Photo (1).jpg", "__a--b__.tar.gz", "???", ""] {
        let once = sanitize_filename(name);
        assert!(once.chars().all(|c| c.is_ascii_lowercase() || c.is_ascii_digit() || "-_.".contains(c)));
        assert!(once.len() <= name.len());
        assert_eq!(sanitize_filename(&once), once);
    }
}
