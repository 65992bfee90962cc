use sitekit::editor::{
    after_branch_read, after_default_read, apply_format, date_string, editor_branch_name, first_image,
    format_markers, generate_template, has_changes, image_markdown, image_too_large,
    insert_image_ref, is_supported_image_type, revert_ready, save_message, save_sha,
    short_message, short_sha, shows_editor, shows_preview, too_large_message,
    unsupported_image_message, upload_message, uploaded_note, FormatKind, LoadStep, LoadedFile,
    ViewMode,
};
use sitekit::models::FileContent;

fn file(content: Option<&str>) -> FileContent {
    FileContent {
        name: "index.md".to_string(),
        path: "content/blog/hi/index.md".to_string(),
        sha: "abc".to_string(),
        size: 3,
        content: content.map(|c| c.to_string()),
        encoding: None,
    }
}

#[test]
fn modes_and_changes() {
    assert!(shows_editor(ViewMode::Edit) && !shows_preview(ViewMode::Edit));
    assert!(shows_editor(ViewMode::Split) && shows_preview(ViewMode::Split));
    assert!(!shows_editor(ViewMode::Preview));
    assert!(has_changes("a", "b", false));
    assert!(has_changes("a", "a", true));
    assert!(!has_changes("a", "a", false));
    assert!(revert_ready(true, false, true, true));
    assert!(!revert_ready(true, true, true, true));
}

#[test]
fn loading_steps() {
    match after_branch_read(Ok(file(Some("x")))) {
        LoadStep::Done(Ok(LoadedFile::Existing { text, sha })) => {
            assert_eq!(text, "x");
            assert_eq!(sha, "abc");
        }
        _ => panic!("expected the file"),
    }
    assert!(matches!(after_branch_read(Err("File not found: a".to_string())), LoadStep::ReadDefault));
    match after_branch_read(Err("Unauthorized".to_string())) {
        LoadStep::Done(Err(e)) => assert_eq!(e, "Unauthorized"),
        _ => panic!("expected the error"),
    }
    assert_eq!(
        after_default_read(Ok(file(None)), "p", 2024, 1, 2),
        Ok(LoadedFile::Existing { text: String::new(), sha: "abc".to_string() })
    );
    match after_default_read(Err("File not found: p".to_string()), "content/blog/my-post/index.md", 2024, 3, 9) {
        Ok(LoadedFile::New { template }) => assert!(template.contains("title = \"My post\"")),
        _ => panic!("expected a new post"),
    }
    assert_eq!(
        after_default_read(Err("boom".to_string()), "p", 2024, 1, 2),
        Err("boom".to_string())
    );
}

#[test]
fn template_and_branch_name() {
    assert_eq!(
        generate_template("content/blog/hello-world.md", 2024, 3, 9),
        "+++\ntitle = \"Hello world\"\ndate = \"2024-03-09\"\ndescription = \"\"\ndraft = true\n# taxonomies.tags = [\"comics\", \"games\", \"backlog\", \"movies\", \"tv\", \"whats-good\"]\n+++\n"
    );
    assert_eq!(
        editor_branch_name("content/blog/my-post/index.md", 2025, 12, 31),
        "editor/2025-12-31-my-post"
    );
}

#[test]
fn dates_are_zero_padded() {
    assert_eq!(date_string(2024, 3, 9), "2024-03-09");
    assert_eq!(date_string(2025, 12, 31), "2025-12-31");
    assert_eq!(date_string(999, 1, 1), "999-01-01");
}

#[test]
fn saving() {
    assert_eq!(save_message("a.md", true), "Create a.md");
    assert_eq!(save_message("a.md", false), "Update a.md");
    assert_eq!(save_sha(true, Some("s".to_string())), None);
    assert_eq!(save_sha(false, Some("s".to_string())), Some("s".to_string()));
}

#[test]
fn formatting_the_selection() {
    let (p, s, ph) = format_markers(FormatKind::Bold);
    assert_eq!(apply_format("hello world", 6, 11, p, s, ph), "hello **world**");
    assert_eq!(apply_format("hello", 5, 5, p, s, ph), "hello**bold text**");
    let (p, s, ph) = format_markers(FormatKind::CodeBlock);
    assert_eq!(apply_format("héllo", 1, 2, p, s, ph), "h```\né\n```llo");
    assert_eq!(apply_format("ab", 9, 12, "*", "*", "x"), "ab*x*");
}

#[test]
fn image_uploads() {
    assert!(is_supported_image_type("image/webp"));
    assert!(!is_supported_image_type("image/bmp"));
    assert_eq!(unsupported_image_message("image/bmp"), "Unsupported image type: image/bmp");
    assert!(!image_too_large(10 * 1024 * 1024));
    assert!(image_too_large(10 * 1024 * 1024 + 1));
    assert_eq!(
        too_large_message(12 * 1024 * 1024 + 100_000),
        format!(
            "Image too large ({:.1} MB). Maximum size is 10 MB.",
            (12 * 1024 * 1024 + 100_000) as f64 / (1024.0 * 1024.0)
        )
    );
    for size in [0u64, 1, 52_428, 52_429, 524_288, 1_048_575, u64::MAX] {
        assert_eq!(
            too_large_message(size),
            format!("Image too large ({:.1} MB). Maximum size is 10 MB.", size as f64 / (1024.0 * 1024.0))
        );
    }
    assert_eq!(image_markdown("a.png"), "![a.png](a.png)");
    assert_eq!(insert_image_ref("héllo", "X", Some(2)), "héXllo");
    assert_eq!(insert_image_ref("ab", "X", Some(7)), "abX");
    assert_eq!(insert_image_ref("ab", "X", None), "ab\nX");
    assert_eq!(upload_message("a.png"), "Upload image a.png");
    assert_eq!(uploaded_note("a.png"), "Uploaded a.png");
    let types = vec!["text/plain".to_string(), "image/png".to_string(), "image/gif".to_string()];
    assert_eq!(first_image(&types), Some(1));
    assert_eq!(first_image(&types[..1]), None);
}

#[test]
fn history_panel() {
    assert_eq!(short_sha("0123456789abcdef"), "0123456");
    assert_eq!(short_sha("abc"), "abc");
    let long = "x".repeat(61);
    assert_eq!(short_message(&long), format!("{}\u{2026}", "x".repeat(60)));
    assert_eq!(short_message("short"), "short");
}
