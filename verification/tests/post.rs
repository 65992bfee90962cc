use sitekit::post::{
    bytes_to_data_url, extract_frontmatter, extract_relative_image_srcs, mime_type_for, post_dir,
    replace_image_srcs, strip_frontmatter,
};
use sitekit::prose::{count_prose, html_to_plain_text, prose_counts, render_markdown};

// ── strip_frontmatter ──────────────────────────────────────────────────

#[test]
fn strip_frontmatter_with_frontmatter() {
    let content = "+++\ntitle = \"Hello\"\n+++\n# Body";
    assert_eq!(strip_frontmatter(content), "# Body");
}

#[test]
fn strip_frontmatter_no_frontmatter() {
    let content = "# No frontmatter here";
    assert_eq!(strip_frontmatter(content), content);
}

#[test]
fn strip_frontmatter_empty_string() {
    assert_eq!(strip_frontmatter(""), "");
}

#[test]
fn strip_frontmatter_unclosed_delimiter() {
    let content = "+++\ntitle = \"Hello\"\n# Body";
    assert_eq!(strip_frontmatter(content), content);
}

#[test]
fn strip_frontmatter_leading_whitespace() {
    let content = "\n+++\ntitle = \"x\"\n+++\nbody";
    assert_eq!(strip_frontmatter(content), "body");
}

#[test]
fn strip_frontmatter_no_newline_after_closing() {
    let content = "+++\ntitle = \"x\"\n+++";
    assert_eq!(strip_frontmatter(content), "");
}

#[test]
fn extract_frontmatter_returns_the_toml_text() {
    assert_eq!(extract_frontmatter("+++\ntitle = \"x\"\n+++\nbody"), Some("title = \"x\""));
    assert_eq!(extract_frontmatter("  +++a = 1\n+++"), Some("a = 1"));
    assert_eq!(extract_frontmatter("+++\ntitle = \"x\"\nbody"), None);
    assert_eq!(extract_frontmatter("# no frontmatter"), None);
}

#[test]
fn empty_frontmatter_is_present_and_empty() {
    assert_eq!(extract_frontmatter("+++\n+++\nbody"), Some(""));
    assert_eq!(strip_frontmatter("+++\n+++\nbody"), "body");
    assert_eq!(extract_frontmatter("\n +++\n+++"), Some(""));
    assert_eq!(extract_frontmatter("+++\n\n+++\nbody"), Some(""));
}

// ── render_markdown ────────────────────────────────────────────────────

#[test]
fn render_markdown_basic() {
    let html = render_markdown("# Hello");
    assert!(html.contains("<h1>"), "expected h1 tag, got: {html}");
    assert!(html.contains("Hello"));
}

#[test]
fn render_markdown_strips_frontmatter() {
    let content = "+++\ntitle = \"x\"\n+++\n**bold**";
    let html = render_markdown(content);
    assert!(html.contains("<strong>bold</strong>"), "got: {html}");
    assert!(!html.contains("title"), "frontmatter leaked into output: {html}");
}

#[test]
fn render_markdown_gfm_strikethrough() {
    let html = render_markdown("~~struck~~");
    assert!(html.contains("<del>struck</del>"), "got: {html}");
}

// ── count_prose ────────────────────────────────────────────────────────

#[test]
fn count_prose_empty() {
    assert_eq!(count_prose(""), (0, 0));
}

#[test]
fn count_prose_ignores_frontmatter() {
    let content = "+++\ntitle = \"Hello there world\"\n+++\nhi";
    assert_eq!(count_prose(content), (1, 2));
}

#[test]
fn count_prose_strips_markdown_syntax() {
    let content = "# one\n\n**two** [three](https://example.com)";
    assert_eq!(count_prose(content), (3, 13));
}

#[test]
fn count_prose_collapses_whitespace_between_blocks() {
    let content = "one two\n\nthree four";
    assert_eq!(count_prose(content), (4, 18));
}

#[test]
fn plain_text_strips_tags_decodes_entities_and_collapses_space() {
    assert_eq!(
        html_to_plain_text("<p>a &amp; b</p>\n\n<p>&lt;tag&gt; &quot;q&quot; &#39;s&#39;&nbsp;end</p>"),
        "a & b <tag> \"q\" 's' end"
    );
    assert_eq!(html_to_plain_text("   "), "");
    // Entities are decoded one after another, so `&amp;lt;` becomes `<`.
    assert_eq!(html_to_plain_text("&amp;lt;"), "<");
}

#[test]
fn prose_counts_of_html() {
    assert_eq!(prose_counts("<h1>one</h1>\n<p>two three</p>"), (3, 13));
    assert_eq!(prose_counts("<br/>"), (0, 0));
}

// ── post_dir ───────────────────────────────────────────────────────────

#[test]
fn post_dir_nested() {
    assert_eq!(post_dir("content/blog/my-post.md"), "content/blog");
}

#[test]
fn post_dir_top_level() {
    assert_eq!(post_dir("README.md"), "");
}

// ── extract_relative_image_srcs ───────────────────────────────────────

#[test]
fn extract_relative_srcs_finds_relative() {
    let html = r#"<img src="photo.png" alt="x">"#;
    assert_eq!(extract_relative_image_srcs(html), vec!["photo.png"]);
}

#[test]
fn extract_relative_srcs_ignores_absolute() {
    let html = r#"<img src="https://example.com/photo.png">"#;
    assert!(extract_relative_image_srcs(html).is_empty());
}

#[test]
fn extract_relative_srcs_ignores_data_url() {
    let html = r#"<img src="data:image/png;base64,abc">"#;
    assert!(extract_relative_image_srcs(html).is_empty());
}

#[test]
fn extract_relative_srcs_ignores_root_relative() {
    let html = r#"<img src="/images/photo.png">"#;
    assert!(extract_relative_image_srcs(html).is_empty());
}

#[test]
fn extract_relative_srcs_multiple() {
    let html = r#"<img src="a.png"><img src="https://x.com/b.png"><img src="c.jpg">"#;
    assert_eq!(extract_relative_image_srcs(html), vec!["a.png", "c.jpg"]);
}

#[test]
fn extract_relative_srcs_unquoted_and_single_quoted() {
    let html = "<img src=pic.png alt=x><img src='b.gif'><img alt=\"no src\">";
    assert_eq!(extract_relative_image_srcs(html), vec!["pic.png", "b.gif"]);
}

// ── replace_image_srcs ────────────────────────────────────────────────

#[test]
fn replace_image_srcs_substitutes_matching() {
    let html = r#"<img src="photo.png" alt="x">"#;
    let map = vec![("photo.png".to_string(), "data:image/png;base64,ABC".to_string())];
    let result = replace_image_srcs(html, &map);
    assert!(result.contains("data:image/png;base64,ABC"), "got: {result}");
    assert!(!result.contains("photo.png"), "got: {result}");
}

#[test]
fn replace_image_srcs_leaves_unmatched_alone() {
    let html = r#"<img src="other.png">"#;
    let map: Vec<(String, String)> = Vec::new();
    let result = replace_image_srcs(html, &map);
    assert_eq!(result, html);
}

#[test]
fn replace_image_srcs_no_img_tags() {
    let html = "<p>No images here</p>";
    let map: Vec<(String, String)> = Vec::new();
    assert_eq!(replace_image_srcs(html, &map), html);
}

#[test]
fn replace_image_srcs_exact_output() {
    let html = "<p><img src=a.png alt=x> <img src='b.png'></p>";
    let map = vec![
        ("a.png".to_string(), "A".to_string()),
        ("b.png".to_string(), "B".to_string()),
    ];
    assert_eq!(replace_image_srcs(html, &map), "<p><img src=A alt=x> <img src='B'></p>");
}

// ── mime_type_for ─────────────────────────────────────────────────────

#[test]
fn mime_type_for_known_extensions() {
    assert_eq!(mime_type_for("photo.png"), "image/png");
    assert_eq!(mime_type_for("photo.jpg"), "image/jpeg");
    assert_eq!(mime_type_for("photo.jpeg"), "image/jpeg");
    assert_eq!(mime_type_for("anim.gif"), "image/gif");
    assert_eq!(mime_type_for("img.webp"), "image/webp");
    assert_eq!(mime_type_for("icon.svg"), "image/svg+xml");
}

#[test]
fn mime_type_for_unknown_falls_back() {
    assert_eq!(mime_type_for("file.txt"), "application/octet-stream");
    assert_eq!(mime_type_for("noext"), "application/octet-stream");
}

#[test]
fn mime_type_for_ignores_case() {
    assert_eq!(mime_type_for("PHOTO.PNG"), "image/png");
}

// ── bytes_to_data_url ─────────────────────────────────────────────────

#[test]
fn bytes_to_data_url_produces_valid_data_url() {
    let bytes = b"hello";
    let url = bytes_to_data_url(bytes, "image.png");
    assert!(url.starts_with("data:image/png;base64,"), "got: {url}");
    assert!(url.ends_with("aGVsbG8="), "got: {url}");
}

#[test]
fn bytes_to_data_url_uses_correct_mime() {
    let url = bytes_to_data_url(b"x", "photo.jpg");
    assert!(url.starts_with("data:image/jpeg;base64,"), "got: {url}");
}
