use sitekit::dashboard::{
    all_files_cache_key, branch_is_active, branch_label, branch_name_of_ref, breadcrumbs,
    ci_blocks_publish, ci_needs_confirmation, ci_should_poll, ci_state_from_runs, diff_line_class,
    diff_status_class, diff_status_letter, diff_summary, diff_totals, entry_icon, entry_is_media,
    entry_is_shown, entry_label, filter_entries, folder_shows_status, folder_status_from_fields,
    is_cache_key, is_media_file, is_unauthorized, listing_cache_key, lookup_status,
    markdown_paths, new_post_path, new_post_preview, parent_path, patch_lines,
    publish_button_class, publish_message, remove_branch, remove_file_entry, search_files,
    single_md_child, sort_dirs_first, sort_mode_from_stored, sort_mode_text,
    status_cache_text, status_from_cache_text, status_from_fields, sync_message, CiState,
    EntryIcon, PostStatus, SortMode, StatusFilter,
};
use sitekit::models::{CheckRun, ContentEntry, DiffFile, GitObject, GitRef};

fn entry(name: &str, t: &str) -> ContentEntry {
    ContentEntry {
        name: name.to_string(),
        path: format!("content/{name}"),
        entry_type: t.to_string(),
        sha: "s".to_string(),
        size: 1,
        download_url: None,
    }
}

fn fields(pairs: &[(&str, &str)]) -> Vec<(String, String)> {
    pairs.iter().map(|(k, v)| (k.to_string(), v.to_string())).collect()
}

#[test]
fn post_statuses() {
    assert_eq!(status_from_fields(false, &[]), PostStatus::NoFrontmatter);
    assert_eq!(status_from_fields(true, &fields(&[("draft", "true")])), PostStatus::Draft);
    assert_eq!(status_from_fields(true, &fields(&[("draft", "false")])), PostStatus::Published);
    assert_eq!(status_from_fields(true, &fields(&[("title", "x")])), PostStatus::Published);
    assert_eq!(
        folder_status_from_fields(true, &fields(&[("a", "b"), ("draft", "true")])),
        PostStatus::Draft
    );
    assert_eq!(folder_status_from_fields(false, &[]), PostStatus::NoFrontmatter);
    assert!(folder_shows_status(PostStatus::Draft));
    assert!(!folder_shows_status(PostStatus::NoFrontmatter));
    for s in [PostStatus::Draft, PostStatus::Published, PostStatus::NoFrontmatter] {
        assert_eq!(status_from_cache_text(status_cache_text(s)), s);
    }
    assert_eq!(status_from_cache_text("weird"), PostStatus::NoFrontmatter);
}

fn run(status: &str, conclusion: Option<&str>, url: &str) -> CheckRun {
    CheckRun {
        status: status.to_string(),
        conclusion: conclusion.map(|c| c.to_string()),
        html_url: url.to_string(),
    }
}

#[test]
fn ci_states() {
    assert_eq!(ci_state_from_runs(&[]), CiState::NoChecks);
    assert_eq!(
        ci_state_from_runs(&[run("completed", Some("success"), "a"), run("queued", None, "b")]),
        CiState::Pending
    );
    assert_eq!(
        ci_state_from_runs(&[
            run("completed", Some("success"), "a"),
            run("completed", Some("failure"), "b"),
            run("completed", Some("failure"), "c"),
        ]),
        CiState::Failure("b".to_string())
    );
    assert_eq!(ci_state_from_runs(&[run("completed", Some("success"), "a")]), CiState::Success);
    assert!(ci_should_poll(&CiState::Pending));
    assert!(!ci_should_poll(&CiState::Success));
    assert!(ci_blocks_publish(&CiState::Failure("u".to_string())));
    assert!(ci_needs_confirmation(&CiState::NoChecks));
    assert_eq!(publish_button_class(&CiState::Pending), "publish-btn pending");
    assert_eq!(publish_button_class(&CiState::Success), "publish-btn");
}

#[test]
fn sort_modes_and_cache_keys() {
    assert_eq!(sort_mode_from_stored(Some("recent")), SortMode::LastModified);
    assert_eq!(sort_mode_from_stored(Some("alpha")), SortMode::Alphabetical);
    assert_eq!(sort_mode_from_stored(None), SortMode::Alphabetical);
    assert_eq!(sort_mode_text(SortMode::LastModified), "recent");
    assert_eq!(listing_cache_key("content"), "dir_cache_content");
    assert_eq!(all_files_cache_key(None), "all_files_index");
    assert_eq!(all_files_cache_key(Some("x")), "all_files_index_x");
    assert!(is_cache_key("dir_cache_a"));
    assert!(is_cache_key("all_files_index_b"));
    assert!(!is_cache_key("github_token"));
}

#[test]
fn media_files() {
    assert!(is_media_file("a.PNG"));
    assert!(is_media_file("song.flac"));
    assert!(!is_media_file("post.md"));
    assert!(entry_is_media(&entry("a.mp4", "file")));
    assert!(!entry_is_media(&entry("a.mp4", "dir")));
}

#[test]
fn sorting_puts_dirs_first_then_names() {
    let sorted = sort_dirs_first(&[
        entry("b.md", "file"),
        entry("zeta", "dir"),
        entry("a.md", "file"),
        entry("alpha", "dir"),
        entry("B.md", "file"),
    ]);
    let names: Vec<&str> = sorted.iter().map(|e| e.name.as_str()).collect();
    assert_eq!(names, vec!["alpha", "zeta", "B.md", "a.md", "b.md"]);
}

#[test]
fn sorting_is_stable() {
    let mut first = entry("same.md", "file");
    first.sha = "first".to_string();
    let mut second = entry("same.md", "file");
    second.sha = "second".to_string();
    let sorted = sort_dirs_first(&[first, entry("a.md", "file"), second, entry("d", "dir")]);
    let shas: Vec<&str> = sorted.iter().map(|e| e.sha.as_str()).collect();
    assert_eq!(sorted[0].name, "d");
    assert_eq!(sorted[1].name, "a.md");
    assert_eq!(&shas[2..], &["first", "second"]);
}

#[test]
fn filtering_entries() {
    let entries = vec![entry("Draft.md", "file"), entry("pub.md", "file"), entry("folder", "dir"), entry("pic.png", "file")];
    let statuses = vec![
        ("content/Draft.md".to_string(), PostStatus::Draft),
        ("content/pub.md".to_string(), PostStatus::Published),
    ];
    let shown = filter_entries(&entries, "", StatusFilter::Draft, &statuses, &[]);
    let names: Vec<&str> = shown.iter().map(|e| e.name.as_str()).collect();
    assert_eq!(names, vec!["Draft.md", "folder", "pic.png"]);
    let shown = filter_entries(&entries, "DRAFT", StatusFilter::All, &statuses, &[]);
    assert_eq!(shown.len(), 1);
    let folders = vec![("content/folder".to_string(), PostStatus::Draft)];
    let shown = filter_entries(&entries, "", StatusFilter::Published, &statuses, &folders);
    let names: Vec<&str> = shown.iter().map(|e| e.name.as_str()).collect();
    assert_eq!(names, vec!["pub.md", "pic.png"]);
    assert!(entry_is_shown(&entries[0], "raf", StatusFilter::All, None, None));
    assert_eq!(lookup_status(&statuses, "content/pub.md"), Some(PostStatus::Published));
    assert_eq!(lookup_status(&statuses, "nope"), None);
    let hits = search_files(&entries, "PIC");
    assert_eq!(hits.len(), 1);
}

#[test]
fn entry_drawing() {
    assert_eq!(entry_icon(&entry("d", "dir"), None, Some(PostStatus::Draft)), EntryIcon::Draft);
    assert_eq!(entry_icon(&entry("d", "dir"), None, None), EntryIcon::Folder);
    assert_eq!(entry_icon(&entry("p.md", "file"), Some(PostStatus::Published), None), EntryIcon::Published);
    assert_eq!(entry_icon(&entry("p.md", "file"), None, None), EntryIcon::Blank);
    assert_eq!(entry_icon(&entry("p.gif", "file"), None, None), EntryIcon::Media);
    assert_eq!(entry_label(&entry("d", "dir")), "d/");
    assert_eq!(entry_label(&entry("f.md", "file")), "f.md");
}

#[test]
fn navigation() {
    let crumbs = breadcrumbs("content/blog/post");
    assert_eq!(
        crumbs,
        vec![
            ("content".to_string(), "content".to_string()),
            ("blog".to_string(), "content/blog".to_string()),
            ("post".to_string(), "content/blog/post".to_string()),
        ]
    );
    assert_eq!(breadcrumbs("content"), vec![("content".to_string(), "content".to_string())]);
    assert_eq!(parent_path("content/blog"), Some("content".to_string()));
    assert_eq!(parent_path("content"), None);
    assert_eq!(new_post_path("blog", "hi"), Some("content/blog/hi/index.md".to_string()));
    assert_eq!(new_post_path("blog", ""), None);
    assert_eq!(new_post_preview("blog", ""), "content/blog//index.md");
    assert!(is_unauthorized("Unauthorized \u{2014} check your token"));
    assert!(!is_unauthorized("Branch not found"));
}

#[test]
fn branches() {
    assert_eq!(branch_name_of_ref("refs/heads/editor/x"), "editor/x");
    assert_eq!(branch_label("editor/x"), "x");
    assert_eq!(branch_label("main"), "main");
    assert!(branch_is_active(Some("a"), "a"));
    assert!(!branch_is_active(None, "a"));
    let refs = vec![
        GitRef { ref_name: "refs/heads/editor/a".to_string(), object: GitObject { sha: "1".to_string() } },
        GitRef { ref_name: "refs/heads/editor/b".to_string(), object: GitObject { sha: "2".to_string() } },
    ];
    let kept = remove_branch(&refs, "editor/a");
    assert_eq!(kept.len(), 1);
    assert_eq!(kept[0].ref_name, "refs/heads/editor/b");
    assert_eq!(publish_message("editor/a"), "Publish editor/a");
    assert_eq!(sync_message("editor/a"), "Sync source into editor/a");
    let files = vec![entry("a", "file"), entry("b", "file")];
    assert_eq!(remove_file_entry(&files, "content/a").len(), 1);
}

#[test]
fn folders_with_one_post() {
    let one = vec![entry("index.md", "file"), entry("pic.png", "file")];
    assert_eq!(single_md_child(&one).map(|e| e.name), Some("index.md".to_string()));
    let two = vec![entry("a.md", "file"), entry("b.md", "file")];
    assert!(single_md_child(&two).is_none());
    let section = vec![entry("a.md", "file"), entry("sub", "dir")];
    assert!(single_md_child(&section).is_none());
    assert_eq!(markdown_paths(&two), vec!["content/a.md", "content/b.md"]);
}

fn diff(status: &str, a: u32, d: u32) -> DiffFile {
    DiffFile {
        filename: "f".to_string(),
        status: status.to_string(),
        additions: a,
        deletions: d,
        changes: a + d,
        patch: None,
    }
}

#[test]
fn diff_panel() {
    assert_eq!(diff_totals(&[diff("added", 3, 1), diff("modified", 2, 5)]), (5, 6));
    assert_eq!(diff_summary(1), "1 file changed, ");
    assert_eq!(diff_summary(3), "3 files changed, ");
    assert_eq!(diff_status_class("removed"), "removed");
    assert_eq!(diff_status_class("copied"), "modified");
    assert_eq!(diff_status_letter("renamed"), "R");
    assert_eq!(diff_line_class("+x"), "diff-line-add");
    assert_eq!(diff_line_class("-x"), "diff-line-del");
    assert_eq!(diff_line_class("@@ -1 +1 @@"), "diff-line-hunk");
    assert_eq!(diff_line_class(" x"), "diff-line-ctx");
    assert_eq!(patch_lines("a\r\nb\n\nc\r"), vec!["a", "b", "", "c\r"]);
    assert_eq!(patch_lines("x\n"), vec!["x"]);
    assert!(patch_lines("").is_empty());
}
