use sitekit::encoding::{base64_of_bytes, base64_of_text, base64_to_bytes, strip_whitespace, text_of_bytes};
use sitekit::github::{
    branch_or_default, branch_sha_from_gql, check_runs_url, compare_url, repo_files,
    contents_url, create_branch_status, decode_file_bytes, decode_file_content,
    decode_github_content, delete_branch_status, delete_file_status, direct_children,
    entries_from_gql_tree, file_from_gql_blob, git_refs_from_nodes, graphql_outcome,
    graphql_status, image_fetch_paths, join_dir, last_commit_date, last_commit_url,
    listing_is_capped, merge_status, object_expression, qualified_branch, read_status,
    resolved_html, save_file_status, saved_sha, tree_url, upload_status, GitHubClient,
};
use sitekit::models::{
    CommitAuthor, CommitDetail, CommitInfo, FileContent, GqlBlob, GqlEntryObject, GqlRef,
    GqlRefNode, GqlRefTarget, GqlTree, GqlTreeEntry, GraphQLError, TreeEntry,
};

#[test]
fn client_token_handling() {
    let c = GitHubClient::new("tok".to_string());
    assert!(c.is_authenticated());
    assert_eq!(c.require_token(), Ok("tok"));
    assert_eq!(c.auth_header(), Some("Bearer tok".to_string()));
    let a = GitHubClient::anonymous();
    assert!(!a.is_authenticated());
    assert_eq!(a.require_token(), Err("Authentication required for this operation".to_string()));
    assert_eq!(a.auth_header(), None);
}

#[test]
fn endpoints() {
    let base = "https://api.github.com/repos/pop/pop.github.io";
    assert_eq!(contents_url("content/blog", "source"), format!("{base}/contents/content/blog?ref=source"));
    assert_eq!(tree_url("abc"), format!("{base}/git/trees/abc?recursive=1"));
    assert_eq!(compare_url("source", "editor/x"), format!("{base}/compare/source...editor/x"));
    assert_eq!(
        last_commit_url("a.md", "source"),
        format!("{base}/commits?path=a.md&sha=source&per_page=1")
    );
    assert_eq!(check_runs_url("main"), format!("{base}/commits/main/check-runs"));
    assert_eq!(object_expression("source", "content"), "source:content");
    assert_eq!(qualified_branch("editor/x"), "refs/heads/editor/x");
    assert_eq!(branch_or_default(None), "source");
    assert_eq!(branch_or_default(Some("dev")), "dev");
}

#[test]
fn read_statuses() {
    assert_eq!(read_status(200, None), Ok(()));
    assert_eq!(read_status(401, None), Err("Unauthorized \u{2014} check your token".to_string()));
    assert_eq!(
        read_status(404, Some("Path not found: x".to_string())),
        Err("Path not found: x".to_string())
    );
    assert_eq!(read_status(404, None), Err("GitHub API error: 404".to_string()));
    assert_eq!(read_status(500, None), Err("GitHub API error: 500".to_string()));
}

#[test]
fn write_statuses() {
    assert_eq!(create_branch_status(201), Ok(()));
    assert_eq!(create_branch_status(422), Err("Branch already exists".to_string()));
    assert_eq!(create_branch_status(500), Err("Failed to create branch: 500".to_string()));
    assert_eq!(delete_branch_status(204), Ok(()));
    assert_eq!(delete_branch_status(200), Err("Failed to delete branch: 200".to_string()));
    assert_eq!(merge_status(201), Ok(()));
    assert_eq!(merge_status(204), Ok(()));
    assert_eq!(merge_status(404), Err("Branch not found".to_string()));
    assert_eq!(
        merge_status(409),
        Err("Merge conflict \u{2014} resolve manually on GitHub".to_string())
    );
    assert_eq!(save_file_status(201), Ok(()));
    assert_eq!(
        save_file_status(409),
        Err("Conflict \u{2014} file was modified elsewhere".to_string())
    );
    assert_eq!(delete_file_status(200), Ok(()));
    assert_eq!(delete_file_status(404), Err("Failed to delete file: 404".to_string()));
    assert_eq!(
        upload_status(409),
        Err("Conflict \u{2014} image already exists at this path".to_string())
    );
    assert_eq!(upload_status(401), Err("Unauthorized \u{2014} check your token".to_string()));
    assert!(graphql_status(200).is_ok());
    assert!(graphql_status(401).is_err());
}

#[test]
fn graphql_outcomes() {
    let errs = vec![
        GraphQLError { message: "a".to_string() },
        GraphQLError { message: "b".to_string() },
    ];
    assert_eq!(graphql_outcome(Some(1), Some(errs)), Err("a; b".to_string()));
    assert_eq!(graphql_outcome(Some(1), None), Ok(1));
    assert_eq!(graphql_outcome::<u8>(None, None), Err("No data in GraphQL response".to_string()));
}

#[test]
fn gql_tree_to_entries() {
    let tree = GqlTree {
        entries: Some(vec![
            GqlTreeEntry {
                name: "post.md".to_string(),
                entry_type: "blob".to_string(),
                oid: "1".to_string(),
                object: Some(GqlEntryObject { byte_size: Some(42) }),
            },
            GqlTreeEntry {
                name: "sub".to_string(),
                entry_type: "tree".to_string(),
                oid: "2".to_string(),
                object: None,
            },
        ]),
    };
    let entries = entries_from_gql_tree("content/blog", Some(tree)).unwrap();
    assert_eq!(entries.len(), 2);
    assert_eq!(entries[0].path, "content/blog/post.md");
    assert_eq!(entries[0].entry_type, "file");
    assert_eq!(entries[0].size, 42);
    assert_eq!(entries[1].entry_type, "dir");
    assert_eq!(entries[1].size, 0);
    let top = entries_from_gql_tree("", Some(GqlTree { entries: None })).unwrap();
    assert!(top.is_empty());
    assert!(entries_from_gql_tree("x", None).is_err());
    assert_eq!(join_dir("", "a"), "a");
    assert_eq!(join_dir("d", "a"), "d/a");
}

#[test]
fn gql_blob_and_ref() {
    let blob = GqlBlob { text: Some("hi".to_string()), oid: "s".to_string(), byte_size: 2 };
    let f = file_from_gql_blob("content/a/b.md", Some(blob)).unwrap();
    assert_eq!(f.name, "b.md");
    assert_eq!(f.content, Some("hi".to_string()));
    assert_eq!(
        file_from_gql_blob("x.md", None),
        Err("File not found: x.md".to_string())
    );
    let r = GqlRef { target: GqlRefTarget { oid: "abc".to_string() } };
    assert_eq!(branch_sha_from_gql("b", Some(r)), Ok("abc".to_string()));
    assert_eq!(branch_sha_from_gql("b", None), Err("Branch not found: b".to_string()));
    let refs = git_refs_from_nodes(vec![GqlRefNode {
        name: "x".to_string(),
        prefix: "refs/heads/editor/".to_string(),
        target: GqlRefTarget { oid: "1".to_string() },
    }]);
    assert_eq!(refs[0].ref_name, "refs/heads/editor/x");
    assert_eq!(refs[0].object.sha, "1");
}

fn te(path: &str, t: &str) -> TreeEntry {
    TreeEntry { path: path.to_string(), entry_type: t.to_string(), sha: "s".to_string(), size: Some(3) }
}

#[test]
fn tree_listings() {
    let tree = vec![
        te("content/blog/a.md", "blob"),
        te("content/blog/sub", "tree"),
        te("content/blog/sub/b.md", "blob"),
        te("content/other.md", "blob"),
        te("static/x.png", "blob"),
    ];
    let kids = direct_children("content/blog", &tree);
    let names: Vec<&str> = kids.iter().map(|e| e.name.as_str()).collect();
    assert_eq!(names, vec!["a.md", "sub"]);
    assert_eq!(kids[1].entry_type, "dir");
    let files = repo_files(&tree);
    let names: Vec<&str> = files.iter().map(|e| e.name.as_str()).collect();
    assert_eq!(names, vec!["a.md", "b.md", "other.md", "x.png"]);
    assert_eq!(files[3].path, "static/x.png");
    assert!(listing_is_capped(1000));
    assert!(!listing_is_capped(999));
}

#[test]
fn commits_and_saves() {
    let c = CommitInfo { commit: CommitDetail { committer: CommitAuthor { date: "2024-01-01".to_string() } } };
    assert_eq!(last_commit_date(&[c]), Ok("2024-01-01".to_string()));
    assert_eq!(last_commit_date(&[]), Err("No commits found".to_string()));
    assert_eq!(saved_sha(Some("x".to_string())), Ok("x".to_string()));
    assert_eq!(saved_sha(None), Err("Missing SHA in response".to_string()));
}

#[test]
fn base64_encoding_and_decoding() {
    assert_eq!(base64_of_bytes(b""), "");
    assert_eq!(base64_of_bytes(b"f"), "Zg==");
    assert_eq!(base64_of_bytes(b"fo"), "Zm8=");
    assert_eq!(base64_of_bytes(b"foo"), "Zm9v");
    assert_eq!(base64_of_text("héllo"), "aMOpbGxv");
    assert_eq!(base64_to_bytes("Zm9vYg=="), Ok(b"foob".to_vec()));
    assert!(base64_to_bytes("Zm9vYg=").is_err());
    assert_eq!(base64_to_bytes("ab$d"), Err("Invalid symbol 36, offset 2.".to_string()));
    assert!(base64_to_bytes("Zm9vYh==").is_err());
    assert_eq!(strip_whitespace(" a\nb\tc "), "abc");
    assert_eq!(text_of_bytes(&[0x68, 0xff, 0x69]), "h\u{fffd}i");
}

#[test]
fn github_content_round_trip() {
    let text = "+++\ntitle = \"é\"\n+++\nbody";
    let encoded = base64_of_text(text);
    let wrapped: String = encoded
        .chars()
        .enumerate()
        .flat_map(|(i, c)| if i % 4 == 3 { vec![c, '\n'] } else { vec![c] })
        .collect();
    assert_eq!(decode_github_content(&wrapped), text);
    assert_eq!(decode_github_content("not base64!"), "");
    assert_eq!(decode_file_bytes(Some("aGVs\nbG8=\n".to_string())), Ok(b"hello".to_vec()));
    assert_eq!(decode_file_bytes(None), Ok(Vec::new()));
    assert_eq!(decode_file_bytes(Some("***".to_string())), Err("Invalid symbol 42, offset 0.".to_string()));
    let fc = FileContent {
        name: "a".to_string(),
        path: "a".to_string(),
        sha: "s".to_string(),
        size: 5,
        content: Some("aGVsbG8=".to_string()),
        encoding: Some("base64".to_string()),
    };
    assert_eq!(decode_file_content(fc).content, Some("hello".to_string()));
}

#[test]
fn preview_images() {
    let html = r#"<img src="a.png"><img src="https://x/b.png"><img src="c/d.jpg">"#;
    let paths = image_fetch_paths(html, "content/blog/post/index.md");
    assert_eq!(
        paths,
        vec![
            ("a.png".to_string(), "content/blog/post/a.png".to_string()),
            ("c/d.jpg".to_string(), "content/blog/post/c/d.jpg".to_string()),
        ]
    );
    assert_eq!(image_fetch_paths("<img src=\"x.png\">", "top.md")[0].1, "x.png");
    let fetched = vec![
        ("a.png".to_string(), Some(b"hi".to_vec())),
        ("c/d.jpg".to_string(), None),
    ];
    assert_eq!(
        resolved_html(html, &fetched),
        r#"<img src="data:image/png;base64,aGk="><img src="https://x/b.png"><img src="c/d.jpg">"#
    );
    // the same image twice: the later fetch wins, as when collecting a map
    let twice = r#"<img src="a.png"><img src="a.png">"#;
    let fetched = vec![("a.png".to_string(), Some(b"hi".to_vec())), ("a.png".to_string(), None)];
    assert_eq!(resolved_html(twice, &fetched), twice);
    let fetched = vec![("a.png".to_string(), None), ("a.png".to_string(), Some(b"hi".to_vec()))];
    assert_eq!(
        resolved_html(twice, &fetched),
        r#"<img src="data:image/png;base64,aGk="><img src="data:image/png;base64,aGk=">"#
    );
}
