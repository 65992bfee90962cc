//! The GitHub client's decisions: which endpoint each operation calls, how
//! a response status is answered, and how the API's answers become the
//! editor's entries, files and branches. Sending the requests is the
//! caller's part.
use vstd::prelude::*;
use crate::models::{
    CommitInfo, ContentEntry, ContentEntryView, FileContent, GitObject, GitRef, GqlBlob,
    GqlRef, GqlRefNode, GqlTree, GqlTreeEntry, GraphQLError, TreeEntry,
};
use crate::text::{
    after_last, chars_of, decimal, extend_chars, extend_str, push_decimal, string_from_chars,
};
use crate::encoding::{
    base64_decode, base64_encode, base64_error_text, base64_of_bytes, base64_of_text, base64_to_bytes, is_base64,
    law_base64_round_trip, law_lossy_text_of_utf8, lossy_text, strip_whitespace, strip_ws,
    text_of_bytes,
};
use crate::post::{
    bytes_to_data_url, data_url, dir_of, extract_relative_image_srcs, mime_of_path, pair_views,
    post_dir, relative_srcs, replace_image_srcs, replaced, collected, key_index,
    lemma_collected_distinct, lemma_collected_identity,
};
use vstd::utf8::encode_utf8;

verus! {

broadcast use vstd::string::group_string_axioms;

/// The GraphQL endpoint.
pub fn graphql_url() -> (url: &'static str)
    ensures
        url@ == "https://api.github.com/graphql"@,
{
    "https://api.github.com/graphql"
}

// ── The client ──────────────────────────────────────────────────

/// A GitHub client, authenticated when it holds a token.
pub struct GitHubClient {
    pub token: Option<String>,
}

/// The message of an operation that needs a token.
pub open spec fn auth_required_message() -> Seq<char> {
    "Authentication required for this operation"@
}

impl GitHubClient {
    /// A client that authenticates with `token`.
    pub fn new(token: String) -> (c: Self)
        ensures
            c.token == Some(token),
    {
        GitHubClient { token: Some(token) }
    }

    /// A client without a token.
    pub fn anonymous() -> (c: Self)
        ensures
            c.token is None,
    {
        GitHubClient { token: None }
    }

    /// The token, or the error of an operation that needs one.
    pub fn require_token(&self) -> (r: Result<&str, String>)
        ensures
            match self.token {
                Some(t) => r matches Ok(s) && s@ == t@,
                None => r matches Err(e) && e@ == auth_required_message(),
            },
    {
        match &self.token {
            Some(t) => Ok(t.as_str()),
            None => Err("Authentication required for this operation".to_string()),
        }
    }

    /// Authenticated clients read through GraphQL; anonymous ones through REST.
    pub fn is_authenticated(&self) -> (b: bool)
        ensures
            b == self.token is Some,
    {
        self.token.is_some()
    }

    /// The `Authorization` header value, when the client has a token.
    pub fn auth_header(&self) -> (h: Option<String>)
        ensures
            match self.token {
                Some(t) => h matches Some(v) && v@ == "Bearer "@ + t@,
                None => h is None,
            },
    {
        match &self.token {
            Some(t) => {
                let mut out: Vec<char> = Vec::new();
                extend_str(&mut out, "Bearer ");
                extend_str(&mut out, t.as_str());
                Some(string_from_chars(out.as_slice()))
            },
            None => None,
        }
    }
}

// ── Endpoints ───────────────────────────────────────────────────

/// The REST prefix of the repository.
pub open spec fn repo_api() -> Seq<char> {
    "https://api.github.com/repos/pop/pop.github.io"@
}

/// The given ref, or the default branch.
pub open spec fn ref_or_default(branch: Option<Seq<char>>) -> Seq<char> {
    match branch {
        Some(b) => b,
        None => "source"@,
    }
}

/// The given ref, or the default branch.
pub fn branch_or_default(branch: Option<&str>) -> (r: &str)
    ensures
        r@ == ref_or_default(
            match branch {
                Some(b) => Some(b@),
                None => None,
            },
        ),
{
    match branch {
        Some(b) => b,
        None => "source",
    }
}

/// The REST prefix of the repository followed by the given parts.
fn repo_url(a: &str, b: &str, c: &str, d: &str, e: &str) -> (url: String)
    ensures
        url@ == repo_api() + a@ + b@ + c@ + d@ + e@,
{
    let mut out: Vec<char> = Vec::new();
    extend_str(&mut out, "https://api.github.com/repos/pop/pop.github.io");
    extend_str(&mut out, a);
    extend_str(&mut out, b);
    extend_str(&mut out, c);
    extend_str(&mut out, d);
    extend_str(&mut out, e);
    string_from_chars(out.as_slice())
}

/// Contents of a path on a ref (REST).
pub fn contents_url(path: &str, git_ref: &str) -> (url: String)
    ensures
        url@ == repo_api() + "/contents/"@ + path@ + "?ref="@ + git_ref@,
{
    let url = repo_url("/contents/", path, "?ref=", git_ref, "");
    proof {
        reveal_strlit("");
    }
    url
}

/// The whole tree of a commit, recursively.
pub fn tree_url(sha: &str) -> (url: String)
    ensures
        url@ == repo_api() + "/git/trees/"@ + sha@ + "?recursive=1"@,
{
    let url = repo_url("/git/trees/", sha, "?recursive=1", "", "");
    proof {
        reveal_strlit("");
    }
    url
}

/// The ref of a branch.
pub fn branch_ref_url(branch: &str) -> (url: String)
    ensures
        url@ == repo_api() + "/git/ref/heads/"@ + branch@,
{
    let url = repo_url("/git/ref/heads/", branch, "", "", "");
    proof {
        reveal_strlit("");
    }
    url
}

/// Where new refs are created.
pub fn refs_url() -> (url: String)
    ensures
        url@ == repo_api() + "/git/refs"@,
{
    let url = repo_url("/git/refs", "", "", "", "");
    proof {
        reveal_strlit("");
    }
    url
}

/// The ref of a branch, for deleting it.
pub fn branch_refs_url(branch: &str) -> (url: String)
    ensures
        url@ == repo_api() + "/git/refs/heads/"@ + branch@,
{
    let url = repo_url("/git/refs/heads/", branch, "", "", "");
    proof {
        reveal_strlit("");
    }
    url
}

/// Where merges are requested.
pub fn merges_url() -> (url: String)
    ensures
        url@ == repo_api() + "/merges"@,
{
    let url = repo_url("/merges", "", "", "", "");
    proof {
        reveal_strlit("");
    }
    url
}

/// The comparison of two branches.
pub fn compare_url(base: &str, head: &str) -> (url: String)
    ensures
        url@ == repo_api() + "/compare/"@ + base@ + "..."@ + head@,
{
    let url = repo_url("/compare/", base, "...", head, "");
    proof {
        reveal_strlit("");
    }
    url
}

/// A file, for writing or deleting it.
pub fn file_url(path: &str) -> (url: String)
    ensures
        url@ == repo_api() + "/contents/"@ + path@,
{
    let url = repo_url("/contents/", path, "", "", "");
    proof {
        reveal_strlit("");
    }
    url
}

/// The editor branches (REST).
pub fn editor_branches_url() -> (url: String)
    ensures
        url@ == repo_api() + "/git/matching-refs/heads/editor/"@,
{
    let url = repo_url("/git/matching-refs/heads/editor/", "", "", "", "");
    proof {
        reveal_strlit("");
    }
    url
}

/// The last commit that touched a path on a ref.
pub fn last_commit_url(path: &str, git_ref: &str) -> (url: String)
    ensures
        url@ == repo_api() + "/commits?path="@ + path@ + "&sha="@ + git_ref@ + "&per_page=1"@,
{
    let url = repo_url("/commits?path=", path, "&sha=", git_ref, "&per_page=1");
    proof {
        reveal_strlit("");
    }
    url
}

/// The check runs of a ref.
pub fn check_runs_url(git_ref: &str) -> (url: String)
    ensures
        url@ == repo_api() + "/commits/"@ + git_ref@ + "/check-runs"@,
{
    let url = repo_url("/commits/", git_ref, "/check-runs", "", "");
    proof {
        reveal_strlit("");
    }
    url
}

/// The GraphQL expression of a path on a ref, `ref:path`.
pub fn object_expression(git_ref: &str, path: &str) -> (e: String)
    ensures
        e@ == git_ref@ + ":"@ + path@,
{
    let mut out: Vec<char> = Vec::new();
    extend_str(&mut out, git_ref);
    extend_str(&mut out, ":");
    extend_str(&mut out, path);
    string_from_chars(out.as_slice())
}

/// The fully qualified name of a branch.
pub fn qualified_branch(branch: &str) -> (q: String)
    ensures
        q@ == "refs/heads/"@ + branch@,
{
    let mut out: Vec<char> = Vec::new();
    extend_str(&mut out, "refs/heads/");
    extend_str(&mut out, branch);
    string_from_chars(out.as_slice())
}

// ── Response statuses ───────────────────────────────────────────

/// The message of a request the token was refused for.
pub open spec fn unauthorized_message() -> Seq<char> {
    "Unauthorized \u{2014} check your token"@
}

/// A message that ends with a status code.
pub open spec fn with_status(prefix: Seq<char>, status: u16) -> Seq<char> {
    prefix + decimal(status as nat)
}

/// A status outcome as character sequences.
pub open spec fn outcome_view(r: Result<(), String>) -> Result<(), Seq<char>> {
    match r {
        Ok(()) => Ok(()),
        Err(e) => Err(e@),
    }
}

/// How a read answers a status: 200 proceeds, 401 is refused, 404 gives
/// the operation's not-found message where it has one, and any other
/// status is an API error.
pub open spec fn read_outcome(status: u16, not_found: Option<Seq<char>>) -> Result<(), Seq<char>> {
    if status == 200 {
        Ok(())
    } else if status == 401 {
        Err(unauthorized_message())
    } else if status == 404 && not_found is Some {
        Err(not_found->0)
    } else {
        Err(with_status("GitHub API error: "@, status))
    }
}

/// The string `prefix` followed by the status code.
fn status_message(prefix: &str, status: u16) -> (m: String)
    ensures
        m@ == with_status(prefix@, status),
{
    let mut out: Vec<char> = Vec::new();
    extend_str(&mut out, prefix);
    push_decimal(&mut out, status as u128);
    string_from_chars(out.as_slice())
}

/// The refusal of a request for want of a valid token.
fn unauthorized() -> (m: String)
    ensures
        m@ == unauthorized_message(),
{
    "Unauthorized \u{2014} check your token".to_string()
}

/// Answers the status of a read.
pub fn read_status(status: u16, not_found: Option<String>) -> (r: Result<(), String>)
    ensures
        outcome_view(r) == read_outcome(
            status,
            crate::models::opt_view(not_found),
        ),
{
    if status == 200 {
        Ok(())
    } else if status == 401 {
        Err(unauthorized())
    } else if status == 404 && not_found.is_some() {
        match not_found {
            Some(m) => Err(m),
            None => Err(status_message("GitHub API error: ", status)),
        }
    } else {
        Err(status_message("GitHub API error: ", status))
    }
}

/// `prefix` followed by `name`.
fn message_with(prefix: &str, name: &str) -> (m: String)
    ensures
        m@ == prefix@ + name@,
{
    let mut out: Vec<char> = Vec::new();
    extend_str(&mut out, prefix);
    extend_str(&mut out, name);
    string_from_chars(out.as_slice())
}

/// The message of a directory that does not exist.
pub fn path_not_found(path: &str) -> (m: String)
    ensures
        m@ == "Path not found: "@ + path@,
{
    message_with("Path not found: ", path)
}

/// The message of a file that does not exist.
pub fn file_not_found(path: &str) -> (m: String)
    ensures
        m@ == "File not found: "@ + path@,
{
    message_with("File not found: ", path)
}

/// The message of a branch that does not exist.
pub fn branch_not_found(branch: &str) -> (m: String)
    ensures
        m@ == "Branch not found: "@ + branch@,
{
    message_with("Branch not found: ", branch)
}

/// The message of a ref that does not exist.
pub fn ref_not_found(git_ref: &str) -> (m: String)
    ensures
        m@ == "Ref not found: "@ + git_ref@,
{
    message_with("Ref not found: ", git_ref)
}

/// Creating a branch: 201 succeeds, 422 means it exists.
pub open spec fn create_branch_outcome(status: u16) -> Result<(), Seq<char>> {
    if status == 201 {
        Ok(())
    } else if status == 401 {
        Err(unauthorized_message())
    } else if status == 422 {
        Err("Branch already exists"@)
    } else {
        Err(with_status("Failed to create branch: "@, status))
    }
}

/// Answers the status of creating a branch.
pub fn create_branch_status(status: u16) -> (r: Result<(), String>)
    ensures
        outcome_view(r) == create_branch_outcome(status),
{
    if status == 201 {
        Ok(())
    } else if status == 401 {
        Err(unauthorized())
    } else if status == 422 {
        Err("Branch already exists".to_string())
    } else {
        Err(status_message("Failed to create branch: ", status))
    }
}

/// Deleting a branch: 204 succeeds.
pub open spec fn delete_branch_outcome(status: u16) -> Result<(), Seq<char>> {
    if status == 204 {
        Ok(())
    } else if status == 401 {
        Err(unauthorized_message())
    } else {
        Err(with_status("Failed to delete branch: "@, status))
    }
}

/// Answers the status of deleting a branch.
pub fn delete_branch_status(status: u16) -> (r: Result<(), String>)
    ensures
        outcome_view(r) == delete_branch_outcome(status),
{
    if status == 204 {
        Ok(())
    } else if status == 401 {
        Err(unauthorized())
    } else {
        Err(status_message("Failed to delete branch: ", status))
    }
}

/// Merging: 201 or 204 succeeds, 404 means a branch is missing, 409 a conflict.
pub open spec fn merge_outcome(status: u16) -> Result<(), Seq<char>> {
    if status == 201 || status == 204 {
        Ok(())
    } else if status == 401 {
        Err(unauthorized_message())
    } else if status == 404 {
        Err("Branch not found"@)
    } else if status == 409 {
        Err("Merge conflict \u{2014} resolve manually on GitHub"@)
    } else {
        Err(with_status("Failed to merge: "@, status))
    }
}

/// Answers the status of a merge.
pub fn merge_status(status: u16) -> (r: Result<(), String>)
    ensures
        outcome_view(r) == merge_outcome(status),
{
    if status == 201 || status == 204 {
        Ok(())
    } else if status == 401 {
        Err(unauthorized())
    } else if status == 404 {
        Err("Branch not found".to_string())
    } else if status == 409 {
        Err("Merge conflict \u{2014} resolve manually on GitHub".to_string())
    } else {
        Err(status_message("Failed to merge: ", status))
    }
}

/// Saving a file: 200 or 201 succeeds, 409 means it changed elsewhere.
pub open spec fn save_file_outcome(status: u16) -> Result<(), Seq<char>> {
    if status == 200 || status == 201 {
        Ok(())
    } else if status == 401 {
        Err(unauthorized_message())
    } else if status == 409 {
        Err("Conflict \u{2014} file was modified elsewhere"@)
    } else {
        Err(with_status("Failed to save file: "@, status))
    }
}

/// Answers the status of saving a file.
pub fn save_file_status(status: u16) -> (r: Result<(), String>)
    ensures
        outcome_view(r) == save_file_outcome(status),
{
    if status == 200 || status == 201 {
        Ok(())
    } else if status == 401 {
        Err(unauthorized())
    } else if status == 409 {
        Err("Conflict \u{2014} file was modified elsewhere".to_string())
    } else {
        Err(status_message("Failed to save file: ", status))
    }
}

/// Deleting a file: 200 succeeds.
pub open spec fn delete_file_outcome(status: u16) -> Result<(), Seq<char>> {
    if status == 200 {
        Ok(())
    } else if status == 401 {
        Err(unauthorized_message())
    } else {
        Err(with_status("Failed to delete file: "@, status))
    }
}

/// Answers the status of deleting a file.
pub fn delete_file_status(status: u16) -> (r: Result<(), String>)
    ensures
        outcome_view(r) == delete_file_outcome(status),
{
    if status == 200 {
        Ok(())
    } else if status == 401 {
        Err(unauthorized())
    } else {
        Err(status_message("Failed to delete file: ", status))
    }
}

/// Uploading an image: 200 or 201 succeeds, 409 means one is there already.
pub open spec fn upload_outcome(status: u16) -> Result<(), Seq<char>> {
    if status == 200 || status == 201 {
        Ok(())
    } else if status == 401 {
        Err(unauthorized_message())
    } else if status == 409 {
        Err("Conflict \u{2014} image already exists at this path"@)
    } else {
        Err(with_status("Failed to upload image: "@, status))
    }
}

/// Answers the status of an image upload.
pub fn upload_status(status: u16) -> (r: Result<(), String>)
    ensures
        outcome_view(r) == upload_outcome(status),
{
    if status == 200 || status == 201 {
        Ok(())
    } else if status == 401 {
        Err(unauthorized())
    } else if status == 409 {
        Err("Conflict \u{2014} image already exists at this path".to_string())
    } else {
        Err(status_message("Failed to upload image: ", status))
    }
}

/// A GraphQL request is refused on 401; its body is read otherwise.
pub fn graphql_status(status: u16) -> (r: Result<(), String>)
    ensures
        status == 401 ==> (r matches Err(e) && e@ == unauthorized_message()),
        status != 401 ==> r is Ok,
{
    if status == 401 {
        Err(unauthorized())
    } else {
        Ok(())
    }
}

// ── GraphQL answers ─────────────────────────────────────────────

/// Messages joined by `"; "`.
pub open spec fn joined_messages(ms: Seq<Seq<char>>) -> Seq<char>
    decreases ms.len(),
{
    if ms.len() == 0 {
        seq![]
    } else if ms.len() == 1 {
        ms[0]
    } else {
        joined_messages(ms.drop_last()) + "; "@ + ms.last()
    }
}

/// The messages of GraphQL errors.
pub open spec fn error_messages(es: Seq<GraphQLError>) -> Seq<Seq<char>> {
    es.map_values(|e: GraphQLError| e.message@)
}

/// The data of a GraphQL response: its errors, joined, when it reports
/// any, else its data, which it must hold.
pub fn graphql_outcome<T>(data: Option<T>, errors: Option<Vec<GraphQLError>>) -> (r: Result<T, String>)
    ensures
        match errors {
            Some(es) => r matches Err(e) && e@ == joined_messages(error_messages(es@)),
            None => match data {
                Some(d) => r == Ok::<T, String>(d),
                None => r matches Err(e) && e@ == "No data in GraphQL response"@,
            },
        },
{
    match errors {
        Some(es) => {
            let ghost ms = error_messages(es@);
            let mut out: Vec<char> = Vec::new();
            let mut i: usize = 0;
            while i < es.len()
                invariant
                    i <= es.len(),
                    ms == error_messages(es@),
                    out@ == joined_messages(ms.take(i as int)),
                decreases es.len() - i,
            {
                proof {
                    assert(ms.take(i + 1).drop_last() =~= ms.take(i as int));
                    assert(ms.take(i + 1).last() == es@[i as int].message@);
                }
                if i > 0 {
                    extend_str(&mut out, "; ");
                } else {
                    assert(ms.take(1) =~= seq![es@[0].message@]);
                }
                extend_str(&mut out, es[i].message.as_str());
                i = i + 1;
            }
            assert(ms.take(es.len() as int) =~= ms);
            Err(string_from_chars(out.as_slice()))
        },
        None => match data {
            Some(d) => Ok(d),
            None => Err("No data in GraphQL response".to_string()),
        },
    }
}

/// `"dir"` for a tree, `"file"` for anything else.
pub open spec fn entry_kind(t: Seq<char>) -> Seq<char> {
    if t == "tree"@ {
        "dir"@
    } else {
        "file"@
    }
}

/// `"dir"` for a tree, `"file"` for anything else.
fn entry_kind_exec(t: &str) -> (k: String)
    ensures
        k@ == entry_kind(t@),
{
    let cs = chars_of(t);
    let tree = chars_of("tree");
    if crate::text::chars_eq(cs.as_slice(), tree.as_slice()) {
        "dir".to_string()
    } else {
        "file".to_string()
    }
}

/// A path inside a directory: the name alone at the top level.
pub open spec fn dir_join(dir: Seq<char>, name: Seq<char>) -> Seq<char> {
    if dir.len() == 0 {
        name
    } else {
        dir + "/"@ + name
    }
}

/// A path inside a directory: the name alone at the top level.
pub fn join_dir(dir: &str, name: &str) -> (p: String)
    ensures
        p@ == dir_join(dir@, name@),
{
    let d = chars_of(dir);
    let mut out: Vec<char> = Vec::new();
    if d.len() > 0 {
        extend_str(&mut out, dir);
        extend_str(&mut out, "/");
    }
    extend_str(&mut out, name);
    string_from_chars(out.as_slice())
}

/// The entry that a GraphQL tree entry of directory `path` stands for.
pub open spec fn gql_entry_view(path: Seq<char>, e: GqlTreeEntry) -> ContentEntryView {
    ContentEntryView {
        name: e.name@,
        path: dir_join(path, e.name@),
        entry_type: entry_kind(e.entry_type@),
        sha: e.oid@,
        size: match e.object {
            Some(o) => match o.byte_size {
                Some(n) => n,
                None => 0,
            },
            None => 0,
        },
        download_url: None,
    }
}

/// The entries of a directory from the GraphQL tree object found at `path`:
/// a missing object means the path does not exist.
pub fn entries_from_gql_tree(path: &str, object: Option<GqlTree>) -> (r: Result<Vec<ContentEntry>, String>)
    ensures
        match object {
            None => r matches Err(e) && e@ == "Path not found: "@ + path@,
            Some(t) => r matches Ok(v) && v@.map_values(|c: ContentEntry| c@) == (match t.entries {
                Some(es) => es@.map_values(|e: GqlTreeEntry| gql_entry_view(path@, e)),
                None => Seq::<ContentEntryView>::empty(),
            }),
        },
{
    match object {
        None => Err(path_not_found(path)),
        Some(tree) => {
            let entries = match tree.entries {
                Some(es) => es,
                None => Vec::new(),
            };
            let ghost target = entries@.map_values(|e: GqlTreeEntry| gql_entry_view(path@, e));
            let mut out: Vec<ContentEntry> = Vec::new();
            let mut i: usize = 0;
            while i < entries.len()
                invariant
                    i <= entries.len(),
                    target == entries@.map_values(|e: GqlTreeEntry| gql_entry_view(path@, e)),
                    out@.map_values(|c: ContentEntry| c@) == target.take(i as int),
                decreases entries.len() - i,
            {
                let e = &entries[i];
                let size: u64 = match &e.object {
                    Some(o) => match o.byte_size {
                        Some(n) => n,
                        None => 0,
                    },
                    None => 0,
                };
                let entry = ContentEntry {
                    name: e.name.clone(),
                    path: join_dir(path, e.name.as_str()),
                    entry_type: entry_kind_exec(e.entry_type.as_str()),
                    sha: e.oid.clone(),
                    size,
                    download_url: None,
                };
                let ghost before = out@.map_values(|c: ContentEntry| c@);
                out.push(entry);
                assert(out@.map_values(|c: ContentEntry| c@) =~= before.push(entry@));
                assert(entry@ == target[i as int]);
                assert(target.take(i + 1) =~= target.take(i as int).push(target[i as int]));
                i = i + 1;
            }
            assert(target.take(entries.len() as int) =~= target);
            Ok(out)
        },
    }
}

/// The file found by a GraphQL blob query at `path`: named by the last
/// part of the path, or missing.
pub fn file_from_gql_blob(path: &str, object: Option<GqlBlob>) -> (r: Result<FileContent, String>)
    ensures
        match object {
            None => r matches Err(e) && e@ == "File not found: "@ + path@,
            Some(b) => r matches Ok(f) && f.name@ == after_last(path@, '/') && f.path@ == path@
                && f.sha == b.oid && f.size == b.byte_size && f.content == b.text
                && f.encoding is None,
        },
{
    match object {
        None => Err(file_not_found(path)),
        Some(blob) => Ok(
            FileContent {
                name: last_segment(path),
                path: path.to_string(),
                sha: blob.oid,
                size: blob.byte_size,
                content: blob.text,
                encoding: None,
            },
        ),
    }
}

/// What follows the last `/` of a path, or the whole path.
pub fn last_segment(path: &str) -> (name: String)
    ensures
        name@ == after_last(path@, '/'),
{
    let cs = chars_of(path);
    let start = match crate::text::last_index_of_exec(cs.as_slice(), '/') {
        Some(i) => i + 1,
        None => 0,
    };
    let tail = crate::text::slice_chars(cs.as_slice(), start, cs.len());
    assert(tail@ =~= after_last(path@, '/'));
    string_from_chars(tail.as_slice())
}

/// The SHA a GraphQL ref query found for `branch`, or that it does not exist.
pub fn branch_sha_from_gql(branch: &str, git_ref: Option<GqlRef>) -> (r: Result<String, String>)
    ensures
        match git_ref {
            Some(g) => r == Ok::<String, String>(g.target.oid),
            None => r matches Err(e) && e@ == "Branch not found: "@ + branch@,
        },
{
    match git_ref {
        Some(g) => Ok(g.target.oid),
        None => Err(branch_not_found(branch)),
    }
}

/// A GraphQL ref node as a git ref: its prefix and name make the ref's name.
pub open spec fn node_ref_view(n: GqlRefNode) -> (Seq<char>, Seq<char>) {
    (n.prefix@ + n.name@, n.target.oid@)
}

/// The editor branches from the nodes of a GraphQL refs query.
pub fn git_refs_from_nodes(nodes: Vec<GqlRefNode>) -> (refs: Vec<GitRef>)
    ensures
        refs@.map_values(|g: GitRef| g@) == nodes@.map_values(|n: GqlRefNode| node_ref_view(n)),
{
    let ghost target = nodes@.map_values(|n: GqlRefNode| node_ref_view(n));
    let mut out: Vec<GitRef> = Vec::new();
    let mut i: usize = 0;
    while i < nodes.len()
        invariant
            i <= nodes.len(),
            target == nodes@.map_values(|n: GqlRefNode| node_ref_view(n)),
            out@.map_values(|g: GitRef| g@) == target.take(i as int),
        decreases nodes.len() - i,
    {
        let n = &nodes[i];
        let g = GitRef {
            ref_name: message_with(n.prefix.as_str(), n.name.as_str()),
            object: GitObject { sha: n.target.oid.clone() },
        };
        let ghost before = out@.map_values(|g: GitRef| g@);
        out.push(g);
        assert(out@.map_values(|g: GitRef| g@) =~= before.push(g@));
        assert(target.take(i + 1) =~= target.take(i as int).push(target[i as int]));
        i = i + 1;
    }
    assert(target.take(nodes.len() as int) =~= target);
    out
}

// ── REST answers ────────────────────────────────────────────────

/// The Contents API caps a listing at a thousand entries; a listing that
/// reaches the cap is read again from the tree.
pub fn listing_is_capped(count: usize) -> (b: bool)
    ensures
        b == (count >= 1000),
{
    count >= 1000
}

/// The entry of a direct child of the directory whose paths begin with
/// `prefix` (the directory and a `/`), or none for anything deeper or outside.
pub open spec fn child_view(prefix: Seq<char>, te: TreeEntry) -> Option<ContentEntryView> {
    if crate::text::starts_with(te.path@, prefix) && !crate::text::contains_char(
        te.path@.skip(prefix.len() as int),
        '/',
    ) {
        Some(
            ContentEntryView {
                name: te.path@.skip(prefix.len() as int),
                path: te.path@,
                entry_type: entry_kind(te.entry_type@),
                sha: te.sha@,
                size: match te.size {
                    Some(n) => n,
                    None => 0,
                },
                download_url: None,
            },
        )
    } else {
        None
    }
}

/// The direct children among the entries of a recursive tree, in order.
pub open spec fn children_view(prefix: Seq<char>, tree: Seq<TreeEntry>) -> Seq<ContentEntryView>
    decreases tree.len(),
{
    if tree.len() == 0 {
        seq![]
    } else {
        let rest = children_view(prefix, tree.drop_last());
        match child_view(prefix, tree.last()) {
            Some(c) => rest.push(c),
            None => rest,
        }
    }
}

/// The entries of directory `path` among those of a recursive tree: those
/// right below it, named by what follows the directory's path.
pub fn direct_children(path: &str, tree: &[TreeEntry]) -> (entries: Vec<ContentEntry>)
    ensures
        entries@.map_values(|c: ContentEntry| c@) == children_view(path@ + "/"@, tree@),
{
    let mut prefix: Vec<char> = Vec::new();
    extend_str(&mut prefix, path);
    extend_str(&mut prefix, "/");
    let mut out: Vec<ContentEntry> = Vec::new();
    let mut i: usize = 0;
    while i < tree.len()
        invariant
            i <= tree.len(),
            prefix@ == path@ + "/"@,
            out@.map_values(|c: ContentEntry| c@) == children_view(prefix@, tree@.take(i as int)),
        decreases tree.len() - i,
    {
        let te = &tree[i];
        proof {
            assert(tree@.take(i + 1).drop_last() =~= tree@.take(i as int));
            assert(tree@.take(i + 1).last() == tree@[i as int]);
        }
        let p = chars_of(te.path.as_str());
        if crate::text::starts_with_exec(p.as_slice(), prefix.as_slice()) {
            let rel = crate::text::slice_chars(p.as_slice(), prefix.len(), p.len());
            assert(rel@ =~= te.path@.skip(prefix@.len() as int));
            if !crate::text::contains_char_exec(rel.as_slice(), '/') {
                let entry = ContentEntry {
                    name: string_from_chars(rel.as_slice()),
                    path: te.path.clone(),
                    entry_type: entry_kind_exec(te.entry_type.as_str()),
                    sha: te.sha.clone(),
                    size: match te.size {
                        Some(n) => n,
                        None => 0,
                    },
                    download_url: None,
                };
                let ghost before = out@.map_values(|c: ContentEntry| c@);
                out.push(entry);
                assert(out@.map_values(|c: ContentEntry| c@) =~= before.push(entry@));
            }
        }
        i = i + 1;
    }
    assert(tree@.take(tree.len() as int) =~= tree@);
    out
}

/// A blob of the tree is one of the repository's files.
pub open spec fn is_repo_file(te: TreeEntry) -> bool {
    te.entry_type@ == "blob"@
}

/// The entry of a repository file: named by the last part of its path.
pub open spec fn file_entry_view(te: TreeEntry) -> ContentEntryView {
    ContentEntryView {
        name: after_last(te.path@, '/'),
        path: te.path@,
        entry_type: "file"@,
        sha: te.sha@,
        size: match te.size {
            Some(n) => n,
            None => 0,
        },
        download_url: None,
    }
}

/// The files (blobs) among the entries of a recursive tree, in order.
pub open spec fn repo_files_view(tree: Seq<TreeEntry>) -> Seq<ContentEntryView>
    decreases tree.len(),
{
    if tree.len() == 0 {
        seq![]
    } else {
        let rest = repo_files_view(tree.drop_last());
        if is_repo_file(tree.last()) {
            rest.push(file_entry_view(tree.last()))
        } else {
            rest
        }
    }
}

/// Every file of the repository: the blobs of a recursive tree, in order.
pub fn repo_files(tree: &[TreeEntry]) -> (entries: Vec<ContentEntry>)
    ensures
        entries@.map_values(|c: ContentEntry| c@) == repo_files_view(tree@),
{
    let blob = chars_of("blob");
    let mut out: Vec<ContentEntry> = Vec::new();
    let mut i: usize = 0;
    while i < tree.len()
        invariant
            i <= tree.len(),
            blob@ == "blob"@,
            out@.map_values(|c: ContentEntry| c@) == repo_files_view(tree@.take(i as int)),
        decreases tree.len() - i,
    {
        let te = &tree[i];
        proof {
            assert(tree@.take(i + 1).drop_last() =~= tree@.take(i as int));
            assert(tree@.take(i + 1).last() == tree@[i as int]);
        }
        let t = chars_of(te.entry_type.as_str());
        if crate::text::chars_eq(t.as_slice(), blob.as_slice()) {
            let entry = ContentEntry {
                name: last_segment(te.path.as_str()),
                path: te.path.clone(),
                entry_type: "file".to_string(),
                sha: te.sha.clone(),
                size: match te.size {
                    Some(n) => n,
                    None => 0,
                },
                download_url: None,
            };
            let ghost before = out@.map_values(|c: ContentEntry| c@);
            out.push(entry);
            assert(out@.map_values(|c: ContentEntry| c@) =~= before.push(entry@));
        }
        i = i + 1;
    }
    assert(tree@.take(tree.len() as int) =~= tree@);
    out
}

/// The date of the last commit that touched a path: that of the first
/// commit listed.
pub fn last_commit_date(commits: &[CommitInfo]) -> (r: Result<String, String>)
    ensures
        commits.len() > 0 ==> r == Ok::<String, String>(commits@[0].commit.committer.date),
        commits.len() == 0 ==> (r matches Err(e) && e@ == "No commits found"@),
{
    if commits.len() > 0 {
        Ok(commits[0].commit.committer.date.clone())
    } else {
        Err("No commits found".to_string())
    }
}

/// The SHA of a saved file, which the response must hold.
pub fn saved_sha(sha: Option<String>) -> (r: Result<String, String>)
    ensures
        match sha {
            Some(s) => r == Ok::<String, String>(s),
            None => r matches Err(e) && e@ == "Missing SHA in response"@,
        },
{
    match sha {
        Some(s) => Ok(s),
        None => Err("Missing SHA in response".to_string()),
    }
}

// ── File contents ───────────────────────────────────────────────

/// The text of a file whose content the REST API sent as base64 with line
/// breaks: the decoded bytes read as UTF-8 (lossily), or nothing when the
/// text, without its whitespace, is no base64.
pub open spec fn decoded_text(encoded: Seq<char>) -> Seq<char> {
    let cleaned = strip_ws(encoded);
    if is_base64(cleaned) {
        lossy_text(base64_decode(cleaned))
    } else {
        seq![]
    }
}

/// Decodes base64 file content from the GitHub REST API (which includes newlines).
pub fn decode_github_content(encoded: &str) -> (text: String)
    ensures
        text@ == decoded_text(encoded@),
{
    let cleaned = strip_whitespace(encoded);
    match base64_to_bytes(cleaned.as_str()) {
        Ok(bytes) => text_of_bytes(bytes.as_slice()),
        Err(_) => String::new(),
    }
}

/// The bytes of a file whose content the REST API sent as base64: the
/// content, without its whitespace, must be base64 (no content is empty),
/// else the base64 crate's error text is returned.
pub fn decode_file_bytes(content: Option<String>) -> (r: Result<Vec<u8>, String>)
    ensures
        ({
            let cleaned = strip_ws(
                match content {
                    Some(c) => c@,
                    None => Seq::<char>::empty(),
                },
            );
            &&& r is Ok <==> is_base64(cleaned)
            &&& r matches Ok(v) ==> v@ == base64_decode(cleaned)
            &&& r matches Err(e) ==> e@ == base64_error_text(cleaned)
        }),
{
    let encoded = match content {
        Some(c) => c,
        None => String::new(),
    };
    let cleaned = strip_whitespace(encoded.as_str());
    base64_to_bytes(cleaned.as_str())
}

/// A file read through REST, with its base64 content decoded to text.
pub fn decode_file_content(file: FileContent) -> (decoded: FileContent)
    ensures
        decoded.name == file.name,
        decoded.path == file.path,
        decoded.sha == file.sha,
        decoded.size == file.size,
        decoded.encoding == file.encoding,
        match file.content {
            Some(c) => decoded.content matches Some(t) && t@ == decoded_text(c@),
            None => decoded.content is None,
        },
{
    let content = match &file.content {
        Some(c) => Some(decode_github_content(c.as_str())),
        None => None,
    };
    FileContent { content, ..file }
}

/// What a file's text is saved as: the base64 of its UTF-8 bytes.
pub fn encode_file_text(content: &str) -> (encoded: String)
    ensures
        encoded@ == base64_encode(encode_utf8(content@)),
{
    base64_of_text(content)
}

/// What a binary file is uploaded as: the base64 of its bytes.
pub fn encode_file_bytes(data: &[u8]) -> (encoded: String)
    ensures
        encoded@ == base64_encode(data@),
{
    base64_of_bytes(data)
}

/// A text saved through the Contents API reads back unchanged, whatever
/// whitespace (such as the API's line breaks) was put into the base64.
pub proof fn law_saved_text_reads_back(text: Seq<char>, encoded: Seq<char>)
    requires
        strip_ws(encoded) == base64_encode(encode_utf8(text)),
    ensures
        decoded_text(encoded) == text,
{
    law_base64_round_trip(encode_utf8(text), encoded);
    law_lossy_text_of_utf8(text);
}

/// Bytes uploaded through the Contents API read back unchanged, whatever
/// whitespace was put into the base64.
pub proof fn law_uploaded_bytes_read_back(data: Seq<u8>, encoded: Seq<char>)
    requires
        strip_ws(encoded) == base64_encode(data),
    ensures
        is_base64(strip_ws(encoded)),
        base64_decode(strip_ws(encoded)) == data,
{
    law_base64_round_trip(data, encoded);
}

// ── Images of a preview ─────────────────────────────────────────

/// The repository path of each relative image of `html`, resolved against
/// the directory of the post at `post_path`, with the source it came from.
pub fn image_fetch_paths(html: &str, post_path: &str) -> (paths: Vec<(String, String)>)
    ensures
        paths@.len() == relative_srcs(html@).len(),
        forall|i: int|
            0 <= i < paths@.len() ==> #[trigger] paths@[i].0@ == relative_srcs(html@)[i]
                && paths@[i].1@ == dir_join(dir_of(post_path@), relative_srcs(html@)[i]),
{
    let srcs = extract_relative_image_srcs(html);
    let dir = post_dir(post_path);
    let ghost views = srcs@.map_values(|s: String| s@);
    let mut out: Vec<(String, String)> = Vec::new();
    let mut i: usize = 0;
    while i < srcs.len()
        invariant
            i <= srcs.len(),
            views == srcs@.map_values(|s: String| s@),
            views == relative_srcs(html@),
            dir@ == dir_of(post_path@),
            out@.len() == i,
            forall|j: int|
                0 <= j < i ==> #[trigger] out@[j].0@ == views[j] && out@[j].1@ == dir_join(
                    dir@,
                    views[j],
                ),
        decreases srcs.len() - i,
    {
        let src = srcs[i].clone();
        let repo_path = join_dir(dir, srcs[i].as_str());
        out.push((src, repo_path));
        i = i + 1;
    }
    out
}

/// The replacement that a fetched image gives its source: a `data:` URL of
/// its bytes, or the source itself when it could not be fetched.
pub open spec fn fetched_pair(f: (String, Option<Vec<u8>>)) -> (Seq<char>, Seq<char>) {
    match f.1 {
        Some(bytes) => (f.0@, data_url(mime_of_path(f.0@), base64_encode(bytes@))),
        None => (f.0@, f.0@),
    }
}

/// The fetched images as the map of replacements they are collected into:
/// each source with its `data:` URL, or with itself when it could not be
/// fetched; a later fetch of the same source replaces an earlier one.
pub open spec fn fetched_map(fetched: Seq<(String, Option<Vec<u8>>)>) -> Seq<(Seq<char>, Seq<char>)> {
    collected(fetched.map_values(|f: (String, Option<Vec<u8>>)| fetched_pair(f)))
}

/// The HTML of a preview with each fetched image inlined as a `data:` URL;
/// images that could not be fetched keep their relative source.
pub fn resolved_html(html: &str, fetched: &[(String, Option<Vec<u8>>)]) -> (out: String)
    ensures
        out@ == replaced(html@, fetched_map(fetched@)),
{
    let ghost target = fetched@.map_values(|f: (String, Option<Vec<u8>>)| fetched_pair(f));
    let mut pairs: Vec<(String, String)> = Vec::new();
    let mut i: usize = 0;
    while i < fetched.len()
        invariant
            i <= fetched.len(),
            target == fetched@.map_values(|f: (String, Option<Vec<u8>>)| fetched_pair(f)),
            pair_views(pairs@) == collected(target.take(i as int)),
        decreases fetched.len() - i,
    {
        let src = &fetched[i].0;
        let replacement = match &fetched[i].1 {
            Some(bytes) => bytes_to_data_url(bytes.as_slice(), src.as_str()),
            None => src.clone(),
        };
        let ghost before = pair_views(pairs@);
        assert(target.take(i + 1).drop_last() =~= target.take(i as int));
        assert(target.take(i + 1).last() == target[i as int]);
        proof {
            crate::post::lemma_index_of_key(before, src@);
        }
        match key_index(pairs.as_slice(), src.as_str()) {
            Some(k) => {
                pairs.set(k, (src.clone(), replacement));
                assert(pair_views(pairs@) =~= before.update(k as int, target[i as int]));
            },
            None => {
                pairs.push((src.clone(), replacement));
                assert(pair_views(pairs@) =~= before.push(target[i as int]));
            },
        }
        i = i + 1;
    }
    assert(target.take(fetched.len() as int) =~= target);
    proof {
        lemma_collected_distinct(target);
    }
    replace_image_srcs(html, pairs.as_slice())
}

/// In a preview each source is replaced as its last fetch says: by the
/// `data:` URL of the bytes fetched, or by itself when that fetch failed;
/// a source that was not fetched is left alone.
pub proof fn law_source_follows_its_last_fetch(fetched: Seq<(String, Option<Vec<u8>>)>, src: Seq<char>)
    ensures
        crate::post::lookup(fetched_map(fetched), src) == crate::post::last_value(
            fetched.map_values(|f: (String, Option<Vec<u8>>)| fetched_pair(f)),
            src,
        ),
{
    crate::post::law_collected_keeps_last(
        fetched.map_values(|f: (String, Option<Vec<u8>>)| fetched_pair(f)),
        src,
    );
}

/// A preview whose images could not be fetched (or that has none) is the
/// rendered HTML itself: every source keeps its relative `src`.
pub proof fn law_unfetched_images_keep_html(html: Seq<char>, fetched: Seq<(String, Option<Vec<u8>>)>)
    requires
        forall|i: int| 0 <= i < fetched.len() ==> (#[trigger] fetched[i]).1 is None,
    ensures
        replaced(html, fetched_map(fetched)) == html,
{
    let ps = fetched.map_values(|f: (String, Option<Vec<u8>>)| fetched_pair(f));
    assert forall|i: int| 0 <= i < ps.len() implies #[trigger] ps[i].0 == ps[i].1 by {
        assert(fetched[i].1 is None);
    }
    lemma_collected_identity(ps);
    crate::post::law_replace_identity_pairs(html, collected(ps));
}

} // verus!
