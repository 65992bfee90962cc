//! The GitHub REST and GraphQL response shapes that the editor works with.
//! They hold plain values; decoding them from JSON is the caller's concern.
use vstd::prelude::*;

verus! {

/// A single entry returned by the GitHub Contents API when listing a directory.
#[derive(Clone, Debug, PartialEq)]
pub struct ContentEntry {
    pub name: String,
    pub path: String,
    /// `"file"` or `"dir"` (the API's `type` field).
    pub entry_type: String,
    pub sha: String,
    pub size: u64,
    pub download_url: Option<String>,
}

/// A content entry as character sequences.
pub struct ContentEntryView {
    pub name: Seq<char>,
    pub path: Seq<char>,
    pub entry_type: Seq<char>,
    pub sha: Seq<char>,
    pub size: u64,
    pub download_url: Option<Seq<char>>,
}

/// The characters of an optional string.
pub open spec fn opt_view(s: Option<String>) -> Option<Seq<char>> {
    match s {
        Some(t) => Some(t@),
        None => None,
    }
}

impl View for ContentEntry {
    type V = ContentEntryView;

    open spec fn view(&self) -> ContentEntryView {
        ContentEntryView {
            name: self.name@,
            path: self.path@,
            entry_type: self.entry_type@,
            sha: self.sha@,
            size: self.size,
            download_url: opt_view(self.download_url),
        }
    }
}

/// Full file content returned by the GitHub Contents API when reading a single file.
#[derive(Clone, Debug, PartialEq)]
pub struct FileContent {
    pub name: String,
    pub path: String,
    pub sha: String,
    pub size: u64,
    pub content: Option<String>,
    pub encoding: Option<String>,
}

/// A git reference (branch pointer) from the Git Refs API.
#[derive(Clone, Debug)]
pub struct GitRef {
    /// The API's `ref` field, such as `refs/heads/editor/x`.
    pub ref_name: String,
    pub object: GitObject,
}

impl View for GitRef {
    type V = (Seq<char>, Seq<char>);

    /// The ref's name and the SHA it points to.
    open spec fn view(&self) -> (Seq<char>, Seq<char>) {
        (self.ref_name@, self.object.sha@)
    }
}

/// The object a git ref points to.
#[derive(Clone, Debug)]
pub struct GitObject {
    pub sha: String,
}

/// Response from the Git Trees API (`GET /repos/{owner}/{repo}/git/trees/{sha}`).
#[derive(Clone, Debug)]
pub struct TreeResponse {
    pub tree: Vec<TreeEntry>,
}

/// A single entry in a git tree.
#[derive(Clone, Debug)]
pub struct TreeEntry {
    pub path: String,
    /// `"blob"` or `"tree"` (the API's `type` field).
    pub entry_type: String,
    pub sha: String,
    pub size: Option<u64>,
}

/// Response from the GitHub Compare API (`GET /repos/{owner}/{repo}/compare/{base}...{head}`).
#[derive(Clone, Debug, PartialEq)]
pub struct CompareResponse {
    pub status: String,
    pub ahead_by: u32,
    pub total_commits: u32,
    pub files: Vec<DiffFile>,
}

/// A single file entry in a compare response.
#[derive(Clone, Debug, PartialEq)]
pub struct DiffFile {
    pub filename: String,
    pub status: String,
    pub additions: u32,
    pub deletions: u32,
    pub changes: u32,
    pub patch: Option<String>,
}

/// A commit from the GitHub Commits API (minimal fields for last-modified sorting).
#[derive(Clone, Debug)]
pub struct CommitInfo {
    pub commit: CommitDetail,
}

#[derive(Clone, Debug)]
pub struct CommitDetail {
    pub committer: CommitAuthor,
}

#[derive(Clone, Debug)]
pub struct CommitAuthor {
    pub date: String,
}

/// Response from the GitHub Check Runs API.
#[derive(Clone, Debug)]
pub struct CheckRunsResponse {
    pub check_runs: Vec<CheckRun>,
}

/// A single check run from the Check Runs API.
#[derive(Clone, Debug)]
pub struct CheckRun {
    pub status: String,
    pub conclusion: Option<String>,
    pub html_url: String,
}

// ── GraphQL types ────────────────────────────────────────────────

/// Generic GraphQL response envelope.
pub struct GraphQLResponse<T> {
    pub data: Option<T>,
    pub errors: Option<Vec<GraphQLError>>,
}

pub struct GraphQLError {
    pub message: String,
}

/// Response for a Tree query (list_contents).
pub struct GqlTreeData {
    pub repository: GqlRepoTree,
}

pub struct GqlRepoTree {
    pub object: Option<GqlTree>,
}

pub struct GqlTree {
    pub entries: Option<Vec<GqlTreeEntry>>,
}

pub struct GqlTreeEntry {
    pub name: String,
    /// `"tree"` for directories (the API's `type` field).
    pub entry_type: String,
    pub oid: String,
    pub object: Option<GqlEntryObject>,
}

pub struct GqlEntryObject {
    /// The API's `byteSize` field.
    pub byte_size: Option<u64>,
}

/// Response for a Blob query (get_file).
pub struct GqlBlobData {
    pub repository: GqlRepoBlob,
}

pub struct GqlRepoBlob {
    pub object: Option<GqlBlob>,
}

pub struct GqlBlob {
    pub text: Option<String>,
    pub oid: String,
    pub byte_size: u64,
}

/// Response for a ref query (get_branch_sha).
pub struct GqlRefData {
    pub repository: GqlRepoRef,
}

pub struct GqlRepoRef {
    /// The API's `ref` field.
    pub git_ref: Option<GqlRef>,
}

pub struct GqlRef {
    pub target: GqlRefTarget,
}

pub struct GqlRefTarget {
    pub oid: String,
}

/// Response for a batched ref + blob query.
pub struct GqlRefAndBlobData {
    pub repository: GqlRepoRefAndBlob,
}

pub struct GqlRepoRefAndBlob {
    pub git_ref: Option<GqlRef>,
    pub object: Option<GqlBlob>,
}

/// Response for a refs query (list_editor_branches).
pub struct GqlRefsData {
    pub repository: GqlRepoRefs,
}

pub struct GqlRepoRefs {
    pub refs: Option<GqlRefConnection>,
}

pub struct GqlRefConnection {
    pub nodes: Vec<GqlRefNode>,
}

pub struct GqlRefNode {
    pub name: String,
    pub prefix: String,
    pub target: GqlRefTarget,
}

// ── History query types ──────────────────────────────────────────

/// A commit entry returned by the history query for a specific file path.
#[derive(Clone, Debug, PartialEq)]
pub struct CommitSummary {
    pub sha: String,
    pub message: String,
    pub date: String,
    pub additions: u32,
    pub deletions: u32,
}

pub struct GqlHistoryData {
    pub repository: GqlRepoHistory,
}

pub struct GqlRepoHistory {
    pub git_ref: Option<GqlHistoryRef>,
}

pub struct GqlHistoryRef {
    pub target: GqlHistoryTarget,
}

pub struct GqlHistoryTarget {
    pub history: Option<GqlHistoryConnection>,
}

pub struct GqlHistoryConnection {
    pub nodes: Vec<GqlHistoryNode>,
}

pub struct GqlHistoryNode {
    pub oid: String,
    pub message: String,
    /// The API's `committedDate` field.
    pub committed_date: String,
    pub additions: u32,
    pub deletions: u32,
}

} // verus!
