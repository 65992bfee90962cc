//! The dashboard's decisions: post and CI status, which entries show and in
//! what order, the caches' keys, breadcrumbs, branches and the diff panel.
use vstd::prelude::*;
use crate::compress::lower_extension;
use crate::models::{CheckRun, ContentEntry, ContentEntryView, DiffFile, GitRef};
use crate::text::{
    chars_eq, chars_of, contains_char, ends_with, last_index_of, ends_with_exec, extend_str, find,
    find_from_exec, starts_with, starts_with_exec, string_from_chars, to_lowercase,
    unicode_lowercase, all_ascii,
};

verus! {

broadcast use vstd::string::group_string_axioms;

// ── Post status ─────────────────────────────────────────────────

/// Whether a post is a draft, published, or has no frontmatter at all.
#[derive(Clone, Copy, Debug, PartialEq, Eq, Structural)]
pub enum PostStatus {
    Draft,
    Published,
    NoFrontmatter,
}

/// The value of the first field named `draft`, if any.
pub open spec fn draft_value(fields: Seq<(Seq<char>, Seq<char>)>) -> Option<Seq<char>>
    decreases fields.len(),
{
    if fields.len() == 0 {
        None
    } else if fields[0].0 == "draft"@ {
        Some(fields[0].1)
    } else {
        draft_value(fields.drop_first())
    }
}

/// The fields as character sequences.
pub open spec fn field_views(fields: Seq<(String, String)>) -> Seq<(Seq<char>, Seq<char>)> {
    fields.map_values(|f: (String, String)| (f.0@, f.1@))
}

/// A post with frontmatter is a draft when its first `draft` field is `true`.
pub open spec fn status_of(has_frontmatter: bool, fields: Seq<(Seq<char>, Seq<char>)>) -> PostStatus {
    if !has_frontmatter {
        PostStatus::NoFrontmatter
    } else if draft_value(fields) == Some("true"@) {
        PostStatus::Draft
    } else {
        PostStatus::Published
    }
}

proof fn lemma_draft_value_skip(fields: Seq<(Seq<char>, Seq<char>)>, i: int)
    requires
        0 <= i <= fields.len(),
        forall|j: int| 0 <= j < i ==> fields[j].0 != "draft"@,
    ensures
        draft_value(fields) == draft_value(fields.skip(i)),
    decreases i,
{
    if i > 0 {
        lemma_draft_value_skip(fields.drop_first(), i - 1);
        assert(fields.drop_first().skip(i - 1) =~= fields.skip(i));
    } else {
        assert(fields.skip(0) =~= fields);
    }
}

/// Whether the characters of `s` spell the literal `lit`.
fn is_lit(s: &str, lit: &str) -> (b: bool)
    ensures
        b == (s@ == lit@),
{
    let a = chars_of(s);
    let l = chars_of(lit);
    chars_eq(a.as_slice(), l.as_slice())
}

/// The status of a post from whether it has frontmatter and its fields.
pub fn status_from_fields(has_frontmatter: bool, fields: &[(String, String)]) -> (s: PostStatus)
    ensures
        s == status_of(has_frontmatter, field_views(fields@)),
{
    if !has_frontmatter {
        return PostStatus::NoFrontmatter;
    }
    let ghost fv = field_views(fields@);
    let mut i: usize = 0;
    while i < fields.len()
        invariant
            has_frontmatter,
            i <= fields.len(),
            fv == field_views(fields@),
            forall|j: int| 0 <= j < i ==> fv[j].0 != "draft"@,
        decreases fields.len() - i,
    {
        assert(fv[i as int] == (fields@[i as int].0@, fields@[i as int].1@));
        if is_lit(fields[i].0.as_str(), "draft") {
            proof {
                lemma_draft_value_skip(fv, i as int);
                assert(fv.skip(i as int)[0] == fv[i as int]);
            }
            if is_lit(fields[i].1.as_str(), "true") {
                return PostStatus::Draft;
            } else {
                return PostStatus::Published;
            }
        }
        i = i + 1;
    }
    proof {
        lemma_draft_value_skip(fv, fields.len() as int);
        assert(fv.skip(fields.len() as int).len() == 0);
    }
    PostStatus::Published
}

/// A folder's post is a draft when any of its fields says `draft = true`.
pub open spec fn folder_status_of(has_frontmatter: bool, fields: Seq<(Seq<char>, Seq<char>)>) -> PostStatus {
    if !has_frontmatter {
        PostStatus::NoFrontmatter
    } else if exists|i: int| 0 <= i < fields.len() && #[trigger] fields[i] == ("draft"@, "true"@) {
        PostStatus::Draft
    } else {
        PostStatus::Published
    }
}

/// The status shown on a folder whose single post has these fields: any
/// file with frontmatter that is not explicitly a draft counts as published.
pub fn folder_status_from_fields(has_frontmatter: bool, fields: &[(String, String)]) -> (s: PostStatus)
    ensures
        s == folder_status_of(has_frontmatter, field_views(fields@)),
{
    if !has_frontmatter {
        return PostStatus::NoFrontmatter;
    }
    let ghost fv = field_views(fields@);
    let mut i: usize = 0;
    while i < fields.len()
        invariant
            has_frontmatter,
            i <= fields.len(),
            fv == field_views(fields@),
            forall|j: int| 0 <= j < i ==> #[trigger] fv[j] != ("draft"@, "true"@),
        decreases fields.len() - i,
    {
        assert(fv[i as int] == (fields@[i as int].0@, fields@[i as int].1@));
        if is_lit(fields[i].0.as_str(), "draft") && is_lit(fields[i].1.as_str(), "true") {
            assert(fv[i as int] == ("draft"@, "true"@));
            return PostStatus::Draft;
        }
        i = i + 1;
    }
    PostStatus::Published
}

/// A folder keeps a status icon only for a draft or published post.
pub fn folder_shows_status(s: PostStatus) -> (b: bool)
    ensures
        b == (s == PostStatus::Draft || s == PostStatus::Published),
{
    match s {
        PostStatus::Draft | PostStatus::Published => true,
        PostStatus::NoFrontmatter => false,
    }
}

/// How a status is kept in the session cache.
pub open spec fn status_text(s: PostStatus) -> Seq<char> {
    match s {
        PostStatus::Draft => "draft"@,
        PostStatus::Published => "published"@,
        PostStatus::NoFrontmatter => "none"@,
    }
}

/// How a status is kept in the session cache.
pub fn status_cache_text(s: PostStatus) -> (t: &'static str)
    ensures
        t@ == status_text(s),
{
    match s {
        PostStatus::Draft => "draft",
        PostStatus::Published => "published",
        PostStatus::NoFrontmatter => "none",
    }
}

/// A status read back from the session cache; anything unknown has no frontmatter.
pub open spec fn status_from_text(t: Seq<char>) -> PostStatus {
    if t == "draft"@ {
        PostStatus::Draft
    } else if t == "published"@ {
        PostStatus::Published
    } else {
        PostStatus::NoFrontmatter
    }
}

/// A status read back from the session cache.
pub fn status_from_cache_text(t: &str) -> (s: PostStatus)
    ensures
        s == status_from_text(t@),
{
    if is_lit(t, "draft") {
        PostStatus::Draft
    } else if is_lit(t, "published") {
        PostStatus::Published
    } else {
        PostStatus::NoFrontmatter
    }
}

/// Reading a status back from the session cache gives the status kept.
pub proof fn law_status_cache_round_trip(s: PostStatus)
    ensures
        status_from_text(status_text(s)) == s,
{
    reveal_strlit("draft");
    reveal_strlit("published");
    reveal_strlit("none");
    assert("draft"@ != "published"@ && "draft"@ != "none"@ && "published"@ != "none"@) by {
        assert("draft"@.len() != "published"@.len());
        assert("draft"@[0] != "none"@[0]);
        assert("published"@.len() != "none"@.len());
    }
}

// ── CI status ───────────────────────────────────────────────────

/// The state of the CI checks of the active branch.
#[derive(Clone, Debug, PartialEq)]
pub enum CiState {
    Pending,
    Success,
    /// Failed; holds the URL of the failed run.
    Failure(String),
    /// No checks have run.
    NoChecks,
}

/// A check run that has not completed.
pub open spec fn run_pending(r: CheckRun) -> bool {
    r.status@ != "completed"@
}

/// A check run that concluded in failure.
pub open spec fn run_failed(r: CheckRun) -> bool {
    r.conclusion matches Some(c) && c@ == "failure"@
}

/// The index of the first failed run from `i` on, if any.
pub open spec fn first_failure_from(runs: Seq<CheckRun>, i: int) -> Option<int>
    decreases runs.len() - i,
{
    if i < 0 || i >= runs.len() {
        None
    } else if run_failed(runs[i]) {
        Some(i)
    } else {
        first_failure_from(runs, i + 1)
    }
}

/// The CI state of a set of check runs: none without runs, pending while
/// any runs, failed with the URL of the first failed run, else passed.
pub open spec fn ci_state_of(runs: Seq<CheckRun>) -> (CiState, Option<int>) {
    if runs.len() == 0 {
        (CiState::NoChecks, None)
    } else if exists|i: int| 0 <= i < runs.len() && run_pending(#[trigger] runs[i]) {
        (CiState::Pending, None)
    } else {
        match first_failure_from(runs, 0) {
            Some(i) => (CiState::Failure(runs[i].html_url), Some(i)),
            None => (CiState::Success, None),
        }
    }
}

/// Whether the runs' state is the given one (a failure naming the first failed run).
pub open spec fn is_ci_state_of(runs: Seq<CheckRun>, s: CiState) -> bool {
    match ci_state_of(runs).0 {
        CiState::Failure(_) => s matches CiState::Failure(u) && ci_state_of(runs).1 matches Some(
            i,
        ) && u@ == runs[i].html_url@,
        CiState::Pending => s is Pending,
        CiState::Success => s is Success,
        CiState::NoChecks => s is NoChecks,
    }
}

/// The CI state of the check runs of a branch.
pub fn ci_state_from_runs(runs: &[CheckRun]) -> (s: CiState)
    ensures
        is_ci_state_of(runs@, s),
{
    if runs.len() == 0 {
        return CiState::NoChecks;
    }
    let mut i: usize = 0;
    while i < runs.len()
        invariant
            i <= runs.len(),
            forall|j: int| 0 <= j < i ==> !run_pending(#[trigger] runs@[j]),
        decreases runs.len() - i,
    {
        if !is_lit(runs[i].status.as_str(), "completed") {
            assert(run_pending(runs@[i as int]));
            return CiState::Pending;
        }
        i = i + 1;
    }
    let mut k: usize = 0;
    while k < runs.len()
        invariant
            k <= runs.len(),
            runs.len() > 0,
            forall|j: int| 0 <= j < runs.len() ==> !run_pending(#[trigger] runs@[j]),
            first_failure_from(runs@, 0) == first_failure_from(runs@, k as int),
        decreases runs.len() - k,
    {
        let failed = match &runs[k].conclusion {
            Some(c) => is_lit(c.as_str(), "failure"),
            None => false,
        };
        if failed {
            return CiState::Failure(runs[k].html_url.clone());
        }
        k = k + 1;
    }
    CiState::Success
}

/// The state is polled again until it has passed or failed.
pub fn ci_should_poll(s: &CiState) -> (b: bool)
    ensures
        b == !(s is Success || s is Failure),
{
    match s {
        CiState::Success | CiState::Failure(_) => false,
        _ => true,
    }
}

/// A failed check blocks publishing.
pub fn ci_blocks_publish(s: &CiState) -> (b: bool)
    ensures
        b == s is Failure,
{
    match s {
        CiState::Failure(_) => true,
        _ => false,
    }
}

/// Publishing before the checks have passed asks for confirmation.
pub fn ci_needs_confirmation(s: &CiState) -> (b: bool)
    ensures
        b == (s is Pending || s is NoChecks),
{
    match s {
        CiState::Pending | CiState::NoChecks => true,
        _ => false,
    }
}

/// The class of the publish button for a CI state.
pub fn publish_button_class(s: &CiState) -> (c: &'static str)
    ensures
        c@ == (match s {
            CiState::Pending | CiState::NoChecks => "publish-btn pending"@,
            CiState::Failure(_) => "publish-btn failure"@,
            CiState::Success => "publish-btn"@,
        }),
{
    match s {
        CiState::Pending | CiState::NoChecks => "publish-btn pending",
        CiState::Failure(_) => "publish-btn failure",
        CiState::Success => "publish-btn",
    }
}

// ── Sorting and filtering modes ─────────────────────────────────

/// How the listing is sorted.
#[derive(Clone, Copy, Debug, PartialEq, Eq, Structural)]
pub enum SortMode {
    Alphabetical,
    LastModified,
}

/// Which posts the listing shows.
#[derive(Clone, Copy, Debug, PartialEq, Eq, Structural)]
pub enum StatusFilter {
    All,
    Draft,
    Published,
}

/// The sort mode kept in the session: `recent` means by date.
pub fn sort_mode_from_stored(stored: Option<&str>) -> (m: SortMode)
    ensures
        m == (if stored matches Some(s) && s@ == "recent"@ {
            SortMode::LastModified
        } else {
            SortMode::Alphabetical
        }),
{
    match stored {
        Some(s) => if is_lit(s, "recent") {
            SortMode::LastModified
        } else {
            SortMode::Alphabetical
        },
        None => SortMode::Alphabetical,
    }
}

/// How a sort mode is kept in the session.
pub fn sort_mode_text(m: SortMode) -> (t: &'static str)
    ensures
        t@ == (match m {
            SortMode::Alphabetical => "alpha"@,
            SortMode::LastModified => "recent"@,
        }),
{
    match m {
        SortMode::Alphabetical => "alpha",
        SortMode::LastModified => "recent",
    }
}

/// A sort mode kept in the session is read back as itself.
pub proof fn law_sort_mode_round_trip(m: SortMode)
    ensures
        (if (match m {
            SortMode::Alphabetical => "alpha"@,
            SortMode::LastModified => "recent"@,
        }) == "recent"@ {
            SortMode::LastModified
        } else {
            SortMode::Alphabetical
        }) == m,
{
    reveal_strlit("alpha");
    reveal_strlit("recent");
    assert("alpha"@.len() != "recent"@.len());
}

// ── Cache keys ──────────────────────────────────────────────────

/// The session key of a directory's cached listing.
pub fn listing_cache_key(path: &str) -> (k: String)
    ensures
        k@ == "dir_cache_"@ + path@,
{
    let mut out: Vec<char> = Vec::new();
    extend_str(&mut out, "dir_cache_");
    extend_str(&mut out, path);
    string_from_chars(out.as_slice())
}

/// The session key of the cached index of all files of a branch.
pub fn all_files_cache_key(branch: Option<&str>) -> (k: String)
    ensures
        k@ == (match branch {
            Some(b) => "all_files_index_"@ + b@,
            None => "all_files_index"@,
        }),
{
    let mut out: Vec<char> = Vec::new();
    extend_str(&mut out, "all_files_index");
    match branch {
        Some(b) => {
            extend_str(&mut out, "_");
            extend_str(&mut out, b);
            proof {
                reveal_strlit("all_files_index");
                reveal_strlit("_");
                reveal_strlit("all_files_index_");
                assert("all_files_index"@ + "_"@ =~= "all_files_index_"@);
            }
        },
        None => {},
    }
    string_from_chars(out.as_slice())
}

/// The session keys that invalidating every cache removes.
pub fn is_cache_key(key: &str) -> (b: bool)
    ensures
        b == (starts_with(key@, "dir_cache_"@) || starts_with(key@, "all_files_index"@)),
{
    let k = chars_of(key);
    let a = chars_of("dir_cache_");
    let b = chars_of("all_files_index");
    starts_with_exec(k.as_slice(), a.as_slice()) || starts_with_exec(k.as_slice(), b.as_slice())
}

// ── Entries ─────────────────────────────────────────────────────

/// The extensions of images, video, audio, documents and archives.
pub open spec fn media_extension(ext: Seq<char>) -> bool {
    ||| ext == "jpg"@
    ||| ext == "jpeg"@
    ||| ext == "png"@
    ||| ext == "gif"@
    ||| ext == "webp"@
    ||| ext == "svg"@
    ||| ext == "mp4"@
    ||| ext == "webm"@
    ||| ext == "mov"@
    ||| ext == "avi"@
    ||| ext == "mp3"@
    ||| ext == "wav"@
    ||| ext == "ogg"@
    ||| ext == "flac"@
    ||| ext == "pdf"@
    ||| ext == "zip"@
    ||| ext == "gz"@
    ||| ext == "tar"@
}

/// Whether a file is a media file, by its extension in lower case.
pub fn is_media_file(name: &str) -> (b: bool)
    ensures
        b == media_extension(lower_extension(name@)),
        all_ascii(crate::post::extension_of(name@)) ==> b == media_extension(
            crate::text::ascii_lowercase(crate::post::extension_of(name@)),
        ),
{
    let ext = crate::compress::lower_extension_string(name);
    let e = ext.as_str();
    is_lit(e, "jpg") || is_lit(e, "jpeg") || is_lit(e, "png") || is_lit(e, "gif") || is_lit(
        e,
        "webp",
    ) || is_lit(e, "svg") || is_lit(e, "mp4") || is_lit(e, "webm") || is_lit(e, "mov") || is_lit(
        e,
        "avi",
    ) || is_lit(e, "mp3") || is_lit(e, "wav") || is_lit(e, "ogg") || is_lit(e, "flac") || is_lit(
        e,
        "pdf",
    ) || is_lit(e, "zip") || is_lit(e, "gz") || is_lit(e, "tar")
}

/// A copy of an entry.
pub fn copy_entry(e: &ContentEntry) -> (c: ContentEntry)
    ensures
        c@ == e@,
{
    ContentEntry {
        name: e.name.clone(),
        path: e.path.clone(),
        entry_type: e.entry_type.clone(),
        sha: e.sha.clone(),
        size: e.size,
        download_url: match &e.download_url {
            Some(u) => Some(u.clone()),
            None => None,
        },
    }
}

/// The views of the entries.
pub open spec fn entry_views(v: Seq<ContentEntry>) -> Seq<ContentEntryView> {
    v.map_values(|e: ContentEntry| e@)
}

/// An entry of a directory.
pub open spec fn is_dir(e: ContentEntryView) -> bool {
    e.entry_type == "dir"@
}

/// A markdown file.
pub open spec fn is_markdown_file(e: ContentEntryView) -> bool {
    e.entry_type == "file"@ && ends_with(e.name, ".md"@)
}

// ── Order of the listing ────────────────────────────────────────

/// `a` comes before `b` in the order of characters (`str`'s `Ord`, which
/// orders UTF-8 bytes as it orders code points).
pub open spec fn chars_lt(a: Seq<char>, b: Seq<char>) -> bool
    decreases a.len(),
{
    if b.len() == 0 {
        false
    } else if a.len() == 0 {
        true
    } else if a[0] != b[0] {
        (a[0] as int) < (b[0] as int)
    } else {
        chars_lt(a.drop_first(), b.drop_first())
    }
}

proof fn lemma_chars_lt_irrefl_asym(a: Seq<char>, b: Seq<char>)
    ensures
        !chars_lt(a, a),
        chars_lt(a, b) ==> !chars_lt(b, a),
    decreases a.len(),
{
    if a.len() > 0 && b.len() > 0 {
        lemma_chars_lt_irrefl_asym(a.drop_first(), b.drop_first());
    }
    if a.len() > 0 {
        lemma_chars_lt_irrefl_asym(a.drop_first(), a.drop_first());
    }
}

proof fn lemma_chars_lt_trans(a: Seq<char>, b: Seq<char>, c: Seq<char>)
    requires
        chars_lt(a, b),
        chars_lt(b, c),
    ensures
        chars_lt(a, c),
    decreases a.len(),
{
    if a.len() > 0 && b.len() > 0 && c.len() > 0 && a[0] == b[0] && b[0] == c[0] {
        lemma_chars_lt_trans(a.drop_first(), b.drop_first(), c.drop_first());
    }
}

proof fn lemma_chars_lt_total(a: Seq<char>, b: Seq<char>)
    requires
        a != b,
    ensures
        chars_lt(a, b) || chars_lt(b, a),
    decreases a.len(),
{
    if a.len() == 0 && b.len() == 0 {
        assert(a =~= b);
    } else if a.len() > 0 && b.len() > 0 && a[0] == b[0] {
        assert(a =~= seq![a[0]] + a.drop_first());
        assert(b =~= seq![b[0]] + b.drop_first());
        lemma_chars_lt_total(a.drop_first(), b.drop_first());
    } else if a.len() > 0 && b.len() > 0 {
        assert((a[0] as int) != (b[0] as int));
    }
}

/// Directories first, then everything else.
pub open spec fn dir_rank(e: ContentEntryView) -> int {
    if is_dir(e) {
        0
    } else {
        1
    }
}

/// The order of the alphabetical listing: directories before files, each
/// by name.
pub open spec fn entry_before(a: ContentEntryView, b: ContentEntryView) -> bool {
    dir_rank(a) < dir_rank(b) || (dir_rank(a) == dir_rank(b) && chars_lt(a.name, b.name))
}

/// No entry is listed after one that should follow it.
pub open spec fn entries_sorted(s: Seq<ContentEntryView>) -> bool {
    forall|i: int, j: int| 0 <= i < j < s.len() ==> !entry_before(#[trigger] s[j], #[trigger] s[i])
}

proof fn lemma_entry_before_order(a: ContentEntryView, b: ContentEntryView, c: ContentEntryView)
    ensures
        entry_before(a, b) ==> !entry_before(b, a),
        entry_before(a, b) && entry_before(b, c) ==> entry_before(a, c),
{
    lemma_chars_lt_irrefl_asym(a.name, b.name);
    if chars_lt(a.name, b.name) && chars_lt(b.name, c.name) {
        lemma_chars_lt_trans(a.name, b.name, c.name);
    }
}

/// Whether the characters `a` come before `b`.
fn chars_lt_exec(a: &[char], b: &[char]) -> (r: bool)
    ensures
        r == chars_lt(a@, b@),
{
    let mut i: usize = 0;
    assert(a@.skip(0) =~= a@);
    assert(b@.skip(0) =~= b@);
    while i < a.len() && i < b.len() && a[i] == b[i]
        invariant
            i <= a.len(),
            i <= b.len(),
            chars_lt(a@, b@) == chars_lt(a@.skip(i as int), b@.skip(i as int)),
        decreases a.len() - i,
    {
        assert(a@.skip(i as int).drop_first() =~= a@.skip(i + 1));
        assert(b@.skip(i as int).drop_first() =~= b@.skip(i + 1));
        i = i + 1;
    }
    if i == b.len() {
        false
    } else if i == a.len() {
        true
    } else {
        a[i] < b[i]
    }
}

/// Whether entry `a` comes before `b` in the alphabetical listing.
fn entry_before_exec(a: &ContentEntry, b: &ContentEntry) -> (r: bool)
    ensures
        r == entry_before(a@, b@),
{
    let ra: u8 = if is_lit(a.entry_type.as_str(), "dir") {
        0
    } else {
        1
    };
    let rb: u8 = if is_lit(b.entry_type.as_str(), "dir") {
        0
    } else {
        1
    };
    if ra != rb {
        return ra < rb;
    }
    let na = chars_of(a.name.as_str());
    let nb = chars_of(b.name.as_str());
    chars_lt_exec(na.as_slice(), nb.as_slice())
}

/// Where a stable insertion puts `e` into the sorted `ov`: before the first
/// entry that it precedes, so after every entry that it does not precede.
pub open spec fn insert_pos(ov: Seq<ContentEntryView>, e: ContentEntryView) -> int
    decreases ov.len(),
{
    if ov.len() == 0 {
        0
    } else if entry_before(e, ov[0]) {
        0
    } else {
        1 + insert_pos(ov.drop_first(), e)
    }
}

/// The listing sorted stably: each entry, in the order given, inserted after
/// all earlier ones that it does not precede. Entries that neither precedes
/// (such as two files of the same name) therefore keep their order.
pub open spec fn stable_listing(s: Seq<ContentEntryView>) -> Seq<ContentEntryView>
    decreases s.len(),
{
    if s.len() == 0 {
        seq![]
    } else {
        let r = stable_listing(s.drop_last());
        r.insert(insert_pos(r, s.last()), s.last())
    }
}

proof fn lemma_insert_pos(ov: Seq<ContentEntryView>, e: ContentEntryView, p: int)
    requires
        0 <= p <= ov.len(),
        forall|q: int| 0 <= q < p ==> !entry_before(e, #[trigger] ov[q]),
        p == ov.len() || entry_before(e, ov[p]),
    ensures
        insert_pos(ov, e) == p,
    decreases p,
{
    if p > 0 {
        assert(!entry_before(e, ov[0]));
        assert forall|q: int| 0 <= q < p - 1 implies !entry_before(e, #[trigger] ov.drop_first()[q]) by {
            assert(ov.drop_first()[q] == ov[q + 1]);
        }
        if p < ov.len() {
            assert(ov.drop_first()[p - 1] == ov[p]);
        }
        lemma_insert_pos(ov.drop_first(), e, p - 1);
    }
}

/// The entries of a directory listing, directories first, each by name;
/// entries that neither precedes keep their order (the sort is stable).
pub fn sort_dirs_first(entries: &[ContentEntry]) -> (sorted: Vec<ContentEntry>)
    ensures
        entry_views(sorted@) == stable_listing(entry_views(entries@)),
        entry_views(sorted@).to_multiset() == entry_views(entries@).to_multiset(),
        entries_sorted(entry_views(sorted@)),
{
    let mut out: Vec<ContentEntry> = Vec::new();
    let mut i: usize = 0;
    assert(entry_views(entries@.take(0)) =~= entry_views(out@));
    while i < entries.len()
        invariant
            i <= entries.len(),
            entry_views(out@).to_multiset() == entry_views(entries@.take(i as int)).to_multiset(),
            entries_sorted(entry_views(out@)),
            entry_views(out@) == stable_listing(entry_views(entries@.take(i as int))),
        decreases entries.len() - i,
    {
        let e = &entries[i];
        let ghost ov = entry_views(out@);
        let mut p: usize = 0;
        while p < out.len() && !entry_before_exec(e, &out[p])
            invariant
                p <= out.len(),
                ov == entry_views(out@),
                forall|q: int| 0 <= q < p ==> !entry_before(e@, #[trigger] ov[q]),
            decreases out.len() - p,
        {
            p = p + 1;
        }
        let c = copy_entry(e);
        out.insert(p, c);
        proof {
            let nv = entry_views(out@);
            assert(nv =~= ov.insert(p as int, e@));
            assert(entries@.take(i + 1) =~= entries@.take(i as int).push(entries@[i as int]));
            assert(entry_views(entries@.take(i + 1)) =~= entry_views(entries@.take(i as int)).push(
                e@,
            ));
            lemma_insert_pos(ov, e@, p as int);
            assert(entry_views(entries@.take(i + 1)).drop_last() =~= entry_views(entries@.take(i as int)));
            vstd::seq_lib::to_multiset_build(entry_views(entries@.take(i as int)), e@);
            vstd::seq_lib::to_multiset_insert(ov, p as int, e@);
            assert forall|a: int, b: int| 0 <= a < b < nv.len() implies !entry_before(
                #[trigger] nv[b],
                #[trigger] nv[a],
            ) by {
                if a < p && b < p {
                    assert(nv[a] == ov[a] && nv[b] == ov[b]);
                } else if a < p && b == p {
                    assert(!entry_before(e@, ov[a]));
                } else if a < p && b > p {
                    assert(nv[a] == ov[a] && nv[b] == ov[b - 1]);
                } else if a == p {
                    // e precedes ov[p] (or is last); what follows does not precede ov[p]
                    assert(nv[b] == ov[b - 1]);
                    assert(entry_before(e@, ov[p as int]));
                    if b - 1 > p {
                        assert(!entry_before(ov[b - 1], ov[p as int]));
                    }
                    lemma_entry_before_order(ov[b - 1], e@, ov[p as int]);
                    lemma_entry_before_order(e@, ov[b - 1], ov[p as int]);
                } else {
                    assert(nv[a] == ov[a - 1] && nv[b] == ov[b - 1]);
                }
            }
        }
        i = i + 1;
    }
    assert(entries@.take(entries.len() as int) =~= entries@);
    out
}

// ── Which entries show ──────────────────────────────────────────

/// `p` occurs in `s`.
pub open spec fn contains_seq(s: Seq<char>, p: Seq<char>) -> bool {
    find(s, p) is Some
}

/// Whether `p` occurs in `s`.
fn contains_exec(s: &[char], p: &[char]) -> (b: bool)
    ensures
        b == contains_seq(s@, p@),
{
    proof {
        crate::text::lemma_find_from_skip(s@, p@, 0, 0);
    }
    find_from_exec(s, p, 0).is_some()
}

/// The status a post filter asks for.
pub open spec fn wanted_status(f: StatusFilter) -> PostStatus {
    match f {
        StatusFilter::Draft => PostStatus::Draft,
        _ => PostStatus::Published,
    }
}

/// Whether an entry shows under the text filter (already in lower case) and
/// the status filter: a markdown file must have the wanted status, a folder
/// whose single post has a status must have it.
pub open spec fn entry_shown(
    e: ContentEntryView,
    filter: Seq<char>,
    status_filter: StatusFilter,
    file_status: Option<PostStatus>,
    folder_status: Option<PostStatus>,
) -> bool {
    &&& filter.len() == 0 || contains_seq(unicode_lowercase(e.name), filter)
    &&& status_filter == StatusFilter::All || (if ends_with(e.name, ".md"@) {
        file_status == Some(wanted_status(status_filter))
    } else if is_dir(e) {
        folder_status is None || folder_status == Some(wanted_status(status_filter))
    } else {
        true
    })
}

/// Whether an entry shows in the listing.
pub fn entry_is_shown(
    e: &ContentEntry,
    filter: &str,
    status_filter: StatusFilter,
    file_status: Option<PostStatus>,
    folder_status: Option<PostStatus>,
) -> (b: bool)
    ensures
        b == entry_shown(e@, filter@, status_filter, file_status, folder_status),
{
    let f = chars_of(filter);
    if f.len() > 0 {
        let lower = to_lowercase(e.name.as_str());
        let l = chars_of(lower.as_str());
        if !contains_exec(l.as_slice(), f.as_slice()) {
            return false;
        }
    }
    if status_filter == StatusFilter::All {
        return true;
    }
    let wanted = match status_filter {
        StatusFilter::Draft => PostStatus::Draft,
        _ => PostStatus::Published,
    };
    let name = chars_of(e.name.as_str());
    let md = chars_of(".md");
    if ends_with_exec(name.as_slice(), md.as_slice()) {
        match file_status {
            Some(s) => s == wanted,
            None => false,
        }
    } else if is_lit(e.entry_type.as_str(), "dir") {
        match folder_status {
            Some(s) => s == wanted,
            None => true,
        }
    } else {
        true
    }
}

/// No two pairs name the same path: the pairs are the entries of a map.
pub open spec fn distinct_paths(statuses: Seq<(String, PostStatus)>) -> bool {
    forall|i: int, j: int| 0 <= i < j < statuses.len() ==> #[trigger] statuses[i].0@ != #[trigger] statuses[j].0@
}

/// The status kept for `key`: that of its pair (the first, were there more).
pub open spec fn status_for(statuses: Seq<(String, PostStatus)>, key: Seq<char>) -> Option<PostStatus>
    decreases statuses.len(),
{
    if statuses.len() == 0 {
        None
    } else if statuses[0].0@ == key {
        Some(statuses[0].1)
    } else {
        status_for(statuses.drop_first(), key)
    }
}

proof fn lemma_status_for_skip(statuses: Seq<(String, PostStatus)>, key: Seq<char>, i: int)
    requires
        0 <= i <= statuses.len(),
        forall|j: int| 0 <= j < i ==> statuses[j].0@ != key,
    ensures
        status_for(statuses, key) == status_for(statuses.skip(i), key),
    decreases i,
{
    if i > 0 {
        lemma_status_for_skip(statuses.drop_first(), key, i - 1);
        assert(statuses.drop_first().skip(i - 1) =~= statuses.skip(i));
    } else {
        assert(statuses.skip(0) =~= statuses);
    }
}

/// The status kept for a path in a map of statuses by path.
pub fn lookup_status(statuses: &[(String, PostStatus)], key: &str) -> (s: Option<PostStatus>)
    requires
        distinct_paths(statuses@),
    ensures
        s == status_for(statuses@, key@),
{
    let mut i: usize = 0;
    while i < statuses.len()
        invariant
            i <= statuses.len(),
            forall|j: int| 0 <= j < i ==> statuses@[j].0@ != key@,
        decreases statuses.len() - i,
    {
        if is_lit(statuses[i].0.as_str(), key) {
            proof {
                lemma_status_for_skip(statuses@, key@, i as int);
                assert(statuses@.skip(i as int)[0] == statuses@[i as int]);
            }
            return Some(statuses[i].1);
        }
        i = i + 1;
    }
    proof {
        lemma_status_for_skip(statuses@, key@, statuses.len() as int);
        assert(statuses@.skip(statuses.len() as int).len() == 0);
    }
    None
}

/// The entries of a listing that show under the filters, in order.
pub open spec fn shown_entries(
    entries: Seq<ContentEntry>,
    filter: Seq<char>,
    status_filter: StatusFilter,
    file_statuses: Seq<(String, PostStatus)>,
    folder_statuses: Seq<(String, PostStatus)>,
) -> Seq<ContentEntryView>
    decreases entries.len(),
{
    if entries.len() == 0 {
        seq![]
    } else {
        let rest = shown_entries(entries.drop_last(), filter, status_filter, file_statuses, folder_statuses);
        let e = entries.last()@;
        if entry_shown(
            e,
            filter,
            status_filter,
            status_for(file_statuses, e.path),
            status_for(folder_statuses, e.path),
        ) {
            rest.push(e)
        } else {
            rest
        }
    }
}

/// The entries of a listing that show under the text filter (put in lower
/// case here) and the status filter, given the statuses known by path (two
/// maps, each with one status per path).
pub fn filter_entries(
    entries: &[ContentEntry],
    filter_text: &str,
    status_filter: StatusFilter,
    file_statuses: &[(String, PostStatus)],
    folder_statuses: &[(String, PostStatus)],
) -> (shown: Vec<ContentEntry>)
    requires
        distinct_paths(file_statuses@),
        distinct_paths(folder_statuses@),
    ensures
        entry_views(shown@) == shown_entries(
            entries@,
            unicode_lowercase(filter_text@),
            status_filter,
            file_statuses@,
            folder_statuses@,
        ),
{
    let filter = to_lowercase(filter_text);
    let mut out: Vec<ContentEntry> = Vec::new();
    let mut i: usize = 0;
    while i < entries.len()
        invariant
            i <= entries.len(),
            filter@ == unicode_lowercase(filter_text@),
            distinct_paths(file_statuses@),
            distinct_paths(folder_statuses@),
            entry_views(out@) == shown_entries(
                entries@.take(i as int),
                filter@,
                status_filter,
                file_statuses@,
                folder_statuses@,
            ),
        decreases entries.len() - i,
    {
        let e = &entries[i];
        proof {
            assert(entries@.take(i + 1).drop_last() =~= entries@.take(i as int));
            assert(entries@.take(i + 1).last() == entries@[i as int]);
        }
        let fs = lookup_status(file_statuses, e.path.as_str());
        let ds = lookup_status(folder_statuses, e.path.as_str());
        if entry_is_shown(e, filter.as_str(), status_filter, fs, ds) {
            let ghost before = entry_views(out@);
            out.push(copy_entry(e));
            assert(entry_views(out@) =~= before.push(e@));
        }
        i = i + 1;
    }
    assert(entries@.take(entries.len() as int) =~= entries@);
    out
}

/// The files of the whole index whose path holds the search text, both in lower case.
pub open spec fn search_hits(files: Seq<ContentEntry>, filter: Seq<char>) -> Seq<ContentEntryView>
    decreases files.len(),
{
    if files.len() == 0 {
        seq![]
    } else {
        let rest = search_hits(files.drop_last(), filter);
        if contains_seq(unicode_lowercase(files.last().path@), filter) {
            rest.push(files.last()@)
        } else {
            rest
        }
    }
}

/// The files of the whole index whose path holds the search text, ignoring case.
pub fn search_files(files: &[ContentEntry], filter_text: &str) -> (hits: Vec<ContentEntry>)
    ensures
        entry_views(hits@) == search_hits(files@, unicode_lowercase(filter_text@)),
{
    let filter = to_lowercase(filter_text);
    let f = chars_of(filter.as_str());
    let mut out: Vec<ContentEntry> = Vec::new();
    let mut i: usize = 0;
    while i < files.len()
        invariant
            i <= files.len(),
            f@ == unicode_lowercase(filter_text@),
            entry_views(out@) == search_hits(files@.take(i as int), f@),
        decreases files.len() - i,
    {
        let e = &files[i];
        proof {
            assert(files@.take(i + 1).drop_last() =~= files@.take(i as int));
            assert(files@.take(i + 1).last() == files@[i as int]);
        }
        let lower = to_lowercase(e.path.as_str());
        let l = chars_of(lower.as_str());
        if contains_exec(l.as_slice(), f.as_slice()) {
            let ghost before = entry_views(out@);
            out.push(copy_entry(e));
            assert(entry_views(out@) =~= before.push(e@));
        }
        i = i + 1;
    }
    assert(files@.take(files.len() as int) =~= files@);
    out
}

// ── How an entry is drawn ───────────────────────────────────────

/// The icon in front of an entry.
#[derive(Clone, Copy, Debug, PartialEq, Eq, Structural)]
pub enum EntryIcon {
    Draft,
    Published,
    Media,
    Folder,
    Blank,
}

/// A file that is a media file (no directory is).
pub open spec fn entry_media(e: ContentEntryView) -> bool {
    !is_dir(e) && media_extension(lower_extension(e.name))
}

/// Whether an entry is a media file, which is not opened in the editor.
pub fn entry_is_media(e: &ContentEntry) -> (b: bool)
    ensures
        b == entry_media(e@),
{
    !is_lit(e.entry_type.as_str(), "dir") && is_media_file(e.name.as_str())
}

/// The icon of an entry: a folder shows the status of its single post, a
/// markdown file its own status, a media file a picture.
pub open spec fn icon_of(e: ContentEntryView, file_status: Option<PostStatus>, folder_status: Option<PostStatus>) -> EntryIcon {
    if is_dir(e) {
        match folder_status {
            Some(PostStatus::Draft) => EntryIcon::Draft,
            Some(PostStatus::Published) => EntryIcon::Published,
            _ => EntryIcon::Folder,
        }
    } else if ends_with(e.name, ".md"@) {
        match file_status {
            Some(PostStatus::Draft) => EntryIcon::Draft,
            Some(PostStatus::Published) => EntryIcon::Published,
            _ => EntryIcon::Blank,
        }
    } else if entry_media(e) {
        EntryIcon::Media
    } else {
        EntryIcon::Blank
    }
}

/// The icon of an entry.
pub fn entry_icon(e: &ContentEntry, file_status: Option<PostStatus>, folder_status: Option<PostStatus>) -> (i: EntryIcon)
    ensures
        i == icon_of(e@, file_status, folder_status),
{
    if is_lit(e.entry_type.as_str(), "dir") {
        match folder_status {
            Some(PostStatus::Draft) => EntryIcon::Draft,
            Some(PostStatus::Published) => EntryIcon::Published,
            _ => EntryIcon::Folder,
        }
    } else {
        let name = chars_of(e.name.as_str());
        let md = chars_of(".md");
        if ends_with_exec(name.as_slice(), md.as_slice()) {
            match file_status {
                Some(PostStatus::Draft) => EntryIcon::Draft,
                Some(PostStatus::Published) => EntryIcon::Published,
                _ => EntryIcon::Blank,
            }
        } else if is_media_file(e.name.as_str()) {
            EntryIcon::Media
        } else {
            EntryIcon::Blank
        }
    }
}

/// The label of an entry: a directory's name ends with `/`.
pub fn entry_label(e: &ContentEntry) -> (label: String)
    ensures
        label@ == (if is_dir(e@) {
            e.name@ + "/"@
        } else {
            e.name@
        }),
{
    let mut out: Vec<char> = Vec::new();
    extend_str(&mut out, e.name.as_str());
    if is_lit(e.entry_type.as_str(), "dir") {
        extend_str(&mut out, "/");
    }
    string_from_chars(out.as_slice())
}

// ── Navigation ──────────────────────────────────────────────────

/// The breadcrumbs of a path: each part with the path up to it.
pub open spec fn crumbs(path: Seq<char>) -> Seq<(Seq<char>, Seq<char>)>
    decreases path.len(),
{
    match last_index_of(path, '/') {
        Some(i) => if 0 <= i < path.len() {
            crumbs(path.take(i)).push((path.skip(i + 1), path))
        } else {
            seq![]
        },
        None => seq![(path, path)],
    }
}

/// Where the last `/` of `s.take(k)` stands, when none is in `s[start..k]`.
proof fn lemma_last_slash(s: Seq<char>, start: int, k: int)
    requires
        0 <= start <= k <= s.len(),
        start > 0 ==> s[start - 1] == '/',
        start == 0 ==> k == 0 || forall|j: int| 0 <= j < k ==> s[j] != '/',
        forall|j: int| start <= j < k ==> s[j] != '/',
    ensures
        last_index_of(s.take(k), '/') == (if start > 0 {
            Some(start - 1)
        } else {
            None::<int>
        }),
    decreases k,
{
    if k > start {
        lemma_last_slash(s, start, k - 1);
        assert(s.take(k).drop_last() =~= s.take(k - 1));
    } else if start > 0 {
        assert(s.take(k).last() == s[start - 1]);
    }
}

/// The breadcrumbs of a path: each `/`-separated part, with the path up to
/// and including it (the last part is the current directory).
pub fn breadcrumbs(path: &str) -> (parts: Vec<(String, String)>)
    ensures
        crate::post::pair_views(parts@) == crumbs(path@),
{
    let cs = chars_of(path);
    let n = cs.len();
    let mut out: Vec<(String, String)> = Vec::new();
    let mut start: usize = 0;
    let mut i: usize = 0;
    while i < n
        invariant
            n == cs.len(),
            cs@ == path@,
            start <= i <= n,
            forall|j: int| start <= j < i ==> cs@[j] != '/',
            start == 0 ==> out@.len() == 0 && forall|j: int| 0 <= j < i ==> cs@[j] != '/',
            start > 0 ==> cs@[start - 1] == '/' && crate::post::pair_views(out@) == crumbs(
                cs@.take(start - 1),
            ),
        decreases n - i,
    {
        if cs[i] == '/' {
            let part = crate::text::slice_chars(cs.as_slice(), start, i);
            let upto = crate::text::slice_chars(cs.as_slice(), 0, i);
            proof {
                lemma_last_slash(cs@, start as int, i as int);
                if start > 0 {
                    assert(cs@.take(i as int).take(start - 1) =~= cs@.take(start - 1));
                    assert(cs@.take(i as int).skip(start as int) =~= part@);
                }
                assert(upto@ =~= cs@.take(i as int));
            }
            let ghost before = crate::post::pair_views(out@);
            out.push((string_from_chars(part.as_slice()), string_from_chars(upto.as_slice())));
            proof {
                if start == 0 {
                    assert(part@ =~= cs@.take(i as int));
                }
                assert(crate::post::pair_views(out@) =~= crumbs(cs@.take(i as int)));
            }
            start = i + 1;
        }
        i = i + 1;
    }
    let part = crate::text::slice_chars(cs.as_slice(), start, n);
    proof {
        lemma_last_slash(cs@, start as int, n as int);
        assert(cs@.take(n as int) =~= cs@);
        if start > 0 {
            assert(cs@.skip(start as int) =~= part@);
        } else {
            assert(part@ =~= cs@);
        }
    }
    out.push((string_from_chars(part.as_slice()), path.to_string()));
    assert(crate::post::pair_views(out@) =~= crumbs(path@));
    out
}

/// Parts joined by `/`.
pub open spec fn slash_joined(parts: Seq<Seq<char>>) -> Seq<char>
    decreases parts.len(),
{
    if parts.len() == 0 {
        seq![]
    } else if parts.len() == 1 {
        parts[0]
    } else {
        slash_joined(parts.drop_last()) + "/"@ + parts.last()
    }
}

/// The breadcrumbs of a path spell the path: their parts joined by `/` give
/// it back, and the last one leads to the path itself.
pub proof fn law_breadcrumbs_spell_path(path: Seq<char>)
    ensures
        crumbs(path).len() >= 1,
        slash_joined(crumbs(path).map_values(|c: (Seq<char>, Seq<char>)| c.0)) == path,
        crumbs(path).last().1 == path,
    decreases path.len(),
{
    reveal_strlit("/");
    crate::text::lemma_last_index_of_properties(path, '/');
    match last_index_of(path, '/') {
        Some(i) => {
            let head = path.take(i);
            law_breadcrumbs_spell_path(head);
            let prev = crumbs(head).map_values(|c: (Seq<char>, Seq<char>)| c.0);
            let all = crumbs(path).map_values(|c: (Seq<char>, Seq<char>)| c.0);
            assert(all =~= prev.push(path.skip(i + 1)));
            assert(all.drop_last() =~= prev);
            assert(head + "/"@ + path.skip(i + 1) =~= path);
        },
        None => {
            assert(crumbs(path).map_values(|c: (Seq<char>, Seq<char>)| c.0) =~= seq![path]);
        },
    }
}

/// The parent of a directory: everything before its last `/`, if it has one.
pub fn parent_path(path: &str) -> (parent: Option<String>)
    ensures
        match last_index_of(path@, '/') {
            Some(i) => parent matches Some(p) && p@ == path@.take(i),
            None => parent is None,
        },
{
    let cs = chars_of(path);
    match crate::text::last_index_of_exec(cs.as_slice(), '/') {
        Some(i) => {
            let p = crate::text::slice_chars(cs.as_slice(), 0, i);
            assert(p@ =~= path@.take(i as int));
            Some(string_from_chars(p.as_slice()))
        },
        None => None,
    }
}

/// The path of a new post in a section.
pub open spec fn post_path_of(section: Seq<char>, slug: Seq<char>) -> Seq<char> {
    "content/"@ + section + "/"@ + slug + "/index.md"@
}

/// The path that a new post of the given section and slug would have.
pub fn new_post_preview(section: &str, slug: &str) -> (p: String)
    ensures
        p@ == post_path_of(section@, slug@),
{
    let mut out: Vec<char> = Vec::new();
    extend_str(&mut out, "content/");
    extend_str(&mut out, section);
    extend_str(&mut out, "/");
    extend_str(&mut out, slug);
    extend_str(&mut out, "/index.md");
    string_from_chars(out.as_slice())
}

/// The path of a new post, which needs a slug.
pub fn new_post_path(section: &str, slug: &str) -> (p: Option<String>)
    ensures
        slug@.len() == 0 ==> p is None,
        slug@.len() > 0 ==> (p matches Some(q) && q@ == post_path_of(section@, slug@)),
{
    let s = chars_of(slug);
    if s.len() == 0 {
        None
    } else {
        Some(new_post_preview(section, slug))
    }
}

/// Whether an error means the token was refused, which signs the user out.
pub fn is_unauthorized(message: &str) -> (b: bool)
    ensures
        b == contains_seq(message@, "Unauthorized"@),
{
    let m = chars_of(message);
    let u = chars_of("Unauthorized");
    contains_exec(m.as_slice(), u.as_slice())
}

// ── Branches ────────────────────────────────────────────────────

/// `s` without the prefix `p`, when it has it.
pub open spec fn strip_prefix(s: Seq<char>, p: Seq<char>) -> Seq<char> {
    if starts_with(s, p) {
        s.skip(p.len() as int)
    } else {
        s
    }
}

/// `s` without the prefix `p`, when it has it.
fn strip_prefix_exec(s: &str, p: &str) -> (r: String)
    ensures
        r@ == strip_prefix(s@, p@),
{
    let cs = chars_of(s);
    let ps = chars_of(p);
    if starts_with_exec(cs.as_slice(), ps.as_slice()) {
        let rest = crate::text::slice_chars(cs.as_slice(), ps.len(), cs.len());
        assert(rest@ =~= s@.skip(p@.len() as int));
        string_from_chars(rest.as_slice())
    } else {
        s.to_string()
    }
}

/// The name of the branch a ref points at (`refs/heads/` removed).
pub fn branch_name_of_ref(ref_name: &str) -> (name: String)
    ensures
        name@ == strip_prefix(ref_name@, "refs/heads/"@),
{
    strip_prefix_exec(ref_name, "refs/heads/")
}

/// How an editor branch is listed (`editor/` removed).
pub fn branch_label(name: &str) -> (label: String)
    ensures
        label@ == strip_prefix(name@, "editor/"@),
{
    strip_prefix_exec(name, "editor/")
}

/// Whether a branch is the active one.
pub fn branch_is_active(active: Option<&str>, name: &str) -> (b: bool)
    ensures
        b == (active matches Some(a) && a@ == name@),
{
    match active {
        Some(a) => is_lit(a, name),
        None => false,
    }
}

/// The refs other than that of the given branch, in order.
pub open spec fn refs_without(refs: Seq<GitRef>, full: Seq<char>) -> Seq<(Seq<char>, Seq<char>)>
    decreases refs.len(),
{
    if refs.len() == 0 {
        seq![]
    } else {
        let rest = refs_without(refs.drop_last(), full);
        if refs.last().ref_name@ != full {
            rest.push(refs.last()@)
        } else {
            rest
        }
    }
}

/// The branch list once a branch is published or discarded.
pub fn remove_branch(branches: &[GitRef], branch_name: &str) -> (kept: Vec<GitRef>)
    ensures
        kept@.map_values(|g: GitRef| g@) == refs_without(branches@, "refs/heads/"@ + branch_name@),
{
    let full = crate::github::qualified_branch(branch_name);
    let mut out: Vec<GitRef> = Vec::new();
    let mut i: usize = 0;
    while i < branches.len()
        invariant
            i <= branches.len(),
            full@ == "refs/heads/"@ + branch_name@,
            out@.map_values(|g: GitRef| g@) == refs_without(branches@.take(i as int), full@),
        decreases branches.len() - i,
    {
        let b = &branches[i];
        proof {
            assert(branches@.take(i + 1).drop_last() =~= branches@.take(i as int));
            assert(branches@.take(i + 1).last() == branches@[i as int]);
        }
        if !is_lit(b.ref_name.as_str(), full.as_str()) {
            let g = GitRef {
                ref_name: b.ref_name.clone(),
                object: crate::models::GitObject { sha: b.object.sha.clone() },
            };
            let ghost before = out@.map_values(|g: GitRef| g@);
            out.push(g);
            assert(out@.map_values(|g: GitRef| g@) =~= before.push(b@));
        }
        i = i + 1;
    }
    assert(branches@.take(branches.len() as int) =~= branches@);
    out
}

/// The entries other than the one at `path`, in order.
pub open spec fn entries_without(files: Seq<ContentEntry>, path: Seq<char>) -> Seq<ContentEntryView>
    decreases files.len(),
{
    if files.len() == 0 {
        seq![]
    } else {
        let rest = entries_without(files.drop_last(), path);
        if files.last().path@ != path {
            rest.push(files.last()@)
        } else {
            rest
        }
    }
}

/// The file index once a file is deleted.
pub fn remove_file_entry(files: &[ContentEntry], path: &str) -> (kept: Vec<ContentEntry>)
    ensures
        entry_views(kept@) == entries_without(files@, path@),
{
    let mut out: Vec<ContentEntry> = Vec::new();
    let mut i: usize = 0;
    while i < files.len()
        invariant
            i <= files.len(),
            entry_views(out@) == entries_without(files@.take(i as int), path@),
        decreases files.len() - i,
    {
        let e = &files[i];
        proof {
            assert(files@.take(i + 1).drop_last() =~= files@.take(i as int));
            assert(files@.take(i + 1).last() == files@[i as int]);
        }
        if !is_lit(e.path.as_str(), path) {
            let ghost before = entry_views(out@);
            out.push(copy_entry(e));
            assert(entry_views(out@) =~= before.push(e@));
        }
        i = i + 1;
    }
    assert(files@.take(files.len() as int) =~= files@);
    out
}

/// `prefix` followed by `name`.
fn prefixed(prefix: &str, name: &str) -> (m: String)
    ensures
        m@ == prefix@ + name@,
{
    let mut out: Vec<char> = Vec::new();
    extend_str(&mut out, prefix);
    extend_str(&mut out, name);
    string_from_chars(out.as_slice())
}

/// The message of the merge that publishes a branch.
pub fn publish_message(branch: &str) -> (m: String)
    ensures
        m@ == "Publish "@ + branch@,
{
    prefixed("Publish ", branch)
}

/// The message of the merge that brings the default branch into an editor branch.
pub fn sync_message(branch: &str) -> (m: String)
    ensures
        m@ == "Sync source into "@ + branch@,
{
    prefixed("Sync source into ", branch)
}

/// The message of the commit that deletes an entry.
pub fn delete_message(name: &str) -> (m: String)
    ensures
        m@ == "Delete "@ + name@,
{
    prefixed("Delete ", name)
}

// ── Folders that hold a single post ─────────────────────────────

/// The markdown files among the entries, in order.
pub open spec fn markdown_children(s: Seq<ContentEntry>) -> Seq<ContentEntryView>
    decreases s.len(),
{
    if s.len() == 0 {
        seq![]
    } else {
        let rest = markdown_children(s.drop_last());
        if is_markdown_file(s.last()@) {
            rest.push(s.last()@)
        } else {
            rest
        }
    }
}

/// The post of a folder: its only markdown file, unless it holds a
/// directory (then it is a section, not a post) or more or fewer posts.
pub open spec fn single_post_of(children: Seq<ContentEntry>) -> Option<ContentEntryView> {
    if exists|i: int| 0 <= i < children.len() && is_dir(#[trigger] children[i]@) {
        None
    } else if markdown_children(children).len() == 1 {
        Some(markdown_children(children)[0])
    } else {
        None
    }
}

/// Whether an entry is a markdown file.
fn is_markdown_exec(e: &ContentEntry) -> (b: bool)
    ensures
        b == is_markdown_file(e@),
{
    let name = chars_of(e.name.as_str());
    let md = chars_of(".md");
    is_lit(e.entry_type.as_str(), "file") && ends_with_exec(name.as_slice(), md.as_slice())
}

/// The single post of a folder, from the folder's entries.
pub fn single_md_child(children: &[ContentEntry]) -> (post: Option<ContentEntry>)
    ensures
        match single_post_of(children@) {
            Some(v) => post matches Some(p) && p@ == v,
            None => post is None,
        },
{
    let mut i: usize = 0;
    while i < children.len()
        invariant
            i <= children.len(),
            forall|j: int| 0 <= j < i ==> !is_dir(#[trigger] children@[j]@),
        decreases children.len() - i,
    {
        if is_lit(children[i].entry_type.as_str(), "dir") {
            assert(is_dir(children@[i as int]@));
            return None;
        }
        i = i + 1;
    }
    let mut mds: Vec<ContentEntry> = Vec::new();
    let mut k: usize = 0;
    while k < children.len()
        invariant
            k <= children.len(),
            entry_views(mds@) == markdown_children(children@.take(k as int)),
        decreases children.len() - k,
    {
        proof {
            assert(children@.take(k + 1).drop_last() =~= children@.take(k as int));
            assert(children@.take(k + 1).last() == children@[k as int]);
        }
        if is_markdown_exec(&children[k]) {
            let ghost before = entry_views(mds@);
            mds.push(copy_entry(&children[k]));
            assert(entry_views(mds@) =~= before.push(children@[k as int]@));
        }
        k = k + 1;
    }
    assert(children@.take(children.len() as int) =~= children@);
    if mds.len() == 1 {
        Some(copy_entry(&mds[0]))
    } else {
        None
    }
}

/// The paths of the markdown files among the entries, in order.
pub fn markdown_paths(entries: &[ContentEntry]) -> (paths: Vec<String>)
    ensures
        paths@.map_values(|p: String| p@) == markdown_children(entries@).map_values(
            |e: ContentEntryView| e.path,
        ),
{
    let mut out: Vec<String> = Vec::new();
    let mut k: usize = 0;
    while k < entries.len()
        invariant
            k <= entries.len(),
            out@.map_values(|p: String| p@) == markdown_children(entries@.take(k as int)).map_values(
                |e: ContentEntryView| e.path,
            ),
        decreases entries.len() - k,
    {
        proof {
            assert(entries@.take(k + 1).drop_last() =~= entries@.take(k as int));
            assert(entries@.take(k + 1).last() == entries@[k as int]);
        }
        if is_markdown_exec(&entries[k]) {
            let ghost before = out@.map_values(|p: String| p@);
            out.push(entries[k].path.clone());
            assert(out@.map_values(|p: String| p@) =~= before.push(entries@[k as int].path@));
            assert(markdown_children(entries@.take(k + 1)).map_values(|e: ContentEntryView| e.path)
                =~= markdown_children(entries@.take(k as int)).map_values(
                |e: ContentEntryView| e.path,
            ).push(entries@[k as int].path@));
        }
        k = k + 1;
    }
    assert(entries@.take(entries.len() as int) =~= entries@);
    out
}

// ── The diff panel ──────────────────────────────────────────────

/// The lines added over all changed files.
pub open spec fn total_additions(files: Seq<DiffFile>) -> int
    decreases files.len(),
{
    if files.len() == 0 {
        0
    } else {
        total_additions(files.drop_last()) + files.last().additions
    }
}

/// The lines deleted over all changed files.
pub open spec fn total_deletions(files: Seq<DiffFile>) -> int
    decreases files.len(),
{
    if files.len() == 0 {
        0
    } else {
        total_deletions(files.drop_last()) + files.last().deletions
    }
}

proof fn lemma_totals_grow(files: Seq<DiffFile>, i: int)
    requires
        0 <= i <= files.len(),
    ensures
        0 <= total_additions(files.take(i)) <= total_additions(files),
        0 <= total_deletions(files.take(i)) <= total_deletions(files),
    decreases files.len() - i,
{
    if i < files.len() {
        lemma_totals_grow(files, i + 1);
        assert(files.take(i + 1).drop_last() =~= files.take(i));
    } else {
        assert(files.take(i) =~= files);
    }
    lemma_totals_nonneg(files.take(i));
}

proof fn lemma_totals_nonneg(files: Seq<DiffFile>)
    ensures
        0 <= total_additions(files),
        0 <= total_deletions(files),
    decreases files.len(),
{
    if files.len() > 0 {
        lemma_totals_nonneg(files.drop_last());
    }
}

/// The lines added and deleted over all changed files (the totals must fit
/// in a `u32`, as the sums the panel shows do).
pub fn diff_totals(files: &[DiffFile]) -> (totals: (u32, u32))
    requires
        total_additions(files@) <= u32::MAX,
        total_deletions(files@) <= u32::MAX,
    ensures
        totals.0 == total_additions(files@),
        totals.1 == total_deletions(files@),
{
    let mut adds: u32 = 0;
    let mut dels: u32 = 0;
    let mut i: usize = 0;
    while i < files.len()
        invariant
            i <= files.len(),
            total_additions(files@) <= u32::MAX,
            total_deletions(files@) <= u32::MAX,
            adds == total_additions(files@.take(i as int)),
            dels == total_deletions(files@.take(i as int)),
        decreases files.len() - i,
    {
        proof {
            assert(files@.take(i + 1).drop_last() =~= files@.take(i as int));
            lemma_totals_grow(files@, i + 1);
        }
        adds = adds + files[i].additions;
        dels = dels + files[i].deletions;
        i = i + 1;
    }
    assert(files@.take(files.len() as int) =~= files@);
    (adds, dels)
}

/// The summary of the diff panel: the count of changed files.
pub fn diff_summary(count: usize) -> (s: String)
    ensures
        s@ == crate::text::decimal(count as nat) + " file"@ + (if count == 1 {
            ""@
        } else {
            "s"@
        }) + " changed, "@,
{
    let mut out: Vec<char> = Vec::new();
    crate::text::push_decimal(&mut out, count as u128);
    extend_str(&mut out, " file");
    if count == 1 {
        extend_str(&mut out, "");
    } else {
        extend_str(&mut out, "s");
    }
    extend_str(&mut out, " changed, ");
    string_from_chars(out.as_slice())
}

/// The class of a changed file by its status.
pub fn diff_status_class(status: &str) -> (c: &'static str)
    ensures
        c@ == (if status@ == "added"@ {
            "added"@
        } else if status@ == "removed"@ {
            "removed"@
        } else if status@ == "renamed"@ {
            "renamed"@
        } else {
            "modified"@
        }),
{
    if is_lit(status, "added") {
        "added"
    } else if is_lit(status, "removed") {
        "removed"
    } else if is_lit(status, "renamed") {
        "renamed"
    } else {
        "modified"
    }
}

/// The letter of a changed file by its status.
pub fn diff_status_letter(status: &str) -> (c: &'static str)
    ensures
        c@ == (if status@ == "added"@ {
            "A"@
        } else if status@ == "removed"@ {
            "D"@
        } else if status@ == "renamed"@ {
            "R"@
        } else {
            "M"@
        }),
{
    if is_lit(status, "added") {
        "A"
    } else if is_lit(status, "removed") {
        "D"
    } else if is_lit(status, "renamed") {
        "R"
    } else {
        "M"
    }
}

/// The class of a line of a patch: added, deleted, a hunk header, or context.
pub fn diff_line_class(line: &str) -> (c: &'static str)
    ensures
        c@ == (if starts_with(line@, "+"@) {
            "diff-line-add"@
        } else if starts_with(line@, "-"@) {
            "diff-line-del"@
        } else if starts_with(line@, "@@"@) {
            "diff-line-hunk"@
        } else {
            "diff-line-ctx"@
        }),
{
    let l = chars_of(line);
    let plus = chars_of("+");
    let minus = chars_of("-");
    let hunk = chars_of("@@");
    if starts_with_exec(l.as_slice(), plus.as_slice()) {
        "diff-line-add"
    } else if starts_with_exec(l.as_slice(), minus.as_slice()) {
        "diff-line-del"
    } else if starts_with_exec(l.as_slice(), hunk.as_slice()) {
        "diff-line-hunk"
    } else {
        "diff-line-ctx"
    }
}

/// A line without the carriage return before its line feed.
pub open spec fn strip_cr(x: Seq<char>) -> Seq<char> {
    if x.len() > 0 && x.last() == '\r' {
        x.drop_last()
    } else {
        x
    }
}

/// The lines of a text (`str::lines`): split at each `\n`, a `\r` before it
/// removed, and no empty line after a final `\n`.
pub open spec fn text_lines(s: Seq<char>) -> Seq<Seq<char>>
    decreases s.len(),
{
    if s.len() == 0 {
        seq![]
    } else {
        match find(s, seq!['\n']) {
            Some(i) => if 0 <= i < s.len() {
                seq![strip_cr(s.take(i))] + text_lines(s.skip(i + 1))
            } else {
                seq![s]
            },
            None => seq![s],
        }
    }
}

/// The lines of a patch.
pub fn patch_lines(patch: &str) -> (lines: Vec<String>)
    ensures
        lines@.map_values(|l: String| l@) == text_lines(patch@),
{
    let cs = chars_of(patch);
    let mut out: Vec<String> = Vec::new();
    let mut pos: usize = 0;
    assert(cs@.skip(0) =~= cs@);
    while pos < cs.len()
        invariant
            pos <= cs.len(),
            cs@ == patch@,
            out@.map_values(|l: String| l@) + text_lines(cs@.skip(pos as int)) == text_lines(cs@),
        decreases cs.len() - pos,
    {
        let ghost rest = cs@.skip(pos as int);
        proof {
            crate::text::lemma_find_from_skip(cs@, seq!['\n'], pos as int, 0);
            crate::text::lemma_find_from_properties(cs@, seq!['\n'], pos as int);
        }
        match crate::text::find_char_from(cs.as_slice(), '\n', pos) {
            Some(nl) => {
                let mut end = nl;
                if end > pos && cs[end - 1] == '\r' {
                    end = end - 1;
                }
                let line = crate::text::slice_chars(cs.as_slice(), pos, end);
                proof {
                    assert(find(rest, seq!['\n']) == Some(nl - pos));
                    assert(line@ =~= strip_cr(rest.take(nl - pos)));
                    assert(rest.skip(nl - pos + 1) =~= cs@.skip(nl + 1));
                }
                let ghost before = out@.map_values(|l: String| l@);
                out.push(string_from_chars(line.as_slice()));
                assert(out@.map_values(|l: String| l@) =~= before.push(line@));
                assert(before.push(line@) + text_lines(cs@.skip(nl + 1)) =~= before + (seq![line@]
                    + text_lines(cs@.skip(nl + 1))));
                pos = nl + 1;
            },
            None => {
                let line = crate::text::slice_chars(cs.as_slice(), pos, cs.len());
                proof {
                    assert(find(rest, seq!['\n']) is None);
                    assert(line@ =~= rest);
                    assert(cs@.skip(cs.len() as int) =~= Seq::<char>::empty());
                }
                let ghost before = out@.map_values(|l: String| l@);
                out.push(string_from_chars(line.as_slice()));
                assert(out@.map_values(|l: String| l@) =~= before.push(line@));
                assert(before.push(line@) + text_lines(cs@.skip(cs.len() as int)) =~= before + seq![
                    line@,
                ]);
                pos = cs.len();
            },
        }
    }
    assert(cs@.skip(cs.len() as int) =~= Seq::<char>::empty());
    assert(out@.map_values(|l: String| l@) + Seq::<Seq<char>>::empty() =~= out@.map_values(
        |l: String| l@,
    ));
    out
}

// ── Laws of the dashboard's decisions ───────────────────────────

/// `p` occurs in `s` exactly when `contains_seq` says so.
proof fn lemma_contains_seq_occurs(s: Seq<char>, p: Seq<char>)
    ensures
        contains_seq(s, p) <==> exists|i: int|
            0 <= i && i + p.len() <= s.len() && #[trigger] s.subrange(i, i + p.len()) == p,
{
    crate::text::lemma_find_from_properties(s, p, 0);
    if contains_seq(s, p) {
        let r = find(s, p)->0;
        assert(s.subrange(r, r + p.len()) == p);
    } else {
        assert forall|i: int| 0 <= i && i + p.len() <= s.len() implies #[trigger] s.subrange(i, i + p.len()) != p by {
            assert(!crate::text::occurs_at(s, p, i));
        }
    }
}

/// The text filter is matched against entry names: with every status
/// allowed, an entry shows exactly when the (lower-case) filter is empty or
/// occurs in its lower-cased name, whatever its path and statuses; under any
/// status filter a shown entry passes that test.
pub proof fn law_text_filter_matches_names(
    e: ContentEntryView,
    filter: Seq<char>,
    status_filter: StatusFilter,
    file_status: Option<PostStatus>,
    folder_status: Option<PostStatus>,
)
    ensures
        entry_shown(e, filter, StatusFilter::All, file_status, folder_status) <==> (filter.len() == 0
            || exists|i: int|
            0 <= i && i + filter.len() <= unicode_lowercase(e.name).len() && #[trigger] unicode_lowercase(
                e.name,
            ).subrange(i, i + filter.len()) == filter),
        entry_shown(e, filter, status_filter, file_status, folder_status) ==> (filter.len() == 0
            || exists|i: int|
            0 <= i && i + filter.len() <= unicode_lowercase(e.name).len() && #[trigger] unicode_lowercase(
                e.name,
            ).subrange(i, i + filter.len()) == filter),
{
    lemma_contains_seq_occurs(unicode_lowercase(e.name), filter);
}

/// The status filter: a markdown file shows under "draft" only as a draft and
/// under "published" only as published; a folder whose single post has a
/// status shows only with the wanted one.
pub proof fn law_status_filter_keeps_wanted(
    e: ContentEntryView,
    filter: Seq<char>,
    file_status: Option<PostStatus>,
    folder_status: Option<PostStatus>,
)
    ensures
        ends_with(e.name, ".md"@) && entry_shown(e, filter, StatusFilter::Draft, file_status, folder_status)
            ==> file_status == Some(PostStatus::Draft),
        ends_with(e.name, ".md"@) && entry_shown(e, filter, StatusFilter::Published, file_status, folder_status)
            ==> file_status == Some(PostStatus::Published),
        !ends_with(e.name, ".md"@) && e.entry_type == "dir"@ && folder_status is Some && entry_shown(
            e,
            filter,
            StatusFilter::Draft,
            file_status,
            folder_status,
        ) ==> folder_status == Some(PostStatus::Draft),
        !ends_with(e.name, ".md"@) && e.entry_type == "dir"@ && folder_status is Some && entry_shown(
            e,
            filter,
            StatusFilter::Published,
            file_status,
            folder_status,
        ) ==> folder_status == Some(PostStatus::Published),
{
}

/// The CI state of a branch: no checks exactly when there are no runs;
/// pending exactly when some run (any one) has not completed; passed only
/// when every run completed and none failed; failed with the URL of the
/// first failed run once all have completed.
pub proof fn law_ci_state_of_runs(runs: Seq<CheckRun>, s: CiState)
    requires
        is_ci_state_of(runs, s),
    ensures
        (s is NoChecks) <==> runs.len() == 0,
        (s is Pending) <==> exists|i: int| 0 <= i < runs.len() && (#[trigger] runs[i]).status@ != "completed"@,
        s is Success ==> runs.len() > 0 && forall|i: int|
            0 <= i < runs.len() ==> (#[trigger] runs[i]).status@ == "completed"@ && !(runs[i].conclusion is Some && runs[i].conclusion->0@ == "failure"@),
        s matches CiState::Failure(u) ==> (forall|i: int| 0 <= i < runs.len() ==> (#[trigger] runs[i]).status@
            == "completed"@) && exists|i: int|
            0 <= i < runs.len() && ((#[trigger] runs[i]).conclusion is Some && runs[i].conclusion->0@ == "failure"@) && u@
                == runs[i].html_url@ && forall|j: int|
                0 <= j < i ==> !(runs[j].conclusion is Some && runs[j].conclusion->0@ == "failure"@),
{
    lemma_first_failure_from(runs, 0);
    if runs.len() > 0 {
        if exists|i: int| 0 <= i < runs.len() && run_pending(#[trigger] runs[i]) {
            let i = choose|i: int| 0 <= i < runs.len() && run_pending(#[trigger] runs[i]);
            assert(runs[i].status@ != "completed"@);
        } else {
            assert forall|i: int| 0 <= i < runs.len() implies (#[trigger] runs[i]).status@ == "completed"@ by {
                assert(!run_pending(runs[i]));
            }
            match first_failure_from(runs, 0) {
                Some(k) => {
                    assert(run_failed(runs[k]));
                },
                None => {},
            }
        }
    }
}

/// Where the first failed run from `i` stands.
proof fn lemma_first_failure_from(runs: Seq<CheckRun>, i: int)
    requires
        0 <= i,
    ensures
        first_failure_from(runs, i) matches Some(k) ==> i <= k < runs.len() && run_failed(runs[k])
            && forall|j: int| i <= j < k ==> !run_failed(#[trigger] runs[j]),
        first_failure_from(runs, i) is None ==> forall|j: int| i <= j < runs.len() ==> !run_failed(#[trigger] runs[j]),
    decreases runs.len() - i,
{
    if i < runs.len() && !run_failed(runs[i]) {
        lemma_first_failure_from(runs, i + 1);
    }
}

/// Names are ordered as `str` orders them: a proper prefix comes first, and
/// otherwise the first differing character decides; no name precedes itself.
pub proof fn law_names_in_str_order(a: Seq<char>, x: Seq<char>)
    ensures
        !chars_lt(a, a),
        x.len() > 0 ==> chars_lt(a, a + x) && !chars_lt(a + x, a),
    decreases a.len(),
{
    lemma_chars_lt_irrefl_asym(a, a);
    if a.len() == 0 {
        assert(a + x =~= x);
    } else {
        law_names_in_str_order(a.drop_first(), x);
        assert((a + x).drop_first() =~= a.drop_first() + x);
        assert((a + x)[0] == a[0]);
    }
}

/// The first position where two names differ decides their order.
pub proof fn law_first_difference_decides(a: Seq<char>, b: Seq<char>, i: int)
    requires
        0 <= i < a.len(),
        i < b.len(),
        a.take(i) == b.take(i),
        (a[i] as int) < (b[i] as int),
    ensures
        chars_lt(a, b),
        !chars_lt(b, a),
    decreases i,
{
    if i > 0 {
        assert(a[0] == a.take(i)[0] && b[0] == b.take(i)[0]);
        assert(a.drop_first().take(i - 1) =~= a.take(i).drop_first());
        assert(b.drop_first().take(i - 1) =~= b.take(i).drop_first());
        law_first_difference_decides(a.drop_first(), b.drop_first(), i - 1);
    }
}

/// The listing's order: a directory comes before any entry that is not one,
/// and among entries of the same kind a name comes before its extensions
/// (`blog` before `blog-archive`, `post.md` before `post.md.bak`).
pub proof fn law_listing_order(a: ContentEntryView, b: ContentEntryView)
    ensures
        a.entry_type == "dir"@ && b.entry_type != "dir"@ ==> entry_before(a, b) && !entry_before(b, a),
        (a.entry_type == "dir"@) == (b.entry_type == "dir"@) && a.name.len() < b.name.len() && b.name.take(
            a.name.len() as int,
        ) == a.name ==> entry_before(a, b) && !entry_before(b, a),
{
    if a.name.len() < b.name.len() && b.name.take(a.name.len() as int) == a.name {
        let x = b.name.skip(a.name.len() as int);
        assert(a.name + x =~= b.name);
        law_names_in_str_order(a.name, x);
    }
}

/// A file's status: no frontmatter gives none; else it is a draft exactly
/// when its first `draft` field has the value `true`.
pub proof fn law_file_draft_by_first_draft_field(fields: Seq<(Seq<char>, Seq<char>)>)
    ensures
        status_of(false, fields) == PostStatus::NoFrontmatter,
        status_of(true, fields) == PostStatus::Draft <==> exists|i: int|
            0 <= i < fields.len() && (#[trigger] fields[i]).0 == "draft"@ && fields[i].1 == "true"@ && forall|j: int|
                0 <= j < i ==> fields[j].0 != "draft"@,
        status_of(true, fields) != PostStatus::Draft ==> status_of(true, fields) == PostStatus::Published,
    decreases fields.len(),
{
    if fields.len() > 0 {
        law_file_draft_by_first_draft_field(fields.drop_first());
        if fields[0].0 == "draft"@ {
            if fields[0].1 == "true"@ {
                assert(fields[0].0 == "draft"@);
            } else {
                assert forall|i: int|
                    0 <= i < fields.len() && (#[trigger] fields[i]).0 == "draft"@ && fields[i].1 == "true"@
                    implies !(forall|j: int| 0 <= j < i ==> fields[j].0 != "draft"@) by {
                    assert(i != 0);
                    assert(fields[0].0 == "draft"@);
                }
            }
        } else {
            let t = fields.drop_first();
            if exists|i: int|
                0 <= i < fields.len() && (#[trigger] fields[i]).0 == "draft"@ && fields[i].1 == "true"@ && forall|j: int|
                    0 <= j < i ==> fields[j].0 != "draft"@ {
                let i = choose|i: int|
                    0 <= i < fields.len() && (#[trigger] fields[i]).0 == "draft"@ && fields[i].1 == "true"@ && forall|j: int|
                        0 <= j < i ==> fields[j].0 != "draft"@;
                assert(i > 0);
                assert(t[i - 1] == fields[i]);
                assert forall|j: int| 0 <= j < i - 1 implies t[j].0 != "draft"@ by {
                    assert(t[j] == fields[j + 1]);
                }
            }
            if exists|i: int|
                0 <= i < t.len() && (#[trigger] t[i]).0 == "draft"@ && t[i].1 == "true"@ && forall|j: int|
                    0 <= j < i ==> t[j].0 != "draft"@ {
                let i = choose|i: int|
                    0 <= i < t.len() && (#[trigger] t[i]).0 == "draft"@ && t[i].1 == "true"@ && forall|j: int|
                        0 <= j < i ==> t[j].0 != "draft"@;
                assert(fields[i + 1] == t[i]);
                assert forall|j: int| 0 <= j < i + 1 implies fields[j].0 != "draft"@ by {
                    if j > 0 {
                        assert(fields[j] == t[j - 1]);
                    }
                }
            }
        }
    }
}

/// A folder's status from its single post: no frontmatter gives none; else
/// it is a draft exactly when some field, wherever it stands, is
/// `draft = true`, and published otherwise.
pub proof fn law_folder_draft_iff_some_field(fields: Seq<(Seq<char>, Seq<char>)>)
    ensures
        folder_status_of(false, fields) == PostStatus::NoFrontmatter,
        folder_status_of(true, fields) == PostStatus::Draft <==> exists|i: int|
            0 <= i < fields.len() && (#[trigger] fields[i]).0 == "draft"@ && fields[i].1 == "true"@,
        folder_status_of(true, fields) != PostStatus::Draft ==> folder_status_of(true, fields)
            == PostStatus::Published,
{
    if exists|i: int| 0 <= i < fields.len() && (#[trigger] fields[i]).0 == "draft"@ && fields[i].1 == "true"@ {
        let i = choose|i: int| 0 <= i < fields.len() && (#[trigger] fields[i]).0 == "draft"@ && fields[i].1 == "true"@;
        assert(fields[i] == ("draft"@, "true"@));
    }
}

} // verus!
