//! The editor's decisions: how a file is loaded and saved, the template of
//! a new post, the name of an editor branch, formatting of the selection,
//! image uploads and the history panel.
use vstd::prelude::*;
use crate::dashboard::contains_seq;
use crate::models::FileContent;
use crate::text::{
    chars_eq, chars_of, extend_chars, extend_str, push_zero_padded, slice_chars, starts_with,
    starts_with_exec, string_from_chars, zero_padded,
};
use crate::utils::{slug_of, title_of};
use vstd::utf8::is_char_boundary;
use vstd::utf8::encode_utf8;

verus! {

broadcast use vstd::string::group_string_axioms;

// ── Modes ───────────────────────────────────────────────────────

/// What the editor shows: the text, its preview, or both side by side.
#[derive(Clone, Copy, Debug, PartialEq, Eq, Structural)]
pub enum ViewMode {
    Edit,
    Preview,
    Split,
}

/// The text area shows except in preview mode.
pub fn shows_editor(m: ViewMode) -> (b: bool)
    ensures
        b == (m != ViewMode::Preview),
{
    m != ViewMode::Preview
}

/// The preview shows except in edit mode.
pub fn shows_preview(m: ViewMode) -> (b: bool)
    ensures
        b == (m != ViewMode::Edit),
{
    m != ViewMode::Edit
}

/// A new file, or text that differs from what was loaded, has changes to save.
pub fn has_changes(content: &str, original: &str, is_new: bool) -> (b: bool)
    ensures
        b == (content@ != original@ || is_new),
{
    let a = chars_of(content);
    let o = chars_of(original);
    !chars_eq(a.as_slice(), o.as_slice()) || is_new
}

// ── Loading a file ──────────────────────────────────────────────

/// A file the editor opened: an existing one with its SHA, or a new post
/// started from the template.
#[derive(Clone, Debug, PartialEq)]
pub enum LoadedFile {
    Existing { text: String, sha: String },
    New { template: String },
}

/// The next step of loading after reading the file from the active branch.
pub enum LoadStep {
    Done(Result<LoadedFile, String>),
    /// The file is not on the branch: read it from the default branch.
    ReadDefault,
}

/// A read that failed because the file does not exist.
pub open spec fn is_not_found(e: Seq<char>) -> bool {
    contains_seq(e, "not found"@)
}

/// Whether an error says that something was not found.
fn is_not_found_exec(e: &str) -> (b: bool)
    ensures
        b == is_not_found(e@),
{
    let cs = chars_of(e);
    let nf = chars_of("not found");
    proof {
        crate::text::lemma_find_from_skip(cs@, nf@, 0, 0);
    }
    crate::text::find_from_exec(cs.as_slice(), nf.as_slice(), 0).is_some()
}

/// The text of a file that was read (no content reads as empty).
pub open spec fn file_text(f: FileContent) -> Seq<char> {
    match f.content {
        Some(c) => c@,
        None => Seq::empty(),
    }
}

/// An existing file from what was read.
fn existing(f: FileContent) -> (l: LoadedFile)
    ensures
        l matches LoadedFile::Existing { text, sha } && text@ == file_text(f) && sha == f.sha,
{
    let text = match f.content {
        Some(c) => c,
        None => String::new(),
    };
    LoadedFile::Existing { text, sha: f.sha }
}

/// What reading the file from the active branch leads to: the file, a read
/// from the default branch when it is not on the branch, or the error.
pub fn after_branch_read(r: Result<FileContent, String>) -> (step: LoadStep)
    ensures
        match r {
            Ok(f) => step matches LoadStep::Done(Ok(LoadedFile::Existing { text, sha }))
                && text@ == file_text(f) && sha == f.sha,
            Err(e) => if is_not_found(e@) {
                step is ReadDefault
            } else {
                step matches LoadStep::Done(Err(m)) && m == e
            },
        },
{
    match r {
        Ok(f) => LoadStep::Done(Ok(existing(f))),
        Err(e) => if is_not_found_exec(e.as_str()) {
            LoadStep::ReadDefault
        } else {
            LoadStep::Done(Err(e))
        },
    }
}

/// What reading the file from the default branch leads to: the file, a new
/// post from the template when it does not exist, or the error.
pub fn after_default_read(r: Result<FileContent, String>, path: &str, year: u32, month: u32, day: u32) -> (loaded: Result<LoadedFile, String>)
    ensures
        match r {
            Ok(f) => loaded matches Ok(LoadedFile::Existing { text, sha }) && text@ == file_text(f)
                && sha == f.sha,
            Err(e) => if is_not_found(e@) {
                loaded matches Ok(LoadedFile::New { template }) && template@ == template_text(
                    path@,
                    date_text(year as nat, month as nat, day as nat),
                )
            } else {
                loaded == Err::<LoadedFile, String>(e)
            },
        },
{
    match r {
        Ok(f) => Ok(existing(f)),
        Err(e) => if is_not_found_exec(e.as_str()) {
            Ok(LoadedFile::New { template: generate_template(path, year, month, day) })
        } else {
            Err(e)
        },
    }
}

// ── Dates, templates and branch names ───────────────────────────

/// A date as `YYYY-MM-DD` (the year unpadded, month and day two digits).
pub open spec fn date_text(year: nat, month: nat, day: nat) -> Seq<char> {
    crate::text::decimal(year) + "-"@ + zero_padded(month, 2) + "-"@ + zero_padded(day, 2)
}

/// Appends a date as `YYYY-MM-DD`.
fn push_date(out: &mut Vec<char>, year: u32, month: u32, day: u32)
    ensures
        final(out)@ == old(out)@ + date_text(year as nat, month as nat, day as nat),
{
    crate::text::push_decimal(out, year as u128);
    extend_str(out, "-");
    push_zero_padded(out, month as u64, 2);
    extend_str(out, "-");
    push_zero_padded(out, day as u64, 2);
    assert(final(out)@ =~= old(out)@ + date_text(year as nat, month as nat, day as nat));
}

/// A calendar day as `YYYY-MM-DD`.
pub fn date_string(year: u32, month: u32, day: u32) -> (s: String)
    ensures
        s@ == date_text(year as nat, month as nat, day as nat),
{
    let mut out: Vec<char> = Vec::new();
    push_date(&mut out, year, month, day);
    proof {
        assert(out@ =~= date_text(year as nat, month as nat, day as nat));
    }
    string_from_chars(out.as_slice())
}

/// The frontmatter template of a new post.
pub open spec fn template_text(path: Seq<char>, date: Seq<char>) -> Seq<char> {
    "+++\ntitle = \""@ + title_of(slug_of(path)) + "\"\ndate = \""@ + date
        + "\"\ndescription = \"\"\ndraft = true\n# taxonomies.tags = [\"comics\", \"games\", \"backlog\", \"movies\", \"tv\", \"whats-good\"]\n+++\n"@
}

/// The template of a new post at `path`, dated with the given day: a draft
/// titled after the post's slug.
pub fn generate_template(path: &str, year: u32, month: u32, day: u32) -> (t: String)
    ensures
        t@ == template_text(path@, date_text(year as nat, month as nat, day as nat)),
{
    let slug = crate::utils::slug_from_path(path);
    let title = crate::utils::title_from_slug(slug.as_str());
    let mut out: Vec<char> = Vec::new();
    extend_str(&mut out, "+++\ntitle = \"");
    extend_str(&mut out, title.as_str());
    extend_str(&mut out, "\"\ndate = \"");
    push_date(&mut out, year, month, day);
    extend_str(
        &mut out,
        "\"\ndescription = \"\"\ndraft = true\n# taxonomies.tags = [\"comics\", \"games\", \"backlog\", \"movies\", \"tv\", \"whats-good\"]\n+++\n",
    );
    string_from_chars(out.as_slice())
}

/// The name of the editor branch for a post, dated with the given day.
pub open spec fn editor_branch_of(path: Seq<char>, date: Seq<char>) -> Seq<char> {
    "editor/"@ + date + "-"@ + slug_of(path)
}

/// The name of the branch that edits of a post are saved on.
pub fn editor_branch_name(path: &str, year: u32, month: u32, day: u32) -> (name: String)
    ensures
        name@ == editor_branch_of(path@, date_text(year as nat, month as nat, day as nat)),
{
    let slug = crate::utils::slug_from_path(path);
    let mut out: Vec<char> = Vec::new();
    extend_str(&mut out, "editor/");
    push_date(&mut out, year, month, day);
    extend_str(&mut out, "-");
    extend_str(&mut out, slug.as_str());
    string_from_chars(out.as_slice())
}

// ── Saving ──────────────────────────────────────────────────────

/// The commit message of a save: a new file is created, an existing one updated.
pub fn save_message(path: &str, is_new: bool) -> (m: String)
    ensures
        m@ == (if is_new {
            "Create "@
        } else {
            "Update "@
        }) + path@,
{
    let mut out: Vec<char> = Vec::new();
    if is_new {
        extend_str(&mut out, "Create ");
    } else {
        extend_str(&mut out, "Update ");
    }
    extend_str(&mut out, path);
    string_from_chars(out.as_slice())
}

/// The SHA a save replaces: none for a new file.
pub fn save_sha(is_new: bool, file_sha: Option<String>) -> (sha: Option<String>)
    ensures
        sha == (if is_new {
            None
        } else {
            file_sha
        }),
{
    if is_new {
        None
    } else {
        file_sha
    }
}

/// A version is reverted to once it was picked, nothing is unsaved, and the
/// user is signed in on an editor branch.
pub fn revert_ready(pending: bool, unsaved: bool, has_token: bool, has_branch: bool) -> (b: bool)
    ensures
        b == (pending && !unsaved && has_token && has_branch),
{
    pending && !unsaved && has_token && has_branch
}

// ── Formatting the selection ────────────────────────────────────

/// The formatting buttons of the toolbar.
#[derive(Clone, Copy, Debug, PartialEq, Eq, Structural)]
pub enum FormatKind {
    Bold,
    Italic,
    Strikethrough,
    InlineCode,
    CodeBlock,
}

/// The markers and placeholder of a formatting button.
pub open spec fn markers_of(k: FormatKind) -> (Seq<char>, Seq<char>, Seq<char>) {
    match k {
        FormatKind::Bold => ("**"@, "**"@, "bold text"@),
        FormatKind::Italic => ("*"@, "*"@, "italic text"@),
        FormatKind::Strikethrough => ("~~"@, "~~"@, "strikethrough text"@),
        FormatKind::InlineCode => ("`"@, "`"@, "code"@),
        FormatKind::CodeBlock => ("```\n"@, "\n```"@, "code"@),
    }
}

/// The prefix, suffix and placeholder of a formatting button.
pub fn format_markers(k: FormatKind) -> (m: (&'static str, &'static str, &'static str))
    ensures
        (m.0@, m.1@, m.2@) == markers_of(k),
{
    match k {
        FormatKind::Bold => ("**", "**", "bold text"),
        FormatKind::Italic => ("*", "*", "italic text"),
        FormatKind::Strikethrough => ("~~", "~~", "strikethrough text"),
        FormatKind::InlineCode => ("`", "`", "code"),
        FormatKind::CodeBlock => ("```\n", "\n```", "code"),
    }
}

/// A character position held to the length of the text.
pub open spec fn clamp(pos: int, len: int) -> int {
    if pos < len {
        pos
    } else {
        len
    }
}

/// The text with the selection from `start` to `end` (character positions,
/// past the end meaning the end) wrapped in `prefix` and `suffix`, or the
/// placeholder wrapped at the cursor when nothing is selected.
pub open spec fn formatted(
    current: Seq<char>,
    start: int,
    end: int,
    prefix: Seq<char>,
    suffix: Seq<char>,
    placeholder: Seq<char>,
) -> Seq<char> {
    let s = clamp(start, current.len() as int);
    let e = clamp(end, current.len() as int);
    let inner = if s == e {
        placeholder
    } else {
        current.subrange(s, e)
    };
    current.take(s) + prefix + inner + suffix + current.skip(e)
}

/// Wraps the selection (or inserts the placeholder) with the markers.
/// The selection must not end before it starts.
pub fn apply_format(
    current: &str,
    start: usize,
    end: usize,
    prefix: &str,
    suffix: &str,
    placeholder: &str,
) -> (out: String)
    requires
        clamp(start as int, current@.len() as int) <= clamp(end as int, current@.len() as int),
    ensures
        out@ == formatted(current@, start as int, end as int, prefix@, suffix@, placeholder@),
{
    let cs = chars_of(current);
    let s = if start < cs.len() {
        start
    } else {
        cs.len()
    };
    let e = if end < cs.len() {
        end
    } else {
        cs.len()
    };
    let head = slice_chars(cs.as_slice(), 0, s);
    let tail = slice_chars(cs.as_slice(), e, cs.len());
    let mut out: Vec<char> = Vec::new();
    extend_chars(&mut out, head.as_slice());
    extend_str(&mut out, prefix);
    if s == e {
        extend_str(&mut out, placeholder);
    } else {
        let sel = slice_chars(cs.as_slice(), s, e);
        extend_chars(&mut out, sel.as_slice());
    }
    extend_str(&mut out, suffix);
    extend_chars(&mut out, tail.as_slice());
    assert(out@ =~= formatted(current@, start as int, end as int, prefix@, suffix@, placeholder@));
    string_from_chars(out.as_slice())
}

/// Formatting keeps the text around the selection and wraps it: the text
/// before the (clamped) start and after the (clamped) end stays as it was,
/// and between them stand the prefix, the selected text (or the placeholder
/// at a bare cursor) and the suffix; nothing else changes.
pub proof fn law_format_wraps_selection(
    current: Seq<char>,
    start: int,
    end: int,
    prefix: Seq<char>,
    suffix: Seq<char>,
    placeholder: Seq<char>,
)
    requires
        0 <= start,
        0 <= end,
    ensures
        ({
            let n = current.len() as int;
            let s = if start < n { start } else { n };
            let e = if end < n { end } else { n };
            let out = formatted(current, start, end, prefix, suffix, placeholder);
            let inner = if s == e { placeholder } else { current.subrange(s, e) };
            let k = prefix.len() + inner.len() + suffix.len();
            s <= e ==> {
                &&& out.len() == s + k + (n - e)
                &&& out.take(s) == current.take(s)
                &&& out.subrange(s, s + prefix.len()) == prefix
                &&& out.subrange(s + prefix.len(), s + prefix.len() + inner.len()) == inner
                &&& out.subrange(s + prefix.len() + inner.len(), s + k) == suffix
                &&& out.skip(s + k) == current.skip(e)
            }
        }),
        start == end ==> ({
            let n = current.len() as int;
            let s = if start < n { start } else { n };
            formatted(current, start, end, prefix, suffix, placeholder) == current.take(s) + prefix
                + placeholder + suffix + current.skip(s)
        }),
{
    let n = current.len() as int;
    let s = if start < n { start } else { n };
    let e = if end < n { end } else { n };
    let out = formatted(current, start, end, prefix, suffix, placeholder);
    let inner = if s == e { placeholder } else { current.subrange(s, e) };
    let k = prefix.len() + inner.len() + suffix.len();
    if s <= e {
        assert(out == current.take(s) + prefix + inner + suffix + current.skip(e));
        assert(out.take(s) =~= current.take(s));
        assert(out.subrange(s, s + prefix.len()) =~= prefix);
        assert(out.subrange(s + prefix.len(), s + prefix.len() + inner.len()) =~= inner);
        assert(out.subrange(s + prefix.len() + inner.len(), s + k) =~= suffix);
        assert(out.skip(s + k) =~= current.skip(e));
    }
}

// ── Image uploads ───────────────────────────────────────────────

/// The image types that can be uploaded.
pub open spec fn supported_image(mime: Seq<char>) -> bool {
    ||| mime == "image/png"@
    ||| mime == "image/jpeg"@
    ||| mime == "image/gif"@
    ||| mime == "image/webp"@
    ||| mime == "image/svg+xml"@
}

/// Whether an image type can be uploaded.
pub fn is_supported_image_type(mime: &str) -> (b: bool)
    ensures
        b == supported_image(mime@),
{
    let m = chars_of(mime);
    let png = chars_of("image/png");
    let jpeg = chars_of("image/jpeg");
    let gif = chars_of("image/gif");
    let webp = chars_of("image/webp");
    let svg = chars_of("image/svg+xml");
    chars_eq(m.as_slice(), png.as_slice()) || chars_eq(m.as_slice(), jpeg.as_slice()) || chars_eq(
        m.as_slice(),
        gif.as_slice(),
    ) || chars_eq(m.as_slice(), webp.as_slice()) || chars_eq(m.as_slice(), svg.as_slice())
}

/// The error for an image type that cannot be uploaded.
pub fn unsupported_image_message(mime: &str) -> (m: String)
    ensures
        m@ == "Unsupported image type: "@ + mime@,
{
    let mut out: Vec<char> = Vec::new();
    extend_str(&mut out, "Unsupported image type: ");
    extend_str(&mut out, mime);
    string_from_chars(out.as_slice())
}

/// The largest image that can be uploaded: ten megabytes.
pub open spec fn max_image_bytes() -> nat {
    10485760
}

/// Whether an image is too large to upload.
pub fn image_too_large(size: u64) -> (b: bool)
    ensures
        b == (size > max_image_bytes()),
{
    size > 10485760
}

/// The size in megabytes with one decimal, as `{:.1}` formats the `f64`
/// quotient of the size by a megabyte.
pub open spec fn megabytes_text(size: nat) -> Seq<char> {
    crate::utils::megabytes_of(size)
}

/// The error for an image that is too large, for any size.
pub fn too_large_message(size: u64) -> (m: String)
    ensures
        m@ == "Image too large ("@ + megabytes_text(size as nat) + " MB). Maximum size is 10 MB."@,
{
    let mut out: Vec<char> = Vec::new();
    extend_str(&mut out, "Image too large (");
    crate::utils::push_megabytes(&mut out, size);
    extend_str(&mut out, " MB). Maximum size is 10 MB.");
    string_from_chars(out.as_slice())
}

/// The markdown that shows an uploaded image.
pub open spec fn image_ref_of(name: Seq<char>) -> Seq<char> {
    "!["@ + name + "]("@ + name + ")"@
}

/// The markdown that shows an uploaded image: `![name](name)`.
pub fn image_markdown(name: &str) -> (r: String)
    ensures
        r@ == image_ref_of(name@),
{
    let mut out: Vec<char> = Vec::new();
    extend_str(&mut out, "![");
    extend_str(&mut out, name);
    extend_str(&mut out, "](");
    extend_str(&mut out, name);
    extend_str(&mut out, ")");
    string_from_chars(out.as_slice())
}

/// The text with an image reference put at the cursor (a character
/// position, past the end meaning the end), or on a line of its own at the
/// end when the cursor is unknown.
pub open spec fn with_image_ref(current: Seq<char>, md_ref: Seq<char>, cursor: Option<int>) -> Seq<char> {
    match cursor {
        Some(p) => current.take(clamp(p, current.len() as int)) + md_ref + current.skip(
            clamp(p, current.len() as int),
        ),
        None => current + "\n"@ + md_ref,
    }
}

/// Inserts an image reference at the cursor, or appends it on a new line.
pub fn insert_image_ref(current: &str, md_ref: &str, cursor: Option<u32>) -> (out: String)
    ensures
        out@ == with_image_ref(
            current@,
            md_ref@,
            match cursor {
                Some(p) => Some(p as int),
                None => None,
            },
        ),
{
    let cs = chars_of(current);
    let mut out: Vec<char> = Vec::new();
    match cursor {
        Some(p) => {
            let at = if (p as usize) < cs.len() {
                p as usize
            } else {
                cs.len()
            };
            let head = slice_chars(cs.as_slice(), 0, at);
            let tail = slice_chars(cs.as_slice(), at, cs.len());
            extend_chars(&mut out, head.as_slice());
            extend_str(&mut out, md_ref);
            extend_chars(&mut out, tail.as_slice());
        },
        None => {
            extend_chars(&mut out, cs.as_slice());
            extend_str(&mut out, "\n");
            extend_str(&mut out, md_ref);
        },
    }
    string_from_chars(out.as_slice())
}

/// The commit message of an image upload.
pub fn upload_message(name: &str) -> (m: String)
    ensures
        m@ == "Upload image "@ + name@,
{
    let mut out: Vec<char> = Vec::new();
    extend_str(&mut out, "Upload image ");
    extend_str(&mut out, name);
    string_from_chars(out.as_slice())
}

/// The note shown once an image is uploaded.
pub fn uploaded_note(name: &str) -> (m: String)
    ensures
        m@ == "Uploaded "@ + name@,
{
    let mut out: Vec<char> = Vec::new();
    extend_str(&mut out, "Uploaded ");
    extend_str(&mut out, name);
    string_from_chars(out.as_slice())
}

/// The first dropped file that is an image, by its type.
pub fn first_image(types: &[String]) -> (i: Option<usize>)
    ensures
        match i {
            Some(k) => k < types.len() && starts_with(types@[k as int]@, "image/"@) && forall|j: int|
                0 <= j < k ==> !starts_with(#[trigger] types@[j]@, "image/"@),
            None => forall|j: int|
                0 <= j < types.len() ==> !starts_with(#[trigger] types@[j]@, "image/"@),
        },
{
    let prefix = chars_of("image/");
    let mut k: usize = 0;
    while k < types.len()
        invariant
            k <= types.len(),
            prefix@ == "image/"@,
            forall|j: int| 0 <= j < k ==> !starts_with(#[trigger] types@[j]@, "image/"@),
        decreases types.len() - k,
    {
        let t = chars_of(types[k].as_str());
        if starts_with_exec(t.as_slice(), prefix.as_slice()) {
            return Some(k);
        }
        k = k + 1;
    }
    None
}

// ── History panel ───────────────────────────────────────────────

/// The first `n` bytes of `s` (or all of it), where a character starts.
pub open spec fn byte_prefix_ok(s: Seq<char>, n: int) -> bool {
    n >= encode_utf8(s).len() || is_char_boundary(encode_utf8(s), n)
}

/// The first seven bytes of a commit SHA, or all of a shorter one; the cut
/// must fall between characters, as it does in a hex SHA.
pub fn short_sha(sha: &str) -> (short: &str)
    requires
        byte_prefix_ok(sha@, 7),
    ensures
        encode_utf8(short@) == encode_utf8(sha@).take(
            if encode_utf8(sha@).len() < 7 {
                encode_utf8(sha@).len() as int
            } else {
                7
            },
        ),
{
    let n = sha.as_bytes().len();
    let cut = if n < 7 {
        n
    } else {
        7
    };
    proof {
        if cut == n {
            vstd::utf8::encode_utf8_valid_utf8(sha@);
            vstd::utf8::is_char_boundary_start_end_of_seq(encode_utf8(sha@));
        }
    }
    let (head, _) = sha.split_at(cut);
    assert(encode_utf8(sha@).take(cut as int) =~= encode_utf8(sha@).subrange(0, cut as int));
    head
}

/// A commit message cut to sixty bytes with an ellipsis when it is longer;
/// the cut must fall between characters.
pub fn short_message(message: &str) -> (short: String)
    requires
        byte_prefix_ok(message@, 60),
    ensures
        encode_utf8(message@).len() > 60 ==> encode_utf8(short@) == encode_utf8(message@).take(60)
            + encode_utf8("\u{2026}"@),
        encode_utf8(message@).len() <= 60 ==> short@ == message@,
{
    if message.as_bytes().len() > 60 {
        let (head, _) = message.split_at(60);
        let mut out: Vec<char> = Vec::new();
        extend_str(&mut out, head);
        extend_str(&mut out, "\u{2026}");
        proof {
            crate::utils::lemma_encode_utf8_concat(head@, "\u{2026}"@);
            assert(encode_utf8(message@).take(60) =~= encode_utf8(message@).subrange(0, 60));
        }
        string_from_chars(out.as_slice())
    } else {
        message.to_string()
    }
}

} // verus!
