//! Markdown post handling: TOML frontmatter, directories of post files,
//! image sources in rendered HTML and MIME types of images.
use vstd::prelude::*;
use crate::text::{
    chars_of, contains_char_exec, ends_with, extend_chars, extend_str, find, find_char_from, find_from, find_from_exec,
    is_whitespace, last_index_of, last_index_of_exec, lemma_find_from_properties,
    lemma_find_from_skip, occurs_at, slice_chars, starts_with, starts_with_exec, string_from_chars,
    unicode_is_whitespace,
};

use crate::encoding::{base64_encode, base64_of_bytes};

verus! {

broadcast use vstd::string::group_string_axioms;

// ── Leading whitespace ──────────────────────────────────────────

/// The number of whitespace characters at the start of `s`.
pub open spec fn leading_ws(s: Seq<char>) -> nat
    decreases s.len(),
{
    if s.len() > 0 && unicode_is_whitespace(s[0]) {
        1 + leading_ws(s.drop_first())
    } else {
        0
    }
}

/// `s` without its leading whitespace (`str::trim_start`).
pub open spec fn trim_start(s: Seq<char>) -> Seq<char> {
    s.skip(leading_ws(s) as int)
}

pub proof fn lemma_leading_ws_skip(s: Seq<char>, i: int)
    requires
        0 <= i <= s.len(),
        forall|j: int| 0 <= j < i ==> unicode_is_whitespace(s[j]),
    ensures
        leading_ws(s) == i + leading_ws(s.skip(i)),
        leading_ws(s) <= s.len(),
    decreases i,
{
    if i > 0 {
        lemma_leading_ws_skip(s.drop_first(), i - 1);
        assert(s.drop_first().skip(i - 1) =~= s.skip(i));
    } else {
        assert(s.skip(0) =~= s);
        lemma_leading_ws_bound(s);
    }
}

pub proof fn lemma_leading_ws_bound(s: Seq<char>)
    ensures
        leading_ws(s) <= s.len(),
    decreases s.len(),
{
    if s.len() > 0 && unicode_is_whitespace(s[0]) {
        lemma_leading_ws_bound(s.drop_first());
    }
}

/// The number of leading whitespace characters of `s`.
pub fn leading_ws_exec(s: &[char]) -> (n: usize)
    ensures
        n == leading_ws(s@),
        n <= s.len(),
{
    let mut i: usize = 0;
    while i < s.len() && is_whitespace(s[i])
        invariant
            i <= s.len(),
            forall|j: int| 0 <= j < i ==> unicode_is_whitespace(s@[j]),
        decreases s.len() - i,
    {
        i = i + 1;
    }
    proof {
        lemma_leading_ws_skip(s@, i as int);
        if i < s.len() {
            assert(!unicode_is_whitespace(s@.skip(i as int)[0]));
        } else {
            assert(s@.skip(i as int).len() == 0);
        }
    }
    i
}

// ── Frontmatter ─────────────────────────────────────────────────

/// The markdown body of a post: what follows the closing `+++` of a
/// frontmatter block (and the newline after it), or the whole content when
/// it does not begin, after whitespace, with a closed `+++` block.
pub open spec fn body_of(content: Seq<char>) -> Seq<char> {
    let t = trim_start(content);
    if !starts_with(t, "+++"@) {
        content
    } else {
        match find(t.skip(3), "\n+++"@) {
            Some(e) => {
                let after = t.skip(3 + e + 4);
                if starts_with(after, "\n"@) {
                    after.skip(1)
                } else {
                    after
                }
            },
            None => content,
        }
    }
}

/// The raw TOML text between the `+++` delimiters, when the content begins,
/// after whitespace, with a closed `+++` block; empty when the closing line
/// directly follows the opening one.
pub open spec fn frontmatter_of(content: Seq<char>) -> Option<Seq<char>> {
    let t = trim_start(content);
    if !starts_with(t, "+++"@) {
        None
    } else if starts_with(t.skip(3), "\n+++"@) {
        Some(Seq::empty())
    } else {
        let a0 = t.skip(3);
        let a = if starts_with(a0, "\n"@) {
            a0.skip(1)
        } else {
            a0
        };
        match find(a, "\n+++"@) {
            Some(e) => Some(a.take(e)),
            None => None,
        }
    }
}

/// Where `find(s.skip(k), p)` lands in `s`.
proof fn lemma_find_in_suffix(s: Seq<char>, p: Seq<char>, k: int)
    requires
        0 <= k <= s.len(),
    ensures
        find(s.skip(k), p) == (match find_from(s, p, k) {
            Some(i) => Some(i - k),
            None => None,
        }),
        find_from(s, p, k) matches Some(i) ==> k <= i && i + p.len() <= s.len(),
{
    lemma_find_from_skip(s, p, k, 0);
    lemma_find_from_properties(s, p, k);
}

/// Strips TOML frontmatter (delimited by `+++`) from content, returning
/// just the markdown body.
pub fn strip_frontmatter(content: &str) -> (body: &str)
    ensures
        body@ == body_of(content@),
{
    let cs = chars_of(content);
    let w = leading_ws_exec(cs.as_slice());
    let t = slice_chars(cs.as_slice(), w, cs.len());
    assert(t@ =~= trim_start(content@));
    let open = chars_of("+++");
    if !starts_with_exec(t.as_slice(), open.as_slice()) {
        return content.substring_char(0, cs.len());
    }
    let close = chars_of("\n+++");
    proof {
        reveal_strlit("+++");
        reveal_strlit("\n+++");
        reveal_strlit("\n");
        assert("\n"@ =~= seq!['\n']);
        lemma_find_in_suffix(t@, close@, 3);
    }
    match find_from_exec(t.as_slice(), close.as_slice(), 3) {
        Some(e_abs) => {
            let after_start = e_abs + 4;
            let mut start = w + after_start;
            if after_start < t.len() && t[after_start] == '\n' {
                start = start + 1;
            }
            proof {
                let e = e_abs - 3;
                assert(find(t@.skip(3), "\n+++"@) == Some(e));
                assert(t@.skip(3).skip(e + 4) =~= t@.skip(after_start as int));
                let after = t@.skip(after_start as int);
                if after_start < t.len() && t@[after_start as int] == '\n' {
                    assert(after.take(1) =~= seq!['\n']);
                    assert(after.skip(1) =~= t@.skip(after_start + 1));
                } else if after.len() >= 1 {
                    assert(after.take(1)[0] != '\n');
                }
                assert(t@ == content@.skip(w as int));
                assert(content@.subrange(start as int, cs.len() as int) =~= t@.skip(start - w));
            }
            content.substring_char(start, cs.len())
        },
        None => {
            assert(content@.subrange(0, cs.len() as int) =~= content@);
            content.substring_char(0, cs.len())
        },
    }
}

/// Extracts the raw TOML text between `+++` delimiters, if present.
pub fn extract_frontmatter(content: &str) -> (fm: Option<&str>)
    ensures
        fm matches Some(f) ==> frontmatter_of(content@) == Some(f@),
        fm is None ==> frontmatter_of(content@) is None,
{
    let cs = chars_of(content);
    let w = leading_ws_exec(cs.as_slice());
    let t = slice_chars(cs.as_slice(), w, cs.len());
    assert(t@ =~= trim_start(content@));
    let open = chars_of("+++");
    if !starts_with_exec(t.as_slice(), open.as_slice()) {
        return None;
    }
    proof {
        reveal_strlit("+++");
        reveal_strlit("\n+++");
        reveal_strlit("\n");
        assert("\n"@ =~= seq!['\n']);
    }
    let close = chars_of("\n+++");
    proof {
        if t.len() >= 7 {
            assert(t@.skip(3).take(4) =~= t@.subrange(3, 7));
        }
    }
    if crate::text::occurs_at_exec(t.as_slice(), close.as_slice(), 3) {
        assert(content@.subrange((w + 3) as int, (w + 3) as int) =~= Seq::<char>::empty());
        return Some(content.substring_char(w + 3, w + 3));
    }
    let a_start: usize = if 3 < t.len() && t[3] == '\n' {
        4
    } else {
        3
    };
    proof {
        lemma_find_in_suffix(t@, close@, a_start as int);
        let a0 = t@.skip(3);
        if 3 < t.len() && t@[3] == '\n' {
            assert(a0.take(1) =~= seq!['\n']);
            assert(a0.skip(1) =~= t@.skip(4));
        } else if a0.len() >= 1 {
            assert(a0.take(1)[0] != '\n');
        }
        let a = if starts_with(a0, "\n"@) {
            a0.skip(1)
        } else {
            a0
        };
        assert(a =~= t@.skip(a_start as int));
    }
    match find_from_exec(t.as_slice(), close.as_slice(), a_start) {
        Some(e_abs) => {
            proof {
                assert(t@ == content@.skip(w as int));
                assert(content@.subrange((w + a_start) as int, (w + e_abs) as int) =~= t@.skip(
                    a_start as int,
                ).take(e_abs - a_start));
            }
            Some(content.substring_char(w + a_start, w + e_abs))
        },
        None => None,
    }
}

/// The first occurrence of `p` from `i` is at `m` when it occurs there and
/// nowhere between.
proof fn lemma_find_from_first(s: Seq<char>, p: Seq<char>, i: int, m: int)
    requires
        0 <= i <= m,
        occurs_at(s, p, m),
        forall|j: int| i <= j < m ==> !occurs_at(s, p, j),
    ensures
        find_from(s, p, i) == Some(m),
    decreases m - i,
{
    if i < m {
        lemma_find_from_first(s, p, i + 1, m);
    }
}

/// In `x + "\n+++" + y`, where `x` holds no `"\n+++"`, the first `"\n+++"` is
/// the one after `x`.
proof fn lemma_close_found(x: Seq<char>, y: Seq<char>)
    requires
        find(x, "\n+++"@) is None,
    ensures
        find(x + "\n+++"@ + y, "\n+++"@) == Some(x.len() as int),
{
    reveal_strlit("\n+++");
    let p = "\n+++"@;
    let s = x + p + y;
    lemma_find_from_properties(x, p, 0);
    assert forall|j: int| 0 <= j < x.len() implies !occurs_at(s, p, j) by {
        if occurs_at(s, p, j) {
            if j + 4 <= x.len() {
                assert(s.subrange(j, j + 4) =~= x.subrange(j, j + 4));
                assert(occurs_at(x, p, j));
            } else {
                // the match would reach the line break that opens the closing mark
                let k = x.len() - j;
                assert(s[x.len() as int] == '\n');
                assert(s.subrange(j, j + 4)[k] == s[x.len() as int]);
                assert(p[k] == '+');
            }
        }
    }
    assert(s.subrange(x.len() as int, x.len() as int + 4) =~= p);
    lemma_find_from_first(s, p, 0, x.len() as int);
}

/// A post written as a frontmatter block and a body reads back as both:
/// extracting gives the TOML text and stripping gives the body, whatever
/// whitespace precedes the block, when the TOML text holds no line that
/// starts with the closing `+++`.
pub proof fn law_frontmatter_round_trip(lead: Seq<char>, toml: Seq<char>, body: Seq<char>)
    requires
        forall|i: int| 0 <= i < lead.len() ==> unicode_is_whitespace(#[trigger] lead[i]),
        find("\n"@ + toml, "\n+++"@) is None,
    ensures
        frontmatter_of(lead + ("+++\n"@ + toml + "\n+++\n"@ + body)) == Some(toml),
        body_of(lead + ("+++\n"@ + toml + "\n+++\n"@ + body)) == body,
{
    lemma_round_trip_unindented(toml, body);
    let c0 = "+++\n"@ + toml + "\n+++\n"@ + body;
    let c = lead + c0;
    assert(c.skip(lead.len() as int) =~= c0);
    assert forall|j: int| 0 <= j < lead.len() implies unicode_is_whitespace(c[j]) by {
        assert(c[j] == lead[j]);
    }
    lemma_leading_ws_skip(c, lead.len() as int);
    reveal_strlit("+++\n");
    assert(c0[0] == '+');
    assert(leading_ws(c0) == 0);
    assert(trim_start(c0) =~= c0);
    assert(trim_start(c) =~= c0);
}

/// The round trip of a frontmatter block at the very start of the content.
proof fn lemma_round_trip_unindented(toml: Seq<char>, body: Seq<char>)
    requires
        find("\n"@ + toml, "\n+++"@) is None,
    ensures
        frontmatter_of("+++\n"@ + toml + "\n+++\n"@ + body) == Some(toml),
        body_of("+++\n"@ + toml + "\n+++\n"@ + body) == body,
{
    reveal_strlit("+++\n");
    reveal_strlit("\n+++\n");
    reveal_strlit("\n+++");
    reveal_strlit("\n");
    reveal_strlit("+++");
    let c = "+++\n"@ + toml + "\n+++\n"@ + body;
    let nl = "\n"@;
    let close = "\n+++"@;
    let rest = nl + body;
    // no leading whitespace: the content starts with `+`
    assert(!unicode_is_whitespace(c[0]));
    assert(leading_ws(c) == 0);
    assert(trim_start(c) =~= c);
    assert(c.take(3) =~= "+++"@);
    // the closing mark as `strip_frontmatter` finds it
    assert(c.skip(3) =~= (nl + toml) + close + rest);
    lemma_close_found(nl + toml, rest);
    assert(c.skip(3).skip(toml.len() as int + 1 + 4) =~= rest);
    assert(find(c.skip(3), close) == Some(toml.len() as int + 1));
    assert(c.skip(3 + (toml.len() as int + 1) + 4) =~= rest);
    assert(rest.take(1) =~= nl);
    assert(starts_with(rest, nl));
    assert(rest.take(1) =~= nl);
    assert(rest.skip(1) =~= body);
    // the closing mark as `extract_frontmatter` finds it
    assert(c.skip(3).take(1) =~= nl);
    assert(c.skip(3).skip(1) =~= toml + close + rest);
    lemma_find_from_properties(nl + toml, close, 0);
    assert(find(toml, close) is None) by {
        lemma_find_from_properties(toml, close, 0);
        if find(toml, close) is Some {
            let j = find(toml, close)->0;
            assert((nl + toml).subrange(j + 1, j + 5) =~= toml.subrange(j, j + 4));
            assert(occurs_at(nl + toml, close, j + 1));
        }
    }
    lemma_close_found(toml, rest);
    assert((toml + close + rest).take(toml.len() as int) =~= toml);
}

// ── Directories ─────────────────────────────────────────────────

/// The directory part of a repo path: everything before its last `/`,
/// or nothing for a top-level file.
pub open spec fn dir_of(path: Seq<char>) -> Seq<char> {
    match last_index_of(path, '/') {
        Some(i) => path.take(i),
        None => seq![],
    }
}

/// Returns the parent directory of a repo file path (everything before the
/// last `/`); `""` for top-level files with no directory component.
pub fn post_dir(path: &str) -> (dir: &str)
    ensures
        dir@ == dir_of(path@),
{
    let cs = chars_of(path);
    match last_index_of_exec(cs.as_slice(), '/') {
        Some(i) => {
            assert(path@.subrange(0, i as int) =~= path@.take(i as int));
            path.substring_char(0, i)
        },
        None => {
            assert(path@.subrange(0, 0) =~= Seq::<char>::empty());
            path.substring_char(0, 0)
        },
    }
}

// ── MIME types ──────────────────────────────────────────────────

/// `c` in lower case when it is an ASCII capital letter (`char::to_ascii_lowercase`).
pub open spec fn ascii_lower(c: char) -> char {
    if 'A' <= c && c <= 'Z' {
        ((c as u32) + 32) as char
    } else {
        c
    }
}

/// The extension of a path: what follows its last `.`, or the whole path
/// (the first item of `str::rsplit('.')`).
pub open spec fn extension_of(path: Seq<char>) -> Seq<char> {
    crate::text::after_last(path, '.')
}

/// The MIME type of an image file by its lower-cased extension.
pub open spec fn mime_for_extension(ext: Seq<char>) -> Seq<char> {
    if ext == "png"@ {
        "image/png"@
    } else if ext == "jpg"@ || ext == "jpeg"@ {
        "image/jpeg"@
    } else if ext == "gif"@ {
        "image/gif"@
    } else if ext == "webp"@ {
        "image/webp"@
    } else if ext == "svg"@ {
        "image/svg+xml"@
    } else {
        "application/octet-stream"@
    }
}

fn ascii_lower_exec(c: char) -> (r: char)
    ensures
        r == ascii_lower(c),
{
    if 'A' <= c && c <= 'Z' {
        ((c as u8) + 32) as char
    } else {
        c
    }
}

/// The extension of `path`, lower-cased in ASCII.
fn ascii_lower_extension(path: &str) -> (ext: Vec<char>)
    ensures
        ext@ == extension_of(path@).map_values(|c: char| ascii_lower(c)),
{
    let cs = chars_of(path);
    let start = match last_index_of_exec(cs.as_slice(), '.') {
        Some(i) => i + 1,
        None => 0,
    };
    let raw = slice_chars(cs.as_slice(), start, cs.len());
    assert(raw@ =~= extension_of(path@));
    let mut ext: Vec<char> = Vec::new();
    let mut i: usize = 0;
    while i < raw.len()
        invariant
            i <= raw.len(),
            ext@ == raw@.take(i as int).map_values(|c: char| ascii_lower(c)),
        decreases raw.len() - i,
    {
        ext.push(ascii_lower_exec(raw[i]));
        i = i + 1;
        assert(ext@ =~= raw@.take(i as int).map_values(|c: char| ascii_lower(c)));
    }
    assert(raw@.take(raw.len() as int) =~= raw@);
    ext
}

/// Whether the characters `v` spell the literal `lit`.
fn is_lit(v: &[char], lit: &str) -> (b: bool)
    ensures
        b == (v@ == lit@),
{
    let l = chars_of(lit);
    crate::text::chars_eq(v, l.as_slice())
}

/// The MIME type of an image path, by its extension in ASCII lower case.
pub open spec fn mime_of_path(path: Seq<char>) -> Seq<char> {
    mime_for_extension(extension_of(path).map_values(|c: char| ascii_lower(c)))
}

/// Maps a file path's extension to a MIME type string.
pub fn mime_type_for(path: &str) -> (mime: &'static str)
    ensures
        mime@ == mime_of_path(path@),
{
    let ext = ascii_lower_extension(path);
    let e = ext.as_slice();
    if is_lit(e, "png") {
        "image/png"
    } else if is_lit(e, "jpg") || is_lit(e, "jpeg") {
        "image/jpeg"
    } else if is_lit(e, "gif") {
        "image/gif"
    } else if is_lit(e, "webp") {
        "image/webp"
    } else if is_lit(e, "svg") {
        "image/svg+xml"
    } else {
        "application/octet-stream"
    }
}

// ── Data URLs ───────────────────────────────────────────────────

/// A `data:` URL of the given MIME type holding base64 text.
pub open spec fn data_url(mime: Seq<char>, b64: Seq<char>) -> Seq<char> {
    "data:"@ + mime + ";base64,"@ + b64
}

/// Encodes raw bytes as a `data:` URL suitable for use in an `<img src>`.
pub fn bytes_to_data_url(bytes: &[u8], path: &str) -> (url: String)
    ensures
        url@ == data_url(mime_of_path(path@), base64_encode(bytes@)),
{
    let mime = mime_type_for(path);
    let encoded = base64_of_bytes(bytes);
    let mut out: Vec<char> = Vec::new();
    extend_str(&mut out, "data:");
    extend_str(&mut out, mime);
    extend_str(&mut out, ";base64,");
    extend_str(&mut out, encoded.as_str());
    string_from_chars(out.as_slice())
}

// ── Image sources ───────────────────────────────────────────────

/// The length of an `<img` tag's body in `s`: up to its first `>`, or all of `s`.
pub open spec fn tag_end(s: Seq<char>) -> int {
    match find(s, seq!['>']) {
        Some(e) => e,
        None => s.len() as int,
    }
}

/// `s` up to its first `c`, or all of `s` (the first item of `str::split(c)`).
pub open spec fn before_char(s: Seq<char>, c: char) -> Seq<char> {
    match find(s, seq![c]) {
        Some(i) => s.take(i),
        None => s,
    }
}

/// The index of the first character of `s` that `stop` holds of, or its length.
pub open spec fn first_stop(s: Seq<char>, gt_stops: bool) -> int
    decreases s.len(),
{
    if s.len() == 0 {
        0
    } else if unicode_is_whitespace(s[0]) || (gt_stops && s[0] == '>') {
        0
    } else {
        1 + first_stop(s.drop_first(), gt_stops)
    }
}

/// The first whitespace-separated word of `s`, or nothing when `s` is all
/// whitespace (the first item of `str::split_whitespace`).
pub open spec fn first_token(s: Seq<char>) -> Seq<char> {
    let t = trim_start(s);
    t.take(first_stop(t, false))
}

/// The value of a `src=` attribute from the text that follows `src=`:
/// up to the closing quote when quoted, else its first word.
pub open spec fn src_value(after: Seq<char>) -> Seq<char> {
    if starts_with(after, seq!['"']) {
        before_char(after.skip(1), '"')
    } else if starts_with(after, seq!['\'']) {
        before_char(after.skip(1), '\'')
    } else {
        first_token(after)
    }
}

/// The `src` value of a tag body, if the body holds `src=`.
pub open spec fn tag_src(tag: Seq<char>) -> Option<Seq<char>> {
    match find(tag, "src="@) {
        Some(p) => Some(src_value(tag.skip(p + 4))),
        None => None,
    }
}

/// A source is relative unless it is empty or starts with `http`, `//`, `/` or `data:`.
pub open spec fn is_relative_src(v: Seq<char>) -> bool {
    &&& v.len() > 0
    &&& !starts_with(v, "http"@)
    &&& !starts_with(v, "//"@)
    &&& !starts_with(v, "/"@)
    &&& !starts_with(v, "data:"@)
}

/// The relative `src` values of the `<img` tags of `html`, in order.
pub open spec fn relative_srcs(html: Seq<char>) -> Seq<Seq<char>>
    decreases html.len(),
{
    match find(html, "<img"@) {
        Some(p) => if 0 <= p && p + 4 <= html.len() {
            let rest = html.skip(p + 4);
            let tag = rest.take(tag_end(rest));
            let here = match tag_src(tag) {
                Some(v) => if is_relative_src(v) {
                    seq![v]
                } else {
                    seq![]
                },
                None => seq![],
            };
            here + relative_srcs(rest)
        } else {
            seq![]
        },
        None => seq![],
    }
}

pub proof fn lemma_first_stop(s: Seq<char>, gt_stops: bool)
    ensures
        0 <= first_stop(s, gt_stops) <= s.len(),
        forall|j: int|
            0 <= j < first_stop(s, gt_stops) ==> !(unicode_is_whitespace(s[j]) || (gt_stops && s[j]
                == '>')),
        first_stop(s, gt_stops) < s.len() ==> (unicode_is_whitespace(s[first_stop(s, gt_stops)]) || (
        gt_stops && s[first_stop(s, gt_stops)] == '>')),
    decreases s.len(),
{
    if s.len() > 0 && !(unicode_is_whitespace(s[0]) || (gt_stops && s[0] == '>')) {
        lemma_first_stop(s.drop_first(), gt_stops);
        assert(forall|j: int| 1 <= j < s.len() ==> s.drop_first()[j - 1] == s[j]);
    }
}

pub fn first_stop_exec(s: &[char], gt_stops: bool) -> (n: usize)
    ensures
        n == first_stop(s@, gt_stops),
        n <= s.len(),
{
    proof {
        lemma_first_stop(s@, gt_stops);
    }
    let mut i: usize = 0;
    while i < s.len() && !(is_whitespace(s[i]) || (gt_stops && s[i] == '>'))
        invariant
            i <= s.len(),
            forall|j: int|
                0 <= j < i ==> !(unicode_is_whitespace(s@[j]) || (gt_stops && s@[j] == '>')),
        decreases s.len() - i,
    {
        i = i + 1;
    }
    proof {
        lemma_first_stop(s@, gt_stops);
    }
    i
}

/// The characters of `s` before the first `c`, or all of them.
fn before_char_exec(s: &[char], c: char) -> (v: Vec<char>)
    ensures
        v@ == before_char(s@, c),
{
    match find_char_from(s, c, 0) {
        Some(i) => slice_chars(s, 0, i),
        None => slice_chars(s, 0, s.len()),
    }
}

fn first_token_exec(s: &[char]) -> (v: Vec<char>)
    ensures
        v@ == first_token(s@),
{
    let w = leading_ws_exec(s);
    let t = slice_chars(s, w, s.len());
    assert(t@ =~= trim_start(s@));
    let e = first_stop_exec(t.as_slice(), false);
    slice_chars(t.as_slice(), 0, e)
}

fn src_value_exec(after: &[char]) -> (v: Vec<char>)
    ensures
        v@ == src_value(after@),
{
    let dq = vec!['"'];
    let sq = vec!['\''];
    assert(dq@ =~= seq!['"']);
    assert(sq@ =~= seq!['\'']);
    if starts_with_exec(after, dq.as_slice()) {
        let inner = slice_chars(after, 1, after.len());
        assert(inner@ =~= after@.skip(1));
        before_char_exec(inner.as_slice(), '"')
    } else if starts_with_exec(after, sq.as_slice()) {
        let inner = slice_chars(after, 1, after.len());
        assert(inner@ =~= after@.skip(1));
        before_char_exec(inner.as_slice(), '\'')
    } else {
        first_token_exec(after)
    }
}

fn tag_src_exec(tag: &[char]) -> (r: Option<Vec<char>>)
    ensures
        r matches Some(v) ==> tag_src(tag@) == Some(v@),
        r is None ==> tag_src(tag@) is None,
{
    let pat = chars_of("src=");
    proof {
        reveal_strlit("src=");
        lemma_find_in_suffix(tag@, pat@, 0);
        assert(tag@.skip(0) =~= tag@);
    }
    match find_from_exec(tag, pat.as_slice(), 0) {
        Some(p) => {
            let after = slice_chars(tag, p + 4, tag.len());
            assert(after@ =~= tag@.skip(p + 4));
            Some(src_value_exec(after.as_slice()))
        },
        None => None,
    }
}

fn is_relative_src_exec(v: &[char]) -> (b: bool)
    ensures
        b == is_relative_src(v@),
{
    let http = chars_of("http");
    let dslash = chars_of("//");
    let slash = chars_of("/");
    let data = chars_of("data:");
    v.len() > 0 && !starts_with_exec(v, http.as_slice()) && !starts_with_exec(v, dslash.as_slice())
        && !starts_with_exec(v, slash.as_slice()) && !starts_with_exec(v, data.as_slice())
}

/// The tag body after `<img` at `rest_start`: its end index in `h`.
fn tag_end_exec(h: &[char], rest_start: usize) -> (te: usize)
    requires
        rest_start <= h.len(),
    ensures
        rest_start <= te <= h.len(),
        te - rest_start == tag_end(h@.skip(rest_start as int)),
{
    proof {
        lemma_find_in_suffix(h@, seq!['>'], rest_start as int);
    }
    match find_char_from(h, '>', rest_start) {
        Some(e) => e,
        None => h.len(),
    }
}

/// Scans rendered HTML for `<img` tags and returns all relative `src` values.
///
/// A src is considered relative if it does not start with `http`, `//`, `/`,
/// or `data:`.
pub fn extract_relative_image_srcs(html: &str) -> (srcs: Vec<String>)
    ensures
        srcs@.map_values(|s: String| s@) == relative_srcs(html@),
{
    let h = chars_of(html);
    let img = chars_of("<img");
    proof {
        reveal_strlit("<img");
    }
    let mut srcs: Vec<String> = Vec::new();
    let mut pos: usize = 0;
    assert(h@.skip(0) =~= h@);
    loop
        invariant
            h@ == html@,
            pos <= h.len(),
            img@ == "<img"@,
            "<img"@.len() == 4,
            srcs@.map_values(|s: String| s@) + relative_srcs(h@.skip(pos as int)) == relative_srcs(
                h@,
            ),
        decreases h.len() - pos,
    {
        proof {
            lemma_find_in_suffix(h@, img@, pos as int);
        }
        match find_from_exec(h.as_slice(), img.as_slice(), pos) {
            None => {
                assert(relative_srcs(h@.skip(pos as int)) =~= Seq::<Seq<char>>::empty());
                assert(srcs@.map_values(|s: String| s@) + Seq::<Seq<char>>::empty()
                    =~= srcs@.map_values(|s: String| s@));
                return srcs;
            },
            Some(i) => {
                let rest_start = i + 4;
                let te = tag_end_exec(h.as_slice(), rest_start);
                let tag = slice_chars(h.as_slice(), rest_start, te);
                let ghost old_view = srcs@.map_values(|s: String| s@);
                let ghost rest = h@.skip(rest_start as int);
                proof {
                    assert(h@.skip(pos as int).skip(i - pos + 4) =~= rest);
                    assert(tag@ =~= rest.take(tag_end(rest)));
                }
                match tag_src_exec(tag.as_slice()) {
                    Some(v) => {
                        if is_relative_src_exec(v.as_slice()) {
                            srcs.push(string_from_chars(v.as_slice()));
                            assert(srcs@.map_values(|s: String| s@) =~= old_view.push(v@));
                        }
                    },
                    None => {},
                }
                proof {
                    let here = srcs@.map_values(|s: String| s@);
                    assert(here + relative_srcs(rest) =~= relative_srcs(h@));
                }
                pos = rest_start;
            },
        }
    }
}

// ── Replacing image sources ─────────────────────────────────────

/// The replacement that `reps` holds for `k`: that of its first pair with key `k`.
pub open spec fn lookup(reps: Seq<(Seq<char>, Seq<char>)>, k: Seq<char>) -> Option<Seq<char>>
    decreases reps.len(),
{
    if reps.len() == 0 {
        None
    } else if reps[0].0 == k {
        Some(reps[0].1)
    } else {
        lookup(reps.drop_first(), k)
    }
}

/// `v` replaced by what `reps` holds for it, or `v` itself.
pub open spec fn substitute(reps: Seq<(Seq<char>, Seq<char>)>, v: Seq<char>) -> Seq<char> {
    match lookup(reps, v) {
        Some(r) => r,
        None => v,
    }
}

/// The replacement pairs as character sequences.
pub open spec fn pair_views(reps: Seq<(String, String)>) -> Seq<(Seq<char>, Seq<char>)> {
    reps.map_values(|p: (String, String)| (p.0@, p.1@))
}

/// The index of the first `c` in `s`, or its length.
pub open spec fn char_end(s: Seq<char>, c: char) -> int {
    match find(s, seq![c]) {
        Some(i) => i,
        None => s.len() as int,
    }
}

/// A tag body with its `src=` value substituted: a quoted value runs to
/// its closing quote, an unquoted one to the first whitespace or `>`.
pub open spec fn replaced_tag(tag: Seq<char>, reps: Seq<(Seq<char>, Seq<char>)>) -> Seq<char> {
    match find(tag, "src="@) {
        Some(sp) => {
            let head = tag.take(sp + 4);
            let from = tag.skip(sp + 4);
            if from.len() > 0 && (from[0] == '"' || from[0] == '\'') {
                let q = from[0];
                let aq = from.skip(1);
                let end = char_end(aq, q);
                head + seq![q] + substitute(reps, aq.take(end)) + aq.skip(end)
            } else {
                let end = first_stop(from, true);
                head + substitute(reps, from.take(end)) + from.skip(end)
            }
        },
        None => tag,
    }
}

/// `html` with the `src` value of each `<img` tag substituted by `reps`.
pub open spec fn replaced(html: Seq<char>, reps: Seq<(Seq<char>, Seq<char>)>) -> Seq<char>
    decreases html.len(),
{
    match find(html, "<img"@) {
        Some(p) => if 0 <= p && p + 4 <= html.len() {
            let rest = html.skip(p + 4);
            let te = tag_end(rest);
            if 0 <= te <= rest.len() {
                html.take(p + 4) + replaced_tag(rest.take(te), reps) + replaced(rest.skip(te), reps)
            } else {
                html
            }
        } else {
            html
        },
        None => html,
    }
}

proof fn lemma_lookup_first(reps: Seq<(Seq<char>, Seq<char>)>, k: Seq<char>, i: int)
    requires
        0 <= i <= reps.len(),
        forall|j: int| 0 <= j < i ==> reps[j].0 != k,
    ensures
        lookup(reps, k) == lookup(reps.skip(i), k),
    decreases i,
{
    if i > 0 {
        lemma_lookup_first(reps.drop_first(), k, i - 1);
        assert(reps.drop_first().skip(i - 1) =~= reps.skip(i));
    } else {
        assert(reps.skip(0) =~= reps);
    }
}

/// What `reps` holds for the characters `v`, or a copy of `v`.
fn substitute_exec(v: &[char], reps: &[(String, String)]) -> (r: Vec<char>)
    ensures
        r@ == substitute(pair_views(reps@), v@),
{
    let ghost pv = pair_views(reps@);
    let mut i: usize = 0;
    while i < reps.len()
        invariant
            i <= reps.len(),
            pv == pair_views(reps@),
            forall|j: int| 0 <= j < i ==> pv[j].0 != v@,
        decreases reps.len() - i,
    {
        let key = chars_of(reps[i].0.as_str());
        if crate::text::chars_eq(key.as_slice(), v) {
            proof {
                lemma_lookup_first(pv, v@, i as int);
                assert(pv.skip(i as int)[0] == pv[i as int]);
            }
            return chars_of(reps[i].1.as_str());
        }
        i = i + 1;
    }
    proof {
        lemma_lookup_first(pv, v@, reps.len() as int);
        assert(pv.skip(reps.len() as int).len() == 0);
    }
    slice_chars(v, 0, v.len())
}

/// A tag body with its `src=` value substituted.
fn replace_tag_exec(tag: &[char], reps: &[(String, String)]) -> (out: Vec<char>)
    ensures
        out@ == replaced_tag(tag@, pair_views(reps@)),
{
    let ghost pv = pair_views(reps@);
    let pat = chars_of("src=");
    proof {
        reveal_strlit("src=");
        lemma_find_in_suffix(tag@, pat@, 0);
        assert(tag@.skip(0) =~= tag@);
    }
    match find_from_exec(tag, pat.as_slice(), 0) {
        None => slice_chars(tag, 0, tag.len()),
        Some(sp) => {
            let mut out = slice_chars(tag, 0, sp + 4);
            let from = slice_chars(tag, sp + 4, tag.len());
            assert(out@ =~= tag@.take(sp + 4));
            assert(from@ =~= tag@.skip(sp + 4));
            if from.len() > 0 && (from[0] == '"' || from[0] == '\'') {
                let q = from[0];
                let aq = slice_chars(from.as_slice(), 1, from.len());
                assert(aq@ =~= from@.skip(1));
                proof {
                    lemma_find_in_suffix(aq@, seq![q], 0);
                    assert(aq@.skip(0) =~= aq@);
                }
                let end = match find_char_from(aq.as_slice(), q, 0) {
                    Some(e) => e,
                    None => aq.len(),
                };
                let v = slice_chars(aq.as_slice(), 0, end);
                let r = substitute_exec(v.as_slice(), reps);
                let tail = slice_chars(aq.as_slice(), end, aq.len());
                out.push(q);
                extend_chars(&mut out, r.as_slice());
                extend_chars(&mut out, tail.as_slice());
                assert(v@ =~= aq@.take(end as int));
                assert(tail@ =~= aq@.skip(end as int));
                out
            } else {
                let end = first_stop_exec(from.as_slice(), true);
                let v = slice_chars(from.as_slice(), 0, end);
                let r = substitute_exec(v.as_slice(), reps);
                let tail = slice_chars(from.as_slice(), end, from.len());
                extend_chars(&mut out, r.as_slice());
                extend_chars(&mut out, tail.as_slice());
                assert(v@ =~= from@.take(end as int));
                assert(tail@ =~= from@.skip(end as int));
                out
            }
        },
    }
}

/// No two pairs share a key: the pairs are the entries of a map.
pub open spec fn distinct_keys(reps: Seq<(Seq<char>, Seq<char>)>) -> bool {
    forall|i: int, j: int| 0 <= i < j < reps.len() ==> #[trigger] reps[i].0 != #[trigger] reps[j].0
}

/// The index of the first pair with key `k`.
pub open spec fn index_of_key(m: Seq<(Seq<char>, Seq<char>)>, k: Seq<char>) -> Option<int>
    decreases m.len(),
{
    if m.len() == 0 {
        None
    } else {
        match index_of_key(m.drop_last(), k) {
            Some(i) => Some(i),
            None => if m.last().0 == k {
                Some(m.len() - 1)
            } else {
                None
            },
        }
    }
}

/// The map `m` with `p` inserted: a pair with the same key gets the new
/// value in its place, else the pair is added.
pub open spec fn map_insert(m: Seq<(Seq<char>, Seq<char>)>, p: (Seq<char>, Seq<char>)) -> Seq<(Seq<char>, Seq<char>)> {
    match index_of_key(m, p.0) {
        Some(i) => m.update(i, p),
        None => m.push(p),
    }
}

/// The map that collecting the pairs gives (`HashMap::from_iter`): each pair
/// is inserted in turn, so a later pair with a key replaces an earlier one.
pub open spec fn collected(ps: Seq<(Seq<char>, Seq<char>)>) -> Seq<(Seq<char>, Seq<char>)>
    decreases ps.len(),
{
    if ps.len() == 0 {
        seq![]
    } else {
        map_insert(collected(ps.drop_last()), ps.last())
    }
}

pub proof fn lemma_index_of_key(m: Seq<(Seq<char>, Seq<char>)>, k: Seq<char>)
    ensures
        index_of_key(m, k) matches Some(i) ==> 0 <= i < m.len() && m[i].0 == k && forall|j: int|
            0 <= j < i ==> m[j].0 != k,
        index_of_key(m, k) is None ==> forall|j: int| 0 <= j < m.len() ==> m[j].0 != k,
    decreases m.len(),
{
    if m.len() > 0 {
        lemma_index_of_key(m.drop_last(), k);
        assert forall|j: int| 0 <= j < m.len() - 1 implies m[j] == m.drop_last()[j] by {}
    }
}

/// The index of the first pair whose key is `k`.
pub fn key_index(pairs: &[(String, String)], k: &str) -> (r: Option<usize>)
    ensures
        match r {
            Some(i) => index_of_key(pair_views(pairs@), k@) == Some(i as int),
            None => index_of_key(pair_views(pairs@), k@) is None,
        },
{
    let ghost pv = pair_views(pairs@);
    let kc = chars_of(k);
    proof {
        lemma_index_of_key(pv, k@);
    }
    let mut i: usize = 0;
    while i < pairs.len()
        invariant
            i <= pairs.len(),
            pv == pair_views(pairs@),
            kc@ == k@,
            forall|j: int| 0 <= j < i ==> pv[j].0 != k@,
        decreases pairs.len() - i,
    {
        let c = chars_of(pairs[i].0.as_str());
        if crate::text::chars_eq(c.as_slice(), kc.as_slice()) {
            assert(pv[i as int].0 == k@);
            proof {
                lemma_index_of_key(pv, k@);
                match index_of_key(pv, k@) {
                    Some(x) => {
                        if x < i {
                            assert(pv[x].0 != k@);
                        } else if x > i {
                            assert(pv[i as int].0 != k@);
                        }
                    },
                    None => {
                        assert(pv[i as int].0 != k@);
                    },
                }
            }
            return Some(i);
        }
        i = i + 1;
    }
    None
}

/// Inserting into a map keeps its keys distinct.
pub proof fn lemma_map_insert_distinct(m: Seq<(Seq<char>, Seq<char>)>, p: (Seq<char>, Seq<char>))
    requires
        distinct_keys(m),
    ensures
        distinct_keys(map_insert(m, p)),
{
    lemma_index_of_key(m, p.0);
    let r = map_insert(m, p);
    assert forall|i: int, j: int| 0 <= i < j < r.len() implies #[trigger] r[i].0 != #[trigger] r[j].0 by {
        match index_of_key(m, p.0) {
            Some(x) => {
                if i == x {
                    assert(m[j].0 != m[x].0);
                } else if j == x {
                    assert(m[i].0 != m[x].0);
                } else {
                    assert(m[i].0 != m[j].0);
                }
            },
            None => {
                if j == m.len() {
                    assert(r[i] == m[i]);
                } else {
                    assert(m[i].0 != m[j].0);
                }
            },
        }
    }
}

/// A collected map has distinct keys.
pub proof fn lemma_collected_distinct(ps: Seq<(Seq<char>, Seq<char>)>)
    ensures
        distinct_keys(collected(ps)),
    decreases ps.len(),
{
    if ps.len() > 0 {
        lemma_collected_distinct(ps.drop_last());
        lemma_map_insert_distinct(collected(ps.drop_last()), ps.last());
    }
}

/// Collecting pairs that map each key to itself gives such pairs.
pub proof fn lemma_collected_identity(ps: Seq<(Seq<char>, Seq<char>)>)
    requires
        forall|i: int| 0 <= i < ps.len() ==> #[trigger] ps[i].0 == ps[i].1,
    ensures
        forall|i: int| 0 <= i < collected(ps).len() ==> #[trigger] collected(ps)[i].0 == collected(ps)[i].1,
    decreases ps.len(),
{
    if ps.len() > 0 {
        assert forall|i: int| 0 <= i < ps.drop_last().len() implies #[trigger] ps.drop_last()[i].0
            == ps.drop_last()[i].1 by {
            assert(ps.drop_last()[i] == ps[i]);
        }
        lemma_collected_identity(ps.drop_last());
        assert(ps.last() == ps[ps.len() - 1]);
        let m = collected(ps.drop_last());
        let r = collected(ps);
        assert(r == map_insert(m, ps.last()));
        lemma_index_of_key(m, ps.last().0);
        assert forall|i: int| 0 <= i < r.len() implies #[trigger] r[i].0 == r[i].1 by {
            match index_of_key(m, ps.last().0) {
                Some(x) => {
                    if i != x {
                        assert(r[i] == m[i]);
                    }
                },
                None => {
                    if i < m.len() {
                        assert(r[i] == m[i]);
                    }
                },
            }
        }
    }
}

/// The value of the last pair with key `k`, if any.
pub open spec fn last_value(ps: Seq<(Seq<char>, Seq<char>)>, k: Seq<char>) -> Option<Seq<char>>
    decreases ps.len(),
{
    if ps.len() == 0 {
        None
    } else if ps.last().0 == k {
        Some(ps.last().1)
    } else {
        last_value(ps.drop_last(), k)
    }
}

/// Looking a key up finds the pair at its first index.
proof fn lemma_lookup_index(m: Seq<(Seq<char>, Seq<char>)>, k: Seq<char>)
    ensures
        lookup(m, k) == (match index_of_key(m, k) {
            Some(i) => Some(m[i].1),
            None => None,
        }),
{
    lemma_index_of_key(m, k);
    match index_of_key(m, k) {
        Some(i) => {
            lemma_lookup_first(m, k, i);
            assert(m.skip(i)[0] == m[i]);
        },
        None => {
            lemma_lookup_first(m, k, m.len() as int);
            assert(m.skip(m.len() as int).len() == 0);
        },
    }
}

/// Two maps with the same keys in the same places find a key at the same index.
proof fn lemma_index_same_keys(a: Seq<(Seq<char>, Seq<char>)>, b: Seq<(Seq<char>, Seq<char>)>, k: Seq<char>)
    requires
        a.len() == b.len(),
        forall|i: int| 0 <= i < a.len() ==> #[trigger] a[i].0 == b[i].0,
    ensures
        index_of_key(a, k) == index_of_key(b, k),
{
    lemma_index_of_key(a, k);
    lemma_index_of_key(b, k);
    match (index_of_key(a, k), index_of_key(b, k)) {
        (Some(x), Some(y)) => {
            if x < y {
                assert(b[x].0 == a[x].0);
            } else if y < x {
                assert(a[y].0 == b[y].0);
            }
        },
        (Some(x), None) => {
            assert(b[x].0 == a[x].0);
        },
        (None, Some(y)) => {
            assert(a[y].0 == b[y].0);
        },
        (None, None) => {},
    }
}

/// Looking up a key after an insertion finds the inserted value for its
/// key and what was there before for any other.
proof fn lemma_lookup_insert(m: Seq<(Seq<char>, Seq<char>)>, p: (Seq<char>, Seq<char>), k: Seq<char>)
    ensures
        lookup(map_insert(m, p), k) == (if k == p.0 {
            Some(p.1)
        } else {
            lookup(m, k)
        }),
{
    let r = map_insert(m, p);
    lemma_index_of_key(m, p.0);
    lemma_index_of_key(m, k);
    lemma_lookup_index(m, k);
    lemma_lookup_index(r, k);
    lemma_index_of_key(r, k);
    match index_of_key(m, p.0) {
        Some(x) => {
            assert forall|i: int| 0 <= i < m.len() implies #[trigger] m[i].0 == r[i].0 by {}
            lemma_index_same_keys(m, r, k);
            if k != p.0 {
                match index_of_key(m, k) {
                    Some(y) => {
                        assert(y != x);
                        assert(r[y] == m[y]);
                    },
                    None => {},
                }
            }
        },
        None => {
            assert(r.drop_last() =~= m);
            if k != p.0 {
                assert(index_of_key(r, k) == index_of_key(m, k));
                match index_of_key(m, k) {
                    Some(y) => {
                        assert(r[y] == m[y]);
                    },
                    None => {},
                }
            } else {
                assert(index_of_key(r, k) == Some(m.len() as int));
            }
        },
    }
}

/// Collecting pairs into a map keeps, for each key, the value of its last
/// pair: a later pair replaces an earlier one with the same key.
pub proof fn law_collected_keeps_last(ps: Seq<(Seq<char>, Seq<char>)>, k: Seq<char>)
    ensures
        lookup(collected(ps), k) == last_value(ps, k),
    decreases ps.len(),
{
    if ps.len() > 0 {
        law_collected_keeps_last(ps.drop_last(), k);
        lemma_lookup_insert(collected(ps.drop_last()), ps.last(), k);
    }
}

/// Replaces `src` attribute values in `<img` tags according to the given
/// replacement map (pairs with distinct keys); a source without a pair is
/// left as it is.
pub fn replace_image_srcs(html: &str, replacements: &[(String, String)]) -> (out: String)
    requires
        distinct_keys(pair_views(replacements@)),
    ensures
        out@ == replaced(html@, pair_views(replacements@)),
{
    let ghost pv = pair_views(replacements@);
    let h = chars_of(html);
    let img = chars_of("<img");
    proof {
        reveal_strlit("<img");
    }
    let mut result: Vec<char> = Vec::new();
    let mut pos: usize = 0;
    assert(h@.skip(0) =~= h@);
    loop
        invariant
            h@ == html@,
            pv == pair_views(replacements@),
            pos <= h.len(),
            img@ == "<img"@,
            "<img"@.len() == 4,
            result@ + replaced(h@.skip(pos as int), pv) == replaced(h@, pv),
        decreases h.len() - pos,
    {
        proof {
            lemma_find_in_suffix(h@, img@, pos as int);
        }
        match find_from_exec(h.as_slice(), img.as_slice(), pos) {
            None => {
                let tail = slice_chars(h.as_slice(), pos, h.len());
                assert(tail@ =~= h@.skip(pos as int));
                extend_chars(&mut result, tail.as_slice());
                return string_from_chars(result.as_slice());
            },
            Some(i) => {
                let ghost old_result = result@;
                let ghost s = h@.skip(pos as int);
                let rest_start = i + 4;
                let head = slice_chars(h.as_slice(), pos, rest_start);
                extend_chars(&mut result, head.as_slice());
                let te = tag_end_exec(h.as_slice(), rest_start);
                let tag = slice_chars(h.as_slice(), rest_start, te);
                let rt = replace_tag_exec(tag.as_slice(), replacements);
                extend_chars(&mut result, rt.as_slice());
                proof {
                    let p = i - pos;
                    let rest = s.skip(p + 4);
                    assert(rest =~= h@.skip(rest_start as int));
                    assert(head@ =~= s.take(p + 4));
                    assert(tag@ =~= rest.take(tag_end(rest)));
                    assert(rest.skip(tag_end(rest)) =~= h@.skip(te as int));
                    assert(result@ =~= old_result + (s.take(p + 4) + replaced_tag(
                        rest.take(tag_end(rest)),
                        pv,
                    )));
                }
                pos = te;
            },
        }
    }
}

/// What `reps` holds for a source is the source itself when each pair
/// maps a source to itself.
proof fn lemma_lookup_of_identity(reps: Seq<(Seq<char>, Seq<char>)>, k: Seq<char>)
    requires
        forall|i: int| 0 <= i < reps.len() ==> #[trigger] reps[i].0 == reps[i].1,
    ensures
        substitute(reps, k) == k,
    decreases reps.len(),
{
    if reps.len() > 0 && reps[0].0 != k {
        assert forall|i: int| 0 <= i < reps.drop_first().len() implies #[trigger] reps.drop_first()[i].0
            == reps.drop_first()[i].1 by {
            assert(reps.drop_first()[i] == reps[i + 1]);
        }
        lemma_lookup_of_identity(reps.drop_first(), k);
    }
}

/// The `src` value of a tag body as `replaced_tag` reads it: a quoted value
/// runs to its closing quote, an unquoted one to the first whitespace or `>`.
pub open spec fn tag_src_value(tag: Seq<char>) -> Option<Seq<char>> {
    match find(tag, "src="@) {
        Some(sp) => {
            let from = tag.skip(sp + 4);
            if from.len() > 0 && (from[0] == '"' || from[0] == '\'') {
                let aq = from.skip(1);
                Some(aq.take(char_end(aq, from[0])))
            } else {
                Some(from.take(first_stop(from, true)))
            }
        },
        None => None,
    }
}

/// The `src` values of the `<img` tags of `html`, in order, as `replaced`
/// visits them.
pub open spec fn img_src_values(html: Seq<char>) -> Seq<Seq<char>>
    decreases html.len(),
{
    match find(html, "<img"@) {
        Some(p) => if 0 <= p && p + 4 <= html.len() {
            let rest = html.skip(p + 4);
            let te = tag_end(rest);
            if 0 <= te <= rest.len() {
                match tag_src_value(rest.take(te)) {
                    Some(v) => seq![v] + img_src_values(rest.skip(te)),
                    None => img_src_values(rest.skip(te)),
                }
            } else {
                seq![]
            }
        } else {
            seq![]
        },
        None => seq![],
    }
}

/// Substituting image sources changes nothing when no `src` value of the
/// HTML is replaced by something else: when none of them is a key of the
/// pairs (no pairs at all, say), or the pairs map it to itself.
pub proof fn law_replace_keeps_unmatched_srcs(html: Seq<char>, reps: Seq<(Seq<char>, Seq<char>)>)
    requires
        forall|i: int|
            0 <= i < img_src_values(html).len() ==> substitute(reps, #[trigger] img_src_values(html)[i])
                == img_src_values(html)[i],
    ensures
        replaced(html, reps) == html,
    decreases html.len(),
{
    reveal_strlit("<img");
    reveal_strlit("src=");
    match find(html, "<img"@) {
        Some(p) => {
            if 0 <= p && p + 4 <= html.len() {
                let rest = html.skip(p + 4);
                let te = tag_end(rest);
                if 0 <= te <= rest.len() {
                    let tag = rest.take(te);
                    let vals = img_src_values(html);
                    let tail = img_src_values(rest.skip(te));
                    let off: int = if tag_src_value(tag) is Some { 1 } else { 0 };
                    assert(vals =~= (if tag_src_value(tag) is Some { seq![tag_src_value(tag)->0] } else { seq![] }) + tail);
                    assert forall|i: int| 0 <= i < tail.len() implies substitute(reps, #[trigger] tail[i]) == tail[i] by {
                        assert(vals[i + off] == tail[i]);
                    }
                    law_replace_keeps_unmatched_srcs(rest.skip(te), reps);
                    assert(replaced_tag(tag, reps) =~= tag) by {
                        match find(tag, "src="@) {
                            Some(sp) => {
                                lemma_find_from_properties(tag, "src="@, 0);
                                let from = tag.skip(sp + 4);
                                assert(vals[0] == tag_src_value(tag)->0);
                                if from.len() > 0 && (from[0] == '"' || from[0] == '\'') {
                                    let aq = from.skip(1);
                                    let end = char_end(aq, from[0]);
                                    lemma_find_from_properties(aq, seq![from[0]], 0);
                                    assert(tag.take(sp + 4) + seq![from[0]] + aq.take(end) + aq.skip(end) =~= tag);
                                } else {
                                    lemma_first_stop(from, true);
                                    let end = first_stop(from, true);
                                    assert(tag.take(sp + 4) + from.take(end) + from.skip(end) =~= tag);
                                }
                            },
                            None => {},
                        }
                    }
                    assert(html.take(p + 4) + tag + rest.skip(te) =~= html);
                }
            }
        },
        None => {},
    }
}

/// Substituting image sources by pairs that map each source to itself (as
/// images that could not be fetched are) gives back the HTML unchanged; so
/// does substituting with no pairs at all.
pub proof fn law_replace_identity_pairs(html: Seq<char>, reps: Seq<(Seq<char>, Seq<char>)>)
    requires
        forall|i: int| 0 <= i < reps.len() ==> #[trigger] reps[i].0 == reps[i].1,
    ensures
        replaced(html, reps) == html,
{
    assert forall|i: int| 0 <= i < img_src_values(html).len() implies substitute(
        reps,
        #[trigger] img_src_values(html)[i],
    ) == img_src_values(html)[i] by {
        lemma_lookup_of_identity(reps, img_src_values(html)[i]);
    }
    law_replace_keeps_unmatched_srcs(html, reps);
}

} // verus!
