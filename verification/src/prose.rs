//! Rendering a post's markdown to HTML and counting the words and characters
//! of its rendered prose.
use vstd::prelude::*;
use crate::post::{body_of, leading_ws, strip_frontmatter, trim_start, first_stop};
use crate::text::{
    chars_of, extend_chars, find, find_from, find_from_exec, is_whitespace,
    lemma_find_from_properties, lemma_find_from_skip, slice_chars, string_from_chars,
    unicode_is_whitespace,
};

verus! {

broadcast use vstd::string::group_string_axioms;

// ── Rendering ───────────────────────────────────────────────────

/// What `markdown::to_html_with_options` gives for markdown `md` with the
/// GitHub-flavoured options: the HTML, or nothing where it reports an error.
pub uninterp spec fn gfm_html(md: Seq<char>) -> Option<Seq<char>>;

/// What `markdown::to_html` gives for markdown `md` (CommonMark).
pub uninterp spec fn commonmark_html(md: Seq<char>) -> Seq<char>;

/// Calls `markdown::to_html_with_options` with `Options::gfm()`. The HTML
/// is a function of the markdown alone, named by `gfm_html`. The crate
/// documents that only MDX syntax can make it fail, and these options leave
/// MDX off, so it always gives HTML.
#[verifier::external_body]
fn markdown_gfm(md: &str) -> (r: Option<String>)
    ensures
        r is Some,
        match r {
            Some(h) => gfm_html(md@) == Some(h@),
            None => gfm_html(md@) is None,
        },
{
    match markdown::to_html_with_options(md, &markdown::Options::gfm()) {
        Ok(html) => Some(html),
        Err(_) => None,
    }
}

/// Calls `markdown::to_html`, whose HTML `commonmark_html` names. With its
/// default options no construct can make the parser fail, so it returns.
#[verifier::external_body]
fn markdown_commonmark(md: &str) -> (h: String)
    ensures
        h@ == commonmark_html(md@),
{
    markdown::to_html(md)
}

/// The HTML of a post: its body (frontmatter stripped) rendered with the
/// GitHub-flavoured options, or as CommonMark where those fail.
pub open spec fn rendered_html(content: Seq<char>) -> Seq<char> {
    match gfm_html(body_of(content)) {
        Some(h) => h,
        None => commonmark_html(body_of(content)),
    }
}

/// Renders markdown content to HTML, stripping any TOML frontmatter first.
/// Uses GFM (GitHub Flavored Markdown) options for tables, strikethrough, etc.
pub fn render_markdown(content: &str) -> (html: String)
    ensures
        html@ == rendered_html(content@),
{
    let body = strip_frontmatter(content);
    match markdown_gfm(body) {
        Some(html) => html,
        None => markdown_commonmark(body),
    }
}

// ── Plain text of HTML ──────────────────────────────────────────

/// The characters of `s` outside `<...>` tags, `in_tag` telling whether the
/// scan starts inside one.
pub open spec fn untagged(s: Seq<char>, in_tag: bool) -> Seq<char>
    decreases s.len(),
{
    if s.len() == 0 {
        seq![]
    } else if s[0] == '<' {
        untagged(s.drop_first(), true)
    } else if s[0] == '>' {
        untagged(s.drop_first(), false)
    } else if !in_tag {
        seq![s[0]] + untagged(s.drop_first(), in_tag)
    } else {
        untagged(s.drop_first(), in_tag)
    }
}

/// `s` with every occurrence of `p` replaced by `r`, scanning from the left
/// (`str::replace`).
pub open spec fn replace_all(s: Seq<char>, p: Seq<char>, r: Seq<char>) -> Seq<char>
    decreases s.len(),
{
    match find(s, p) {
        Some(i) => if p.len() > 0 && 0 <= i && i + p.len() <= s.len() {
            s.take(i) + r + replace_all(s.skip(i + p.len()), p, r)
        } else {
            s
        },
        None => s,
    }
}

/// The six HTML entities that plain text decodes, in the order they are replaced.
pub open spec fn decode_entities(s: Seq<char>) -> Seq<char> {
    let a = replace_all(s, "&nbsp;"@, " "@);
    let b = replace_all(a, "&amp;"@, "&"@);
    let c = replace_all(b, "&lt;"@, "<"@);
    let d = replace_all(c, "&gt;"@, ">"@);
    let e = replace_all(d, "&quot;"@, "\""@);
    replace_all(e, "&#39;"@, "'"@)
}

pub proof fn lemma_leading_ws_le(s: Seq<char>)
    ensures
        leading_ws(s) <= s.len(),
        leading_ws(s) < s.len() ==> !unicode_is_whitespace(s[leading_ws(s) as int]),
    decreases s.len(),
{
    if s.len() > 0 && unicode_is_whitespace(s[0]) {
        lemma_leading_ws_le(s.drop_first());
        if leading_ws(s) < s.len() {
            assert(s.drop_first()[leading_ws(s.drop_first()) as int] == s[leading_ws(s) as int]);
        }
    }
}

/// The whitespace-separated words of `s`, in order (`str::split_whitespace`).
pub open spec fn words(s: Seq<char>) -> Seq<Seq<char>>
    decreases s.len(),
{
    let t = trim_start(s);
    if t.len() == 0 {
        seq![]
    } else {
        proof {
            lemma_leading_ws_le(s);
        }
        let n = first_stop(t, false);
        if 0 < n <= t.len() {
            seq![t.take(n)] + words(t.skip(n))
        } else {
            seq![]
        }
    }
}

/// The words joined by single spaces.
pub open spec fn join_words(ws: Seq<Seq<char>>) -> Seq<char>
    decreases ws.len(),
{
    if ws.len() == 0 {
        seq![]
    } else if ws.len() == 1 {
        ws[0]
    } else {
        join_words(ws.drop_last()) + seq![' '] + ws.last()
    }
}

/// The plain text of HTML: tags stripped, the six common entities decoded,
/// and runs of whitespace collapsed to single spaces.
pub open spec fn plain_text(html: Seq<char>) -> Seq<char> {
    join_words(words(decode_entities(untagged(html, false))))
}

/// The characters of `s` outside tags.
fn untagged_exec(s: &[char]) -> (out: Vec<char>)
    ensures
        out@ == untagged(s@, false),
{
    let mut out: Vec<char> = Vec::new();
    let mut in_tag = false;
    let mut i: usize = 0;
    assert(s@.skip(0) =~= s@);
    while i < s.len()
        invariant
            i <= s.len(),
            out@ + untagged(s@.skip(i as int), in_tag) == untagged(s@, false),
        decreases s.len() - i,
    {
        let c = s[i];
        assert(s@.skip(i as int).drop_first() =~= s@.skip(i + 1));
        if c == '<' {
            in_tag = true;
        } else if c == '>' {
            in_tag = false;
        } else if !in_tag {
            let ghost before = out@;
            out.push(c);
            assert(out@ =~= before + seq![c]);
        }
        i = i + 1;
    }
    assert(out@ + Seq::<char>::empty() =~= out@);
    out
}

/// Where `find(s.skip(k), p)` lands in `s`.
proof fn lemma_find_in_suffix(s: Seq<char>, p: Seq<char>, k: int)
    requires
        0 <= k <= s.len(),
    ensures
        find(s.skip(k), p) == (match find_from(s, p, k) {
            Some(i) => Some(i - k),
            None => None,
        }),
        find_from(s, p, k) matches Some(i) ==> k <= i && i + p.len() <= s.len(),
{
    lemma_find_from_skip(s, p, k, 0);
    lemma_find_from_properties(s, p, k);
}

/// `s` with every `p` replaced by `r`.
fn replace_all_exec(s: &[char], p: &[char], r: &[char]) -> (out: Vec<char>)
    requires
        p.len() > 0,
    ensures
        out@ == replace_all(s@, p@, r@),
{
    let mut out: Vec<char> = Vec::new();
    let mut pos: usize = 0;
    assert(s@.skip(0) =~= s@);
    loop
        invariant
            pos <= s.len(),
            p.len() > 0,
            out@ + replace_all(s@.skip(pos as int), p@, r@) == replace_all(s@, p@, r@),
        decreases s.len() - pos,
    {
        proof {
            lemma_find_in_suffix(s@, p@, pos as int);
        }
        match find_from_exec(s, p, pos) {
            None => {
                let tail = slice_chars(s, pos, s.len());
                assert(tail@ =~= s@.skip(pos as int));
                extend_chars(&mut out, tail.as_slice());
                return out;
            },
            Some(i) => {
                let ghost before = out@;
                let head = slice_chars(s, pos, i);
                extend_chars(&mut out, head.as_slice());
                extend_chars(&mut out, r);
                proof {
                    let t = s@.skip(pos as int);
                    assert(head@ =~= t.take(i - pos));
                    assert(t.skip(i - pos + p.len()) =~= s@.skip(i + p.len()));
                    assert(out@ =~= before + (t.take(i - pos) + r@));
                }
                pos = i + p.len();
            },
        }
    }
}

/// `s` with every `pat` replaced by `rep`.
fn replace_lit(s: &[char], pat: &str, rep: &str) -> (out: Vec<char>)
    requires
        pat@.len() > 0,
    ensures
        out@ == replace_all(s@, pat@, rep@),
{
    let p = chars_of(pat);
    let r = chars_of(rep);
    replace_all_exec(s, p.as_slice(), r.as_slice())
}

/// The words of `s` after position `pos` begin with those found there.
proof fn lemma_words_step(s: Seq<char>, pos: int, w: int, n: int)
    requires
        0 <= pos <= s.len(),
        w == leading_ws(s.skip(pos)),
        pos + w < s.len(),
        n == first_stop(s.skip(pos + w), false),
    ensures
        0 < n,
        pos + w + n <= s.len(),
        words(s.skip(pos)) == seq![s.subrange(pos + w, pos + w + n)] + words(s.skip(pos + w + n)),
{
    let t = s.skip(pos);
    lemma_leading_ws_le(t);
    assert(trim_start(t) =~= s.skip(pos + w));
    crate::post::lemma_first_stop(s.skip(pos + w), false);
    assert(s.skip(pos + w)[0] == t[w]);
    assert(s.skip(pos + w).take(n) =~= s.subrange(pos + w, pos + w + n));
    assert(s.skip(pos + w).skip(n) =~= s.skip(pos + w + n));
}

/// The whitespace-separated words of `s`.
fn words_exec(s: &[char]) -> (ws: Vec<Vec<char>>)
    ensures
        ws@.map_values(|w: Vec<char>| w@) == words(s@),
{
    let mut ws: Vec<Vec<char>> = Vec::new();
    let mut pos: usize = 0;
    assert(s@.skip(0) =~= s@);
    loop
        invariant
            pos <= s.len(),
            ws@.map_values(|w: Vec<char>| w@) + words(s@.skip(pos as int)) == words(s@),
        decreases s.len() - pos,
    {
        let rest = slice_chars(s, pos, s.len());
        assert(rest@ =~= s@.skip(pos as int));
        let w = crate::post::leading_ws_exec(rest.as_slice());
        if w == rest.len() {
            proof {
                assert(trim_start(s@.skip(pos as int)).len() == 0);
                assert(words(s@.skip(pos as int)) =~= Seq::<Seq<char>>::empty());
                assert(ws@.map_values(|w: Vec<char>| w@) + Seq::<Seq<char>>::empty()
                    =~= ws@.map_values(|w: Vec<char>| w@));
            }
            return ws;
        }
        let word_start = pos + w;
        let tail = slice_chars(s, word_start, s.len());
        let n = crate::post::first_stop_exec(tail.as_slice(), false);
        proof {
            assert(tail@ =~= s@.skip(word_start as int));
            lemma_words_step(s@, pos as int, w as int, n as int);
        }
        let word = slice_chars(s, word_start, word_start + n);
        let ghost before = ws@.map_values(|w: Vec<char>| w@);
        ws.push(word);
        assert(ws@.map_values(|w: Vec<char>| w@) =~= before.push(word@));
        assert(before.push(word@) + words(s@.skip(word_start + n)) =~= before + (seq![word@]
            + words(s@.skip(word_start + n))));
        pos = word_start + n;
    }
}

/// The words joined by single spaces.
fn join_words_exec(ws: &Vec<Vec<char>>) -> (out: Vec<char>)
    ensures
        out@ == join_words(ws@.map_values(|w: Vec<char>| w@)),
{
    let ghost views = ws@.map_values(|w: Vec<char>| w@);
    let mut out: Vec<char> = Vec::new();
    let mut i: usize = 0;
    while i < ws.len()
        invariant
            i <= ws.len(),
            views == ws@.map_values(|w: Vec<char>| w@),
            out@ == join_words(views.take(i as int)),
        decreases ws.len() - i,
    {
        proof {
            assert(views.take(i + 1).drop_last() =~= views.take(i as int));
            assert(views.take(i + 1).last() == ws@[i as int]@);
        }
        if i > 0 {
            out.push(' ');
        } else {
            assert(views.take(1) =~= seq![ws@[0]@]);
            assert(out@ =~= Seq::<char>::empty());
        }
        extend_chars(&mut out, ws[i].as_slice());
        i = i + 1;
    }
    assert(views.take(ws.len() as int) =~= views);
    out
}

/// Extracts plain text from rendered HTML by stripping tags and decoding a
/// small set of common entities. Whitespace runs collapse to a single space.
pub fn html_to_plain_text(html: &str) -> (text: String)
    ensures
        text@ == plain_text(html@),
{
    proof {
        reveal_strlit("&nbsp;");
        reveal_strlit("&amp;");
        reveal_strlit("&lt;");
        reveal_strlit("&gt;");
        reveal_strlit("&quot;");
        reveal_strlit("&#39;");
    }
    let h = chars_of(html);
    let out = untagged_exec(h.as_slice());
    let a = replace_lit(out.as_slice(), "&nbsp;", " ");
    let b = replace_lit(a.as_slice(), "&amp;", "&");
    let c = replace_lit(b.as_slice(), "&lt;", "<");
    let d = replace_lit(c.as_slice(), "&gt;", ">");
    let e = replace_lit(d.as_slice(), "&quot;", "\"");
    let f = replace_lit(e.as_slice(), "&#39;", "'");
    let ws = words_exec(f.as_slice());
    let joined = join_words_exec(&ws);
    string_from_chars(joined.as_slice())
}

// ── Facts about words ───────────────────────────────────────────

/// `k` leading whitespace characters followed by something else, or nothing.
proof fn lemma_leading_ws_is(s: Seq<char>, k: int)
    requires
        0 <= k <= s.len(),
        forall|j: int| 0 <= j < k ==> unicode_is_whitespace(s[j]),
        k == s.len() || !unicode_is_whitespace(s[k]),
    ensures
        leading_ws(s) == k,
{
    crate::post::lemma_leading_ws_skip(s, k);
    if k < s.len() {
        assert(s.skip(k)[0] == s[k]);
    }
}

/// `n` characters that are not whitespace, followed by whitespace or nothing.
proof fn lemma_first_stop_is(s: Seq<char>, n: int)
    requires
        0 <= n <= s.len(),
        forall|j: int| 0 <= j < n ==> !unicode_is_whitespace(s[j]),
        n == s.len() || unicode_is_whitespace(s[n]),
    ensures
        first_stop(s, false) == n,
    decreases n,
{
    if n > 0 {
        assert forall|j: int| 0 <= j < n - 1 implies !unicode_is_whitespace(s.drop_first()[j]) by {
            assert(s.drop_first()[j] == s[j + 1]);
        }
        if n < s.len() {
            assert(s.drop_first()[n - 1] == s[n]);
        }
        lemma_first_stop_is(s.drop_first(), n - 1);
    }
}

/// Leading whitespace does not change the words.
proof fn lemma_words_skip_ws(s: Seq<char>, k: int)
    requires
        0 <= k <= s.len(),
        forall|j: int| 0 <= j < k ==> unicode_is_whitespace(s[j]),
    ensures
        words(s) == words(s.skip(k)),
{
    crate::post::lemma_leading_ws_skip(s, k);
    assert(trim_start(s) =~= trim_start(s.skip(k)));
}

/// A whitespace character between two texts separates their words.
proof fn lemma_words_split(x: Seq<char>, c: char, y: Seq<char>)
    requires
        unicode_is_whitespace(c),
    ensures
        words(x + seq![c] + y) == words(x) + words(y),
    decreases x.len(),
{
    let s = x + seq![c] + y;
    lemma_leading_ws_le(x);
    let lw = leading_ws(x) as int;
    if lw == x.len() {
        assert(trim_start(x).len() == 0);
        assert(words(x) =~= Seq::<Seq<char>>::empty());
        assert forall|j: int| 0 <= j < x.len() + 1 implies unicode_is_whitespace(s[j]) by {
            if j < x.len() {
                lemma_ws_prefix(x, j);
            }
        }
        lemma_words_skip_ws(s, x.len() as int + 1);
        assert(s.skip(x.len() as int + 1) =~= y);
        assert(words(y) =~= Seq::<Seq<char>>::empty() + words(y));
    } else {
        let t = x.skip(lw);
        let u = t + seq![c] + y;
        assert forall|j: int| 0 <= j < lw implies unicode_is_whitespace(s[j]) by {
            lemma_ws_prefix(x, j);
        }
        lemma_leading_ws_is(s, lw);
        assert(trim_start(s) =~= u);
        assert(trim_start(x) =~= t);
        crate::post::lemma_first_stop(t, false);
        let n = first_stop(t, false);
        assert(t[0] == x[lw]);
        assert(n > 0);
        assert forall|j: int| 0 <= j < n implies !unicode_is_whitespace(u[j]) by {
            assert(u[j] == t[j]);
        }
        if n < t.len() {
            assert(u[n] == t[n]);
        } else {
            assert(u[n] == c);
        }
        lemma_first_stop_is(u, n);
        assert(u.take(n) =~= t.take(n));
        if n < t.len() {
            let rest = t.skip(n);
            lemma_words_split(rest, c, y);
            assert(u.skip(n) =~= rest + seq![c] + y);
            assert(words(s) =~= seq![t.take(n)] + words(u.skip(n)));
            assert(words(x) =~= seq![t.take(n)] + words(rest));
            assert(words(s) =~= words(x) + words(y));
        } else {
            assert(u.skip(n) =~= seq![c] + y);
            lemma_words_skip_ws(u.skip(n), 1);
            assert(u.skip(n).skip(1) =~= y);
            assert(t.skip(n).len() == 0);
            assert(trim_start(t.skip(n)).len() == 0);
            assert(words(t.skip(n)) =~= Seq::<Seq<char>>::empty());
            assert(words(x) =~= seq![t.take(n)]);
            assert(words(s) =~= words(x) + words(y));
        }
    }
}

/// The characters before the first that is not whitespace are whitespace.
proof fn lemma_ws_prefix(s: Seq<char>, j: int)
    requires
        0 <= j < leading_ws(s),
    ensures
        unicode_is_whitespace(s[j]),
    decreases j,
{
    crate::post::lemma_leading_ws_bound(s);
    assert(s.len() > 0 && unicode_is_whitespace(s[0]));
    if j > 0 {
        lemma_ws_prefix(s.drop_first(), j - 1);
        assert(s.drop_first()[j - 1] == s[j]);
    }
}

/// A word on its own is one word.
proof fn lemma_words_of_word(w: Seq<char>)
    requires
        w.len() > 0,
        forall|j: int| 0 <= j < w.len() ==> !unicode_is_whitespace(#[trigger] w[j]),
    ensures
        words(w) == seq![w],
{
    lemma_leading_ws_is(w, 0);
    assert(trim_start(w) =~= w);
    lemma_first_stop_is(w, w.len() as int);
    assert(w.take(w.len() as int) =~= w);
    assert(trim_start(w.skip(w.len() as int)).len() == 0);
    assert(words(w.skip(w.len() as int)) =~= Seq::<Seq<char>>::empty());
}

/// The words of a text are non-empty and hold no whitespace.
proof fn lemma_words_are_words(s: Seq<char>)
    ensures
        forall|i: int|
            0 <= i < words(s).len() ==> (#[trigger] words(s)[i]).len() > 0 && forall|j: int|
                0 <= j < words(s)[i].len() ==> !unicode_is_whitespace(words(s)[i][j]),
    decreases s.len(),
{
    let t = trim_start(s);
    lemma_leading_ws_le(s);
    if t.len() > 0 {
        crate::post::lemma_first_stop(t, false);
        let n = first_stop(t, false);
        assert(t[0] == s[leading_ws(s) as int]);
        lemma_words_are_words(t.skip(n));
        let ws = words(s);
        assert(ws =~= seq![t.take(n)] + words(t.skip(n)));
        assert forall|i: int| 0 <= i < ws.len() implies (#[trigger] ws[i]).len() > 0 && forall|j: int|
            0 <= j < ws[i].len() ==> !unicode_is_whitespace(ws[i][j]) by {
            if i > 0 {
                assert(ws[i] == words(t.skip(n))[i - 1]);
            }
        }
    }
}

/// Words joined by single spaces split back into the same words.
proof fn lemma_words_of_joined(ws: Seq<Seq<char>>)
    requires
        forall|i: int|
            0 <= i < ws.len() ==> (#[trigger] ws[i]).len() > 0 && forall|j: int|
                0 <= j < ws[i].len() ==> !unicode_is_whitespace(ws[i][j]),
    ensures
        words(join_words(ws)) == ws,
    decreases ws.len(),
{
    if ws.len() == 0 {
        assert(words(Seq::<char>::empty()) =~= Seq::<Seq<char>>::empty());
    } else if ws.len() == 1 {
        assert(ws[0].len() > 0);
        lemma_words_of_word(ws[0]);
        assert(ws =~= seq![ws[0]]);
    } else {
        let init = ws.drop_last();
        assert forall|i: int| 0 <= i < init.len() implies (#[trigger] init[i]).len() > 0 && forall|j: int|
            0 <= j < init[i].len() ==> !unicode_is_whitespace(init[i][j]) by {
            assert(init[i] == ws[i]);
        }
        lemma_words_of_joined(init);
        assert(ws.last() == ws[ws.len() - 1]);
        lemma_words_of_word(ws.last());
        assert(unicode_is_whitespace(' '));
        lemma_words_split(join_words(init), ' ', ws.last());
        assert(join_words(ws) == join_words(init) + seq![' '] + ws.last());
        assert(ws =~= init + seq![ws.last()]);
    }
}

/// Plain text keeps the words of the decoded text and nothing else: its
/// words are those words, and it is them joined by single spaces.
pub proof fn law_plain_text_collapses_whitespace(html: Seq<char>)
    ensures
        words(plain_text(html)) == words(decode_entities(untagged(html, false))),
        plain_text(html) == join_words(words(plain_text(html))),
{
    let ws = words(decode_entities(untagged(html, false)));
    lemma_words_are_words(decode_entities(untagged(html, false)));
    lemma_words_of_joined(ws);
}

// ── Counting ────────────────────────────────────────────────────

/// The word and character counts of plain text: its whitespace-separated
/// words (none when it is empty) and its characters.
pub open spec fn text_counts(plain: Seq<char>) -> (int, int) {
    (if plain.len() == 0 {
        0
    } else {
        words(plain).len() as int
    }, plain.len() as int)
}

/// Counts the words and characters of the plain text of rendered HTML.
pub fn prose_counts(html: &str) -> (counts: (usize, usize))
    ensures
        (counts.0 as int, counts.1 as int) == text_counts(plain_text(html@)),
{
    let plain = html_to_plain_text(html);
    let cs = chars_of(plain.as_str());
    let words = if cs.len() == 0 {
        0
    } else {
        let ws = words_exec(cs.as_slice());
        assert(ws@.map_values(|w: Vec<char>| w@).len() == ws@.len());
        ws.len()
    };
    (words, cs.len())
}

/// Counts words and characters in the *rendered prose* of a post:
/// frontmatter and markdown syntax are excluded. Characters include spaces
/// between words.
pub fn count_prose(content: &str) -> (counts: (usize, usize))
    ensures
        (counts.0 as int, counts.1 as int) == text_counts(plain_text(rendered_html(content@))),
{
    let html = render_markdown(content);
    prose_counts(html.as_str())
}

} // verus!
