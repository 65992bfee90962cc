//! Small text utilities of the editor: slugs, titles, file names,
//! character offsets and human-readable sizes.
use vstd::prelude::*;
use vstd::string::StringSliceAdditionalSpecFns;
use vstd::utf8::{encode_scalar, encode_utf8};
use crate::text::{
    decimal, digit_char, push_decimal,
    after_last, chars_eq, chars_of, ends_with, ends_with_exec, extend_chars, extend_str, is_alphanumeric,
    last_index_of, last_index_of_exec, slice_chars, string_from_chars, to_lowercase, to_uppercase,
    unicode_is_alphanumeric, unicode_lowercase, unicode_uppercase, is_ascii_char, all_ascii,
    ascii_alnum, ascii_lower, ascii_upper, ascii_lowercase,
};

verus! {

broadcast use vstd::string::group_string_axioms;

// ── slug_from_path ──────────────────────────────────────────────

/// `s` without any trailing `c` (`str::trim_end_matches(c)`).
pub open spec fn trim_end_char(s: Seq<char>, c: char) -> Seq<char>
    decreases s.len(),
{
    if s.len() > 0 && s.last() == c {
        trim_end_char(s.drop_last(), c)
    } else {
        s
    }
}

/// `s` with every trailing repetition of the non-empty `p` removed
/// (`str::trim_end_matches(p)`).
pub open spec fn trim_end_seq(s: Seq<char>, p: Seq<char>) -> Seq<char>
    decreases s.len(),
{
    if p.len() > 0 && ends_with(s, p) {
        trim_end_seq(s.take(s.len() - p.len()), p)
    } else {
        s
    }
}

/// The slug of a post path: the file name without `.md`, or, for an
/// `index.md` / `_index.md` file, the name of its directory.
pub open spec fn slug_of(path: Seq<char>) -> Seq<char> {
    let t = trim_end_char(path, '/');
    let last = after_last(t, '/');
    if last == "index.md"@ || last == "_index.md"@ {
        match last_index_of(t, '/') {
            Some(i) => after_last(t.take(i), '/'),
            None => "untitled"@,
        }
    } else {
        trim_end_seq(last, ".md"@)
    }
}

fn trim_end_char_exec(s: &[char], c: char) -> (n: usize)
    ensures
        n <= s.len(),
        s@.take(n as int) == trim_end_char(s@, c),
{
    let mut n = s.len();
    assert(s@.take(n as int) =~= s@);
    while n > 0 && s[n - 1] == c
        invariant
            n <= s.len(),
            trim_end_char(s@, c) == trim_end_char(s@.take(n as int), c),
        decreases n,
    {
        assert(s@.take(n as int).drop_last() =~= s@.take(n - 1));
        n = n - 1;
    }
    n
}

fn trim_end_seq_exec(s: &[char], p: &[char]) -> (v: Vec<char>)
    ensures
        v@ == trim_end_seq(s@, p@),
{
    let mut n = s.len();
    assert(s@.take(n as int) =~= s@);
    if p.len() == 0 {
        return slice_chars(s, 0, s.len());
    }
    loop
        invariant
            p.len() > 0,
            n <= s.len(),
            trim_end_seq(s@, p@) == trim_end_seq(s@.take(n as int), p@),
        decreases n,
    {
        let cur = slice_chars(s, 0, n);
        assert(cur@ =~= s@.take(n as int));
        if ends_with_exec(cur.as_slice(), p) {
            assert(s@.take(n as int).take(n - p.len()) =~= s@.take(n - p.len()));
            n = n - p.len();
        } else {
            return cur;
        }
    }
}

/// Extracts the post slug from a file path.
///
/// - `content/blog/my-post.md`  → `"my-post"`
/// - `content/blog/my-post/index.md` → `"my-post"`
pub fn slug_from_path(path: &str) -> (slug: String)
    ensures
        slug@ == slug_of(path@),
{
    let cs = chars_of(path);
    let tn = trim_end_char_exec(cs.as_slice(), '/');
    let t = slice_chars(cs.as_slice(), 0, tn);
    let li = last_index_of_exec(t.as_slice(), '/');
    let last = match li {
        Some(i) => slice_chars(t.as_slice(), i + 1, t.len()),
        None => slice_chars(t.as_slice(), 0, t.len()),
    };
    proof {
        assert(t@ =~= trim_end_char(path@, '/'));
        assert(t@.subrange(0, t@.len() as int) =~= t@);
        if let Some(i) = li {
            assert(t@.subrange(i + 1, t@.len() as int) =~= t@.skip(i + 1));
        }
        assert(last@ == after_last(t@, '/'));
    }
    let index_md = chars_of("index.md");
    let under_index_md = chars_of("_index.md");
    if chars_eq(last.as_slice(), index_md.as_slice()) || chars_eq(
        last.as_slice(),
        under_index_md.as_slice(),
    ) {
        match li {
            Some(i) => {
                let prefix = slice_chars(t.as_slice(), 0, i);
                let lj = last_index_of_exec(prefix.as_slice(), '/');
                let part = match lj {
                    Some(j) => slice_chars(prefix.as_slice(), j + 1, prefix.len()),
                    None => slice_chars(prefix.as_slice(), 0, prefix.len()),
                };
                proof {
                    assert(prefix@ =~= t@.take(i as int));
                    assert(prefix@.subrange(0, prefix@.len() as int) =~= prefix@);
                    if let Some(j) = lj {
                        assert(prefix@.subrange(j + 1, prefix@.len() as int) =~= prefix@.skip(
                            j + 1,
                        ));
                    }
                }
                string_from_chars(part.as_slice())
            },
            None => String::from_str("untitled"),
        }
    } else {
        let md = chars_of(".md");
        let stem = trim_end_seq_exec(last.as_slice(), md.as_slice());
        string_from_chars(stem.as_slice())
    }
}

// ── title_from_slug ─────────────────────────────────────────────

/// `s` with every `-` replaced by a space.
pub open spec fn hyphens_to_spaces(s: Seq<char>) -> Seq<char> {
    s.map_values(|c: char| if c == '-' { ' ' } else { c })
}

/// The display title of a slug: hyphens become spaces and the first
/// character is upper-cased.
pub open spec fn title_of(slug: Seq<char>) -> Seq<char> {
    let t = hyphens_to_spaces(slug);
    if t.len() == 0 {
        seq![]
    } else {
        unicode_uppercase(t[0]) + t.skip(1)
    }
}

/// Converts a kebab-case slug into a title-cased display string.
pub fn title_from_slug(slug: &str) -> (title: String)
    ensures
        title@ == title_of(slug@),
        slug@.len() > 0 && is_ascii_char(slug@[0]) ==> title@ == seq![
            ascii_upper(hyphens_to_spaces(slug@)[0]),
        ] + hyphens_to_spaces(slug@).skip(1),
{
    let cs = chars_of(slug);
    let mut t: Vec<char> = Vec::new();
    let mut i: usize = 0;
    while i < cs.len()
        invariant
            i <= cs.len(),
            t@ == hyphens_to_spaces(cs@.take(i as int)),
        decreases cs.len() - i,
    {
        let c = cs[i];
        t.push(if c == '-' { ' ' } else { c });
        i = i + 1;
        assert(t@ =~= hyphens_to_spaces(cs@.take(i as int)));
    }
    assert(cs@.take(cs.len() as int) =~= cs@);
    if t.len() == 0 {
        return String::new();
    }
    let mut out = to_uppercase(t[0]);
    let rest = slice_chars(t.as_slice(), 1, t.len());
    extend_chars(&mut out, rest.as_slice());
    assert(rest@ =~= t@.skip(1));
    string_from_chars(out.as_slice())
}

// ── sanitize_filename ───────────────────────────────────────────

/// Whether a file-name character is kept: alphanumeric, `-`, `_` or `.`.
pub open spec fn keeps_char(c: char) -> bool {
    unicode_is_alphanumeric(c) || c == '-' || c == '_' || c == '.'
}

/// Spaces turned into hyphens, then every character that is not kept dropped.
pub open spec fn sanitized_chars(s: Seq<char>) -> Seq<char>
    decreases s.len(),
{
    if s.len() == 0 {
        seq![]
    } else {
        let c = if s.last() == ' ' { '-' } else { s.last() };
        let r = sanitized_chars(s.drop_last());
        if keeps_char(c) {
            r.push(c)
        } else {
            r
        }
    }
}

/// The sanitized form of an ASCII file name: spaces become hyphens, letters,
/// digits, `-`, `_` and `.` are kept, and capitals become small letters.
pub open spec fn ascii_sanitized(s: Seq<char>) -> Seq<char>
    decreases s.len(),
{
    if s.len() == 0 {
        seq![]
    } else {
        let c = if s.last() == ' ' { '-' } else { s.last() };
        let r = ascii_sanitized(s.drop_last());
        if ascii_alnum(c) || c == '-' || c == '_' || c == '.' {
            r.push(ascii_lower(c))
        } else {
            r
        }
    }
}

/// Sanitizes a user-supplied filename: spaces → hyphens, keep alphanumeric /
/// `-` / `_` / `.`, then lower-case the result. For an ASCII name that is
/// `ascii_sanitized`.
pub fn sanitize_filename(name: &str) -> (r: String)
    ensures
        r@ == unicode_lowercase(sanitized_chars(name@)),
        all_ascii(name@) ==> r@ == ascii_sanitized(name@),
{
    let cs = chars_of(name);
    let mut kept: Vec<char> = Vec::new();
    let mut i: usize = 0;
    while i < cs.len()
        invariant
            i <= cs.len(),
            cs@ == name@,
            kept@ == sanitized_chars(cs@.take(i as int)),
            all_ascii(cs@) ==> all_ascii(kept@) && ascii_lowercase(kept@) == ascii_sanitized(
                cs@.take(i as int),
            ),
        decreases cs.len() - i,
    {
        let c = if cs[i] == ' ' { '-' } else { cs[i] };
        let ghost before = kept@;
        let keep = is_alphanumeric(c) || c == '-' || c == '_' || c == '.';
        if keep {
            kept.push(c);
        }
        assert(cs@.take(i + 1).drop_last() =~= cs@.take(i as int));
        proof {
            if all_ascii(cs@) {
                assert(is_ascii_char(cs@[i as int]));
                if keep {
                    assert(ascii_lowercase(kept@) =~= ascii_lowercase(before).push(ascii_lower(c)));
                }
            }
        }
        i = i + 1;
    }
    assert(cs@.take(cs.len() as int) =~= cs@);
    let joined = string_from_chars(kept.as_slice());
    to_lowercase(joined.as_str())
}

/// A character that a sanitized ASCII name may hold: a small letter, a
/// digit, `-`, `_` or `.`.
pub open spec fn filename_char(c: char) -> bool {
    ||| 48 <= (c as u32) <= 57
    ||| 97 <= (c as u32) <= 122
    ||| c == '-'
    ||| c == '_'
    ||| c == '.'
}

proof fn lemma_ascii_sanitized_chars(s: Seq<char>)
    requires
        all_ascii(s),
    ensures
        forall|i: int| 0 <= i < ascii_sanitized(s).len() ==> filename_char(#[trigger] ascii_sanitized(s)[i]),
        ascii_sanitized(s).len() <= s.len(),
    decreases s.len(),
{
    if s.len() > 0 {
        lemma_ascii_sanitized_chars(s.drop_last());
    }
}

proof fn lemma_ascii_sanitized_fixed(s: Seq<char>)
    requires
        forall|i: int| 0 <= i < s.len() ==> filename_char(#[trigger] s[i]),
    ensures
        ascii_sanitized(s) == s,
    decreases s.len(),
{
    if s.len() > 0 {
        lemma_ascii_sanitized_fixed(s.drop_last());
        assert(s.drop_last().push(s.last()) =~= s);
    }
}

/// Sanitizing an ASCII name gives only small letters, digits, `-`, `_` and
/// `.`, is no longer than the name, and sanitizing the result again leaves
/// it unchanged.
pub proof fn law_sanitized_name_is_stable(name: Seq<char>)
    requires
        all_ascii(name),
    ensures
        forall|i: int|
            0 <= i < ascii_sanitized(name).len() ==> filename_char(#[trigger] ascii_sanitized(name)[i]),
        ascii_sanitized(name).len() <= name.len(),
        all_ascii(ascii_sanitized(name)),
        ascii_sanitized(ascii_sanitized(name)) == ascii_sanitized(name),
{
    lemma_ascii_sanitized_chars(name);
    lemma_ascii_sanitized_fixed(ascii_sanitized(name));
}

// ── char_pos_to_byte_offset ─────────────────────────────────────

/// The UTF-8 encoding of a concatenation is the concatenation of the encodings.
pub proof fn lemma_encode_utf8_concat(a: Seq<char>, b: Seq<char>)
    ensures
        encode_utf8(a + b) == encode_utf8(a) + encode_utf8(b),
    decreases a.len(),
{
    if a.len() == 0 {
        assert(a + b =~= b);
    } else {
        lemma_encode_utf8_concat(a.drop_first(), b);
        assert((a + b).drop_first() =~= a.drop_first() + b);
    }
}

/// The number of UTF-8 bytes of `c` (`char::len_utf8`).
fn utf8_width(c: char) -> (w: usize)
    ensures
        w == encode_utf8(seq![c]).len(),
        1 <= w <= 4,
{
    proof {
        vstd::utf8::char_is_scalar(c);
        assert(seq![c].drop_first() =~= Seq::<char>::empty());
        assert(encode_utf8(Seq::<char>::empty()) =~= Seq::<u8>::empty());
        assert(encode_utf8(seq![c]) =~= encode_scalar(c as u32));
    }
    let u = c as u32;
    if u <= 0x7f {
        1
    } else if u <= 0x7ff {
        2
    } else if u <= 0xffff {
        3
    } else {
        4
    }
}

/// The byte offset of the character at index `n` of `s`, or the byte
/// length of `s` where it has no such character.
pub open spec fn byte_offset_of(s: Seq<char>, n: int) -> int {
    if n < s.len() {
        encode_utf8(s.take(n)).len() as int
    } else {
        encode_utf8(s).len() as int
    }
}

/// Converts a character index into the corresponding byte offset within `s`.
pub fn char_pos_to_byte_offset(s: &str, char_pos: usize) -> (off: usize)
    ensures
        off == byte_offset_of(s@, char_pos as int),
{
    let cs = chars_of(s);
    let total = s.as_bytes().len();
    let mut off: usize = 0;
    let mut i: usize = 0;
    let limit = if char_pos < cs.len() { char_pos } else { cs.len() };
    proof {
        assert(cs@.take(0) =~= Seq::<char>::empty());
        assert(s@.take(cs.len() as int) =~= s@);
    }
    while i < limit
        invariant
            limit <= cs.len(),
            cs@ == s@,
            i <= limit,
            off == encode_utf8(cs@.take(i as int)).len(),
            encode_utf8(s@).len() == total,
        decreases limit - i,
    {
        let w = utf8_width(cs[i]);
        proof {
            lemma_encode_utf8_concat(cs@.take(i as int), seq![cs@[i as int]]);
            assert(cs@.take(i as int) + seq![cs@[i as int]] =~= cs@.take(i + 1));
            lemma_encode_utf8_concat(cs@.take(i + 1), cs@.skip(i + 1));
            assert(cs@.take(i + 1) + cs@.skip(i + 1) =~= cs@);
        }
        off = off + w;
        i = i + 1;
    }
    if char_pos >= cs.len() {
        assert(cs@.take(cs.len() as int) =~= cs@);
    }
    off
}

// ── format_size ─────────────────────────────────────────────────

/// `n / d` rounded to the nearest integer, ties to the even one.
pub open spec fn round_half_even(n: nat, d: nat) -> nat
    recommends
        d > 0,
{
    let q = n / d;
    let r = n % d;
    if 2 * r < d {
        q
    } else if 2 * r > d {
        q + 1
    } else if q % 2 == 0 {
        q
    } else {
        q + 1
    }
}

/// The spacing of the `f64` values around `b`: `1` below 2^53, doubling
/// with each further bit of `b`.
pub open spec fn f64_unit(b: nat) -> nat
    decreases b,
{
    if b < 0x20000000000000 {
        1
    } else {
        2 * f64_unit(b / 2)
    }
}

/// The value of `b as f64`: `b` rounded to the nearest multiple of its
/// `f64` spacing, ties to even.
pub open spec fn as_f64(b: nat) -> nat {
    round_half_even(b, f64_unit(b)) * f64_unit(b)
}

/// A count of tenths written with one decimal place, such as `1.5`.
pub open spec fn one_decimal(tenths: nat) -> Seq<char> {
    decimal(tenths / 10) + seq!['.', digit_char(tenths % 10)]
}

/// The human-readable size text: whole bytes below 1024, else kilobytes
/// below 1024 KB, else megabytes, each with one decimal rounded half to even
/// (as `{:.1}` formats the exact `f64` quotient).
pub open spec fn size_text(bytes: nat) -> Seq<char> {
    if bytes < 1024 {
        decimal(bytes) + " B"@
    } else if bytes < 1048576 {
        one_decimal(round_half_even(bytes * 10, 1024)) + " KB"@
    } else {
        one_decimal(round_half_even(as_f64(bytes) * 10, 1048576)) + " MB"@
    }
}

fn round_half_even_exec(n: u128, d: u128) -> (r: u128)
    requires
        d > 0,
        n < 0x1000000000000000000000000000,
    ensures
        r == round_half_even(n as nat, d as nat),
{
    let q = n / d;
    let r = n % d;
    assert(q <= n) by (nonlinear_arith)
        requires
            q == n / d,
            d > 0,
    ;
    if r < d - r {
        q
    } else if r > d - r {
        q + 1
    } else if q % 2 == 0 {
        q
    } else {
        q + 1
    }
}

/// The unit of `f64_unit(b)`, computed.
fn f64_unit_exec(b: u64) -> (u: u128)
    ensures
        u == f64_unit(b as nat),
        1 <= u <= 4096,
{
    let mut x = b;
    let mut u: u128 = 1;
    while x >= 0x20000000000000
        invariant
            u * f64_unit(x as nat) == f64_unit(b as nat),
            1 <= u,
            u * x <= b,
            u == 1 || x >= 0x10000000000000,
        decreases x,
    {
        let ghost fx = f64_unit(x as nat);
        let ghost fh = f64_unit((x / 2) as nat);
        assert(fx == 2 * fh);
        assert(u * fx == (2 * u) * fh) by (nonlinear_arith)
            requires
                fx == 2 * fh,
        ;
        assert((2 * u) * (x / 2) <= u * x) by (nonlinear_arith);
        assert(u < 4096) by (nonlinear_arith)
            requires
                u * x <= b,
                x >= 0x20000000000000,
                b < 0x10000000000000000,
        ;
        x = x / 2;
        u = u * 2;
    }
    assert(f64_unit(x as nat) == 1);
    assert(u * f64_unit(x as nat) == u);
    assert(u <= 4096) by (nonlinear_arith)
        requires
            u * x <= b,
            u == 1 || x >= 0x10000000000000,
            b < 0x10000000000000000,
    ;
    u
}

fn push_one_decimal(out: &mut Vec<char>, tenths: u128)
    ensures
        final(out)@ == old(out)@ + one_decimal(tenths as nat),
{
    push_decimal(out, tenths / 10);
    out.push('.');
    let mut d: Vec<char> = Vec::new();
    push_decimal(&mut d, tenths % 10);
    assert(d@ =~= seq![digit_char((tenths % 10) as nat)]);
    out.push(d[0]);
    assert(final(out)@ =~= old(out)@ + one_decimal(tenths as nat));
}

/// A byte count in megabytes with one decimal, as `{:.1}` formats the `f64`
/// quotient of the count (as an `f64`) by a megabyte.
pub open spec fn megabytes_of(bytes: nat) -> Seq<char> {
    one_decimal(round_half_even(as_f64(bytes) * 10, 1048576))
}

/// Appends a byte count in megabytes with one decimal, for any count.
pub fn push_megabytes(out: &mut Vec<char>, bytes: u64)
    ensures
        final(out)@ == old(out)@ + megabytes_of(bytes as nat),
{
    let u = f64_unit_exec(bytes);
    let r = round_half_even_exec(bytes as u128, u);
    assert(r * u <= 0x20000000000000000) by (nonlinear_arith)
        requires
            r == round_half_even(bytes as nat, u as nat),
            1 <= u,
            bytes < 0x10000000000000000,
    {
    }
    let x = r * u;
    let t = round_half_even_exec(x * 10, 1048576);
    push_one_decimal(out, t);
}

/// Formats a byte count as a human-readable string (B / KB / MB).
pub fn format_size(bytes: u64) -> (s: String)
    ensures
        s@ == size_text(bytes as nat),
{
    let mut out: Vec<char> = Vec::new();
    if bytes < 1024 {
        push_decimal(&mut out, bytes as u128);
        extend_str(&mut out, " B");
    } else if bytes < 1048576 {
        let t = round_half_even_exec(bytes as u128 * 10, 1024);
        push_one_decimal(&mut out, t);
        extend_str(&mut out, " KB");
    } else {
        push_megabytes(&mut out, bytes);
        extend_str(&mut out, " MB");
    }
    assert(out@ =~= size_text(bytes as nat));
    string_from_chars(out.as_slice())
}

} // verus!
