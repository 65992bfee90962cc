//! Standard base64 (RFC 4648, with `=` padding) and lossy UTF-8 decoding,
//! as used for file contents of the repository and for `data:` URLs.
use vstd::prelude::*;
use base64::Engine;
use vstd::utf8::{decode_utf8, encode_utf8, valid_utf8};
use crate::text::{chars_of, is_whitespace, string_from_chars, unicode_is_whitespace};

verus! {

// ── Base64 ──────────────────────────────────────────────────────

/// The character of the standard base64 alphabet for the 6-bit value `n`.
pub open spec fn b64_digit(n: int) -> char {
    if n < 26 {
        (65 + n) as char
    } else if n < 52 {
        (97 + n - 26) as char
    } else if n < 62 {
        (48 + n - 52) as char
    } else if n == 62 {
        '+'
    } else {
        '/'
    }
}

/// The standard base64 encoding of `b`: each group of three bytes becomes
/// four characters, and a final group of one or two bytes is padded with `=`.
pub open spec fn base64_encode(b: Seq<u8>) -> Seq<char>
    decreases b.len(),
{
    if b.len() == 0 {
        seq![]
    } else if b.len() == 1 {
        let x = b[0] as int;
        seq![b64_digit(x / 4), b64_digit((x % 4) * 16), '=', '=']
    } else if b.len() == 2 {
        let (x, y) = (b[0] as int, b[1] as int);
        seq![b64_digit(x / 4), b64_digit((x % 4) * 16 + y / 16), b64_digit((y % 16) * 4), '=']
    } else {
        let (x, y, z) = (b[0] as int, b[1] as int, b[2] as int);
        seq![
            b64_digit(x / 4),
            b64_digit((x % 4) * 16 + y / 16),
            b64_digit((y % 16) * 4 + z / 64),
            b64_digit(z % 64),
        ] + base64_encode(b.skip(3))
    }
}

proof fn lemma_digit(n: int, m: int)
    requires
        0 <= n < 64,
        0 <= m < 64,
    ensures
        b64_digit(n) != '=',
        b64_digit(n) == b64_digit(m) ==> n == m,
{
}

/// The four digits of a group of three bytes give the bytes back.
proof fn lemma_group_injective(a0: int, a1: int, a2: int, b0: int, b1: int, b2: int)
    requires
        0 <= a0 < 256 && 0 <= a1 < 256 && 0 <= a2 < 256,
        0 <= b0 < 256 && 0 <= b1 < 256 && 0 <= b2 < 256,
        b64_digit(a0 / 4) == b64_digit(b0 / 4),
        b64_digit((a0 % 4) * 16 + a1 / 16) == b64_digit((b0 % 4) * 16 + b1 / 16),
        b64_digit((a1 % 16) * 4 + a2 / 64) == b64_digit((b1 % 16) * 4 + b2 / 64),
        b64_digit(a2 % 64) == b64_digit(b2 % 64),
    ensures
        a0 == b0 && a1 == b1 && a2 == b2,
{
    lemma_digit(a0 / 4, b0 / 4);
    lemma_digit((a0 % 4) * 16 + a1 / 16, (b0 % 4) * 16 + b1 / 16);
    lemma_digit((a1 % 16) * 4 + a2 / 64, (b1 % 16) * 4 + b2 / 64);
    lemma_digit(a2 % 64, b2 % 64);
}

/// The length of an encoding and where its padding stands.
proof fn lemma_encode_shape(b: Seq<u8>)
    ensures
        b.len() == 0 ==> base64_encode(b).len() == 0,
        b.len() == 1 ==> base64_encode(b).len() == 4 && base64_encode(b)[2] == '='
            && base64_encode(b)[3] == '=',
        b.len() == 2 ==> base64_encode(b).len() == 4 && base64_encode(b)[2] != '='
            && base64_encode(b)[3] == '=',
        b.len() >= 3 ==> base64_encode(b).len() >= 4 && base64_encode(b)[2] != '='
            && base64_encode(b)[3] != '=' && base64_encode(b).skip(4) == base64_encode(b.skip(3)),
{
    let e = base64_encode(b);
    if b.len() == 2 {
        lemma_digit(((b[1] as int) % 16) * 4, 0);
    } else if b.len() >= 3 {
        let (x, y, z) = (b[0] as int, b[1] as int, b[2] as int);
        let head = seq![
            b64_digit(x / 4),
            b64_digit((x % 4) * 16 + y / 16),
            b64_digit((y % 16) * 4 + z / 64),
            b64_digit(z % 64),
        ];
        lemma_digit((y % 16) * 4 + z / 64, 0);
        lemma_digit(z % 64, 0);
        assert(e == head + base64_encode(b.skip(3)));
        assert(e[2] == head[2]);
        assert(e[3] == head[3]);
        assert(e.skip(4) =~= base64_encode(b.skip(3)));
    }
}

/// Two byte strings with the same standard base64 encoding are equal.
pub proof fn lemma_base64_injective(a: Seq<u8>, b: Seq<u8>)
    requires
        base64_encode(a) == base64_encode(b),
    ensures
        a == b,
    decreases a.len(),
{
    let e = base64_encode(a);
    lemma_encode_shape(a);
    lemma_encode_shape(b);
    if a.len() == 0 {
        assert(b =~= a);
    } else if a.len() == 1 {
        let (x, u) = (a[0] as int, b[0] as int);
        assert(e[0] == b64_digit(x / 4) && e[0] == b64_digit(u / 4));
        assert(e[1] == b64_digit((x % 4) * 16) && e[1] == b64_digit((u % 4) * 16));
        lemma_digit(x / 4, u / 4);
        lemma_digit((x % 4) * 16, (u % 4) * 16);
        assert(b =~= a);
    } else if a.len() == 2 {
        let (x, y, u, v) = (a[0] as int, a[1] as int, b[0] as int, b[1] as int);
        assert(e[0] == b64_digit(x / 4) && e[0] == b64_digit(u / 4));
        assert(e[1] == b64_digit((x % 4) * 16 + y / 16) && e[1] == b64_digit((u % 4) * 16 + v / 16));
        assert(e[2] == b64_digit((y % 16) * 4) && e[2] == b64_digit((v % 16) * 4));
        lemma_digit(x / 4, u / 4);
        lemma_digit((x % 4) * 16 + y / 16, (u % 4) * 16 + v / 16);
        lemma_digit((y % 16) * 4, (v % 16) * 4);
        assert(b =~= a);
    } else {
        let (x, y, z) = (a[0] as int, a[1] as int, a[2] as int);
        let (u, v, w) = (b[0] as int, b[1] as int, b[2] as int);
        let ha = seq![
            b64_digit(x / 4),
            b64_digit((x % 4) * 16 + y / 16),
            b64_digit((y % 16) * 4 + z / 64),
            b64_digit(z % 64),
        ];
        let hb = seq![
            b64_digit(u / 4),
            b64_digit((u % 4) * 16 + v / 16),
            b64_digit((v % 16) * 4 + w / 64),
            b64_digit(w % 64),
        ];
        assert(e == ha + base64_encode(a.skip(3)));
        assert(e == hb + base64_encode(b.skip(3)));
        assert(ha[0] == e[0] && hb[0] == e[0]);
        assert(ha[1] == e[1] && hb[1] == e[1]);
        assert(ha[2] == e[2] && hb[2] == e[2]);
        assert(ha[3] == e[3] && hb[3] == e[3]);
        lemma_group_injective(x, y, z, u, v, w);
        lemma_base64_injective(a.skip(3), b.skip(3));
        assert(a =~= a.take(3) + a.skip(3));
        assert(b =~= b.take(3) + b.skip(3));
        assert(a.take(3) =~= b.take(3));
    }
}

/// Every character of an encoding is an alphabet digit or `=`, so none is whitespace.
proof fn lemma_encode_has_no_whitespace(b: Seq<u8>)
    ensures
        forall|i: int|
            0 <= i < base64_encode(b).len() ==> !unicode_is_whitespace(
                #[trigger] base64_encode(b)[i],
            ),
    decreases b.len(),
{
    let e = base64_encode(b);
    if b.len() == 1 {
        let x = b[0] as int;
        lemma_digit_not_whitespace(x / 4);
        lemma_digit_not_whitespace((x % 4) * 16);
    } else if b.len() == 2 {
        let (x, y) = (b[0] as int, b[1] as int);
        lemma_digit_not_whitespace(x / 4);
        lemma_digit_not_whitespace((x % 4) * 16 + y / 16);
        lemma_digit_not_whitespace((y % 16) * 4);
    } else if b.len() >= 3 {
        let (x, y, z) = (b[0] as int, b[1] as int, b[2] as int);
        let head = seq![
            b64_digit(x / 4),
            b64_digit((x % 4) * 16 + y / 16),
            b64_digit((y % 16) * 4 + z / 64),
            b64_digit(z % 64),
        ];
        lemma_digit_not_whitespace(x / 4);
        lemma_digit_not_whitespace((x % 4) * 16 + y / 16);
        lemma_digit_not_whitespace((y % 16) * 4 + z / 64);
        lemma_digit_not_whitespace(z % 64);
        lemma_encode_has_no_whitespace(b.skip(3));
        assert(e == head + base64_encode(b.skip(3)));
        assert forall|i: int| 0 <= i < e.len() implies !unicode_is_whitespace(#[trigger] e[i]) by {
            if i >= 4 {
                assert(e[i] == base64_encode(b.skip(3))[i - 4]);
            }
        }
    }
}

proof fn lemma_digit_not_whitespace(n: int)
    requires
        0 <= n < 64,
    ensures
        !unicode_is_whitespace(b64_digit(n)),
{
}

// ── Whitespace removal ──────────────────────────────────────────

/// Whether `c` is kept when whitespace is removed.
pub open spec fn not_whitespace(c: char) -> bool {
    !unicode_is_whitespace(c)
}

/// `s` with every whitespace character removed.
pub open spec fn strip_ws(s: Seq<char>) -> Seq<char> {
    s.filter(|c: char| not_whitespace(c))
}

proof fn lemma_strip_ws_of_clean(s: Seq<char>)
    requires
        forall|i: int| 0 <= i < s.len() ==> !unicode_is_whitespace(#[trigger] s[i]),
    ensures
        strip_ws(s) == s,
    decreases s.len(),
{
    reveal(Seq::filter);
    if s.len() > 0 {
        lemma_strip_ws_of_clean(s.drop_last());
        assert(s.drop_last().push(s.last()) =~= s);
    }
}

/// The characters of `s` that are not whitespace, in order.
pub fn strip_whitespace(s: &str) -> (out: String)
    ensures
        out@ == strip_ws(s@),
{
    let cs = chars_of(s);
    let mut kept: Vec<char> = Vec::new();
    let mut i: usize = 0;
    while i < cs.len()
        invariant
            i <= cs.len(),
            cs@ == s@,
            kept@ == cs@.take(i as int).filter(|c: char| not_whitespace(c)),
        decreases cs.len() - i,
    {
        proof {
            reveal(Seq::filter);
            assert(cs@.take(i + 1).drop_last() =~= cs@.take(i as int));
        }
        if !is_whitespace(cs[i]) {
            kept.push(cs[i]);
        }
        i = i + 1;
    }
    assert(cs@.take(cs.len() as int) =~= cs@);
    string_from_chars(kept.as_slice())
}

// ── Calls into the base64 crate and std ─────────────────────────

/// Calls `Engine::encode` on the `STANDARD` engine of the base64 crate, which
/// encodes with the standard alphabet and `=` padding: the result is
/// `base64_encode` of the bytes.
#[verifier::external_body]
fn encode_standard(bytes: &[u8]) -> (s: String)
    ensures
        s@ == base64_encode(bytes@),
{
    base64::engine::general_purpose::STANDARD.encode(bytes)
}

/// The text of the error that the `STANDARD` engine's `Engine::decode` gives
/// for `text`: the `Display` of its `DecodeError`, which names the first
/// offending symbol and its offset, a bad length or bad padding.
pub uninterp spec fn base64_error_text(text: Seq<char>) -> Seq<char>;

/// Calls `Engine::decode` on the `STANDARD` engine of the base64 crate, whose
/// configuration requires canonical padding and rejects trailing bits, so it
/// accepts exactly the texts that `base64_encode` produces and gives back the
/// bytes they encode; the text of an error is named by `base64_error_text`.
#[verifier::external_body]
fn decode_standard(text: &str) -> (r: Result<Vec<u8>, String>)
    ensures
        r matches Ok(v) ==> base64_encode(v@) == text@,
        r is Err ==> forall|b: Seq<u8>| #[trigger] base64_encode(b) != text@,
        r matches Err(e) ==> e@ == base64_error_text(text@),
{
    base64::engine::general_purpose::STANDARD.decode(text).map_err(|e| e.to_string())
}

/// What `String::from_utf8_lossy` gives for `bytes`, which replaces each
/// invalid UTF-8 sequence by U+FFFD.
pub uninterp spec fn utf8_lossy(bytes: Seq<u8>) -> Seq<char>;

/// Calls `String::from_utf8_lossy`, named by `utf8_lossy`; on valid UTF-8 it
/// decodes the bytes unchanged, as its documentation states.
#[verifier::external_body]
fn from_utf8_lossy(bytes: &[u8]) -> (s: String)
    ensures
        s@ == utf8_lossy(bytes@),
        valid_utf8(bytes@) ==> s@ == decode_utf8(bytes@),
{
    String::from_utf8_lossy(bytes).to_string()
}

// ── Encoding and decoding ───────────────────────────────────────

/// The text of `bytes`: their UTF-8 decoding when valid, else what lossy
/// decoding gives.
pub open spec fn lossy_text(bytes: Seq<u8>) -> Seq<char> {
    if valid_utf8(bytes) {
        decode_utf8(bytes)
    } else {
        utf8_lossy(bytes)
    }
}

/// Whether `text` is the standard base64 encoding of some bytes.
pub open spec fn is_base64(text: Seq<char>) -> bool {
    exists|b: Seq<u8>| #[trigger] base64_encode(b) == text
}

/// The bytes that the base64 text `text` encodes.
pub open spec fn base64_decode(text: Seq<char>) -> Seq<u8>
    recommends
        is_base64(text),
{
    choose|b: Seq<u8>| #[trigger] base64_encode(b) == text
}

/// Encodes bytes in standard base64.
pub fn base64_of_bytes(bytes: &[u8]) -> (s: String)
    ensures
        s@ == base64_encode(bytes@),
{
    encode_standard(bytes)
}

/// Encodes the UTF-8 bytes of a text in standard base64.
pub fn base64_of_text(text: &str) -> (s: String)
    ensures
        s@ == base64_encode(encode_utf8(text@)),
{
    encode_standard(text.as_bytes())
}

/// Decodes standard base64 text; fails exactly when the text is no
/// standard base64 encoding, with the base64 crate's error text.
pub fn base64_to_bytes(text: &str) -> (r: Result<Vec<u8>, String>)
    ensures
        r is Ok <==> is_base64(text@),
        r matches Ok(v) ==> v@ == base64_decode(text@),
        r matches Err(e) ==> e@ == base64_error_text(text@),
{
    let r = decode_standard(text);
    proof {
        if r is Ok {
            let v = r->Ok_0;
            assert(base64_encode(v@) == text@);
            lemma_base64_injective(v@, base64_decode(text@));
        }
    }
    r
}

/// Text from bytes, as `String::from_utf8_lossy` decodes them.
pub fn text_of_bytes(bytes: &[u8]) -> (s: String)
    ensures
        s@ == lossy_text(bytes@),
{
    from_utf8_lossy(bytes)
}

/// Decoding what encoding gave yields the bytes again, whatever whitespace
/// was put into the encoded text.
pub proof fn law_base64_round_trip(b: Seq<u8>, text: Seq<char>)
    requires
        strip_ws(text) == base64_encode(b),
    ensures
        is_base64(strip_ws(text)),
        base64_decode(strip_ws(text)) == b,
{
    let d = base64_decode(strip_ws(text));
    assert(base64_encode(b) == strip_ws(text));
    lemma_base64_injective(d, b);
}

/// Encoding leaves no whitespace to remove.
pub proof fn law_base64_has_no_whitespace(b: Seq<u8>)
    ensures
        strip_ws(base64_encode(b)) == base64_encode(b),
{
    lemma_encode_has_no_whitespace(b);
    lemma_strip_ws_of_clean(base64_encode(b));
}

/// The lossy decoding of a text's UTF-8 bytes is the text.
pub proof fn law_lossy_text_of_utf8(t: Seq<char>)
    ensures
        lossy_text(encode_utf8(t)) == t,
{
    vstd::utf8::encode_utf8_valid_utf8(t);
    vstd::utf8::encode_utf8_decode_utf8(t);
}

} // verus!
