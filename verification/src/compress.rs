//! Image compression decisions: which files are compressed, the size they
//! are scaled to, their MIME type, and the `data:` URLs that carry them to
//! and from the browser's canvas.
use vstd::prelude::*;
use crate::encoding::{base64_decode, base64_encode, base64_error_text, base64_of_bytes, base64_to_bytes, is_base64};
use crate::post::{data_url, extension_of};
use crate::text::{
    chars_eq, chars_of, extend_str, slice_chars, starts_with, starts_with_exec, string_from_chars,
    to_lowercase, unicode_lowercase, all_ascii, ascii_lowercase,
};

verus! {

broadcast use vstd::string::group_string_axioms;

/// The extension of a file name in lower case (`str::to_lowercase`).
pub open spec fn lower_extension(name: Seq<char>) -> Seq<char> {
    unicode_lowercase(extension_of(name))
}

/// JPEG, PNG and WebP are the compressible raster formats.
pub open spec fn compressible_extension(ext: Seq<char>) -> bool {
    ext == "jpg"@ || ext == "jpeg"@ || ext == "png"@ || ext == "webp"@
}

/// The lower-cased extension of a file name.
fn lower_extension_exec(name: &str) -> (ext: Vec<char>)
    ensures
        ext@ == lower_extension(name@),
        all_ascii(extension_of(name@)) ==> ext@ == ascii_lowercase(extension_of(name@)),
{
    let cs = chars_of(name);
    let start = match crate::text::last_index_of_exec(cs.as_slice(), '.') {
        Some(i) => i + 1,
        None => 0,
    };
    let raw = slice_chars(cs.as_slice(), start, cs.len());
    assert(raw@ =~= extension_of(name@));
    let raw_s = string_from_chars(raw.as_slice());
    let lower = to_lowercase(raw_s.as_str());
    chars_of(lower.as_str())
}

/// The lower-cased extension of a file name, as a string.
pub fn lower_extension_string(name: &str) -> (ext: String)
    ensures
        ext@ == lower_extension(name@),
        all_ascii(extension_of(name@)) ==> ext@ == ascii_lowercase(extension_of(name@)),
{
    let cs = lower_extension_exec(name);
    string_from_chars(cs.as_slice())
}

/// Whether the characters `v` spell the literal `lit`.
fn is_lit(v: &[char], lit: &str) -> (b: bool)
    ensures
        b == (v@ == lit@),
{
    let l = chars_of(lit);
    chars_eq(v, l.as_slice())
}

/// Returns true for JPEG, PNG, WebP — compressible raster formats.
pub fn is_compressible_image(name: &str) -> (b: bool)
    ensures
        b == compressible_extension(lower_extension(name@)),
        all_ascii(extension_of(name@)) ==> b == compressible_extension(
            ascii_lowercase(extension_of(name@)),
        ),
{
    let ext = lower_extension_exec(name);
    let e = ext.as_slice();
    is_lit(e, "jpg") || is_lit(e, "jpeg") || is_lit(e, "png") || is_lit(e, "webp")
}

/// PNG stays PNG; everything else is encoded as JPEG.
pub open spec fn mime_from_name(name: Seq<char>) -> Seq<char> {
    if lower_extension(name) == "png"@ {
        "image/png"@
    } else {
        "image/jpeg"@
    }
}

/// MIME type from file extension. Defaults to "image/jpeg".
pub fn mime_type_from_name(name: &str) -> (mime: &'static str)
    ensures
        mime@ == mime_from_name(name@),
        all_ascii(extension_of(name@)) ==> mime@ == (if ascii_lowercase(extension_of(name@))
            == "png"@ {
            "image/png"@
        } else {
            "image/jpeg"@
        }),
{
    let ext = lower_extension_exec(name);
    if is_lit(ext.as_slice(), "png") {
        "image/png"
    } else {
        "image/jpeg"
    }
}

/// What compressing an image gives: its sizes before and after, the bytes
/// of the compressed image and a `data:` URL to preview it.
pub struct CompressResult {
    pub original_width: u32,
    pub original_height: u32,
    pub new_width: u32,
    pub new_height: u32,
    pub compressed_bytes: Vec<u8>,
    pub preview_data_url: String,
}

// ── Scaling ─────────────────────────────────────────────────────

/// `n / d` rounded to the nearest integer, halves rounded up (`f64::round`
/// on a non-negative quotient).
pub open spec fn round_div(n: int, d: int) -> int {
    (2 * n + d) / (2 * d)
}

/// The larger of `x` and one.
pub open spec fn at_least_one(x: int) -> int {
    if x < 1 {
        1
    } else {
        x
    }
}

/// The scaled size of a `width` × `height` image: unchanged when both fit in
/// `max_size`, else the longer side becomes `max_size` and the other keeps
/// the aspect ratio, rounded, and at least one.
pub open spec fn scaled(width: int, height: int, max_size: int) -> (int, int) {
    if width <= max_size && height <= max_size {
        (width, height)
    } else if width >= height {
        (max_size, at_least_one(round_div(height * max_size, width)))
    } else {
        (at_least_one(round_div(width * max_size, height)), max_size)
    }
}

proof fn lemma_round_div_bounds(a: int, m: int, b: int)
    requires
        0 <= a <= b,
        0 <= m < b,
    ensures
        0 <= round_div(a * m, b) <= m,
        round_div(a * m, b) <= a,
{
    assert(0 <= a * m <= b * m) by (nonlinear_arith)
        requires
            0 <= a <= b,
            0 <= m,
    ;
    assert(a * m <= a * b) by (nonlinear_arith)
        requires
            0 <= a,
            0 <= m < b,
    ;
    assert(round_div(a * m, b) <= m) by (nonlinear_arith)
        requires
            0 <= a * m <= b * m,
            b > 0,
    ;
    assert(round_div(a * m, b) <= a) by (nonlinear_arith)
        requires
            0 <= a * m,
            a * m < a * b + b,
            b > 0,
            a * m <= a * b,
            m < b,
            0 <= a,
    ;
    assert(0 <= round_div(a * m, b)) by (nonlinear_arith)
        requires
            0 <= a * m,
            b > 0,
    ;
}

/// `round_div(a * m, b)` for the arguments of `scale_dimensions`.
fn scaled_side(a: u32, m: u32, b: u32) -> (r: u32)
    requires
        a <= b,
        m < b,
    ensures
        r == at_least_one(round_div(a * m, b as int)),
{
    proof {
        lemma_round_div_bounds(a as int, m as int, b as int);
        assert(a as int * m as int <= 0xffff_ffff * 0xffff_ffff) by (nonlinear_arith)
            requires
                a <= 0xffff_ffff,
                m <= 0xffff_ffff,
        ;
    }
    let n: u128 = (a as u128) * (m as u128);
    let q: u128 = (2 * n + b as u128) / (2 * b as u128);
    assert(q == round_div(a * m, b as int));
    if q < 1 {
        1
    } else {
        q as u32
    }
}

/// Scales (width, height) so neither dimension exceeds max_size, preserving
/// aspect ratio. Does NOT upscale.
pub fn scale_dimensions(width: u32, height: u32, max_size: u32) -> (dims: (u32, u32))
    ensures
        (dims.0 as int, dims.1 as int) == scaled(width as int, height as int, max_size as int),
{
    if width <= max_size && height <= max_size {
        return (width, height);
    }
    if width >= height {
        (max_size, scaled_side(height, max_size, width))
    } else {
        (scaled_side(width, max_size, height), max_size)
    }
}

/// A scaled image fits in the limit and is no larger than the original, as
/// long as the limit and the original sides are at least one pixel.
pub proof fn law_scaled_fits_and_never_grows(width: u32, height: u32, max_size: u32)
    requires
        max_size >= 1,
    ensures
        scaled(width as int, height as int, max_size as int).0 <= max_size,
        scaled(width as int, height as int, max_size as int).1 <= max_size,
        width >= 1 && height >= 1 ==> scaled(width as int, height as int, max_size as int).0
            <= width && scaled(width as int, height as int, max_size as int).1 <= height,
{
    if !(width <= max_size && height <= max_size) {
        if width >= height {
            lemma_round_div_bounds(height as int, max_size as int, width as int);
        } else {
            lemma_round_div_bounds(width as int, max_size as int, height as int);
        }
    }
}

/// The scaled sides keep the aspect ratio up to rounding, for landscape and
/// portrait images alike: the computed shorter side is within half a pixel
/// of the exact proportion (unless it had to be raised to one pixel).
pub proof fn law_scaled_keeps_ratio(width: u32, height: u32, max_size: u32)
    requires
        !(width <= max_size && height <= max_size),
        width >= height ==> round_div(height * max_size, width as int) >= 1,
        width < height ==> round_div(width * max_size, height as int) >= 1,
    ensures
        width >= height ==> ({
            let h = scaled(width as int, height as int, max_size as int).1;
            2 * (height * max_size) - width <= 2 * h * width
                && 2 * h * width <= 2 * (height * max_size) + width
        }),
        width < height ==> ({
            let w = scaled(width as int, height as int, max_size as int).0;
            2 * (width * max_size) - height <= 2 * w * height
                && 2 * w * height <= 2 * (width * max_size) + height
        }),
{
    if width >= height {
        lemma_round_div_within_half(height * max_size, width as int);
    } else {
        lemma_round_div_within_half(width * max_size, height as int);
    }
}

/// A quotient rounded to the nearest integer is within half of the exact one.
proof fn lemma_round_div_within_half(n: int, d: int)
    requires
        d > 0,
        n >= 0,
    ensures
        2 * n - d <= 2 * round_div(n, d) * d <= 2 * n + d,
{
    let q = round_div(n, d);
    assert(2 * n - d <= 2 * q * d <= 2 * n + d) by (nonlinear_arith)
        requires
            q == (2 * n + d) / (2 * d),
            d > 0,
            n >= 0,
    ;
}

// ── Data URLs for the canvas ────────────────────────────────────

/// The `data:` URL that loads an image into the browser, typed by its name.
pub fn image_data_url(bytes: &[u8], file_name: &str) -> (url: String)
    ensures
        url@ == data_url(mime_from_name(file_name@), base64_encode(bytes@)),
{
    let mime = mime_type_from_name(file_name);
    let encoded = base64_of_bytes(bytes);
    let mut out: Vec<char> = Vec::new();
    extend_str(&mut out, "data:");
    extend_str(&mut out, mime);
    extend_str(&mut out, ";base64,");
    extend_str(&mut out, encoded.as_str());
    string_from_chars(out.as_slice())
}

/// The prefix that a canvas export of the given MIME type begins with.
pub open spec fn data_url_prefix(mime: Seq<char>) -> Seq<char> {
    "data:"@ + mime + ";base64,"@
}

/// The error for a canvas export that lacks the expected prefix.
pub open spec fn missing_prefix_message(mime: Seq<char>) -> Seq<char> {
    "Unexpected data URL format: missing prefix "@ + data_url_prefix(mime)
}

/// The bytes of the compressed image that the canvas exported as `url`:
/// the URL must begin with the `data:` prefix of the output type and carry
/// standard base64 after it.
pub fn decode_canvas_data_url(url: &str, file_name: &str) -> (r: Result<Vec<u8>, String>)
    ensures
        ({
            let prefix = data_url_prefix(mime_from_name(file_name@));
            let rest = url@.skip(prefix.len() as int);
            &&& !starts_with(url@, prefix) ==> (r matches Err(e) && e@ == missing_prefix_message(
                mime_from_name(file_name@),
            ))
            &&& starts_with(url@, prefix) ==> (r is Ok <==> is_base64(rest))
            &&& r matches Ok(v) ==> starts_with(url@, prefix) && v@ == base64_decode(rest)
            &&& r matches Err(e) ==> (starts_with(url@, prefix) ==> e@ == "Base64 decode error: "@
                + base64_error_text(rest))
        }),
{
    let mime = mime_type_from_name(file_name);
    let mut prefix: Vec<char> = Vec::new();
    extend_str(&mut prefix, "data:");
    extend_str(&mut prefix, mime);
    extend_str(&mut prefix, ";base64,");
    let u = chars_of(url);
    if !starts_with_exec(u.as_slice(), prefix.as_slice()) {
        let mut msg: Vec<char> = Vec::new();
        extend_str(&mut msg, "Unexpected data URL format: missing prefix ");
        crate::text::extend_chars(&mut msg, prefix.as_slice());
        return Err(string_from_chars(msg.as_slice()));
    }
    let rest = slice_chars(u.as_slice(), prefix.len(), u.len());
    let rest_s = string_from_chars(rest.as_slice());
    assert(rest@ =~= url@.skip(prefix.len() as int));
    match base64_to_bytes(rest_s.as_str()) {
        Ok(v) => Ok(v),
        Err(e) => {
            let mut msg: Vec<char> = Vec::new();
            extend_str(&mut msg, "Base64 decode error: ");
            extend_str(&mut msg, e.as_str());
            assert(msg@ =~= "Base64 decode error: "@ + base64_error_text(url@.skip(prefix.len() as int)));
            Err(string_from_chars(msg.as_slice()))
        },
    }
}

/// The canvas reads back what it was given: the `data:` URL of an image
/// begins with the prefix of its type, and what follows decodes to its bytes.
pub proof fn law_canvas_url_round_trip(bytes: Seq<u8>, name: Seq<char>)
    ensures
        ({
            let url = data_url(mime_from_name(name), base64_encode(bytes));
            let prefix = data_url_prefix(mime_from_name(name));
            &&& starts_with(url, prefix)
            &&& is_base64(url.skip(prefix.len() as int))
            &&& base64_decode(url.skip(prefix.len() as int)) == bytes
        }),
{
    let e = base64_encode(bytes);
    let url = data_url(mime_from_name(name), e);
    let prefix = data_url_prefix(mime_from_name(name));
    assert(url =~= prefix + e);
    assert(url.take(prefix.len() as int) =~= prefix);
    assert(url.skip(prefix.len() as int) =~= e);
    assert(base64_encode(bytes) == e);
    crate::encoding::lemma_base64_injective(base64_decode(e), bytes);
}

} // verus!
