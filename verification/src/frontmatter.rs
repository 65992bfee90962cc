//! A post's TOML frontmatter: its parse, the key-value pairs the editor
//! displays, and the status it gives the post.
use vstd::prelude::*;
use crate::dashboard::{status_from_fields, status_of, field_views, PostStatus};
use crate::post::{extract_frontmatter, frontmatter_of};
use crate::text::{decimal, extend_chars, extend_str, push_decimal, string_from_chars};

verus! {

broadcast use vstd::string::group_string_axioms;

/// A TOML value as the frontmatter holds it. Floats and datetimes are kept
/// as the text their TOML types display as; tables keep their keys in order.
pub enum TomlValue {
    String(String),
    Boolean(bool),
    Integer(i64),
    Float(String),
    Array(Vec<TomlValue>),
    Datetime(String),
    Table(Vec<(String, TomlValue)>),
}

/// A signed integer in decimal.
pub open spec fn int_text(i: int) -> Seq<char> {
    if i < 0 {
        "-"@ + decimal((-i) as nat)
    } else {
        decimal(i as nat)
    }
}

/// How a value is displayed: strings as they are, booleans and numbers as
/// written, arrays as their items joined by `", "`, tables as nothing (their
/// fields are listed on their own).
pub open spec fn value_text(v: TomlValue) -> Seq<char>
    decreases v,
{
    match v {
        TomlValue::String(s) => s@,
        TomlValue::Boolean(b) => if b {
            "true"@
        } else {
            "false"@
        },
        TomlValue::Integer(i) => int_text(i as int),
        TomlValue::Float(f) => f@,
        TomlValue::Array(items) => items_text(items@),
        TomlValue::Datetime(d) => d@,
        TomlValue::Table(_) => seq![],
    }
}

/// The items of an array displayed and joined by `", "`.
pub open spec fn items_text(items: Seq<TomlValue>) -> Seq<char>
    decreases items,
{
    if items.len() == 0 {
        seq![]
    } else if items.len() == 1 {
        value_text(items[0])
    } else {
        items_text(items.subrange(0, items.len() - 1)) + ", "@ + value_text(items[items.len() - 1])
    }
}

/// Appends a signed integer in decimal.
fn push_int(out: &mut Vec<char>, i: i64)
    ensures
        final(out)@ == old(out)@ + int_text(i as int),
{
    if i < 0 {
        out.push('-');
        let m: u128 = (0i128 - (i as i128)) as u128;
        push_decimal(out, m);
        proof {
            reveal_strlit("-");
        }
        assert(out@ =~= old(out)@ + int_text(i as int));
    } else {
        push_decimal(out, i as u128);
    }
}

/// Appends how a value is displayed.
fn push_value_text(out: &mut Vec<char>, v: &TomlValue)
    ensures
        final(out)@ == old(out)@ + value_text(*v),
    decreases v,
{
    match v {
        TomlValue::String(s) => extend_str(out, s.as_str()),
        TomlValue::Boolean(b) => if *b {
            extend_str(out, "true");
        } else {
            extend_str(out, "false");
        },
        TomlValue::Integer(i) => push_int(out, *i),
        TomlValue::Float(f) => extend_str(out, f.as_str()),
        TomlValue::Array(items) => {
            let mut k: usize = 0;
            while k < items.len()
                invariant
                    k <= items.len(),
                    *v == TomlValue::Array(*items),
                    out@ == old(out)@ + items_text(items@.take(k as int)),
                decreases items.len() - k,
            {
                proof {
                    assert(items@.take(k + 1).subrange(0, k as int) =~= items@.take(k as int));
                    assert(items@.take(k + 1)[k as int] == items@[k as int]);
                    assert(v->Array_0 == *items);
                    assert(decreases_to!(*v => v->Array_0));
                    assert(decreases_to!(*items => items@));
                    assert(decreases_to!(items@ => items@[k as int]));
                }
                if k > 0 {
                    extend_str(out, ", ");
                } else {
                    assert(items@.take(1) =~= seq![items@[0]]);
                }
                push_value_text(out, &items[k]);
                k = k + 1;
                assert(out@ =~= old(out)@ + items_text(items@.take(k as int)));
            }
            assert(items@.take(items.len() as int) =~= items@);
        },
        TomlValue::Datetime(d) => extend_str(out, d.as_str()),
        TomlValue::Table(_) => {},
    }
}

/// How a value is displayed.
pub fn format_toml_value(v: &TomlValue) -> (text: String)
    ensures
        text@ == value_text(*v),
{
    let mut out: Vec<char> = Vec::new();
    push_value_text(&mut out, v);
    string_from_chars(out.as_slice())
}

/// The key of a field inside the table at `prefix`.
pub open spec fn full_key(prefix: Seq<char>, key: Seq<char>) -> Seq<char> {
    if prefix.len() == 0 {
        key
    } else {
        prefix + "."@ + key
    }
}

/// The fields of a table, in order, with dotted keys: a nested table gives
/// its own fields in its place.
pub open spec fn flattened(prefix: Seq<char>, table: Seq<(String, TomlValue)>) -> Seq<(Seq<char>, Seq<char>)>
    decreases table,
{
    if table.len() == 0 {
        seq![]
    } else {
        let rest = flattened(prefix, table.subrange(0, table.len() - 1));
        let (key, value) = table[table.len() - 1];
        let k = full_key(prefix, key@);
        match value {
            TomlValue::Table(inner) => rest + flattened(k, inner@),
            _ => rest.push((k, value_text(value))),
        }
    }
}

/// Appends the fields of a table under `prefix`.
fn flatten_into(prefix: &str, table: &Vec<(String, TomlValue)>, out: &mut Vec<(String, String)>)
    ensures
        crate::post::pair_views(final(out)@) == crate::post::pair_views(old(out)@) + flattened(
            prefix@,
            table@,
        ),
    decreases table@,
{
    let mut k: usize = 0;
    while k < table.len()
        invariant
            k <= table.len(),
            crate::post::pair_views(out@) == crate::post::pair_views(old(out)@) + flattened(
                prefix@,
                table@.take(k as int),
            ),
        decreases table.len() - k,
    {
        proof {
            assert(table@.take(k + 1).subrange(0, k as int) =~= table@.take(k as int));
            assert(table@.take(k + 1)[k as int] == table@[k as int]);
        }
        let key = &table[k].0;
        let value = &table[k].1;
        let mut full: Vec<char> = Vec::new();
        let pc = crate::text::chars_of(prefix);
        if pc.len() > 0 {
            extend_str(&mut full, prefix);
            extend_str(&mut full, ".");
        }
        extend_str(&mut full, key.as_str());
        proof {
            assert(prefix@.len() == 0 ==> full@ =~= key@);
            assert(full@ == full_key(prefix@, key@));
        }
        let full_s = string_from_chars(full.as_slice());
        let ghost before = crate::post::pair_views(out@);
        match value {
            TomlValue::Table(inner) => {
                proof {
                    assert(decreases_to!(table@ => table@[k as int]));
                    assert(decreases_to!(table@[k as int] => table@[k as int].1));
                    assert(decreases_to!(table@[k as int].1 => *inner));
                    assert(decreases_to!(*inner => inner@));
                }
                flatten_into(full_s.as_str(), inner, out);
                assert(crate::post::pair_views(out@) =~= crate::post::pair_views(old(out)@)
                    + flattened(prefix@, table@.take(k + 1)));
            },
            _ => {
                let text = format_toml_value(value);
                out.push((full_s, text));
                assert(crate::post::pair_views(out@) =~= before.push((full@, value_text(*value))));
                assert(crate::post::pair_views(out@) =~= crate::post::pair_views(old(out)@)
                    + flattened(prefix@, table@.take(k + 1)));
            },
        }
        k = k + 1;
    }
    assert(table@.take(table.len() as int) =~= table@);
}

/// The fields of parsed frontmatter for display: each key (dotted for
/// nested tables) with its value's text.
pub fn frontmatter_fields(table: &Vec<(String, TomlValue)>) -> (fields: Vec<(String, String)>)
    ensures
        crate::post::pair_views(fields@) == flattened(Seq::empty(), table@),
{
    let mut out: Vec<(String, String)> = Vec::new();
    flatten_into("", table, &mut out);
    proof {
        reveal_strlit("");
        assert(""@ =~= Seq::<char>::empty());
        assert(crate::post::pair_views(Seq::<(String, String)>::empty()) =~= Seq::empty());
    }
    assert(crate::post::pair_views(out@) =~= flattened(Seq::empty(), table@));
    out
}

// ── Parsing the frontmatter ─────────────────────────────────────

/// What parsing `raw` as a TOML table with the `toml` crate gives, with each
/// value converted one for one into a `TomlValue` (keys in the order the
/// crate's table iterates them), or nothing when the text does not parse.
pub uninterp spec fn toml_table(raw: Seq<char>) -> Option<Seq<(String, TomlValue)>>;

/// Calls `toml::from_str::<toml::Table>` and converts the table it gives;
/// the result is named by `toml_table`.
#[verifier::external_body]
fn parse_toml_table(raw: &str) -> (t: Option<Vec<(String, TomlValue)>>)
    ensures
        match t {
            Some(v) => toml_table(raw@) == Some(v@),
            None => toml_table(raw@) is None,
        },
{
    toml::from_str::<toml::Table>(raw).ok().map(|t| t.iter().map(|(k, v)| (k.clone(), plain_toml(v))).collect())
}

/// The `toml` crate's value type, carried opaquely.
#[verifier::external_type_specification]
#[verifier::external_body]
pub struct ExTomlValue(toml::Value);

/// Converts one value of the `toml` crate into a `TomlValue`, variant by
/// variant; floats and datetimes become the text their `Display` gives. It
/// is the conversion step of `parse_toml_table`, which names the whole
/// result, so nothing is stated of it here.
#[verifier::external_body]
fn plain_toml(v: &toml::Value) -> TomlValue {
    match v {
        toml::Value::String(s) => TomlValue::String(s.clone()),
        toml::Value::Boolean(b) => TomlValue::Boolean(*b),
        toml::Value::Integer(i) => TomlValue::Integer(*i),
        toml::Value::Float(f) => TomlValue::Float(f.to_string()),
        toml::Value::Array(items) => TomlValue::Array(items.iter().map(plain_toml).collect()),
        toml::Value::Datetime(d) => TomlValue::Datetime(d.to_string()),
        toml::Value::Table(t) => TomlValue::Table(t.iter().map(|(k, x)| (k.clone(), plain_toml(x))).collect()),
    }
}

/// The displayed fields of a post's frontmatter: those of its TOML table,
/// or none when there is no frontmatter or it does not parse.
pub open spec fn fields_of_content(content: Seq<char>) -> Seq<(Seq<char>, Seq<char>)> {
    match frontmatter_of(content) {
        Some(fm) => match toml_table(fm) {
            Some(t) => flattened(Seq::empty(), t),
            None => Seq::empty(),
        },
        None => Seq::empty(),
    }
}

/// Parses frontmatter into key-value pairs for display; empty on parse
/// failure or missing frontmatter.
pub fn parse_frontmatter(content: &str) -> (fields: Vec<(String, String)>)
    ensures
        crate::post::pair_views(fields@) == fields_of_content(content@),
{
    match extract_frontmatter(content) {
        Some(raw) => match parse_toml_table(raw) {
            Some(t) => frontmatter_fields(&t),
            None => {
                assert(crate::post::pair_views(Seq::<(String, String)>::empty()) =~= Seq::empty());
                Vec::new()
            },
        },
        None => {
            assert(crate::post::pair_views(Seq::<(String, String)>::empty()) =~= Seq::empty());
            Vec::new()
        },
    }
}

/// Whether a post is a draft, published, or has no frontmatter: without
/// frontmatter there is no status, else it is a draft when its first
/// `draft` field displays as `true`.
pub fn detect_post_status(content: &str) -> (s: PostStatus)
    ensures
        s == status_of(frontmatter_of(content@) is Some, fields_of_content(content@)),
{
    let has = extract_frontmatter(content).is_some();
    let fields = parse_frontmatter(content);
    proof {
        assert(field_views(fields@) =~= crate::post::pair_views(fields@));
    }
    status_from_fields(has, fields.as_slice())
}

} // verus!
