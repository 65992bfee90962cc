use sitekit::auth::{accepted_dev_token, authorize_url, exchange_status, exchange_url, oauth_error};
use sitekit::dashboard::PostStatus;
use sitekit::frontmatter::{detect_post_status, format_toml_value, frontmatter_fields, parse_frontmatter, TomlValue};

fn s(x: &str) -> String {
    x.to_string()
}

#[test]
fn values_are_displayed() {
    assert_eq!(format_toml_value(&TomlValue::String(s("hi"))), "hi");
    assert_eq!(format_toml_value(&TomlValue::Boolean(true)), "true");
    assert_eq!(format_toml_value(&TomlValue::Integer(-42)), "-42");
    assert_eq!(format_toml_value(&TomlValue::Integer(i64::MIN)), i64::MIN.to_string());
    assert_eq!(format_toml_value(&TomlValue::Float(s("1.5"))), "1.5");
    assert_eq!(
        format_toml_value(&TomlValue::Array(vec![
            TomlValue::String(s("a")),
            TomlValue::Integer(2),
            TomlValue::Array(vec![TomlValue::Boolean(false)]),
        ])),
        "a, 2, false"
    );
    assert_eq!(format_toml_value(&TomlValue::Table(vec![])), "");
}

#[test]
fn tables_are_flattened() {
    let table = vec![
        (s("date"), TomlValue::Datetime(s("2024-01-01"))),
        (s("draft"), TomlValue::Boolean(true)),
        (
            s("taxonomies"),
            TomlValue::Table(vec![(
                s("tags"),
                TomlValue::Array(vec![TomlValue::String(s("a")), TomlValue::String(s("b"))]),
            )]),
        ),
        (s("title"), TomlValue::String(s("Hi"))),
    ];
    assert_eq!(
        frontmatter_fields(&table),
        vec![
            (s("date"), s("2024-01-01")),
            (s("draft"), s("true")),
            (s("taxonomies.tags"), s("a, b")),
            (s("title"), s("Hi")),
        ]
    );
}

#[test]
fn frontmatter_is_parsed_from_the_post() {
    let post = "+++\ntitle = \"Hi\"\ndraft = true\nweight = 1.5\ndate = 2024-01-01\n[taxonomies]\ntags = [\"a\", \"b\"]\n+++\nBody";
    assert_eq!(
        parse_frontmatter(post),
        vec![
            (s("date"), s("2024-01-01")),
            (s("draft"), s("true")),
            (s("taxonomies.tags"), s("a, b")),
            (s("title"), s("Hi")),
            (s("weight"), s("1.5")),
        ]
    );
    assert!(parse_frontmatter("no frontmatter").is_empty());
    assert!(parse_frontmatter("+++\nthis is = = not toml\n+++\n").is_empty());
    assert!(parse_frontmatter("+++\n+++\nbody").is_empty());
    assert_eq!(detect_post_status(post), PostStatus::Draft);
    assert_eq!(detect_post_status("+++\ndraft = false\n+++\n"), PostStatus::Published);
    assert_eq!(detect_post_status("+++\ntitle = \"x\"\n+++\n"), PostStatus::Published);
    assert_eq!(detect_post_status("+++\nnot toml ===\n+++\n"), PostStatus::Published);
    assert_eq!(detect_post_status("+++\n+++\nbody"), PostStatus::Published);
    assert_eq!(detect_post_status("just text"), PostStatus::NoFrontmatter);
}

#[test]
fn signing_in() {
    assert_eq!(
        authorize_url("cid", "https://x.dev"),
        "https://github.com/login/oauth/authorize?client_id=cid&redirect_uri=https://x.dev&scope=repo"
    );
    assert_eq!(exchange_url(""), Err(s("OAuth worker URL not configured")));
    assert_eq!(exchange_url("https://w"), Ok(s("https://w/exchange")));
    assert_eq!(exchange_status(200), Ok(()));
    assert_eq!(exchange_status(502), Err(s("Worker returned status 502")));
    assert_eq!(oauth_error("bad"), "OAuth error: bad");
    assert_eq!(accepted_dev_token(""), None);
    assert_eq!(accepted_dev_token("t"), Some(s("t")));
}
