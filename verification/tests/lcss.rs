use galeforce_compiler::json::JsonValue;
use galeforce_compiler::lcss::{
    browsers_from_json, parse_browser_version, transform, BrowserTargets, LcssOptions,
};

#[test]
fn minify_collapses_whitespace() {
    let css = ".a {\n  color: red;\n}\n.b {\n  margin: 0;\n}";
    let out = transform(
        css,
        LcssOptions {
            minify: true,
            ..LcssOptions::default()
        },
    )
    .unwrap();
    assert!(!out.css.contains('\n'));
    assert!(out.css.contains(".a") && out.css.contains(".b"));
    assert!(out.map.is_none());
}

#[test]
fn pretty_prints_without_minify() {
    let css = ".a{color:red}";
    let out = transform(css, LcssOptions::default()).unwrap();
    assert!(out.css.contains('\n'));
}

#[test]
fn source_map_returns_json() {
    let css = ".a { color: red; }";
    let out = transform(
        css,
        LcssOptions {
            source_map: true,
            source_path: Some("input.css"),
            source_content: Some(css),
            ..LcssOptions::default()
        },
    )
    .unwrap();
    let map = out.map.expect("map present");
    assert!(map.contains("\"version\""));
    assert!(map.contains("input.css"));
}

#[test]
fn invalid_css_returns_error() {
    let out = transform(".a { color }", LcssOptions::default());
    assert!(out.is_err(), "missing value should fail parse");
    assert!(out.err().unwrap().starts_with("lightningcss parse: "));
}

#[test]
fn version_packing() {
    assert_eq!(parse_browser_version("95"), Some(95 << 16));
    assert_eq!(parse_browser_version("95.0"), Some(95 << 16));
    assert_eq!(parse_browser_version("15.4"), Some((15 << 16) | (4 << 8)));
    assert_eq!(parse_browser_version("15.4.1"), Some((15 << 16) | (4 << 8) | 1));
    assert_eq!(parse_browser_version("15.4.1.9"), Some((15 << 16) | (4 << 8) | 1));
    assert_eq!(parse_browser_version("+7"), Some(7 << 16));
    assert_eq!(parse_browser_version("15.x"), Some(15 << 16));
    assert_eq!(parse_browser_version("15..3"), Some((15 << 16) | 3));
}

#[test]
fn version_rejects_bad_major() {
    assert_eq!(parse_browser_version(""), None);
    assert_eq!(parse_browser_version("x"), None);
    assert_eq!(parse_browser_version(".5"), None);
    assert_eq!(parse_browser_version("-1"), None);
    assert_eq!(parse_browser_version("+"), None);
    assert_eq!(parse_browser_version("4294967296"), None);
    assert_eq!(parse_browser_version("4294967295"), Some(4294967295u32 << 16));
}

fn obj(members: Vec<(&str, JsonValue)>) -> JsonValue {
    JsonValue::Object(members.into_iter().map(|(k, v)| (k.to_string(), v)).collect())
}

#[test]
fn browsers_read_from_object() {
    let v = obj(vec![
        ("chrome", JsonValue::Str("95".to_string())),
        ("ios_saf", JsonValue::Str("15.4".to_string())),
        ("netscape", JsonValue::Str("4".to_string())),
        ("firefox", JsonValue::Number("94".to_string())),
    ]);
    let b = browsers_from_json(&v).unwrap();
    let mut expected = BrowserTargets::none();
    expected.chrome = Some(95 << 16);
    expected.ios_saf = Some((15 << 16) | (4 << 8));
    assert_eq!(b, expected);
}

#[test]
fn browsers_errors() {
    let bad = obj(vec![("safari", JsonValue::Str("new".to_string()))]);
    assert_eq!(
        browsers_from_json(&bad).unwrap_err(),
        "invalid version `new` for browser `safari`"
    );
    let not_obj = JsonValue::Array(vec![JsonValue::Str("chrome 95".to_string()), JsonValue::Null]);
    assert_eq!(
        browsers_from_json(&not_obj).unwrap_err(),
        "targets must be an object, got [\"chrome 95\",null]"
    );
}

#[test]
fn transform_reports_bad_targets_and_ignores_null() {
    let bad = obj(vec![("edge", JsonValue::Str("?".to_string()))]);
    let out = transform(".a{color:red}", LcssOptions { targets: Some(&bad), ..LcssOptions::default() });
    assert_eq!(out.err().unwrap(), "invalid version `?` for browser `edge`");
    let null = JsonValue::Null;
    let out = transform(".a{color:red}", LcssOptions { targets: Some(&null), minify: true, ..LcssOptions::default() });
    assert_eq!(out.unwrap().css, ".a{color:red}");
}

#[test]
fn json_text_of_values() {
    let v = obj(vec![
        ("a", JsonValue::Bool(true)),
        ("b", JsonValue::Array(vec![JsonValue::Number("1.5".to_string()), JsonValue::Null])),
        ("c\"", JsonValue::Str("x\ny".to_string())),
    ]);
    assert_eq!(v.to_json_text().unwrap(), "{\"a\":true,\"b\":[1.5,null],\"c\\\"\":\"x\\ny\"}");
}
