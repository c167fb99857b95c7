use galeforce_compiler::arbitrary::{
    is_arbitrary_property_name, looks_like_uri, maybe_wrap_var_reference,
    normalize_arbitrary_value, parse_arbitrary_property, property_accepts_dashed_ident,
    split_top_level, strip_family_prefix, value_has_braces, value_has_top_level_colon,
};

#[test]
fn top_level_colons_and_braces() {
    assert!(value_has_top_level_colon("a:b"));
    assert!(!value_has_top_level_colon("url(http://x)"));
    assert!(!value_has_top_level_colon("'a:b'"));
    assert!(!value_has_top_level_colon("[a:b]"));
    assert!(value_has_braces("a{b"));
    assert!(!value_has_braces("'{'"));
}

#[test]
fn urls_are_recognized() {
    assert!(looks_like_uri("https", "//example.com"));
    assert!(!looks_like_uri("https", "//"));
    assert!(!looks_like_uri("h2", "//x"));
    assert!(!looks_like_uri("a", "///"));
}

#[test]
fn property_names() {
    assert!(is_arbitrary_property_name("--my-var"));
    assert!(!is_arbitrary_property_name("--"));
    assert!(is_arbitrary_property_name("color"));
    assert!(!is_arbitrary_property_name("9a"));
    assert!(!is_arbitrary_property_name("back_ground"));
    assert!(!is_arbitrary_property_name("--a.b"));
}

#[test]
fn arbitrary_properties_are_read() {
    assert_eq!(
        parse_arbitrary_property("[color:red]"),
        Some(("color".to_string(), "red".to_string()))
    );
    assert_eq!(parse_arbitrary_property("[&>*]"), None);
    assert_eq!(parse_arbitrary_property("[https://x.com]"), None);
    assert_eq!(parse_arbitrary_property("[a:b:c]"), None);
    assert_eq!(parse_arbitrary_property("[--x:{a}]"), None);
    assert_eq!(
        parse_arbitrary_property("[color:url(a:b)]"),
        Some(("color".to_string(), "url(a:b)".to_string()))
    );
    assert_eq!(parse_arbitrary_property("color:red"), None);
}

#[test]
fn arbitrary_values_are_normalized() {
    assert_eq!(normalize_arbitrary_value("a_b\\_c"), "a b_c");
    assert!(property_accepts_dashed_ident("anchor-name"));
    assert!(!property_accepts_dashed_ident("color"));
    assert_eq!(maybe_wrap_var_reference("--c", "color"), "var(--c)");
    assert_eq!(maybe_wrap_var_reference("--c", "anchor-name"), "--c");
    assert_eq!(maybe_wrap_var_reference("--c d", "color"), "--c d");
    assert_eq!(maybe_wrap_var_reference("red", "color"), "red");
}

#[test]
fn values_split_at_the_top_level() {
    assert_eq!(
        split_top_level("a 1s, b (c, d)", ','),
        vec!["a 1s".to_string(), " b (c, d)".to_string()]
    );
    assert_eq!(split_top_level("x) y", ' '), vec!["x)".to_string(), "y".to_string()]);
}

#[test]
fn variant_families() {
    assert_eq!(strip_family_prefix("aria-checked"), Some("aria".to_string()));
    assert_eq!(strip_family_prefix("group-hover"), Some("group".to_string()));
    assert_eq!(strip_family_prefix("min-[1px]"), Some("min".to_string()));
    assert_eq!(strip_family_prefix("hover"), None);
}
