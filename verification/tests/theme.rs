use galeforce_compiler::directives::{
    important_is_bang, important_selector_str, optimize_universal_defaults_for_apply,
    plan_addbase_emission, preflight_enabled,
};
use galeforce_compiler::json::JsonValue;
use galeforce_compiler::theme::{
    apply_alpha_to_color, lookup_theme, parse_color, parse_hex_color, resolve_theme_calls_in_value,
    split_first_arg,
    split_theme_alpha, to_path_segments, transform_theme_value, walk_path,
};

fn chars(s: &str) -> Vec<char> {
    s.chars().collect()
}

fn text(v: &[char]) -> String {
    v.iter().collect()
}

fn texts(v: &[Vec<char>]) -> Vec<String> {
    v.iter().map(|p| text(p)).collect()
}

fn obj(members: Vec<(&str, JsonValue)>) -> JsonValue {
    JsonValue::Object(members.into_iter().map(|(k, v)| (k.to_string(), v)).collect())
}

fn s(t: &str) -> JsonValue {
    JsonValue::Str(t.to_string())
}

#[test]
fn path_segments() {
    assert_eq!(texts(&to_path_segments("colors.red.500")), vec!["colors", "red", "500"]);
    assert_eq!(texts(&to_path_segments("colors[red.500]")), vec!["colors", "red.500"]);
    assert_eq!(texts(&to_path_segments("a..b[]c")), vec!["a", "b", "c"]);
}

#[test]
fn theme_alpha_split() {
    let (p, a) = split_theme_alpha(&chars("colors.blue.500 / 50%"));
    assert_eq!(text(&p), "colors.blue.500");
    assert_eq!(a.map(|x| text(&x)), Some("50%".to_string()));
    let (p, a) = split_theme_alpha(&chars("spacing[1/2]"));
    assert_eq!(text(&p), "spacing[1/2]");
    assert!(a.is_none());
    let (p, a) = split_theme_alpha(&chars("a / b / c"));
    assert_eq!(text(&p), "a / b / c");
    assert!(a.is_none());
    let (p, a) = split_theme_alpha(&chars("a /  "));
    assert_eq!(text(&p), "a /  ");
    assert!(a.is_none());
}

#[test]
fn first_argument_split() {
    let (p, d) = split_first_arg(&chars("'colors.blue', theme('a, b'), 1"));
    assert_eq!(text(&p), "'colors.blue'");
    assert_eq!(d.map(|x| text(&x)), Some(" theme('a, b'), 1".to_string()));
    let (p, d) = split_first_arg(&chars("fontFamily[a,b]"));
    assert_eq!(text(&p), "fontFamily[a,b]");
    assert!(d.is_none());
}

#[test]
fn walking_and_lookup() {
    let theme = obj(vec![
        ("spacing", obj(vec![("4", s("1rem")), ("px", s("1px"))])),
        ("fontFamily", obj(vec![("sans", JsonValue::Array(vec![s("Inter"), obj(vec![("x", s("y"))])]))])),
    ]);
    assert_eq!(lookup_theme(&theme, "spacing.4").and_then(|v| v.as_str()), Some("1rem"));
    assert!(lookup_theme(&theme, "spacing.bogus").is_none());
    assert!(lookup_theme(&theme, "spacing").is_some());
    let segs = vec![chars("fontFamily"), chars("sans"), chars("1"), chars("x")];
    assert_eq!(walk_path(&theme, &segs).and_then(|v| v.as_str()), Some("y"));
    let segs = vec![chars("fontFamily"), chars("sans"), chars("7")];
    assert!(walk_path(&theme, &segs).is_none());
}

#[test]
fn theme_value_rendering() {
    let size = JsonValue::Array(vec![s("1.125rem"), obj(vec![("lineHeight", s("1.75rem"))])]);
    assert_eq!(transform_theme_value("fontSize", &size), Some("1.125rem".to_string()));
    let fam = JsonValue::Array(vec![
        JsonValue::Array(vec![s("Inter"), s("sans-serif")]),
        obj(vec![("fontFeatureSettings", s("x"))]),
    ]);
    assert_eq!(transform_theme_value("fontFamily", &fam), Some("Inter, sans-serif".to_string()));
    let plain = JsonValue::Array(vec![s("a"), JsonValue::Null, s("b")]);
    assert_eq!(transform_theme_value("fontFamily", &plain), Some("a, b".to_string()));
    assert_eq!(transform_theme_value("boxShadow", &plain), Some("a, b".to_string()));
    let dflt = obj(vec![("DEFAULT", obj(vec![("DEFAULT", s("#fff"))]))]);
    assert_eq!(transform_theme_value("colors", &dflt), Some("#fff".to_string()));
    assert_eq!(transform_theme_value("colors", &plain), None);
    assert_eq!(
        transform_theme_value("opacity", &JsonValue::Number("0.5".to_string())),
        Some("0.5".to_string())
    );
}

#[test]
fn colors_and_alpha() {
    let c = parse_hex_color(&chars("#3b82f6")).unwrap();
    assert_eq!(text(&c.mode), "rgb");
    assert_eq!(texts(&c.components), vec!["59", "130", "246"]);
    let c = parse_hex_color(&chars("#fff8")).unwrap();
    assert_eq!(texts(&c.components), vec!["255", "255", "255"]);
    assert!(parse_hex_color(&chars("#12345")).is_none());
    assert!(parse_hex_color(&chars("#ggg")).is_none());
    let c = parse_color(&chars(" RGBA(1, 2, 3, 0.5) ")).unwrap();
    assert_eq!(text(&c.mode), "rgba");
    assert_eq!(texts(&c.components), vec!["1", "2", "3", "0.5"]);
    assert!(parse_color(&chars("red")).is_none());
    assert!(parse_color(&chars("lab(1 2 3)")).is_none());
    assert_eq!(apply_alpha_to_color("#3b82f6", "50%"), Some("rgb(59 130 246 / 50%)".to_string()));
    assert_eq!(
        apply_alpha_to_color("hsla(1, 2%, 3%, 1)", "0.5"),
        Some("hsla(1, 2%, 3%, 0.5)".to_string())
    );
    assert_eq!(apply_alpha_to_color("rgb(1 2 3 / 0.2)", "1"), Some("rgb(1 2 3 / 1)".to_string()));
    assert_eq!(apply_alpha_to_color("currentColor", "1"), None);
}

#[test]
fn configuration_switches() {
    let none: Option<&JsonValue> = None;
    assert!(preflight_enabled(none));
    assert!(!important_is_bang(none));
    assert!(important_selector_str(none).is_none());
    assert!(!optimize_universal_defaults_for_apply(none));

    let off = obj(vec![("corePlugins", obj(vec![("preflight", JsonValue::Bool(false))]))]);
    assert!(!preflight_enabled(Some(&off)));
    let list = obj(vec![("corePlugins", JsonValue::Array(vec![s("preflight"), s("margin")]))]);
    assert!(preflight_enabled(Some(&list)));
    let list = obj(vec![("corePlugins", JsonValue::Array(vec![s("margin")]))]);
    assert!(!preflight_enabled(Some(&list)));
    let bool_off = obj(vec![("corePlugins", JsonValue::Bool(false))]);
    assert!(!preflight_enabled(Some(&bool_off)));

    let bang = obj(vec![("important", JsonValue::Bool(true))]);
    assert!(important_is_bang(Some(&bang)));
    assert!(important_selector_str(Some(&bang)).is_none());
    let sel = obj(vec![("important", s("#app"))]);
    assert!(!important_is_bang(Some(&sel)));
    assert_eq!(important_selector_str(Some(&sel)), Some("#app"));
    let empty = obj(vec![("important", s(""))]);
    assert!(important_selector_str(Some(&empty)).is_none());

    let all = obj(vec![("experimental", s("all"))]);
    assert!(optimize_universal_defaults_for_apply(Some(&all)));
    let opt = obj(vec![("experimental", obj(vec![("optimizeUniversalDefaults", JsonValue::Bool(true))]))]);
    assert!(optimize_universal_defaults_for_apply(Some(&opt)));
    let other = obj(vec![("experimental", s("some"))]);
    assert!(!optimize_universal_defaults_for_apply(Some(&other)));
}

#[test]
fn theme_calls_in_arbitrary_values() {
    let config = obj(vec![(
        "theme",
        obj(vec![("spacing", obj(vec![("2.5", s("0.625rem"))]))]),
    )]);
    let defaults = obj(vec![
        ("colors", obj(vec![("blue-500", s("#3b82f6"))])),
        ("opacity", obj(vec![("50", JsonValue::Number("0.5".to_string()))])),
    ]);
    assert_eq!(
        resolve_theme_calls_in_value("calc(5vw - theme(spacing[2.5]))", Some(&config), &defaults),
        "calc(5vw - 0.625rem)"
    );
    assert_eq!(
        resolve_theme_calls_in_value("theme('colors.blue.500')", None, &defaults),
        "#3b82f6"
    );
    assert_eq!(
        resolve_theme_calls_in_value("theme(opacity.50)", Some(&config), &defaults),
        "0.5"
    );
    assert_eq!(
        resolve_theme_calls_in_value("theme(foo.bar, 1rem )", None, &defaults),
        "1rem"
    );
    assert_eq!(resolve_theme_calls_in_value("theme(foo)", None, &defaults), "theme(foo)");
    assert_eq!(
        resolve_theme_calls_in_value("'theme(x)' mytheme(y", None, &defaults),
        "'theme(x)' mytheme(y"
    );
}

#[test]
fn base_rules_follow_the_candidates() {
    let cands = vec!["btn".to_string(), "!card".to_string()];
    let plan = plan_addbase_emission("h1, .btn, .card:hover, .other", &cands);
    assert_eq!(plan.selector, Some("h1, .btn, .\\!card:hover".to_string()));
    assert!(plan.force_important);
    let none = plan_addbase_emission(".x, .y", &cands);
    assert_eq!(none.selector, None);
    assert!(!none.force_important);
}
