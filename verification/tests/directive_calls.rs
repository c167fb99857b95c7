use galeforce_compiler::directive_calls::{
    resolve_screen, resolve_screen_calls, resolve_theme, resolve_theme_in_string, Warning,
};
use galeforce_compiler::json::JsonValue;
use galeforce_compiler::screens::Screen;

fn obj(members: Vec<(&str, JsonValue)>) -> JsonValue {
    JsonValue::Object(members.into_iter().map(|(k, v)| (k.to_string(), v)).collect())
}

fn s(t: &str) -> JsonValue {
    JsonValue::Str(t.to_string())
}

fn config() -> JsonValue {
    obj(vec![(
        "theme",
        obj(vec![
            ("colors", obj(vec![("blue", obj(vec![("500", s("#3b82f6"))]))])),
            ("fontFamily", obj(vec![("sans", JsonValue::Array(vec![s("Inter"), s("sans-serif")]))])),
            ("spacing", obj(vec![("4", s("1rem"))])),
        ]),
    )])
}

fn screens() -> Vec<Screen> {
    vec![
        Screen { name: "sm".to_string(), value: "640px".to_string(), is_raw: false },
        Screen { name: "print".to_string(), value: "print".to_string(), is_raw: true },
    ]
}

#[test]
fn theme_paths_resolve() {
    let cfg = config();
    let mut w: Vec<Warning> = Vec::new();
    assert_eq!(resolve_theme(Some(&cfg), "colors.blue.500", &mut w), "#3b82f6");
    assert_eq!(resolve_theme(Some(&cfg), "'spacing.4'", &mut w), "1rem");
    assert_eq!(resolve_theme(Some(&cfg), "fontFamily.sans", &mut w), "Inter, sans-serif");
    assert_eq!(resolve_theme(Some(&cfg), "colors.blue.500 / 50%", &mut w), "rgb(59 130 246 / 50%)");
    assert!(w.is_empty());
}

#[test]
fn theme_defaults_and_misses() {
    let cfg = config();
    let mut w: Vec<Warning> = Vec::new();
    assert_eq!(resolve_theme(Some(&cfg), "colors.red.500, theme(spacing.4)", &mut w), "1rem");
    assert!(w.is_empty());
    assert_eq!(resolve_theme(Some(&cfg), "nope", &mut w), "theme(nope)");
    assert_eq!(w.len(), 1);
    assert_eq!(w[0].code, "unknown-theme-path");
    assert_eq!(w[0].message, "`theme(nope)` does not match any theme value");
    assert_eq!(
        resolve_theme_in_string(Some(&cfg), "calc(theme(spacing.4) * 2)", &mut w),
        "calc(1rem * 2)"
    );
    assert_eq!(resolve_theme_in_string(None, "plain", &mut w), "plain");
}

#[test]
fn screens_resolve() {
    let sc = screens();
    let mut w: Vec<Warning> = Vec::new();
    assert_eq!(resolve_screen(&sc, "'sm'", &mut w), "(min-width: 640px)");
    assert_eq!(resolve_screen(&sc, "print", &mut w), "print");
    assert!(w.is_empty());
    assert_eq!(resolve_screen(&sc, "xl", &mut w), "screen(xl)");
    assert_eq!(w[0].code, "unknown-screen");
    assert_eq!(w[0].message, "`screen(xl)` does not match any configured screen");
    assert_eq!(
        resolve_screen_calls(&sc, "screen(sm) and (orientation: landscape)", &mut w),
        "(min-width: 640px) and (orientation: landscape)"
    );
}
