use galeforce_compiler::default_theme::{build_default_theme, margin_table, spacing};
use galeforce_compiler::json::JsonValue;
use galeforce_compiler::theme::lookup_theme;

fn sample_colors() -> Vec<(String, String)> {
    vec![
        ("black".to_string(), "#000".to_string()),
        ("red-500".to_string(), "#ef4444".to_string()),
    ]
}

fn text_at<'a>(t: &'a JsonValue, path: &str) -> Option<&'a str> {
    lookup_theme(t, path).and_then(|v| v.as_str())
}

#[test]
fn spacing_scale_has_thirty_five_entries() {
    let s = spacing();
    let obj = s.as_object().unwrap();
    assert_eq!(obj.len(), 35);
    assert_eq!(s.get("4").and_then(|v| v.as_str()), Some("1rem"));
    assert_eq!(s.get("px").and_then(|v| v.as_str()), Some("1px"));
    assert_eq!(s.get("0.5").and_then(|v| v.as_str()), Some("0.125rem"));
}

#[test]
fn margin_includes_auto_on_top_of_spacing() {
    let m = margin_table();
    assert_eq!(m.get("auto").and_then(|v| v.as_str()), Some("auto"));
    assert_eq!(m.get("4").and_then(|v| v.as_str()), Some("1rem"));
}

#[test]
fn lookup_theme_traverses_dot_paths() {
    let t = build_default_theme(&sample_colors());
    assert_eq!(text_at(&t, "spacing.4"), Some("1rem"));
    assert_eq!(text_at(&t, "margin.auto"), Some("auto"));
    assert!(lookup_theme(&t, "spacing.bogus").is_none());
}

#[test]
fn colour_keys_take_the_given_colours_and_their_defaults() {
    let t = build_default_theme(&sample_colors());
    assert_eq!(text_at(&t, "colors.red-500"), Some("#ef4444"));
    assert_eq!(text_at(&t, "backgroundColor.black"), Some("#000"));
    assert_eq!(text_at(&t, "borderColor.DEFAULT"), Some("#e5e7eb"));
    assert_eq!(text_at(&t, "ringColor.DEFAULT"), Some("#3b82f6"));
    assert_eq!(text_at(&t, "fill.none"), Some("none"));
    assert_eq!(text_at(&t, "accentColor.auto"), Some("auto"));
    assert_eq!(text_at(&t, "ringOpacity.DEFAULT"), Some("0.5"));
    assert_eq!(text_at(&t, "ringOpacity.50"), Some("0.5"));
    assert!(lookup_theme(&t, "colors.DEFAULT").is_none());
}

#[test]
fn default_theme_has_each_key_once() {
    let t = build_default_theme(&sample_colors());
    let obj = t.as_object().unwrap();
    assert_eq!(obj.len(), 114);
    assert_eq!(obj[0].0, "spacing");
    assert_eq!(obj[obj.len() - 1].0, "transformOrigin");
    let ring = obj.iter().filter(|(k, _)| k == "ringColor").count();
    assert_eq!(ring, 1);
}

#[test]
fn derived_tables_follow_their_sources() {
    let t = build_default_theme(&sample_colors());
    assert_eq!(text_at(&t, "width.1/12"), Some("8.333333%"));
    assert_eq!(text_at(&t, "maxWidth.screen-2xl"), Some("1536px"));
    assert_eq!(text_at(&t, "gridColumn.span-12"), Some("span 12 / span 12"));
    assert_eq!(text_at(&t, "gridTemplateColumns.3"), Some("repeat(3, minmax(0, 1fr))"));
    assert_eq!(text_at(&t, "gradientColorStopPositions.35%"), Some("35%"));
    assert_eq!(text_at(&t, "inset.3/4"), Some("75%"));
    let base = lookup_theme(&t, "fontSize.base").unwrap();
    match base {
        JsonValue::Array(items) => {
            assert_eq!(items[0].as_str(), Some("1rem"));
            assert_eq!(items[1].get("lineHeight").and_then(|v| v.as_str()), Some("1.5rem"));
        }
        _ => panic!("fontSize.base is not a list"),
    }
    match lookup_theme(&t, "dropShadow.md").unwrap() {
        JsonValue::Array(items) => assert_eq!(items.len(), 2),
        _ => panic!("dropShadow.md is not a list"),
    }
    assert_eq!(text_at(&t, "dropShadow.none"), Some("0 0 #0000"));
}
