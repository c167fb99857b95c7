use galeforce_compiler::class_form::{
    comma_style, render_class_form_no_modifier, render_modifier_into, CommaEscapeStyle, Modifier,
};
use galeforce_compiler::json::JsonValue;
use galeforce_compiler::screens::screen_min_width;

fn obj(members: Vec<(&str, JsonValue)>) -> JsonValue {
    JsonValue::Object(members.into_iter().map(|(k, v)| (k.to_string(), v)).collect())
}

#[test]
fn comma_escapes_follow_the_prefix() {
    let cfg = obj(vec![("prefix", JsonValue::Str("tw-".to_string()))]);
    assert_eq!(comma_style(Some(&cfg), "grid-cols-[1fr,2fr]", false), CommaEscapeStyle::Literal);
    assert_eq!(comma_style(Some(&cfg), "grid-cols-[1fr,2fr]", true), CommaEscapeStyle::Numeric);
    assert_eq!(comma_style(Some(&cfg), "[a:b,c]", false), CommaEscapeStyle::Numeric);
    assert_eq!(comma_style(None, "x", false), CommaEscapeStyle::Numeric);
}

#[test]
fn modifiers_are_written() {
    let mut out = String::from("bg-red-500/");
    render_modifier_into(&Modifier::Named("50".to_string()), &mut out);
    assert_eq!(out, "bg-red-500/50");
    let mut out = String::from("x/");
    render_modifier_into(&Modifier::Arbitrary("0.3".to_string()), &mut out);
    assert_eq!(out, "x/[0.3]");
}

#[test]
fn screen_min_widths() {
    assert_eq!(screen_min_width(&JsonValue::Str("768px".to_string())), Some("768px".to_string()));
    assert_eq!(
        screen_min_width(&obj(vec![("min", JsonValue::Str("1px".to_string()))])),
        Some("1px".to_string())
    );
    assert_eq!(
        screen_min_width(&obj(vec![("min-width", JsonValue::Str("2px".to_string()))])),
        Some("2px".to_string())
    );
    assert_eq!(screen_min_width(&obj(vec![("max", JsonValue::Str("3px".to_string()))])), None);
    assert_eq!(screen_min_width(&JsonValue::Null), None);
}

#[test]
fn plugin_lookup_form_keeps_the_modifier() {
    let named = Modifier::Named("4".to_string());
    let arbitrary = Modifier::Arbitrary("10%".to_string());
    assert_eq!(render_class_form_no_modifier("custom-top-1", Some(&named)), "custom-top-1/4");
    assert_eq!(render_class_form_no_modifier("bg-red-500", Some(&arbitrary)), "bg-red-500/[10%]");
    assert_eq!(render_class_form_no_modifier("flex", None), "flex");
}
