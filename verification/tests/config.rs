use galeforce_compiler::config::{
    optimize_universal_defaults_enabled, read_blocklist, read_important_config,
    read_safelist_strings, CorePluginsFilter, ImportantConfig,
};
use galeforce_compiler::json::JsonValue;

fn obj(members: Vec<(&str, JsonValue)>) -> JsonValue {
    JsonValue::Object(members.into_iter().map(|(k, v)| (k.to_string(), v)).collect())
}

fn s(t: &str) -> JsonValue {
    JsonValue::Str(t.to_string())
}

#[test]
fn safelist_and_blocklist_keep_their_strings() {
    let cfg = obj(vec![
        ("safelist", JsonValue::Array(vec![s("a"), obj(vec![("pattern", s("x"))]), s("b")])),
        ("blocklist", JsonValue::Array(vec![s("c")])),
    ]);
    assert_eq!(read_safelist_strings(Some(&cfg)), vec!["a".to_string(), "b".to_string()]);
    assert_eq!(read_blocklist(Some(&cfg)), vec!["c".to_string()]);
    assert!(read_safelist_strings(None).is_empty());
    assert!(read_blocklist(Some(&obj(vec![("blocklist", s("c"))]))).is_empty());
}

#[test]
fn important_modes() {
    assert!(matches!(read_important_config(None), ImportantConfig::Off));
    let bang = obj(vec![("important", JsonValue::Bool(true))]);
    assert!(matches!(read_important_config(Some(&bang)), ImportantConfig::Bang));
    let sel = obj(vec![("important", s("#app"))]);
    match read_important_config(Some(&sel)) {
        ImportantConfig::SelectorPrefix(p) => assert_eq!(p, "#app"),
        _ => panic!("expected a selector prefix"),
    }
    let empty = obj(vec![("important", s(""))]);
    assert!(matches!(read_important_config(Some(&empty)), ImportantConfig::Off));
    let off = obj(vec![("important", JsonValue::Bool(false))]);
    assert!(matches!(read_important_config(Some(&off)), ImportantConfig::Off));
}

#[test]
fn universal_defaults_flag() {
    let all = obj(vec![("experimental", s("all"))]);
    assert!(optimize_universal_defaults_enabled(Some(&all)));
    let on = obj(vec![("experimental", obj(vec![("optimizeUniversalDefaults", JsonValue::Bool(true))]))]);
    assert!(optimize_universal_defaults_enabled(Some(&on)));
    assert!(!optimize_universal_defaults_enabled(None));
}

#[test]
fn core_plugin_filters() {
    let all = CorePluginsFilter::from_config(None);
    assert!(all.is_enabled("padding"));
    let only = obj(vec![("corePlugins", JsonValue::Array(vec![s("display"), s("padding")]))]);
    let f = CorePluginsFilter::from_config(Some(&only));
    assert!(f.is_enabled("padding"));
    assert!(!f.is_enabled("margin"));
    let off = obj(vec![(
        "corePlugins",
        obj(vec![("display", JsonValue::Bool(false)), ("padding", JsonValue::Bool(true))]),
    )]);
    let g = CorePluginsFilter::from_config(Some(&off));
    assert!(!g.is_enabled("display"));
    assert!(g.is_enabled("padding"));
    assert!(g.is_enabled("margin"));
}
