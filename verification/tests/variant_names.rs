use galeforce_compiler::plugins::{PluginOutput, PluginVariant};
use galeforce_compiler::variant_names::{built_in_variant_names, list_variant_names};

fn variant(name: &str) -> PluginVariant {
    PluginVariant {
        name: name.to_string(),
        selector_formats: vec!["&:hover".to_string()],
        at_rule: None,
        decl_value_template: None,
    }
}

#[test]
fn built_ins_start_with_the_common_interaction_states() {
    let names = built_in_variant_names();
    assert_eq!(names.len(), 54);
    assert_eq!(&names[..4], &["hover", "focus", "focus-visible", "focus-within"]);
    assert_eq!(names.last().map(String::as_str), Some("peer"));
}

#[test]
fn listing_without_plugins_is_sorted_and_distinct() {
    let names = list_variant_names(None);
    assert_eq!(names.len(), 54 + 5);
    let mut sorted = names.clone();
    sorted.sort();
    sorted.dedup();
    assert_eq!(names, sorted);
    assert_eq!(names[0], "*");
    assert!(names.contains(&"2xl".to_string()));
    assert!(names.contains(&"hover".to_string()));
}

#[test]
fn plugin_variants_join_the_list_once() {
    let recorded = PluginOutput {
        utilities: vec![],
        components: vec![],
        base: vec![],
        variants: vec![variant("hocus"), variant("hover"), variant("hocus")],
    };
    let names = list_variant_names(Some(recorded));
    assert_eq!(names.len(), 54 + 5 + 1);
    let hocus = names.iter().position(|n| n == "hocus").unwrap();
    assert_eq!(names[hocus - 1], "has");
    assert_eq!(names[hocus + 1], "hover");
}
