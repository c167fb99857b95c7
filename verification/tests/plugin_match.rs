use galeforce_compiler::json::JsonValue;
use galeforce_compiler::class_form::Modifier;
use galeforce_compiler::plugin_match::{plugin_index_get, rules_for_plugin};
use galeforce_compiler::rules::AppliedVariants;
use galeforce_compiler::plugins::{PluginDecl, PluginOutput, PluginRule};

fn prule(selector: &str, value: &str, group: Option<&str>) -> PluginRule {
    PluginRule {
        selector: selector.to_string(),
        declarations: vec![PluginDecl {
            property: "top".to_string(),
            value: value.to_string(),
            important: false,
        }],
        at_rules: vec![],
        respect_important: true,
        group_class: group.map(|g| g.to_string()),
    }
}

fn recorded() -> PluginOutput {
    PluginOutput {
        utilities: vec![
            prule(".custom-top-1\\/4", "25% !important", None),
            prule(".a .b", "1px", None),
            prule("@keyframes spin", "0", Some("animate-spin")),
            prule(".tw-foo", "2px", None),
        ],
        components: vec![prule(".btn", "3px", None)],
        base: vec![],
        variants: vec![],
    }
}

#[test]
fn escaped_plugin_classes_match_the_plain_candidate() {
    let (rules, is_component) = plugin_index_get(None, Some(recorded()), "custom-top-1/4").unwrap();
    assert!(!is_component);
    assert_eq!(rules.len(), 1);
    assert_eq!(rules[0].declarations[0].value, "25%");
    assert!(rules[0].declarations[0].important);
}

#[test]
fn components_are_flagged() {
    let (rules, is_component) = plugin_index_get(None, Some(recorded()), "btn").unwrap();
    assert!(is_component);
    assert_eq!(rules[0].selector, ".btn");
}

#[test]
fn referenced_and_group_classes_trigger_rules() {
    let (rules, _) = plugin_index_get(None, Some(recorded()), "b").unwrap();
    assert_eq!(rules[0].selector, ".a .b");
    let (rules, _) = plugin_index_get(None, Some(recorded()), "animate-spin").unwrap();
    assert_eq!(rules[0].selector, "@keyframes spin");
    assert!(plugin_index_get(None, Some(recorded()), "spin").is_none());
}

#[test]
fn the_configured_prefix_is_allowed_for() {
    let config = JsonValue::Object(vec![("prefix".to_string(), JsonValue::Str("tw-".to_string()))]);
    assert!(plugin_index_get(None, Some(recorded()), "foo").is_none());
    let (rules, _) = plugin_index_get(Some(&config), Some(recorded()), "foo").unwrap();
    assert_eq!(rules[0].selector, ".tw-foo");
}

#[test]
fn no_plugin_output_matches_nothing() {
    assert!(plugin_index_get(None, None, "btn").is_none());
    assert!(plugin_index_get(None, Some(recorded()), "unknown").is_none());
}

fn applied_with(selectors: &[&str], at_rules: &[&str]) -> AppliedVariants {
    AppliedVariants {
        selectors: selectors.iter().map(|s| s.to_string()).collect(),
        at_rules: at_rules.iter().map(|s| s.to_string()).collect(),
        prepend_decls: vec![],
        remove_alpha_vars: vec![],
    }
}

#[test]
fn plugin_rules_take_the_variant_selector_in_place_of_their_class() {
    let mut rule = prule(".btn", "3px", None);
    rule.at_rules = vec!["@supports (display: grid)".to_string()];
    let rules = rules_for_plugin(
        &vec![rule],
        "btn",
        None,
        None,
        true,
        true,
        applied_with(&[".md\\:\\!btn"], &["@media (min-width: 768px)"]),
    );
    assert_eq!(rules.len(), 1);
    assert_eq!(rules[0].selectors, vec![".md\\:\\!btn".to_string()]);
    assert_eq!(
        rules[0].at_rules,
        vec!["@media (min-width: 768px)".to_string(), "@supports (display: grid)".to_string()]
    );
    assert!(rules[0].declarations[0].important);
    assert!(rules[0].respect_important);
}

#[test]
fn alias_matches_keep_only_the_selectors_holding_the_class() {
    let rule = prule(".a .b, .c", "1px", None);
    let rules = rules_for_plugin(
        &vec![rule],
        "b",
        None,
        None,
        false,
        true,
        applied_with(&[".hover\\:b:hover"], &[]),
    );
    assert_eq!(rules[0].selectors, vec![".a .hover\\:b:hover".to_string()]);
    assert!(!rules[0].declarations[0].important);
}

#[test]
fn one_rule_per_variant_selector_and_plugin_rule() {
    let rules = rules_for_plugin(
        &vec![prule(".x", "1px", None), prule(".x::after", "2px", None)],
        "x",
        None,
        Some(&Modifier::Named("50".to_string())),
        false,
        false,
        applied_with(&[".x", ".y"], &[]),
    );
    assert_eq!(rules.len(), 4);
    assert_eq!(rules[1].selectors, vec![".y".to_string()]);
    assert_eq!(rules[3].selectors, vec![".y::after".to_string()]);
    assert_eq!(rules[3].declarations[0].value, "2px");
}
