use galeforce_compiler::class_subst::{
    alias_substitution_target, find_class_in_selector, matched_class_position,
    matches_class_token, position_of_class_in_selector, replace_class_in_wrapped_selector,
    substitute_class_in_selector_list, substitute_class_once,
    substitute_primary_class_in_selector_list,
};
use galeforce_compiler::plugins::PluginRule;

fn rule(selector: &str) -> PluginRule {
    PluginRule {
        selector: selector.to_string(),
        declarations: vec![],
        at_rules: vec![],
        respect_important: true,
        group_class: None,
    }
}

fn chars(s: &str) -> Vec<char> {
    s.chars().collect()
}

#[test]
fn class_tokens_end_at_a_boundary() {
    assert!(matches_class_token(&chars("btn:hover"), &chars("btn")));
    assert!(!matches_class_token(&chars("btn-x"), &chars("btn")));
    assert!(matches_class_token(&chars("btn"), &chars("btn")));
}

#[test]
fn the_first_class_token_is_replaced() {
    assert_eq!(substitute_class_once(".btn:hover", "btn", ".x"), (".x:hover".to_string(), true));
    assert_eq!(substitute_class_once(".btnx .btn", "btn", ".y"), (".btnx .y".to_string(), true));
    assert_eq!(
        substitute_class_once("[data-x='.btn'] .a", "btn", ".y"),
        ("[data-x='.btn'] .a".to_string(), false)
    );
}

#[test]
fn selector_lists_keep_the_parts_that_had_the_class() {
    assert_eq!(
        substitute_class_in_selector_list(".a, .b > .a, .c", "a", ".z"),
        Some(".z, .b > .z".to_string())
    );
    assert_eq!(substitute_class_in_selector_list(".a, .b", "q", ".z"), None);
}

#[test]
fn wrapped_classes_are_replaced() {
    assert_eq!(
        replace_class_in_wrapped_selector(":where(.btn) .btn", "btn", ".x"),
        Some(":where(.x) .btn".to_string())
    );
    assert_eq!(replace_class_in_wrapped_selector(".btn", "btn", ".x"), None);
}

#[test]
fn the_primary_class_is_replaced() {
    assert_eq!(substitute_primary_class_in_selector_list(".btn", "btn", ".x"), ".x");
    assert_eq!(substitute_primary_class_in_selector_list(".btn:hover", "btn", ".x"), ".x:hover");
    assert_eq!(substitute_primary_class_in_selector_list(":where(.btn)", "btn", ".x"), ":where(.x)");
    assert_eq!(substitute_primary_class_in_selector_list("a .btn, .c", "btn", ".x"), "a .x, .c");
    assert_eq!(substitute_primary_class_in_selector_list("html", "btn", ".x"), "html");
}

#[test]
fn class_positions() {
    assert_eq!(find_class_in_selector(".a .btn-x .btn", "btn"), Some(11));
    assert_eq!(find_class_in_selector(".a", "btn"), None);
    assert_eq!(position_of_class_in_selector(".foo.bar.baz", "baz"), Some(2));
    assert_eq!(position_of_class_in_selector(":is(.foo, .bar)", "bar"), Some(1));
    assert_eq!(position_of_class_in_selector("x", "y"), None);
}

#[test]
fn the_matched_class_is_found_among_the_references() {
    assert_eq!(matched_class_position(&rule(".a, .b\\:c"), "b:c"), 1);
    assert_eq!(matched_class_position(&rule(".a, .b"), "a"), 0);
    assert_eq!(matched_class_position(&rule(".a, .b"), "zzz"), 0);
}

#[test]
fn the_class_to_replace_prefers_the_primary_one() {
    let r = rule(".btn, .alias");
    assert_eq!(
        alias_substitution_target(&r, &vec!["alias".to_string()]),
        Some(("alias".to_string(), true))
    );
    assert_eq!(
        alias_substitution_target(&r, &vec!["alias".to_string(), "btn".to_string()]),
        Some(("btn".to_string(), false))
    );
    assert_eq!(alias_substitution_target(&r, &vec!["none".to_string()]), None);
}
