use galeforce_compiler::config::ImportantConfig;
use galeforce_compiler::css_items::Declaration;
use galeforce_compiler::json::JsonValue;
use galeforce_compiler::rules::{
    apply_important_mode, rules_for_arbitrary_property, rules_for_sibling_static, scope_selector,
    AppliedVariants, Rule,
};

fn decl(property: &str, value: &str) -> Declaration {
    Declaration { property: property.to_string(), value: value.to_string(), important: false }
}

fn rule(selector: &str, respect_important: bool) -> Rule {
    Rule {
        selectors: vec![selector.to_string()],
        declarations: vec![decl("color", "red"), decl("margin", "0")],
        at_rules: vec!["@media (min-width: 640px)".to_string()],
        respect_important,
        defaults_groups: vec![],
    }
}

#[test]
fn bang_marks_every_declaration_of_respecting_rules() {
    let mut rules = vec![rule(".a", true), rule(".b", false)];
    apply_important_mode(&mut rules, &ImportantConfig::Bang);
    assert!(rules[0].declarations.iter().all(|d| d.important));
    assert_eq!(rules[0].declarations[1].property, "margin");
    assert_eq!(rules[0].selectors, vec![".a".to_string()]);
    assert!(rules[1].declarations.iter().all(|d| !d.important));
}

#[test]
fn a_selector_mode_nests_each_selector() {
    let mut rules = vec![rule(".a, .b > .c", true), rule(".d", false)];
    apply_important_mode(&mut rules, &ImportantConfig::SelectorPrefix("#app".to_string()));
    assert_eq!(rules[0].selectors, vec!["#app .a, #app :is(.b > .c)".to_string()]);
    assert!(rules[0].declarations.iter().all(|d| !d.important));
    assert_eq!(rules[0].at_rules, vec!["@media (min-width: 640px)".to_string()]);
    assert_eq!(rules[1].selectors, vec![".d".to_string()]);
}

#[test]
fn off_leaves_rules_alone() {
    let mut rules = vec![rule(".a", true)];
    apply_important_mode(&mut rules, &ImportantConfig::Off);
    assert_eq!(rules[0].selectors, vec![".a".to_string()]);
    assert!(rules[0].declarations.iter().all(|d| !d.important));
}

#[test]
fn combinators_inside_pseudos_do_not_wrap() {
    assert_eq!(scope_selector("#app", ".x:where(.y .z)"), "#app .x:where(.y .z)");
    assert_eq!(scope_selector("#app", ".x .y"), "#app :is(.x .y)");
}

fn applied(selectors: &[&str]) -> AppliedVariants {
    AppliedVariants {
        selectors: selectors.iter().map(|s| s.to_string()).collect(),
        at_rules: vec!["@media (min-width: 768px)".to_string()],
        prepend_decls: vec![("content".to_string(), "var(--tw-content)".to_string())],
        remove_alpha_vars: vec![],
    }
}

#[test]
fn arbitrary_properties_read_underscores_and_bare_variables() {
    let defaults = JsonValue::Object(vec![]);
    let rules = rules_for_arbitrary_property(
        "grid-template-columns",
        "repeat(2,_minmax(0,_1fr))",
        true,
        applied(&[".md\\:before\\:\\[x\\]::before"]),
        None,
        &defaults,
    );
    assert_eq!(rules.len(), 1);
    let d = &rules[0].declarations;
    assert_eq!((d[0].property.as_str(), d[0].value.as_str(), d[0].important), ("content", "var(--tw-content)", false));
    assert_eq!(d[1].value, "repeat(2, minmax(0, 1fr))");
    assert!(d[1].important);
    assert_eq!(rules[0].at_rules, vec!["@media (min-width: 768px)".to_string()]);

    let wrapped = rules_for_arbitrary_property("color", "--brand", false, applied(&[".a", ".b"]), None, &defaults);
    assert_eq!(wrapped.len(), 2);
    assert_eq!(wrapped[1].selectors, vec![".b".to_string()]);
    assert_eq!(wrapped[1].declarations[1].value, "var(--brand)");
}

#[test]
fn sibling_statics_target_the_following_siblings() {
    let mut a = applied(&[".space-x-reverse"]);
    a.prepend_decls.clear();
    a.remove_alpha_vars = vec!["--tw-space-x-reverse".to_string()];
    let decls = vec![
        ("--tw-space-x-reverse".to_string(), "1".to_string()),
        ("border-color".to_string(), "rgb(0 0 0 / var(--tw-space-x-reverse))".to_string()),
    ];
    let rules = rules_for_sibling_static(&decls, false, a);
    assert_eq!(
        rules[0].selectors,
        vec![".space-x-reverse > :not([hidden]) ~ :not([hidden])".to_string()]
    );
    assert_eq!(rules[0].declarations.len(), 1);
    assert_eq!(rules[0].declarations[0].value, "rgb(0 0 0 )");
}
