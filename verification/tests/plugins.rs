use galeforce_compiler::plugins::{
    default_respect_important, read_plugin_output, PluginDecl, PluginOutput, PluginRule,
    PluginVariant,
};

fn rule(selector: &str) -> PluginRule {
    PluginRule {
        selector: selector.to_string(),
        declarations: vec![],
        at_rules: vec![],
        respect_important: default_respect_important(),
        group_class: None,
    }
}

fn decl(property: &str, value: &str) -> PluginDecl {
    PluginDecl { property: property.to_string(), value: value.to_string(), important: false }
}

fn primary(selector: &str) -> Option<String> {
    rule(selector).primary_class()
}

fn refs(selector: &str) -> Vec<String> {
    rule(selector).referenced_classes()
}

#[test]
fn primary_class_plain() {
    assert_eq!(primary(".scrollbar-none"), Some("scrollbar-none".to_string()));
    assert_eq!(primary("  .btn:hover > span  "), Some("btn".to_string()));
}

#[test]
fn primary_class_none_without_leading_class() {
    assert_eq!(primary("html"), None);
    assert_eq!(primary("*"), None);
    assert_eq!(primary("body > *"), None);
    assert_eq!(primary(". foo"), None);
    assert_eq!(primary(""), None);
}

#[test]
fn primary_class_keeps_brackets_and_slash() {
    assert_eq!(primary(".tab-[3.5]"), Some("tab-[3.5]".to_string()));
    assert_eq!(primary(".bg-[#0b14374d]:hover"), Some("bg-[#0b14374d]".to_string()));
    assert_eq!(primary(".test-[8]/[9]"), Some("test-[8]/[9]".to_string()));
    assert_eq!(primary(".grid-[a_b,c_(d)]"), Some("grid-[a_b,c_(d)]".to_string()));
    assert_eq!(primary(".a]b"), Some("a".to_string()));
}

#[test]
fn primary_class_keeps_escapes() {
    assert_eq!(primary(".w-1\\/2"), Some("w-1\\/2".to_string()));
    assert_eq!(primary(".md\\:flex"), Some("md\\:flex".to_string()));
}

#[test]
fn primary_class_peels_wrappers_and_ampersand() {
    assert_eq!(primary(":where(.btn)"), Some("btn".to_string()));
    assert_eq!(primary(":is(.a, .b)"), Some("a".to_string()));
    assert_eq!(primary(":has( .card )"), Some("card".to_string()));
    assert_eq!(primary("& .x"), Some("x".to_string()));
    assert_eq!(primary(":where(.btn) span"), None);
    assert_eq!(primary(":not(.btn)"), None);
}

#[test]
fn referenced_classes_collects_in_order() {
    assert_eq!(refs(".outer:is(.w-full)"), vec!["outer".to_string(), "w-full".to_string()]);
    assert_eq!(refs("html"), Vec::<String>::new());
    assert_eq!(refs(".a .b > .c-[1px]"), vec!["a", "b", "c-[1px]"]);
}

#[test]
fn referenced_classes_skips_not_and_strings() {
    assert_eq!(refs(".a:not(.b, :is(.c)) .d"), vec!["a", "d"]);
    assert_eq!(refs("[data-x='.y'] .z"), vec!["z"]);
    assert_eq!(refs("[data-x=\"a\\\".y\"] .z"), vec!["z"]);
    assert_eq!(refs(".e\\.f"), vec!["e\\.f"]);
}

#[test]
fn read_plugin_output_absent_is_empty() {
    let out = read_plugin_output(None);
    assert!(out.utilities.is_empty());
    assert!(out.components.is_empty());
    assert!(out.base.is_empty());
    assert!(out.variants.is_empty());
}

#[test]
fn read_plugin_output_lifts_important() {
    let mut u = rule(".rot");
    u.declarations = vec![
        decl("transform", "rotate(90deg) !important  "),
        decl("color", "red"),
        decl("margin", "0!important"),
    ];
    let mut c = rule(".card");
    c.respect_important = false;
    c.declarations = vec![decl("padding", "1rem   !important")];
    let v = PluginVariant {
        name: "hocus".to_string(),
        selector_formats: vec!["&:hover".to_string(), "&:focus".to_string()],
        at_rule: None,
        decl_value_template: None,
    };
    let recorded = PluginOutput {
        utilities: vec![u],
        components: vec![c],
        base: vec![],
        variants: vec![v],
    };
    let out = read_plugin_output(Some(recorded));
    let d = &out.utilities[0].declarations;
    assert_eq!(d[0].value, "rotate(90deg)");
    assert!(d[0].important);
    assert_eq!(d[1].value, "red");
    assert!(!d[1].important);
    assert_eq!(d[2].value, "0");
    assert!(d[2].important);
    assert_eq!(out.components[0].declarations[0].value, "1rem");
    assert!(out.components[0].declarations[0].important);
    assert!(!out.components[0].respect_important);
    assert_eq!(out.variants[0].name, "hocus");
    assert_eq!(out.variants[0].selector_formats.len(), 2);
}

#[test]
fn default_respect_important_is_true() {
    assert!(default_respect_important());
}
