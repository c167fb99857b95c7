use galeforce_compiler::container::rules_for_container;
use galeforce_compiler::json::JsonValue;
use galeforce_compiler::rules::Rule;
use galeforce_compiler::screens::default_screens;

fn s(v: &str) -> JsonValue {
    JsonValue::Str(v.to_string())
}

fn obj(members: Vec<(&str, JsonValue)>) -> JsonValue {
    JsonValue::Object(members.into_iter().map(|(k, v)| (k.to_string(), v)).collect())
}

fn decls(r: &Rule) -> Vec<String> {
    r.declarations.iter().map(|d| format!("{}: {}", d.property, d.value)).collect()
}

#[test]
fn container_without_configuration_caps_at_each_default_screen() {
    let rules = rules_for_container(".container", &default_screens(), None, false);
    assert_eq!(rules.len(), 6);
    assert_eq!(decls(&rules[0]), vec!["width: 100%"]);
    assert!(rules[0].at_rules.is_empty());
    assert!(!rules[0].respect_important);
    assert_eq!(decls(&rules[1]), vec!["max-width: 640px"]);
    assert_eq!(rules[1].at_rules, vec!["@media (min-width: 640px)".to_string()]);
    assert_eq!(rules[5].at_rules, vec!["@media (min-width: 1536px)".to_string()]);
    assert_eq!(rules[5].selectors, vec![".container".to_string()]);
}

#[test]
fn centred_padded_container_with_theme_screens() {
    let config = obj(vec![(
        "theme",
        obj(vec![
            (
                "container",
                obj(vec![
                    ("center", JsonValue::Bool(true)),
                    ("padding", obj(vec![("DEFAULT", s("1rem")), ("sm", s("2rem"))])),
                ]),
            ),
            (
                "screens",
                obj(vec![
                    ("sm", s("640px")),
                    ("md", obj(vec![("min", s("768px"))])),
                    ("print", obj(vec![("raw", s("print"))])),
                ]),
            ),
        ]),
    )]);
    let rules = rules_for_container(".container", &default_screens(), Some(&config), true);
    assert_eq!(rules.len(), 3);
    assert_eq!(
        decls(&rules[0]),
        vec![
            "width: 100%",
            "padding-right: 1rem",
            "padding-left: 1rem",
            "margin-right: auto",
            "margin-left: auto"
        ]
    );
    assert!(rules[0].declarations.iter().all(|d| d.important));
    assert_eq!(decls(&rules[1]), vec!["max-width: 640px", "padding-right: 2rem", "padding-left: 2rem"]);
    assert_eq!(decls(&rules[2]), vec!["max-width: 768px"]);
    assert_eq!(rules[2].at_rules, vec!["@media (min-width: 768px)".to_string()]);
}

#[test]
fn container_screens_may_be_a_list_of_widths() {
    let config = obj(vec![(
        "theme",
        obj(vec![(
            "container",
            obj(vec![
                ("padding", s("5px")),
                ("screens", JsonValue::Array(vec![s("400px"), obj(vec![("min", s("500px"))])])),
            ]),
        )]),
    )]);
    let rules = rules_for_container(".c", &default_screens(), Some(&config), false);
    assert_eq!(rules.len(), 3);
    assert_eq!(decls(&rules[0]), vec!["width: 100%", "padding-right: 5px", "padding-left: 5px"]);
    assert_eq!(decls(&rules[2]), vec!["max-width: 500px"]);
    assert_eq!(rules[2].at_rules, vec!["@media (min-width: 500px)".to_string()]);
}
