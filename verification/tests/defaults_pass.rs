use galeforce_compiler::css_items::CssItem;
use galeforce_compiler::defaults_pass::{resolve_defaults_at_rules_pass, resolve_defaults_in_level};

fn show(items: &[CssItem]) -> Vec<String> {
    items
        .iter()
        .map(|item| match item {
            CssItem::Comment(s) => format!("comment:{s}"),
            CssItem::Rule { selector, body } => format!("{selector} {{{body}}}"),
            CssItem::AtBlock { name, params, items } => {
                format!("@{name} {params} [{}]", show(items).join(" / "))
            }
            CssItem::AtSimple { text } => format!("simple:{text}"),
            CssItem::Other(s) => format!("other:{s}"),
        })
        .collect()
}

fn rule(selector: &str, body: &str) -> CssItem {
    CssItem::Rule { selector: selector.to_string(), body: body.to_string() }
}

fn builtin() -> Vec<(String, Vec<(String, String)>)> {
    vec![
        (
            "transform".to_string(),
            vec![
                ("--tw-rotate".to_string(), "0".to_string()),
                ("--tw-scale-x".to_string(), "1".to_string()),
            ],
        ),
        ("ring-width".to_string(), vec![("--tw-ring-inset".to_string(), "0px".to_string())]),
    ]
}

#[test]
fn marked_rules_share_one_rule_per_group_and_bucket() {
    let items = vec![
        rule(".a", "color: red; @defaults transform; "),
        rule(".b, .c:has(x)", "@defaults transform; @defaults ring-width;"),
        CssItem::AtBlock {
            name: "media".to_string(),
            params: "(min-width: 640px)".to_string(),
            items: vec![rule("div:hover", "@defaults transform;")],
        },
    ];
    let out = resolve_defaults_in_level(items, &builtin());
    assert_eq!(
        show(&out),
        vec![
            ".a, .b {--tw-rotate: 0; --tw-scale-x: 1;}",
            ".c:has(x) {--tw-rotate: 0; --tw-scale-x: 1;}",
            ".b {--tw-ring-inset: 0px;}",
            ".c:has(x) {--tw-ring-inset: 0px;}",
            ".a {color: red; }",
            ".b, .c:has(x) {}",
            "@media (min-width: 640px) [div {--tw-rotate: 0; --tw-scale-x: 1;} / div:hover {}]",
        ]
    );
}

#[test]
fn a_defaults_block_supplies_the_body_and_is_dropped() {
    let items = vec![
        CssItem::AtBlock {
            name: "defaults".to_string(),
            params: "ring-width".to_string(),
            items: vec![CssItem::Other("  --tw-ring-color: red;  ".to_string())],
        },
        rule(".r", "@defaults ring-width;"),
        rule(".u", "@defaults unknown;"),
    ];
    let out = resolve_defaults_in_level(items, &builtin());
    assert_eq!(show(&out), vec![".r {--tw-ring-color: red;}", ".r {}", ".u {}"]);
}

#[test]
fn containers_without_markers_are_kept() {
    let items = vec![CssItem::Comment("/* x */".to_string()), rule(".a", "color: red;")];
    let out = resolve_defaults_in_level(items, &builtin());
    assert_eq!(show(&out), vec!["comment:/* x */", ".a {color: red;}"]);
}

#[test]
fn a_sheet_without_markers_is_returned_unchanged() {
    let css = ".a{color:red}\n  .a { margin: 0 }";
    assert_eq!(resolve_defaults_at_rules_pass(css, &builtin()), css);
}

#[test]
fn a_sheet_with_markers_gets_its_shared_rules_first() {
    let css = ".a { color: red; @defaults transform; }\n.b { @defaults transform; }\n";
    let out = resolve_defaults_at_rules_pass(css, &builtin());
    assert!(!out.contains("@defaults"));
    assert!(out.starts_with(".a, .b {"));
    assert!(out.contains("--tw-rotate: 0"));
}
