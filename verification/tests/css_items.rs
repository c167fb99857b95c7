use galeforce_compiler::css_items::{
    apply_alpha_var_removal, extract_defaults_markers, Declaration,
    collapse_adjacent_rules_pass, collapse_duplicate_decls, emit_collapsed_items,
    has_top_level_combinator, normalize_at_params, normalize_at_simple_key,
    normalize_selector_key, parse_decls_from_body, parse_top_level_items, resolve_unit,
    split_top_level_selectors, strip_css_escapes, CssItem,
};

fn kind(item: &CssItem) -> String {
    match item {
        CssItem::Comment(s) => format!("comment:{s}"),
        CssItem::Rule { selector, body } => format!("rule:{selector}|{body}"),
        CssItem::AtBlock { name, params, items } => {
            format!("block:{name}|{params}|{}", items.len())
        }
        CssItem::AtSimple { text } => format!("simple:{text}"),
        CssItem::Other(s) => format!("other:{s}"),
    }
}

#[test]
fn items_of_a_small_sheet() {
    let items = parse_top_level_items("/* c */ @import 'a.css';\n.a > b { color: red }\n@media (min-width: 640px) { .b { x: y } }");
    let kinds: Vec<String> = items.iter().map(kind).collect();
    assert_eq!(
        kinds,
        vec![
            "comment:/* c */",
            "other: ",
            "simple:@import 'a.css';",
            "other:\n",
            "rule:.a > b| color: red ",
            "other:\n",
            "block:media|(min-width: 640px)|3",
        ]
    );
}

#[test]
fn stray_close_brace_and_unterminated_rule() {
    let kinds: Vec<String> = parse_top_level_items("a } .b { c").iter().map(kind).collect();
    assert_eq!(kinds, vec!["other:a ", "other:}", "other: ", "rule:.b| c"]);
    let kinds: Vec<String> = parse_top_level_items(".x").iter().map(kind).collect();
    assert_eq!(kinds, vec!["other:.x"]);
}

#[test]
fn braces_inside_strings_do_not_close_a_block() {
    let items = parse_top_level_items(".a { content: \"}\" } .b { }");
    let kinds: Vec<String> = items.iter().map(kind).collect();
    assert_eq!(kinds, vec!["rule:.a| content: \"}\" ", "other: ", "rule:.b| "]);
}

#[test]
fn same_unit_duplicates_keep_the_last() {
    assert_eq!(collapse_duplicate_decls("height: 100px; height: 200px;"), "height: 200px;");
}

#[test]
fn identical_duplicates_keep_the_last() {
    assert_eq!(
        collapse_duplicate_decls("color: red; margin: 0; color: red"),
        "margin: 0; color: red;"
    );
}

#[test]
fn different_units_and_non_numeric_values_stay() {
    assert_eq!(
        collapse_duplicate_decls("width: 1px; width: 2rem;"),
        "width: 1px; width: 2rem;"
    );
    assert_eq!(
        collapse_duplicate_decls("a: var(--x); a: var(--y)"),
        "a: var(--x); a: var(--y);"
    );
}

#[test]
fn comments_and_stray_text_pass_through() {
    assert_eq!(
        collapse_duplicate_decls("/* c */ color: red; junk"),
        "/* c */ color: red; junk"
    );
}

#[test]
fn units_of_numeric_values() {
    assert_eq!(resolve_unit("10px"), Some("px".to_string()));
    assert_eq!(resolve_unit("1.5"), Some(String::new()));
    assert_eq!(resolve_unit("-.5em"), Some("em".to_string()));
    assert_eq!(resolve_unit("50%"), Some("%".to_string()));
    assert_eq!(resolve_unit("var(--x)"), None);
    assert_eq!(resolve_unit("px"), None);
    assert_eq!(resolve_unit("1px solid"), None);
}

#[test]
fn keys_join_words_with_single_spaces() {
    assert_eq!(normalize_selector_key("  .a   >\n .b "), ".a > .b");
    assert_eq!(normalize_at_params("(min-width:\t640px)  and x"), "(min-width: 640px) and x");
    assert_eq!(normalize_at_simple_key("  @import  'a.css' ;; "), "@import 'a.css'");
}

#[test]
fn adjacent_rules_with_the_same_selector_merge() {
    assert_eq!(
        collapse_adjacent_rules_pass(".a { color: red }\n.a { margin: 0 }\n"),
        ".a { color: red; margin: 0; }\n"
    );
}

#[test]
fn comments_break_a_merge() {
    assert_eq!(
        collapse_adjacent_rules_pass(".a { x: 1 }\n/* c */\n.a { y: 2 }"),
        ".a { x: 1; }\n/* c */\n.a { y: 2; }\n"
    );
}

#[test]
fn adjacent_media_blocks_merge() {
    assert_eq!(
        collapse_adjacent_rules_pass(
            "@media (min-width: 640px) { .a { color: red } }\n@media (min-width:  640px) { .b { color: blue } }"
        ),
        "@media (min-width: 640px) {  .a { color: red; }\n.b { color: blue; }\n }\n"
    );
}

#[test]
fn font_face_blocks_stay_apart() {
    assert_eq!(
        collapse_adjacent_rules_pass("@font-face { a: b }\n@font-face { c: d }"),
        "@font-face {  a: b  }\n\n@font-face {  c: d  }\n"
    );
}

#[test]
fn repeated_simple_at_rules_are_written_once() {
    assert_eq!(
        collapse_adjacent_rules_pass("@import 'a.css';\n@import  'a.css';\n@import 'b.css';"),
        "@import 'a.css';@import 'b.css';"
    );
}

#[test]
fn emit_appends_to_what_is_there() {
    let items = parse_top_level_items(".a { b: c }");
    let mut out = String::from("x");
    emit_collapsed_items(&items, &mut out);
    assert_eq!(out, "x.a { b: c; }\n");
}

#[test]
fn declarations_of_a_user_body() {
    let decls = parse_decls_from_body(
        "color: red; margin: 0 !important; @apply foo; .x { a: b } /* c */ top: ;",
        false,
    );
    let got: Vec<(String, String, bool)> = decls
        .iter()
        .map(|d| (d.property.clone(), d.value.clone(), d.important))
        .collect();
    assert_eq!(
        got,
        vec![
            ("color".to_string(), "red".to_string(), false),
            ("margin".to_string(), "0".to_string(), true),
        ]
    );
    let all = parse_decls_from_body("a: b", true);
    assert_eq!(all.len(), 1);
    assert!(all[0].important);
}

#[test]
fn escapes_are_stripped() {
    assert_eq!(strip_css_escapes("custom-top-1\\/4"), "custom-top-1/4");
    assert_eq!(strip_css_escapes("a\\"), "a\\");
}

#[test]
fn selector_lists_split_at_top_level_commas() {
    assert_eq!(
        split_top_level_selectors(".a, .b:is(.c, .d) ,[x=','] "),
        vec![".a".to_string(), ".b:is(.c, .d)".to_string(), "[x=',']".to_string()]
    );
    assert_eq!(split_top_level_selectors("  "), vec!["  ".to_string()]);
}

#[test]
fn combinators_at_top_level() {
    assert!(has_top_level_combinator(".a .b"));
    assert!(has_top_level_combinator(".a>.b"));
    assert!(!has_top_level_combinator(".a"));
    assert!(!has_top_level_combinator(":is(.a .b)"));
    assert!(!has_top_level_combinator(".a  "));
}

#[test]
fn defaults_markers_are_taken_out() {
    assert_eq!(extract_defaults_markers("color: red;"), ("color: red;".to_string(), vec![]));
    assert_eq!(
        extract_defaults_markers("@defaults ring-width;\n  color: red;"),
        ("color: red;".to_string(), vec!["ring-width".to_string()])
    );
    assert_eq!(
        extract_defaults_markers("a @defaultsX; b"),
        ("a @defaultsX; b".to_string(), vec![])
    );
    assert_eq!(
        extract_defaults_markers("@defaults x { }"),
        ("@defaults x { }".to_string(), vec![])
    );
    assert_eq!(extract_defaults_markers("@defaults x"), ("@defaults x".to_string(), vec![]));
    assert_eq!(extract_defaults_markers("@defaults ;b"), ("b".to_string(), vec![]));
}

#[test]
fn alpha_variables_are_removed() {
    let d = |p: &str, v: &str, i: bool| Declaration {
        property: p.to_string(),
        value: v.to_string(),
        important: i,
    };
    let mut decls = vec![
        d("color", "rgb(1 2 3 / var(--tw-text-opacity, 1))", false),
        d("--tw-text-opacity", "1", false),
        d("x", "a / var(--tw-text-opacity) b", true),
    ];
    apply_alpha_var_removal(&mut decls, &["--tw-text-opacity"]);
    let got: Vec<(String, String, bool)> =
        decls.iter().map(|x| (x.property.clone(), x.value.clone(), x.important)).collect();
    assert_eq!(
        got,
        vec![
            ("color".to_string(), "rgb(1 2 3 )".to_string(), false),
            ("x".to_string(), "a  b".to_string(), true),
        ]
    );
    let mut same = vec![d("a", "b", false)];
    apply_alpha_var_removal(&mut same, &[]);
    assert_eq!(same.len(), 1);
    assert_eq!(same[0].value, "b");
}
