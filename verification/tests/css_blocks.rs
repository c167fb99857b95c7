use galeforce_compiler::css_blocks::{
    apply_important_selector_to_block, apply_important_to_decls, collect_class_names,
    find_top_level_block_end, has_top_level_combinator_dir, is_trivial_class_selector,
    read_at_rule_simple_value, read_at_rule_with_params_and_block, rule_has_non_class_only_selector,
    selector_has_class, skip_at_rule, split_top_level_selectors_dir, tag_decls_important,
};
use galeforce_compiler::directives::{
    collect_top_level_classes, replace_class_token, split_top_level_selectors_owned,
};

fn chars(s: &str) -> Vec<char> {
    s.chars().collect()
}

fn texts(v: &[Vec<char>]) -> Vec<String> {
    v.iter().map(|p| p.iter().collect()).collect()
}

#[test]
fn tag_decls_marks_each_declaration() {
    assert_eq!(
        tag_decls_important("color: red; margin: 0 !important;"),
        "color: red !important; margin: 0 !important;"
    );
    assert_eq!(tag_decls_important("a: b  ;"), "a: b !important  ;");
}

#[test]
fn tag_decls_recurses_into_nested_rules_and_skips_at_rules() {
    assert_eq!(
        tag_decls_important("&:hover { color: red; }"),
        "&:hover { color: red !important; }"
    );
    assert_eq!(
        tag_decls_important("@media (x) { a: b; } c: d;"),
        "@media (x) { a: b; } c: d !important;"
    );
    assert_eq!(
        tag_decls_important("/* a: b; */ content: ';';"),
        "/* a: b; */ content: ';' !important;"
    );
}

#[test]
fn non_class_only_selectors() {
    assert!(rule_has_non_class_only_selector(".a { } span, .b { }"));
    assert!(!rule_has_non_class_only_selector(".a, .b { color: red }"));
    assert!(rule_has_non_class_only_selector("@media (x) { div { } }"));
    assert!(!rule_has_non_class_only_selector(".a:not(.b) {}"));
    assert!(rule_has_non_class_only_selector("div:not(.b) {}"));
    assert!(!rule_has_non_class_only_selector("[class~='x'].y {}"));
}

#[test]
fn selector_classes() {
    assert!(!selector_has_class(&chars(".5rem")));
    assert!(selector_has_class(&chars("a.b")));
    assert!(!selector_has_class(&chars("[x='.y']")));
    assert!(!selector_has_class(&chars(":not(.a)")));
    assert_eq!(
        texts(&collect_class_names(&chars(".a .b:not(.c) [x=.d] .-e .-5 .\\!f"))),
        vec!["a", "b", "-e"]
    );
}

#[test]
fn trivial_class_selectors() {
    assert!(is_trivial_class_selector(".a, .b", "b"));
    assert!(!is_trivial_class_selector(".a:hover", "a"));
    assert!(!is_trivial_class_selector(".a, .c", "b"));
    assert!(!is_trivial_class_selector("span", "a"));
}

#[test]
fn important_decls_from_cache() {
    assert_eq!(
        apply_important_to_decls("color: red; margin:0 !important;;  "),
        "color: red !important;margin:0 !important;"
    );
}

#[test]
fn important_selector_prefixes_rules() {
    assert_eq!(
        apply_important_selector_to_block(".a { color: red }\n.b > .c, .d { x: y }", "#app"),
        "#app .a { color: red }\n#app :is(.b > .c), #app .d { x: y }"
    );
    assert_eq!(
        apply_important_selector_to_block("@media (x) { .a { b: c } }", "#app"),
        "@media (x) { .a { b: c } }"
    );
    assert_eq!(
        apply_important_selector_to_block("@import 'x'; .a{b:c}", "#app"),
        "@import 'x'; #app .a {b:c}"
    );
}

#[test]
fn combinators_and_splitting() {
    assert!(has_top_level_combinator_dir(&chars(".a .b")));
    assert!(!has_top_level_combinator_dir(&chars(".a")));
    assert!(!has_top_level_combinator_dir(&chars(".a ")));
    assert!(!has_top_level_combinator_dir(&chars(" .a")));
    assert!(!has_top_level_combinator_dir(&chars(":is(.a .b)")));
    assert!(has_top_level_combinator_dir(&chars("a>b")));
    assert!(!has_top_level_combinator_dir(&chars("[x=' ']")));
    assert_eq!(texts(&split_top_level_selectors_dir(&chars(" .a , .b "))), vec![".a", ".b"]);
    assert_eq!(texts(&split_top_level_selectors_dir(&chars(""))), vec![""]);
    assert_eq!(
        texts(&split_top_level_selectors_owned(&chars(" .a ,.b\\,c, [x,y]"))),
        vec![" .a ", ".b\\,c", " [x,y]"]
    );
}

#[test]
fn top_level_classes_and_token_replacement() {
    assert_eq!(
        texts(&collect_top_level_classes(&chars(".a.b:not(.c) .d\\:e :hover"))),
        vec!["a", "b", "d\\:e"]
    );
    assert_eq!(replace_class_token(".a.b .a", "a", "\\!a"), ".\\!a.b .a");
    assert_eq!(replace_class_token(".ab .a", "a", "x"), ".ab .a");
}

#[test]
fn at_rule_readers() {
    let s = chars("@media (x) { a }");
    assert_eq!(read_at_rule_with_params_and_block(&s, 6), Some((16, 11, 15)));
    let s = chars("@tailwind base; .a{}");
    assert_eq!(read_at_rule_simple_value(&s, 9), Some((15, 14)));
    let s = chars("@tailwind utilities");
    assert_eq!(read_at_rule_simple_value(&s, 9), Some((19, 19)));
    let s = chars("@x a { b }");
    assert_eq!(read_at_rule_simple_value(&s, 2), None);
    assert_eq!(skip_at_rule(&s, 0), Some(10));
    let s = chars(".a { b } \n .c {}");
    assert_eq!(find_top_level_block_end(&s, 0), Some(11));
}

#[test]
fn layers_keep_what_candidates_use() {
    let cands = vec!["a".to_string(), "d".to_string(), "c".to_string()];
    let block = vec!["c".to_string()];
    assert_eq!(
        galeforce_compiler::css_blocks::tree_shake_layer(
            ".a { x: 1 }\n.b { y: 2 }\nspan { z: 3 }\n/* c */ .c, .d { w: 4 }\n.c { v: 5 }",
            &cands,
            &block
        ),
        ".a { x: 1 }\nspan { z: 3 }\n/* c */ .c, .d { w: 4 }\n"
    );
}
