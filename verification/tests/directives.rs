use galeforce_compiler::directives::{
    move_pseudo_elements_to_end, sort_token_list, split_top_level_selectors,
    substitute_class_in_selector, substitute_class_in_selector_bounded,
    substitute_class_in_selector_public, tokenize_compound,
    TokenKind,
};

fn chars(s: &str) -> Vec<char> {
    s.chars().collect()
}

fn text(v: &[char]) -> String {
    v.iter().collect()
}

#[test]
fn substitute_variant_class() {
    assert_eq!(
        substitute_class_in_selector_public(".foo", "foo", ".hover\\:foo:hover"),
        ".hover\\:foo:hover"
    );
}

#[test]
fn substitute_tag_replacement_sorts_tag_first() {
    assert_eq!(
        substitute_class_in_selector_public(".bar.foo", "foo", "header:nth-of-type(odd)"),
        "header.bar:nth-of-type(odd)"
    );
    assert_eq!(
        substitute_class_in_selector_public(".foo::before, span", "foo", "header"),
        "header::before"
    );
}

#[test]
fn substitute_class_replacement_hoists_to_front() {
    assert_eq!(
        substitute_class_in_selector_public(".foo.bar.baz", "bar", ".hover\\:bar:hover"),
        ".hover\\:bar:hover.foo.baz"
    );
}

#[test]
fn substitute_recurses_into_selector_list_pseudos() {
    assert_eq!(substitute_class_in_selector_public(":where(.foo)", "foo", ".x"), ":where(.x)");
    assert_eq!(
        substitute_class_in_selector_public(":nth-child(.foo) .foo", "foo", ".x"),
        ":nth-child(.foo) .x"
    );
}

#[test]
fn substitute_first_versus_all() {
    assert_eq!(substitute_class_in_selector(".foo + .foo", "foo", "span"), "span + .foo");
    assert_eq!(
        substitute_class_in_selector_public(".foo + .foo", "foo", "span"),
        "span + span"
    );
}

#[test]
fn substitute_skips_strings_and_brackets() {
    assert_eq!(
        substitute_class_in_selector_public("[data-x='.foo'] .foo", "foo", ".bar"),
        "[data-x='.foo'] .bar"
    );
    assert_eq!(substitute_class_in_selector_public(".foobar", "foo", ".x"), "");
    assert_eq!(substitute_class_in_selector_public(".a, .b", "c", ".x"), "");
}

#[test]
fn substitute_moves_pseudo_elements_to_the_end() {
    assert_eq!(
        substitute_class_in_selector_public(".foo::after .baz", "foo", ".x"),
        ".x .baz::after"
    );
}

#[test]
fn substitute_keeps_matching_parts_only() {
    assert_eq!(
        substitute_class_in_selector(".a .foo, .b, .foo:hover", "foo", ".x"),
        ".a .x, .x:hover"
    );
}

#[test]
fn split_selectors_respects_nesting() {
    let parts = split_top_level_selectors(&chars(" .a , :is(.b, .c) , [x=','] ,"));
    let texts: Vec<String> = parts.iter().map(|p| text(p)).collect();
    assert_eq!(texts, vec![".a", ":is(.b, .c)", "[x=',']"]);
    let parts = split_top_level_selectors(&chars(".a,,.b"));
    let texts: Vec<String> = parts.iter().map(|p| text(p)).collect();
    assert_eq!(texts, vec![".a", "", ".b"]);
}

#[test]
fn tokenize_compound_kinds() {
    let toks = tokenize_compound(&chars("a.b#c[d=e]:hover::before:not(.x)*?"));
    let kinds: Vec<TokenKind> = toks.iter().map(|t| t.kind).collect();
    let texts: Vec<String> = toks.iter().map(|t| text(&t.text)).collect();
    assert_eq!(
        kinds,
        vec![
            TokenKind::Tag,
            TokenKind::Class,
            TokenKind::Id,
            TokenKind::Attr,
            TokenKind::PseudoClass,
            TokenKind::PseudoElement,
            TokenKind::PseudoClass,
            TokenKind::Tag,
            TokenKind::Other,
        ]
    );
    assert_eq!(texts, vec!["a", ".b", "#c", "[d=e]", ":hover", "::before", ":not(.x)", "*", "?"]);
}

#[test]
fn sort_tokens_tag_first_pseudo_element_last() {
    let toks = tokenize_compound(&chars("::after.a:hover div"));
    assert_eq!(text(&sort_token_list(&toks)), ".a::after:hover div");
    let toks = tokenize_compound(&chars(".a::before"));
    assert_eq!(text(&sort_token_list(&toks)), ".a::before");
    let toks = tokenize_compound(&chars("::before.a"));
    assert_eq!(text(&sort_token_list(&toks)), ".a::before");
    let toks = tokenize_compound(&chars(".a.b*"));
    assert_eq!(text(&sort_token_list(&toks)), "*.a.b");
}

#[test]
fn move_pseudo_elements_in_lists() {
    assert_eq!(move_pseudo_elements_to_end(".foo::before .bar, .x"), ".foo .bar::before, .x");
}

#[test]
fn parenthesised_arguments_stay_whole_in_the_compound() {
    assert_eq!(
        substitute_class_in_selector_public("li:nth-child(2n+1).foo", "foo", ".bar"),
        "li.bar:nth-child(2n+1)"
    );
}

#[test]
fn bounded_substitution_refuses_a_growing_replacement() {
    assert_eq!(
        substitute_class_in_selector_bounded(".foo .x", "foo", ".hover\\:foo:hover", 8),
        Some(".hover\\:foo:hover .x".to_string())
    );
    assert_eq!(substitute_class_in_selector_bounded(".a", "a", ".a.b", 8), None);
}
