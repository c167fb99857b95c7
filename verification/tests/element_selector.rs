use galeforce_compiler::element_selector::{
    reduce_to_element_selector, split_top_level_commas_owned, take_last_compound,
    tokenize_compound, SelToken,
};

#[test]
fn last_compound_of_a_selector() {
    assert_eq!(take_last_compound(".a .b > .c"), ".b > .c");
    assert_eq!(take_last_compound(".a"), ".a");
    assert_eq!(take_last_compound(":is(.a .b) .c"), ".c");
}

#[test]
fn nodes_of_a_compound() {
    let toks = tokenize_compound("a.b#c[d='x]']:e(f)::g*>");
    let text: String = toks.iter().map(|t| t.text()).collect();
    assert_eq!(text, "a.b#c[d='x]']:e(f)::g*>");
    assert_eq!(toks.len(), 8);
    assert!(matches!(&toks[4], SelToken::Pseudo { has_subnodes: true, is_element: false, .. }));
    assert!(matches!(&toks[5], SelToken::Pseudo { has_subnodes: false, is_element: true, .. }));
    let legacy = tokenize_compound(":before");
    assert!(matches!(&legacy[0], SelToken::Pseudo { is_element: true, .. }));
}

#[test]
fn selectors_reduce_to_their_anchor() {
    assert_eq!(reduce_to_element_selector(".foo:hover::before"), ".foo::before");
    assert_eq!(reduce_to_element_selector("#main .x:focus"), ".x");
    assert_eq!(reduce_to_element_selector("#main"), "[id=main]");
    assert_eq!(reduce_to_element_selector("#a\\.b"), "[id=\"a\\.b\"]");
    assert_eq!(reduce_to_element_selector(":hover"), "");
    assert_eq!(reduce_to_element_selector("::after"), "::after");
    assert_eq!(reduce_to_element_selector("div > p:not(.x)"), "p:not(.x)");
}

#[test]
fn selector_list_parts_keep_a_trailing_empty_one() {
    assert_eq!(
        split_top_level_commas_owned(".a, .b:is(.c,.d),"),
        vec![".a".to_string(), ".b:is(.c,.d)".to_string(), String::new()]
    );
}
