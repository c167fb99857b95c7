use galeforce_compiler::selector_ast::{
    move_pseudos_in_selector, parse_selector_list, serialize_selector_list, SelAstNode,
};

fn round_trip(input: &str) -> String {
    let parsed = parse_selector_list(input);
    serialize_selector_list(&parsed)
}

fn move_one(input: &str) -> String {
    let list = parse_selector_list(input);
    let moved: Vec<_> = list.into_iter().map(move_pseudos_in_selector).collect();
    serialize_selector_list(&moved)
}

#[test]
fn round_trips_simple() {
    assert_eq!(round_trip(".foo"), ".foo");
    assert_eq!(round_trip(".foo .bar"), ".foo .bar");
    assert_eq!(round_trip(".foo > .bar"), ".foo > .bar");
    assert_eq!(round_trip(".foo:hover"), ".foo:hover");
    assert_eq!(round_trip(".foo::before"), ".foo::before");
}

#[test]
fn round_trips_attribute_and_pseudo_args() {
    assert_eq!(
        round_trip("[data-foo='bar']:nth-child(2n+1)"),
        "[data-foo='bar']:nth-child(2n+1)"
    );
    assert_eq!(round_trip(":is(.a, .b):hover"), ":is(.a, .b):hover");
}

#[test]
fn movepseudos_at_end_no_change() {
    assert_eq!(move_one(".foo::before"), ".foo::before");
}

#[test]
fn movepseudos_hoists_terminal_to_end() {
    assert_eq!(move_one(".foo::before .bar"), ".foo .bar::before");
}

#[test]
fn movepseudos_attaches_actionable_pseudo_class() {
    assert_eq!(
        move_one(".foo::file-selector-button:hover"),
        ".foo::file-selector-button:hover"
    );
}

#[test]
fn movepseudos_recurses_into_is() {
    assert_eq!(move_one(":is(.foo::before)"), ":is(.foo)::before");
}

#[test]
fn parse_splits_top_level_commas_only() {
    let list = parse_selector_list(".a:is(.b, .c), [x=','] , .d");
    assert_eq!(list.len(), 3);
    assert_eq!(serialize_selector_list(&list), ".a:is(.b, .c), [x=','], .d");
}

#[test]
fn parse_drops_trailing_combinator() {
    assert_eq!(round_trip(".a > "), ".a");
    assert_eq!(round_trip(".a ~"), ".a");
}

#[test]
fn parse_node_kinds() {
    let list = parse_selector_list("div#main.x > *&[a]::after");
    let nodes = &list[0].nodes;
    assert!(matches!(&nodes[0], SelAstNode::Tag(s) if s == "div"));
    assert!(matches!(&nodes[1], SelAstNode::Id(s) if s == "main"));
    assert!(matches!(&nodes[2], SelAstNode::Class(s) if s == "x"));
    assert!(matches!(&nodes[3], SelAstNode::Combinator(s) if s == " > "));
    assert!(matches!(&nodes[4], SelAstNode::Universal));
    assert!(matches!(&nodes[5], SelAstNode::Nesting));
    assert!(matches!(&nodes[6], SelAstNode::Attribute(s) if s == "[a]"));
    assert!(matches!(&nodes[7], SelAstNode::Pseudo { value, .. } if value == "::after"));
    assert_eq!(nodes.len(), 8);
}

#[test]
fn escaped_class_name_is_kept_whole() {
    assert_eq!(round_trip(".md\\:flex:hover"), ".md\\:flex:hover");
}

#[test]
fn movepseudos_leaves_non_jumpable_before_a_combinator_in_place() {
    // `::file-selector-button` cannot jump the combinator after it, so it
    // stays where it is.
    assert_eq!(move_one(".foo::file-selector-button .bar"), ".foo::file-selector-button .bar");
    assert_eq!(move_one(":is(.a::file-selector-button) .b"), ":is(.a::file-selector-button) .b");
    assert_eq!(move_one(".a::file-selector-button:hover .b"), ".a::file-selector-button:hover .b");
    // Without a combinator after it, it moves to the end.
    assert_eq!(move_one(".a::file-selector-button.b"), ".a.b::file-selector-button");
}

#[test]
fn movepseudos_keeps_non_movable_pseudo_class() {
    assert_eq!(move_one(".a:hover .b"), ".a:hover .b");
}

#[test]
fn non_ascii_identifiers_round_trip() {
    let list = parse_selector_list(".café > #ünïcode, p.日本:hover");
    assert_eq!(serialize_selector_list(&list), ".café > #ünïcode, p.日本:hover");
}

fn count_nodes(sel: &galeforce_compiler::selector_ast::SelectorAst) -> usize {
    sel.nodes
        .iter()
        .map(|n| match n {
            SelAstNode::Pseudo { nodes, .. } => 1 + nodes.iter().map(count_nodes).sum::<usize>(),
            _ => 1,
        })
        .sum()
}

#[test]
fn moving_pseudos_keeps_every_node() {
    for input in [
        ".a::before:hover .b",
        ".foo::file-selector-button .bar",
        ":is(.x::marker, .y)::before.z",
    ] {
        let mut list = parse_selector_list(input);
        let before = count_nodes(&list[0]);
        let moved = move_pseudos_in_selector(list.remove(0));
        assert_eq!(count_nodes(&moved), before, "{}", input);
    }
}

#[test]
fn characters_outside_the_grammar_print_back() {
    assert_eq!(round_trip("svg|a"), "svg|a");
    assert_eq!(round_trip(".a%b"), ".a%b");
}

#[test]
fn normalized_lists_print_back() {
    for input in [
        ":is(.a, .b:hover) > .c::before, .d",
        ":where(:not(.x, [y='1,2'])) ~ p, a|b, .é\\:x",
        ".a:nth-child(2n+1) + .b",
    ] {
        assert_eq!(round_trip(input), input);
    }
}
