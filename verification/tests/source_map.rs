use galeforce_compiler::source_map::{append_inline_source_map, build_source_map};

#[test]
fn source_map_one_line() {
    let map = build_source_map(".a{color:red}", "input.css", ".a { color: red }");
    assert_eq!(
        map,
        "{\"version\":3,\"sources\":[\"input.css\"],\"sourcesContent\":[\".a { color: red }\"],\"names\":[],\"mappings\":\"AAAA\"}"
    );
}

#[test]
fn source_map_counts_lines_like_str_lines() {
    let m3 = build_source_map("a\nb\nc", "x.css", "");
    assert!(m3.contains("\"mappings\":\"AAAA;AAAA;AAAA\""));
    let m_trailing = build_source_map("a\nb\n", "x.css", "");
    assert!(m_trailing.contains("\"mappings\":\"AAAA;AAAA\""));
    let m_empty = build_source_map("", "x.css", "");
    assert!(m_empty.contains("\"mappings\":\"AAAA\""));
}

#[test]
fn source_map_escapes_strings() {
    let map = build_source_map("x", "a\"b.css", "line1\nline2");
    assert!(map.contains("\"sources\":[\"a\\\"b.css\"]"));
    assert!(map.contains("\"sourcesContent\":[\"line1\\nline2\"]"));
}

#[test]
fn inline_source_map_comment() {
    let mut css = String::from(".a{}");
    append_inline_source_map(&mut css, "{}");
    assert_eq!(css, ".a{}\n/*# sourceMappingURL=data:application/json;base64,e30= */\n");
}
