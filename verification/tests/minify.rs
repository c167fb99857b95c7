use galeforce_compiler::minify_css;

#[test]
fn removes_block_comments() {
    let input = "/* hello */ .foo { color: red; /* inline */ }";
    let result = minify_css(input);
    assert!(!result.contains("hello"), "comment should be removed");
    assert!(
        !result.contains("inline"),
        "inline comment should be removed"
    );
    assert!(result.contains(".foo"), "selector should remain");
    assert!(result.contains("color:red"), "declaration should remain");
}

#[test]
fn collapses_whitespace_around_braces_and_colons() {
    let input = ".foo  {  color :  red  ;  }";
    let result = minify_css(input);
    assert_eq!(result, ".foo{color:red}");
}

#[test]
fn removes_trailing_semicolon_before_closing_brace() {
    let input = ".a{color:red;}";
    let result = minify_css(input);
    assert_eq!(result, ".a{color:red}");
}

#[test]
fn preserves_content_inside_quoted_strings() {
    let input = r#".a { content: " "; }"#;
    let result = minify_css(input);
    assert!(
        result.contains("\" \"") || result.contains("' '"),
        "space inside quoted string must be preserved, got: {result}"
    );
    assert!(!result.ends_with(';'), "no trailing ; before }}");
}

#[test]
fn full_round_trip_multi_rule() {
    let input = r#"
            /* Generated by GaleforceCSS */
            .flex {
                display: flex;
            }
            .hidden {
                display: none;
            }
            @media (min-width: 768px) {
                .md\:flex {
                    display: flex;
                }
            }
        "#;
    let result = minify_css(input);
    assert_eq!(
        result,
        r#".flex{display:flex}.hidden{display:none}@media (min-width:768px){.md\:flex{display:flex}}"#
    );
}

#[test]
fn multiline_comment_removed() {
    let input = "/* line 1\n   line 2\n   line 3 */ .b { margin: 0; }";
    let result = minify_css(input);
    assert!(
        !result.contains("line"),
        "multiline comment must be removed"
    );
    assert_eq!(result, ".b{margin:0}");
}

#[test]
fn minify_keeps_escaped_quote_inside_string() {
    let input = ".a { content: \"a\\\" ; }\" ; }";
    assert_eq!(minify_css(input), ".a{content:\"a\\\" ; }\"}");
}

#[test]
fn minify_trims_unicode_whitespace() {
    assert_eq!(minify_css("\u{A0} .a { b: c } \u{3000}"), ".a{b:c}");
}

#[test]
fn minify_empty_input() {
    assert_eq!(minify_css(""), "");
    assert_eq!(minify_css("/* only a comment */"), "");
}

#[test]
fn minified_output_has_no_loose_whitespace_or_comments() {
    let out = minify_css("a  {\n color : red ;\t}/* c */b , c { x:y; }");
    assert_eq!(out, "a{color:red}b,c{x:y}");
    assert!(!out.contains("/*"));
    assert!(!out.contains("  "));
    assert!(!out.contains('\n') && !out.contains('\t') && !out.contains('\r'));
    for p in ["{", "}", ":", ";", ","] {
        assert!(!out.contains(&format!(" {}", p)));
        assert!(!out.contains(&format!("{} ", p)));
    }
}

#[test]
fn a_run_of_semicolons_before_a_brace_goes() {
    assert_eq!(minify_css("a{b;;}"), "a{b}");
    assert_eq!(minify_css("a { b ; ; }"), "a{b}");
    assert_eq!(minify_css("a{b;;c}"), "a{b;;c}");
    assert!(!minify_css("x{y:1;;;}z{w:2; }").contains(";}"));
}
