use galeforce_compiler::user_cache::{build_user_apply_cache_public, walk_for_user_cache, UserApplyCache};

const SHEET: &str = ".a { color: red } @media (min-width: 1px) { .a, span { x: y } } main { @apply !b hover:c !important; } @layer utilities { .u { z: 1 } } @keyframes k { from { .q { } } }";

#[test]
fn rules_are_filed_under_their_classes() {
    let cache = build_user_apply_cache_public(SHEET);
    assert_eq!(cache.next_source_order, 4);
    let a = cache.entries_for("a");
    assert_eq!(a.len(), 2);
    assert_eq!(a[0].selector, ".a");
    assert_eq!(a[0].body, " color: red ");
    assert!(a[0].at_rules.is_empty());
    assert_eq!(a[0].source_order, 1);
    assert_eq!(a[1].selector, ".a, span");
    assert_eq!(a[1].at_rules, vec!["@media (min-width: 1px)".to_string()]);
    assert_eq!(a[1].source_order, 2);
    assert!(!a[1].in_layer_utility);
    let u = cache.entries_for("u");
    assert_eq!(u.len(), 1);
    assert!(u[0].in_layer_utility);
    assert_eq!(u[0].source_order, 4);
    assert!(cache.entries_for("q").is_empty());
    assert!(cache.entries_for("span").is_empty());
}

#[test]
fn apply_tokens_name_classes() {
    let cache = build_user_apply_cache_public(SHEET);
    assert!(cache.is_applied("b"));
    assert!(cache.is_applied("c"));
    assert!(!cache.is_applied("important"));
    assert!(!cache.is_applied("hover:c"));
    assert_eq!(cache.applied_classes, vec!["b".to_string(), "c".to_string()]);
}

#[test]
fn the_walk_continues_a_cache() {
    let mut cache = UserApplyCache::default();
    walk_for_user_cache(".x { a: b }", &mut cache, &["@supports (a: b)".to_string()], true);
    walk_for_user_cache(".x { c: d } @responsive { .y { e: f } }", &mut cache, &[], false);
    let x = cache.entries_for("x");
    assert_eq!(x.len(), 2);
    assert_eq!(x[0].at_rules, vec!["@supports (a: b)".to_string()]);
    assert!(x[0].in_layer_utility);
    assert_eq!(x[1].source_order, 2);
    let y = cache.entries_for("y");
    assert!(y[0].in_layer_utility);
    assert!(y[0].at_rules.is_empty());
    assert_eq!(cache.next_source_order, 3);
}
