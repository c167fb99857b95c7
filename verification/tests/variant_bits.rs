use galeforce_compiler::offsets::{var_bit, var_or, Offsets, VAR_BITS_ZERO};
use galeforce_compiler::variant_bits::resolve_variant_bits;

fn registered() -> Offsets {
    let mut o = Offsets::new();
    o.record_variants(vec![
        ("hover", 1),
        ("group", 1),
        ("data", 1),
        ("[&.open]", 1),
        ("peer", 1),
        ("focus", 1),
    ]);
    o
}

#[test]
fn registered_names_give_their_own_bit() {
    let o = registered();
    assert_eq!(resolve_variant_bits("hover", &o), var_bit(0));
    assert_eq!(resolve_variant_bits("focus", &o), var_bit(5));
}

#[test]
fn a_modifier_is_dropped_before_the_lookup() {
    let o = registered();
    assert_eq!(resolve_variant_bits("hover/card", &o), var_bit(0));
}

#[test]
fn an_arbitrary_value_shares_its_base_bit() {
    let o = registered();
    assert_eq!(resolve_variant_bits("data-[state=open]", &o), var_bit(2));
    assert_eq!(resolve_variant_bits("aria-[expanded]", &o), VAR_BITS_ZERO);
}

#[test]
fn family_composites_combine_the_family_and_the_inner_bit() {
    let o = registered();
    assert_eq!(resolve_variant_bits("group-hover", &o), var_or(var_bit(1), var_bit(0)));
    assert_eq!(resolve_variant_bits("peer-focus/label", &o), var_or(var_bit(4), var_bit(5)));
    assert_eq!(resolve_variant_bits("group-peer-hover", &o), var_or(var_bit(1), var_or(var_bit(4), var_bit(0))));
}

#[test]
fn unknown_names_give_the_empty_mask() {
    let o = registered();
    assert_eq!(resolve_variant_bits("print", &o), VAR_BITS_ZERO);
    assert_eq!(resolve_variant_bits("", &o), VAR_BITS_ZERO);
    assert_eq!(resolve_variant_bits("group-", &o), var_bit(1));
}
