use std::cmp::Ordering;

use galeforce_compiler::offsets::{
    var_and, var_andnot, var_bit, var_cmp, var_eq, var_is_zero, var_or, Layer, OptionStack,
    Offsets, RuleOffset, VariantOption, VAR_BITS_ZERO,
};

#[test]
fn create_bumps_per_layer_index() {
    let mut o = Offsets::new();
    let a = o.create(Layer::Utilities);
    let b = o.create(Layer::Utilities);
    let c = o.create(Layer::User);
    assert_eq!(a.index, 0);
    assert_eq!(b.index, 1);
    assert_eq!(c.index, 0);
    assert_eq!(a.layer, Layer::Utilities);
    assert_eq!(c.layer, Layer::User);
}

#[test]
fn record_variant_allocates_sequential_bits() {
    let mut o = Offsets::new();
    let a = o.record_variant("hover", 1);
    let b = o.record_variant("focus", 1);
    let c = o.record_variant("md", 1);
    assert_eq!(a.variants, var_bit(0));
    assert_eq!(b.variants, var_bit(1));
    assert_eq!(c.variants, var_bit(2));
    assert_eq!(o.reserved_variant_bits(), 3);
}

#[test]
fn record_variant_reserves_fn_count_bits() {
    let mut o = Offsets::new();
    o.record_variant("hover", 1);
    let marker = o.record_variant("marker", 2);
    let next = o.record_variant("focus", 1);
    assert_eq!(marker.variants, var_bit(1));
    assert_eq!(next.variants, var_bit(3));
}

#[test]
fn apply_variant_offset_or_s_bits_and_sets_parent_layer() {
    let mut o = Offsets::new();
    o.record_variants(vec![("hover", 1), ("md", 1)]);
    let rule = o.create(Layer::Utilities);
    let hover = o.for_variant("hover", 0).unwrap();
    let md = o.for_variant("md", 0).unwrap();
    let r1 = o.apply_variant_offset(rule, &hover, VariantOption::default());
    let r2 = o.apply_variant_offset(r1.clone(), &md, VariantOption::default());
    assert_eq!(r2.layer, Layer::Variants);
    assert_eq!(r2.parent_layer, Layer::Utilities);
    assert_eq!(r2.variants, [0u128, 0b11u128]);
}

#[test]
fn compare_layer_first() {
    let mut o = Offsets::new();
    let util = o.create(Layer::Utilities);
    let user = o.create(Layer::User);
    assert!(util.compare(&user) == Ordering::Less);
    let comp = o.create(Layer::Components);
    assert!(comp.compare(&util) == Ordering::Less);
}

#[test]
fn compare_variants_bitmask_as_number() {
    let mut o = Offsets::new();
    o.record_variants(vec![("hover", 1), ("md", 1), ("dark", 1)]);
    let mut mk = |name: &str| -> RuleOffset {
        let mut rule = o.create(Layer::Utilities);
        let bit = o.variant_bit(name).unwrap();
        rule.layer = Layer::Variants;
        rule.parent_layer = Layer::Utilities;
        rule.variants = bit;
        rule
    };
    let h = mk("hover");
    let m = mk("md");
    let d = mk("dark");
    assert!(h.compare(&m) == Ordering::Less);
    assert!(m.compare(&d) == Ordering::Less);
}

#[test]
fn compare_arbitrary_after_non_arbitrary() {
    let mut o = Offsets::new();
    let plain = o.create(Layer::Utilities);
    let arb = o.arbitrary_property("grid-template-columns");
    assert!(plain.compare(&arb) == Ordering::Less);
    assert_eq!(plain.arbitrary, 0);
    assert_eq!(arb.arbitrary, 1);
}

#[test]
fn compare_parallel_index_breaks_ties() {
    let mut o = Offsets::new();
    let utility = o.create(Layer::Utilities);
    let keyframes = o.apply_parallel_offset(utility.clone(), 0);
    let animation = o.apply_parallel_offset(utility, 1);
    assert!(keyframes.compare(&animation) == Ordering::Less);
}

#[test]
fn sort_remaps_arbitrary_variants_alphabetically() {
    let mut o = Offsets::new();
    let v_z = o.record_variant("[z_first]", 1);
    let v_a = o.record_variant("[a_second]", 1);
    let rule_z = {
        let mut r = o.create(Layer::Utilities);
        r.layer = Layer::Variants;
        r.parent_layer = Layer::Utilities;
        r.variants = v_z.variants;
        r
    };
    let rule_a = {
        let mut r = o.create(Layer::Utilities);
        r.layer = Layer::Variants;
        r.parent_layer = Layer::Utilities;
        r.variants = v_a.variants;
        r
    };
    let list = vec![(rule_a.clone(), "a"), (rule_z.clone(), "z")];
    let sorted = o.sort(list);
    let names: Vec<&str> = sorted.iter().map(|(_, t)| *t).collect();
    assert_eq!(names, vec!["a", "z"]);
}

#[test]
fn sort_assigns_property_offset_alphabetically() {
    let mut o = Offsets::new();
    let later = o.arbitrary_property("z-index");
    let earlier = o.arbitrary_property("a-prop");
    let list = vec![(later, "z"), (earlier, "a")];
    let sorted = o.sort(list);
    let names: Vec<&str> = sorted.iter().map(|(_, t)| *t).collect();
    assert_eq!(names, vec!["a", "z"]);
    assert_eq!(sorted[0].0.property_offset, 1);
    assert_eq!(sorted[1].0.property_offset, 2);
}

#[test]
fn sort_callback_runs_when_options_match() {
    fn compare_min_width(a: &VariantOption, b: &VariantOption) -> Ordering {
        let pa: u32 = a
            .value
            .as_deref()
            .and_then(|s| s.trim_end_matches("px").parse().ok())
            .unwrap_or(0);
        let pb: u32 = b
            .value
            .as_deref()
            .and_then(|s| s.trim_end_matches("px").parse().ok())
            .unwrap_or(0);
        pa.cmp(&pb)
    }

    let mut o = Offsets::new();
    o.record_variant("md", 1);
    o.record_variant("sm", 1);

    let mut mk = |name: &str, px: &str| -> RuleOffset {
        let rule = o.create(Layer::Utilities);
        let variant = RuleOffset {
            layer: Layer::Variants,
            parent_layer: Layer::Variants,
            arbitrary: 0,
            variants: o.variant_bit(name).unwrap(),
            parallel_index: 0,
            index: 0,
            property_offset: 0,
            property: String::new(),
            options: OptionStack::new(),
        };
        let option = VariantOption {
            id: 42,
            sort: true,
            value: Some(px.to_string()),
            modifier: None,
            variant: VAR_BITS_ZERO,
        };
        o.apply_variant_offset(rule, &variant, option)
    };

    let sm = mk("sm", "640px");
    let md = mk("md", "768px");
    assert!(
        sm.compare_with(&md, &compare_min_width) == Ordering::Less,
        "sm (640px) must sort before md (768px) via the sort callback"
    );
    // Without the comparator the bitmask decides: md holds the lower bit.
    assert!(sm.compare(&md) == Ordering::Greater);
}

#[test]
fn sort_with_uses_the_comparator() {
    fn by_value(a: &VariantOption, b: &VariantOption) -> Ordering {
        a.value.cmp(&b.value)
    }
    let mut o = Offsets::new();
    o.record_variant("md", 1);
    o.record_variant("sm", 1);
    let md_bit = o.variant_bit("md").unwrap();
    let sm_bit = o.variant_bit("sm").unwrap();
    let mut mk = |bit: [u128; 2], v: &str| {
        let rule = o.create(Layer::Utilities);
        let variant = RuleOffset {
            layer: Layer::Variants,
            parent_layer: Layer::Variants,
            arbitrary: 0,
            variants: bit,
            parallel_index: 0,
            index: 0,
            property_offset: 0,
            property: String::new(),
            options: OptionStack::new(),
        };
        let option = VariantOption { id: 1, sort: true, value: Some(v.to_string()), modifier: None, variant: VAR_BITS_ZERO };
        o.apply_variant_offset(rule, &variant, option)
    };
    let md = mk(md_bit, "2");
    let sm = mk(sm_bit, "1");
    let sorted = o.sort_with(vec![(md, "md"), (sm, "sm")], &by_value);
    let names: Vec<&str> = sorted.iter().map(|(_, t)| *t).collect();
    assert_eq!(names, vec!["sm", "md"]);
}

#[test]
fn var_bit_positions() {
    assert_eq!(var_bit(0), [0, 1]);
    assert_eq!(var_bit(127), [0, 1u128 << 127]);
    assert_eq!(var_bit(128), [1, 0]);
    assert_eq!(var_bit(255), [1u128 << 127, 0]);
    assert_eq!(var_bit(300), [1u128 << 127, 0]);
}

#[test]
fn var_ops_are_wordwise() {
    let a = [0b1100u128, 0b1010u128];
    let b = [0b1010u128, 0b0110u128];
    assert_eq!(var_or(a, b), [0b1110, 0b1110]);
    assert_eq!(var_and(a, b), [0b1000, 0b0010]);
    assert_eq!(var_andnot(a, b), [0b0100, 0b1000]);
    assert!(var_is_zero(VAR_BITS_ZERO));
    assert!(!var_is_zero([0, 1]));
    assert!(var_eq(a, a));
    assert!(!var_eq(a, b));
}

#[test]
fn var_cmp_high_word_first() {
    assert_eq!(var_cmp([1, 0], [0, u128::MAX]), Ordering::Greater);
    assert_eq!(var_cmp([0, 5], [0, 7]), Ordering::Less);
    assert_eq!(var_cmp([3, 5], [3, 5]), Ordering::Equal);
}

#[test]
fn layer_positions() {
    assert_eq!(Layer::Defaults.position(), 0);
    assert_eq!(Layer::Base.position(), 1);
    assert_eq!(Layer::Components.position(), 2);
    assert_eq!(Layer::Utilities.position(), 3);
    assert_eq!(Layer::User.position(), 4);
    assert_eq!(Layer::Variants.position(), 5);
}

#[test]
fn for_variant_shifts_by_parallel_index() {
    let mut o = Offsets::new();
    o.record_variant("a", 1);
    o.record_variant("b", 2);
    let b1 = o.for_variant("b", 1).unwrap();
    assert_eq!(b1.variants, var_bit(2));
    assert_eq!(b1.layer, Layer::Variants);
    assert!(o.for_variant("missing", 0).is_none());
    assert!(o.has_variant("a"));
    assert!(!o.has_variant("c"));
}

#[test]
fn record_variant_bit_keeps_first_registration() {
    let mut o = Offsets::new();
    let first = o.record_variant_bit("hover", 1);
    o.record_variant("focus", 1);
    assert_eq!(o.record_variant_bit("hover", 1), first);
    assert_eq!(o.reserved_variant_bits(), 2);
}

#[test]
fn record_variant_overflow_shares_top_bit() {
    let mut o = Offsets::new();
    o.record_variant("big", 256);
    let next = o.record_variant("late", 1);
    assert_eq!(next.variants, var_bit(255));
    assert!(o.overflow);
}

#[test]
fn sort_keeps_ties_in_input_order() {
    let mut o = Offsets::new();
    let a = o.create(Layer::Utilities);
    let b = o.create(Layer::Base);
    let list = vec![(a.clone(), "first"), (b.clone(), "base"), (a.clone(), "second"), (a.clone(), "third")];
    let sorted = o.sort(list);
    let payloads: Vec<&str> = sorted.iter().map(|(_, p)| *p).collect();
    assert_eq!(payloads, vec!["base", "first", "second", "third"]);
}

#[test]
fn record_variant_bit_leaves_state_alone_for_known_names() {
    let mut o = Offsets::new();
    o.record_variants(vec![("hover", 1), ("md", 1), ("hover", 3)]);
    assert_eq!(o.variant_bit("hover"), Some(var_bit(0)));
    assert_eq!(o.variant_bit("md"), Some(var_bit(1)));
    assert_eq!(o.reserved_variant_bits(), 2);
    assert_eq!(o.record_variant_bit("md", 5), var_bit(1));
    assert_eq!(o.reserved_variant_bits(), 2);
    assert_eq!(o.record_variant_bit("dark", 1), var_bit(2));
    assert_eq!(o.reserved_variant_bits(), 3);
}
