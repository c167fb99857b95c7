//! The variant names an editor can offer for completion: the built-in
//! variants, those that plugins added, and the default screens.
use vstd::prelude::*;
use crate::plugins::{read_plugin_output, strings_view, PluginOutput, PluginVariant};
use crate::text::{lemma_lex_total, lemma_lex_transitive, lex_lt, str_eq, str_lt};

verus! {

/// The built-in variants, roughly by how often templates use them.
pub open spec fn builtin_variants() -> Seq<Seq<char>> {
    seq![
        "hover"@, "focus"@, "focus-visible"@, "focus-within"@, "active"@, "visited"@,
        "target"@, "first"@, "last"@, "only"@, "odd"@, "even"@, "first-of-type"@,
        "last-of-type"@, "only-of-type"@, "empty"@, "disabled"@, "enabled"@, "checked"@,
        "indeterminate"@, "default"@, "required"@, "valid"@, "invalid"@, "in-range"@,
        "out-of-range"@, "placeholder-shown"@, "autofill"@, "read-only"@, "open"@,
        "before"@, "after"@, "placeholder"@, "marker"@, "selection"@, "file"@, "backdrop"@,
        "first-letter"@, "first-line"@, "ltr"@, "rtl"@, "dark"@, "motion-safe"@,
        "motion-reduce"@, "print"@, "portrait"@, "landscape"@, "contrast-more"@,
        "contrast-less"@, "forced-colors"@, "*"@, "has"@, "group"@, "peer"@,
    ]
}

/// The default screen names.
pub open spec fn default_screen_names() -> Seq<Seq<char>> {
    seq!["sm"@, "md"@, "lg"@, "xl"@, "2xl"@]
}

/// Whether a variant of the recorded plugin output is named `x`.
pub open spec fn plugin_offers(recorded: Option<PluginOutput>, x: Seq<char>) -> bool {
    match recorded {
        Some(o) => exists|k: int| 0 <= k < o.variants@.len() && (#[trigger] o.variants@[k]).name@ == x,
        None => false,
    }
}

/// Whether `x` is a variant name worth offering.
pub open spec fn offered_variant(recorded: Option<PluginOutput>, x: Seq<char>) -> bool {
    ||| builtin_variants().contains(x)
    ||| plugin_offers(recorded, x)
    ||| default_screen_names().contains(x)
}

/// Whether one of the strings is `x`.
pub open spec fn listed(v: Seq<String>, x: Seq<char>) -> bool {
    exists|k: int| 0 <= k < v.len() && (#[trigger] v[k])@ == x
}

/// Strictly ascending in code point order, which is `String`'s order.
pub open spec fn ascending(v: Seq<String>) -> bool {
    forall|i: int, j: int| 0 <= i < j < v.len() ==> lex_lt(#[trigger] v[i]@, #[trigger] v[j]@)
}

/// The built-in variant names (`builtin_variants`).
pub fn built_in_variant_names() -> (r: Vec<String>)
    ensures
        strings_view(r@) == builtin_variants(),
{
    let names: Vec<&str> = vec![
        "hover", "focus", "focus-visible", "focus-within", "active", "visited", "target",
        "first", "last", "only", "odd", "even", "first-of-type", "last-of-type", "only-of-type",
        "empty", "disabled", "enabled", "checked", "indeterminate", "default", "required",
        "valid", "invalid", "in-range", "out-of-range", "placeholder-shown", "autofill",
        "read-only", "open", "before", "after", "placeholder", "marker", "selection", "file",
        "backdrop", "first-letter", "first-line", "ltr", "rtl", "dark", "motion-safe",
        "motion-reduce", "print", "portrait", "landscape", "contrast-more", "contrast-less",
        "forced-colors", "*", "has", "group", "peer",
    ];
    let r = owned(&names);
    assert(strings_view(r@) =~= builtin_variants());
    r
}

/// Owned copies of the names, in order.
fn owned(names: &Vec<&str>) -> (r: Vec<String>)
    ensures
        r@.len() == names@.len(),
        forall|i: int| 0 <= i < names@.len() ==> (#[trigger] r@[i])@ == names@[i]@,
{
    let mut r: Vec<String> = Vec::new();
    let mut i: usize = 0;
    while i < names.len()
        invariant
            i <= names@.len(),
            r@.len() == i,
            forall|k: int| 0 <= k < i ==> (#[trigger] r@[k])@ == names@[k]@,
        decreases names@.len() - i,
    {
        r.push(names[i].to_owned());
        i += 1;
    }
    r
}

proof fn lemma_listed_view(v: Seq<String>, x: Seq<char>)
    ensures
        listed(v, x) <==> strings_view(v).contains(x),
{
    if listed(v, x) {
        let k = choose|k: int| 0 <= k < v.len() && (#[trigger] v[k])@ == x;
        assert(strings_view(v)[k] == x);
    }
    if strings_view(v).contains(x) {
        let k = choose|k: int| 0 <= k < strings_view(v).len() && strings_view(v)[k] == x;
        assert(v[k]@ == x);
    }
}

/// Add `s` to an ascending list unless it is there already.
fn add_name(out: &mut Vec<String>, s: String)
    requires
        ascending(old(out)@),
    ensures
        ascending(final(out)@),
        forall|x: Seq<char>| listed(final(out)@, x) <==> (listed(old(out)@, x) || x == s@),
{
    let ghost sv = s@;
    let ghost before = out@;
    let mut pos: usize = 0;
    while pos < out.len() && str_lt(out[pos].as_str(), s.as_str())
        invariant
            pos <= out@.len(),
            out@ == before,
            sv == s@,
            forall|i: int| 0 <= i < pos ==> lex_lt((#[trigger] out@[i])@, sv),
        decreases out@.len() - pos,
    {
        pos += 1;
    }
    if pos < out.len() && str_eq(out[pos].as_str(), s.as_str()) {
        proof {
            assert forall|x: Seq<char>| listed(out@, x) <==> (listed(before, x) || x == sv) by {
                if x == sv {
                    assert(before[pos as int]@ == x);
                }
            }
        }
        return;
    }
    proof {
        if pos < before.len() {
            lemma_lex_total(before[pos as int]@, sv);
            assert forall|j: int| pos <= j < before.len() implies lex_lt(
                sv,
                (#[trigger] before[j])@,
            ) by {
                if j > pos {
                    lemma_lex_transitive(sv, before[pos as int]@, before[j]@);
                }
            }
        }
    }
    out.insert(pos, s);
    proof {
        let after = out@;
        assert(after[pos as int]@ == sv);
        assert forall|i: int| 0 <= i < after.len() && i != pos implies #[trigger] after[i] == (
        if i < pos {
            before[i]
        } else {
            before[i - 1]
        }) by {}
        assert forall|i: int, j: int| 0 <= i < j < after.len() implies lex_lt(
            #[trigger] after[i]@,
            #[trigger] after[j]@,
        ) by {
            if i < pos && j > pos {
                lemma_lex_transitive(after[i]@, sv, after[j]@);
            }
        }
        assert forall|x: Seq<char>| listed(after, x) <==> (listed(before, x) || x == sv) by {
            if listed(after, x) {
                let k = choose|k: int| 0 <= k < after.len() && (#[trigger] after[k])@ == x;
                if k < pos {
                    assert(before[k]@ == x);
                } else if k > pos {
                    assert(before[k - 1]@ == x);
                }
            }
            if listed(before, x) {
                let k = choose|k: int| 0 <= k < before.len() && (#[trigger] before[k])@ == x;
                if k < pos {
                    assert(after[k]@ == x);
                } else {
                    assert(after[k + 1]@ == x);
                }
            }
            if x == sv {
                assert(after[pos as int]@ == x);
            }
        }
    }
}

/// Add every name of `names` to an ascending list, skipping those that
/// are there already.
fn add_names(out: &mut Vec<String>, names: &Vec<String>)
    requires
        ascending(old(out)@),
    ensures
        ascending(final(out)@),
        forall|x: Seq<char>|
            listed(final(out)@, x) <==> (listed(old(out)@, x) || listed(names@, x)),
{
    let ghost start = out@;
    let mut i: usize = 0;
    while i < names.len()
        invariant
            i <= names@.len(),
            ascending(out@),
            forall|x: Seq<char>|
                listed(out@, x) <==> (listed(start, x) || listed(names@.take(i as int), x)),
        decreases names@.len() - i,
    {
        let ghost mid = out@;
        add_name(out, names[i].clone());
        proof {
            let t = names@.take(i as int);
            let u = names@.take(i + 1);
            assert forall|x: Seq<char>|
                listed(out@, x) <==> (listed(start, x) || listed(u, x)) by {
                assert(listed(mid, x) <==> (listed(start, x) || listed(t, x)));
                if listed(t, x) {
                    let k = choose|k: int| 0 <= k < t.len() && (#[trigger] t[k])@ == x;
                    assert(u[k]@ == x);
                }
                if listed(u, x) {
                    let k = choose|k: int| 0 <= k < u.len() && (#[trigger] u[k])@ == x;
                    if k < i {
                        assert(t[k]@ == x);
                    } else {
                        assert(x == names@[i as int]@);
                    }
                }
                if x == names@[i as int]@ {
                    assert(u[i as int]@ == x);
                }
            }
        }
        i += 1;
    }
    assert(names@.take(names@.len() as int) =~= names@);
}

/// The names of the plugin variants, in order.
fn variant_names_of(variants: &Vec<PluginVariant>) -> (r: Vec<String>)
    ensures
        r@.len() == variants@.len(),
        forall|k: int| 0 <= k < variants@.len() ==> (#[trigger] r@[k])@ == variants@[k].name@,
{
    let mut r: Vec<String> = Vec::new();
    let mut i: usize = 0;
    while i < variants.len()
        invariant
            i <= variants@.len(),
            r@.len() == i,
            forall|k: int| 0 <= k < i ==> (#[trigger] r@[k])@ == variants@[k].name@,
        decreases variants@.len() - i,
    {
        r.push(variants[i].name.clone());
        i += 1;
    }
    r
}

/// Every variant name worth offering, each once and in ascending order:
/// the built-in variants, the variants of the recorded plugin output,
/// and the default screens.
pub fn list_variant_names(recorded: Option<PluginOutput>) -> (r: Vec<String>)
    ensures
        ascending(r@),
        forall|x: Seq<char>| listed(r@, x) <==> offered_variant(recorded, x),
{
    let output = read_plugin_output(recorded);
    let mut out: Vec<String> = Vec::new();
    let builtins = built_in_variant_names();
    add_names(&mut out, &builtins);
    let plugin_names = variant_names_of(&output.variants);
    add_names(&mut out, &plugin_names);
    let screen_strs: Vec<&str> = vec!["sm", "md", "lg", "xl", "2xl"];
    let screens = owned(&screen_strs);
    assert(strings_view(screens@) =~= default_screen_names());
    add_names(&mut out, &screens);
    proof {
        assert forall|x: Seq<char>| listed(out@, x) <==> offered_variant(recorded, x) by {
            lemma_listed_view(builtins@, x);
            lemma_listed_view(screens@, x);
            if listed(plugin_names@, x) {
                let k = choose|k: int| 0 <= k < plugin_names@.len() && (#[trigger] plugin_names@[k])@ == x;
                assert(output.variants@[k].name@ == x);
            }
            if plugin_offers(recorded, x) {
                let o = recorded->Some_0;
                let k = choose|k: int| 0 <= k < o.variants@.len() && (#[trigger] o.variants@[k]).name@ == x;
                assert(plugin_names@[k]@ == x);
            }
        }
    }
    out
}

} // verus!
