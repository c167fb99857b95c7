//! What an `@tailwind <layer>;` directive is replaced by: the user's own
//! `@layer` content and the compiled candidates for `utilities` and
//! `components`; the defaults, preflight, plugin `addBase` rules and the
//! user's base layer for `base`.
use vstd::prelude::*;
use crate::config::{read_important_config, ImportantConfig};
use crate::css_blocks::{ais_scan, apply_important_selector_to_block, tag_decls_important, tag_scan};
use crate::directive_calls::{warning_view, Warning, WarningModel};
use crate::directives::{optimize_universal_defaults_for_apply, optimize_universal_defaults_spec, plan_addbase_emission, plan_addbase_spec};
use crate::config::important_config_spec;
use crate::json::{json_get, json_str, JsonValue};
use crate::plugin_match::{lemma_lifted_model, lifted_model, PluginRuleModel};
use crate::plugins::{read_plugin_output, rules_lifted, strings_view, DeclModel, PluginOutput, PluginRule};
use crate::text::{append_str, concat};
use crate::theme::opt_ref_json;

verus! {

/// The bodies of the user's `@layer base|components|utilities` blocks,
/// already processed.
pub struct UserLayers {
    pub base: String,
    pub components: String,
    pub utilities: String,
}

/// What the layers are made of.
pub struct LayerSources {
    /// The compiled candidate rules of the utilities layer.
    pub compiled_utilities: String,
    /// The compiled candidate rules of the components layer.
    pub compiled_components: String,
    pub user_layers: UserLayers,
    /// Whether the preflight reset is written.
    pub preflight_enabled: bool,
    /// The scanned candidate classes.
    pub candidate_set: Vec<String>,
    /// The universal block of cascade-variable defaults.
    pub base_cascade_vars: String,
    /// The preflight reset.
    pub base_preflight: String,
}

/// The `at` rules opened innermost-last, outermost written first
/// reversed: `<at[n-1]> { <at[n-2]> { … <at[0]> { `.
pub open spec fn at_chain(ats: Seq<Seq<char>>) -> Seq<char>
    decreases ats.len(),
{
    if ats.len() == 0 {
        Seq::empty()
    } else {
        ats.last() + " { "@ + at_chain(ats.drop_last())
    }
}

/// ` } ` written `n` times.
pub open spec fn closers(n: nat) -> Seq<char>
    decreases n,
{
    if n == 0 {
        Seq::empty()
    } else {
        closers((n - 1) as nat) + " } "@
    }
}

/// `prop: value;` for each declaration, ` !important` before the `;`
/// when it is important or `force` is set.
pub open spec fn base_decls_text(ds: Seq<DeclModel>, force: bool) -> Seq<char>
    decreases ds.len(),
{
    if ds.len() == 0 {
        Seq::empty()
    } else {
        let d = ds.last();
        base_decls_text(ds.drop_last(), force) + d.0 + ": "@ + d.1 + (if d.2 || force {
            " !important"@
        } else {
            Seq::empty()
        }) + "; "@
    }
}

/// The text of one plugin `addBase` rule, when `plan_addbase_spec` keeps
/// it: inside its at-rules, its kept selectors, its declarations.
pub open spec fn addbase_rule_text(r: PluginRuleModel, cands: Seq<Seq<char>>) -> Seq<char> {
    match plan_addbase_spec(r.selector, cands) {
        (Some(sel), force) => at_chain(r.at_rules) + sel + " { "@ + base_decls_text(
            r.declarations,
            force,
        ) + " }"@ + closers(r.at_rules.len()),
        (None, _) => Seq::empty(),
    }
}

/// The plugin `addBase` rules, as read, rule by rule.
pub open spec fn addbase_text(rules: Seq<PluginRule>, cands: Seq<Seq<char>>) -> Seq<char>
    decreases rules.len(),
{
    if rules.len() == 0 {
        Seq::empty()
    } else {
        addbase_text(rules.drop_last(), cands) + addbase_rule_text(lifted_model(rules.last()), cands)
    }
}

pub open spec fn recorded_base(recorded: Option<PluginOutput>) -> Seq<PluginRule> {
    match recorded {
        Some(o) => o.base@,
        None => Seq::empty(),
    }
}

/// The base layer: `config.__resolvedBase` when it is a string, else the
/// cascade-variable defaults (unless universal defaults are optimized)
/// and the preflight reset (when enabled); then the plugin `addBase`
/// rules and the user's base layer.
pub open spec fn base_layer_spec(
    src: LayerSources,
    config: Option<&JsonValue>,
    recorded: Option<PluginOutput>,
) -> Seq<char> {
    let resolved = match config {
        Some(c) => match json_get(*c, "__resolvedBase"@) {
            Some(v) => json_str(v),
            None => None,
        },
        None => None,
    };
    (match resolved {
        Some(s) => s,
        None => (if !optimize_universal_defaults_spec(config) {
            src.base_cascade_vars@
        } else {
            Seq::empty()
        }) + (if src.preflight_enabled {
            src.base_preflight@
        } else {
            Seq::empty()
        }),
    }) + addbase_text(recorded_base(recorded), strings_view(src.candidate_set@))
        + src.user_layers.base@
}

/// The utilities layer: the user's utilities layer with the `important`
/// setting applied (declarations marked, or selectors nested), then the
/// compiled utilities.
pub open spec fn utilities_layer_spec(src: LayerSources, config: Option<&JsonValue>) -> Seq<char> {
    let u = src.user_layers.utilities@;
    (match important_config_spec(opt_ref_json(config)) {
        Some(None) => tag_scan(u, 0),
        Some(Some(sel)) => ais_scan(u, sel, 0, 0, -1),
        None => u,
    }) + src.compiled_utilities@
}

/// The text of a known layer; `None` for an unknown one.
pub open spec fn layer_spec(
    layer: Seq<char>,
    src: LayerSources,
    config: Option<&JsonValue>,
    recorded: Option<PluginOutput>,
) -> Option<Seq<char>> {
    if layer == "utilities"@ {
        Some(utilities_layer_spec(src, config))
    } else if layer == "base"@ {
        Some(base_layer_spec(src, config, recorded))
    } else if layer == "components"@ {
        Some(src.compiled_components@ + src.user_layers.components@)
    } else {
        None
    }
}

/// The warning for an unknown layer.
pub open spec fn unknown_layer_warning(layer: Seq<char>) -> WarningModel {
    ("unknown-tailwind-layer"@, "`@tailwind "@ + layer + ";` is not a recognized layer"@)
}

/// Append the at-rule chain (`at_chain`).
fn push_at_chain(out: &mut String, ats: &Vec<String>)
    ensures
        final(out)@ == old(out)@ + at_chain(strings_view(ats@)),
{
    let ghost av = strings_view(ats@);
    let mut k: usize = ats.len();
    let ghost start = out@;
    assert(av.take(k as int) =~= av);
    while k > 0
        invariant
            k <= ats@.len(),
            av == strings_view(ats@),
            start + at_chain(av) == out@ + at_chain(av.take(k as int)),
        decreases k,
    {
        let ghost t = av.take(k as int);
        assert(t.drop_last() =~= av.take(k - 1));
        assert(t.last() == ats@[k - 1]@);
        append_str(out, ats[k - 1].as_str());
        append_str(out, " { ");
        k -= 1;
        assert(out@ + at_chain(av.take(k as int)) =~= start + at_chain(av));
    }
    assert(av.take(0) =~= Seq::<Seq<char>>::empty());
    assert(out@ =~= start + at_chain(av));
}

/// Append ` } ` `n` times (`closers`).
fn push_closers(out: &mut String, n: usize)
    ensures
        final(out)@ == old(out)@ + closers(n as nat),
{
    let ghost start = out@;
    let mut k: usize = 0;
    while k < n
        invariant
            k <= n,
            out@ == start + closers(k as nat),
        decreases n - k,
    {
        append_str(out, " } ");
        k += 1;
        assert(out@ =~= start + closers(k as nat));
    }
}

/// Append the text of one lifted plugin `addBase` rule
/// (`addbase_rule_text`).
fn push_addbase_rule(out: &mut String, rule: &PluginRule, candidate_set: &Vec<String>)
    ensures
        final(out)@ == old(out)@ + addbase_rule_text(
            crate::plugin_match::plugin_rule_model(*rule),
            strings_view(candidate_set@),
        ),
{
    let ghost m = crate::plugin_match::plugin_rule_model(*rule);
    let emission = plan_addbase_emission(rule.selector.as_str(), candidate_set);
    match emission.selector {
        None => {
            assert(out@ =~= old(out)@ + Seq::<char>::empty());
        },
        Some(sel) => {
            let ghost start = out@;
            push_at_chain(out, &rule.at_rules);
            append_str(out, sel.as_str());
            append_str(out, " { ");
            let ghost mid = out@;
            let mut j: usize = 0;
            while j < rule.declarations.len()
                invariant
                    j <= rule.declarations@.len(),
                    m == crate::plugin_match::plugin_rule_model(*rule),
                    out@ == mid + base_decls_text(m.declarations.take(j as int), emission.force_important),
                decreases rule.declarations@.len() - j,
            {
                let d = &rule.declarations[j];
                assert(m.declarations.take(j + 1).drop_last() =~= m.declarations.take(j as int));
                assert(m.declarations.take(j + 1).last() == (d.property@, d.value@, d.important));
                let ghost before = out@;
                append_str(out, d.property.as_str());
                append_str(out, ": ");
                append_str(out, d.value.as_str());
                if d.important || emission.force_important {
                    append_str(out, " !important");
                } else {
                    assert(out@ =~= out@ + Seq::<char>::empty());
                }
                append_str(out, "; ");
                j += 1;
                assert(out@ =~= mid + base_decls_text(m.declarations.take(j as int), emission.force_important));
            }
            assert(m.declarations.take(rule.declarations@.len() as int) =~= m.declarations);
            append_str(out, " }");
            push_closers(out, rule.at_rules.len());
            assert(out@ =~= start + (at_chain(m.at_rules) + sel@ + " { "@ + base_decls_text(
                m.declarations,
                emission.force_important,
            ) + " }"@ + closers(m.at_rules.len())));
        },
    }
}

/// Append the plugin `addBase` rules (`addbase_text`).
fn push_addbase_rules(out: &mut String, recorded: Option<PluginOutput>, candidate_set: &Vec<String>)
    ensures
        final(out)@ == old(out)@ + addbase_text(recorded_base(recorded), strings_view(candidate_set@)),
{
    let ghost rec = recorded_base(recorded);
    let output = read_plugin_output(recorded);
    let base = output.base;
    assert(rules_lifted(rec, base@));
    let ghost start = out@;
    let mut k: usize = 0;
    while k < base.len()
        invariant
            k <= base@.len(),
            rules_lifted(rec, base@),
            out@ == start + addbase_text(rec.take(k as int), strings_view(candidate_set@)),
        decreases base@.len() - k,
    {
        proof {
            lemma_lifted_model(rec[k as int], base@[k as int]);
            assert(rec.take(k + 1).drop_last() =~= rec.take(k as int));
            assert(rec.take(k + 1).last() == rec[k as int]);
        }
        push_addbase_rule(out, &base[k], candidate_set);
        k += 1;
        assert(out@ =~= start + addbase_text(rec.take(k as int), strings_view(candidate_set@)));
    }
    assert(rec.take(base@.len() as int) =~= rec);
}

/// Write what `@tailwind <layer>;` stands for (`layer_spec`) to `out`; an
/// unknown layer writes nothing and adds the `unknown-tailwind-layer`
/// warning.
pub fn emit_tailwind_layer(
    layer: &str,
    src: &LayerSources,
    config: Option<&JsonValue>,
    recorded: Option<PluginOutput>,
    out: &mut String,
    warnings: &mut Vec<Warning>,
)
    ensures
        match layer_spec(layer@, *src, config, recorded) {
            Some(t) => final(out)@ == old(out)@ + t && final(warnings)@ == old(warnings)@,
            None => final(out)@ == old(out)@ && final(warnings)@.len() == old(warnings)@.len() + 1
                && final(warnings)@.take(old(warnings)@.len() as int) == old(warnings)@
                && warning_view(final(warnings)@.last()) == unknown_layer_warning(layer@),
        },
{
    if crate::text::str_eq(layer, "utilities") {
        let ghost start = out@;
        match read_important_config(config) {
            ImportantConfig::Bang => {
                append_str(out, tag_decls_important(src.user_layers.utilities.as_str()).as_str());
            },
            ImportantConfig::SelectorPrefix(sel) => {
                append_str(
                    out,
                    apply_important_selector_to_block(src.user_layers.utilities.as_str(), sel.as_str()).as_str(),
                );
            },
            ImportantConfig::Off => {
                append_str(out, src.user_layers.utilities.as_str());
            },
        }
        append_str(out, src.compiled_utilities.as_str());
        assert(out@ =~= start + utilities_layer_spec(*src, config));
    } else if crate::text::str_eq(layer, "base") {
        let ghost start = out@;
        let resolved: Option<&str> = match config {
            Some(c) => match c.get("__resolvedBase") {
                Some(v) => v.as_str(),
                None => None,
            },
            None => None,
        };
        match resolved {
            Some(s) => {
                append_str(out, s);
            },
            None => {
                let ghost s0 = out@;
                if !optimize_universal_defaults_for_apply(config) {
                    append_str(out, src.base_cascade_vars.as_str());
                }
                let ghost s1 = out@;
                if src.preflight_enabled {
                    append_str(out, src.base_preflight.as_str());
                }
                assert(out@ =~= s0 + ((if !optimize_universal_defaults_spec(config) {
                    src.base_cascade_vars@
                } else {
                    Seq::empty()
                }) + (if src.preflight_enabled {
                    src.base_preflight@
                } else {
                    Seq::empty()
                })));
            },
        }
        let ghost mid = out@;
        push_addbase_rules(out, recorded, &src.candidate_set);
        append_str(out, src.user_layers.base.as_str());
        assert(out@ =~= start + base_layer_spec(*src, config, recorded));
    } else if crate::text::str_eq(layer, "components") {
        let ghost start = out@;
        append_str(out, src.compiled_components.as_str());
        append_str(out, src.user_layers.components.as_str());
        assert(out@ =~= start + (src.compiled_components@ + src.user_layers.components@));
    } else {
        let message = concat(concat("`@tailwind ", layer).as_str(), ";` is not a recognized layer");
        warnings.push(Warning { code: "unknown-tailwind-layer".to_owned(), message });
        assert(warnings@.take(old(warnings)@.len() as int) =~= old(warnings)@);
    }
}

} // verus!
