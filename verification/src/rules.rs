//! Generated rules, and the configured `important` mode applied to them.
use vstd::prelude::*;
use crate::config::ImportantConfig;
use crate::css_blocks::comb_scan;
use crate::css_items::{
    alpha_removed, apply_alpha_var_removal, decl_model, has_top_level_combinator, split_plain_spec,
    split_top_level_selectors, Declaration,
};
use crate::arbitrary::{maybe_wrap_var_reference, normalize_arbitrary_value, underscores_from, wrap_var_spec};
use crate::json::JsonValue;
use crate::plugins::strings_view;
use crate::theme::{opt_ref_json, resolve_theme_calls_in_value, theme_calls_spec};
use crate::directives::{chars_list_view, join_selectors, join_selectors_exec};
use crate::text::{chars_of, concat, extend_chars};

verus! {

/// A generated rule.
pub struct Rule {
    pub selectors: Vec<String>,
    pub declarations: Vec<Declaration>,
    /// Enclosing at-rules, outermost first.
    pub at_rules: Vec<String>,
    /// Whether the `important` configuration applies to the rule.
    pub respect_important: bool,
    /// The `@defaults` groups its declarations rely on.
    pub defaults_groups: Vec<String>,
}

/// A declaration as plain values: property, value, important.
pub type DeclModel = (Seq<char>, Seq<char>, bool);

/// A rule as plain values.
pub struct RuleModel {
    pub selectors: Seq<Seq<char>>,
    pub declarations: Seq<DeclModel>,
    pub at_rules: Seq<Seq<char>>,
    pub respect_important: bool,
    pub defaults_groups: Seq<Seq<char>>,
}

pub open spec fn rule_model(r: Rule) -> RuleModel {
    RuleModel {
        selectors: strings_view(r.selectors@),
        declarations: decls_model(r.declarations@),
        at_rules: strings_view(r.at_rules@),
        respect_important: r.respect_important,
        defaults_groups: strings_view(r.defaults_groups@),
    }
}

pub open spec fn rules_model(v: Seq<Rule>) -> Seq<RuleModel> {
    v.map_values(|r: Rule| rule_model(r))
}

/// One selector of a list nested under `prefix`: a selector with a
/// top-level combinator is wrapped in `:is(...)` so that the prefix does
/// not depend on where the selector's parts sit in the document.
pub open spec fn scoped_part(prefix: Seq<char>, part: Seq<char>) -> Seq<char> {
    prefix + seq![' '] + if comb_scan(part, 0, 0, 0, false) {
        seq![':', 'i', 's', '('] + part + seq![')']
    } else {
        part
    }
}

/// Every selector of the list `sel` nested under `prefix`.
pub open spec fn scope_selector_spec(prefix: Seq<char>, sel: Seq<char>) -> Seq<char> {
    join_selectors(split_plain_spec(sel).map_values(|p: Seq<char>| scoped_part(prefix, p)))
}

/// A declaration marked `!important`.
pub open spec fn marked(d: Declaration) -> Declaration {
    Declaration { property: d.property, value: d.value, important: true }
}

/// What the `important` mode makes of one rule. Rules that do not respect
/// it, and every rule when it is off, are left alone; `important: true`
/// marks every declaration; a selector nests every selector under it.
pub open spec fn important_applied(before: Rule, after: Rule, mode: ImportantConfig) -> bool {
    if !before.respect_important || mode is Off {
        after == before
    } else {
        &&& after.at_rules == before.at_rules
        &&& after.respect_important == before.respect_important
        &&& after.defaults_groups == before.defaults_groups
        &&& match mode {
            ImportantConfig::SelectorPrefix(p) => {
                &&& after.declarations == before.declarations
                &&& after.selectors@.len() == before.selectors@.len()
                &&& forall|k: int|
                    0 <= k < before.selectors@.len() ==> (#[trigger] after.selectors@[k])@
                        == scope_selector_spec(p@, before.selectors@[k]@)
            },
            _ => {
                &&& after.selectors == before.selectors
                &&& after.declarations@.len() == before.declarations@.len()
                &&& forall|j: int|
                    0 <= j < before.declarations@.len() ==> #[trigger] after.declarations@[j]
                        == marked(before.declarations@[j])
            },
        }
    }
}

/// The selector list `sel` with every selector nested under `prefix`
/// (`scope_selector_spec`).
pub fn scope_selector(prefix: &str, sel: &str) -> (r: String)
    ensures
        r@ == scope_selector_spec(prefix@, sel@),
{
    let parts = split_top_level_selectors(sel);
    let ghost pv = split_plain_spec(sel@);
    let p = chars_of(prefix);
    let mut scoped: Vec<Vec<char>> = Vec::new();
    let mut i: usize = 0;
    while i < parts.len()
        invariant
            i <= parts@.len(),
            parts@.len() == pv.len(),
            forall|k: int| 0 <= k < parts@.len() ==> #[trigger] parts@[k]@ == pv[k],
            p@ == prefix@,
            scoped@.len() == i,
            forall|k: int| 0 <= k < i ==> (#[trigger] scoped@[k])@ == scoped_part(prefix@, pv[k]),
        decreases parts@.len() - i,
    {
        let part = chars_of(parts[i].as_str());
        let mut s: Vec<char> = Vec::new();
        extend_chars(&mut s, &p);
        s.push(' ');
        if has_top_level_combinator(parts[i].as_str()) {
            s.push(':');
            s.push('i');
            s.push('s');
            s.push('(');
            extend_chars(&mut s, &part);
            s.push(')');
        } else {
            extend_chars(&mut s, &part);
        }
        assert(s@ =~= scoped_part(prefix@, pv[i as int]));
        scoped.push(s);
        i += 1;
    }
    assert(chars_list_view(scoped@) =~= pv.map_values(|q: Seq<char>| scoped_part(prefix@, q)));
    join_selectors_exec(&scoped)
}

/// Every declaration marked `!important`.
fn marked_declarations(decls: &Vec<Declaration>) -> (r: Vec<Declaration>)
    ensures
        r@.len() == decls@.len(),
        forall|j: int| 0 <= j < decls@.len() ==> #[trigger] r@[j] == marked(decls@[j]),
{
    let mut r: Vec<Declaration> = Vec::new();
    let mut j: usize = 0;
    while j < decls.len()
        invariant
            j <= decls@.len(),
            r@.len() == j,
            forall|k: int| 0 <= k < j ==> #[trigger] r@[k] == marked(decls@[k]),
        decreases decls@.len() - j,
    {
        let d = Declaration {
            property: decls[j].property.clone(),
            value: decls[j].value.clone(),
            important: true,
        };
        r.push(d);
        j += 1;
    }
    r
}

/// Every selector nested under `prefix`.
fn scoped_selectors(prefix: &str, sels: &Vec<String>) -> (r: Vec<String>)
    ensures
        r@.len() == sels@.len(),
        forall|k: int|
            0 <= k < sels@.len() ==> (#[trigger] r@[k])@ == scope_selector_spec(prefix@, sels@[k]@),
{
    let mut r: Vec<String> = Vec::new();
    let mut k: usize = 0;
    while k < sels.len()
        invariant
            k <= sels@.len(),
            r@.len() == k,
            forall|m: int|
                0 <= m < k ==> (#[trigger] r@[m])@ == scope_selector_spec(prefix@, sels@[m]@),
        decreases sels@.len() - k,
    {
        r.push(scope_selector(prefix, sels[k].as_str()));
        k += 1;
    }
    r
}

/// Apply the configured `important` mode to every rule
/// (`important_applied`, rule by rule and in order).
pub fn apply_important_mode(rules: &mut Vec<Rule>, mode: &ImportantConfig)
    ensures
        final(rules)@.len() == old(rules)@.len(),
        forall|i: int|
            0 <= i < old(rules)@.len() ==> important_applied(
                old(rules)@[i],
                #[trigger] final(rules)@[i],
                *mode,
            ),
{
    let ghost orig = rules@;
    let n = rules.len();
    let mut out: Vec<Rule> = Vec::new();
    let mut k: usize = 0;
    while rules.len() > 0
        invariant
            k + rules@.len() == orig.len(),
            orig.len() == n,
            rules@ == orig.skip(k as int),
            out@.len() == k,
            forall|i: int| 0 <= i < k ==> important_applied(orig[i], #[trigger] out@[i], *mode),
        decreases rules@.len(),
    {
        let r = rules.remove(0);
        assert(r == orig[k as int]);
        assert(rules@ =~= orig.skip(k + 1));
        let after = if !r.respect_important {
            r
        } else {
            match mode {
                ImportantConfig::Off => r,
                ImportantConfig::Bang => {
                    let declarations = marked_declarations(&r.declarations);
                    Rule {
                        selectors: r.selectors,
                        declarations,
                        at_rules: r.at_rules,
                        respect_important: r.respect_important,
                        defaults_groups: r.defaults_groups,
                    }
                },
                ImportantConfig::SelectorPrefix(p) => {
                    let selectors = scoped_selectors(p.as_str(), &r.selectors);
                    Rule {
                        selectors,
                        declarations: r.declarations,
                        at_rules: r.at_rules,
                        respect_important: r.respect_important,
                        defaults_groups: r.defaults_groups,
                    }
                },
            }
        };
        out.push(after);
        k += 1;
    }
    *rules = out;
}

/// What the variants of a candidate contribute to its rules.
pub struct AppliedVariants {
    /// The selectors the rules are written under, one rule each.
    pub selectors: Vec<String>,
    /// Enclosing at-rules, outermost first.
    pub at_rules: Vec<String>,
    /// Declarations a variant needs before the utility's own, such as
    /// `content: var(--tw-content)` for `before:`.
    pub prepend_decls: Vec<(String, String)>,
    /// Cascade variables whose alpha a variant takes out (`marker:`,
    /// `visited:`).
    pub remove_alpha_vars: Vec<String>,
}

pub open spec fn decls_model(v: Seq<Declaration>) -> Seq<(Seq<char>, Seq<char>, bool)> {
    v.map_values(|d: Declaration| decl_model(d))
}

/// The declarations the variants put first; never `!important`.
pub open spec fn prepended(applied: AppliedVariants) -> Seq<(Seq<char>, Seq<char>, bool)> {
    applied.prepend_decls@.map_values(|p: (String, String)| (p.0@, p.1@, false))
}

/// One rule per variant selector, under the variants' at-rules and
/// respecting `important`, each with the declarations `decls` and, as its
/// only selector, the variant selector followed by `suffix`.
pub open spec fn rules_per_selector(
    r: Seq<Rule>,
    applied: AppliedVariants,
    decls: Seq<(Seq<char>, Seq<char>, bool)>,
    suffix: Seq<char>,
) -> bool {
    &&& r.len() == applied.selectors@.len()
    &&& forall|k: int|
        0 <= k < r.len() ==> {
            &&& (#[trigger] r[k]).selectors@.len() == 1
            &&& r[k].selectors@[0]@ == applied.selectors@[k]@ + suffix
            &&& decls_model(r[k].declarations@) == decls
            &&& r[k].at_rules@ == applied.at_rules@
            &&& r[k].respect_important
            &&& r[k].defaults_groups@.len() == 0
        }
}

/// A copy of the strings.
fn copy_strings(v: &Vec<String>) -> (r: Vec<String>)
    ensures
        r@ == v@,
{
    let mut r: Vec<String> = Vec::new();
    let mut i: usize = 0;
    while i < v.len()
        invariant
            i <= v@.len(),
            r@ == v@.take(i as int),
        decreases v@.len() - i,
    {
        r.push(v[i].clone());
        i += 1;
        assert(r@ =~= v@.take(i as int));
    }
    assert(v@.take(v@.len() as int) =~= v@);
    r
}

/// A copy of the declarations.
fn copy_decls(v: &Vec<Declaration>) -> (r: Vec<Declaration>)
    ensures
        decls_model(r@) == decls_model(v@),
{
    let mut r: Vec<Declaration> = Vec::new();
    let mut i: usize = 0;
    while i < v.len()
        invariant
            i <= v@.len(),
            r@.len() == i,
            forall|k: int| 0 <= k < i ==> decl_model(#[trigger] r@[k]) == decl_model(v@[k]),
        decreases v@.len() - i,
    {
        r.push(Declaration {
            property: v[i].property.clone(),
            value: v[i].value.clone(),
            important: v[i].important,
        });
        i += 1;
    }
    assert(decls_model(r@) =~= decls_model(v@));
    r
}

/// One rule per variant selector, the selector followed by `suffix`,
/// each with a copy of `decls`.
fn one_rule_per_selector(applied: AppliedVariants, decls: &Vec<Declaration>, suffix: &str) -> (r: Vec<
    Rule,
>)
    ensures
        rules_per_selector(r@, applied, decls_model(decls@), suffix@),
{
    let mut r: Vec<Rule> = Vec::new();
    let mut k: usize = 0;
    while k < applied.selectors.len()
        invariant
            k <= applied.selectors@.len(),
            r@.len() == k,
            forall|m: int|
                0 <= m < k ==> {
                    &&& (#[trigger] r@[m]).selectors@.len() == 1
                    &&& r@[m].selectors@[0]@ == applied.selectors@[m]@ + suffix@
                    &&& decls_model(r@[m].declarations@) == decls_model(decls@)
                    &&& r@[m].at_rules@ == applied.at_rules@
                    &&& r@[m].respect_important
                    &&& r@[m].defaults_groups@.len() == 0
                },
        decreases applied.selectors@.len() - k,
    {
        let mut selectors: Vec<String> = Vec::new();
        selectors.push(concat(applied.selectors[k].as_str(), suffix));
        let rule = Rule {
            selectors,
            declarations: copy_decls(decls),
            at_rules: copy_strings(&applied.at_rules),
            respect_important: true,
            defaults_groups: Vec::new(),
        };
        r.push(rule);
        k += 1;
    }
    r
}

/// The value of an arbitrary property: underscores read as spaces, a
/// bare `--name` wrapped in `var(...)` where the property calls for it,
/// and `theme(...)` calls resolved.
pub open spec fn arbitrary_value_spec(
    property: Seq<char>,
    value: Seq<char>,
    config: Option<JsonValue>,
    defaults: JsonValue,
) -> Seq<char> {
    theme_calls_spec(wrap_var_spec(underscores_from(value, 0), property), config, defaults)
}

/// The rules of an arbitrary property candidate (`[property:value]`): the
/// variants' declarations, then the property with its value
/// (`arbitrary_value_spec`), important when the candidate is.
pub fn rules_for_arbitrary_property(
    property: &str,
    value: &str,
    important: bool,
    applied: AppliedVariants,
    config: Option<&JsonValue>,
    defaults: &JsonValue,
) -> (r: Vec<Rule>)
    ensures
        rules_per_selector(
            r@,
            applied,
            prepended(applied) + seq![
                (property@, arbitrary_value_spec(property@, value@, opt_ref_json(config), *defaults), important),
            ],
            Seq::empty(),
        ),
{
    let normalized = normalize_arbitrary_value(value);
    let wrapped = maybe_wrap_var_reference(normalized.as_str(), property);
    let resolved = resolve_theme_calls_in_value(wrapped.as_str(), config, defaults);
    let mut declarations: Vec<Declaration> = Vec::new();
    let mut j: usize = 0;
    while j < applied.prepend_decls.len()
        invariant
            j <= applied.prepend_decls@.len(),
            declarations@.len() == j,
            forall|m: int|
                0 <= m < j ==> decl_model(#[trigger] declarations@[m]) == (
                    applied.prepend_decls@[m].0@,
                    applied.prepend_decls@[m].1@,
                    false,
                ),
        decreases applied.prepend_decls@.len() - j,
    {
        declarations.push(Declaration {
            property: applied.prepend_decls[j].0.clone(),
            value: applied.prepend_decls[j].1.clone(),
            important: false,
        });
        j += 1;
    }
    let ghost before = declarations@;
    let last = Declaration { property: property.to_owned(), value: resolved, important };
    declarations.push(last);
    proof {
        let want = prepended(applied) + seq![
            (property@, arbitrary_value_spec(property@, value@, opt_ref_json(config), *defaults), important),
        ];
        assert forall|m: int| 0 <= m < declarations@.len() implies decls_model(declarations@)[m]
            == want[m] by {
            if m < j {
                assert(declarations@[m] == before[m]);
            }
        }
        assert(decls_model(declarations@) =~= want);
    }
    let r = one_rule_per_selector(applied, &declarations, "");
    proof {
        reveal_strlit("");
        assert(""@ =~= Seq::<char>::empty());
    }
    r
}

/// The rules of a sibling-pair utility (`space-x-reverse`, `divide-y-reverse`,
/// ...): its declarations, important when the candidate is and with the
/// alpha of the variants' `remove_alpha_vars` taken out, under each
/// variant selector followed by ` > :not([hidden]) ~ :not([hidden])`.
pub fn rules_for_sibling_static(
    sibling_declarations: &Vec<(String, String)>,
    important: bool,
    applied: AppliedVariants,
) -> (r: Vec<Rule>)
    ensures
        rules_per_selector(
            r@,
            applied,
            alpha_removed(
                sibling_declarations@.map_values(|p: (String, String)| (p.0@, p.1@, important)),
                applied.remove_alpha_vars@.map_values(|v: String| v@),
                sibling_declarations@.len() as int,
            ),
            " > :not([hidden]) ~ :not([hidden])"@,
        ),
{
    let ghost sv = sibling_declarations@.map_values(|p: (String, String)| (p.0@, p.1@, important));
    let mut declarations: Vec<Declaration> = Vec::new();
    let mut j: usize = 0;
    while j < sibling_declarations.len()
        invariant
            j <= sibling_declarations@.len(),
            declarations@.len() == j,
            forall|m: int|
                0 <= m < j ==> decl_model(#[trigger] declarations@[m]) == (
                    sibling_declarations@[m].0@,
                    sibling_declarations@[m].1@,
                    important,
                ),
        decreases sibling_declarations@.len() - j,
    {
        declarations.push(Declaration {
            property: sibling_declarations[j].0.clone(),
            value: sibling_declarations[j].1.clone(),
            important,
        });
        j += 1;
    }
    assert(decls_model(declarations@) =~= sv);
    let mut vars: Vec<&str> = Vec::new();
    let mut k: usize = 0;
    while k < applied.remove_alpha_vars.len()
        invariant
            k <= applied.remove_alpha_vars@.len(),
            vars@.len() == k,
            forall|m: int| 0 <= m < k ==> (#[trigger] vars@[m])@ == applied.remove_alpha_vars@[m]@,
        decreases applied.remove_alpha_vars@.len() - k,
    {
        vars.push(applied.remove_alpha_vars[k].as_str());
        k += 1;
    }
    assert(vars@.map_values(|v: &str| v@) =~= applied.remove_alpha_vars@.map_values(
        |v: String| v@,
    ));
    apply_alpha_var_removal(&mut declarations, vars.as_slice());
    assert(declarations@.map_values(|d: Declaration| decl_model(d)) == decls_model(declarations@));
    one_rule_per_selector(applied, &declarations, " > :not([hidden]) ~ :not([hidden])")
}

} // verus!
