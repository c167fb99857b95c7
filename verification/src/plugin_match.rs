//! Finding the plugin rules a candidate class triggers: by the rule's
//! primary class, by the class its `matchUtilities` group was registered
//! under, or by any class its selector references; the configured prefix
//! and CSS escapes in plugin class names are allowed for.
use vstd::prelude::*;
use crate::class_form::{config_prefix, modifier_text, render_class_form_no_modifier, Modifier};
use crate::class_subst::{
    alias_scan, alias_substitution_target, hit_parts, primary_subst_spec,
    substitute_class_in_selector_list, substitute_primary_class_in_selector_list,
};
use crate::css_items::{split_plain_spec, Declaration};
use crate::directives::join_selectors;
use crate::rules::{decls_model, prepended, rule_model, rules_model, AppliedVariants, DeclModel as RuleDecl, Rule, RuleModel};
use crate::css_items::{strip_css_escapes, unescape_from};
use crate::json::JsonValue;
use crate::plugins::{
    decls_view, lift_important_spec, opt_string, primary_class_spec, read_plugin_output,
    refs_from, rule_lifted, rules_lifted, strings_view, DeclModel, PluginOutput, PluginRule,
};
use crate::text::{chars_of, concat, str_eq};
use crate::theme::opt_ref_json;

verus! {

/// A plugin rule as plain values.
pub struct PluginRuleModel {
    pub selector: Seq<char>,
    pub declarations: Seq<DeclModel>,
    pub at_rules: Seq<Seq<char>>,
    pub respect_important: bool,
    pub group_class: Option<Seq<char>>,
}

pub open spec fn plugin_rule_model(r: PluginRule) -> PluginRuleModel {
    PluginRuleModel {
        selector: r.selector@,
        declarations: decls_view(r.declarations@),
        at_rules: strings_view(r.at_rules@),
        respect_important: r.respect_important,
        group_class: opt_string(r.group_class),
    }
}

pub open spec fn plugin_rules_model(v: Seq<PluginRule>) -> Seq<PluginRuleModel> {
    v.map_values(|r: PluginRule| plugin_rule_model(r))
}

/// A recorded rule as reading the plugin output makes it: `!important`
/// lifted out of its declaration values.
pub open spec fn lifted_model(r: PluginRule) -> PluginRuleModel {
    PluginRuleModel {
        selector: r.selector@,
        declarations: decls_view(r.declarations@).map_values(|d: DeclModel| lift_important_spec(d)),
        at_rules: strings_view(r.at_rules@),
        respect_important: r.respect_important,
        group_class: opt_string(r.group_class),
    }
}

pub proof fn lemma_lifted_model(before: PluginRule, after: PluginRule)
    requires
        rule_lifted(before, after),
    ensures
        plugin_rule_model(after) == lifted_model(before),
{
    assert(decls_view(after.declarations@) =~= decls_view(before.declarations@).map_values(
        |d: DeclModel| lift_important_spec(d),
    ));
}

/// The class name with the configured prefix in front, when a prefix is
/// configured.
pub open spec fn prefixed_form(config: Option<JsonValue>, class_name: Seq<char>) -> Option<Seq<char>> {
    let p = config_prefix(config);
    if p.len() > 0 {
        Some(p + class_name)
    } else {
        None
    }
}

/// `c` is the class name, or its prefixed form.
pub open spec fn names_class(c: Seq<char>, class_name: Seq<char>, pf: Option<Seq<char>>) -> bool {
    c == class_name || (pf is Some && c == pf->0)
}

/// `c` names the class as it is, or once its CSS escapes are taken out.
pub open spec fn class_hits(c: Seq<char>, class_name: Seq<char>, pf: Option<Seq<char>>) -> bool {
    names_class(c, class_name, pf) || (c.contains('\\') && names_class(
        unescape_from(c, 0),
        class_name,
        pf,
    ))
}

/// Whether a rule is triggered by the class: its primary class hits; or,
/// for a rule of a `matchUtilities` group, the group's class is the class;
/// or, for any other rule, one of the classes its selector references
/// (outside `:not(...)`) hits.
pub open spec fn rule_hits(
    selector: Seq<char>,
    group: Option<Seq<char>>,
    class_name: Seq<char>,
    pf: Option<Seq<char>>,
) -> bool {
    ||| match primary_class_spec(selector) {
        Some(c) => class_hits(c, class_name, pf),
        None => false,
    }
    ||| match group {
        Some(g) => names_class(g, class_name, pf),
        None => exists|k: int|
            0 <= k < refs_from(selector, 0, 0).len() && class_hits(
                #[trigger] refs_from(selector, 0, 0)[k],
                class_name,
                pf,
            ),
    }
}

/// The rules of `v` the class triggers, as read.
pub open spec fn hits(v: Seq<PluginRule>, class_name: Seq<char>, pf: Option<Seq<char>>) -> Seq<
    PluginRuleModel,
>
    decreases v.len(),
{
    if v.len() == 0 {
        Seq::empty()
    } else {
        hits(v.drop_last(), class_name, pf) + if rule_hits(
            v.last().selector@,
            opt_string(v.last().group_class),
            class_name,
            pf,
        ) {
            seq![lifted_model(v.last())]
        } else {
            Seq::empty()
        }
    }
}

pub open spec fn recorded_utilities(recorded: Option<PluginOutput>) -> Seq<PluginRule> {
    match recorded {
        Some(o) => o.utilities@,
        None => Seq::empty(),
    }
}

pub open spec fn recorded_components(recorded: Option<PluginOutput>) -> Seq<PluginRule> {
    match recorded {
        Some(o) => o.components@,
        None => Seq::empty(),
    }
}

/// Whether `c` names the class, or its prefixed form (`names_class`).
fn names_class_exec(c: &str, class_name: &str, pf: &Option<String>) -> (r: bool)
    ensures
        r == names_class(c@, class_name@, opt_string(*pf)),
{
    if str_eq(c, class_name) {
        return true;
    }
    match pf {
        Some(p) => str_eq(c, p.as_str()),
        None => false,
    }
}

/// `class_hits` on executable values.
fn class_hits_exec(c: &str, class_name: &str, pf: &Option<String>) -> (r: bool)
    ensures
        r == class_hits(c@, class_name@, opt_string(*pf)),
{
    if names_class_exec(c, class_name, pf) {
        return true;
    }
    let cs = chars_of(c);
    let mut has_backslash = false;
    let mut i: usize = 0;
    while i < cs.len()
        invariant
            i <= cs@.len(),
            cs@ == c@,
            has_backslash == (exists|k: int| 0 <= k < i && cs@[k] == '\\'),
        decreases cs@.len() - i,
    {
        if cs[i] == '\\' {
            has_backslash = true;
        }
        i += 1;
    }
    assert(has_backslash == c@.contains('\\'));
    if has_backslash {
        let unescaped = strip_css_escapes(c);
        names_class_exec(unescaped.as_str(), class_name, pf)
    } else {
        false
    }
}

/// `rule_hits` for a plugin rule.
fn rule_hits_exec(rule: &PluginRule, class_name: &str, pf: &Option<String>) -> (r: bool)
    ensures
        r == rule_hits(rule.selector@, opt_string(rule.group_class), class_name@, opt_string(*pf)),
{
    let primary_hit = match rule.primary_class() {
        Some(c) => class_hits_exec(c.as_str(), class_name, pf),
        None => false,
    };
    if primary_hit {
        return true;
    }
    match &rule.group_class {
        Some(g) => names_class_exec(g.as_str(), class_name, pf),
        None => {
            assert(opt_string(rule.group_class) is None);
            let refs = rule.referenced_classes();
            let ghost rv = refs_from(rule.selector@, 0, 0);
            let mut k: usize = 0;
            while k < refs.len()
                invariant
                    k <= refs@.len(),
                    strings_view(refs@) == rv,
                    rv == refs_from(rule.selector@, 0, 0),
                    opt_string(rule.group_class) is None,
                    forall|m: int| 0 <= m < k ==> !class_hits(#[trigger] rv[m], class_name@, opt_string(*pf)),
                decreases refs@.len() - k,
            {
                assert(rv[k as int] == refs@[k as int]@);
                if class_hits_exec(refs[k].as_str(), class_name, pf) {
                    assert(class_hits(rv[k as int], class_name@, opt_string(*pf)));
                    return true;
                }
                k += 1;
            }
            false
        },
    }
}

/// The rules of `rules` the class triggers, in order, taken out of it.
fn take_hits(rules: Vec<PluginRule>, recorded: Ghost<Seq<PluginRule>>, class_name: &str, pf: &Option<String>) -> (r: Vec<PluginRule>)
    requires
        rules_lifted(recorded@, rules@),
    ensures
        plugin_rules_model(r@) == hits(recorded@, class_name@, opt_string(*pf)),
{
    let ghost rec = recorded@;
    let ghost orig = rules@;
    let n = rules.len();
    let mut rules = rules;
    let mut out: Vec<PluginRule> = Vec::new();
    let mut k: usize = 0;
    while rules.len() > 0
        invariant
            k + rules@.len() == n,
            orig.len() == n,
            rec.len() == n,
            rules_lifted(rec, orig),
            rules@ == orig.skip(k as int),
            plugin_rules_model(out@) == hits(rec.take(k as int), class_name@, opt_string(*pf)),
        decreases rules@.len(),
    {
        let r = rules.remove(0);
        assert(r == orig[k as int]);
        assert(rules@ =~= orig.skip(k + 1));
        proof {
            lemma_lifted_model(rec[k as int], r);
            assert(rec.take(k + 1).drop_last() =~= rec.take(k as int));
            assert(rec.take(k + 1).last() == rec[k as int]);
        }
        let ghost before = out@;
        if rule_hits_exec(&r, class_name, pf) {
            out.push(r);
            assert(plugin_rules_model(out@) =~= plugin_rules_model(before).push(plugin_rule_model(r)));
        } else {
            assert(hits(rec.take(k + 1), class_name@, opt_string(*pf)) =~= hits(rec.take(k as int), class_name@, opt_string(*pf)));
        }
        k += 1;
    }
    assert(rec.take(n as int) =~= rec);
    out
}

/// The plugin rules the candidate class triggers, utilities first, then
/// components, as the recorded plugin output reads; with whether any of
/// them is a component (such rules go to the components layer). `None`
/// when none is triggered.
pub fn plugin_index_get(
    config: Option<&JsonValue>,
    recorded: Option<PluginOutput>,
    class_name: &str,
) -> (r: Option<(Vec<PluginRule>, bool)>)
    ensures
        ({
            let pf = prefixed_form(opt_ref_json(config), class_name@);
            let u = hits(recorded_utilities(recorded), class_name@, pf);
            let c = hits(recorded_components(recorded), class_name@, pf);
            match r {
                None => u.len() == 0 && c.len() == 0,
                Some((rules, is_component)) => {
                    &&& plugin_rules_model(rules@) == u + c
                    &&& is_component == (c.len() > 0)
                    &&& (u.len() > 0 || c.len() > 0)
                },
            }
        }),
{
    let ghost rec = recorded;
    let output = read_plugin_output(recorded);
    let pf: Option<String> = match config {
        Some(c) => match c.get("prefix") {
            Some(p) => match p.as_str() {
                Some(s) => if chars_of(s).len() > 0 {
                    Some(concat(s, class_name))
                } else {
                    None
                },
                None => None,
            },
            None => None,
        },
        None => None,
    };
    assert(opt_string(pf) == prefixed_form(opt_ref_json(config), class_name@));
    proof {
        if rec is None {
            assert(rules_lifted(recorded_utilities(rec), output.utilities@));
            assert(rules_lifted(recorded_components(rec), output.components@));
        }
    }
    let utilities = take_hits(output.utilities, Ghost(recorded_utilities(rec)), class_name, &pf);
    let mut components = take_hits(
        output.components,
        Ghost(recorded_components(rec)),
        class_name,
        &pf,
    );
    if utilities.len() == 0 && components.len() == 0 {
        return None;
    }
    let is_component = components.len() > 0;
    let ghost uv = utilities@;
    let ghost cv = components@;
    let mut combined = utilities;
    combined.append(&mut components);
    assert(plugin_rules_model(combined@) =~= plugin_rules_model(uv) + plugin_rules_model(cv));
    Some((combined, is_component))
}

/// The forms of a candidate's class that a plugin selector may carry:
/// the root; the root with its modifier; and, with a prefix configured,
/// the prefixed root and the prefixed form with the modifier.
pub open spec fn candidate_forms_spec(root: Seq<char>, prefix: Seq<char>, modifier: Option<Modifier>) -> Seq<
    Seq<char>,
> {
    let mod_form = root + match modifier {
        Some(m) => seq!['/'] + modifier_text(m),
        None => Seq::empty(),
    };
    seq![root] + (if mod_form != root {
        seq![mod_form]
    } else {
        Seq::empty()
    }) + (if prefix.len() > 0 {
        seq![prefix + root]
    } else {
        Seq::empty()
    }) + (if prefix.len() > 0 && modifier is Some {
        seq![prefix + mod_form]
    } else {
        Seq::empty()
    })
}

/// The class of a plugin rule that the candidate's selector takes the
/// place of, and whether it is an alias (a referenced class other than
/// the primary one): the class `alias_scan` picks, else the rule's
/// primary class, else the root.
pub open spec fn plugin_target(rule: PluginRule, forms: Seq<Seq<char>>, root: Seq<char>) -> (Seq<char>, bool) {
    let refs = refs_from(rule.selector@, 0, 0);
    let (best, prim) = alias_scan(
        refs,
        forms,
        rule.selector@,
        primary_class_spec(rule.selector@),
        refs.len() as int,
    );
    match best {
        Some(c) => (c, !prim),
        None => (
            match primary_class_spec(rule.selector@) {
                Some(p) => p,
                None => root,
            },
            false,
        ),
    }
}

/// The selector of a plugin rule under one variant selector. For an alias
/// match of a candidate with variants or `!`, each selector of the list
/// that holds the class gets it replaced and the others are dropped (the
/// list is kept as it is when none holds it); otherwise the primary class
/// is replaced (`primary_subst_spec`).
pub open spec fn plugin_selector(sel: Seq<char>, target: Seq<char>, alias: bool, variant_sel: Seq<char>) -> Seq<
    char,
> {
    if alias {
        let parts = split_plain_spec(sel);
        let kept = hit_parts(parts, target, variant_sel, parts.len() as int);
        if kept.len() > 0 {
            join_selectors(kept)
        } else {
            sel
        }
    } else {
        primary_subst_spec(sel, target, variant_sel)
    }
}

/// The rule's own declarations, important when they are or the candidate is.
pub open spec fn plugin_decls(rule: PluginRule, important: bool) -> Seq<RuleDecl> {
    decls_view(rule.declarations@).map_values(|d: DeclModel| (d.0, d.1, d.2 || important))
}

/// The rules one plugin rule gives, one per variant selector.
pub open spec fn plugin_rule_rules(
    rule: PluginRule,
    forms: Seq<Seq<char>>,
    root: Seq<char>,
    needs_filter: bool,
    important: bool,
    applied: AppliedVariants,
) -> Seq<RuleModel> {
    let (target, alias) = plugin_target(rule, forms, root);
    strings_view(applied.selectors@).map_values(
        |vs: Seq<char>|
            RuleModel {
                selectors: seq![plugin_selector(rule.selector@, target, alias && needs_filter, vs)],
                declarations: prepended(applied) + plugin_decls(rule, important),
                at_rules: strings_view(applied.at_rules@) + strings_view(rule.at_rules@),
                respect_important: rule.respect_important,
                defaults_groups: Seq::empty(),
            },
    )
}

/// The rules of the plugin rules, rule by rule.
pub open spec fn plugin_rules_spec(
    rules: Seq<PluginRule>,
    forms: Seq<Seq<char>>,
    root: Seq<char>,
    needs_filter: bool,
    important: bool,
    applied: AppliedVariants,
) -> Seq<RuleModel>
    decreases rules.len(),
{
    if rules.len() == 0 {
        Seq::empty()
    } else {
        plugin_rules_spec(rules.drop_last(), forms, root, needs_filter, important, applied)
            + plugin_rule_rules(rules.last(), forms, root, needs_filter, important, applied)
    }
}

/// The candidate forms (`candidate_forms_spec`).
fn candidate_forms(root: &str, prefix: Option<&str>, modifier: Option<&Modifier>) -> (r: Vec<String>)
    ensures
        strings_view(r@) == candidate_forms_spec(
            root@,
            match prefix {
                Some(p) => p@,
                None => Seq::empty(),
            },
            match modifier {
                Some(m) => Some(*m),
                None => None,
            },
        ),
{
    let ghost pv = match prefix {
        Some(p) => p@,
        None => Seq::<char>::empty(),
    };
    let ghost mv = match modifier {
        Some(m) => Some(*m),
        None => None::<Modifier>,
    };
    let mod_form = render_class_form_no_modifier(root, modifier);
    let p: &str = match prefix {
        Some(p) => p,
        None => "",
    };
    proof {
        reveal_strlit("");
    }
    assert(p@ == pv);
    let mut forms: Vec<String> = Vec::new();
    forms.push(root.to_owned());
    let ghost f1 = strings_view(forms@);
    assert(f1 =~= seq![root@]);
    if !crate::text::str_eq(mod_form.as_str(), root) {
        forms.push(mod_form.clone());
    }
    let ghost f2 = strings_view(forms@);
    assert(f2 =~= seq![root@] + (if mod_form@ != root@ {
        seq![mod_form@]
    } else {
        Seq::empty()
    }));
    let has_prefix = chars_of(p).len() > 0;
    if has_prefix {
        forms.push(concat(p, root));
    }
    let ghost f3 = strings_view(forms@);
    assert(f3 =~= f2 + (if pv.len() > 0 {
        seq![pv + root@]
    } else {
        Seq::empty()
    }));
    if has_prefix && modifier.is_some() {
        forms.push(concat(p, mod_form.as_str()));
    }
    assert(strings_view(forms@) =~= f3 + (if pv.len() > 0 && mv is Some {
        seq![pv + mod_form@]
    } else {
        Seq::empty()
    }));
    forms
}

/// `plugin_selector` on executable values.
fn plugin_selector_exec(sel: &String, target: &str, alias: bool, variant_sel: &str) -> (r: String)
    ensures
        r@ == plugin_selector(sel@, target@, alias, variant_sel@),
{
    if alias {
        match substitute_class_in_selector_list(sel.as_str(), target, variant_sel) {
            Some(t) => t,
            None => sel.clone(),
        }
    } else {
        substitute_primary_class_in_selector_list(sel.as_str(), target, variant_sel)
    }
}

/// `plugin_decls` after the variants' declarations.
fn rule_declarations(rule: &PluginRule, important: bool, applied: &AppliedVariants) -> (r: Vec<
    Declaration,
>)
    ensures
        decls_model(r@) == prepended(*applied) + plugin_decls(*rule, important),
{
    let ghost want = prepended(*applied) + plugin_decls(*rule, important);
    let mut out: Vec<Declaration> = Vec::new();
    let mut j: usize = 0;
    while j < applied.prepend_decls.len()
        invariant
            j <= applied.prepend_decls@.len(),
            want == prepended(*applied) + plugin_decls(*rule, important),
            out@.len() == j,
            forall|m: int| 0 <= m < j ==> crate::css_items::decl_model(#[trigger] out@[m]) == want[m],
        decreases applied.prepend_decls@.len() - j,
    {
        out.push(Declaration {
            property: applied.prepend_decls[j].0.clone(),
            value: applied.prepend_decls[j].1.clone(),
            important: false,
        });
        j += 1;
    }
    let n = applied.prepend_decls.len();
    let mut k: usize = 0;
    while k < rule.declarations.len()
        invariant
            k <= rule.declarations@.len(),
            n == applied.prepend_decls@.len(),
            want == prepended(*applied) + plugin_decls(*rule, important),
            out@.len() == n + k,
            forall|m: int| 0 <= m < n + k ==> crate::css_items::decl_model(#[trigger] out@[m]) == want[m],
        decreases rule.declarations@.len() - k,
    {
        let d = &rule.declarations[k];
        out.push(Declaration {
            property: d.property.clone(),
            value: d.value.clone(),
            important: d.important || important,
        });
        assert(want[n + k] == plugin_decls(*rule, important)[k as int]);
        k += 1;
    }
    assert(decls_model(out@) =~= want);
    out
}

/// The variants' at-rules, then the rule's own.
fn joined_at_rules(outer: &Vec<String>, inner: &Vec<String>) -> (r: Vec<String>)
    ensures
        strings_view(r@) == strings_view(outer@) + strings_view(inner@),
{
    let mut out: Vec<String> = Vec::new();
    let mut i: usize = 0;
    while i < outer.len()
        invariant
            i <= outer@.len(),
            out@ == outer@.take(i as int),
        decreases outer@.len() - i,
    {
        out.push(outer[i].clone());
        i += 1;
        assert(out@ =~= outer@.take(i as int));
    }
    let mut j: usize = 0;
    while j < inner.len()
        invariant
            i == outer@.len(),
            j <= inner@.len(),
            out@ == outer@.take(i as int) + inner@.take(j as int),
        decreases inner@.len() - j,
    {
        out.push(inner[j].clone());
        j += 1;
        assert(out@ =~= outer@.take(i as int) + inner@.take(j as int));
    }
    assert(out@ =~= outer@ + inner@);
    assert(strings_view(out@) =~= strings_view(outer@) + strings_view(inner@));
    out
}

/// The rules of the plugin rules a candidate triggered
/// (`plugin_rules_spec`). The candidate is given by its root, prefix,
/// modifier, `!` and whether it has variants; `applied` is what its
/// variants contribute.
pub fn rules_for_plugin(
    plugin_rules: &Vec<PluginRule>,
    root: &str,
    prefix: Option<&str>,
    modifier: Option<&Modifier>,
    important: bool,
    has_variants: bool,
    applied: AppliedVariants,
) -> (r: Vec<Rule>)
    ensures
        rules_model(r@) == plugin_rules_spec(
            plugin_rules@,
            candidate_forms_spec(
                root@,
                match prefix {
                    Some(p) => p@,
                    None => Seq::empty(),
                },
                match modifier {
                    Some(m) => Some(*m),
                    None => None,
                },
            ),
            root@,
            important || has_variants,
            important,
            applied,
        ),
{
    let forms = candidate_forms(root, prefix, modifier);
    let ghost fv = strings_view(forms@);
    let needs_filter = important || has_variants;
    let mut out: Vec<Rule> = Vec::new();
    let mut i: usize = 0;
    while i < plugin_rules.len()
        invariant
            i <= plugin_rules@.len(),
            fv == strings_view(forms@),
            needs_filter == (important || has_variants),
            rules_model(out@) == plugin_rules_spec(
                plugin_rules@.take(i as int),
                fv,
                root@,
                needs_filter,
                important,
                applied,
            ),
        decreases plugin_rules@.len() - i,
    {
        let rule = &plugin_rules[i];
        let (target, alias): (String, bool) = match alias_substitution_target(rule, &forms) {
            Some((s, a)) => (s, a),
            None => match rule.primary_class() {
                Some(p) => (p, false),
                None => (root.to_owned(), false),
            },
        };
        let ghost tv = plugin_target(*rule, fv, root@);
        assert(target@ == tv.0 && alias == tv.1);
        let effective_alias = alias && needs_filter;
        let declarations = rule_declarations(rule, important, &applied);
        let ghost want = plugin_rule_rules(*rule, fv, root@, needs_filter, important, applied);
        let ghost start = rules_model(out@);
        let mut k: usize = 0;
        while k < applied.selectors.len()
            invariant
                k <= applied.selectors@.len(),
                want == plugin_rule_rules(*rule, fv, root@, needs_filter, important, applied),
                target@ == tv.0,
                tv == plugin_target(*rule, fv, root@),
                effective_alias == (tv.1 && needs_filter),
                decls_model(declarations@) == prepended(applied) + plugin_decls(*rule, important),
                rules_model(out@) == start + want.take(k as int),
            decreases applied.selectors@.len() - k,
        {
            let sel = plugin_selector_exec(&rule.selector, target.as_str(), effective_alias, applied.selectors[k].as_str());
            let mut selectors: Vec<String> = Vec::new();
            selectors.push(sel);
            let mut decl_copy: Vec<Declaration> = Vec::new();
            let mut d: usize = 0;
            while d < declarations.len()
                invariant
                    d <= declarations@.len(),
                    decl_copy@.len() == d,
                    forall|m: int| 0 <= m < d ==> crate::css_items::decl_model(#[trigger] decl_copy@[m]) == crate::css_items::decl_model(declarations@[m]),
                decreases declarations@.len() - d,
            {
                decl_copy.push(Declaration {
                    property: declarations[d].property.clone(),
                    value: declarations[d].value.clone(),
                    important: declarations[d].important,
                });
                d += 1;
            }
            assert(decls_model(decl_copy@) =~= decls_model(declarations@));
            let new_rule = Rule {
                selectors,
                declarations: decl_copy,
                at_rules: joined_at_rules(&applied.at_rules, &rule.at_rules),
                respect_important: rule.respect_important,
                defaults_groups: Vec::new(),
            };
            let ghost before = out@;
            out.push(new_rule);
            proof {
                assert(strings_view(new_rule.selectors@) =~= seq![plugin_selector(rule.selector@, tv.0, tv.1 && needs_filter, applied.selectors@[k as int]@)]);
                assert(strings_view(new_rule.defaults_groups@) =~= Seq::<Seq<char>>::empty());
                assert(strings_view(applied.selectors@)[k as int] == applied.selectors@[k as int]@);
                assert(rule_model(new_rule) == want[k as int]);
                assert(rules_model(out@) =~= rules_model(before).push(rule_model(new_rule)));
                assert(want.take(k + 1) =~= want.take(k as int).push(want[k as int]));
            }
            k += 1;
        }
        proof {
            assert(want.take(applied.selectors@.len() as int) =~= want);
            assert(plugin_rules@.take(i + 1).drop_last() =~= plugin_rules@.take(i as int));
            assert(plugin_rules@.take(i + 1).last() == *rule);
        }
        i += 1;
    }
    assert(plugin_rules@.take(plugin_rules@.len() as int) =~= plugin_rules@);
    out
}

} // verus!
