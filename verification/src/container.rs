//! The `container` component: a full-width base rule, centred and padded
//! as `theme.container` says, and one rule per screen that caps the width
//! at the screen's min width.
use vstd::prelude::*;
use crate::css_items::Declaration;
use crate::json::{json_get, json_str, JsonValue};
use crate::rules::{rule_model, rules_model, DeclModel, Rule, RuleModel};
use crate::plugins::strings_view;
use crate::screens::{screen_min_width, screen_min_width_spec, screens_view, Screen, ScreenModel};
use crate::text::concat;
use crate::theme::opt_ref_json;

verus! {

/// `theme.container` of the configuration.
pub open spec fn container_config(config: Option<JsonValue>) -> Option<JsonValue> {
    match config {
        Some(c) => match json_get(c, "theme"@) {
            Some(t) => json_get(t, "container"@),
            None => None,
        },
        None => None,
    }
}

/// `theme.container.center`, when it is a boolean; `false` otherwise.
pub open spec fn center_spec(cc: Option<JsonValue>) -> bool {
    match cc {
        Some(c) => match json_get(c, "center"@) {
            Some(JsonValue::Bool(b)) => b,
            _ => false,
        },
        None => false,
    }
}

/// The padding of the base rule: `theme.container.padding` when it is a
/// string, its `DEFAULT` string when it is an object.
pub open spec fn padding_default_spec(cc: Option<JsonValue>) -> Option<Seq<char>> {
    match cc {
        Some(c) => match json_get(c, "padding"@) {
            Some(JsonValue::Str(s)) => Some(s@),
            Some(JsonValue::Object(m)) => match json_get(JsonValue::Object(m), "DEFAULT"@) {
                Some(d) => json_str(d),
                None => None,
            },
            _ => None,
        },
        None => None,
    }
}

/// The padding for screen `name`: its string in a
/// `theme.container.padding` object.
pub open spec fn screen_padding_spec(cc: Option<JsonValue>, name: Seq<char>) -> Option<Seq<char>> {
    match cc {
        Some(c) => match json_get(c, "padding"@) {
            Some(p) => if p is Object {
                match json_get(p, name) {
                    Some(x) => json_str(x),
                    None => None,
                }
            } else {
                None
            },
            None => None,
        },
        None => None,
    }
}

/// `(name, min width)` of the object's members that have a min width.
pub open spec fn entries_from_members(m: Seq<(String, JsonValue)>) -> Seq<(Seq<char>, Seq<char>)>
    decreases m.len(),
{
    if m.len() == 0 {
        Seq::empty()
    } else {
        entries_from_members(m.drop_last()) + match screen_min_width_spec(m.last().1) {
            Some(mw) => seq![(m.last().0@, mw)],
            None => Seq::empty(),
        }
    }
}

/// `(min width, min width)` of the array's items that have a min width.
pub open spec fn entries_from_items(v: Seq<JsonValue>) -> Seq<(Seq<char>, Seq<char>)>
    decreases v.len(),
{
    if v.len() == 0 {
        Seq::empty()
    } else {
        entries_from_items(v.drop_last()) + match screen_min_width_spec(v.last()) {
            Some(mw) => seq![(mw, mw)],
            None => Seq::empty(),
        }
    }
}

/// The screens of an object or array of screens; `None` for other values.
pub open spec fn entries_of(v: JsonValue) -> Option<Seq<(Seq<char>, Seq<char>)>> {
    match v {
        JsonValue::Object(m) => Some(entries_from_members(m@)),
        JsonValue::Array(a) => Some(entries_from_items(a@)),
        _ => None,
    }
}

/// The simple (not raw) screens as `(name, min width)`.
pub open spec fn simple_screens(s: Seq<ScreenModel>) -> Seq<(Seq<char>, Seq<char>)>
    decreases s.len(),
{
    if s.len() == 0 {
        Seq::empty()
    } else {
        simple_screens(s.drop_last()) + if !s.last().2 {
            seq![(s.last().0, s.last().1)]
        } else {
            Seq::empty()
        }
    }
}

/// The screens the container is capped at: `theme.container.screens`
/// when it is an object or array, else `theme.screens` when it is one,
/// else the simple screens of the variant context.
pub open spec fn container_screens_spec(config: Option<JsonValue>, screens: Seq<ScreenModel>) -> Seq<
    (Seq<char>, Seq<char>),
> {
    let own = match container_config(config) {
        Some(c) => match json_get(c, "screens"@) {
            Some(s) => entries_of(s),
            None => None,
        },
        None => None,
    };
    let theme_screens = match config {
        Some(c) => match json_get(c, "theme"@) {
            Some(t) => match json_get(t, "screens"@) {
                Some(s) => entries_of(s),
                None => None,
            },
            None => None,
        },
        None => None,
    };
    match own {
        Some(l) => l,
        None => match theme_screens {
            Some(l) => l,
            None => simple_screens(screens),
        },
    }
}

/// `padding-right` and `padding-left` set to `p`.
pub open spec fn paddings(p: Option<Seq<char>>, important: bool) -> Seq<DeclModel> {
    match p {
        Some(v) => seq![("padding-right"@, v, important), ("padding-left"@, v, important)],
        None => Seq::empty(),
    }
}

/// The base rule: `width: 100%`, the default padding, and auto side
/// margins when centred. A component: `important` does not apply.
pub open spec fn base_rule_spec(sel: Seq<char>, cc: Option<JsonValue>, important: bool) -> RuleModel {
    RuleModel {
        selectors: seq![sel],
        declarations: seq![("width"@, "100%"@, important)] + paddings(
            padding_default_spec(cc),
            important,
        ) + if center_spec(cc) {
            seq![("margin-right"@, "auto"@, important), ("margin-left"@, "auto"@, important)]
        } else {
            Seq::empty()
        },
        at_rules: Seq::empty(),
        respect_important: false,
        defaults_groups: Seq::empty(),
    }
}

/// The rule of one screen: `max-width` at its min width, and its own
/// padding, under `@media (min-width: <width>)`.
pub open spec fn screen_rule_spec(
    sel: Seq<char>,
    cc: Option<JsonValue>,
    important: bool,
    screen: (Seq<char>, Seq<char>),
) -> RuleModel {
    RuleModel {
        selectors: seq![sel],
        declarations: seq![("max-width"@, screen.1, important)] + paddings(
            screen_padding_spec(cc, screen.0),
            important,
        ),
        at_rules: seq!["@media (min-width: "@ + screen.1 + ")"@],
        respect_important: false,
        defaults_groups: Seq::empty(),
    }
}

/// The container's rules: the base rule, then one per screen.
pub open spec fn container_spec(
    sel: Seq<char>,
    screens: Seq<ScreenModel>,
    config: Option<JsonValue>,
    important: bool,
) -> Seq<RuleModel> {
    seq![base_rule_spec(sel, container_config(config), important)] + container_screens_spec(
        config,
        screens,
    ).map_values(
        |e: (Seq<char>, Seq<char>)| screen_rule_spec(sel, container_config(config), important, e),
    )
}

fn declaration(property: &str, value: &str, important: bool) -> (r: Declaration)
    ensures
        r.property@ == property@,
        r.value@ == value@,
        r.important == important,
{
    Declaration { property: property.to_owned(), value: value.to_owned(), important }
}

fn one_string(s: &str) -> (r: Vec<String>)
    ensures
        strings_view(r@) == seq![s@],
{
    let mut r: Vec<String> = Vec::new();
    r.push(s.to_owned());
    assert(strings_view(r@) =~= seq![s@]);
    r
}

/// Append `padding-right` and `padding-left` set to `p` (`paddings`).
fn push_paddings(decls: &mut Vec<Declaration>, p: &Option<String>, important: bool)
    ensures
        crate::rules::decls_model(final(decls)@) == crate::rules::decls_model(old(decls)@)
            + paddings(
            match p {
                Some(v) => Some(v@),
                None => None,
            },
            important,
        ),
{
    let ghost before = crate::rules::decls_model(decls@);
    match p {
        Some(v) => {
            decls.push(declaration("padding-right", v.as_str(), important));
            decls.push(declaration("padding-left", v.as_str(), important));
        },
        None => {},
    }
    assert(crate::rules::decls_model(decls@) =~= before + paddings(
        match p {
            Some(v) => Some(v@),
            None => None,
        },
        important,
    ));
}

/// A copy of the text of a string value.
fn opt_str(v: Option<&JsonValue>) -> (r: Option<String>)
    ensures
        match r {
            Some(s) => v is Some && json_str(*v->Some_0) == Some(s@),
            None => v is None || json_str(*v->Some_0) is None,
        },
{
    match v {
        Some(x) => match x.as_str() {
            Some(s) => Some(s.to_owned()),
            None => None,
        },
        None => None,
    }
}

/// The screens of an object or array of screens (`entries_of`).
fn entries_of_exec(v: &JsonValue) -> (r: Option<Vec<(String, String)>>)
    ensures
        match r {
            Some(l) => entries_of(*v) == Some(
                l@.map_values(|e: (String, String)| (e.0@, e.1@)),
            ),
            None => entries_of(*v) is None,
        },
{
    match v {
        JsonValue::Object(m) => {
            let mut out: Vec<(String, String)> = Vec::new();
            let mut i: usize = 0;
            while i < m.len()
                invariant
                    i <= m@.len(),
                    out@.map_values(|e: (String, String)| (e.0@, e.1@)) == entries_from_members(
                        m@.take(i as int),
                    ),
                decreases m@.len() - i,
            {
                let ghost before = out@;
                assert(m@.take(i + 1).drop_last() =~= m@.take(i as int));
                match screen_min_width(&m[i].1) {
                    Some(mw) => {
                        out.push((m[i].0.clone(), mw));
                    },
                    None => {},
                }
                i += 1;
                assert(out@.map_values(|e: (String, String)| (e.0@, e.1@)) =~= entries_from_members(
                    m@.take(i as int),
                ));
            }
            assert(m@.take(m@.len() as int) =~= m@);
            Some(out)
        },
        JsonValue::Array(a) => {
            let mut out: Vec<(String, String)> = Vec::new();
            let mut i: usize = 0;
            while i < a.len()
                invariant
                    i <= a@.len(),
                    out@.map_values(|e: (String, String)| (e.0@, e.1@)) == entries_from_items(
                        a@.take(i as int),
                    ),
                decreases a@.len() - i,
            {
                assert(a@.take(i + 1).drop_last() =~= a@.take(i as int));
                match screen_min_width(&a[i]) {
                    Some(mw) => {
                        out.push((mw.clone(), mw));
                    },
                    None => {},
                }
                i += 1;
                assert(out@.map_values(|e: (String, String)| (e.0@, e.1@)) =~= entries_from_items(
                    a@.take(i as int),
                ));
            }
            assert(a@.take(a@.len() as int) =~= a@);
            Some(out)
        },
        _ => None,
    }
}

/// The simple screens as `(name, min width)` (`simple_screens`).
fn simple_screens_exec(screens: &Vec<Screen>) -> (r: Vec<(String, String)>)
    ensures
        r@.map_values(|e: (String, String)| (e.0@, e.1@)) == simple_screens(screens_view(screens@)),
{
    let ghost sv = screens_view(screens@);
    let mut out: Vec<(String, String)> = Vec::new();
    let mut i: usize = 0;
    while i < screens.len()
        invariant
            i <= screens@.len(),
            sv == screens_view(screens@),
            out@.map_values(|e: (String, String)| (e.0@, e.1@)) == simple_screens(
                sv.take(i as int),
            ),
        decreases screens@.len() - i,
    {
        assert(sv.take(i + 1).drop_last() =~= sv.take(i as int));
        assert(sv.take(i + 1).last() == (screens@[i as int].name@, screens@[i as int].value@, screens@[i as int].is_raw));
        if !screens[i].is_raw {
            out.push((screens[i].name.clone(), screens[i].value.clone()));
        }
        i += 1;
        assert(out@.map_values(|e: (String, String)| (e.0@, e.1@)) =~= simple_screens(
            sv.take(i as int),
        ));
    }
    assert(sv.take(screens@.len() as int) =~= sv);
    out
}

/// The rules of the `container` component for the class selector
/// (`container_spec`). `screens` are the screens of the variant context,
/// used when the configuration gives none.
pub fn rules_for_container(
    class_selector: &str,
    screens: &Vec<Screen>,
    config: Option<&JsonValue>,
    important: bool,
) -> (r: Vec<Rule>)
    ensures
        rules_model(r@) == container_spec(
            class_selector@,
            screens_view(screens@),
            opt_ref_json(config),
            important,
        ),
{
    let ghost cfg = opt_ref_json(config);
    let ghost ccv = container_config(cfg);
    let cc: Option<&JsonValue> = match config {
        Some(c) => match c.get("theme") {
            Some(t) => t.get("container"),
            None => None,
        },
        None => None,
    };
    assert(match cc {
        Some(c) => ccv == Some(*c),
        None => ccv is None,
    });
    let center = match cc {
        Some(c) => match c.get("center") {
            Some(v) => match v.as_bool() {
                Some(b) => b,
                None => false,
            },
            None => false,
        },
        None => false,
    };
    assert(center == center_spec(ccv));
    let padding_default: Option<String> = match cc {
        Some(c) => match c.get("padding") {
            Some(p) => match p {
                JsonValue::Str(s) => Some(s.clone()),
                JsonValue::Object(_) => opt_str(p.get("DEFAULT")),
                _ => None,
            },
            None => None,
        },
        None => None,
    };
    assert(match padding_default {
        Some(v) => padding_default_spec(ccv) == Some(v@),
        None => padding_default_spec(ccv) is None,
    });
    let padding_obj: Option<&JsonValue> = match cc {
        Some(c) => match c.get("padding") {
            Some(p) => if matches!(p, JsonValue::Object(_)) {
                Some(p)
            } else {
                None
            },
            None => None,
        },
        None => None,
    };
    let mut base: Vec<Declaration> = Vec::new();
    base.push(declaration("width", "100%", important));
    let ghost first = crate::rules::decls_model(base@);
    assert(first =~= seq![("width"@, "100%"@, important)]);
    push_paddings(&mut base, &padding_default, important);
    let ghost second = crate::rules::decls_model(base@);
    if center {
        base.push(declaration("margin-right", "auto", important));
        base.push(declaration("margin-left", "auto", important));
        assert(crate::rules::decls_model(base@) =~= second + seq![
            ("margin-right"@, "auto"@, important),
            ("margin-left"@, "auto"@, important),
        ]);
    } else {
        assert(crate::rules::decls_model(base@) =~= second + Seq::<DeclModel>::empty());
    }
    let base_rule = Rule {
        selectors: one_string(class_selector),
        declarations: base,
        at_rules: Vec::new(),
        respect_important: false,
        defaults_groups: Vec::new(),
    };
    let mut rules: Vec<Rule> = Vec::new();
    rules.push(base_rule);
    proof {
        assert(strings_view(base_rule.at_rules@) =~= Seq::<Seq<char>>::empty());
        assert(strings_view(base_rule.defaults_groups@) =~= Seq::<Seq<char>>::empty());
        assert(rule_model(base_rule) == base_rule_spec(class_selector@, ccv, important));
        assert(rules_model(rules@) =~= seq![base_rule_spec(class_selector@, ccv, important)]);
    }
    let own: Option<Vec<(String, String)>> = match cc {
        Some(c) => match c.get("screens") {
            Some(s) => entries_of_exec(s),
            None => None,
        },
        None => None,
    };
    let list: Vec<(String, String)> = match own {
        Some(l) => l,
        None => {
            let theme_screens: Option<Vec<(String, String)>> = match config {
                Some(c) => match c.get("theme") {
                    Some(t) => match t.get("screens") {
                        Some(s) => entries_of_exec(s),
                        None => None,
                    },
                    None => None,
                },
                None => None,
            };
            match theme_screens {
                Some(l) => l,
                None => simple_screens_exec(screens),
            }
        },
    };
    let ghost lv = list@.map_values(|e: (String, String)| (e.0@, e.1@));
    assert(lv == container_screens_spec(cfg, screens_view(screens@)));
    let ghost head = seq![base_rule_spec(class_selector@, ccv, important)];
    let mut k: usize = 0;
    while k < list.len()
        invariant
            k <= list@.len(),
            lv == list@.map_values(|e: (String, String)| (e.0@, e.1@)),
            match padding_obj {
                Some(p) => (match ccv {
                    Some(c) => json_get(c, "padding"@) == Some(*p),
                    None => false,
                }) && p is Object,
                None => match ccv {
                    Some(c) => match json_get(c, "padding"@) {
                        Some(p) => !(p is Object),
                        None => true,
                    },
                    None => true,
                },
            },
            rules_model(rules@) == head + lv.take(k as int).map_values(
                |e: (Seq<char>, Seq<char>)| screen_rule_spec(class_selector@, ccv, important, e),
            ),
        decreases list@.len() - k,
    {
        let ghost before = rules@;
        let name = &list[k].0;
        let value = &list[k].1;
        let mut decls: Vec<Declaration> = Vec::new();
        decls.push(declaration("max-width", value.as_str(), important));
        let ghost d0 = crate::rules::decls_model(decls@);
        assert(d0 =~= seq![("max-width"@, value@, important)]);
        let pad: Option<String> = match padding_obj {
            Some(p) => opt_str(p.get(name.as_str())),
            None => None,
        };
        assert(match pad {
            Some(v) => screen_padding_spec(ccv, name@) == Some(v@),
            None => screen_padding_spec(ccv, name@) is None,
        });
        push_paddings(&mut decls, &pad, important);
        let media = concat(concat("@media (min-width: ", value.as_str()).as_str(), ")");
        let rule = Rule {
            selectors: one_string(class_selector),
            declarations: decls,
            at_rules: one_string(media.as_str()),
            respect_important: false,
            defaults_groups: Vec::new(),
        };
        rules.push(rule);
        proof {
            assert(strings_view(rule.defaults_groups@) =~= Seq::<Seq<char>>::empty());
            assert(lv[k as int] == (name@, value@));
            assert(rule_model(rule) == screen_rule_spec(class_selector@, ccv, important, lv[k as int]));
            assert(rules_model(rules@) =~= rules_model(before).push(rule_model(rule)));
            assert(lv.take(k + 1).map_values(
                |e: (Seq<char>, Seq<char>)| screen_rule_spec(class_selector@, ccv, important, e),
            ) =~= lv.take(k as int).map_values(
                |e: (Seq<char>, Seq<char>)| screen_rule_spec(class_selector@, ccv, important, e),
            ).push(screen_rule_spec(class_selector@, ccv, important, lv[k as int])));
        }
        k += 1;
    }
    assert(lv.take(list@.len() as int) =~= lv);
    rules
}

} // verus!
