//! Screens (breakpoints): the defaults and the resolver that reads them
//! from a configuration.
//!
//! Simple string screens (`'md': '768px'`) emit `@media (min-width: …)`;
//! `{ raw: '…' }` and `{ min, max }` object screens emit the media query
//! body directly. `theme.screens` replaces the defaults entirely;
//! `theme.extend.screens` is merged on top of them.
use vstd::prelude::*;
use crate::json::{json_get, json_str, member_from, JsonValue};

verus! {

#[derive(Debug, PartialEq, Eq)]
pub struct Screen {
    pub name: String,
    /// The min-width value of a simple screen, or the media query body
    /// when `is_raw`.
    pub value: String,
    /// Whether `value` is a full media query body rather than a width.
    pub is_raw: bool,
}

/// A screen as plain values: name, value, raw flag.
pub type ScreenModel = (Seq<char>, Seq<char>, bool);

pub open spec fn screen_view(s: Screen) -> ScreenModel {
    (s.name@, s.value@, s.is_raw)
}

pub open spec fn screens_view(v: Seq<Screen>) -> Seq<ScreenModel> {
    v.map_values(|s: Screen| screen_view(s))
}

/// The default screens: sm 640px, md 768px, lg 1024px, xl 1280px,
/// 2xl 1536px.
pub open spec fn default_screens_spec() -> Seq<ScreenModel> {
    seq![
        ("sm"@, "640px"@, false),
        ("md"@, "768px"@, false),
        ("lg"@, "1024px"@, false),
        ("xl"@, "1280px"@, false),
        ("2xl"@, "1536px"@, false),
    ]
}

fn screen(name: &str, value: &str) -> (r: Screen)
    ensures
        screen_view(r) == (name@, value@, false),
{
    Screen { name: name.to_owned(), value: value.to_owned(), is_raw: false }
}

/// The default screens, smallest first.
pub fn default_screens() -> (r: Vec<Screen>)
    ensures
        screens_view(r@) == default_screens_spec(),
{
    let mut v: Vec<Screen> = Vec::new();
    v.push(screen("sm", "640px"));
    v.push(screen("md", "768px"));
    v.push(screen("lg", "1024px"));
    v.push(screen("xl", "1280px"));
    v.push(screen("2xl", "1536px"));
    assert(screens_view(v@) =~= default_screens_spec());
    v
}

/// The text of the string member `key`, if there is one.
pub open spec fn str_member(m: Seq<(String, JsonValue)>, key: Seq<char>) -> Option<Seq<char>> {
    match member_from(m, key, 0) {
        Some(x) => json_str(x),
        None => None,
    }
}

/// One screen entry: a string is a simple screen; an object with a
/// string `raw` is a raw media query; an object with `min`/`min-width`
/// and/or `max`/`max-width` strings builds the matching query. Other
/// shapes give no screen.
pub open spec fn parse_screen_spec(name: Seq<char>, v: JsonValue) -> Option<ScreenModel> {
    match v {
        JsonValue::Str(s) => Some((name, s@, false)),
        JsonValue::Object(m) => {
            if str_member(m@, "raw"@) is Some {
                Some((name, str_member(m@, "raw"@)->0, true))
            } else {
                let min = if str_member(m@, "min"@) is Some {
                    str_member(m@, "min"@)
                } else {
                    str_member(m@, "min-width"@)
                };
                let max = if str_member(m@, "max"@) is Some {
                    str_member(m@, "max"@)
                } else {
                    str_member(m@, "max-width"@)
                };
                match (min, max) {
                    (Some(a), None) => Some((name, a, false)),
                    (None, Some(b)) => Some((name, "(max-width: "@ + b + ")"@, true)),
                    (Some(a), Some(b)) => Some(
                        (name, "(min-width: "@ + a + ") and (max-width: "@ + b + ")"@, true),
                    ),
                    (None, None) => None,
                }
            }
        },
        _ => None,
    }
}

/// The screens of an object, in member order, skipping unusable entries.
pub open spec fn read_screens_spec(m: Seq<(String, JsonValue)>) -> Seq<ScreenModel>
    decreases m.len(),
{
    if m.len() == 0 {
        Seq::empty()
    } else {
        let prev = read_screens_spec(m.drop_last());
        match parse_screen_spec(m.last().0@, m.last().1) {
            Some(sc) => prev.push(sc),
            None => prev,
        }
    }
}

/// The first position of a screen named `name`, or -1.
pub open spec fn first_named(v: Seq<ScreenModel>, name: Seq<char>, i: int) -> int
    decreases v.len() - i,
{
    if i < 0 || i >= v.len() {
        -1
    } else if v[i].0 == name {
        i
    } else {
        first_named(v, name, i + 1)
    }
}

/// Merge `m` over `base`: each usable entry replaces the screen of the
/// same name, or is appended when there is none.
pub open spec fn merge_screens_spec(base: Seq<ScreenModel>, m: Seq<(String, JsonValue)>) -> Seq<
    ScreenModel,
>
    decreases m.len(),
{
    if m.len() == 0 {
        base
    } else {
        let prev = merge_screens_spec(base, m.drop_last());
        match parse_screen_spec(m.last().0@, m.last().1) {
            Some(sc) => {
                let k = first_named(prev, m.last().0@, 0);
                if k >= 0 {
                    prev.update(k, sc)
                } else {
                    prev.push(sc)
                }
            },
            None => prev,
        }
    }
}

/// The screens a configuration asks for.
pub open spec fn resolve_screens_spec(config: JsonValue) -> Seq<ScreenModel> {
    match json_get(config, "theme"@) {
        None => default_screens_spec(),
        Some(t) => match json_get(t, "screens"@) {
            Some(JsonValue::Object(m)) => read_screens_spec(m@),
            _ => match json_get(t, "extend"@) {
                Some(e) => match json_get(e, "screens"@) {
                    Some(JsonValue::Object(m)) => merge_screens_spec(default_screens_spec(), m@),
                    _ => default_screens_spec(),
                },
                None => default_screens_spec(),
            },
        },
    }
}

fn concat3(a: &str, b: &str, c: &str) -> (r: String)
    ensures
        r@ == a@ + b@ + c@,
{
    let mut v = crate::text::chars_of(a);
    let y = crate::text::chars_of(b);
    let z = crate::text::chars_of(c);
    let mut i: usize = 0;
    while i < y.len()
        invariant
            i <= y@.len(),
            v@ == a@ + y@.take(i as int),
        decreases y@.len() - i,
    {
        v.push(y[i]);
        i += 1;
        assert(v@ =~= a@ + y@.take(i as int));
    }
    assert(y@.take(i as int) =~= b@);
    let mut j: usize = 0;
    while j < z.len()
        invariant
            j <= z@.len(),
            v@ == a@ + b@ + z@.take(j as int),
        decreases z@.len() - j,
    {
        v.push(z[j]);
        j += 1;
        assert(v@ =~= a@ + b@ + z@.take(j as int));
    }
    assert(z@.take(j as int) =~= c@);
    crate::text::string_from_chars(&v)
}

fn string_member<'a>(m: &'a Vec<(String, JsonValue)>, key: &str) -> (r: Option<&'a str>)
    ensures
        match r {
            Some(s) => str_member(m@, key@) == Some(s@),
            None => str_member(m@, key@) is None,
        },
{
    let mut i: usize = 0;
    while i < m.len()
        invariant
            i <= m@.len(),
            member_from(m@, key@, i as int) == member_from(m@, key@, 0),
        decreases m@.len() - i,
    {
        if same_name(&m[i].0, key) {
            return m[i].1.as_str();
        }
        i += 1;
    }
    None
}

fn same_name(a: &String, b: &str) -> (r: bool)
    ensures
        r == (a@ == b@),
{
    let x = crate::text::chars_of(a.as_str());
    let y = crate::text::chars_of(b);
    if x.len() != y.len() {
        return false;
    }
    let mut i: usize = 0;
    while i < x.len()
        invariant
            x@ == a@,
            y@ == b@,
            x@.len() == y@.len(),
            i <= x@.len(),
            forall|k: int| 0 <= k < i ==> x@[k] == y@[k],
        decreases x@.len() - i,
    {
        if x[i] != y[i] {
            return false;
        }
        i += 1;
    }
    assert(x@ =~= y@);
    true
}

/// Parse one screen entry (see `parse_screen_spec`).
fn parse_screen_value(name: &String, value: &JsonValue) -> (r: Option<Screen>)
    ensures
        match r {
            Some(s) => parse_screen_spec(name@, *value) == Some(screen_view(s)),
            None => parse_screen_spec(name@, *value) is None,
        },
{
    match value {
        JsonValue::Str(s) => Some(Screen { name: name.clone(), value: s.clone(), is_raw: false }),
        JsonValue::Object(map) => {
            if let Some(raw) = string_member(map, "raw") {
                return Some(Screen { name: name.clone(), value: raw.to_owned(), is_raw: true });
            }
            let min = match string_member(map, "min") {
                Some(x) => Some(x),
                None => string_member(map, "min-width"),
            };
            let max = match string_member(map, "max") {
                Some(x) => Some(x),
                None => string_member(map, "max-width"),
            };
            match (min, max) {
                (Some(min), None) => Some(
                    Screen { name: name.clone(), value: min.to_owned(), is_raw: false },
                ),
                (None, Some(max)) => Some(
                    Screen {
                        name: name.clone(),
                        value: concat3("(max-width: ", max, ")"),
                        is_raw: true,
                    },
                ),
                (Some(min), Some(max)) => {
                    let head = concat3("(min-width: ", min, ") and (max-width: ");
                    let value = concat3(head.as_str(), max, ")");
                    Some(Screen { name: name.clone(), value, is_raw: true })
                },
                (None, None) => None,
            }
        },
        _ => None,
    }
}

fn read_screen_object(obj: &Vec<(String, JsonValue)>) -> (r: Vec<Screen>)
    ensures
        screens_view(r@) == read_screens_spec(obj@),
{
    let mut out: Vec<Screen> = Vec::new();
    let mut i: usize = 0;
    while i < obj.len()
        invariant
            i <= obj@.len(),
            screens_view(out@) == read_screens_spec(obj@.take(i as int)),
        decreases obj@.len() - i,
    {
        proof {
            assert(obj@.take(i + 1).drop_last() =~= obj@.take(i as int));
        }
        match parse_screen_value(&obj[i].0, &obj[i].1) {
            Some(sc) => {
                out.push(sc);
                assert(screens_view(out@) =~= read_screens_spec(obj@.take(i + 1)));
            },
            None => {},
        }
        i += 1;
    }
    assert(obj@.take(i as int) =~= obj@);
    out
}

fn position_named(out: &Vec<Screen>, name: &String) -> (r: Option<usize>)
    ensures
        match r {
            Some(k) => first_named(screens_view(out@), name@, 0) == k as int && k < out@.len(),
            None => first_named(screens_view(out@), name@, 0) == -1,
        },
{
    let mut i: usize = 0;
    let ghost v = screens_view(out@);
    while i < out.len()
        invariant
            i <= out@.len(),
            v == screens_view(out@),
            first_named(v, name@, i as int) == first_named(v, name@, 0),
        decreases out@.len() - i,
    {
        if same_name(name, out[i].name.as_str()) {
            return Some(i);
        }
        i += 1;
    }
    None
}

fn merge_screens(obj: &Vec<(String, JsonValue)>) -> (r: Vec<Screen>)
    ensures
        screens_view(r@) == merge_screens_spec(default_screens_spec(), obj@),
{
    let mut out = default_screens();
    let mut i: usize = 0;
    while i < obj.len()
        invariant
            i <= obj@.len(),
            screens_view(out@) == merge_screens_spec(default_screens_spec(), obj@.take(i as int)),
        decreases obj@.len() - i,
    {
        proof {
            assert(obj@.take(i + 1).drop_last() =~= obj@.take(i as int));
        }
        match parse_screen_value(&obj[i].0, &obj[i].1) {
            Some(sc) => {
                match position_named(&out, &obj[i].0) {
                    Some(k) => {
                        out.set(k, sc);
                        assert(screens_view(out@) =~= merge_screens_spec(
                            default_screens_spec(),
                            obj@.take(i + 1),
                        ));
                    },
                    None => {
                        out.push(sc);
                        assert(screens_view(out@) =~= merge_screens_spec(
                            default_screens_spec(),
                            obj@.take(i + 1),
                        ));
                    },
                }
            },
            None => {},
        }
        i += 1;
    }
    assert(obj@.take(i as int) =~= obj@);
    out
}

/// The screens of a configuration: `theme.screens` when it is an object,
/// else the defaults with `theme.extend.screens` merged over them, else
/// the defaults.
pub fn resolve_screens(config: &JsonValue) -> (r: Vec<Screen>)
    ensures
        screens_view(r@) == resolve_screens_spec(*config),
{
    if let Some(t) = config.get("theme") {
        if let Some(screens) = t.get("screens") {
            if let Some(obj) = screens.as_object() {
                return read_screen_object(obj);
            }
        }
        if let Some(e) = t.get("extend") {
            if let Some(screens) = e.get("screens") {
                if let Some(obj) = screens.as_object() {
                    return merge_screens(obj);
                }
            }
        }
    }
    default_screens()
}


/// The min width of a screen entry: a bare string, or the `min` (else
/// `min-width`) string of an object; `None` otherwise.
pub open spec fn screen_min_width_spec(v: JsonValue) -> Option<Seq<char>> {
    match v {
        JsonValue::Str(s) => Some(s@),
        JsonValue::Object(_) => match json_get(v, "min"@) {
            Some(x) if json_str(x) is Some => json_str(x),
            _ => match json_get(v, "min-width"@) {
                Some(y) => json_str(y),
                None => None,
            },
        },
        _ => None,
    }
}

/// The min width of a screen entry (`screen_min_width_spec`).
pub fn screen_min_width(v: &JsonValue) -> (r: Option<String>)
    ensures
        match r {
            Some(s) => screen_min_width_spec(*v) == Some(s@),
            None => screen_min_width_spec(*v) is None,
        },
{
    match v {
        JsonValue::Str(s) => Some(s.clone()),
        JsonValue::Object(_) => {
            match v.get("min") {
                Some(x) => match x.as_str() {
                    Some(s) => {
                        return Some(crate::text::string_from_chars(&crate::text::chars_of(s)));
                    },
                    None => {},
                },
                None => {},
            }
            match v.get("min-width") {
                Some(y) => match y.as_str() {
                    Some(s) => Some(crate::text::string_from_chars(&crate::text::chars_of(s))),
                    None => None,
                },
                None => None,
            }
        },
        _ => None,
    }
}

} // verus!
