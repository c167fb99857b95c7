//! Tailwind's default theme, built as a JSON `theme` object: spacing and
//! the sizing tables derived from it, typography, colour-valued keys,
//! filters, transitions and the rest. The colour table itself comes from
//! the caller, flattened to `(name, colour)` pairs.
use vstd::prelude::*;
use crate::json::{json_str, JsonValue};
use crate::text::str_eq;

verus! {

/// A shadow value: one layer as a string, several as a list.
pub enum Shadow {
    One(Seq<char>),
    Layers(Seq<Seq<char>>),
}

/// What one theme table holds, read off its JSON object.
pub enum ThemeTable {
    /// Keys to strings.
    Text(Seq<(Seq<char>, Seq<char>)>),
    /// Keys to lists of strings (font stacks).
    Lists(Seq<(Seq<char>, Seq<Seq<char>>)>),
    /// Keys to a size and its line height.
    Sized(Seq<(Seq<char>, (Seq<char>, Seq<char>))>),
    /// Keys to shadows.
    Shadows(Seq<(Seq<char>, Shadow)>),
}

/// The members of an object read through `f`, in member order; `None`
/// when some value does not read.
pub open spec fn members_via<T>(
    ms: Seq<(String, JsonValue)>,
    f: spec_fn(JsonValue) -> Option<T>,
) -> Option<Seq<(Seq<char>, T)>> {
    if forall|j: int| #![trigger ms[j]] 0 <= j < ms.len() ==> f(ms[j].1) is Some {
        Some(Seq::new(ms.len(), |j: int| (ms[j].0@, f(ms[j].1)->0)))
    } else {
        None
    }
}

/// A list of strings.
pub open spec fn str_items(items: Seq<JsonValue>) -> Option<Seq<Seq<char>>> {
    if forall|j: int| #![trigger items[j]] 0 <= j < items.len() ==> json_str(items[j]) is Some {
        Some(Seq::new(items.len(), |j: int| json_str(items[j])->0))
    } else {
        None
    }
}

pub open spec fn as_text() -> spec_fn(JsonValue) -> Option<Seq<char>> {
    |v: JsonValue| json_str(v)
}

pub open spec fn as_list() -> spec_fn(JsonValue) -> Option<Seq<Seq<char>>> {
    |v: JsonValue|
        match v {
            JsonValue::Array(items) => str_items(items@),
            _ => None,
        }
}

/// `[size, { lineHeight }]`.
pub open spec fn as_sized() -> spec_fn(JsonValue) -> Option<(Seq<char>, Seq<char>)> {
    |v: JsonValue|
        match v {
            JsonValue::Array(items) => if items@.len() == 2 {
                match (json_str(items@[0]), items@[1]) {
                    (Some(size), JsonValue::Object(o)) => match members_via(o@, as_text()) {
                        Some(p) => if p.len() == 1 && p[0].0 == "lineHeight"@ {
                            Some((size, p[0].1))
                        } else {
                            None
                        },
                        None => None,
                    },
                    _ => None,
                }
            } else {
                None
            },
            _ => None,
        }
}

pub open spec fn as_shadow() -> spec_fn(JsonValue) -> Option<Shadow> {
    |v: JsonValue|
        match v {
            JsonValue::Str(s) => Some(Shadow::One(s@)),
            JsonValue::Array(items) => match str_items(items@) {
                Some(l) => Some(Shadow::Layers(l)),
                None => None,
            },
            _ => None,
        }
}

/// The `(key, string)` members of an object of strings.
pub open spec fn text_members(v: JsonValue) -> Option<Seq<(Seq<char>, Seq<char>)>> {
    match v {
        JsonValue::Object(ms) => members_via(ms@, as_text()),
        _ => None,
    }
}

pub open spec fn sized_members(v: JsonValue) -> Option<Seq<(Seq<char>, (Seq<char>, Seq<char>))>> {
    match v {
        JsonValue::Object(ms) => members_via(ms@, as_sized()),
        _ => None,
    }
}

/// Whether the JSON value `v` is the table `t`.
pub open spec fn table_holds(v: JsonValue, t: ThemeTable) -> bool {
    match v {
        JsonValue::Object(ms) => match t {
            ThemeTable::Text(p) => members_via(ms@, as_text()) == Some(p),
            ThemeTable::Lists(p) => members_via(ms@, as_list()) == Some(p),
            ThemeTable::Sized(p) => members_via(ms@, as_sized()) == Some(p),
            ThemeTable::Shadows(p) => members_via(ms@, as_shadow()) == Some(p),
        },
        _ => false,
    }
}

/// The members of a theme object are, key by key, the tables of `es`.
pub open spec fn tables_hold(ms: Seq<(String, JsonValue)>, es: Seq<(Seq<char>, ThemeTable)>) -> bool {
    &&& ms.len() == es.len()
    &&& forall|j: int|
        #![trigger ms[j]]
        0 <= j < ms.len() ==> ms[j].0@ == es[j].0 && table_holds(ms[j].1, es[j].1)
}

/// The flattened colour table as `(name, colour)` text pairs.
pub open spec fn color_pairs(cs: Seq<(String, String)>) -> Seq<(Seq<char>, Seq<char>)> {
    Seq::new(cs.len(), |j: int| (cs[j].0@, cs[j].1@))
}

/// The first position at or after `i` whose key is `k`, or `-1`.
pub open spec fn key_pos(ps: Seq<(Seq<char>, Seq<char>)>, k: Seq<char>, i: int) -> int
    decreases ps.len() - i,
{
    if i < 0 || i >= ps.len() {
        -1
    } else if ps[i].0 == k {
        i
    } else {
        key_pos(ps, k, i + 1)
    }
}

/// Setting key `k` to `v`: an existing key keeps its place and takes the
/// new value; a new key goes last.
pub open spec fn pairs_insert(ps: Seq<(Seq<char>, Seq<char>)>, k: Seq<char>, v: Seq<char>) -> Seq<
    (Seq<char>, Seq<char>),
> {
    let j = key_pos(ps, k, 0);
    if j >= 0 {
        ps.update(j, (k, v))
    } else {
        ps.push((k, v))
    }
}

proof fn lemma_key_pos(ps: Seq<(Seq<char>, Seq<char>)>, k: Seq<char>, i: int)
    requires
        0 <= i,
    ensures
        key_pos(ps, k, i) == -1 || (i <= key_pos(ps, k, i) < ps.len() && ps[key_pos(ps, k, i)].0
            == k),
    decreases ps.len() - i,
{
    if i < ps.len() && ps[i].0 != k {
        lemma_key_pos(ps, k, i + 1);
    }
}

fn new_members<T>(Ghost(f): Ghost<spec_fn(JsonValue) -> Option<T>>) -> (ms: Vec<(String, JsonValue)>)
    ensures
        members_via(ms@, f) == Some(Seq::<(Seq<char>, T)>::empty()),
{
    let ms: Vec<(String, JsonValue)> = Vec::new();
    proof {
        assert(members_via(ms@, f)->0 =~= Seq::<(Seq<char>, T)>::empty());
    }
    ms
}

fn push_member<T>(
    ms: &mut Vec<(String, JsonValue)>,
    key: &str,
    value: JsonValue,
    Ghost(f): Ghost<spec_fn(JsonValue) -> Option<T>>,
)
    requires
        members_via(old(ms)@, f) is Some,
        f(value) is Some,
    ensures
        members_via(final(ms)@, f) == Some(members_via(old(ms)@, f)->0.push((key@, f(value)->0))),
{
    let ghost old_ms = ms@;
    ms.push((key.to_owned(), value));
    proof {
        assert forall|j: int| #![trigger ms@[j]] 0 <= j < ms@.len() implies f(ms@[j].1) is Some by {
            if j < old_ms.len() {
                assert(ms@[j] == old_ms[j]);
            }
        }
        assert(members_via(ms@, f)->0 =~= members_via(old_ms, f)->0.push((key@, f(value)->0)));
    }
}

fn push_str(ms: &mut Vec<(String, JsonValue)>, key: &str, value: &str)
    requires
        members_via(old(ms)@, as_text()) is Some,
    ensures
        members_via(final(ms)@, as_text()) == Some(
            members_via(old(ms)@, as_text())->0.push((key@, value@)),
        ),
{
    push_member::<Seq<char>>(ms, key, JsonValue::Str(value.to_owned()), Ghost(as_text()));
}

fn push_item(items: &mut Vec<JsonValue>, s: &str)
    requires
        str_items(old(items)@) is Some,
    ensures
        str_items(final(items)@) == Some(str_items(old(items)@)->0.push(s@)),
{
    let ghost old_items = items@;
    items.push(JsonValue::Str(s.to_owned()));
    proof {
        assert forall|j: int| #![trigger items@[j]] 0 <= j < items@.len() implies json_str(
            items@[j],
        ) is Some by {
            if j < old_items.len() {
                assert(items@[j] == old_items[j]);
            }
        }
        assert(str_items(items@)->0 =~= str_items(old_items)->0.push(s@));
    }
}

fn new_items() -> (items: Vec<JsonValue>)
    ensures
        str_items(items@) == Some(Seq::<Seq<char>>::empty()),
{
    let items: Vec<JsonValue> = Vec::new();
    proof {
        assert(str_items(items@)->0 =~= Seq::<Seq<char>>::empty());
    }
    items
}

/// Set `key` to the string `value`, in place when the key is there.
fn insert_str(ms: &mut Vec<(String, JsonValue)>, key: &str, value: &str)
    requires
        members_via(old(ms)@, as_text()) is Some,
    ensures
        members_via(final(ms)@, as_text()) == Some(
            pairs_insert(members_via(old(ms)@, as_text())->0, key@, value@),
        ),
{
    let ghost p = members_via(ms@, as_text())->0;
    proof {
        lemma_key_pos(p, key@, 0);
    }
    let mut j: usize = 0;
    while j < ms.len()
        invariant
            j <= ms@.len(),
            ms@ == old(ms)@,
            members_via(ms@, as_text()) == Some(p),
            key_pos(p, key@, j as int) == key_pos(p, key@, 0),
        decreases ms@.len() - j,
    {
        if str_eq(ms[j].0.as_str(), key) {
            let ghost old_ms = ms@;
            assert(p[j as int].0 == key@);
            ms.set(j, (key.to_owned(), JsonValue::Str(value.to_owned())));
            proof {
                assert forall|i: int| #![trigger ms@[i]] 0 <= i < ms@.len() implies as_text()(
                    ms@[i].1,
                ) is Some by {
                    if i != j {
                        assert(ms@[i] == old_ms[i]);
                    }
                }
                assert(members_via(ms@, as_text())->0 =~= p.update(j as int, (key@, value@)));
            }
            return;
        }
        j += 1;
    }
    push_str(ms, key, value);
}

fn color_members(colors: &Vec<(String, String)>) -> (ms: Vec<(String, JsonValue)>)
    ensures
        members_via(ms@, as_text()) == Some(color_pairs(colors@)),
{
    let mut ms = new_members::<Seq<char>>(Ghost(as_text()));
    let mut j: usize = 0;
    while j < colors.len()
        invariant
            j <= colors@.len(),
            members_via(ms@, as_text()) == Some(color_pairs(colors@).take(j as int)),
        decreases colors@.len() - j,
    {
        push_str(&mut ms, colors[j].0.as_str(), colors[j].1.as_str());
        proof {
            assert(color_pairs(colors@).take(j + 1) =~= color_pairs(colors@).take(j as int).push(
                (colors@[j as int].0@, colors@[j as int].1@),
            ));
        }
        j += 1;
    }
    proof {
        assert(color_pairs(colors@).take(j as int) =~= color_pairs(colors@));
    }
    ms
}

/// The colour table as a theme table.
fn color_table(colors: &Vec<(String, String)>) -> (r: JsonValue)
    ensures
        text_members(r) == Some(color_pairs(colors@)),
{
    JsonValue::Object(color_members(colors))
}

/// The colour table with one more key set.
fn color_table_with(colors: &Vec<(String, String)>, key: &str, value: &str) -> (r: JsonValue)
    ensures
        text_members(r) == Some(pairs_insert(color_pairs(colors@), key@, value@)),
{
    let mut ms = color_members(colors);
    insert_str(&mut ms, key, value);
    JsonValue::Object(ms)
}

/// `ringOpacity`: the opacity scale with `DEFAULT` at `0.5`.
fn ring_opacity_table() -> (r: JsonValue)
    ensures
        text_members(r) == Some(pairs_insert(opacity_pairs(), "DEFAULT"@, "0.5"@)),
{
    match opacity_table() {
        JsonValue::Object(ms) => {
            let mut ms = ms;
            insert_str(&mut ms, "DEFAULT", "0.5");
            JsonValue::Object(ms)
        },
        _ => JsonValue::Object(Vec::new()),
    }
}

fn size_entry(size: &str, line_height: &str) -> (v: JsonValue)
    ensures
        as_sized()(v) == Some((size@, line_height@)),
{
    let mut options = new_members::<Seq<char>>(Ghost(as_text()));
    push_str(&mut options, "lineHeight", line_height);
    let mut items: Vec<JsonValue> = Vec::new();
    items.push(JsonValue::Str(size.to_owned()));
    items.push(JsonValue::Object(options));
    JsonValue::Array(items)
}

fn add_table(
    ms: &mut Vec<(String, JsonValue)>,
    key: &str,
    value: JsonValue,
    Ghost(es): Ghost<Seq<(Seq<char>, ThemeTable)>>,
    Ghost(t): Ghost<ThemeTable>,
)
    requires
        tables_hold(old(ms)@, es),
        table_holds(value, t),
    ensures
        tables_hold(final(ms)@, es.push((key@, t))),
{
    let ghost old_ms = ms@;
    ms.push((key.to_owned(), value));
    proof {
        assert forall|j: int| #![trigger ms@[j]] 0 <= j < ms@.len() implies ms@[j].0@ == es.push(
            (key@, t),
        )[j].0 && table_holds(ms@[j].1, es.push((key@, t))[j].1) by {
            if j < old_ms.len() {
                assert(ms@[j] == old_ms[j]);
            }
        }
    }
}

/// The default `fontFamily` table: the sans, serif and mono stacks.
pub open spec fn font_family_spec() -> Seq<(Seq<char>, Seq<Seq<char>>)> {
    Seq::empty()
        .push(("sans"@, Seq::empty()
            .push("ui-sans-serif"@)
            .push("system-ui"@)
            .push("sans-serif"@)
            .push("\"Apple Color Emoji\""@)
            .push("\"Segoe UI Emoji\""@)
            .push("\"Segoe UI Symbol\""@)
            .push("\"Noto Color Emoji\""@)))
        .push(("serif"@, Seq::empty()
            .push("ui-serif"@)
            .push("Georgia"@)
            .push("Cambria"@)
            .push("\"Times New Roman\""@)
            .push("Times"@)
            .push("serif"@)))
        .push(("mono"@, Seq::empty()
            .push("ui-monospace"@)
            .push("SFMono-Regular"@)
            .push("Menlo"@)
            .push("Monaco"@)
            .push("Consolas"@)
            .push("\"Liberation Mono\""@)
            .push("\"Courier New\""@)
            .push("monospace"@)))
}

fn font_family_table() -> (r: JsonValue)
    ensures
        table_holds(r, ThemeTable::Lists(font_family_spec())),
{
    let mut sans = new_items();
    push_item(&mut sans, "ui-sans-serif");
    push_item(&mut sans, "system-ui");
    push_item(&mut sans, "sans-serif");
    push_item(&mut sans, "\"Apple Color Emoji\"");
    push_item(&mut sans, "\"Segoe UI Emoji\"");
    push_item(&mut sans, "\"Segoe UI Symbol\"");
    push_item(&mut sans, "\"Noto Color Emoji\"");
    let mut serif = new_items();
    push_item(&mut serif, "ui-serif");
    push_item(&mut serif, "Georgia");
    push_item(&mut serif, "Cambria");
    push_item(&mut serif, "\"Times New Roman\"");
    push_item(&mut serif, "Times");
    push_item(&mut serif, "serif");
    let mut mono = new_items();
    push_item(&mut mono, "ui-monospace");
    push_item(&mut mono, "SFMono-Regular");
    push_item(&mut mono, "Menlo");
    push_item(&mut mono, "Monaco");
    push_item(&mut mono, "Consolas");
    push_item(&mut mono, "\"Liberation Mono\"");
    push_item(&mut mono, "\"Courier New\"");
    push_item(&mut mono, "monospace");
    let mut ms = new_members::<Seq<Seq<char>>>(Ghost(as_list()));
    push_member::<Seq<Seq<char>>>(&mut ms, "sans", JsonValue::Array(sans), Ghost(as_list()));
    push_member::<Seq<Seq<char>>>(&mut ms, "serif", JsonValue::Array(serif), Ghost(as_list()));
    push_member::<Seq<Seq<char>>>(&mut ms, "mono", JsonValue::Array(mono), Ghost(as_list()));
    JsonValue::Object(ms)
}

/// The default `dropShadow` table.
pub open spec fn drop_shadow_spec() -> Seq<(Seq<char>, Shadow)> {
    Seq::empty()
        .push(("sm"@, Shadow::One("0 1px 1px rgb(0 0 0 / 0.05)"@)))
        .push(("DEFAULT"@, Shadow::Layers(Seq::empty()
            .push("0 1px 2px rgb(0 0 0 / 0.1)"@)
            .push("0 1px 1px rgb(0 0 0 / 0.06)"@))))
        .push(("md"@, Shadow::Layers(Seq::empty()
            .push("0 4px 3px rgb(0 0 0 / 0.07)"@)
            .push("0 2px 2px rgb(0 0 0 / 0.06)"@))))
        .push(("lg"@, Shadow::Layers(Seq::empty()
            .push("0 10px 8px rgb(0 0 0 / 0.04)"@)
            .push("0 4px 3px rgb(0 0 0 / 0.1)"@))))
        .push(("xl"@, Shadow::Layers(Seq::empty()
            .push("0 20px 13px rgb(0 0 0 / 0.03)"@)
            .push("0 8px 5px rgb(0 0 0 / 0.08)"@))))
        .push(("2xl"@, Shadow::One("0 25px 25px rgb(0 0 0 / 0.15)"@)))
        .push(("none"@, Shadow::One("0 0 #0000"@)))
}

fn shadow_layers(a: &str, b: &str) -> (v: JsonValue)
    ensures
        as_shadow()(v) == Some(Shadow::Layers(Seq::empty().push(a@).push(b@))),
{
    let mut items = new_items();
    push_item(&mut items, a);
    push_item(&mut items, b);
    JsonValue::Array(items)
}

fn drop_shadow_table() -> (r: JsonValue)
    ensures
        table_holds(r, ThemeTable::Shadows(drop_shadow_spec())),
{
    let mut ms = new_members::<Shadow>(Ghost(as_shadow()));
    push_member::<Shadow>(&mut ms, "sm", JsonValue::Str("0 1px 1px rgb(0 0 0 / 0.05)".to_owned()), Ghost(as_shadow()));
    push_member::<Shadow>(&mut ms, "DEFAULT", shadow_layers("0 1px 2px rgb(0 0 0 / 0.1)", "0 1px 1px rgb(0 0 0 / 0.06)"), Ghost(as_shadow()));
    push_member::<Shadow>(&mut ms, "md", shadow_layers("0 4px 3px rgb(0 0 0 / 0.07)", "0 2px 2px rgb(0 0 0 / 0.06)"), Ghost(as_shadow()));
    push_member::<Shadow>(&mut ms, "lg", shadow_layers("0 10px 8px rgb(0 0 0 / 0.04)", "0 4px 3px rgb(0 0 0 / 0.1)"), Ghost(as_shadow()));
    push_member::<Shadow>(&mut ms, "xl", shadow_layers("0 20px 13px rgb(0 0 0 / 0.03)", "0 8px 5px rgb(0 0 0 / 0.08)"), Ghost(as_shadow()));
    push_member::<Shadow>(&mut ms, "2xl", JsonValue::Str("0 25px 25px rgb(0 0 0 / 0.15)".to_owned()), Ghost(as_shadow()));
    push_member::<Shadow>(&mut ms, "none", JsonValue::Str("0 0 #0000".to_owned()), Ghost(as_shadow()));
    JsonValue::Object(ms)
}

/// The default `transform_origin` table, in insertion order.
pub open spec fn transform_origin_pairs() -> Seq<(Seq<char>, Seq<char>)> {
    Seq::empty()
        .push(("center"@, "center"@))
        .push(("top"@, "top"@))
        .push(("top-right"@, "top right"@))
        .push(("right"@, "right"@))
        .push(("bottom-right"@, "bottom right"@))
        .push(("bottom"@, "bottom"@))
        .push(("bottom-left"@, "bottom left"@))
        .push(("left"@, "left"@))
        .push(("top-left"@, "top left"@))
}

fn transform_origin_table() -> (r: JsonValue)
    ensures
        text_members(r) == Some(transform_origin_pairs()),
{
    let mut ms = new_members::<Seq<char>>(Ghost(as_text()));
    push_str(&mut ms, "center", "center");
    push_str(&mut ms, "top", "top");
    push_str(&mut ms, "top-right", "top right");
    push_str(&mut ms, "right", "right");
    push_str(&mut ms, "bottom-right", "bottom right");
    push_str(&mut ms, "bottom", "bottom");
    push_str(&mut ms, "bottom-left", "bottom left");
    push_str(&mut ms, "left", "left");
    push_str(&mut ms, "top-left", "top left");
    JsonValue::Object(ms)
}

/// The default `stroke_width` table, in insertion order.
pub open spec fn stroke_width_pairs() -> Seq<(Seq<char>, Seq<char>)> {
    Seq::empty()
        .push(("0"@, "0"@))
        .push(("1"@, "1"@))
        .push(("2"@, "2"@))
}

fn stroke_width_table() -> (r: JsonValue)
    ensures
        text_members(r) == Some(stroke_width_pairs()),
{
    let mut ms = new_members::<Seq<char>>(Ghost(as_text()));
    push_str(&mut ms, "0", "0");
    push_str(&mut ms, "1", "1");
    push_str(&mut ms, "2", "2");
    JsonValue::Object(ms)
}

/// The default `aspect_ratio` table, in insertion order.
pub open spec fn aspect_ratio_pairs() -> Seq<(Seq<char>, Seq<char>)> {
    Seq::empty()
        .push(("auto"@, "auto"@))
        .push(("square"@, "1 / 1"@))
        .push(("video"@, "16 / 9"@))
}

fn aspect_ratio_table() -> (r: JsonValue)
    ensures
        text_members(r) == Some(aspect_ratio_pairs()),
{
    let mut ms = new_members::<Seq<char>>(Ghost(as_text()));
    push_str(&mut ms, "auto", "auto");
    push_str(&mut ms, "square", "1 / 1");
    push_str(&mut ms, "video", "16 / 9");
    JsonValue::Object(ms)
}

/// The default `object_position` table, in insertion order.
pub open spec fn object_position_pairs() -> Seq<(Seq<char>, Seq<char>)> {
    Seq::empty()
        .push(("bottom"@, "bottom"@))
        .push(("center"@, "center"@))
        .push(("left"@, "left"@))
        .push(("left-bottom"@, "left bottom"@))
        .push(("left-top"@, "left top"@))
        .push(("right"@, "right"@))
        .push(("right-bottom"@, "right bottom"@))
        .push(("right-top"@, "right top"@))
        .push(("top"@, "top"@))
}

fn object_position_table() -> (r: JsonValue)
    ensures
        text_members(r) == Some(object_position_pairs()),
{
    let mut ms = new_members::<Seq<char>>(Ghost(as_text()));
    push_str(&mut ms, "bottom", "bottom");
    push_str(&mut ms, "center", "center");
    push_str(&mut ms, "left", "left");
    push_str(&mut ms, "left-bottom", "left bottom");
    push_str(&mut ms, "left-top", "left top");
    push_str(&mut ms, "right", "right");
    push_str(&mut ms, "right-bottom", "right bottom");
    push_str(&mut ms, "right-top", "right top");
    push_str(&mut ms, "top", "top");
    JsonValue::Object(ms)
}

/// The default `will_change` table, in insertion order.
pub open spec fn will_change_pairs() -> Seq<(Seq<char>, Seq<char>)> {
    Seq::empty()
        .push(("auto"@, "auto"@))
        .push(("scroll"@, "scroll-position"@))
        .push(("contents"@, "contents"@))
        .push(("transform"@, "transform"@))
}

fn will_change_table() -> (r: JsonValue)
    ensures
        text_members(r) == Some(will_change_pairs()),
{
    let mut ms = new_members::<Seq<char>>(Ghost(as_text()));
    push_str(&mut ms, "auto", "auto");
    push_str(&mut ms, "scroll", "scroll-position");
    push_str(&mut ms, "contents", "contents");
    push_str(&mut ms, "transform", "transform");
    JsonValue::Object(ms)
}

/// The default `columns` table, in insertion order.
pub open spec fn columns_pairs() -> Seq<(Seq<char>, Seq<char>)> {
    Seq::empty()
        .push(("auto"@, "auto"@))
        .push(("1"@, "1"@))
        .push(("2"@, "2"@))
        .push(("3"@, "3"@))
        .push(("4"@, "4"@))
        .push(("5"@, "5"@))
        .push(("6"@, "6"@))
        .push(("7"@, "7"@))
        .push(("8"@, "8"@))
        .push(("9"@, "9"@))
        .push(("10"@, "10"@))
        .push(("11"@, "11"@))
        .push(("12"@, "12"@))
        .push(("3xs"@, "16rem"@))
        .push(("2xs"@, "18rem"@))
        .push(("xs"@, "20rem"@))
        .push(("sm"@, "24rem"@))
        .push(("md"@, "28rem"@))
        .push(("lg"@, "32rem"@))
        .push(("xl"@, "36rem"@))
        .push(("2xl"@, "42rem"@))
        .push(("3xl"@, "48rem"@))
        .push(("4xl"@, "56rem"@))
        .push(("5xl"@, "64rem"@))
        .push(("6xl"@, "72rem"@))
        .push(("7xl"@, "80rem"@))
}

fn columns_table() -> (r: JsonValue)
    ensures
        text_members(r) == Some(columns_pairs()),
{
    let mut ms = new_members::<Seq<char>>(Ghost(as_text()));
    push_str(&mut ms, "auto", "auto");
    push_str(&mut ms, "1", "1");
    push_str(&mut ms, "2", "2");
    push_str(&mut ms, "3", "3");
    push_str(&mut ms, "4", "4");
    push_str(&mut ms, "5", "5");
    push_str(&mut ms, "6", "6");
    push_str(&mut ms, "7", "7");
    push_str(&mut ms, "8", "8");
    push_str(&mut ms, "9", "9");
    push_str(&mut ms, "10", "10");
    push_str(&mut ms, "11", "11");
    push_str(&mut ms, "12", "12");
    push_str(&mut ms, "3xs", "16rem");
    push_str(&mut ms, "2xs", "18rem");
    push_str(&mut ms, "xs", "20rem");
    push_str(&mut ms, "sm", "24rem");
    push_str(&mut ms, "md", "28rem");
    push_str(&mut ms, "lg", "32rem");
    push_str(&mut ms, "xl", "36rem");
    push_str(&mut ms, "2xl", "42rem");
    push_str(&mut ms, "3xl", "48rem");
    push_str(&mut ms, "4xl", "56rem");
    push_str(&mut ms, "5xl", "64rem");
    push_str(&mut ms, "6xl", "72rem");
    push_str(&mut ms, "7xl", "80rem");
    JsonValue::Object(ms)
}

/// The default `text_decoration_thickness` table, in insertion order.
pub open spec fn text_decoration_thickness_pairs() -> Seq<(Seq<char>, Seq<char>)> {
    Seq::empty()
        .push(("auto"@, "auto"@))
        .push(("from-font"@, "from-font"@))
        .push(("0"@, "0px"@))
        .push(("1"@, "1px"@))
        .push(("2"@, "2px"@))
        .push(("4"@, "4px"@))
        .push(("8"@, "8px"@))
}

fn text_decoration_thickness_table() -> (r: JsonValue)
    ensures
        text_members(r) == Some(text_decoration_thickness_pairs()),
{
    let mut ms = new_members::<Seq<char>>(Ghost(as_text()));
    push_str(&mut ms, "auto", "auto");
    push_str(&mut ms, "from-font", "from-font");
    push_str(&mut ms, "0", "0px");
    push_str(&mut ms, "1", "1px");
    push_str(&mut ms, "2", "2px");
    push_str(&mut ms, "4", "4px");
    push_str(&mut ms, "8", "8px");
    JsonValue::Object(ms)
}

/// The default `content` table, in insertion order.
pub open spec fn content_pairs() -> Seq<(Seq<char>, Seq<char>)> {
    Seq::empty()
        .push(("none"@, "none"@))
}

fn content_table() -> (r: JsonValue)
    ensures
        text_members(r) == Some(content_pairs()),
{
    let mut ms = new_members::<Seq<char>>(Ghost(as_text()));
    push_str(&mut ms, "none", "none");
    JsonValue::Object(ms)
}

/// The default `line_clamp` table, in insertion order.
pub open spec fn line_clamp_pairs() -> Seq<(Seq<char>, Seq<char>)> {
    Seq::empty()
        .push(("1"@, "1"@))
        .push(("2"@, "2"@))
        .push(("3"@, "3"@))
        .push(("4"@, "4"@))
        .push(("5"@, "5"@))
        .push(("6"@, "6"@))
}

fn line_clamp_table() -> (r: JsonValue)
    ensures
        text_members(r) == Some(line_clamp_pairs()),
{
    let mut ms = new_members::<Seq<char>>(Ghost(as_text()));
    push_str(&mut ms, "1", "1");
    push_str(&mut ms, "2", "2");
    push_str(&mut ms, "3", "3");
    push_str(&mut ms, "4", "4");
    push_str(&mut ms, "5", "5");
    push_str(&mut ms, "6", "6");
    JsonValue::Object(ms)
}

/// The default `text_underline_offset` table, in insertion order.
pub open spec fn text_underline_offset_pairs() -> Seq<(Seq<char>, Seq<char>)> {
    Seq::empty()
        .push(("auto"@, "auto"@))
        .push(("0"@, "0px"@))
        .push(("1"@, "1px"@))
        .push(("2"@, "2px"@))
        .push(("4"@, "4px"@))
        .push(("8"@, "8px"@))
}

fn text_underline_offset_table() -> (r: JsonValue)
    ensures
        text_members(r) == Some(text_underline_offset_pairs()),
{
    let mut ms = new_members::<Seq<char>>(Ghost(as_text()));
    push_str(&mut ms, "auto", "auto");
    push_str(&mut ms, "0", "0px");
    push_str(&mut ms, "1", "1px");
    push_str(&mut ms, "2", "2px");
    push_str(&mut ms, "4", "4px");
    push_str(&mut ms, "8", "8px");
    JsonValue::Object(ms)
}

/// The default `box_shadow` table, in insertion order.
pub open spec fn box_shadow_pairs() -> Seq<(Seq<char>, Seq<char>)> {
    Seq::empty()
        .push(("sm"@, "0 1px 2px 0 rgb(0 0 0 / 0.05)"@))
        .push(("DEFAULT"@, "0 1px 3px 0 rgb(0 0 0 / 0.1), 0 1px 2px -1px rgb(0 0 0 / 0.1)"@))
        .push(("md"@, "0 4px 6px -1px rgb(0 0 0 / 0.1), 0 2px 4px -2px rgb(0 0 0 / 0.1)"@))
        .push(("lg"@, "0 10px 15px -3px rgb(0 0 0 / 0.1), 0 4px 6px -4px rgb(0 0 0 / 0.1)"@))
        .push(("xl"@, "0 20px 25px -5px rgb(0 0 0 / 0.1), 0 8px 10px -6px rgb(0 0 0 / 0.1)"@))
        .push(("2xl"@, "0 25px 50px -12px rgb(0 0 0 / 0.25)"@))
        .push(("inner"@, "inset 0 2px 4px 0 rgb(0 0 0 / 0.05)"@))
        .push(("none"@, "none"@))
}

fn box_shadow_table() -> (r: JsonValue)
    ensures
        text_members(r) == Some(box_shadow_pairs()),
{
    let mut ms = new_members::<Seq<char>>(Ghost(as_text()));
    push_str(&mut ms, "sm", "0 1px 2px 0 rgb(0 0 0 / 0.05)");
    push_str(&mut ms, "DEFAULT", "0 1px 3px 0 rgb(0 0 0 / 0.1), 0 1px 2px -1px rgb(0 0 0 / 0.1)");
    push_str(&mut ms, "md", "0 4px 6px -1px rgb(0 0 0 / 0.1), 0 2px 4px -2px rgb(0 0 0 / 0.1)");
    push_str(&mut ms, "lg", "0 10px 15px -3px rgb(0 0 0 / 0.1), 0 4px 6px -4px rgb(0 0 0 / 0.1)");
    push_str(&mut ms, "xl", "0 20px 25px -5px rgb(0 0 0 / 0.1), 0 8px 10px -6px rgb(0 0 0 / 0.1)");
    push_str(&mut ms, "2xl", "0 25px 50px -12px rgb(0 0 0 / 0.25)");
    push_str(&mut ms, "inner", "inset 0 2px 4px 0 rgb(0 0 0 / 0.05)");
    push_str(&mut ms, "none", "none");
    JsonValue::Object(ms)
}

/// The default `ring_width` table, in insertion order.
pub open spec fn ring_width_pairs() -> Seq<(Seq<char>, Seq<char>)> {
    Seq::empty()
        .push(("DEFAULT"@, "3px"@))
        .push(("0"@, "0px"@))
        .push(("1"@, "1px"@))
        .push(("2"@, "2px"@))
        .push(("4"@, "4px"@))
        .push(("8"@, "8px"@))
}

fn ring_width_table() -> (r: JsonValue)
    ensures
        text_members(r) == Some(ring_width_pairs()),
{
    let mut ms = new_members::<Seq<char>>(Ghost(as_text()));
    push_str(&mut ms, "DEFAULT", "3px");
    push_str(&mut ms, "0", "0px");
    push_str(&mut ms, "1", "1px");
    push_str(&mut ms, "2", "2px");
    push_str(&mut ms, "4", "4px");
    push_str(&mut ms, "8", "8px");
    JsonValue::Object(ms)
}

/// The default `gradient_position` table, in insertion order.
pub open spec fn gradient_position_pairs() -> Seq<(Seq<char>, Seq<char>)> {
    Seq::empty()
        .push(("0%"@, "0%"@))
        .push(("5%"@, "5%"@))
        .push(("10%"@, "10%"@))
        .push(("15%"@, "15%"@))
        .push(("20%"@, "20%"@))
        .push(("25%"@, "25%"@))
        .push(("30%"@, "30%"@))
        .push(("35%"@, "35%"@))
        .push(("40%"@, "40%"@))
        .push(("45%"@, "45%"@))
        .push(("50%"@, "50%"@))
        .push(("55%"@, "55%"@))
        .push(("60%"@, "60%"@))
        .push(("65%"@, "65%"@))
        .push(("70%"@, "70%"@))
        .push(("75%"@, "75%"@))
        .push(("80%"@, "80%"@))
        .push(("85%"@, "85%"@))
        .push(("90%"@, "90%"@))
        .push(("95%"@, "95%"@))
        .push(("100%"@, "100%"@))
}

fn gradient_position_table() -> (r: JsonValue)
    ensures
        text_members(r) == Some(gradient_position_pairs()),
{
    let mut ms = new_members::<Seq<char>>(Ghost(as_text()));
    push_str(&mut ms, "0%", "0%");
    push_str(&mut ms, "5%", "5%");
    push_str(&mut ms, "10%", "10%");
    push_str(&mut ms, "15%", "15%");
    push_str(&mut ms, "20%", "20%");
    push_str(&mut ms, "25%", "25%");
    push_str(&mut ms, "30%", "30%");
    push_str(&mut ms, "35%", "35%");
    push_str(&mut ms, "40%", "40%");
    push_str(&mut ms, "45%", "45%");
    push_str(&mut ms, "50%", "50%");
    push_str(&mut ms, "55%", "55%");
    push_str(&mut ms, "60%", "60%");
    push_str(&mut ms, "65%", "65%");
    push_str(&mut ms, "70%", "70%");
    push_str(&mut ms, "75%", "75%");
    push_str(&mut ms, "80%", "80%");
    push_str(&mut ms, "85%", "85%");
    push_str(&mut ms, "90%", "90%");
    push_str(&mut ms, "95%", "95%");
    push_str(&mut ms, "100%", "100%");
    JsonValue::Object(ms)
}

/// The default `ring_offset_width` table, in insertion order.
pub open spec fn ring_offset_width_pairs() -> Seq<(Seq<char>, Seq<char>)> {
    Seq::empty()
        .push(("0"@, "0px"@))
        .push(("1"@, "1px"@))
        .push(("2"@, "2px"@))
        .push(("4"@, "4px"@))
        .push(("8"@, "8px"@))
}

fn ring_offset_width_table() -> (r: JsonValue)
    ensures
        text_members(r) == Some(ring_offset_width_pairs()),
{
    let mut ms = new_members::<Seq<char>>(Ghost(as_text()));
    push_str(&mut ms, "0", "0px");
    push_str(&mut ms, "1", "1px");
    push_str(&mut ms, "2", "2px");
    push_str(&mut ms, "4", "4px");
    push_str(&mut ms, "8", "8px");
    JsonValue::Object(ms)
}

/// The default `inset` table, in insertion order.
pub open spec fn inset_pairs() -> Seq<(Seq<char>, Seq<char>)> {
    Seq::empty()
        .push(("px"@, "1px"@))
        .push(("0"@, "0px"@))
        .push(("0.5"@, "0.125rem"@))
        .push(("1"@, "0.25rem"@))
        .push(("1.5"@, "0.375rem"@))
        .push(("2"@, "0.5rem"@))
        .push(("2.5"@, "0.625rem"@))
        .push(("3"@, "0.75rem"@))
        .push(("3.5"@, "0.875rem"@))
        .push(("4"@, "1rem"@))
        .push(("5"@, "1.25rem"@))
        .push(("6"@, "1.5rem"@))
        .push(("7"@, "1.75rem"@))
        .push(("8"@, "2rem"@))
        .push(("9"@, "2.25rem"@))
        .push(("10"@, "2.5rem"@))
        .push(("11"@, "2.75rem"@))
        .push(("12"@, "3rem"@))
        .push(("14"@, "3.5rem"@))
        .push(("16"@, "4rem"@))
        .push(("20"@, "5rem"@))
        .push(("24"@, "6rem"@))
        .push(("28"@, "7rem"@))
        .push(("32"@, "8rem"@))
        .push(("36"@, "9rem"@))
        .push(("40"@, "10rem"@))
        .push(("44"@, "11rem"@))
        .push(("48"@, "12rem"@))
        .push(("52"@, "13rem"@))
        .push(("56"@, "14rem"@))
        .push(("60"@, "15rem"@))
        .push(("64"@, "16rem"@))
        .push(("72"@, "18rem"@))
        .push(("80"@, "20rem"@))
        .push(("96"@, "24rem"@))
        .push(("auto"@, "auto"@))
        .push(("1/2"@, "50%"@))
        .push(("1/3"@, "33.333333%"@))
        .push(("2/3"@, "66.666667%"@))
        .push(("1/4"@, "25%"@))
        .push(("2/4"@, "50%"@))
        .push(("3/4"@, "75%"@))
        .push(("full"@, "100%"@))
}

fn inset_table() -> (r: JsonValue)
    ensures
        text_members(r) == Some(inset_pairs()),
{
    let mut ms = new_members::<Seq<char>>(Ghost(as_text()));
    push_str(&mut ms, "px", "1px");
    push_str(&mut ms, "0", "0px");
    push_str(&mut ms, "0.5", "0.125rem");
    push_str(&mut ms, "1", "0.25rem");
    push_str(&mut ms, "1.5", "0.375rem");
    push_str(&mut ms, "2", "0.5rem");
    push_str(&mut ms, "2.5", "0.625rem");
    push_str(&mut ms, "3", "0.75rem");
    push_str(&mut ms, "3.5", "0.875rem");
    push_str(&mut ms, "4", "1rem");
    push_str(&mut ms, "5", "1.25rem");
    push_str(&mut ms, "6", "1.5rem");
    push_str(&mut ms, "7", "1.75rem");
    push_str(&mut ms, "8", "2rem");
    push_str(&mut ms, "9", "2.25rem");
    push_str(&mut ms, "10", "2.5rem");
    push_str(&mut ms, "11", "2.75rem");
    push_str(&mut ms, "12", "3rem");
    push_str(&mut ms, "14", "3.5rem");
    push_str(&mut ms, "16", "4rem");
    push_str(&mut ms, "20", "5rem");
    push_str(&mut ms, "24", "6rem");
    push_str(&mut ms, "28", "7rem");
    push_str(&mut ms, "32", "8rem");
    push_str(&mut ms, "36", "9rem");
    push_str(&mut ms, "40", "10rem");
    push_str(&mut ms, "44", "11rem");
    push_str(&mut ms, "48", "12rem");
    push_str(&mut ms, "52", "13rem");
    push_str(&mut ms, "56", "14rem");
    push_str(&mut ms, "60", "15rem");
    push_str(&mut ms, "64", "16rem");
    push_str(&mut ms, "72", "18rem");
    push_str(&mut ms, "80", "20rem");
    push_str(&mut ms, "96", "24rem");
    push_str(&mut ms, "auto", "auto");
    push_str(&mut ms, "1/2", "50%");
    push_str(&mut ms, "1/3", "33.333333%");
    push_str(&mut ms, "2/3", "66.666667%");
    push_str(&mut ms, "1/4", "25%");
    push_str(&mut ms, "2/4", "50%");
    push_str(&mut ms, "3/4", "75%");
    push_str(&mut ms, "full", "100%");
    JsonValue::Object(ms)
}

/// The default `z_index` table, in insertion order.
pub open spec fn z_index_pairs() -> Seq<(Seq<char>, Seq<char>)> {
    Seq::empty()
        .push(("auto"@, "auto"@))
        .push(("0"@, "0"@))
        .push(("10"@, "10"@))
        .push(("20"@, "20"@))
        .push(("30"@, "30"@))
        .push(("40"@, "40"@))
        .push(("50"@, "50"@))
}

fn z_index_table() -> (r: JsonValue)
    ensures
        text_members(r) == Some(z_index_pairs()),
{
    let mut ms = new_members::<Seq<char>>(Ghost(as_text()));
    push_str(&mut ms, "auto", "auto");
    push_str(&mut ms, "0", "0");
    push_str(&mut ms, "10", "10");
    push_str(&mut ms, "20", "20");
    push_str(&mut ms, "30", "30");
    push_str(&mut ms, "40", "40");
    push_str(&mut ms, "50", "50");
    JsonValue::Object(ms)
}

/// The default `cursor` table, in insertion order.
pub open spec fn cursor_pairs() -> Seq<(Seq<char>, Seq<char>)> {
    Seq::empty()
        .push(("auto"@, "auto"@))
        .push(("default"@, "default"@))
        .push(("pointer"@, "pointer"@))
        .push(("wait"@, "wait"@))
        .push(("text"@, "text"@))
        .push(("move"@, "move"@))
        .push(("help"@, "help"@))
        .push(("not-allowed"@, "not-allowed"@))
        .push(("none"@, "none"@))
        .push(("context-menu"@, "context-menu"@))
        .push(("progress"@, "progress"@))
        .push(("cell"@, "cell"@))
        .push(("crosshair"@, "crosshair"@))
        .push(("vertical-text"@, "vertical-text"@))
        .push(("alias"@, "alias"@))
        .push(("copy"@, "copy"@))
        .push(("no-drop"@, "no-drop"@))
        .push(("grab"@, "grab"@))
        .push(("grabbing"@, "grabbing"@))
        .push(("all-scroll"@, "all-scroll"@))
        .push(("col-resize"@, "col-resize"@))
        .push(("row-resize"@, "row-resize"@))
        .push(("n-resize"@, "n-resize"@))
        .push(("e-resize"@, "e-resize"@))
        .push(("s-resize"@, "s-resize"@))
        .push(("w-resize"@, "w-resize"@))
        .push(("ne-resize"@, "ne-resize"@))
        .push(("nw-resize"@, "nw-resize"@))
        .push(("se-resize"@, "se-resize"@))
        .push(("sw-resize"@, "sw-resize"@))
        .push(("ew-resize"@, "ew-resize"@))
        .push(("ns-resize"@, "ns-resize"@))
        .push(("nesw-resize"@, "nesw-resize"@))
        .push(("nwse-resize"@, "nwse-resize"@))
        .push(("zoom-in"@, "zoom-in"@))
        .push(("zoom-out"@, "zoom-out"@))
}

fn cursor_table() -> (r: JsonValue)
    ensures
        text_members(r) == Some(cursor_pairs()),
{
    let mut ms = new_members::<Seq<char>>(Ghost(as_text()));
    push_str(&mut ms, "auto", "auto");
    push_str(&mut ms, "default", "default");
    push_str(&mut ms, "pointer", "pointer");
    push_str(&mut ms, "wait", "wait");
    push_str(&mut ms, "text", "text");
    push_str(&mut ms, "move", "move");
    push_str(&mut ms, "help", "help");
    push_str(&mut ms, "not-allowed", "not-allowed");
    push_str(&mut ms, "none", "none");
    push_str(&mut ms, "context-menu", "context-menu");
    push_str(&mut ms, "progress", "progress");
    push_str(&mut ms, "cell", "cell");
    push_str(&mut ms, "crosshair", "crosshair");
    push_str(&mut ms, "vertical-text", "vertical-text");
    push_str(&mut ms, "alias", "alias");
    push_str(&mut ms, "copy", "copy");
    push_str(&mut ms, "no-drop", "no-drop");
    push_str(&mut ms, "grab", "grab");
    push_str(&mut ms, "grabbing", "grabbing");
    push_str(&mut ms, "all-scroll", "all-scroll");
    push_str(&mut ms, "col-resize", "col-resize");
    push_str(&mut ms, "row-resize", "row-resize");
    push_str(&mut ms, "n-resize", "n-resize");
    push_str(&mut ms, "e-resize", "e-resize");
    push_str(&mut ms, "s-resize", "s-resize");
    push_str(&mut ms, "w-resize", "w-resize");
    push_str(&mut ms, "ne-resize", "ne-resize");
    push_str(&mut ms, "nw-resize", "nw-resize");
    push_str(&mut ms, "se-resize", "se-resize");
    push_str(&mut ms, "sw-resize", "sw-resize");
    push_str(&mut ms, "ew-resize", "ew-resize");
    push_str(&mut ms, "ns-resize", "ns-resize");
    push_str(&mut ms, "nesw-resize", "nesw-resize");
    push_str(&mut ms, "nwse-resize", "nwse-resize");
    push_str(&mut ms, "zoom-in", "zoom-in");
    push_str(&mut ms, "zoom-out", "zoom-out");
    JsonValue::Object(ms)
}

/// The default `transition_property` table, in insertion order.
pub open spec fn transition_property_pairs() -> Seq<(Seq<char>, Seq<char>)> {
    Seq::empty()
        .push(("none"@, "none"@))
        .push(("all"@, "all"@))
        .push(("DEFAULT"@, "color, background-color, border-color, text-decoration-color, fill, stroke, opacity, box-shadow, transform, filter, backdrop-filter"@))
        .push(("colors"@, "color, background-color, border-color, text-decoration-color, fill, stroke"@))
        .push(("opacity"@, "opacity"@))
        .push(("shadow"@, "box-shadow"@))
        .push(("transform"@, "transform"@))
}

fn transition_property_table() -> (r: JsonValue)
    ensures
        text_members(r) == Some(transition_property_pairs()),
{
    let mut ms = new_members::<Seq<char>>(Ghost(as_text()));
    push_str(&mut ms, "none", "none");
    push_str(&mut ms, "all", "all");
    push_str(&mut ms, "DEFAULT", "color, background-color, border-color, text-decoration-color, fill, stroke, opacity, box-shadow, transform, filter, backdrop-filter");
    push_str(&mut ms, "colors", "color, background-color, border-color, text-decoration-color, fill, stroke");
    push_str(&mut ms, "opacity", "opacity");
    push_str(&mut ms, "shadow", "box-shadow");
    push_str(&mut ms, "transform", "transform");
    JsonValue::Object(ms)
}

/// The default `transition_duration` table, in insertion order.
pub open spec fn transition_duration_pairs() -> Seq<(Seq<char>, Seq<char>)> {
    Seq::empty()
        .push(("DEFAULT"@, "150ms"@))
        .push(("0"@, "0s"@))
        .push(("75"@, "75ms"@))
        .push(("100"@, "100ms"@))
        .push(("150"@, "150ms"@))
        .push(("200"@, "200ms"@))
        .push(("300"@, "300ms"@))
        .push(("500"@, "500ms"@))
        .push(("700"@, "700ms"@))
        .push(("1000"@, "1000ms"@))
}

fn transition_duration_table() -> (r: JsonValue)
    ensures
        text_members(r) == Some(transition_duration_pairs()),
{
    let mut ms = new_members::<Seq<char>>(Ghost(as_text()));
    push_str(&mut ms, "DEFAULT", "150ms");
    push_str(&mut ms, "0", "0s");
    push_str(&mut ms, "75", "75ms");
    push_str(&mut ms, "100", "100ms");
    push_str(&mut ms, "150", "150ms");
    push_str(&mut ms, "200", "200ms");
    push_str(&mut ms, "300", "300ms");
    push_str(&mut ms, "500", "500ms");
    push_str(&mut ms, "700", "700ms");
    push_str(&mut ms, "1000", "1000ms");
    JsonValue::Object(ms)
}

/// The default `transition_timing_function` table, in insertion order.
pub open spec fn transition_timing_function_pairs() -> Seq<(Seq<char>, Seq<char>)> {
    Seq::empty()
        .push(("DEFAULT"@, "cubic-bezier(0.4, 0, 0.2, 1)"@))
        .push(("linear"@, "linear"@))
        .push(("in"@, "cubic-bezier(0.4, 0, 1, 1)"@))
        .push(("out"@, "cubic-bezier(0, 0, 0.2, 1)"@))
        .push(("in-out"@, "cubic-bezier(0.4, 0, 0.2, 1)"@))
}

fn transition_timing_function_table() -> (r: JsonValue)
    ensures
        text_members(r) == Some(transition_timing_function_pairs()),
{
    let mut ms = new_members::<Seq<char>>(Ghost(as_text()));
    push_str(&mut ms, "DEFAULT", "cubic-bezier(0.4, 0, 0.2, 1)");
    push_str(&mut ms, "linear", "linear");
    push_str(&mut ms, "in", "cubic-bezier(0.4, 0, 1, 1)");
    push_str(&mut ms, "out", "cubic-bezier(0, 0, 0.2, 1)");
    push_str(&mut ms, "in-out", "cubic-bezier(0.4, 0, 0.2, 1)");
    JsonValue::Object(ms)
}

/// The default `transition_delay` table, in insertion order.
pub open spec fn transition_delay_pairs() -> Seq<(Seq<char>, Seq<char>)> {
    Seq::empty()
        .push(("0"@, "0s"@))
        .push(("75"@, "75ms"@))
        .push(("100"@, "100ms"@))
        .push(("150"@, "150ms"@))
        .push(("200"@, "200ms"@))
        .push(("300"@, "300ms"@))
        .push(("500"@, "500ms"@))
        .push(("700"@, "700ms"@))
        .push(("1000"@, "1000ms"@))
}

fn transition_delay_table() -> (r: JsonValue)
    ensures
        text_members(r) == Some(transition_delay_pairs()),
{
    let mut ms = new_members::<Seq<char>>(Ghost(as_text()));
    push_str(&mut ms, "0", "0s");
    push_str(&mut ms, "75", "75ms");
    push_str(&mut ms, "100", "100ms");
    push_str(&mut ms, "150", "150ms");
    push_str(&mut ms, "200", "200ms");
    push_str(&mut ms, "300", "300ms");
    push_str(&mut ms, "500", "500ms");
    push_str(&mut ms, "700", "700ms");
    push_str(&mut ms, "1000", "1000ms");
    JsonValue::Object(ms)
}

/// The default `animation` table, in insertion order.
pub open spec fn animation_pairs() -> Seq<(Seq<char>, Seq<char>)> {
    Seq::empty()
        .push(("none"@, "none"@))
        .push(("spin"@, "spin 1s linear infinite"@))
        .push(("ping"@, "ping 1s cubic-bezier(0, 0, 0.2, 1) infinite"@))
        .push(("pulse"@, "pulse 2s cubic-bezier(0.4, 0, 0.6, 1) infinite"@))
        .push(("bounce"@, "bounce 1s infinite"@))
}

fn animation_table() -> (r: JsonValue)
    ensures
        text_members(r) == Some(animation_pairs()),
{
    let mut ms = new_members::<Seq<char>>(Ghost(as_text()));
    push_str(&mut ms, "none", "none");
    push_str(&mut ms, "spin", "spin 1s linear infinite");
    push_str(&mut ms, "ping", "ping 1s cubic-bezier(0, 0, 0.2, 1) infinite");
    push_str(&mut ms, "pulse", "pulse 2s cubic-bezier(0.4, 0, 0.6, 1) infinite");
    push_str(&mut ms, "bounce", "bounce 1s infinite");
    JsonValue::Object(ms)
}

/// The default `scroll_margin` table, in insertion order.
pub open spec fn scroll_margin_pairs() -> Seq<(Seq<char>, Seq<char>)> {
    Seq::empty()
        .push(("px"@, "1px"@))
        .push(("0"@, "0px"@))
        .push(("0.5"@, "0.125rem"@))
        .push(("1"@, "0.25rem"@))
        .push(("1.5"@, "0.375rem"@))
        .push(("2"@, "0.5rem"@))
        .push(("2.5"@, "0.625rem"@))
        .push(("3"@, "0.75rem"@))
        .push(("3.5"@, "0.875rem"@))
        .push(("4"@, "1rem"@))
        .push(("5"@, "1.25rem"@))
        .push(("6"@, "1.5rem"@))
        .push(("7"@, "1.75rem"@))
        .push(("8"@, "2rem"@))
        .push(("9"@, "2.25rem"@))
        .push(("10"@, "2.5rem"@))
        .push(("11"@, "2.75rem"@))
        .push(("12"@, "3rem"@))
        .push(("14"@, "3.5rem"@))
        .push(("16"@, "4rem"@))
        .push(("20"@, "5rem"@))
        .push(("24"@, "6rem"@))
        .push(("28"@, "7rem"@))
        .push(("32"@, "8rem"@))
        .push(("36"@, "9rem"@))
        .push(("40"@, "10rem"@))
        .push(("44"@, "11rem"@))
        .push(("48"@, "12rem"@))
        .push(("52"@, "13rem"@))
        .push(("56"@, "14rem"@))
        .push(("60"@, "15rem"@))
        .push(("64"@, "16rem"@))
        .push(("72"@, "18rem"@))
        .push(("80"@, "20rem"@))
        .push(("96"@, "24rem"@))
        .push(("auto"@, "auto"@))
}

fn scroll_margin_table() -> (r: JsonValue)
    ensures
        text_members(r) == Some(scroll_margin_pairs()),
{
    let mut ms = new_members::<Seq<char>>(Ghost(as_text()));
    push_str(&mut ms, "px", "1px");
    push_str(&mut ms, "0", "0px");
    push_str(&mut ms, "0.5", "0.125rem");
    push_str(&mut ms, "1", "0.25rem");
    push_str(&mut ms, "1.5", "0.375rem");
    push_str(&mut ms, "2", "0.5rem");
    push_str(&mut ms, "2.5", "0.625rem");
    push_str(&mut ms, "3", "0.75rem");
    push_str(&mut ms, "3.5", "0.875rem");
    push_str(&mut ms, "4", "1rem");
    push_str(&mut ms, "5", "1.25rem");
    push_str(&mut ms, "6", "1.5rem");
    push_str(&mut ms, "7", "1.75rem");
    push_str(&mut ms, "8", "2rem");
    push_str(&mut ms, "9", "2.25rem");
    push_str(&mut ms, "10", "2.5rem");
    push_str(&mut ms, "11", "2.75rem");
    push_str(&mut ms, "12", "3rem");
    push_str(&mut ms, "14", "3.5rem");
    push_str(&mut ms, "16", "4rem");
    push_str(&mut ms, "20", "5rem");
    push_str(&mut ms, "24", "6rem");
    push_str(&mut ms, "28", "7rem");
    push_str(&mut ms, "32", "8rem");
    push_str(&mut ms, "36", "9rem");
    push_str(&mut ms, "40", "10rem");
    push_str(&mut ms, "44", "11rem");
    push_str(&mut ms, "48", "12rem");
    push_str(&mut ms, "52", "13rem");
    push_str(&mut ms, "56", "14rem");
    push_str(&mut ms, "60", "15rem");
    push_str(&mut ms, "64", "16rem");
    push_str(&mut ms, "72", "18rem");
    push_str(&mut ms, "80", "20rem");
    push_str(&mut ms, "96", "24rem");
    push_str(&mut ms, "auto", "auto");
    JsonValue::Object(ms)
}

/// The default `background_image` table, in insertion order.
pub open spec fn background_image_pairs() -> Seq<(Seq<char>, Seq<char>)> {
    Seq::empty()
        .push(("none"@, "none"@))
        .push(("gradient-to-t"@, "linear-gradient(to top, var(--tw-gradient-stops))"@))
        .push(("gradient-to-tr"@, "linear-gradient(to top right, var(--tw-gradient-stops))"@))
        .push(("gradient-to-r"@, "linear-gradient(to right, var(--tw-gradient-stops))"@))
        .push(("gradient-to-br"@, "linear-gradient(to bottom right, var(--tw-gradient-stops))"@))
        .push(("gradient-to-b"@, "linear-gradient(to bottom, var(--tw-gradient-stops))"@))
        .push(("gradient-to-bl"@, "linear-gradient(to bottom left, var(--tw-gradient-stops))"@))
        .push(("gradient-to-l"@, "linear-gradient(to left, var(--tw-gradient-stops))"@))
        .push(("gradient-to-tl"@, "linear-gradient(to top left, var(--tw-gradient-stops))"@))
}

fn background_image_table() -> (r: JsonValue)
    ensures
        text_members(r) == Some(background_image_pairs()),
{
    let mut ms = new_members::<Seq<char>>(Ghost(as_text()));
    push_str(&mut ms, "none", "none");
    push_str(&mut ms, "gradient-to-t", "linear-gradient(to top, var(--tw-gradient-stops))");
    push_str(&mut ms, "gradient-to-tr", "linear-gradient(to top right, var(--tw-gradient-stops))");
    push_str(&mut ms, "gradient-to-r", "linear-gradient(to right, var(--tw-gradient-stops))");
    push_str(&mut ms, "gradient-to-br", "linear-gradient(to bottom right, var(--tw-gradient-stops))");
    push_str(&mut ms, "gradient-to-b", "linear-gradient(to bottom, var(--tw-gradient-stops))");
    push_str(&mut ms, "gradient-to-bl", "linear-gradient(to bottom left, var(--tw-gradient-stops))");
    push_str(&mut ms, "gradient-to-l", "linear-gradient(to left, var(--tw-gradient-stops))");
    push_str(&mut ms, "gradient-to-tl", "linear-gradient(to top left, var(--tw-gradient-stops))");
    JsonValue::Object(ms)
}

/// The default `background_position` table, in insertion order.
pub open spec fn background_position_pairs() -> Seq<(Seq<char>, Seq<char>)> {
    Seq::empty()
        .push(("bottom"@, "bottom"@))
        .push(("center"@, "center"@))
        .push(("left"@, "left"@))
        .push(("left-bottom"@, "left bottom"@))
        .push(("left-top"@, "left top"@))
        .push(("right"@, "right"@))
        .push(("right-bottom"@, "right bottom"@))
        .push(("right-top"@, "right top"@))
        .push(("top"@, "top"@))
}

fn background_position_table() -> (r: JsonValue)
    ensures
        text_members(r) == Some(background_position_pairs()),
{
    let mut ms = new_members::<Seq<char>>(Ghost(as_text()));
    push_str(&mut ms, "bottom", "bottom");
    push_str(&mut ms, "center", "center");
    push_str(&mut ms, "left", "left");
    push_str(&mut ms, "left-bottom", "left bottom");
    push_str(&mut ms, "left-top", "left top");
    push_str(&mut ms, "right", "right");
    push_str(&mut ms, "right-bottom", "right bottom");
    push_str(&mut ms, "right-top", "right top");
    push_str(&mut ms, "top", "top");
    JsonValue::Object(ms)
}

/// The default `background_size` table, in insertion order.
pub open spec fn background_size_pairs() -> Seq<(Seq<char>, Seq<char>)> {
    Seq::empty()
        .push(("auto"@, "auto"@))
        .push(("cover"@, "cover"@))
        .push(("contain"@, "contain"@))
}

fn background_size_table() -> (r: JsonValue)
    ensures
        text_members(r) == Some(background_size_pairs()),
{
    let mut ms = new_members::<Seq<char>>(Ghost(as_text()));
    push_str(&mut ms, "auto", "auto");
    push_str(&mut ms, "cover", "cover");
    push_str(&mut ms, "contain", "contain");
    JsonValue::Object(ms)
}

/// The default `list_style_type` table, in insertion order.
pub open spec fn list_style_type_pairs() -> Seq<(Seq<char>, Seq<char>)> {
    Seq::empty()
        .push(("none"@, "none"@))
        .push(("disc"@, "disc"@))
        .push(("decimal"@, "decimal"@))
}

fn list_style_type_table() -> (r: JsonValue)
    ensures
        text_members(r) == Some(list_style_type_pairs()),
{
    let mut ms = new_members::<Seq<char>>(Ghost(as_text()));
    push_str(&mut ms, "none", "none");
    push_str(&mut ms, "disc", "disc");
    push_str(&mut ms, "decimal", "decimal");
    JsonValue::Object(ms)
}

/// The default `list_style_image` table, in insertion order.
pub open spec fn list_style_image_pairs() -> Seq<(Seq<char>, Seq<char>)> {
    Seq::empty()
        .push(("none"@, "none"@))
}

fn list_style_image_table() -> (r: JsonValue)
    ensures
        text_members(r) == Some(list_style_image_pairs()),
{
    let mut ms = new_members::<Seq<char>>(Ghost(as_text()));
    push_str(&mut ms, "none", "none");
    JsonValue::Object(ms)
}

/// The default `blur` table, in insertion order.
pub open spec fn blur_pairs() -> Seq<(Seq<char>, Seq<char>)> {
    Seq::empty()
        .push(("0"@, "0"@))
        .push(("none"@, ""@))
        .push(("sm"@, "4px"@))
        .push(("DEFAULT"@, "8px"@))
        .push(("md"@, "12px"@))
        .push(("lg"@, "16px"@))
        .push(("xl"@, "24px"@))
        .push(("2xl"@, "40px"@))
        .push(("3xl"@, "64px"@))
}

fn blur_table() -> (r: JsonValue)
    ensures
        text_members(r) == Some(blur_pairs()),
{
    let mut ms = new_members::<Seq<char>>(Ghost(as_text()));
    push_str(&mut ms, "0", "0");
    push_str(&mut ms, "none", "");
    push_str(&mut ms, "sm", "4px");
    push_str(&mut ms, "DEFAULT", "8px");
    push_str(&mut ms, "md", "12px");
    push_str(&mut ms, "lg", "16px");
    push_str(&mut ms, "xl", "24px");
    push_str(&mut ms, "2xl", "40px");
    push_str(&mut ms, "3xl", "64px");
    JsonValue::Object(ms)
}

/// The default `brightness` table, in insertion order.
pub open spec fn brightness_pairs() -> Seq<(Seq<char>, Seq<char>)> {
    Seq::empty()
        .push(("0"@, "0"@))
        .push(("50"@, ".5"@))
        .push(("75"@, ".75"@))
        .push(("90"@, ".9"@))
        .push(("95"@, ".95"@))
        .push(("100"@, "1"@))
        .push(("105"@, "1.05"@))
        .push(("110"@, "1.1"@))
        .push(("125"@, "1.25"@))
        .push(("150"@, "1.5"@))
        .push(("200"@, "2"@))
}

fn brightness_table() -> (r: JsonValue)
    ensures
        text_members(r) == Some(brightness_pairs()),
{
    let mut ms = new_members::<Seq<char>>(Ghost(as_text()));
    push_str(&mut ms, "0", "0");
    push_str(&mut ms, "50", ".5");
    push_str(&mut ms, "75", ".75");
    push_str(&mut ms, "90", ".9");
    push_str(&mut ms, "95", ".95");
    push_str(&mut ms, "100", "1");
    push_str(&mut ms, "105", "1.05");
    push_str(&mut ms, "110", "1.1");
    push_str(&mut ms, "125", "1.25");
    push_str(&mut ms, "150", "1.5");
    push_str(&mut ms, "200", "2");
    JsonValue::Object(ms)
}

/// The default `contrast` table, in insertion order.
pub open spec fn contrast_pairs() -> Seq<(Seq<char>, Seq<char>)> {
    Seq::empty()
        .push(("0"@, "0"@))
        .push(("50"@, ".5"@))
        .push(("75"@, ".75"@))
        .push(("100"@, "1"@))
        .push(("125"@, "1.25"@))
        .push(("150"@, "1.5"@))
        .push(("200"@, "2"@))
}

fn contrast_table() -> (r: JsonValue)
    ensures
        text_members(r) == Some(contrast_pairs()),
{
    let mut ms = new_members::<Seq<char>>(Ghost(as_text()));
    push_str(&mut ms, "0", "0");
    push_str(&mut ms, "50", ".5");
    push_str(&mut ms, "75", ".75");
    push_str(&mut ms, "100", "1");
    push_str(&mut ms, "125", "1.25");
    push_str(&mut ms, "150", "1.5");
    push_str(&mut ms, "200", "2");
    JsonValue::Object(ms)
}

/// The default `grayscale_invert_sepia` table, in insertion order.
pub open spec fn grayscale_invert_sepia_pairs() -> Seq<(Seq<char>, Seq<char>)> {
    Seq::empty()
        .push(("0"@, "0"@))
        .push(("DEFAULT"@, "100%"@))
}

fn grayscale_invert_sepia_table() -> (r: JsonValue)
    ensures
        text_members(r) == Some(grayscale_invert_sepia_pairs()),
{
    let mut ms = new_members::<Seq<char>>(Ghost(as_text()));
    push_str(&mut ms, "0", "0");
    push_str(&mut ms, "DEFAULT", "100%");
    JsonValue::Object(ms)
}

/// The default `hue_rotate` table, in insertion order.
pub open spec fn hue_rotate_pairs() -> Seq<(Seq<char>, Seq<char>)> {
    Seq::empty()
        .push(("0"@, "0deg"@))
        .push(("15"@, "15deg"@))
        .push(("30"@, "30deg"@))
        .push(("60"@, "60deg"@))
        .push(("90"@, "90deg"@))
        .push(("180"@, "180deg"@))
}

fn hue_rotate_table() -> (r: JsonValue)
    ensures
        text_members(r) == Some(hue_rotate_pairs()),
{
    let mut ms = new_members::<Seq<char>>(Ghost(as_text()));
    push_str(&mut ms, "0", "0deg");
    push_str(&mut ms, "15", "15deg");
    push_str(&mut ms, "30", "30deg");
    push_str(&mut ms, "60", "60deg");
    push_str(&mut ms, "90", "90deg");
    push_str(&mut ms, "180", "180deg");
    JsonValue::Object(ms)
}

/// The default `saturate` table, in insertion order.
pub open spec fn saturate_pairs() -> Seq<(Seq<char>, Seq<char>)> {
    Seq::empty()
        .push(("0"@, "0"@))
        .push(("50"@, ".5"@))
        .push(("100"@, "1"@))
        .push(("150"@, "1.5"@))
        .push(("200"@, "2"@))
}

fn saturate_table() -> (r: JsonValue)
    ensures
        text_members(r) == Some(saturate_pairs()),
{
    let mut ms = new_members::<Seq<char>>(Ghost(as_text()));
    push_str(&mut ms, "0", "0");
    push_str(&mut ms, "50", ".5");
    push_str(&mut ms, "100", "1");
    push_str(&mut ms, "150", "1.5");
    push_str(&mut ms, "200", "2");
    JsonValue::Object(ms)
}

/// The default `outline_width` table, in insertion order.
pub open spec fn outline_width_pairs() -> Seq<(Seq<char>, Seq<char>)> {
    Seq::empty()
        .push(("0"@, "0px"@))
        .push(("1"@, "1px"@))
        .push(("2"@, "2px"@))
        .push(("4"@, "4px"@))
        .push(("8"@, "8px"@))
}

fn outline_width_table() -> (r: JsonValue)
    ensures
        text_members(r) == Some(outline_width_pairs()),
{
    let mut ms = new_members::<Seq<char>>(Ghost(as_text()));
    push_str(&mut ms, "0", "0px");
    push_str(&mut ms, "1", "1px");
    push_str(&mut ms, "2", "2px");
    push_str(&mut ms, "4", "4px");
    push_str(&mut ms, "8", "8px");
    JsonValue::Object(ms)
}

/// The default `outline_offset` table, in insertion order.
pub open spec fn outline_offset_pairs() -> Seq<(Seq<char>, Seq<char>)> {
    Seq::empty()
        .push(("0"@, "0px"@))
        .push(("1"@, "1px"@))
        .push(("2"@, "2px"@))
        .push(("4"@, "4px"@))
        .push(("8"@, "8px"@))
}

fn outline_offset_table() -> (r: JsonValue)
    ensures
        text_members(r) == Some(outline_offset_pairs()),
{
    let mut ms = new_members::<Seq<char>>(Ghost(as_text()));
    push_str(&mut ms, "0", "0px");
    push_str(&mut ms, "1", "1px");
    push_str(&mut ms, "2", "2px");
    push_str(&mut ms, "4", "4px");
    push_str(&mut ms, "8", "8px");
    JsonValue::Object(ms)
}

/// The default `flex` table, in insertion order.
pub open spec fn flex_pairs() -> Seq<(Seq<char>, Seq<char>)> {
    Seq::empty()
        .push(("1"@, "1 1 0%"@))
        .push(("auto"@, "1 1 auto"@))
        .push(("initial"@, "0 1 auto"@))
        .push(("none"@, "none"@))
}

fn flex_table() -> (r: JsonValue)
    ensures
        text_members(r) == Some(flex_pairs()),
{
    let mut ms = new_members::<Seq<char>>(Ghost(as_text()));
    push_str(&mut ms, "1", "1 1 0%");
    push_str(&mut ms, "auto", "1 1 auto");
    push_str(&mut ms, "initial", "0 1 auto");
    push_str(&mut ms, "none", "none");
    JsonValue::Object(ms)
}

/// The default `flex_basis` table, in insertion order.
pub open spec fn flex_basis_pairs() -> Seq<(Seq<char>, Seq<char>)> {
    Seq::empty()
        .push(("px"@, "1px"@))
        .push(("0"@, "0px"@))
        .push(("0.5"@, "0.125rem"@))
        .push(("1"@, "0.25rem"@))
        .push(("1.5"@, "0.375rem"@))
        .push(("2"@, "0.5rem"@))
        .push(("2.5"@, "0.625rem"@))
        .push(("3"@, "0.75rem"@))
        .push(("3.5"@, "0.875rem"@))
        .push(("4"@, "1rem"@))
        .push(("5"@, "1.25rem"@))
        .push(("6"@, "1.5rem"@))
        .push(("7"@, "1.75rem"@))
        .push(("8"@, "2rem"@))
        .push(("9"@, "2.25rem"@))
        .push(("10"@, "2.5rem"@))
        .push(("11"@, "2.75rem"@))
        .push(("12"@, "3rem"@))
        .push(("14"@, "3.5rem"@))
        .push(("16"@, "4rem"@))
        .push(("20"@, "5rem"@))
        .push(("24"@, "6rem"@))
        .push(("28"@, "7rem"@))
        .push(("32"@, "8rem"@))
        .push(("36"@, "9rem"@))
        .push(("40"@, "10rem"@))
        .push(("44"@, "11rem"@))
        .push(("48"@, "12rem"@))
        .push(("52"@, "13rem"@))
        .push(("56"@, "14rem"@))
        .push(("60"@, "15rem"@))
        .push(("64"@, "16rem"@))
        .push(("72"@, "18rem"@))
        .push(("80"@, "20rem"@))
        .push(("96"@, "24rem"@))
        .push(("auto"@, "auto"@))
        .push(("1/2"@, "50%"@))
        .push(("1/3"@, "33.333333%"@))
        .push(("2/3"@, "66.666667%"@))
        .push(("1/4"@, "25%"@))
        .push(("2/4"@, "50%"@))
        .push(("3/4"@, "75%"@))
        .push(("1/5"@, "20%"@))
        .push(("2/5"@, "40%"@))
        .push(("3/5"@, "60%"@))
        .push(("4/5"@, "80%"@))
        .push(("1/6"@, "16.666667%"@))
        .push(("2/6"@, "33.333333%"@))
        .push(("3/6"@, "50%"@))
        .push(("4/6"@, "66.666667%"@))
        .push(("5/6"@, "83.333333%"@))
        .push(("1/12"@, "8.333333%"@))
        .push(("2/12"@, "16.666667%"@))
        .push(("3/12"@, "25%"@))
        .push(("4/12"@, "33.333333%"@))
        .push(("5/12"@, "41.666667%"@))
        .push(("6/12"@, "50%"@))
        .push(("7/12"@, "58.333333%"@))
        .push(("8/12"@, "66.666667%"@))
        .push(("9/12"@, "75%"@))
        .push(("10/12"@, "83.333333%"@))
        .push(("11/12"@, "91.666667%"@))
        .push(("full"@, "100%"@))
}

fn flex_basis_table() -> (r: JsonValue)
    ensures
        text_members(r) == Some(flex_basis_pairs()),
{
    let mut ms = new_members::<Seq<char>>(Ghost(as_text()));
    push_str(&mut ms, "px", "1px");
    push_str(&mut ms, "0", "0px");
    push_str(&mut ms, "0.5", "0.125rem");
    push_str(&mut ms, "1", "0.25rem");
    push_str(&mut ms, "1.5", "0.375rem");
    push_str(&mut ms, "2", "0.5rem");
    push_str(&mut ms, "2.5", "0.625rem");
    push_str(&mut ms, "3", "0.75rem");
    push_str(&mut ms, "3.5", "0.875rem");
    push_str(&mut ms, "4", "1rem");
    push_str(&mut ms, "5", "1.25rem");
    push_str(&mut ms, "6", "1.5rem");
    push_str(&mut ms, "7", "1.75rem");
    push_str(&mut ms, "8", "2rem");
    push_str(&mut ms, "9", "2.25rem");
    push_str(&mut ms, "10", "2.5rem");
    push_str(&mut ms, "11", "2.75rem");
    push_str(&mut ms, "12", "3rem");
    push_str(&mut ms, "14", "3.5rem");
    push_str(&mut ms, "16", "4rem");
    push_str(&mut ms, "20", "5rem");
    push_str(&mut ms, "24", "6rem");
    push_str(&mut ms, "28", "7rem");
    push_str(&mut ms, "32", "8rem");
    push_str(&mut ms, "36", "9rem");
    push_str(&mut ms, "40", "10rem");
    push_str(&mut ms, "44", "11rem");
    push_str(&mut ms, "48", "12rem");
    push_str(&mut ms, "52", "13rem");
    push_str(&mut ms, "56", "14rem");
    push_str(&mut ms, "60", "15rem");
    push_str(&mut ms, "64", "16rem");
    push_str(&mut ms, "72", "18rem");
    push_str(&mut ms, "80", "20rem");
    push_str(&mut ms, "96", "24rem");
    push_str(&mut ms, "auto", "auto");
    push_str(&mut ms, "1/2", "50%");
    push_str(&mut ms, "1/3", "33.333333%");
    push_str(&mut ms, "2/3", "66.666667%");
    push_str(&mut ms, "1/4", "25%");
    push_str(&mut ms, "2/4", "50%");
    push_str(&mut ms, "3/4", "75%");
    push_str(&mut ms, "1/5", "20%");
    push_str(&mut ms, "2/5", "40%");
    push_str(&mut ms, "3/5", "60%");
    push_str(&mut ms, "4/5", "80%");
    push_str(&mut ms, "1/6", "16.666667%");
    push_str(&mut ms, "2/6", "33.333333%");
    push_str(&mut ms, "3/6", "50%");
    push_str(&mut ms, "4/6", "66.666667%");
    push_str(&mut ms, "5/6", "83.333333%");
    push_str(&mut ms, "1/12", "8.333333%");
    push_str(&mut ms, "2/12", "16.666667%");
    push_str(&mut ms, "3/12", "25%");
    push_str(&mut ms, "4/12", "33.333333%");
    push_str(&mut ms, "5/12", "41.666667%");
    push_str(&mut ms, "6/12", "50%");
    push_str(&mut ms, "7/12", "58.333333%");
    push_str(&mut ms, "8/12", "66.666667%");
    push_str(&mut ms, "9/12", "75%");
    push_str(&mut ms, "10/12", "83.333333%");
    push_str(&mut ms, "11/12", "91.666667%");
    push_str(&mut ms, "full", "100%");
    JsonValue::Object(ms)
}

/// The default `flex_grow` table, in insertion order.
pub open spec fn flex_grow_pairs() -> Seq<(Seq<char>, Seq<char>)> {
    Seq::empty()
        .push(("0"@, "0"@))
        .push(("DEFAULT"@, "1"@))
}

fn flex_grow_table() -> (r: JsonValue)
    ensures
        text_members(r) == Some(flex_grow_pairs()),
{
    let mut ms = new_members::<Seq<char>>(Ghost(as_text()));
    push_str(&mut ms, "0", "0");
    push_str(&mut ms, "DEFAULT", "1");
    JsonValue::Object(ms)
}

/// The default `flex_shrink` table, in insertion order.
pub open spec fn flex_shrink_pairs() -> Seq<(Seq<char>, Seq<char>)> {
    Seq::empty()
        .push(("0"@, "0"@))
        .push(("DEFAULT"@, "1"@))
}

fn flex_shrink_table() -> (r: JsonValue)
    ensures
        text_members(r) == Some(flex_shrink_pairs()),
{
    let mut ms = new_members::<Seq<char>>(Ghost(as_text()));
    push_str(&mut ms, "0", "0");
    push_str(&mut ms, "DEFAULT", "1");
    JsonValue::Object(ms)
}

/// The default `order` table, in insertion order.
pub open spec fn order_pairs() -> Seq<(Seq<char>, Seq<char>)> {
    Seq::empty()
        .push(("first"@, "-9999"@))
        .push(("last"@, "9999"@))
        .push(("none"@, "0"@))
        .push(("1"@, "1"@))
        .push(("2"@, "2"@))
        .push(("3"@, "3"@))
        .push(("4"@, "4"@))
        .push(("5"@, "5"@))
        .push(("6"@, "6"@))
        .push(("7"@, "7"@))
        .push(("8"@, "8"@))
        .push(("9"@, "9"@))
        .push(("10"@, "10"@))
        .push(("11"@, "11"@))
        .push(("12"@, "12"@))
}

fn order_table() -> (r: JsonValue)
    ensures
        text_members(r) == Some(order_pairs()),
{
    let mut ms = new_members::<Seq<char>>(Ghost(as_text()));
    push_str(&mut ms, "first", "-9999");
    push_str(&mut ms, "last", "9999");
    push_str(&mut ms, "none", "0");
    push_str(&mut ms, "1", "1");
    push_str(&mut ms, "2", "2");
    push_str(&mut ms, "3", "3");
    push_str(&mut ms, "4", "4");
    push_str(&mut ms, "5", "5");
    push_str(&mut ms, "6", "6");
    push_str(&mut ms, "7", "7");
    push_str(&mut ms, "8", "8");
    push_str(&mut ms, "9", "9");
    push_str(&mut ms, "10", "10");
    push_str(&mut ms, "11", "11");
    push_str(&mut ms, "12", "12");
    JsonValue::Object(ms)
}

/// The default `grid_template` table, in insertion order.
pub open spec fn grid_template_pairs() -> Seq<(Seq<char>, Seq<char>)> {
    Seq::empty()
        .push(("none"@, "none"@))
        .push(("subgrid"@, "subgrid"@))
        .push(("1"@, "repeat(1, minmax(0, 1fr))"@))
        .push(("2"@, "repeat(2, minmax(0, 1fr))"@))
        .push(("3"@, "repeat(3, minmax(0, 1fr))"@))
        .push(("4"@, "repeat(4, minmax(0, 1fr))"@))
        .push(("5"@, "repeat(5, minmax(0, 1fr))"@))
        .push(("6"@, "repeat(6, minmax(0, 1fr))"@))
        .push(("7"@, "repeat(7, minmax(0, 1fr))"@))
        .push(("8"@, "repeat(8, minmax(0, 1fr))"@))
        .push(("9"@, "repeat(9, minmax(0, 1fr))"@))
        .push(("10"@, "repeat(10, minmax(0, 1fr))"@))
        .push(("11"@, "repeat(11, minmax(0, 1fr))"@))
        .push(("12"@, "repeat(12, minmax(0, 1fr))"@))
}

fn grid_template_table() -> (r: JsonValue)
    ensures
        text_members(r) == Some(grid_template_pairs()),
{
    let mut ms = new_members::<Seq<char>>(Ghost(as_text()));
    push_str(&mut ms, "none", "none");
    push_str(&mut ms, "subgrid", "subgrid");
    push_str(&mut ms, "1", "repeat(1, minmax(0, 1fr))");
    push_str(&mut ms, "2", "repeat(2, minmax(0, 1fr))");
    push_str(&mut ms, "3", "repeat(3, minmax(0, 1fr))");
    push_str(&mut ms, "4", "repeat(4, minmax(0, 1fr))");
    push_str(&mut ms, "5", "repeat(5, minmax(0, 1fr))");
    push_str(&mut ms, "6", "repeat(6, minmax(0, 1fr))");
    push_str(&mut ms, "7", "repeat(7, minmax(0, 1fr))");
    push_str(&mut ms, "8", "repeat(8, minmax(0, 1fr))");
    push_str(&mut ms, "9", "repeat(9, minmax(0, 1fr))");
    push_str(&mut ms, "10", "repeat(10, minmax(0, 1fr))");
    push_str(&mut ms, "11", "repeat(11, minmax(0, 1fr))");
    push_str(&mut ms, "12", "repeat(12, minmax(0, 1fr))");
    JsonValue::Object(ms)
}

/// The default `grid_column` table, in insertion order.
pub open spec fn grid_column_pairs() -> Seq<(Seq<char>, Seq<char>)> {
    Seq::empty()
        .push(("auto"@, "auto"@))
        .push(("span-1"@, "span 1 / span 1"@))
        .push(("span-2"@, "span 2 / span 2"@))
        .push(("span-3"@, "span 3 / span 3"@))
        .push(("span-4"@, "span 4 / span 4"@))
        .push(("span-5"@, "span 5 / span 5"@))
        .push(("span-6"@, "span 6 / span 6"@))
        .push(("span-7"@, "span 7 / span 7"@))
        .push(("span-8"@, "span 8 / span 8"@))
        .push(("span-9"@, "span 9 / span 9"@))
        .push(("span-10"@, "span 10 / span 10"@))
        .push(("span-11"@, "span 11 / span 11"@))
        .push(("span-12"@, "span 12 / span 12"@))
        .push(("span-full"@, "1 / -1"@))
}

fn grid_column_table() -> (r: JsonValue)
    ensures
        text_members(r) == Some(grid_column_pairs()),
{
    let mut ms = new_members::<Seq<char>>(Ghost(as_text()));
    push_str(&mut ms, "auto", "auto");
    push_str(&mut ms, "span-1", "span 1 / span 1");
    push_str(&mut ms, "span-2", "span 2 / span 2");
    push_str(&mut ms, "span-3", "span 3 / span 3");
    push_str(&mut ms, "span-4", "span 4 / span 4");
    push_str(&mut ms, "span-5", "span 5 / span 5");
    push_str(&mut ms, "span-6", "span 6 / span 6");
    push_str(&mut ms, "span-7", "span 7 / span 7");
    push_str(&mut ms, "span-8", "span 8 / span 8");
    push_str(&mut ms, "span-9", "span 9 / span 9");
    push_str(&mut ms, "span-10", "span 10 / span 10");
    push_str(&mut ms, "span-11", "span 11 / span 11");
    push_str(&mut ms, "span-12", "span 12 / span 12");
    push_str(&mut ms, "span-full", "1 / -1");
    JsonValue::Object(ms)
}

/// The default `grid_start_end` table, in insertion order.
pub open spec fn grid_start_end_pairs() -> Seq<(Seq<char>, Seq<char>)> {
    Seq::empty()
        .push(("auto"@, "auto"@))
        .push(("1"@, "1"@))
        .push(("2"@, "2"@))
        .push(("3"@, "3"@))
        .push(("4"@, "4"@))
        .push(("5"@, "5"@))
        .push(("6"@, "6"@))
        .push(("7"@, "7"@))
        .push(("8"@, "8"@))
        .push(("9"@, "9"@))
        .push(("10"@, "10"@))
        .push(("11"@, "11"@))
        .push(("12"@, "12"@))
        .push(("13"@, "13"@))
}

fn grid_start_end_table() -> (r: JsonValue)
    ensures
        text_members(r) == Some(grid_start_end_pairs()),
{
    let mut ms = new_members::<Seq<char>>(Ghost(as_text()));
    push_str(&mut ms, "auto", "auto");
    push_str(&mut ms, "1", "1");
    push_str(&mut ms, "2", "2");
    push_str(&mut ms, "3", "3");
    push_str(&mut ms, "4", "4");
    push_str(&mut ms, "5", "5");
    push_str(&mut ms, "6", "6");
    push_str(&mut ms, "7", "7");
    push_str(&mut ms, "8", "8");
    push_str(&mut ms, "9", "9");
    push_str(&mut ms, "10", "10");
    push_str(&mut ms, "11", "11");
    push_str(&mut ms, "12", "12");
    push_str(&mut ms, "13", "13");
    JsonValue::Object(ms)
}

/// The default `grid_auto` table, in insertion order.
pub open spec fn grid_auto_pairs() -> Seq<(Seq<char>, Seq<char>)> {
    Seq::empty()
        .push(("auto"@, "auto"@))
        .push(("min"@, "min-content"@))
        .push(("max"@, "max-content"@))
        .push(("fr"@, "minmax(0, 1fr)"@))
}

fn grid_auto_table() -> (r: JsonValue)
    ensures
        text_members(r) == Some(grid_auto_pairs()),
{
    let mut ms = new_members::<Seq<char>>(Ghost(as_text()));
    push_str(&mut ms, "auto", "auto");
    push_str(&mut ms, "min", "min-content");
    push_str(&mut ms, "max", "max-content");
    push_str(&mut ms, "fr", "minmax(0, 1fr)");
    JsonValue::Object(ms)
}

/// The default `border_width` table, in insertion order.
pub open spec fn border_width_pairs() -> Seq<(Seq<char>, Seq<char>)> {
    Seq::empty()
        .push(("DEFAULT"@, "1px"@))
        .push(("0"@, "0px"@))
        .push(("2"@, "2px"@))
        .push(("4"@, "4px"@))
        .push(("8"@, "8px"@))
}

fn border_width_table() -> (r: JsonValue)
    ensures
        text_members(r) == Some(border_width_pairs()),
{
    let mut ms = new_members::<Seq<char>>(Ghost(as_text()));
    push_str(&mut ms, "DEFAULT", "1px");
    push_str(&mut ms, "0", "0px");
    push_str(&mut ms, "2", "2px");
    push_str(&mut ms, "4", "4px");
    push_str(&mut ms, "8", "8px");
    JsonValue::Object(ms)
}

/// The default `border_radius` table, in insertion order.
pub open spec fn border_radius_pairs() -> Seq<(Seq<char>, Seq<char>)> {
    Seq::empty()
        .push(("none"@, "0px"@))
        .push(("sm"@, "0.125rem"@))
        .push(("DEFAULT"@, "0.25rem"@))
        .push(("md"@, "0.375rem"@))
        .push(("lg"@, "0.5rem"@))
        .push(("xl"@, "0.75rem"@))
        .push(("2xl"@, "1rem"@))
        .push(("3xl"@, "1.5rem"@))
        .push(("full"@, "9999px"@))
}

fn border_radius_table() -> (r: JsonValue)
    ensures
        text_members(r) == Some(border_radius_pairs()),
{
    let mut ms = new_members::<Seq<char>>(Ghost(as_text()));
    push_str(&mut ms, "none", "0px");
    push_str(&mut ms, "sm", "0.125rem");
    push_str(&mut ms, "DEFAULT", "0.25rem");
    push_str(&mut ms, "md", "0.375rem");
    push_str(&mut ms, "lg", "0.5rem");
    push_str(&mut ms, "xl", "0.75rem");
    push_str(&mut ms, "2xl", "1rem");
    push_str(&mut ms, "3xl", "1.5rem");
    push_str(&mut ms, "full", "9999px");
    JsonValue::Object(ms)
}

/// The default `translate` table, in insertion order.
pub open spec fn translate_pairs() -> Seq<(Seq<char>, Seq<char>)> {
    Seq::empty()
        .push(("px"@, "1px"@))
        .push(("0"@, "0px"@))
        .push(("0.5"@, "0.125rem"@))
        .push(("1"@, "0.25rem"@))
        .push(("1.5"@, "0.375rem"@))
        .push(("2"@, "0.5rem"@))
        .push(("2.5"@, "0.625rem"@))
        .push(("3"@, "0.75rem"@))
        .push(("3.5"@, "0.875rem"@))
        .push(("4"@, "1rem"@))
        .push(("5"@, "1.25rem"@))
        .push(("6"@, "1.5rem"@))
        .push(("7"@, "1.75rem"@))
        .push(("8"@, "2rem"@))
        .push(("9"@, "2.25rem"@))
        .push(("10"@, "2.5rem"@))
        .push(("11"@, "2.75rem"@))
        .push(("12"@, "3rem"@))
        .push(("14"@, "3.5rem"@))
        .push(("16"@, "4rem"@))
        .push(("20"@, "5rem"@))
        .push(("24"@, "6rem"@))
        .push(("28"@, "7rem"@))
        .push(("32"@, "8rem"@))
        .push(("36"@, "9rem"@))
        .push(("40"@, "10rem"@))
        .push(("44"@, "11rem"@))
        .push(("48"@, "12rem"@))
        .push(("52"@, "13rem"@))
        .push(("56"@, "14rem"@))
        .push(("60"@, "15rem"@))
        .push(("64"@, "16rem"@))
        .push(("72"@, "18rem"@))
        .push(("80"@, "20rem"@))
        .push(("96"@, "24rem"@))
        .push(("1/2"@, "50%"@))
        .push(("1/3"@, "33.333333%"@))
        .push(("2/3"@, "66.666667%"@))
        .push(("1/4"@, "25%"@))
        .push(("2/4"@, "50%"@))
        .push(("3/4"@, "75%"@))
        .push(("full"@, "100%"@))
}

fn translate_table() -> (r: JsonValue)
    ensures
        text_members(r) == Some(translate_pairs()),
{
    let mut ms = new_members::<Seq<char>>(Ghost(as_text()));
    push_str(&mut ms, "px", "1px");
    push_str(&mut ms, "0", "0px");
    push_str(&mut ms, "0.5", "0.125rem");
    push_str(&mut ms, "1", "0.25rem");
    push_str(&mut ms, "1.5", "0.375rem");
    push_str(&mut ms, "2", "0.5rem");
    push_str(&mut ms, "2.5", "0.625rem");
    push_str(&mut ms, "3", "0.75rem");
    push_str(&mut ms, "3.5", "0.875rem");
    push_str(&mut ms, "4", "1rem");
    push_str(&mut ms, "5", "1.25rem");
    push_str(&mut ms, "6", "1.5rem");
    push_str(&mut ms, "7", "1.75rem");
    push_str(&mut ms, "8", "2rem");
    push_str(&mut ms, "9", "2.25rem");
    push_str(&mut ms, "10", "2.5rem");
    push_str(&mut ms, "11", "2.75rem");
    push_str(&mut ms, "12", "3rem");
    push_str(&mut ms, "14", "3.5rem");
    push_str(&mut ms, "16", "4rem");
    push_str(&mut ms, "20", "5rem");
    push_str(&mut ms, "24", "6rem");
    push_str(&mut ms, "28", "7rem");
    push_str(&mut ms, "32", "8rem");
    push_str(&mut ms, "36", "9rem");
    push_str(&mut ms, "40", "10rem");
    push_str(&mut ms, "44", "11rem");
    push_str(&mut ms, "48", "12rem");
    push_str(&mut ms, "52", "13rem");
    push_str(&mut ms, "56", "14rem");
    push_str(&mut ms, "60", "15rem");
    push_str(&mut ms, "64", "16rem");
    push_str(&mut ms, "72", "18rem");
    push_str(&mut ms, "80", "20rem");
    push_str(&mut ms, "96", "24rem");
    push_str(&mut ms, "1/2", "50%");
    push_str(&mut ms, "1/3", "33.333333%");
    push_str(&mut ms, "2/3", "66.666667%");
    push_str(&mut ms, "1/4", "25%");
    push_str(&mut ms, "2/4", "50%");
    push_str(&mut ms, "3/4", "75%");
    push_str(&mut ms, "full", "100%");
    JsonValue::Object(ms)
}

/// The default `rotate` table, in insertion order.
pub open spec fn rotate_pairs() -> Seq<(Seq<char>, Seq<char>)> {
    Seq::empty()
        .push(("0"@, "0deg"@))
        .push(("1"@, "1deg"@))
        .push(("2"@, "2deg"@))
        .push(("3"@, "3deg"@))
        .push(("6"@, "6deg"@))
        .push(("12"@, "12deg"@))
        .push(("45"@, "45deg"@))
        .push(("90"@, "90deg"@))
        .push(("180"@, "180deg"@))
}

fn rotate_table() -> (r: JsonValue)
    ensures
        text_members(r) == Some(rotate_pairs()),
{
    let mut ms = new_members::<Seq<char>>(Ghost(as_text()));
    push_str(&mut ms, "0", "0deg");
    push_str(&mut ms, "1", "1deg");
    push_str(&mut ms, "2", "2deg");
    push_str(&mut ms, "3", "3deg");
    push_str(&mut ms, "6", "6deg");
    push_str(&mut ms, "12", "12deg");
    push_str(&mut ms, "45", "45deg");
    push_str(&mut ms, "90", "90deg");
    push_str(&mut ms, "180", "180deg");
    JsonValue::Object(ms)
}

/// The default `scale` table, in insertion order.
pub open spec fn scale_pairs() -> Seq<(Seq<char>, Seq<char>)> {
    Seq::empty()
        .push(("0"@, "0"@))
        .push(("50"@, ".5"@))
        .push(("75"@, ".75"@))
        .push(("90"@, ".9"@))
        .push(("95"@, ".95"@))
        .push(("100"@, "1"@))
        .push(("105"@, "1.05"@))
        .push(("110"@, "1.1"@))
        .push(("125"@, "1.25"@))
        .push(("150"@, "1.5"@))
}

fn scale_table() -> (r: JsonValue)
    ensures
        text_members(r) == Some(scale_pairs()),
{
    let mut ms = new_members::<Seq<char>>(Ghost(as_text()));
    push_str(&mut ms, "0", "0");
    push_str(&mut ms, "50", ".5");
    push_str(&mut ms, "75", ".75");
    push_str(&mut ms, "90", ".9");
    push_str(&mut ms, "95", ".95");
    push_str(&mut ms, "100", "1");
    push_str(&mut ms, "105", "1.05");
    push_str(&mut ms, "110", "1.1");
    push_str(&mut ms, "125", "1.25");
    push_str(&mut ms, "150", "1.5");
    JsonValue::Object(ms)
}

/// The default `skew` table, in insertion order.
pub open spec fn skew_pairs() -> Seq<(Seq<char>, Seq<char>)> {
    Seq::empty()
        .push(("0"@, "0deg"@))
        .push(("1"@, "1deg"@))
        .push(("2"@, "2deg"@))
        .push(("3"@, "3deg"@))
        .push(("6"@, "6deg"@))
        .push(("12"@, "12deg"@))
}

fn skew_table() -> (r: JsonValue)
    ensures
        text_members(r) == Some(skew_pairs()),
{
    let mut ms = new_members::<Seq<char>>(Ghost(as_text()));
    push_str(&mut ms, "0", "0deg");
    push_str(&mut ms, "1", "1deg");
    push_str(&mut ms, "2", "2deg");
    push_str(&mut ms, "3", "3deg");
    push_str(&mut ms, "6", "6deg");
    push_str(&mut ms, "12", "12deg");
    JsonValue::Object(ms)
}

/// The default `opacity` table, in insertion order.
pub open spec fn opacity_pairs() -> Seq<(Seq<char>, Seq<char>)> {
    Seq::empty()
        .push(("0"@, "0"@))
        .push(("5"@, "0.05"@))
        .push(("10"@, "0.1"@))
        .push(("15"@, "0.15"@))
        .push(("20"@, "0.2"@))
        .push(("25"@, "0.25"@))
        .push(("30"@, "0.3"@))
        .push(("35"@, "0.35"@))
        .push(("40"@, "0.4"@))
        .push(("45"@, "0.45"@))
        .push(("50"@, "0.5"@))
        .push(("55"@, "0.55"@))
        .push(("60"@, "0.6"@))
        .push(("65"@, "0.65"@))
        .push(("70"@, "0.7"@))
        .push(("75"@, "0.75"@))
        .push(("80"@, "0.8"@))
        .push(("85"@, "0.85"@))
        .push(("90"@, "0.9"@))
        .push(("95"@, "0.95"@))
        .push(("100"@, "1"@))
}

fn opacity_table() -> (r: JsonValue)
    ensures
        text_members(r) == Some(opacity_pairs()),
{
    let mut ms = new_members::<Seq<char>>(Ghost(as_text()));
    push_str(&mut ms, "0", "0");
    push_str(&mut ms, "5", "0.05");
    push_str(&mut ms, "10", "0.1");
    push_str(&mut ms, "15", "0.15");
    push_str(&mut ms, "20", "0.2");
    push_str(&mut ms, "25", "0.25");
    push_str(&mut ms, "30", "0.3");
    push_str(&mut ms, "35", "0.35");
    push_str(&mut ms, "40", "0.4");
    push_str(&mut ms, "45", "0.45");
    push_str(&mut ms, "50", "0.5");
    push_str(&mut ms, "55", "0.55");
    push_str(&mut ms, "60", "0.6");
    push_str(&mut ms, "65", "0.65");
    push_str(&mut ms, "70", "0.7");
    push_str(&mut ms, "75", "0.75");
    push_str(&mut ms, "80", "0.8");
    push_str(&mut ms, "85", "0.85");
    push_str(&mut ms, "90", "0.9");
    push_str(&mut ms, "95", "0.95");
    push_str(&mut ms, "100", "1");
    JsonValue::Object(ms)
}

/// `theme.spacing`: `px` and the numeric steps from `0` to `96`.
pub open spec fn spacing_pairs() -> Seq<(Seq<char>, Seq<char>)> {
    Seq::empty()
        .push(("px"@, "1px"@))
        .push(("0"@, "0px"@))
        .push(("0.5"@, "0.125rem"@))
        .push(("1"@, "0.25rem"@))
        .push(("1.5"@, "0.375rem"@))
        .push(("2"@, "0.5rem"@))
        .push(("2.5"@, "0.625rem"@))
        .push(("3"@, "0.75rem"@))
        .push(("3.5"@, "0.875rem"@))
        .push(("4"@, "1rem"@))
        .push(("5"@, "1.25rem"@))
        .push(("6"@, "1.5rem"@))
        .push(("7"@, "1.75rem"@))
        .push(("8"@, "2rem"@))
        .push(("9"@, "2.25rem"@))
        .push(("10"@, "2.5rem"@))
        .push(("11"@, "2.75rem"@))
        .push(("12"@, "3rem"@))
        .push(("14"@, "3.5rem"@))
        .push(("16"@, "4rem"@))
        .push(("20"@, "5rem"@))
        .push(("24"@, "6rem"@))
        .push(("28"@, "7rem"@))
        .push(("32"@, "8rem"@))
        .push(("36"@, "9rem"@))
        .push(("40"@, "10rem"@))
        .push(("44"@, "11rem"@))
        .push(("48"@, "12rem"@))
        .push(("52"@, "13rem"@))
        .push(("56"@, "14rem"@))
        .push(("60"@, "15rem"@))
        .push(("64"@, "16rem"@))
        .push(("72"@, "18rem"@))
        .push(("80"@, "20rem"@))
        .push(("96"@, "24rem"@))
}

pub fn spacing() -> (r: JsonValue)
    ensures
        text_members(r) == Some(spacing_pairs()),
{
    let mut ms = new_members::<Seq<char>>(Ghost(as_text()));
    push_str(&mut ms, "px", "1px");
    push_str(&mut ms, "0", "0px");
    push_str(&mut ms, "0.5", "0.125rem");
    push_str(&mut ms, "1", "0.25rem");
    push_str(&mut ms, "1.5", "0.375rem");
    push_str(&mut ms, "2", "0.5rem");
    push_str(&mut ms, "2.5", "0.625rem");
    push_str(&mut ms, "3", "0.75rem");
    push_str(&mut ms, "3.5", "0.875rem");
    push_str(&mut ms, "4", "1rem");
    push_str(&mut ms, "5", "1.25rem");
    push_str(&mut ms, "6", "1.5rem");
    push_str(&mut ms, "7", "1.75rem");
    push_str(&mut ms, "8", "2rem");
    push_str(&mut ms, "9", "2.25rem");
    push_str(&mut ms, "10", "2.5rem");
    push_str(&mut ms, "11", "2.75rem");
    push_str(&mut ms, "12", "3rem");
    push_str(&mut ms, "14", "3.5rem");
    push_str(&mut ms, "16", "4rem");
    push_str(&mut ms, "20", "5rem");
    push_str(&mut ms, "24", "6rem");
    push_str(&mut ms, "28", "7rem");
    push_str(&mut ms, "32", "8rem");
    push_str(&mut ms, "36", "9rem");
    push_str(&mut ms, "40", "10rem");
    push_str(&mut ms, "44", "11rem");
    push_str(&mut ms, "48", "12rem");
    push_str(&mut ms, "52", "13rem");
    push_str(&mut ms, "56", "14rem");
    push_str(&mut ms, "60", "15rem");
    push_str(&mut ms, "64", "16rem");
    push_str(&mut ms, "72", "18rem");
    push_str(&mut ms, "80", "20rem");
    push_str(&mut ms, "96", "24rem");
    JsonValue::Object(ms)
}

/// `theme.margin`: the spacing scale plus `auto`.
pub open spec fn margin_pairs() -> Seq<(Seq<char>, Seq<char>)> {
    Seq::empty()
        .push(("px"@, "1px"@))
        .push(("0"@, "0px"@))
        .push(("0.5"@, "0.125rem"@))
        .push(("1"@, "0.25rem"@))
        .push(("1.5"@, "0.375rem"@))
        .push(("2"@, "0.5rem"@))
        .push(("2.5"@, "0.625rem"@))
        .push(("3"@, "0.75rem"@))
        .push(("3.5"@, "0.875rem"@))
        .push(("4"@, "1rem"@))
        .push(("5"@, "1.25rem"@))
        .push(("6"@, "1.5rem"@))
        .push(("7"@, "1.75rem"@))
        .push(("8"@, "2rem"@))
        .push(("9"@, "2.25rem"@))
        .push(("10"@, "2.5rem"@))
        .push(("11"@, "2.75rem"@))
        .push(("12"@, "3rem"@))
        .push(("14"@, "3.5rem"@))
        .push(("16"@, "4rem"@))
        .push(("20"@, "5rem"@))
        .push(("24"@, "6rem"@))
        .push(("28"@, "7rem"@))
        .push(("32"@, "8rem"@))
        .push(("36"@, "9rem"@))
        .push(("40"@, "10rem"@))
        .push(("44"@, "11rem"@))
        .push(("48"@, "12rem"@))
        .push(("52"@, "13rem"@))
        .push(("56"@, "14rem"@))
        .push(("60"@, "15rem"@))
        .push(("64"@, "16rem"@))
        .push(("72"@, "18rem"@))
        .push(("80"@, "20rem"@))
        .push(("96"@, "24rem"@))
        .push(("auto"@, "auto"@))
}

pub fn margin_table() -> (r: JsonValue)
    ensures
        text_members(r) == Some(margin_pairs()),
{
    let mut ms = new_members::<Seq<char>>(Ghost(as_text()));
    push_str(&mut ms, "px", "1px");
    push_str(&mut ms, "0", "0px");
    push_str(&mut ms, "0.5", "0.125rem");
    push_str(&mut ms, "1", "0.25rem");
    push_str(&mut ms, "1.5", "0.375rem");
    push_str(&mut ms, "2", "0.5rem");
    push_str(&mut ms, "2.5", "0.625rem");
    push_str(&mut ms, "3", "0.75rem");
    push_str(&mut ms, "3.5", "0.875rem");
    push_str(&mut ms, "4", "1rem");
    push_str(&mut ms, "5", "1.25rem");
    push_str(&mut ms, "6", "1.5rem");
    push_str(&mut ms, "7", "1.75rem");
    push_str(&mut ms, "8", "2rem");
    push_str(&mut ms, "9", "2.25rem");
    push_str(&mut ms, "10", "2.5rem");
    push_str(&mut ms, "11", "2.75rem");
    push_str(&mut ms, "12", "3rem");
    push_str(&mut ms, "14", "3.5rem");
    push_str(&mut ms, "16", "4rem");
    push_str(&mut ms, "20", "5rem");
    push_str(&mut ms, "24", "6rem");
    push_str(&mut ms, "28", "7rem");
    push_str(&mut ms, "32", "8rem");
    push_str(&mut ms, "36", "9rem");
    push_str(&mut ms, "40", "10rem");
    push_str(&mut ms, "44", "11rem");
    push_str(&mut ms, "48", "12rem");
    push_str(&mut ms, "52", "13rem");
    push_str(&mut ms, "56", "14rem");
    push_str(&mut ms, "60", "15rem");
    push_str(&mut ms, "64", "16rem");
    push_str(&mut ms, "72", "18rem");
    push_str(&mut ms, "80", "20rem");
    push_str(&mut ms, "96", "24rem");
    push_str(&mut ms, "auto", "auto");
    JsonValue::Object(ms)
}

/// The default `height` table, in insertion order.
pub open spec fn height_pairs() -> Seq<(Seq<char>, Seq<char>)> {
    Seq::empty()
        .push(("px"@, "1px"@))
        .push(("0"@, "0px"@))
        .push(("0.5"@, "0.125rem"@))
        .push(("1"@, "0.25rem"@))
        .push(("1.5"@, "0.375rem"@))
        .push(("2"@, "0.5rem"@))
        .push(("2.5"@, "0.625rem"@))
        .push(("3"@, "0.75rem"@))
        .push(("3.5"@, "0.875rem"@))
        .push(("4"@, "1rem"@))
        .push(("5"@, "1.25rem"@))
        .push(("6"@, "1.5rem"@))
        .push(("7"@, "1.75rem"@))
        .push(("8"@, "2rem"@))
        .push(("9"@, "2.25rem"@))
        .push(("10"@, "2.5rem"@))
        .push(("11"@, "2.75rem"@))
        .push(("12"@, "3rem"@))
        .push(("14"@, "3.5rem"@))
        .push(("16"@, "4rem"@))
        .push(("20"@, "5rem"@))
        .push(("24"@, "6rem"@))
        .push(("28"@, "7rem"@))
        .push(("32"@, "8rem"@))
        .push(("36"@, "9rem"@))
        .push(("40"@, "10rem"@))
        .push(("44"@, "11rem"@))
        .push(("48"@, "12rem"@))
        .push(("52"@, "13rem"@))
        .push(("56"@, "14rem"@))
        .push(("60"@, "15rem"@))
        .push(("64"@, "16rem"@))
        .push(("72"@, "18rem"@))
        .push(("80"@, "20rem"@))
        .push(("96"@, "24rem"@))
        .push(("auto"@, "auto"@))
        .push(("1/2"@, "50%"@))
        .push(("1/3"@, "33.333333%"@))
        .push(("2/3"@, "66.666667%"@))
        .push(("1/4"@, "25%"@))
        .push(("2/4"@, "50%"@))
        .push(("3/4"@, "75%"@))
        .push(("1/5"@, "20%"@))
        .push(("2/5"@, "40%"@))
        .push(("3/5"@, "60%"@))
        .push(("4/5"@, "80%"@))
        .push(("1/6"@, "16.666667%"@))
        .push(("2/6"@, "33.333333%"@))
        .push(("3/6"@, "50%"@))
        .push(("4/6"@, "66.666667%"@))
        .push(("5/6"@, "83.333333%"@))
        .push(("full"@, "100%"@))
        .push(("screen"@, "100vh"@))
        .push(("svh"@, "100svh"@))
        .push(("lvh"@, "100lvh"@))
        .push(("dvh"@, "100dvh"@))
        .push(("min"@, "min-content"@))
        .push(("max"@, "max-content"@))
        .push(("fit"@, "fit-content"@))
}

fn height_table() -> (r: JsonValue)
    ensures
        text_members(r) == Some(height_pairs()),
{
    let mut ms = new_members::<Seq<char>>(Ghost(as_text()));
    push_str(&mut ms, "px", "1px");
    push_str(&mut ms, "0", "0px");
    push_str(&mut ms, "0.5", "0.125rem");
    push_str(&mut ms, "1", "0.25rem");
    push_str(&mut ms, "1.5", "0.375rem");
    push_str(&mut ms, "2", "0.5rem");
    push_str(&mut ms, "2.5", "0.625rem");
    push_str(&mut ms, "3", "0.75rem");
    push_str(&mut ms, "3.5", "0.875rem");
    push_str(&mut ms, "4", "1rem");
    push_str(&mut ms, "5", "1.25rem");
    push_str(&mut ms, "6", "1.5rem");
    push_str(&mut ms, "7", "1.75rem");
    push_str(&mut ms, "8", "2rem");
    push_str(&mut ms, "9", "2.25rem");
    push_str(&mut ms, "10", "2.5rem");
    push_str(&mut ms, "11", "2.75rem");
    push_str(&mut ms, "12", "3rem");
    push_str(&mut ms, "14", "3.5rem");
    push_str(&mut ms, "16", "4rem");
    push_str(&mut ms, "20", "5rem");
    push_str(&mut ms, "24", "6rem");
    push_str(&mut ms, "28", "7rem");
    push_str(&mut ms, "32", "8rem");
    push_str(&mut ms, "36", "9rem");
    push_str(&mut ms, "40", "10rem");
    push_str(&mut ms, "44", "11rem");
    push_str(&mut ms, "48", "12rem");
    push_str(&mut ms, "52", "13rem");
    push_str(&mut ms, "56", "14rem");
    push_str(&mut ms, "60", "15rem");
    push_str(&mut ms, "64", "16rem");
    push_str(&mut ms, "72", "18rem");
    push_str(&mut ms, "80", "20rem");
    push_str(&mut ms, "96", "24rem");
    push_str(&mut ms, "auto", "auto");
    push_str(&mut ms, "1/2", "50%");
    push_str(&mut ms, "1/3", "33.333333%");
    push_str(&mut ms, "2/3", "66.666667%");
    push_str(&mut ms, "1/4", "25%");
    push_str(&mut ms, "2/4", "50%");
    push_str(&mut ms, "3/4", "75%");
    push_str(&mut ms, "1/5", "20%");
    push_str(&mut ms, "2/5", "40%");
    push_str(&mut ms, "3/5", "60%");
    push_str(&mut ms, "4/5", "80%");
    push_str(&mut ms, "1/6", "16.666667%");
    push_str(&mut ms, "2/6", "33.333333%");
    push_str(&mut ms, "3/6", "50%");
    push_str(&mut ms, "4/6", "66.666667%");
    push_str(&mut ms, "5/6", "83.333333%");
    push_str(&mut ms, "full", "100%");
    push_str(&mut ms, "screen", "100vh");
    push_str(&mut ms, "svh", "100svh");
    push_str(&mut ms, "lvh", "100lvh");
    push_str(&mut ms, "dvh", "100dvh");
    push_str(&mut ms, "min", "min-content");
    push_str(&mut ms, "max", "max-content");
    push_str(&mut ms, "fit", "fit-content");
    JsonValue::Object(ms)
}

/// The default `size` table, in insertion order.
pub open spec fn size_pairs() -> Seq<(Seq<char>, Seq<char>)> {
    Seq::empty()
        .push(("px"@, "1px"@))
        .push(("0"@, "0px"@))
        .push(("0.5"@, "0.125rem"@))
        .push(("1"@, "0.25rem"@))
        .push(("1.5"@, "0.375rem"@))
        .push(("2"@, "0.5rem"@))
        .push(("2.5"@, "0.625rem"@))
        .push(("3"@, "0.75rem"@))
        .push(("3.5"@, "0.875rem"@))
        .push(("4"@, "1rem"@))
        .push(("5"@, "1.25rem"@))
        .push(("6"@, "1.5rem"@))
        .push(("7"@, "1.75rem"@))
        .push(("8"@, "2rem"@))
        .push(("9"@, "2.25rem"@))
        .push(("10"@, "2.5rem"@))
        .push(("11"@, "2.75rem"@))
        .push(("12"@, "3rem"@))
        .push(("14"@, "3.5rem"@))
        .push(("16"@, "4rem"@))
        .push(("20"@, "5rem"@))
        .push(("24"@, "6rem"@))
        .push(("28"@, "7rem"@))
        .push(("32"@, "8rem"@))
        .push(("36"@, "9rem"@))
        .push(("40"@, "10rem"@))
        .push(("44"@, "11rem"@))
        .push(("48"@, "12rem"@))
        .push(("52"@, "13rem"@))
        .push(("56"@, "14rem"@))
        .push(("60"@, "15rem"@))
        .push(("64"@, "16rem"@))
        .push(("72"@, "18rem"@))
        .push(("80"@, "20rem"@))
        .push(("96"@, "24rem"@))
        .push(("auto"@, "auto"@))
        .push(("1/2"@, "50%"@))
        .push(("1/3"@, "33.333333%"@))
        .push(("2/3"@, "66.666667%"@))
        .push(("1/4"@, "25%"@))
        .push(("2/4"@, "50%"@))
        .push(("3/4"@, "75%"@))
        .push(("1/5"@, "20%"@))
        .push(("2/5"@, "40%"@))
        .push(("3/5"@, "60%"@))
        .push(("4/5"@, "80%"@))
        .push(("1/6"@, "16.666667%"@))
        .push(("2/6"@, "33.333333%"@))
        .push(("3/6"@, "50%"@))
        .push(("4/6"@, "66.666667%"@))
        .push(("5/6"@, "83.333333%"@))
        .push(("1/12"@, "8.333333%"@))
        .push(("2/12"@, "16.666667%"@))
        .push(("3/12"@, "25%"@))
        .push(("4/12"@, "33.333333%"@))
        .push(("5/12"@, "41.666667%"@))
        .push(("6/12"@, "50%"@))
        .push(("7/12"@, "58.333333%"@))
        .push(("8/12"@, "66.666667%"@))
        .push(("9/12"@, "75%"@))
        .push(("10/12"@, "83.333333%"@))
        .push(("11/12"@, "91.666667%"@))
        .push(("full"@, "100%"@))
        .push(("min"@, "min-content"@))
        .push(("max"@, "max-content"@))
        .push(("fit"@, "fit-content"@))
}

fn size_table() -> (r: JsonValue)
    ensures
        text_members(r) == Some(size_pairs()),
{
    let mut ms = new_members::<Seq<char>>(Ghost(as_text()));
    push_str(&mut ms, "px", "1px");
    push_str(&mut ms, "0", "0px");
    push_str(&mut ms, "0.5", "0.125rem");
    push_str(&mut ms, "1", "0.25rem");
    push_str(&mut ms, "1.5", "0.375rem");
    push_str(&mut ms, "2", "0.5rem");
    push_str(&mut ms, "2.5", "0.625rem");
    push_str(&mut ms, "3", "0.75rem");
    push_str(&mut ms, "3.5", "0.875rem");
    push_str(&mut ms, "4", "1rem");
    push_str(&mut ms, "5", "1.25rem");
    push_str(&mut ms, "6", "1.5rem");
    push_str(&mut ms, "7", "1.75rem");
    push_str(&mut ms, "8", "2rem");
    push_str(&mut ms, "9", "2.25rem");
    push_str(&mut ms, "10", "2.5rem");
    push_str(&mut ms, "11", "2.75rem");
    push_str(&mut ms, "12", "3rem");
    push_str(&mut ms, "14", "3.5rem");
    push_str(&mut ms, "16", "4rem");
    push_str(&mut ms, "20", "5rem");
    push_str(&mut ms, "24", "6rem");
    push_str(&mut ms, "28", "7rem");
    push_str(&mut ms, "32", "8rem");
    push_str(&mut ms, "36", "9rem");
    push_str(&mut ms, "40", "10rem");
    push_str(&mut ms, "44", "11rem");
    push_str(&mut ms, "48", "12rem");
    push_str(&mut ms, "52", "13rem");
    push_str(&mut ms, "56", "14rem");
    push_str(&mut ms, "60", "15rem");
    push_str(&mut ms, "64", "16rem");
    push_str(&mut ms, "72", "18rem");
    push_str(&mut ms, "80", "20rem");
    push_str(&mut ms, "96", "24rem");
    push_str(&mut ms, "auto", "auto");
    push_str(&mut ms, "1/2", "50%");
    push_str(&mut ms, "1/3", "33.333333%");
    push_str(&mut ms, "2/3", "66.666667%");
    push_str(&mut ms, "1/4", "25%");
    push_str(&mut ms, "2/4", "50%");
    push_str(&mut ms, "3/4", "75%");
    push_str(&mut ms, "1/5", "20%");
    push_str(&mut ms, "2/5", "40%");
    push_str(&mut ms, "3/5", "60%");
    push_str(&mut ms, "4/5", "80%");
    push_str(&mut ms, "1/6", "16.666667%");
    push_str(&mut ms, "2/6", "33.333333%");
    push_str(&mut ms, "3/6", "50%");
    push_str(&mut ms, "4/6", "66.666667%");
    push_str(&mut ms, "5/6", "83.333333%");
    push_str(&mut ms, "1/12", "8.333333%");
    push_str(&mut ms, "2/12", "16.666667%");
    push_str(&mut ms, "3/12", "25%");
    push_str(&mut ms, "4/12", "33.333333%");
    push_str(&mut ms, "5/12", "41.666667%");
    push_str(&mut ms, "6/12", "50%");
    push_str(&mut ms, "7/12", "58.333333%");
    push_str(&mut ms, "8/12", "66.666667%");
    push_str(&mut ms, "9/12", "75%");
    push_str(&mut ms, "10/12", "83.333333%");
    push_str(&mut ms, "11/12", "91.666667%");
    push_str(&mut ms, "full", "100%");
    push_str(&mut ms, "min", "min-content");
    push_str(&mut ms, "max", "max-content");
    push_str(&mut ms, "fit", "fit-content");
    JsonValue::Object(ms)
}

/// The default `width` table, in insertion order.
pub open spec fn width_pairs() -> Seq<(Seq<char>, Seq<char>)> {
    Seq::empty()
        .push(("px"@, "1px"@))
        .push(("0"@, "0px"@))
        .push(("0.5"@, "0.125rem"@))
        .push(("1"@, "0.25rem"@))
        .push(("1.5"@, "0.375rem"@))
        .push(("2"@, "0.5rem"@))
        .push(("2.5"@, "0.625rem"@))
        .push(("3"@, "0.75rem"@))
        .push(("3.5"@, "0.875rem"@))
        .push(("4"@, "1rem"@))
        .push(("5"@, "1.25rem"@))
        .push(("6"@, "1.5rem"@))
        .push(("7"@, "1.75rem"@))
        .push(("8"@, "2rem"@))
        .push(("9"@, "2.25rem"@))
        .push(("10"@, "2.5rem"@))
        .push(("11"@, "2.75rem"@))
        .push(("12"@, "3rem"@))
        .push(("14"@, "3.5rem"@))
        .push(("16"@, "4rem"@))
        .push(("20"@, "5rem"@))
        .push(("24"@, "6rem"@))
        .push(("28"@, "7rem"@))
        .push(("32"@, "8rem"@))
        .push(("36"@, "9rem"@))
        .push(("40"@, "10rem"@))
        .push(("44"@, "11rem"@))
        .push(("48"@, "12rem"@))
        .push(("52"@, "13rem"@))
        .push(("56"@, "14rem"@))
        .push(("60"@, "15rem"@))
        .push(("64"@, "16rem"@))
        .push(("72"@, "18rem"@))
        .push(("80"@, "20rem"@))
        .push(("96"@, "24rem"@))
        .push(("auto"@, "auto"@))
        .push(("1/2"@, "50%"@))
        .push(("1/3"@, "33.333333%"@))
        .push(("2/3"@, "66.666667%"@))
        .push(("1/4"@, "25%"@))
        .push(("2/4"@, "50%"@))
        .push(("3/4"@, "75%"@))
        .push(("1/5"@, "20%"@))
        .push(("2/5"@, "40%"@))
        .push(("3/5"@, "60%"@))
        .push(("4/5"@, "80%"@))
        .push(("1/6"@, "16.666667%"@))
        .push(("2/6"@, "33.333333%"@))
        .push(("3/6"@, "50%"@))
        .push(("4/6"@, "66.666667%"@))
        .push(("5/6"@, "83.333333%"@))
        .push(("1/12"@, "8.333333%"@))
        .push(("2/12"@, "16.666667%"@))
        .push(("3/12"@, "25%"@))
        .push(("4/12"@, "33.333333%"@))
        .push(("5/12"@, "41.666667%"@))
        .push(("6/12"@, "50%"@))
        .push(("7/12"@, "58.333333%"@))
        .push(("8/12"@, "66.666667%"@))
        .push(("9/12"@, "75%"@))
        .push(("10/12"@, "83.333333%"@))
        .push(("11/12"@, "91.666667%"@))
        .push(("full"@, "100%"@))
        .push(("screen"@, "100vw"@))
        .push(("svw"@, "100svw"@))
        .push(("lvw"@, "100lvw"@))
        .push(("dvw"@, "100dvw"@))
        .push(("min"@, "min-content"@))
        .push(("max"@, "max-content"@))
        .push(("fit"@, "fit-content"@))
}

fn width_table() -> (r: JsonValue)
    ensures
        text_members(r) == Some(width_pairs()),
{
    let mut ms = new_members::<Seq<char>>(Ghost(as_text()));
    push_str(&mut ms, "px", "1px");
    push_str(&mut ms, "0", "0px");
    push_str(&mut ms, "0.5", "0.125rem");
    push_str(&mut ms, "1", "0.25rem");
    push_str(&mut ms, "1.5", "0.375rem");
    push_str(&mut ms, "2", "0.5rem");
    push_str(&mut ms, "2.5", "0.625rem");
    push_str(&mut ms, "3", "0.75rem");
    push_str(&mut ms, "3.5", "0.875rem");
    push_str(&mut ms, "4", "1rem");
    push_str(&mut ms, "5", "1.25rem");
    push_str(&mut ms, "6", "1.5rem");
    push_str(&mut ms, "7", "1.75rem");
    push_str(&mut ms, "8", "2rem");
    push_str(&mut ms, "9", "2.25rem");
    push_str(&mut ms, "10", "2.5rem");
    push_str(&mut ms, "11", "2.75rem");
    push_str(&mut ms, "12", "3rem");
    push_str(&mut ms, "14", "3.5rem");
    push_str(&mut ms, "16", "4rem");
    push_str(&mut ms, "20", "5rem");
    push_str(&mut ms, "24", "6rem");
    push_str(&mut ms, "28", "7rem");
    push_str(&mut ms, "32", "8rem");
    push_str(&mut ms, "36", "9rem");
    push_str(&mut ms, "40", "10rem");
    push_str(&mut ms, "44", "11rem");
    push_str(&mut ms, "48", "12rem");
    push_str(&mut ms, "52", "13rem");
    push_str(&mut ms, "56", "14rem");
    push_str(&mut ms, "60", "15rem");
    push_str(&mut ms, "64", "16rem");
    push_str(&mut ms, "72", "18rem");
    push_str(&mut ms, "80", "20rem");
    push_str(&mut ms, "96", "24rem");
    push_str(&mut ms, "auto", "auto");
    push_str(&mut ms, "1/2", "50%");
    push_str(&mut ms, "1/3", "33.333333%");
    push_str(&mut ms, "2/3", "66.666667%");
    push_str(&mut ms, "1/4", "25%");
    push_str(&mut ms, "2/4", "50%");
    push_str(&mut ms, "3/4", "75%");
    push_str(&mut ms, "1/5", "20%");
    push_str(&mut ms, "2/5", "40%");
    push_str(&mut ms, "3/5", "60%");
    push_str(&mut ms, "4/5", "80%");
    push_str(&mut ms, "1/6", "16.666667%");
    push_str(&mut ms, "2/6", "33.333333%");
    push_str(&mut ms, "3/6", "50%");
    push_str(&mut ms, "4/6", "66.666667%");
    push_str(&mut ms, "5/6", "83.333333%");
    push_str(&mut ms, "1/12", "8.333333%");
    push_str(&mut ms, "2/12", "16.666667%");
    push_str(&mut ms, "3/12", "25%");
    push_str(&mut ms, "4/12", "33.333333%");
    push_str(&mut ms, "5/12", "41.666667%");
    push_str(&mut ms, "6/12", "50%");
    push_str(&mut ms, "7/12", "58.333333%");
    push_str(&mut ms, "8/12", "66.666667%");
    push_str(&mut ms, "9/12", "75%");
    push_str(&mut ms, "10/12", "83.333333%");
    push_str(&mut ms, "11/12", "91.666667%");
    push_str(&mut ms, "full", "100%");
    push_str(&mut ms, "screen", "100vw");
    push_str(&mut ms, "svw", "100svw");
    push_str(&mut ms, "lvw", "100lvw");
    push_str(&mut ms, "dvw", "100dvw");
    push_str(&mut ms, "min", "min-content");
    push_str(&mut ms, "max", "max-content");
    push_str(&mut ms, "fit", "fit-content");
    JsonValue::Object(ms)
}

/// The default `min_width` table, in insertion order.
pub open spec fn min_width_pairs() -> Seq<(Seq<char>, Seq<char>)> {
    Seq::empty()
        .push(("px"@, "1px"@))
        .push(("0"@, "0px"@))
        .push(("0.5"@, "0.125rem"@))
        .push(("1"@, "0.25rem"@))
        .push(("1.5"@, "0.375rem"@))
        .push(("2"@, "0.5rem"@))
        .push(("2.5"@, "0.625rem"@))
        .push(("3"@, "0.75rem"@))
        .push(("3.5"@, "0.875rem"@))
        .push(("4"@, "1rem"@))
        .push(("5"@, "1.25rem"@))
        .push(("6"@, "1.5rem"@))
        .push(("7"@, "1.75rem"@))
        .push(("8"@, "2rem"@))
        .push(("9"@, "2.25rem"@))
        .push(("10"@, "2.5rem"@))
        .push(("11"@, "2.75rem"@))
        .push(("12"@, "3rem"@))
        .push(("14"@, "3.5rem"@))
        .push(("16"@, "4rem"@))
        .push(("20"@, "5rem"@))
        .push(("24"@, "6rem"@))
        .push(("28"@, "7rem"@))
        .push(("32"@, "8rem"@))
        .push(("36"@, "9rem"@))
        .push(("40"@, "10rem"@))
        .push(("44"@, "11rem"@))
        .push(("48"@, "12rem"@))
        .push(("52"@, "13rem"@))
        .push(("56"@, "14rem"@))
        .push(("60"@, "15rem"@))
        .push(("64"@, "16rem"@))
        .push(("72"@, "18rem"@))
        .push(("80"@, "20rem"@))
        .push(("96"@, "24rem"@))
        .push(("full"@, "100%"@))
        .push(("min"@, "min-content"@))
        .push(("max"@, "max-content"@))
        .push(("fit"@, "fit-content"@))
}

fn min_width_table() -> (r: JsonValue)
    ensures
        text_members(r) == Some(min_width_pairs()),
{
    let mut ms = new_members::<Seq<char>>(Ghost(as_text()));
    push_str(&mut ms, "px", "1px");
    push_str(&mut ms, "0", "0px");
    push_str(&mut ms, "0.5", "0.125rem");
    push_str(&mut ms, "1", "0.25rem");
    push_str(&mut ms, "1.5", "0.375rem");
    push_str(&mut ms, "2", "0.5rem");
    push_str(&mut ms, "2.5", "0.625rem");
    push_str(&mut ms, "3", "0.75rem");
    push_str(&mut ms, "3.5", "0.875rem");
    push_str(&mut ms, "4", "1rem");
    push_str(&mut ms, "5", "1.25rem");
    push_str(&mut ms, "6", "1.5rem");
    push_str(&mut ms, "7", "1.75rem");
    push_str(&mut ms, "8", "2rem");
    push_str(&mut ms, "9", "2.25rem");
    push_str(&mut ms, "10", "2.5rem");
    push_str(&mut ms, "11", "2.75rem");
    push_str(&mut ms, "12", "3rem");
    push_str(&mut ms, "14", "3.5rem");
    push_str(&mut ms, "16", "4rem");
    push_str(&mut ms, "20", "5rem");
    push_str(&mut ms, "24", "6rem");
    push_str(&mut ms, "28", "7rem");
    push_str(&mut ms, "32", "8rem");
    push_str(&mut ms, "36", "9rem");
    push_str(&mut ms, "40", "10rem");
    push_str(&mut ms, "44", "11rem");
    push_str(&mut ms, "48", "12rem");
    push_str(&mut ms, "52", "13rem");
    push_str(&mut ms, "56", "14rem");
    push_str(&mut ms, "60", "15rem");
    push_str(&mut ms, "64", "16rem");
    push_str(&mut ms, "72", "18rem");
    push_str(&mut ms, "80", "20rem");
    push_str(&mut ms, "96", "24rem");
    push_str(&mut ms, "full", "100%");
    push_str(&mut ms, "min", "min-content");
    push_str(&mut ms, "max", "max-content");
    push_str(&mut ms, "fit", "fit-content");
    JsonValue::Object(ms)
}

/// The default `min_height` table, in insertion order.
pub open spec fn min_height_pairs() -> Seq<(Seq<char>, Seq<char>)> {
    Seq::empty()
        .push(("px"@, "1px"@))
        .push(("0"@, "0px"@))
        .push(("0.5"@, "0.125rem"@))
        .push(("1"@, "0.25rem"@))
        .push(("1.5"@, "0.375rem"@))
        .push(("2"@, "0.5rem"@))
        .push(("2.5"@, "0.625rem"@))
        .push(("3"@, "0.75rem"@))
        .push(("3.5"@, "0.875rem"@))
        .push(("4"@, "1rem"@))
        .push(("5"@, "1.25rem"@))
        .push(("6"@, "1.5rem"@))
        .push(("7"@, "1.75rem"@))
        .push(("8"@, "2rem"@))
        .push(("9"@, "2.25rem"@))
        .push(("10"@, "2.5rem"@))
        .push(("11"@, "2.75rem"@))
        .push(("12"@, "3rem"@))
        .push(("14"@, "3.5rem"@))
        .push(("16"@, "4rem"@))
        .push(("20"@, "5rem"@))
        .push(("24"@, "6rem"@))
        .push(("28"@, "7rem"@))
        .push(("32"@, "8rem"@))
        .push(("36"@, "9rem"@))
        .push(("40"@, "10rem"@))
        .push(("44"@, "11rem"@))
        .push(("48"@, "12rem"@))
        .push(("52"@, "13rem"@))
        .push(("56"@, "14rem"@))
        .push(("60"@, "15rem"@))
        .push(("64"@, "16rem"@))
        .push(("72"@, "18rem"@))
        .push(("80"@, "20rem"@))
        .push(("96"@, "24rem"@))
        .push(("full"@, "100%"@))
        .push(("screen"@, "100vh"@))
        .push(("svh"@, "100svh"@))
        .push(("lvh"@, "100lvh"@))
        .push(("dvh"@, "100dvh"@))
        .push(("min"@, "min-content"@))
        .push(("max"@, "max-content"@))
        .push(("fit"@, "fit-content"@))
}

fn min_height_table() -> (r: JsonValue)
    ensures
        text_members(r) == Some(min_height_pairs()),
{
    let mut ms = new_members::<Seq<char>>(Ghost(as_text()));
    push_str(&mut ms, "px", "1px");
    push_str(&mut ms, "0", "0px");
    push_str(&mut ms, "0.5", "0.125rem");
    push_str(&mut ms, "1", "0.25rem");
    push_str(&mut ms, "1.5", "0.375rem");
    push_str(&mut ms, "2", "0.5rem");
    push_str(&mut ms, "2.5", "0.625rem");
    push_str(&mut ms, "3", "0.75rem");
    push_str(&mut ms, "3.5", "0.875rem");
    push_str(&mut ms, "4", "1rem");
    push_str(&mut ms, "5", "1.25rem");
    push_str(&mut ms, "6", "1.5rem");
    push_str(&mut ms, "7", "1.75rem");
    push_str(&mut ms, "8", "2rem");
    push_str(&mut ms, "9", "2.25rem");
    push_str(&mut ms, "10", "2.5rem");
    push_str(&mut ms, "11", "2.75rem");
    push_str(&mut ms, "12", "3rem");
    push_str(&mut ms, "14", "3.5rem");
    push_str(&mut ms, "16", "4rem");
    push_str(&mut ms, "20", "5rem");
    push_str(&mut ms, "24", "6rem");
    push_str(&mut ms, "28", "7rem");
    push_str(&mut ms, "32", "8rem");
    push_str(&mut ms, "36", "9rem");
    push_str(&mut ms, "40", "10rem");
    push_str(&mut ms, "44", "11rem");
    push_str(&mut ms, "48", "12rem");
    push_str(&mut ms, "52", "13rem");
    push_str(&mut ms, "56", "14rem");
    push_str(&mut ms, "60", "15rem");
    push_str(&mut ms, "64", "16rem");
    push_str(&mut ms, "72", "18rem");
    push_str(&mut ms, "80", "20rem");
    push_str(&mut ms, "96", "24rem");
    push_str(&mut ms, "full", "100%");
    push_str(&mut ms, "screen", "100vh");
    push_str(&mut ms, "svh", "100svh");
    push_str(&mut ms, "lvh", "100lvh");
    push_str(&mut ms, "dvh", "100dvh");
    push_str(&mut ms, "min", "min-content");
    push_str(&mut ms, "max", "max-content");
    push_str(&mut ms, "fit", "fit-content");
    JsonValue::Object(ms)
}

/// The default `max_height` table, in insertion order.
pub open spec fn max_height_pairs() -> Seq<(Seq<char>, Seq<char>)> {
    Seq::empty()
        .push(("px"@, "1px"@))
        .push(("0"@, "0px"@))
        .push(("0.5"@, "0.125rem"@))
        .push(("1"@, "0.25rem"@))
        .push(("1.5"@, "0.375rem"@))
        .push(("2"@, "0.5rem"@))
        .push(("2.5"@, "0.625rem"@))
        .push(("3"@, "0.75rem"@))
        .push(("3.5"@, "0.875rem"@))
        .push(("4"@, "1rem"@))
        .push(("5"@, "1.25rem"@))
        .push(("6"@, "1.5rem"@))
        .push(("7"@, "1.75rem"@))
        .push(("8"@, "2rem"@))
        .push(("9"@, "2.25rem"@))
        .push(("10"@, "2.5rem"@))
        .push(("11"@, "2.75rem"@))
        .push(("12"@, "3rem"@))
        .push(("14"@, "3.5rem"@))
        .push(("16"@, "4rem"@))
        .push(("20"@, "5rem"@))
        .push(("24"@, "6rem"@))
        .push(("28"@, "7rem"@))
        .push(("32"@, "8rem"@))
        .push(("36"@, "9rem"@))
        .push(("40"@, "10rem"@))
        .push(("44"@, "11rem"@))
        .push(("48"@, "12rem"@))
        .push(("52"@, "13rem"@))
        .push(("56"@, "14rem"@))
        .push(("60"@, "15rem"@))
        .push(("64"@, "16rem"@))
        .push(("72"@, "18rem"@))
        .push(("80"@, "20rem"@))
        .push(("96"@, "24rem"@))
        .push(("none"@, "none"@))
        .push(("full"@, "100%"@))
        .push(("screen"@, "100vh"@))
        .push(("svh"@, "100svh"@))
        .push(("lvh"@, "100lvh"@))
        .push(("dvh"@, "100dvh"@))
        .push(("min"@, "min-content"@))
        .push(("max"@, "max-content"@))
        .push(("fit"@, "fit-content"@))
}

fn max_height_table() -> (r: JsonValue)
    ensures
        text_members(r) == Some(max_height_pairs()),
{
    let mut ms = new_members::<Seq<char>>(Ghost(as_text()));
    push_str(&mut ms, "px", "1px");
    push_str(&mut ms, "0", "0px");
    push_str(&mut ms, "0.5", "0.125rem");
    push_str(&mut ms, "1", "0.25rem");
    push_str(&mut ms, "1.5", "0.375rem");
    push_str(&mut ms, "2", "0.5rem");
    push_str(&mut ms, "2.5", "0.625rem");
    push_str(&mut ms, "3", "0.75rem");
    push_str(&mut ms, "3.5", "0.875rem");
    push_str(&mut ms, "4", "1rem");
    push_str(&mut ms, "5", "1.25rem");
    push_str(&mut ms, "6", "1.5rem");
    push_str(&mut ms, "7", "1.75rem");
    push_str(&mut ms, "8", "2rem");
    push_str(&mut ms, "9", "2.25rem");
    push_str(&mut ms, "10", "2.5rem");
    push_str(&mut ms, "11", "2.75rem");
    push_str(&mut ms, "12", "3rem");
    push_str(&mut ms, "14", "3.5rem");
    push_str(&mut ms, "16", "4rem");
    push_str(&mut ms, "20", "5rem");
    push_str(&mut ms, "24", "6rem");
    push_str(&mut ms, "28", "7rem");
    push_str(&mut ms, "32", "8rem");
    push_str(&mut ms, "36", "9rem");
    push_str(&mut ms, "40", "10rem");
    push_str(&mut ms, "44", "11rem");
    push_str(&mut ms, "48", "12rem");
    push_str(&mut ms, "52", "13rem");
    push_str(&mut ms, "56", "14rem");
    push_str(&mut ms, "60", "15rem");
    push_str(&mut ms, "64", "16rem");
    push_str(&mut ms, "72", "18rem");
    push_str(&mut ms, "80", "20rem");
    push_str(&mut ms, "96", "24rem");
    push_str(&mut ms, "none", "none");
    push_str(&mut ms, "full", "100%");
    push_str(&mut ms, "screen", "100vh");
    push_str(&mut ms, "svh", "100svh");
    push_str(&mut ms, "lvh", "100lvh");
    push_str(&mut ms, "dvh", "100dvh");
    push_str(&mut ms, "min", "min-content");
    push_str(&mut ms, "max", "max-content");
    push_str(&mut ms, "fit", "fit-content");
    JsonValue::Object(ms)
}

/// The default `max_width` table, in insertion order.
pub open spec fn max_width_pairs() -> Seq<(Seq<char>, Seq<char>)> {
    Seq::empty()
        .push(("px"@, "1px"@))
        .push(("0"@, "0px"@))
        .push(("0.5"@, "0.125rem"@))
        .push(("1"@, "0.25rem"@))
        .push(("1.5"@, "0.375rem"@))
        .push(("2"@, "0.5rem"@))
        .push(("2.5"@, "0.625rem"@))
        .push(("3"@, "0.75rem"@))
        .push(("3.5"@, "0.875rem"@))
        .push(("4"@, "1rem"@))
        .push(("5"@, "1.25rem"@))
        .push(("6"@, "1.5rem"@))
        .push(("7"@, "1.75rem"@))
        .push(("8"@, "2rem"@))
        .push(("9"@, "2.25rem"@))
        .push(("10"@, "2.5rem"@))
        .push(("11"@, "2.75rem"@))
        .push(("12"@, "3rem"@))
        .push(("14"@, "3.5rem"@))
        .push(("16"@, "4rem"@))
        .push(("20"@, "5rem"@))
        .push(("24"@, "6rem"@))
        .push(("28"@, "7rem"@))
        .push(("32"@, "8rem"@))
        .push(("36"@, "9rem"@))
        .push(("40"@, "10rem"@))
        .push(("44"@, "11rem"@))
        .push(("48"@, "12rem"@))
        .push(("52"@, "13rem"@))
        .push(("56"@, "14rem"@))
        .push(("60"@, "15rem"@))
        .push(("64"@, "16rem"@))
        .push(("72"@, "18rem"@))
        .push(("80"@, "20rem"@))
        .push(("96"@, "24rem"@))
        .push(("none"@, "none"@))
        .push(("xs"@, "20rem"@))
        .push(("sm"@, "24rem"@))
        .push(("md"@, "28rem"@))
        .push(("lg"@, "32rem"@))
        .push(("xl"@, "36rem"@))
        .push(("2xl"@, "42rem"@))
        .push(("3xl"@, "48rem"@))
        .push(("4xl"@, "56rem"@))
        .push(("5xl"@, "64rem"@))
        .push(("6xl"@, "72rem"@))
        .push(("7xl"@, "80rem"@))
        .push(("full"@, "100%"@))
        .push(("min"@, "min-content"@))
        .push(("max"@, "max-content"@))
        .push(("fit"@, "fit-content"@))
        .push(("prose"@, "65ch"@))
        .push(("screen-sm"@, "640px"@))
        .push(("screen-md"@, "768px"@))
        .push(("screen-lg"@, "1024px"@))
        .push(("screen-xl"@, "1280px"@))
        .push(("screen-2xl"@, "1536px"@))
}

fn max_width_table() -> (r: JsonValue)
    ensures
        text_members(r) == Some(max_width_pairs()),
{
    let mut ms = new_members::<Seq<char>>(Ghost(as_text()));
    push_str(&mut ms, "px", "1px");
    push_str(&mut ms, "0", "0px");
    push_str(&mut ms, "0.5", "0.125rem");
    push_str(&mut ms, "1", "0.25rem");
    push_str(&mut ms, "1.5", "0.375rem");
    push_str(&mut ms, "2", "0.5rem");
    push_str(&mut ms, "2.5", "0.625rem");
    push_str(&mut ms, "3", "0.75rem");
    push_str(&mut ms, "3.5", "0.875rem");
    push_str(&mut ms, "4", "1rem");
    push_str(&mut ms, "5", "1.25rem");
    push_str(&mut ms, "6", "1.5rem");
    push_str(&mut ms, "7", "1.75rem");
    push_str(&mut ms, "8", "2rem");
    push_str(&mut ms, "9", "2.25rem");
    push_str(&mut ms, "10", "2.5rem");
    push_str(&mut ms, "11", "2.75rem");
    push_str(&mut ms, "12", "3rem");
    push_str(&mut ms, "14", "3.5rem");
    push_str(&mut ms, "16", "4rem");
    push_str(&mut ms, "20", "5rem");
    push_str(&mut ms, "24", "6rem");
    push_str(&mut ms, "28", "7rem");
    push_str(&mut ms, "32", "8rem");
    push_str(&mut ms, "36", "9rem");
    push_str(&mut ms, "40", "10rem");
    push_str(&mut ms, "44", "11rem");
    push_str(&mut ms, "48", "12rem");
    push_str(&mut ms, "52", "13rem");
    push_str(&mut ms, "56", "14rem");
    push_str(&mut ms, "60", "15rem");
    push_str(&mut ms, "64", "16rem");
    push_str(&mut ms, "72", "18rem");
    push_str(&mut ms, "80", "20rem");
    push_str(&mut ms, "96", "24rem");
    push_str(&mut ms, "none", "none");
    push_str(&mut ms, "xs", "20rem");
    push_str(&mut ms, "sm", "24rem");
    push_str(&mut ms, "md", "28rem");
    push_str(&mut ms, "lg", "32rem");
    push_str(&mut ms, "xl", "36rem");
    push_str(&mut ms, "2xl", "42rem");
    push_str(&mut ms, "3xl", "48rem");
    push_str(&mut ms, "4xl", "56rem");
    push_str(&mut ms, "5xl", "64rem");
    push_str(&mut ms, "6xl", "72rem");
    push_str(&mut ms, "7xl", "80rem");
    push_str(&mut ms, "full", "100%");
    push_str(&mut ms, "min", "min-content");
    push_str(&mut ms, "max", "max-content");
    push_str(&mut ms, "fit", "fit-content");
    push_str(&mut ms, "prose", "65ch");
    push_str(&mut ms, "screen-sm", "640px");
    push_str(&mut ms, "screen-md", "768px");
    push_str(&mut ms, "screen-lg", "1024px");
    push_str(&mut ms, "screen-xl", "1280px");
    push_str(&mut ms, "screen-2xl", "1536px");
    JsonValue::Object(ms)
}

/// The default `font_weight` table, in insertion order.
pub open spec fn font_weight_pairs() -> Seq<(Seq<char>, Seq<char>)> {
    Seq::empty()
        .push(("thin"@, "100"@))
        .push(("extralight"@, "200"@))
        .push(("light"@, "300"@))
        .push(("normal"@, "400"@))
        .push(("medium"@, "500"@))
        .push(("semibold"@, "600"@))
        .push(("bold"@, "700"@))
        .push(("extrabold"@, "800"@))
        .push(("black"@, "900"@))
}

fn font_weight_table() -> (r: JsonValue)
    ensures
        text_members(r) == Some(font_weight_pairs()),
{
    let mut ms = new_members::<Seq<char>>(Ghost(as_text()));
    push_str(&mut ms, "thin", "100");
    push_str(&mut ms, "extralight", "200");
    push_str(&mut ms, "light", "300");
    push_str(&mut ms, "normal", "400");
    push_str(&mut ms, "medium", "500");
    push_str(&mut ms, "semibold", "600");
    push_str(&mut ms, "bold", "700");
    push_str(&mut ms, "extrabold", "800");
    push_str(&mut ms, "black", "900");
    JsonValue::Object(ms)
}

/// The default `line_height` table, in insertion order.
pub open spec fn line_height_pairs() -> Seq<(Seq<char>, Seq<char>)> {
    Seq::empty()
        .push(("none"@, "1"@))
        .push(("tight"@, "1.25"@))
        .push(("snug"@, "1.375"@))
        .push(("normal"@, "1.5"@))
        .push(("relaxed"@, "1.625"@))
        .push(("loose"@, "2"@))
        .push(("3"@, ".75rem"@))
        .push(("4"@, "1rem"@))
        .push(("5"@, "1.25rem"@))
        .push(("6"@, "1.5rem"@))
        .push(("7"@, "1.75rem"@))
        .push(("8"@, "2rem"@))
        .push(("9"@, "2.25rem"@))
        .push(("10"@, "2.5rem"@))
}

fn line_height_table() -> (r: JsonValue)
    ensures
        text_members(r) == Some(line_height_pairs()),
{
    let mut ms = new_members::<Seq<char>>(Ghost(as_text()));
    push_str(&mut ms, "none", "1");
    push_str(&mut ms, "tight", "1.25");
    push_str(&mut ms, "snug", "1.375");
    push_str(&mut ms, "normal", "1.5");
    push_str(&mut ms, "relaxed", "1.625");
    push_str(&mut ms, "loose", "2");
    push_str(&mut ms, "3", ".75rem");
    push_str(&mut ms, "4", "1rem");
    push_str(&mut ms, "5", "1.25rem");
    push_str(&mut ms, "6", "1.5rem");
    push_str(&mut ms, "7", "1.75rem");
    push_str(&mut ms, "8", "2rem");
    push_str(&mut ms, "9", "2.25rem");
    push_str(&mut ms, "10", "2.5rem");
    JsonValue::Object(ms)
}

/// The default `letter_spacing` table, in insertion order.
pub open spec fn letter_spacing_pairs() -> Seq<(Seq<char>, Seq<char>)> {
    Seq::empty()
        .push(("tighter"@, "-0.05em"@))
        .push(("tight"@, "-0.025em"@))
        .push(("normal"@, "0em"@))
        .push(("wide"@, "0.025em"@))
        .push(("wider"@, "0.05em"@))
        .push(("widest"@, "0.1em"@))
}

fn letter_spacing_table() -> (r: JsonValue)
    ensures
        text_members(r) == Some(letter_spacing_pairs()),
{
    let mut ms = new_members::<Seq<char>>(Ghost(as_text()));
    push_str(&mut ms, "tighter", "-0.05em");
    push_str(&mut ms, "tight", "-0.025em");
    push_str(&mut ms, "normal", "0em");
    push_str(&mut ms, "wide", "0.025em");
    push_str(&mut ms, "wider", "0.05em");
    push_str(&mut ms, "widest", "0.1em");
    JsonValue::Object(ms)
}

/// `theme.screens`: the five default breakpoints.
pub open spec fn screens_pairs() -> Seq<(Seq<char>, Seq<char>)> {
    Seq::empty()
        .push(("sm"@, "640px"@))
        .push(("md"@, "768px"@))
        .push(("lg"@, "1024px"@))
        .push(("xl"@, "1280px"@))
        .push(("2xl"@, "1536px"@))
}

fn screens() -> (r: JsonValue)
    ensures
        text_members(r) == Some(screens_pairs()),
{
    let mut ms = new_members::<Seq<char>>(Ghost(as_text()));
    push_str(&mut ms, "sm", "640px");
    push_str(&mut ms, "md", "768px");
    push_str(&mut ms, "lg", "1024px");
    push_str(&mut ms, "xl", "1280px");
    push_str(&mut ms, "2xl", "1536px");
    JsonValue::Object(ms)
}

/// The default `fontSize` table: each key's size and line height.
pub open spec fn font_size_spec() -> Seq<(Seq<char>, (Seq<char>, Seq<char>))> {
    Seq::empty()
        .push(("xs"@, ("0.75rem"@, "1rem"@)))
        .push(("sm"@, ("0.875rem"@, "1.25rem"@)))
        .push(("base"@, ("1rem"@, "1.5rem"@)))
        .push(("lg"@, ("1.125rem"@, "1.75rem"@)))
        .push(("xl"@, ("1.25rem"@, "1.75rem"@)))
        .push(("2xl"@, ("1.5rem"@, "2rem"@)))
        .push(("3xl"@, ("1.875rem"@, "2.25rem"@)))
        .push(("4xl"@, ("2.25rem"@, "2.5rem"@)))
        .push(("5xl"@, ("3rem"@, "1"@)))
        .push(("6xl"@, ("3.75rem"@, "1"@)))
        .push(("7xl"@, ("4.5rem"@, "1"@)))
        .push(("8xl"@, ("6rem"@, "1"@)))
        .push(("9xl"@, ("8rem"@, "1"@)))
}

fn font_size_table() -> (r: JsonValue)
    ensures
        sized_members(r) == Some(font_size_spec()),
{
    let mut ms = new_members::<(Seq<char>, Seq<char>)>(Ghost(as_sized()));
    push_member::<(Seq<char>, Seq<char>)>(&mut ms, "xs", size_entry("0.75rem", "1rem"), Ghost(as_sized()));
    push_member::<(Seq<char>, Seq<char>)>(&mut ms, "sm", size_entry("0.875rem", "1.25rem"), Ghost(as_sized()));
    push_member::<(Seq<char>, Seq<char>)>(&mut ms, "base", size_entry("1rem", "1.5rem"), Ghost(as_sized()));
    push_member::<(Seq<char>, Seq<char>)>(&mut ms, "lg", size_entry("1.125rem", "1.75rem"), Ghost(as_sized()));
    push_member::<(Seq<char>, Seq<char>)>(&mut ms, "xl", size_entry("1.25rem", "1.75rem"), Ghost(as_sized()));
    push_member::<(Seq<char>, Seq<char>)>(&mut ms, "2xl", size_entry("1.5rem", "2rem"), Ghost(as_sized()));
    push_member::<(Seq<char>, Seq<char>)>(&mut ms, "3xl", size_entry("1.875rem", "2.25rem"), Ghost(as_sized()));
    push_member::<(Seq<char>, Seq<char>)>(&mut ms, "4xl", size_entry("2.25rem", "2.5rem"), Ghost(as_sized()));
    push_member::<(Seq<char>, Seq<char>)>(&mut ms, "5xl", size_entry("3rem", "1"), Ghost(as_sized()));
    push_member::<(Seq<char>, Seq<char>)>(&mut ms, "6xl", size_entry("3.75rem", "1"), Ghost(as_sized()));
    push_member::<(Seq<char>, Seq<char>)>(&mut ms, "7xl", size_entry("4.5rem", "1"), Ghost(as_sized()));
    push_member::<(Seq<char>, Seq<char>)>(&mut ms, "8xl", size_entry("6rem", "1"), Ghost(as_sized()));
    push_member::<(Seq<char>, Seq<char>)>(&mut ms, "9xl", size_entry("8rem", "1"), Ghost(as_sized()));
    JsonValue::Object(ms)
}

/// The default theme, key by key in the order the keys are first set,
/// each key with its final table; `colors` is the flattened colour table.
pub open spec fn default_theme_spec(colors: Seq<(String, String)>) -> Seq<(Seq<char>, ThemeTable)> {
    Seq::empty()
        .push(("spacing"@, ThemeTable::Text(spacing_pairs())))
        .push(("margin"@, ThemeTable::Text(margin_pairs())))
        .push(("padding"@, ThemeTable::Text(spacing_pairs())))
        .push(("space"@, ThemeTable::Text(spacing_pairs())))
        .push(("width"@, ThemeTable::Text(width_pairs())))
        .push(("height"@, ThemeTable::Text(height_pairs())))
        .push(("size"@, ThemeTable::Text(size_pairs())))
        .push(("minWidth"@, ThemeTable::Text(min_width_pairs())))
        .push(("minHeight"@, ThemeTable::Text(min_height_pairs())))
        .push(("maxWidth"@, ThemeTable::Text(max_width_pairs())))
        .push(("maxHeight"@, ThemeTable::Text(max_height_pairs())))
        .push(("fontFamily"@, ThemeTable::Lists(font_family_spec())))
        .push(("fontSize"@, ThemeTable::Sized(font_size_spec())))
        .push(("fontWeight"@, ThemeTable::Text(font_weight_pairs())))
        .push(("lineHeight"@, ThemeTable::Text(line_height_pairs())))
        .push(("letterSpacing"@, ThemeTable::Text(letter_spacing_pairs())))
        .push(("textIndent"@, ThemeTable::Text(spacing_pairs())))
        .push(("colors"@, ThemeTable::Text(color_pairs(colors))))
        .push(("backgroundColor"@, ThemeTable::Text(color_pairs(colors))))
        .push(("textColor"@, ThemeTable::Text(color_pairs(colors))))
        .push(("borderColor"@, ThemeTable::Text(pairs_insert(color_pairs(colors), "DEFAULT"@, "#e5e7eb"@))))
        .push(("textDecorationColor"@, ThemeTable::Text(color_pairs(colors))))
        .push(("placeholderColor"@, ThemeTable::Text(color_pairs(colors))))
        .push(("ringColor"@, ThemeTable::Text(pairs_insert(color_pairs(colors), "DEFAULT"@, "#3b82f6"@))))
        .push(("accentColor"@, ThemeTable::Text(pairs_insert(color_pairs(colors), "auto"@, "auto"@))))
        .push(("fill"@, ThemeTable::Text(pairs_insert(color_pairs(colors), "none"@, "none"@))))
        .push(("stroke"@, ThemeTable::Text(pairs_insert(color_pairs(colors), "none"@, "none"@))))
        .push(("opacity"@, ThemeTable::Text(opacity_pairs())))
        .push(("backgroundOpacity"@, ThemeTable::Text(opacity_pairs())))
        .push(("borderOpacity"@, ThemeTable::Text(opacity_pairs())))
        .push(("divideOpacity"@, ThemeTable::Text(opacity_pairs())))
        .push(("placeholderOpacity"@, ThemeTable::Text(opacity_pairs())))
        .push(("textOpacity"@, ThemeTable::Text(opacity_pairs())))
        .push(("translate"@, ThemeTable::Text(translate_pairs())))
        .push(("rotate"@, ThemeTable::Text(rotate_pairs())))
        .push(("scale"@, ThemeTable::Text(scale_pairs())))
        .push(("skew"@, ThemeTable::Text(skew_pairs())))
        .push(("borderWidth"@, ThemeTable::Text(border_width_pairs())))
        .push(("borderRadius"@, ThemeTable::Text(border_radius_pairs())))
        .push(("borderSpacing"@, ThemeTable::Text(spacing_pairs())))
        .push(("flex"@, ThemeTable::Text(flex_pairs())))
        .push(("flexBasis"@, ThemeTable::Text(flex_basis_pairs())))
        .push(("flexGrow"@, ThemeTable::Text(flex_grow_pairs())))
        .push(("flexShrink"@, ThemeTable::Text(flex_shrink_pairs())))
        .push(("order"@, ThemeTable::Text(order_pairs())))
        .push(("gap"@, ThemeTable::Text(spacing_pairs())))
        .push(("gridTemplateColumns"@, ThemeTable::Text(grid_template_pairs())))
        .push(("gridTemplateRows"@, ThemeTable::Text(grid_template_pairs())))
        .push(("gridColumn"@, ThemeTable::Text(grid_column_pairs())))
        .push(("gridRow"@, ThemeTable::Text(grid_column_pairs())))
        .push(("gridColumnStart"@, ThemeTable::Text(grid_start_end_pairs())))
        .push(("gridColumnEnd"@, ThemeTable::Text(grid_start_end_pairs())))
        .push(("gridRowStart"@, ThemeTable::Text(grid_start_end_pairs())))
        .push(("gridRowEnd"@, ThemeTable::Text(grid_start_end_pairs())))
        .push(("gridAutoColumns"@, ThemeTable::Text(grid_auto_pairs())))
        .push(("gridAutoRows"@, ThemeTable::Text(grid_auto_pairs())))
        .push(("blur"@, ThemeTable::Text(blur_pairs())))
        .push(("backdropBlur"@, ThemeTable::Text(blur_pairs())))
        .push(("brightness"@, ThemeTable::Text(brightness_pairs())))
        .push(("backdropBrightness"@, ThemeTable::Text(brightness_pairs())))
        .push(("contrast"@, ThemeTable::Text(contrast_pairs())))
        .push(("backdropContrast"@, ThemeTable::Text(contrast_pairs())))
        .push(("grayscale"@, ThemeTable::Text(grayscale_invert_sepia_pairs())))
        .push(("backdropGrayscale"@, ThemeTable::Text(grayscale_invert_sepia_pairs())))
        .push(("invert"@, ThemeTable::Text(grayscale_invert_sepia_pairs())))
        .push(("backdropInvert"@, ThemeTable::Text(grayscale_invert_sepia_pairs())))
        .push(("sepia"@, ThemeTable::Text(grayscale_invert_sepia_pairs())))
        .push(("backdropSepia"@, ThemeTable::Text(grayscale_invert_sepia_pairs())))
        .push(("hueRotate"@, ThemeTable::Text(hue_rotate_pairs())))
        .push(("backdropHueRotate"@, ThemeTable::Text(hue_rotate_pairs())))
        .push(("saturate"@, ThemeTable::Text(saturate_pairs())))
        .push(("backdropSaturate"@, ThemeTable::Text(saturate_pairs())))
        .push(("backdropOpacity"@, ThemeTable::Text(opacity_pairs())))
        .push(("dropShadow"@, ThemeTable::Shadows(drop_shadow_spec())))
        .push(("outlineWidth"@, ThemeTable::Text(outline_width_pairs())))
        .push(("outlineOffset"@, ThemeTable::Text(outline_offset_pairs())))
        .push(("outlineColor"@, ThemeTable::Text(color_pairs(colors))))
        .push(("inset"@, ThemeTable::Text(inset_pairs())))
        .push(("zIndex"@, ThemeTable::Text(z_index_pairs())))
        .push(("cursor"@, ThemeTable::Text(cursor_pairs())))
        .push(("transitionProperty"@, ThemeTable::Text(transition_property_pairs())))
        .push(("transitionDuration"@, ThemeTable::Text(transition_duration_pairs())))
        .push(("transitionTimingFunction"@, ThemeTable::Text(transition_timing_function_pairs())))
        .push(("transitionDelay"@, ThemeTable::Text(transition_delay_pairs())))
        .push(("animation"@, ThemeTable::Text(animation_pairs())))
        .push(("scrollMargin"@, ThemeTable::Text(scroll_margin_pairs())))
        .push(("scrollPadding"@, ThemeTable::Text(spacing_pairs())))
        .push(("backgroundImage"@, ThemeTable::Text(background_image_pairs())))
        .push(("backgroundPosition"@, ThemeTable::Text(background_position_pairs())))
        .push(("backgroundSize"@, ThemeTable::Text(background_size_pairs())))
        .push(("listStyleType"@, ThemeTable::Text(list_style_type_pairs())))
        .push(("listStyleImage"@, ThemeTable::Text(list_style_image_pairs())))
        .push(("caretColor"@, ThemeTable::Text(color_pairs(colors))))
        .push(("divideWidth"@, ThemeTable::Text(border_width_pairs())))
        .push(("divideColor"@, ThemeTable::Text(color_pairs(colors))))
        .push(("boxShadow"@, ThemeTable::Text(box_shadow_pairs())))
        .push(("boxShadowColor"@, ThemeTable::Text(color_pairs(colors))))
        .push(("ringWidth"@, ThemeTable::Text(ring_width_pairs())))
        .push(("ringOffsetWidth"@, ThemeTable::Text(ring_offset_width_pairs())))
        .push(("ringOffsetColor"@, ThemeTable::Text(color_pairs(colors))))
        .push(("ringOpacity"@, ThemeTable::Text(pairs_insert(opacity_pairs(), "DEFAULT"@, "0.5"@))))
        .push(("gradientColorStops"@, ThemeTable::Text(color_pairs(colors))))
        .push(("gradientColorStopPositions"@, ThemeTable::Text(gradient_position_pairs())))
        .push(("screens"@, ThemeTable::Text(screens_pairs())))
        .push(("lineClamp"@, ThemeTable::Text(line_clamp_pairs())))
        .push(("textUnderlineOffset"@, ThemeTable::Text(text_underline_offset_pairs())))
        .push(("textDecorationThickness"@, ThemeTable::Text(text_decoration_thickness_pairs())))
        .push(("content"@, ThemeTable::Text(content_pairs())))
        .push(("strokeWidth"@, ThemeTable::Text(stroke_width_pairs())))
        .push(("columns"@, ThemeTable::Text(columns_pairs())))
        .push(("aspectRatio"@, ThemeTable::Text(aspect_ratio_pairs())))
        .push(("objectPosition"@, ThemeTable::Text(object_position_pairs())))
        .push(("willChange"@, ThemeTable::Text(will_change_pairs())))
        .push(("transformOrigin"@, ThemeTable::Text(transform_origin_pairs())))
}

/// Tailwind's default theme as a JSON `theme` object. `colors` is the
/// flattened colour table (`red-500` to its CSS colour); it fills every
/// colour-valued key, with `DEFAULT` set for `borderColor` and
/// `ringColor`, `none` added to `fill` and `stroke`, and `auto` to
/// `accentColor`. A key set twice keeps its first place and its last table.
pub fn build_default_theme(colors: &Vec<(String, String)>) -> (r: JsonValue)
    ensures
        match r {
            JsonValue::Object(ms) => tables_hold(ms@, default_theme_spec(colors@)),
            _ => false,
        },
{
    let mut ms: Vec<(String, JsonValue)> = Vec::new();
    let ghost mut es: Seq<(Seq<char>, ThemeTable)> = Seq::empty();
    add_table(&mut ms, "spacing", spacing(), Ghost(es), Ghost(ThemeTable::Text(spacing_pairs())));
    proof { es = es.push(("spacing"@, ThemeTable::Text(spacing_pairs()))); }
    add_table(&mut ms, "margin", margin_table(), Ghost(es), Ghost(ThemeTable::Text(margin_pairs())));
    proof { es = es.push(("margin"@, ThemeTable::Text(margin_pairs()))); }
    add_table(&mut ms, "padding", spacing(), Ghost(es), Ghost(ThemeTable::Text(spacing_pairs())));
    proof { es = es.push(("padding"@, ThemeTable::Text(spacing_pairs()))); }
    add_table(&mut ms, "space", spacing(), Ghost(es), Ghost(ThemeTable::Text(spacing_pairs())));
    proof { es = es.push(("space"@, ThemeTable::Text(spacing_pairs()))); }
    add_table(&mut ms, "width", width_table(), Ghost(es), Ghost(ThemeTable::Text(width_pairs())));
    proof { es = es.push(("width"@, ThemeTable::Text(width_pairs()))); }
    add_table(&mut ms, "height", height_table(), Ghost(es), Ghost(ThemeTable::Text(height_pairs())));
    proof { es = es.push(("height"@, ThemeTable::Text(height_pairs()))); }
    add_table(&mut ms, "size", size_table(), Ghost(es), Ghost(ThemeTable::Text(size_pairs())));
    proof { es = es.push(("size"@, ThemeTable::Text(size_pairs()))); }
    add_table(&mut ms, "minWidth", min_width_table(), Ghost(es), Ghost(ThemeTable::Text(min_width_pairs())));
    proof { es = es.push(("minWidth"@, ThemeTable::Text(min_width_pairs()))); }
    add_table(&mut ms, "minHeight", min_height_table(), Ghost(es), Ghost(ThemeTable::Text(min_height_pairs())));
    proof { es = es.push(("minHeight"@, ThemeTable::Text(min_height_pairs()))); }
    add_table(&mut ms, "maxWidth", max_width_table(), Ghost(es), Ghost(ThemeTable::Text(max_width_pairs())));
    proof { es = es.push(("maxWidth"@, ThemeTable::Text(max_width_pairs()))); }
    add_table(&mut ms, "maxHeight", max_height_table(), Ghost(es), Ghost(ThemeTable::Text(max_height_pairs())));
    proof { es = es.push(("maxHeight"@, ThemeTable::Text(max_height_pairs()))); }
    add_table(&mut ms, "fontFamily", font_family_table(), Ghost(es), Ghost(ThemeTable::Lists(font_family_spec())));
    proof { es = es.push(("fontFamily"@, ThemeTable::Lists(font_family_spec()))); }
    add_table(&mut ms, "fontSize", font_size_table(), Ghost(es), Ghost(ThemeTable::Sized(font_size_spec())));
    proof { es = es.push(("fontSize"@, ThemeTable::Sized(font_size_spec()))); }
    add_table(&mut ms, "fontWeight", font_weight_table(), Ghost(es), Ghost(ThemeTable::Text(font_weight_pairs())));
    proof { es = es.push(("fontWeight"@, ThemeTable::Text(font_weight_pairs()))); }
    add_table(&mut ms, "lineHeight", line_height_table(), Ghost(es), Ghost(ThemeTable::Text(line_height_pairs())));
    proof { es = es.push(("lineHeight"@, ThemeTable::Text(line_height_pairs()))); }
    add_table(&mut ms, "letterSpacing", letter_spacing_table(), Ghost(es), Ghost(ThemeTable::Text(letter_spacing_pairs())));
    proof { es = es.push(("letterSpacing"@, ThemeTable::Text(letter_spacing_pairs()))); }
    add_table(&mut ms, "textIndent", spacing(), Ghost(es), Ghost(ThemeTable::Text(spacing_pairs())));
    proof { es = es.push(("textIndent"@, ThemeTable::Text(spacing_pairs()))); }
    add_table(&mut ms, "colors", color_table(colors), Ghost(es), Ghost(ThemeTable::Text(color_pairs(colors@))));
    proof { es = es.push(("colors"@, ThemeTable::Text(color_pairs(colors@)))); }
    add_table(&mut ms, "backgroundColor", color_table(colors), Ghost(es), Ghost(ThemeTable::Text(color_pairs(colors@))));
    proof { es = es.push(("backgroundColor"@, ThemeTable::Text(color_pairs(colors@)))); }
    add_table(&mut ms, "textColor", color_table(colors), Ghost(es), Ghost(ThemeTable::Text(color_pairs(colors@))));
    proof { es = es.push(("textColor"@, ThemeTable::Text(color_pairs(colors@)))); }
    add_table(&mut ms, "borderColor", color_table_with(colors, "DEFAULT", "#e5e7eb"), Ghost(es), Ghost(ThemeTable::Text(pairs_insert(color_pairs(colors@), "DEFAULT"@, "#e5e7eb"@))));
    proof { es = es.push(("borderColor"@, ThemeTable::Text(pairs_insert(color_pairs(colors@), "DEFAULT"@, "#e5e7eb"@)))); }
    add_table(&mut ms, "textDecorationColor", color_table(colors), Ghost(es), Ghost(ThemeTable::Text(color_pairs(colors@))));
    proof { es = es.push(("textDecorationColor"@, ThemeTable::Text(color_pairs(colors@)))); }
    add_table(&mut ms, "placeholderColor", color_table(colors), Ghost(es), Ghost(ThemeTable::Text(color_pairs(colors@))));
    proof { es = es.push(("placeholderColor"@, ThemeTable::Text(color_pairs(colors@)))); }
    add_table(&mut ms, "ringColor", color_table_with(colors, "DEFAULT", "#3b82f6"), Ghost(es), Ghost(ThemeTable::Text(pairs_insert(color_pairs(colors@), "DEFAULT"@, "#3b82f6"@))));
    proof { es = es.push(("ringColor"@, ThemeTable::Text(pairs_insert(color_pairs(colors@), "DEFAULT"@, "#3b82f6"@)))); }
    add_table(&mut ms, "accentColor", color_table_with(colors, "auto", "auto"), Ghost(es), Ghost(ThemeTable::Text(pairs_insert(color_pairs(colors@), "auto"@, "auto"@))));
    proof { es = es.push(("accentColor"@, ThemeTable::Text(pairs_insert(color_pairs(colors@), "auto"@, "auto"@)))); }
    add_table(&mut ms, "fill", color_table_with(colors, "none", "none"), Ghost(es), Ghost(ThemeTable::Text(pairs_insert(color_pairs(colors@), "none"@, "none"@))));
    proof { es = es.push(("fill"@, ThemeTable::Text(pairs_insert(color_pairs(colors@), "none"@, "none"@)))); }
    add_table(&mut ms, "stroke", color_table_with(colors, "none", "none"), Ghost(es), Ghost(ThemeTable::Text(pairs_insert(color_pairs(colors@), "none"@, "none"@))));
    proof { es = es.push(("stroke"@, ThemeTable::Text(pairs_insert(color_pairs(colors@), "none"@, "none"@)))); }
    add_table(&mut ms, "opacity", opacity_table(), Ghost(es), Ghost(ThemeTable::Text(opacity_pairs())));
    proof { es = es.push(("opacity"@, ThemeTable::Text(opacity_pairs()))); }
    add_table(&mut ms, "backgroundOpacity", opacity_table(), Ghost(es), Ghost(ThemeTable::Text(opacity_pairs())));
    proof { es = es.push(("backgroundOpacity"@, ThemeTable::Text(opacity_pairs()))); }
    add_table(&mut ms, "borderOpacity", opacity_table(), Ghost(es), Ghost(ThemeTable::Text(opacity_pairs())));
    proof { es = es.push(("borderOpacity"@, ThemeTable::Text(opacity_pairs()))); }
    add_table(&mut ms, "divideOpacity", opacity_table(), Ghost(es), Ghost(ThemeTable::Text(opacity_pairs())));
    proof { es = es.push(("divideOpacity"@, ThemeTable::Text(opacity_pairs()))); }
    add_table(&mut ms, "placeholderOpacity", opacity_table(), Ghost(es), Ghost(ThemeTable::Text(opacity_pairs())));
    proof { es = es.push(("placeholderOpacity"@, ThemeTable::Text(opacity_pairs()))); }
    add_table(&mut ms, "textOpacity", opacity_table(), Ghost(es), Ghost(ThemeTable::Text(opacity_pairs())));
    proof { es = es.push(("textOpacity"@, ThemeTable::Text(opacity_pairs()))); }
    add_table(&mut ms, "translate", translate_table(), Ghost(es), Ghost(ThemeTable::Text(translate_pairs())));
    proof { es = es.push(("translate"@, ThemeTable::Text(translate_pairs()))); }
    add_table(&mut ms, "rotate", rotate_table(), Ghost(es), Ghost(ThemeTable::Text(rotate_pairs())));
    proof { es = es.push(("rotate"@, ThemeTable::Text(rotate_pairs()))); }
    add_table(&mut ms, "scale", scale_table(), Ghost(es), Ghost(ThemeTable::Text(scale_pairs())));
    proof { es = es.push(("scale"@, ThemeTable::Text(scale_pairs()))); }
    add_table(&mut ms, "skew", skew_table(), Ghost(es), Ghost(ThemeTable::Text(skew_pairs())));
    proof { es = es.push(("skew"@, ThemeTable::Text(skew_pairs()))); }
    add_table(&mut ms, "borderWidth", border_width_table(), Ghost(es), Ghost(ThemeTable::Text(border_width_pairs())));
    proof { es = es.push(("borderWidth"@, ThemeTable::Text(border_width_pairs()))); }
    add_table(&mut ms, "borderRadius", border_radius_table(), Ghost(es), Ghost(ThemeTable::Text(border_radius_pairs())));
    proof { es = es.push(("borderRadius"@, ThemeTable::Text(border_radius_pairs()))); }
    add_table(&mut ms, "borderSpacing", spacing(), Ghost(es), Ghost(ThemeTable::Text(spacing_pairs())));
    proof { es = es.push(("borderSpacing"@, ThemeTable::Text(spacing_pairs()))); }
    add_table(&mut ms, "flex", flex_table(), Ghost(es), Ghost(ThemeTable::Text(flex_pairs())));
    proof { es = es.push(("flex"@, ThemeTable::Text(flex_pairs()))); }
    add_table(&mut ms, "flexBasis", flex_basis_table(), Ghost(es), Ghost(ThemeTable::Text(flex_basis_pairs())));
    proof { es = es.push(("flexBasis"@, ThemeTable::Text(flex_basis_pairs()))); }
    add_table(&mut ms, "flexGrow", flex_grow_table(), Ghost(es), Ghost(ThemeTable::Text(flex_grow_pairs())));
    proof { es = es.push(("flexGrow"@, ThemeTable::Text(flex_grow_pairs()))); }
    add_table(&mut ms, "flexShrink", flex_shrink_table(), Ghost(es), Ghost(ThemeTable::Text(flex_shrink_pairs())));
    proof { es = es.push(("flexShrink"@, ThemeTable::Text(flex_shrink_pairs()))); }
    add_table(&mut ms, "order", order_table(), Ghost(es), Ghost(ThemeTable::Text(order_pairs())));
    proof { es = es.push(("order"@, ThemeTable::Text(order_pairs()))); }
    add_table(&mut ms, "gap", spacing(), Ghost(es), Ghost(ThemeTable::Text(spacing_pairs())));
    proof { es = es.push(("gap"@, ThemeTable::Text(spacing_pairs()))); }
    add_table(&mut ms, "gridTemplateColumns", grid_template_table(), Ghost(es), Ghost(ThemeTable::Text(grid_template_pairs())));
    proof { es = es.push(("gridTemplateColumns"@, ThemeTable::Text(grid_template_pairs()))); }
    add_table(&mut ms, "gridTemplateRows", grid_template_table(), Ghost(es), Ghost(ThemeTable::Text(grid_template_pairs())));
    proof { es = es.push(("gridTemplateRows"@, ThemeTable::Text(grid_template_pairs()))); }
    add_table(&mut ms, "gridColumn", grid_column_table(), Ghost(es), Ghost(ThemeTable::Text(grid_column_pairs())));
    proof { es = es.push(("gridColumn"@, ThemeTable::Text(grid_column_pairs()))); }
    add_table(&mut ms, "gridRow", grid_column_table(), Ghost(es), Ghost(ThemeTable::Text(grid_column_pairs())));
    proof { es = es.push(("gridRow"@, ThemeTable::Text(grid_column_pairs()))); }
    add_table(&mut ms, "gridColumnStart", grid_start_end_table(), Ghost(es), Ghost(ThemeTable::Text(grid_start_end_pairs())));
    proof { es = es.push(("gridColumnStart"@, ThemeTable::Text(grid_start_end_pairs()))); }
    add_table(&mut ms, "gridColumnEnd", grid_start_end_table(), Ghost(es), Ghost(ThemeTable::Text(grid_start_end_pairs())));
    proof { es = es.push(("gridColumnEnd"@, ThemeTable::Text(grid_start_end_pairs()))); }
    add_table(&mut ms, "gridRowStart", grid_start_end_table(), Ghost(es), Ghost(ThemeTable::Text(grid_start_end_pairs())));
    proof { es = es.push(("gridRowStart"@, ThemeTable::Text(grid_start_end_pairs()))); }
    add_table(&mut ms, "gridRowEnd", grid_start_end_table(), Ghost(es), Ghost(ThemeTable::Text(grid_start_end_pairs())));
    proof { es = es.push(("gridRowEnd"@, ThemeTable::Text(grid_start_end_pairs()))); }
    add_table(&mut ms, "gridAutoColumns", grid_auto_table(), Ghost(es), Ghost(ThemeTable::Text(grid_auto_pairs())));
    proof { es = es.push(("gridAutoColumns"@, ThemeTable::Text(grid_auto_pairs()))); }
    add_table(&mut ms, "gridAutoRows", grid_auto_table(), Ghost(es), Ghost(ThemeTable::Text(grid_auto_pairs())));
    proof { es = es.push(("gridAutoRows"@, ThemeTable::Text(grid_auto_pairs()))); }
    add_table(&mut ms, "blur", blur_table(), Ghost(es), Ghost(ThemeTable::Text(blur_pairs())));
    proof { es = es.push(("blur"@, ThemeTable::Text(blur_pairs()))); }
    add_table(&mut ms, "backdropBlur", blur_table(), Ghost(es), Ghost(ThemeTable::Text(blur_pairs())));
    proof { es = es.push(("backdropBlur"@, ThemeTable::Text(blur_pairs()))); }
    add_table(&mut ms, "brightness", brightness_table(), Ghost(es), Ghost(ThemeTable::Text(brightness_pairs())));
    proof { es = es.push(("brightness"@, ThemeTable::Text(brightness_pairs()))); }
    add_table(&mut ms, "backdropBrightness", brightness_table(), Ghost(es), Ghost(ThemeTable::Text(brightness_pairs())));
    proof { es = es.push(("backdropBrightness"@, ThemeTable::Text(brightness_pairs()))); }
    add_table(&mut ms, "contrast", contrast_table(), Ghost(es), Ghost(ThemeTable::Text(contrast_pairs())));
    proof { es = es.push(("contrast"@, ThemeTable::Text(contrast_pairs()))); }
    add_table(&mut ms, "backdropContrast", contrast_table(), Ghost(es), Ghost(ThemeTable::Text(contrast_pairs())));
    proof { es = es.push(("backdropContrast"@, ThemeTable::Text(contrast_pairs()))); }
    add_table(&mut ms, "grayscale", grayscale_invert_sepia_table(), Ghost(es), Ghost(ThemeTable::Text(grayscale_invert_sepia_pairs())));
    proof { es = es.push(("grayscale"@, ThemeTable::Text(grayscale_invert_sepia_pairs()))); }
    add_table(&mut ms, "backdropGrayscale", grayscale_invert_sepia_table(), Ghost(es), Ghost(ThemeTable::Text(grayscale_invert_sepia_pairs())));
    proof { es = es.push(("backdropGrayscale"@, ThemeTable::Text(grayscale_invert_sepia_pairs()))); }
    add_table(&mut ms, "invert", grayscale_invert_sepia_table(), Ghost(es), Ghost(ThemeTable::Text(grayscale_invert_sepia_pairs())));
    proof { es = es.push(("invert"@, ThemeTable::Text(grayscale_invert_sepia_pairs()))); }
    add_table(&mut ms, "backdropInvert", grayscale_invert_sepia_table(), Ghost(es), Ghost(ThemeTable::Text(grayscale_invert_sepia_pairs())));
    proof { es = es.push(("backdropInvert"@, ThemeTable::Text(grayscale_invert_sepia_pairs()))); }
    add_table(&mut ms, "sepia", grayscale_invert_sepia_table(), Ghost(es), Ghost(ThemeTable::Text(grayscale_invert_sepia_pairs())));
    proof { es = es.push(("sepia"@, ThemeTable::Text(grayscale_invert_sepia_pairs()))); }
    add_table(&mut ms, "backdropSepia", grayscale_invert_sepia_table(), Ghost(es), Ghost(ThemeTable::Text(grayscale_invert_sepia_pairs())));
    proof { es = es.push(("backdropSepia"@, ThemeTable::Text(grayscale_invert_sepia_pairs()))); }
    add_table(&mut ms, "hueRotate", hue_rotate_table(), Ghost(es), Ghost(ThemeTable::Text(hue_rotate_pairs())));
    proof { es = es.push(("hueRotate"@, ThemeTable::Text(hue_rotate_pairs()))); }
    add_table(&mut ms, "backdropHueRotate", hue_rotate_table(), Ghost(es), Ghost(ThemeTable::Text(hue_rotate_pairs())));
    proof { es = es.push(("backdropHueRotate"@, ThemeTable::Text(hue_rotate_pairs()))); }
    add_table(&mut ms, "saturate", saturate_table(), Ghost(es), Ghost(ThemeTable::Text(saturate_pairs())));
    proof { es = es.push(("saturate"@, ThemeTable::Text(saturate_pairs()))); }
    add_table(&mut ms, "backdropSaturate", saturate_table(), Ghost(es), Ghost(ThemeTable::Text(saturate_pairs())));
    proof { es = es.push(("backdropSaturate"@, ThemeTable::Text(saturate_pairs()))); }
    add_table(&mut ms, "backdropOpacity", opacity_table(), Ghost(es), Ghost(ThemeTable::Text(opacity_pairs())));
    proof { es = es.push(("backdropOpacity"@, ThemeTable::Text(opacity_pairs()))); }
    add_table(&mut ms, "dropShadow", drop_shadow_table(), Ghost(es), Ghost(ThemeTable::Shadows(drop_shadow_spec())));
    proof { es = es.push(("dropShadow"@, ThemeTable::Shadows(drop_shadow_spec()))); }
    add_table(&mut ms, "outlineWidth", outline_width_table(), Ghost(es), Ghost(ThemeTable::Text(outline_width_pairs())));
    proof { es = es.push(("outlineWidth"@, ThemeTable::Text(outline_width_pairs()))); }
    add_table(&mut ms, "outlineOffset", outline_offset_table(), Ghost(es), Ghost(ThemeTable::Text(outline_offset_pairs())));
    proof { es = es.push(("outlineOffset"@, ThemeTable::Text(outline_offset_pairs()))); }
    add_table(&mut ms, "outlineColor", color_table(colors), Ghost(es), Ghost(ThemeTable::Text(color_pairs(colors@))));
    proof { es = es.push(("outlineColor"@, ThemeTable::Text(color_pairs(colors@)))); }
    add_table(&mut ms, "inset", inset_table(), Ghost(es), Ghost(ThemeTable::Text(inset_pairs())));
    proof { es = es.push(("inset"@, ThemeTable::Text(inset_pairs()))); }
    add_table(&mut ms, "zIndex", z_index_table(), Ghost(es), Ghost(ThemeTable::Text(z_index_pairs())));
    proof { es = es.push(("zIndex"@, ThemeTable::Text(z_index_pairs()))); }
    add_table(&mut ms, "cursor", cursor_table(), Ghost(es), Ghost(ThemeTable::Text(cursor_pairs())));
    proof { es = es.push(("cursor"@, ThemeTable::Text(cursor_pairs()))); }
    add_table(&mut ms, "transitionProperty", transition_property_table(), Ghost(es), Ghost(ThemeTable::Text(transition_property_pairs())));
    proof { es = es.push(("transitionProperty"@, ThemeTable::Text(transition_property_pairs()))); }
    add_table(&mut ms, "transitionDuration", transition_duration_table(), Ghost(es), Ghost(ThemeTable::Text(transition_duration_pairs())));
    proof { es = es.push(("transitionDuration"@, ThemeTable::Text(transition_duration_pairs()))); }
    add_table(&mut ms, "transitionTimingFunction", transition_timing_function_table(), Ghost(es), Ghost(ThemeTable::Text(transition_timing_function_pairs())));
    proof { es = es.push(("transitionTimingFunction"@, ThemeTable::Text(transition_timing_function_pairs()))); }
    add_table(&mut ms, "transitionDelay", transition_delay_table(), Ghost(es), Ghost(ThemeTable::Text(transition_delay_pairs())));
    proof { es = es.push(("transitionDelay"@, ThemeTable::Text(transition_delay_pairs()))); }
    add_table(&mut ms, "animation", animation_table(), Ghost(es), Ghost(ThemeTable::Text(animation_pairs())));
    proof { es = es.push(("animation"@, ThemeTable::Text(animation_pairs()))); }
    add_table(&mut ms, "scrollMargin", scroll_margin_table(), Ghost(es), Ghost(ThemeTable::Text(scroll_margin_pairs())));
    proof { es = es.push(("scrollMargin"@, ThemeTable::Text(scroll_margin_pairs()))); }
    add_table(&mut ms, "scrollPadding", spacing(), Ghost(es), Ghost(ThemeTable::Text(spacing_pairs())));
    proof { es = es.push(("scrollPadding"@, ThemeTable::Text(spacing_pairs()))); }
    add_table(&mut ms, "backgroundImage", background_image_table(), Ghost(es), Ghost(ThemeTable::Text(background_image_pairs())));
    proof { es = es.push(("backgroundImage"@, ThemeTable::Text(background_image_pairs()))); }
    add_table(&mut ms, "backgroundPosition", background_position_table(), Ghost(es), Ghost(ThemeTable::Text(background_position_pairs())));
    proof { es = es.push(("backgroundPosition"@, ThemeTable::Text(background_position_pairs()))); }
    add_table(&mut ms, "backgroundSize", background_size_table(), Ghost(es), Ghost(ThemeTable::Text(background_size_pairs())));
    proof { es = es.push(("backgroundSize"@, ThemeTable::Text(background_size_pairs()))); }
    add_table(&mut ms, "listStyleType", list_style_type_table(), Ghost(es), Ghost(ThemeTable::Text(list_style_type_pairs())));
    proof { es = es.push(("listStyleType"@, ThemeTable::Text(list_style_type_pairs()))); }
    add_table(&mut ms, "listStyleImage", list_style_image_table(), Ghost(es), Ghost(ThemeTable::Text(list_style_image_pairs())));
    proof { es = es.push(("listStyleImage"@, ThemeTable::Text(list_style_image_pairs()))); }
    add_table(&mut ms, "caretColor", color_table(colors), Ghost(es), Ghost(ThemeTable::Text(color_pairs(colors@))));
    proof { es = es.push(("caretColor"@, ThemeTable::Text(color_pairs(colors@)))); }
    add_table(&mut ms, "divideWidth", border_width_table(), Ghost(es), Ghost(ThemeTable::Text(border_width_pairs())));
    proof { es = es.push(("divideWidth"@, ThemeTable::Text(border_width_pairs()))); }
    add_table(&mut ms, "divideColor", color_table(colors), Ghost(es), Ghost(ThemeTable::Text(color_pairs(colors@))));
    proof { es = es.push(("divideColor"@, ThemeTable::Text(color_pairs(colors@)))); }
    add_table(&mut ms, "boxShadow", box_shadow_table(), Ghost(es), Ghost(ThemeTable::Text(box_shadow_pairs())));
    proof { es = es.push(("boxShadow"@, ThemeTable::Text(box_shadow_pairs()))); }
    add_table(&mut ms, "boxShadowColor", color_table(colors), Ghost(es), Ghost(ThemeTable::Text(color_pairs(colors@))));
    proof { es = es.push(("boxShadowColor"@, ThemeTable::Text(color_pairs(colors@)))); }
    add_table(&mut ms, "ringWidth", ring_width_table(), Ghost(es), Ghost(ThemeTable::Text(ring_width_pairs())));
    proof { es = es.push(("ringWidth"@, ThemeTable::Text(ring_width_pairs()))); }
    add_table(&mut ms, "ringOffsetWidth", ring_offset_width_table(), Ghost(es), Ghost(ThemeTable::Text(ring_offset_width_pairs())));
    proof { es = es.push(("ringOffsetWidth"@, ThemeTable::Text(ring_offset_width_pairs()))); }
    add_table(&mut ms, "ringOffsetColor", color_table(colors), Ghost(es), Ghost(ThemeTable::Text(color_pairs(colors@))));
    proof { es = es.push(("ringOffsetColor"@, ThemeTable::Text(color_pairs(colors@)))); }
    add_table(&mut ms, "ringOpacity", ring_opacity_table(), Ghost(es), Ghost(ThemeTable::Text(pairs_insert(opacity_pairs(), "DEFAULT"@, "0.5"@))));
    proof { es = es.push(("ringOpacity"@, ThemeTable::Text(pairs_insert(opacity_pairs(), "DEFAULT"@, "0.5"@)))); }
    add_table(&mut ms, "gradientColorStops", color_table(colors), Ghost(es), Ghost(ThemeTable::Text(color_pairs(colors@))));
    proof { es = es.push(("gradientColorStops"@, ThemeTable::Text(color_pairs(colors@)))); }
    add_table(&mut ms, "gradientColorStopPositions", gradient_position_table(), Ghost(es), Ghost(ThemeTable::Text(gradient_position_pairs())));
    proof { es = es.push(("gradientColorStopPositions"@, ThemeTable::Text(gradient_position_pairs()))); }
    add_table(&mut ms, "screens", screens(), Ghost(es), Ghost(ThemeTable::Text(screens_pairs())));
    proof { es = es.push(("screens"@, ThemeTable::Text(screens_pairs()))); }
    add_table(&mut ms, "lineClamp", line_clamp_table(), Ghost(es), Ghost(ThemeTable::Text(line_clamp_pairs())));
    proof { es = es.push(("lineClamp"@, ThemeTable::Text(line_clamp_pairs()))); }
    add_table(&mut ms, "textUnderlineOffset", text_underline_offset_table(), Ghost(es), Ghost(ThemeTable::Text(text_underline_offset_pairs())));
    proof { es = es.push(("textUnderlineOffset"@, ThemeTable::Text(text_underline_offset_pairs()))); }
    add_table(&mut ms, "textDecorationThickness", text_decoration_thickness_table(), Ghost(es), Ghost(ThemeTable::Text(text_decoration_thickness_pairs())));
    proof { es = es.push(("textDecorationThickness"@, ThemeTable::Text(text_decoration_thickness_pairs()))); }
    add_table(&mut ms, "content", content_table(), Ghost(es), Ghost(ThemeTable::Text(content_pairs())));
    proof { es = es.push(("content"@, ThemeTable::Text(content_pairs()))); }
    add_table(&mut ms, "strokeWidth", stroke_width_table(), Ghost(es), Ghost(ThemeTable::Text(stroke_width_pairs())));
    proof { es = es.push(("strokeWidth"@, ThemeTable::Text(stroke_width_pairs()))); }
    add_table(&mut ms, "columns", columns_table(), Ghost(es), Ghost(ThemeTable::Text(columns_pairs())));
    proof { es = es.push(("columns"@, ThemeTable::Text(columns_pairs()))); }
    add_table(&mut ms, "aspectRatio", aspect_ratio_table(), Ghost(es), Ghost(ThemeTable::Text(aspect_ratio_pairs())));
    proof { es = es.push(("aspectRatio"@, ThemeTable::Text(aspect_ratio_pairs()))); }
    add_table(&mut ms, "objectPosition", object_position_table(), Ghost(es), Ghost(ThemeTable::Text(object_position_pairs())));
    proof { es = es.push(("objectPosition"@, ThemeTable::Text(object_position_pairs()))); }
    add_table(&mut ms, "willChange", will_change_table(), Ghost(es), Ghost(ThemeTable::Text(will_change_pairs())));
    proof { es = es.push(("willChange"@, ThemeTable::Text(will_change_pairs()))); }
    add_table(&mut ms, "transformOrigin", transform_origin_table(), Ghost(es), Ghost(ThemeTable::Text(transform_origin_pairs())));
    proof { es = es.push(("transformOrigin"@, ThemeTable::Text(transform_origin_pairs()))); }
    JsonValue::Object(ms)
}

} // verus!
