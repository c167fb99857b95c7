//! Resolving `@defaults <id>;` markers. A rule that relies on a group of
//! cascade-variable defaults carries a marker naming the group. This pass
//! strips the markers, gathers the selectors of the marked rules per group
//! and per isolation bucket, and puts one shared rule per group and bucket
//! at the top of the container the rules stand in (the sheet, or an
//! at-rule block), declaring the group's defaults.
use vstd::prelude::*;
use crate::css_items::{
    clone_item, defaults_markers, emit_collapsed_items, emit_from, extract_defaults_markers,
    item_size, item_view, items_scan, items_size, items_view, lemma_items_view,
    lemma_items_view_push, lemma_size_skip, parse_top_level_items, CssItem, ItemModel,
};
use crate::directives::{chars_list_view, find_from, find_needle, join_selectors, join_selectors_exec};
use crate::element_selector::{
    commas_owned_scan, reduce_spec, reduce_to_element_selector, split_top_level_commas_owned,
};
use crate::plugins::strings_view;
use crate::text::{append_str, chars_of, str_eq, string_from_chars, trim_chars, trim_spec};

verus! {

// ---------------------------------------------------------------------
// The model
// ---------------------------------------------------------------------

/// The selectors of one isolation bucket.
pub type BucketModel = (Seq<char>, Seq<Seq<char>>);

/// The buckets of one defaults group.
pub type GroupModel = (Seq<char>, Seq<BucketModel>);

/// What a pass over one container has gathered: the groups (first seen
/// first, each with its buckets first seen first), the bodies of the
/// `@defaults <id> { … }` blocks met, and the items kept.
pub struct LevelModel {
    pub groups: Seq<GroupModel>,
    pub bodies: Seq<(Seq<char>, Seq<char>)>,
    pub items: Seq<ItemModel>,
}

pub open spec fn empty_level() -> LevelModel {
    LevelModel { groups: Seq::empty(), bodies: Seq::empty(), items: Seq::empty() }
}

/// The first entry from `i` on whose key is `k`, or -1.
pub open spec fn key_pos<V>(s: Seq<(Seq<char>, V)>, k: Seq<char>, i: int) -> int
    decreases s.len() - i,
{
    if !(0 <= i < s.len()) {
        -1
    } else if s[i].0 == k {
        i
    } else {
        key_pos(s, k, i + 1)
    }
}

pub proof fn lemma_key_pos<V>(s: Seq<(Seq<char>, V)>, k: Seq<char>, i: int)
    requires
        0 <= i,
    ensures
        key_pos(s, k, i) == -1 || (i <= key_pos(s, k, i) < s.len() && s[key_pos(s, k, i)].0 == k),
    decreases s.len() - i,
{
    if 0 <= i < s.len() && s[i].0 != k {
        lemma_key_pos(s, k, i + 1);
    }
}

/// Whether `p` occurs in `s`.
pub open spec fn has_text(s: Seq<char>, p: Seq<char>) -> bool {
    find_from(s, p, 0) >= 0
}

/// Selectors with `:has` or a vendor-prefixed pseudo (`:-…`, `::-…`) get
/// a bucket of their own: a browser that rejects them would drop a
/// shared rule whole.
pub open spec fn isolates_spec(sel: Seq<char>) -> bool {
    has_text(sel, seq![':', 'h', 'a', 's']) || has_text(sel, seq![':', '-']) || has_text(
        sel,
        seq![':', ':', '-'],
    )
}

/// The shared bucket's key.
pub open spec fn shared_bucket() -> Seq<char> {
    seq!['_', '_', 'D', 'E', 'F', 'A', 'U', 'L', 'T', '_', '_']
}

/// The bucket of a reduced selector: its own, or the shared one.
pub open spec fn bucket_key(reduced: Seq<char>) -> Seq<char> {
    if isolates_spec(reduced) {
        reduced
    } else {
        shared_bucket()
    }
}

/// `sel` added to bucket `key` (the bucket is made when new; a selector
/// already there is not added twice).
pub open spec fn add_to_buckets(bs: Seq<BucketModel>, key: Seq<char>, sel: Seq<char>) -> Seq<
    BucketModel,
> {
    let k = key_pos(bs, key, 0);
    if k < 0 {
        bs.push((key, seq![sel]))
    } else if bs[k].1.contains(sel) {
        bs
    } else {
        bs.update(k, (key, bs[k].1.push(sel)))
    }
}

/// `sel` added to bucket `key` of group `g` (the group is made when new).
pub open spec fn add_to_groups(gs: Seq<GroupModel>, g: Seq<char>, key: Seq<char>, sel: Seq<char>) -> Seq<
    GroupModel,
> {
    let k = key_pos(gs, g, 0);
    if k < 0 {
        gs.push((g, seq![(key, seq![sel])]))
    } else {
        gs.update(k, (g, add_to_buckets(gs[k].1, key, sel)))
    }
}

/// `sel` added to bucket `key` of every group of `markers`, in order.
pub open spec fn add_markers(gs: Seq<GroupModel>, markers: Seq<Seq<char>>, key: Seq<char>, sel: Seq<
    char,
>) -> Seq<GroupModel>
    decreases markers.len(),
{
    if markers.len() == 0 {
        gs
    } else {
        add_to_groups(add_markers(gs, markers.drop_last(), key, sel), markers.last(), key, sel)
    }
}

/// Every selector of a marked rule, reduced to its element form, added to
/// the groups of `markers`.
pub open spec fn add_parts(gs: Seq<GroupModel>, parts: Seq<Seq<char>>, markers: Seq<Seq<char>>) -> Seq<
    GroupModel,
>
    decreases parts.len(),
{
    if parts.len() == 0 {
        gs
    } else {
        let red = reduce_spec(parts.last());
        add_markers(add_parts(gs, parts.drop_last(), markers), markers, bucket_key(red), red)
    }
}

/// The declarations of a built-in group from the table (none when the
/// table does not know it).
pub open spec fn table_decls(
    table: Seq<(Seq<char>, Seq<(Seq<char>, Seq<char>)>)>,
    g: Seq<char>,
) -> Seq<(Seq<char>, Seq<char>)> {
    let k = key_pos(table, g, 0);
    if k < 0 {
        Seq::empty()
    } else {
        table[k].1
    }
}

/// `var: default;` for each declaration, separated by single spaces.
pub open spec fn decls_text(d: Seq<(Seq<char>, Seq<char>)>) -> Seq<char>
    decreases d.len(),
{
    if d.len() == 0 {
        Seq::empty()
    } else {
        let prev = decls_text(d.drop_last());
        (if d.len() > 1 {
            prev + seq![' ']
        } else {
            prev
        }) + d.last().0 + seq![':', ' '] + d.last().1 + seq![';']
    }
}

/// The body of a group's shared rule: that of a `@defaults <id> { … }`
/// block of the container when there is one, else the built-in
/// declarations; `None` when neither gives any.
pub open spec fn group_body(
    bodies: Seq<(Seq<char>, Seq<char>)>,
    table: Seq<(Seq<char>, Seq<(Seq<char>, Seq<char>)>)>,
    g: Seq<char>,
) -> Option<Seq<char>> {
    let k = key_pos(bodies, g, 0);
    if k >= 0 {
        Some(bodies[k].1)
    } else if table_decls(table, g).len() == 0 {
        None
    } else {
        Some(decls_text(table_decls(table, g)))
    }
}

/// One shared rule per bucket that has selectors.
pub open spec fn bucket_rules(bs: Seq<BucketModel>, body: Seq<char>) -> Seq<ItemModel>
    decreases bs.len(),
{
    if bs.len() == 0 {
        Seq::empty()
    } else {
        bucket_rules(bs.drop_last(), body) + if bs.last().1.len() == 0 {
            Seq::empty()
        } else {
            seq![ItemModel::Rule(join_selectors(bs.last().1), body)]
        }
    }
}

/// The shared rules of all groups, group by group.
pub open spec fn shared_rules(
    gs: Seq<GroupModel>,
    bodies: Seq<(Seq<char>, Seq<char>)>,
    table: Seq<(Seq<char>, Seq<(Seq<char>, Seq<char>)>)>,
) -> Seq<ItemModel>
    decreases gs.len(),
{
    if gs.len() == 0 {
        Seq::empty()
    } else {
        shared_rules(gs.drop_last(), bodies, table) + match group_body(bodies, table, gs.last().0) {
            Some(b) => bucket_rules(gs.last().1, b),
            None => Seq::empty(),
        }
    }
}

/// The items of a container once gathered: the shared rules first, then
/// the kept items.
pub open spec fn finish_level(
    st: LevelModel,
    table: Seq<(Seq<char>, Seq<(Seq<char>, Seq<char>)>)>,
) -> Seq<ItemModel> {
    if st.groups.len() == 0 {
        st.items
    } else {
        shared_rules(st.groups, st.bodies, table) + st.items
    }
}

pub open spec fn is_defaults_name(name: Seq<char>) -> bool {
    name == seq!['d', 'e', 'f', 'a', 'u', 'l', 't', 's']
}

/// The pass over a container's items from `v[i]` on, `st` being what the
/// items before gathered. A rule loses its markers, and its selectors join
/// the groups they named; a `@defaults <id> { … }` block is dropped and
/// its trimmed text kept as the body for group `<id>`; any other at-rule
/// block is resolved as a container of its own; other items are kept.
pub open spec fn level_walk(
    v: Seq<ItemModel>,
    i: int,
    st: LevelModel,
    table: Seq<(Seq<char>, Seq<(Seq<char>, Seq<char>)>)>,
) -> LevelModel
    decreases items_size(v.skip(i)),
{
    if !(0 <= i < v.len()) {
        st
    } else {
        proof {
            lemma_size_skip(v, i);
        }
        match v[i] {
            ItemModel::Rule(sel, body) => {
                let (clean, markers) = defaults_markers(body);
                let gs = if markers.len() > 0 {
                    add_parts(st.groups, commas_owned_scan(sel, 0, 0, 0, 0), markers)
                } else {
                    st.groups
                };
                level_walk(
                    v,
                    i + 1,
                    LevelModel { groups: gs, bodies: st.bodies, items: st.items.push(ItemModel::Rule(sel, clean)) },
                    table,
                )
            },
            ItemModel::AtBlock(name, params, inner) => {
                if is_defaults_name(name) {
                    level_walk(
                        v,
                        i + 1,
                        LevelModel {
                            groups: st.groups,
                            bodies: st.bodies.push((params, trim_spec(emit_from(inner, 0)))),
                            items: st.items,
                        },
                        table,
                    )
                } else {
                    proof {
                        assert(inner.skip(0) =~= inner);
                    }
                    let resolved = finish_level(level_walk(inner, 0, empty_level(), table), table);
                    level_walk(
                        v,
                        i + 1,
                        LevelModel {
                            groups: st.groups,
                            bodies: st.bodies,
                            items: st.items.push(ItemModel::AtBlock(name, params, resolved)),
                        },
                        table,
                    )
                }
            },
            other => level_walk(
                v,
                i + 1,
                LevelModel { groups: st.groups, bodies: st.bodies, items: st.items.push(other) },
                table,
            ),
        }
    }
}

/// A container's items with its `@defaults` markers resolved.
pub open spec fn resolve_level_spec(
    v: Seq<ItemModel>,
    table: Seq<(Seq<char>, Seq<(Seq<char>, Seq<char>)>)>,
) -> Seq<ItemModel> {
    finish_level(level_walk(v, 0, empty_level(), table), table)
}

/// A stylesheet with its `@defaults` markers resolved: read into items,
/// resolved, and written back with adjacent rules merged; a sheet that
/// holds no `@defaults` is left as it is.
pub open spec fn resolve_defaults_spec(
    css: Seq<char>,
    table: Seq<(Seq<char>, Seq<(Seq<char>, Seq<char>)>)>,
) -> Seq<char> {
    if has_text(css, seq!['@', 'd', 'e', 'f', 'a', 'u', 'l', 't', 's']) {
        emit_from(resolve_level_spec(items_scan(css, 0), table), 0)
    } else {
        css
    }
}

// ---------------------------------------------------------------------
// Views of the executable state
// ---------------------------------------------------------------------

pub open spec fn buckets_view(v: Seq<(String, Vec<String>)>) -> Seq<BucketModel> {
    v.map_values(|b: (String, Vec<String>)| (b.0@, strings_view(b.1@)))
}

pub open spec fn groups_view(v: Seq<(String, Vec<(String, Vec<String>)>)>) -> Seq<GroupModel> {
    v.map_values(|g: (String, Vec<(String, Vec<String>)>)| (g.0@, buckets_view(g.1@)))
}

pub open spec fn pairs_view(v: Seq<(String, String)>) -> Seq<(Seq<char>, Seq<char>)> {
    v.map_values(|p: (String, String)| (p.0@, p.1@))
}

/// The built-in defaults table as a model: group id, then its
/// `(variable, default)` declarations.
pub open spec fn table_view(v: Seq<(String, Vec<(String, String)>)>) -> Seq<
    (Seq<char>, Seq<(Seq<char>, Seq<char>)>),
> {
    v.map_values(|e: (String, Vec<(String, String)>)| (e.0@, pairs_view(e.1@)))
}

// ---------------------------------------------------------------------
// Gathering
// ---------------------------------------------------------------------

/// Whether one of the strings is `s`.
fn contains_text(v: &Vec<String>, s: &str) -> (r: bool)
    ensures
        r == strings_view(v@).contains(s@),
{
    let mut i: usize = 0;
    while i < v.len()
        invariant
            i <= v@.len(),
            forall|j: int| 0 <= j < i ==> v@[j]@ != s@,
        decreases v@.len() - i,
    {
        if str_eq(v[i].as_str(), s) {
            assert(strings_view(v@)[i as int] == s@);
            return true;
        }
        i += 1;
    }
    proof {
        if strings_view(v@).contains(s@) {
            let j = choose|j: int| 0 <= j < strings_view(v@).len() && strings_view(v@)[j] == s@;
            assert(v@[j]@ == s@);
        }
    }
    false
}

/// The bucket named `key`.
fn bucket_index(bs: &Vec<(String, Vec<String>)>, key: &str) -> (r: Option<usize>)
    ensures
        match r {
            Some(k) => key_pos(buckets_view(bs@), key@, 0) == k && k < bs@.len(),
            None => key_pos(buckets_view(bs@), key@, 0) == -1,
        },
{
    let ghost bv = buckets_view(bs@);
    let mut i: usize = 0;
    while i < bs.len()
        invariant
            i <= bs@.len(),
            bv == buckets_view(bs@),
            key_pos(bv, key@, i as int) == key_pos(bv, key@, 0),
        decreases bs@.len() - i,
    {
        assert(bv[i as int].0 == bs@[i as int].0@);
        if str_eq(bs[i].0.as_str(), key) {
            return Some(i);
        }
        i += 1;
    }
    None
}

/// The group named `g`.
fn group_index(gs: &Vec<(String, Vec<(String, Vec<String>)>)>, g: &str) -> (r: Option<usize>)
    ensures
        match r {
            Some(k) => key_pos(groups_view(gs@), g@, 0) == k && k < gs@.len(),
            None => key_pos(groups_view(gs@), g@, 0) == -1,
        },
{
    let ghost gv = groups_view(gs@);
    let mut i: usize = 0;
    while i < gs.len()
        invariant
            i <= gs@.len(),
            gv == groups_view(gs@),
            key_pos(gv, g@, i as int) == key_pos(gv, g@, 0),
        decreases gs@.len() - i,
    {
        assert(gv[i as int].0 == gs@[i as int].0@);
        if str_eq(gs[i].0.as_str(), g) {
            return Some(i);
        }
        i += 1;
    }
    None
}

/// The body of the `@defaults` block for group `g`.
fn body_index(bodies: &Vec<(String, String)>, g: &str) -> (r: Option<usize>)
    ensures
        match r {
            Some(k) => key_pos(pairs_view(bodies@), g@, 0) == k && k < bodies@.len(),
            None => key_pos(pairs_view(bodies@), g@, 0) == -1,
        },
{
    let ghost pv = pairs_view(bodies@);
    let mut i: usize = 0;
    while i < bodies.len()
        invariant
            i <= bodies@.len(),
            pv == pairs_view(bodies@),
            key_pos(pv, g@, i as int) == key_pos(pv, g@, 0),
        decreases bodies@.len() - i,
    {
        assert(pv[i as int].0 == bodies@[i as int].0@);
        if str_eq(bodies[i].0.as_str(), g) {
            return Some(i);
        }
        i += 1;
    }
    None
}

/// The entry of the built-in table for group `g`.
fn table_index(table: &Vec<(String, Vec<(String, String)>)>, g: &str) -> (r: Option<usize>)
    ensures
        match r {
            Some(k) => key_pos(table_view(table@), g@, 0) == k && k < table@.len(),
            None => key_pos(table_view(table@), g@, 0) == -1,
        },
{
    let ghost tv = table_view(table@);
    let mut i: usize = 0;
    while i < table.len()
        invariant
            i <= table@.len(),
            tv == table_view(table@),
            key_pos(tv, g@, i as int) == key_pos(tv, g@, 0),
        decreases table@.len() - i,
    {
        assert(tv[i as int].0 == table@[i as int].0@);
        if str_eq(table[i].0.as_str(), g) {
            return Some(i);
        }
        i += 1;
    }
    None
}

/// `add_to_buckets` on the executable buckets.
fn add_to_buckets_exec(bs: &mut Vec<(String, Vec<String>)>, key: &str, sel: &str)
    ensures
        buckets_view(final(bs)@) == add_to_buckets(buckets_view(old(bs)@), key@, sel@),
{
    let ghost before = bs@;
    match bucket_index(bs, key) {
        None => {
            let mut sels: Vec<String> = Vec::new();
            sels.push(sel.to_owned());
            bs.push((key.to_owned(), sels));
            proof {
                assert(strings_view(sels@) =~= seq![sel@]);
                assert(buckets_view(bs@) =~= buckets_view(before).push((key@, seq![sel@])));
            }
        },
        Some(k) => {
            let mut e = bs.remove(k);
            assert(e == before[k as int]);
            let had = contains_text(&e.1, sel);
            if !had {
                e.1.push(sel.to_owned());
                assert(strings_view(e.1@) =~= strings_view(before[k as int].1@).push(sel@));
            }
            bs.insert(k, e);
            proof {
                lemma_key_pos(buckets_view(before), key@, 0);
                let want = add_to_buckets(buckets_view(before), key@, sel@);
                assert(bs@ == before.remove(k as int).insert(k as int, e));
                assert forall|j: int| 0 <= j < bs@.len() implies #[trigger] buckets_view(bs@)[j]
                    == want[j] by {
                    if j != k {
                        assert(bs@[j] == before[j]);
                    }
                }
                assert(buckets_view(bs@) =~= want);
            }
        },
    }
}

/// `add_to_groups` on the executable groups.
fn add_to_groups_exec(gs: &mut Vec<(String, Vec<(String, Vec<String>)>)>, g: &str, key: &str, sel: &str)
    ensures
        groups_view(final(gs)@) == add_to_groups(groups_view(old(gs)@), g@, key@, sel@),
{
    let ghost before = gs@;
    match group_index(gs, g) {
        None => {
            let mut sels: Vec<String> = Vec::new();
            sels.push(sel.to_owned());
            let mut bs: Vec<(String, Vec<String>)> = Vec::new();
            bs.push((key.to_owned(), sels));
            gs.push((g.to_owned(), bs));
            proof {
                assert(strings_view(sels@) =~= seq![sel@]);
                assert(buckets_view(bs@) =~= seq![(key@, seq![sel@])]);
                assert(groups_view(gs@) =~= groups_view(before).push((g@, seq![(key@, seq![sel@])])));
            }
        },
        Some(k) => {
            let mut e = gs.remove(k);
            assert(e == before[k as int]);
            add_to_buckets_exec(&mut e.1, key, sel);
            gs.insert(k, e);
            proof {
                lemma_key_pos(groups_view(before), g@, 0);
                let want = add_to_groups(groups_view(before), g@, key@, sel@);
                assert(gs@ == before.remove(k as int).insert(k as int, e));
                assert forall|j: int| 0 <= j < gs@.len() implies #[trigger] groups_view(gs@)[j]
                    == want[j] by {
                    if j != k {
                        assert(gs@[j] == before[j]);
                    }
                }
                assert(groups_view(gs@) =~= want);
            }
        },
    }
}

/// Whether `p` occurs in `s`.
fn has_text_exec(s: &Vec<char>, p: &Vec<char>) -> (r: bool)
    requires
        p@.len() >= 1,
    ensures
        r == has_text(s@, p@),
{
    find_needle(s, p).is_some()
}

/// Whether a reduced selector gets a bucket of its own (`isolates_spec`).
fn isolates(sel: &str) -> (r: bool)
    ensures
        r == isolates_spec(sel@),
{
    let s = chars_of(sel);
    let has = chars_of(":has");
    let dash = chars_of(":-");
    let pseudo_dash = chars_of("::-");
    proof {
        reveal_strlit(":has");
        reveal_strlit(":-");
        reveal_strlit("::-");
        assert(has@ =~= seq![':', 'h', 'a', 's']);
        assert(dash@ =~= seq![':', '-']);
        assert(pseudo_dash@ =~= seq![':', ':', '-']);
    }
    has_text_exec(&s, &has) || has_text_exec(&s, &dash) || has_text_exec(&s, &pseudo_dash)
}

/// The bucket of a reduced selector (`bucket_key`).
fn bucket_key_exec(reduced: &str) -> (r: String)
    ensures
        r@ == bucket_key(reduced@),
{
    if isolates(reduced) {
        reduced.to_owned()
    } else {
        proof {
            reveal_strlit("__DEFAULT__");
        }
        let r = "__DEFAULT__".to_owned();
        assert(r@ =~= shared_bucket());
        r
    }
}

/// The selectors of a marked rule added to the groups of its markers
/// (`add_parts`).
fn add_rule_selectors(
    gs: &mut Vec<(String, Vec<(String, Vec<String>)>)>,
    selector: &str,
    markers: &Vec<String>,
)
    ensures
        groups_view(final(gs)@) == add_parts(
            groups_view(old(gs)@),
            commas_owned_scan(selector@, 0, 0, 0, 0),
            strings_view(markers@),
        ),
{
    let parts = split_top_level_commas_owned(selector);
    let ghost pv = strings_view(parts@);
    let ghost mv = strings_view(markers@);
    let ghost g0 = groups_view(gs@);
    assert(pv =~= parts@.map_values(|p: String| p@));
    let mut p: usize = 0;
    while p < parts.len()
        invariant
            p <= parts@.len(),
            pv == strings_view(parts@),
            mv == strings_view(markers@),
            groups_view(gs@) == add_parts(g0, pv.take(p as int), mv),
        decreases parts@.len() - p,
    {
        let reduced = reduce_to_element_selector(parts[p].as_str());
        let key = bucket_key_exec(reduced.as_str());
        assert(pv[p as int] == parts@[p as int]@);
        let ghost g1 = groups_view(gs@);
        let mut m: usize = 0;
        while m < markers.len()
            invariant
                m <= markers@.len(),
                mv == strings_view(markers@),
                groups_view(gs@) == add_markers(g1, mv.take(m as int), key@, reduced@),
            decreases markers@.len() - m,
        {
            add_to_groups_exec(gs, markers[m].as_str(), key.as_str(), reduced.as_str());
            assert(mv.take(m + 1).drop_last() =~= mv.take(m as int));
            assert(mv.take(m + 1).last() == markers@[m as int]@);
            m += 1;
        }
        assert(mv.take(markers@.len() as int) =~= mv);
        assert(pv.take(p + 1).drop_last() =~= pv.take(p as int));
        p += 1;
    }
    assert(pv.take(parts@.len() as int) =~= pv);
}

/// `var: default;` for each declaration (`decls_text`).
fn decls_text_exec(d: &Vec<(String, String)>) -> (r: String)
    ensures
        r@ == decls_text(pairs_view(d@)),
{
    let ghost dv = pairs_view(d@);
    let mut out = String::new();
    let mut k: usize = 0;
    while k < d.len()
        invariant
            k <= d@.len(),
            dv == pairs_view(d@),
            out@ == decls_text(dv.take(k as int)),
        decreases d@.len() - k,
    {
        let ghost prev = out@;
        assert(dv.take(k + 1).drop_last() =~= dv.take(k as int));
        if k > 0 {
            out.push(' ');
        }
        append_str(&mut out, d[k].0.as_str());
        out.push(':');
        out.push(' ');
        append_str(&mut out, d[k].1.as_str());
        out.push(';');
        proof {
            let t = dv.take(k + 1);
            assert(t.last() == (d@[k as int].0@, d@[k as int].1@));
            if k > 0 {
                assert(out@ =~= (prev + seq![' ']) + t.last().0 + seq![':', ' '] + t.last().1
                    + seq![';']);
            } else {
                assert(out@ =~= prev + t.last().0 + seq![':', ' '] + t.last().1 + seq![';']);
            }
        }
        k += 1;
    }
    assert(dv.take(d@.len() as int) =~= dv);
    out
}

/// The body of group `g`'s shared rule (`group_body`).
fn group_body_exec(
    bodies: &Vec<(String, String)>,
    table: &Vec<(String, Vec<(String, String)>)>,
    g: &str,
) -> (r: Option<String>)
    ensures
        match r {
            Some(b) => group_body(pairs_view(bodies@), table_view(table@), g@) == Some(b@),
            None => group_body(pairs_view(bodies@), table_view(table@), g@) is None,
        },
{
    match body_index(bodies, g) {
        Some(k) => {
            assert(pairs_view(bodies@)[k as int].1 == bodies@[k as int].1@);
            Some(bodies[k].1.clone())
        },
        None => match table_index(table, g) {
            Some(t) => {
                assert(table_view(table@)[t as int].1 == pairs_view(table@[t as int].1@));
                if table[t].1.len() == 0 {
                    None
                } else {
                    Some(decls_text_exec(&table[t].1))
                }
            },
            None => None,
        },
    }
}

/// The characters of each string.
fn chars_list(v: &Vec<String>) -> (r: Vec<Vec<char>>)
    ensures
        chars_list_view(r@) == strings_view(v@),
{
    let mut r: Vec<Vec<char>> = Vec::new();
    let mut i: usize = 0;
    while i < v.len()
        invariant
            i <= v@.len(),
            r@.len() == i,
            forall|j: int| 0 <= j < i ==> (#[trigger] r@[j])@ == v@[j]@,
        decreases v@.len() - i,
    {
        r.push(chars_of(v[i].as_str()));
        i += 1;
    }
    assert(chars_list_view(r@) =~= strings_view(v@));
    r
}

/// The shared rules of the buckets, appended to `out` (`bucket_rules`).
fn push_bucket_rules(out: &mut Vec<CssItem>, bs: &Vec<(String, Vec<String>)>, body: &String)
    ensures
        items_view(final(out)@) == items_view(old(out)@) + bucket_rules(buckets_view(bs@), body@),
{
    let ghost bv = buckets_view(bs@);
    let ghost start = items_view(out@);
    let mut k: usize = 0;
    while k < bs.len()
        invariant
            k <= bs@.len(),
            bv == buckets_view(bs@),
            items_view(out@) == start + bucket_rules(bv.take(k as int), body@),
        decreases bs@.len() - k,
    {
        let ghost prev = out@;
        assert(bv.take(k + 1).drop_last() =~= bv.take(k as int));
        assert(bv.take(k + 1).last() == (bs@[k as int].0@, strings_view(bs@[k as int].1@)));
        if bs[k].1.len() > 0 {
            let selector = join_selectors_exec(&chars_list(&bs[k].1));
            let rule = CssItem::Rule { selector, body: body.clone() };
            out.push(rule);
            proof {
                lemma_items_view_push(prev, rule);
                assert(items_view(out@) =~= start + bucket_rules(bv.take(k + 1), body@));
            }
        } else {
            assert(items_view(out@) =~= start + bucket_rules(bv.take(k + 1), body@));
        }
        k += 1;
    }
    assert(bv.take(bs@.len() as int) =~= bv);
}

/// The items of a container once gathered (`finish_level`).
fn finish_level_exec(
    groups: &Vec<(String, Vec<(String, Vec<String>)>)>,
    bodies: &Vec<(String, String)>,
    kept: Vec<CssItem>,
    table: &Vec<(String, Vec<(String, String)>)>,
) -> (r: Vec<CssItem>)
    ensures
        items_view(r@) == finish_level(
            LevelModel {
                groups: groups_view(groups@),
                bodies: pairs_view(bodies@),
                items: items_view(kept@),
            },
            table_view(table@),
        ),
{
    if groups.len() == 0 {
        return kept;
    }
    let ghost gv = groups_view(groups@);
    let ghost bv = pairs_view(bodies@);
    let ghost tv = table_view(table@);
    let mut shared: Vec<CssItem> = Vec::new();
    let mut k: usize = 0;
    while k < groups.len()
        invariant
            k <= groups@.len(),
            gv == groups_view(groups@),
            bv == pairs_view(bodies@),
            tv == table_view(table@),
            items_view(shared@) == shared_rules(gv.take(k as int), bv, tv),
        decreases groups@.len() - k,
    {
        assert(gv.take(k + 1).drop_last() =~= gv.take(k as int));
        assert(gv.take(k + 1).last() == (groups@[k as int].0@, buckets_view(groups@[k as int].1@)));
        match group_body_exec(bodies, table, groups[k].0.as_str()) {
            Some(body) => {
                push_bucket_rules(&mut shared, &groups[k].1, &body);
            },
            None => {
                assert(items_view(shared@) =~= items_view(shared@) + Seq::<ItemModel>::empty());
            },
        }
        k += 1;
    }
    assert(gv.take(groups@.len() as int) =~= gv);
    let ghost sv = shared@;
    let mut kept = kept;
    let ghost kv = kept@;
    shared.append(&mut kept);
    proof {
        assert(shared@ == sv + kv);
        lemma_items_view_concat(sv, kv);
    }
    shared
}

pub open spec fn model_of(
    groups: Seq<(String, Vec<(String, Vec<String>)>)>,
    bodies: Seq<(String, String)>,
    kept: Seq<CssItem>,
) -> LevelModel {
    LevelModel { groups: groups_view(groups), bodies: pairs_view(bodies), items: items_view(kept) }
}

proof fn lemma_inner_smaller(v: Seq<ItemModel>, i: int)
    requires
        0 <= i < v.len(),
    ensures
        item_size(v[i]) <= items_size(v),
{
    crate::css_items::lemma_size_skip_mono(v, 0, i);
    lemma_size_skip(v, i);
    assert(v.skip(0) =~= v);
}

/// Whether an at-rule is named `defaults`.
fn is_defaults_block(name: &str) -> (r: bool)
    ensures
        r == is_defaults_name(name@),
{
    proof {
        reveal_strlit("defaults");
    }
    let r = str_eq(name, "defaults");
    assert("defaults"@ =~= seq!['d', 'e', 'f', 'a', 'u', 'l', 't', 's']);
    r
}

/// One container resolved (`resolve_level_spec`).
fn resolve_level(items: &Vec<CssItem>, table: &Vec<(String, Vec<(String, String)>)>) -> (r: Vec<
    CssItem,
>)
    ensures
        items_view(r@) == resolve_level_spec(items_view(items@), table_view(table@)),
    decreases items_size(items_view(items@)),
{
    let ghost v = items_view(items@);
    let ghost tv = table_view(table@);
    proof {
        lemma_items_view(items@);
    }
    let mut groups: Vec<(String, Vec<(String, Vec<String>)>)> = Vec::new();
    let mut bodies: Vec<(String, String)> = Vec::new();
    let mut kept: Vec<CssItem> = Vec::new();
    proof {
        assert(groups_view(groups@) =~= Seq::<GroupModel>::empty());
        assert(pairs_view(bodies@) =~= Seq::<(Seq<char>, Seq<char>)>::empty());
        assert(items_view(kept@) =~= Seq::<ItemModel>::empty());
        assert(model_of(groups@, bodies@, kept@) == empty_level());
    }
    let mut i: usize = 0;
    while i < items.len()
        invariant
            i <= items@.len(),
            v == items_view(items@),
            v.len() == items@.len(),
            forall|k: int| 0 <= k < items@.len() ==> #[trigger] v[k] == item_view(items@[k]),
            tv == table_view(table@),
            level_walk(v, i as int, model_of(groups@, bodies@, kept@), tv) == level_walk(
                v,
                0,
                empty_level(),
                tv,
            ),
        decreases items@.len() - i,
    {
        let ghost st = model_of(groups@, bodies@, kept@);
        let ghost prev_kept = kept@;
        proof {
            lemma_size_skip(v, i as int);
        }
        match &items[i] {
            CssItem::Rule { selector, body } => {
                let (clean, markers) = extract_defaults_markers(body.as_str());
                proof {
                    assert(markers@.map_values(|g: String| g@) =~= strings_view(markers@));
                }
                if markers.len() > 0 {
                    add_rule_selectors(&mut groups, selector.as_str(), &markers);
                }
                let rule = CssItem::Rule { selector: selector.clone(), body: clean };
                kept.push(rule);
                proof {
                    lemma_items_view_push(prev_kept, rule);
                }
            },
            CssItem::AtBlock { name, params, items: inner } => {
                if is_defaults_block(name.as_str()) {
                    let mut text = String::new();
                    emit_collapsed_items(inner.as_slice(), &mut text);
                    assert(text@ =~= emit_from(items_view(inner@), 0));
                    let trimmed = string_from_chars(&trim_chars(&chars_of(text.as_str())));
                    let ghost prev_bodies = bodies@;
                    bodies.push((params.clone(), trimmed));
                    proof {
                        assert(pairs_view(bodies@) =~= pairs_view(prev_bodies).push(
                            (params@, trim_spec(emit_from(items_view(inner@), 0))),
                        ));
                    }
                } else {
                    proof {
                        lemma_inner_smaller(v, i as int);
                    }
                    let resolved = resolve_level(inner, table);
                    let block = CssItem::AtBlock {
                        name: name.clone(),
                        params: params.clone(),
                        items: resolved,
                    };
                    kept.push(block);
                    proof {
                        lemma_items_view_push(prev_kept, block);
                    }
                }
            },
            other => {
                let copy = clone_item(other);
                kept.push(copy);
                proof {
                    lemma_items_view_push(prev_kept, copy);
                }
            },
        }
        i += 1;
    }
    finish_level_exec(&groups, &bodies, kept, table)
}

/// A container's items with the `@defaults` markers of its rules resolved
/// (`resolve_level_spec`). The declarations of the built-in groups are
/// looked up in `builtin`: group id, then `(variable, default)` pairs.
pub fn resolve_defaults_in_level(
    items: Vec<CssItem>,
    builtin: &Vec<(String, Vec<(String, String)>)>,
) -> (r: Vec<CssItem>)
    ensures
        items_view(r@) == resolve_level_spec(items_view(items@), table_view(builtin@)),
{
    resolve_level(&items, builtin)
}

/// A stylesheet with its `@defaults` markers resolved
/// (`resolve_defaults_spec`); the built-in groups' declarations come
/// from `builtin`.
pub fn resolve_defaults_at_rules_pass(
    css: &str,
    builtin: &Vec<(String, Vec<(String, String)>)>,
) -> (r: String)
    ensures
        r@ == resolve_defaults_spec(css@, table_view(builtin@)),
{
    let s = chars_of(css);
    let marker = chars_of("@defaults");
    proof {
        reveal_strlit("@defaults");
        assert(marker@ =~= seq!['@', 'd', 'e', 'f', 'a', 'u', 'l', 't', 's']);
    }
    if !has_text_exec(&s, &marker) {
        return css.to_owned();
    }
    let items = parse_top_level_items(css);
    let processed = resolve_defaults_in_level(items, builtin);
    let mut out = String::new();
    emit_collapsed_items(processed.as_slice(), &mut out);
    assert(out@ =~= emit_from(items_view(processed@), 0));
    out
}

pub proof fn lemma_items_view_concat(a: Seq<CssItem>, b: Seq<CssItem>)
    ensures
        items_view(a + b) == items_view(a) + items_view(b),
    decreases b.len(),
{
    if b.len() == 0 {
        assert(a + b =~= a);
        assert(items_view(b) =~= Seq::<ItemModel>::empty());
        assert(items_view(a) + items_view(b) =~= items_view(a));
    } else {
        lemma_items_view_concat(a, b.drop_last());
        assert((a + b).drop_last() =~= a + b.drop_last());
        assert((a + b).last() == b.last());
        assert(items_view(a) + items_view(b) =~= (items_view(a) + items_view(b.drop_last())).push(
            item_view(b.last()),
        ));
    }
}

} // verus!
