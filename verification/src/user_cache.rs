//! The index of user-written rules by class name that `@apply` resolves
//! against, and the set of classes that `@apply` names, built in one walk
//! over the user's stylesheet.
use vstd::prelude::*;
use crate::css_blocks::{
    collect_class_names, find_comment_end, find_matching_close_brace, find_string_end,
    find_top_level_open_brace, find_top_level_semicolon, is_comment_start, is_selector_lead,
    read_at_rule_with_params_and_block, scan_ident, skip_at_rule, at_rule_block, ccn_scan, comment_end, comment_start, is_quote, lemma_at_rule_block_bounds,
    lemma_comment_end_bounds, lemma_rule_block_bounds, lemma_semicolon_bounds,
    lemma_statement_end_bounds, rule_block, selector_lead, semicolon_from, statement_end,
};
use crate::directives::{chars_list_view, ident_run_end, is_candidate, lemma_ident_run_end_bounds};
use crate::plugins::strings_view;
use crate::text::{
    ascii_ws, chars_eq, chars_of, extend_chars, is_ascii_ws, is_unicode_ws, trim_chars, lemma_quote_end_bounds, quote_end,
    string_from_chars, sub_chars, trim_spec, unicode_ws,
};

verus! {

/// One user rule, filed under a class its selector names.
pub struct UserApplyEntry {
    /// The rule's selector as written (trimmed).
    pub selector: String,
    /// The rule's body as written.
    pub body: String,
    /// The at-rules around the rule, outermost first (`@media (…)`).
    pub at_rules: Vec<String>,
    /// Whether the rule sits in `@layer utilities` or `@layer components`
    /// (or a `@responsive` / `@variants` wrapper).
    pub in_layer_utility: bool,
    /// The rule's place in source order, counted from 1.
    pub source_order: u32,
}

/// The user rules by class, and the classes named by `@apply`.
pub struct UserApplyCache {
    /// Each rule once per class its selector names, in the order met.
    pub entries: Vec<(String, UserApplyEntry)>,
    /// How many rules have been filed.
    pub next_source_order: u32,
    /// The classes named by `@apply`, each once, in the order first met.
    pub applied_classes: Vec<String>,
}

/// What the walk meets, in order.
pub enum CacheEvent {
    /// A class named by `@apply`.
    Applied(Seq<char>),
    /// A rule: selector, body, classes, enclosing at-rules, layer flag.
    Rule(Seq<char>, Seq<char>, Seq<Seq<char>>, Seq<Seq<char>>, bool),
}

// ---------------------------------------------------------------------
// `@apply` tokens
// ---------------------------------------------------------------------

pub open spec fn flush_word(cur: Seq<char>) -> Seq<Seq<char>> {
    if cur.len() > 0 {
        seq![cur]
    } else {
        Seq::empty()
    }
}

/// The whitespace-separated words of `s[i..]`, `cur` being the word read
/// so far.
pub open spec fn words_from(s: Seq<char>, i: int, cur: Seq<char>) -> Seq<Seq<char>>
    decreases s.len() - i,
{
    if !(0 <= i < s.len()) {
        flush_word(cur)
    } else if unicode_ws(s[i]) {
        flush_word(cur) + words_from(s, i + 1, Seq::empty())
    } else {
        words_from(s, i + 1, cur.push(s[i]))
    }
}

pub open spec fn bang_lead(t: Seq<char>, i: int) -> int
    decreases t.len() - i,
{
    if 0 <= i < t.len() && t[i] == '!' {
        bang_lead(t, i + 1)
    } else {
        i
    }
}

/// The position after the last `:` of `t`, or 0.
pub open spec fn after_last_colon(t: Seq<char>, j: int) -> int
    decreases j,
{
    if j <= 0 || j > t.len() {
        0
    } else if t[j - 1] == ':' {
        j
    } else {
        after_last_colon(t, j - 1)
    }
}

/// The class an `@apply` token names: leading `!` dropped, then what
/// follows its last `:` (its variants dropped).
pub open spec fn token_class(tok: Seq<char>) -> Seq<char> {
    let t = tok.skip(bang_lead(tok, 0));
    t.skip(after_last_colon(t, t.len() as int))
}

/// The classes named by the first `n` tokens; `!important` and tokens
/// naming nothing are skipped.
pub open spec fn token_classes(toks: Seq<Seq<char>>, n: int) -> Seq<Seq<char>>
    decreases n,
{
    if n <= 0 {
        Seq::empty()
    } else {
        let prev = token_classes(toks, n - 1);
        let tok = toks[n - 1];
        if tok == "!important"@ || token_class(tok).len() == 0 {
            prev
        } else {
            prev.push(token_class(tok))
        }
    }
}

pub open spec fn applied_events(classes: Seq<Seq<char>>) -> Seq<CacheEvent> {
    classes.map_values(|c: Seq<char>| CacheEvent::Applied(c))
}

// ---------------------------------------------------------------------
// The walk
// ---------------------------------------------------------------------

/// The wrapper an at-rule adds around the rules inside it.
pub open spec fn at_header(name: Seq<char>, params: Seq<char>) -> Seq<char> {
    if trim_spec(params).len() == 0 {
        seq!['@'] + name
    } else {
        seq!['@'] + name + seq![' '] + trim_spec(params)
    }
}

/// What the walk meets in `s` from `i` on, `chain` being the at-rules
/// around `s` and `layer` whether it sits in a utility layer. Whitespace,
/// comments and strings are stepped over. `@keyframes` blocks are
/// skipped. `@apply …;` names classes. Other at-rules with a block are
/// walked into: `@layer` keeps the chain (and sets the layer flag for
/// `utilities` and `components`), `@responsive` and `@variants` keep it
/// and set the flag, the rest add their header to it; at-rules without a
/// block are stepped over. A rule is met, then its body is walked.
pub open spec fn user_walk(s: Seq<char>, i: int, chain: Seq<Seq<char>>, layer: bool) -> Seq<
    CacheEvent,
>
    decreases s.len(), s.len() - i,
{
    if !(0 <= i < s.len()) {
        Seq::empty()
    } else if ascii_ws(s[i]) {
        user_walk(s, i + 1, chain, layer)
    } else if comment_start(s, i) {
        proof {
            lemma_comment_end_bounds(s, i + 2);
        }
        user_walk(s, comment_end(s, i + 2), chain, layer)
    } else if is_quote(s[i]) {
        proof {
            lemma_quote_end_bounds(s, i + 1, s[i]);
        }
        user_walk(s, quote_end(s, i + 1, s[i]), chain, layer)
    } else if s[i] == '@' {
        proof {
            lemma_ident_run_end_bounds(s, i + 1);
            lemma_statement_end_bounds(s, i + 1);
        }
        let ne = ident_run_end(s, i + 1);
        let name = s.subrange(i + 1, ne);
        let skip = statement_end(s, i + 1);
        if (name == "keyframes"@ || name == "-webkit-keyframes"@) && skip >= 0 {
            user_walk(s, skip, chain, layer)
        } else if name == "apply"@ && semicolon_from(s, ne, 0, 0) >= 0 {
            proof {
                lemma_semicolon_bounds(s, ne, 0, 0);
            }
            let semi = semicolon_from(s, ne, 0, 0);
            let toks = words_from(s.subrange(ne, semi), 0, Seq::empty());
            applied_events(token_classes(toks, toks.len() as int)) + user_walk(
                s,
                semi + 1,
                chain,
                layer,
            )
        } else if at_rule_block(s, ne) is Some {
            proof {
                lemma_at_rule_block_bounds(s, ne);
            }
            let (after, open, close) = at_rule_block(s, ne)->0;
            let params = s.subrange(ne, open);
            let body = s.subrange(open + 1, close);
            let inner = if name == "layer"@ {
                let ln = trim_spec(params);
                user_walk(
                    body,
                    0,
                    chain,
                    layer || ln == "utilities"@ || ln == "components"@,
                )
            } else if name == "responsive"@ || name == "variants"@ {
                user_walk(body, 0, chain, true)
            } else {
                user_walk(body, 0, chain.push(at_header(name, params)), layer)
            };
            inner + user_walk(s, after, chain, layer)
        } else if skip >= 0 {
            user_walk(s, skip, chain, layer)
        } else {
            user_walk(s, i + 1, chain, layer)
        }
    } else if selector_lead(s[i]) && rule_block(s, i) is Some {
        proof {
            lemma_rule_block_bounds(s, i);
        }
        let (b, c) = rule_block(s, i)->0;
        let sel = trim_spec(s.subrange(i, b));
        let body = s.subrange(b + 1, c);
        seq![CacheEvent::Rule(sel, body, ccn_scan(sel, 0), chain, layer)] + user_walk(
            body,
            0,
            chain,
            layer,
        ) + user_walk(s, c + 1, chain, layer)
    } else {
        user_walk(s, i + 1, chain, layer)
    }
}

// ---------------------------------------------------------------------
// The cache as the walk leaves it
// ---------------------------------------------------------------------

/// An entry: selector, body, at-rules, layer flag, source order.
pub type EntryModel = (Seq<char>, Seq<char>, Seq<Seq<char>>, bool, int);

/// The cache: the (class, entry) pairs, the rule count, the `@apply`
/// classes.
pub type CacheModel = (Seq<(Seq<char>, EntryModel)>, int, Seq<Seq<char>>);

/// The cache after one event: an `@apply` class joins the set; a rule
/// takes the next source order and is filed once per class.
pub open spec fn apply_event(c: CacheModel, e: CacheEvent) -> CacheModel {
    match e {
        CacheEvent::Applied(x) => if c.2.contains(x) {
            c
        } else {
            (c.0, c.1, c.2.push(x))
        },
        CacheEvent::Rule(sel, body, classes, chain, layer) => {
            let o = c.1 + 1;
            (
                c.0 + classes.map_values(
                    |k: Seq<char>| (k, (sel, body, chain, layer, o)),
                ),
                o,
                c.2,
            )
        },
    }
}

pub open spec fn apply_events(c: CacheModel, evs: Seq<CacheEvent>) -> CacheModel
    decreases evs.len(),
{
    if evs.len() == 0 {
        c
    } else {
        apply_event(apply_events(c, evs.drop_last()), evs.last())
    }
}

pub open spec fn rule_count(evs: Seq<CacheEvent>) -> int
    decreases evs.len(),
{
    if evs.len() == 0 {
        0
    } else {
        rule_count(evs.drop_last()) + if evs.last() is Rule {
            1int
        } else {
            0
        }
    }
}

pub proof fn lemma_apply_events_concat(c: CacheModel, a: Seq<CacheEvent>, b: Seq<CacheEvent>)
    ensures
        apply_events(c, a + b) == apply_events(apply_events(c, a), b),
        rule_count(a + b) == rule_count(a) + rule_count(b),
    decreases b.len(),
{
    if b.len() == 0 {
        assert(a + b =~= a);
    } else {
        assert((a + b).drop_last() =~= a + b.drop_last());
        lemma_apply_events_concat(c, a, b.drop_last());
    }
}

pub proof fn lemma_rule_count_nonneg(evs: Seq<CacheEvent>)
    ensures
        rule_count(evs) >= 0,
    decreases evs.len(),
{
    if evs.len() > 0 {
        lemma_rule_count_nonneg(evs.drop_last());
    }
}

pub proof fn lemma_applied_count(classes: Seq<Seq<char>>)
    ensures
        rule_count(applied_events(classes)) == 0,
    decreases classes.len(),
{
    if classes.len() > 0 {
        assert(applied_events(classes).drop_last() =~= applied_events(classes.drop_last()));
        lemma_applied_count(classes.drop_last());
    }
}

pub proof fn lemma_count_next(c: CacheModel, evs: Seq<CacheEvent>)
    ensures
        apply_events(c, evs).1 == c.1 + rule_count(evs),
    decreases evs.len(),
{
    if evs.len() > 0 {
        lemma_count_next(c, evs.drop_last());
    }
}


// ---------------------------------------------------------------------
// Executable
// ---------------------------------------------------------------------

pub open spec fn entry_view(e: UserApplyEntry) -> EntryModel {
    (e.selector@, e.body@, strings_view(e.at_rules@), e.in_layer_utility, e.source_order as int)
}

pub open spec fn entries_view(v: Seq<(String, UserApplyEntry)>) -> Seq<(Seq<char>, EntryModel)> {
    v.map_values(|p: (String, UserApplyEntry)| (p.0@, entry_view(p.1)))
}

pub open spec fn cache_view(c: UserApplyCache) -> CacheModel {
    (entries_view(c.entries@), c.next_source_order as int, strings_view(c.applied_classes@))
}

fn clone_strings(v: &[String]) -> (r: Vec<String>)
    ensures
        strings_view(r@) == strings_view(v@),
{
    let mut r: Vec<String> = Vec::new();
    let mut k: usize = 0;
    while k < v.len()
        invariant
            k <= v@.len(),
            strings_view(r@) == strings_view(v@).take(k as int),
        decreases v@.len() - k,
    {
        let x = v[k].clone();
        assert(x@ == v@[k as int]@);
        let ghost before = r@;
        r.push(x);
        assert(strings_view(r@) =~= strings_view(before).push(x@));
        assert(strings_view(v@).take(k + 1) =~= strings_view(v@).take(k as int).push(
            v@[k as int]@,
        ));
        k += 1;
    }
    assert(strings_view(v@).take(k as int) =~= strings_view(v@));
    r
}

fn words_of(s: &Vec<char>) -> (r: Vec<Vec<char>>)
    ensures
        chars_list_view(r@) == words_from(s@, 0, Seq::empty()),
{
    let mut out: Vec<Vec<char>> = Vec::new();
    let mut cur: Vec<char> = Vec::new();
    let mut i: usize = 0;
    while i < s.len()
        invariant
            i <= s@.len(),
            chars_list_view(out@) + words_from(s@, i as int, cur@) == words_from(
                s@,
                0,
                Seq::empty(),
            ),
        decreases s@.len() - i,
    {
        let ghost before = chars_list_view(out@);
        let ghost c0 = cur@;
        if is_unicode_ws(s[i]) {
            if cur.len() > 0 {
                let w = cur;
                cur = Vec::new();
                out.push(w);
            } else {
                cur = Vec::new();
            }
            assert(chars_list_view(out@) =~= before + flush_word(c0));
            assert(cur@ =~= Seq::<char>::empty());
            assert(before + (flush_word(c0) + words_from(s@, i + 1, Seq::empty())) =~= (before
                + flush_word(c0)) + words_from(s@, i + 1, Seq::empty()));
        } else {
            cur.push(s[i]);
        }
        i += 1;
    }
    let ghost before = chars_list_view(out@);
    let ghost c0 = cur@;
    if cur.len() > 0 {
        out.push(cur);
    }
    assert(chars_list_view(out@) =~= before + flush_word(c0));
    out
}

fn token_class_of(tok: &Vec<char>) -> (r: Vec<char>)
    ensures
        r@ == token_class(tok@),
{
    let mut a: usize = 0;
    while a < tok.len() && tok[a] == '!'
        invariant
            a <= tok@.len(),
            bang_lead(tok@, a as int) == bang_lead(tok@, 0),
        decreases tok@.len() - a,
    {
        a += 1;
    }
    let t = sub_chars(tok, a, tok.len());
    assert(t@ =~= tok@.skip(a as int));
    let mut j: usize = t.len();
    while j > 0 && t[j - 1] != ':'
        invariant
            j <= t@.len(),
            after_last_colon(t@, j as int) == after_last_colon(t@, t@.len() as int),
        decreases j,
    {
        j -= 1;
    }
    let r = sub_chars(&t, j, t.len());
    assert(r@ =~= t@.skip(j as int));
    r
}

proof fn lemma_applied_push(classes: Seq<Seq<char>>, x: Seq<char>)
    ensures
        applied_events(classes.push(x)) == applied_events(classes).push(CacheEvent::Applied(x)),
{
    assert(applied_events(classes.push(x)) =~= applied_events(classes).push(
        CacheEvent::Applied(x),
    ));
}

fn note_applied(cache: &mut UserApplyCache, x: &Vec<char>)
    ensures
        cache_view(*final(cache)) == apply_event(cache_view(*old(cache)), CacheEvent::Applied(x@)),
{
    if !is_candidate(&cache.applied_classes, x) {
        let ghost before = cache.applied_classes@;
        cache.applied_classes.push(string_from_chars(x));
        assert(strings_view(cache.applied_classes@) =~= strings_view(before).push(x@));
    }
}

/// Notes the classes named by the tokens of an `@apply` parameter list.
fn note_apply_tokens(cache: &mut UserApplyCache, params: &Vec<char>)
    ensures
        cache_view(*final(cache)) == apply_events(
            cache_view(*old(cache)),
            applied_events(
                token_classes(
                    words_from(params@, 0, Seq::empty()),
                    words_from(params@, 0, Seq::empty()).len() as int,
                ),
            ),
        ),
{
    let toks = words_of(params);
    let ghost tv = chars_list_view(toks@);
    let bang = chars_of("!important");
    let mut k: usize = 0;
    proof {
        assert(applied_events(token_classes(tv, 0)) =~= Seq::<CacheEvent>::empty());
    }
    while k < toks.len()
        invariant
            k <= toks@.len(),
            tv == chars_list_view(toks@),
            tv == words_from(params@, 0, Seq::empty()),
            bang@ == "!important"@,
            cache_view(*cache) == apply_events(
                cache_view(*old(cache)),
                applied_events(token_classes(tv, k as int)),
            ),
        decreases toks@.len() - k,
    {
        assert(tv[k as int] == toks@[k as int]@);
        let ghost prev = token_classes(tv, k as int);
        if !chars_eq(&toks[k], &bang) {
            let c = token_class_of(&toks[k]);
            if c.len() > 0 {
                let ghost before = cache_view(*cache);
                note_applied(cache, &c);
                proof {
                    lemma_applied_push(prev, c@);
                    let evs = applied_events(prev).push(CacheEvent::Applied(c@));
                    assert(evs.drop_last() =~= applied_events(prev));
                    assert(token_classes(tv, k + 1) == prev.push(c@));
                }
            } else {
                assert(token_classes(tv, k + 1) == prev);
            }
        } else {
            assert(token_classes(tv, k + 1) == prev);
        }
        k += 1;
    }
}

/// Files a rule under each of its classes, with the next source order.
fn file_rule(
    cache: &mut UserApplyCache,
    sel: &Vec<char>,
    body: &Vec<char>,
    classes: &Vec<Vec<char>>,
    chain: &[String],
    layer: bool,
)
    requires
        old(cache).next_source_order < u32::MAX,
    ensures
        cache_view(*final(cache)) == apply_event(
            cache_view(*old(cache)),
            CacheEvent::Rule(sel@, body@, chars_list_view(classes@), strings_view(chain@), layer),
        ),
{
    let ghost cv = chars_list_view(classes@);
    let ghost e0 = entries_view(cache.entries@);
    cache.next_source_order = cache.next_source_order + 1;
    let o = cache.next_source_order;
    let ghost em: EntryModel = (sel@, body@, strings_view(chain@), layer, o as int);
    let mut k: usize = 0;
    while k < classes.len()
        invariant
            k <= classes@.len(),
            cv == chars_list_view(classes@),
            o == cache.next_source_order,
            o as int == old(cache).next_source_order + 1,
            cache.applied_classes == old(cache).applied_classes,
            e0 == entries_view(old(cache).entries@),
            em == (sel@, body@, strings_view(chain@), layer, o as int),
            entries_view(cache.entries@) == e0 + cv.take(k as int).map_values(
                |c: Seq<char>| (c, em),
            ),
        decreases classes@.len() - k,
    {
        let entry = UserApplyEntry {
            selector: string_from_chars(sel),
            body: string_from_chars(body),
            at_rules: clone_strings(chain),
            in_layer_utility: layer,
            source_order: o,
        };
        let key = string_from_chars(&classes[k]);
        let ghost before = cache.entries@;
        cache.entries.push((key, entry));
        proof {
            assert(cv[k as int] == classes@[k as int]@);
            assert(entries_view(cache.entries@) =~= entries_view(before).push(
                (cv[k as int], em),
            ));
            assert(cv.take(k + 1).map_values(|c: Seq<char>| (c, em)) =~= cv.take(
                k as int,
            ).map_values(|c: Seq<char>| (c, em)).push((cv[k as int], em)));
        }
        k += 1;
    }
    proof {
        assert(cv.take(k as int) =~= cv);
    }
}


fn header_of(name: &Vec<char>, params: &Vec<char>) -> (r: String)
    ensures
        r@ == at_header(name@, params@),
{
    let tp = trim_chars(params);
    let mut out: Vec<char> = Vec::new();
    out.push('@');
    extend_chars(&mut out, name);
    if tp.len() > 0 {
        out.push(' ');
        extend_chars(&mut out, &tp);
    }
    assert(out@ =~= at_header(name@, params@));
    string_from_chars(&out)
}

proof fn lemma_single_event(c: CacheModel, e: CacheEvent, rest: Seq<CacheEvent>)
    ensures
        apply_events(c, seq![e] + rest) == apply_events(apply_event(c, e), rest),
        rule_count(seq![e] + rest) == rule_count(seq![e]) + rule_count(rest),
        rule_count(seq![e]) == (if e is Rule {
            1int
        } else {
            0
        }),
{
    lemma_apply_events_concat(c, seq![e], rest);
    let one = seq![e];
    assert(one.drop_last() =~= Seq::<CacheEvent>::empty());
    assert(one.last() == e);
    assert(apply_events(c, one.drop_last()) == c);
    assert(rule_count(one.drop_last()) == 0);
    assert(apply_events(c, one) == apply_event(c, e));
}

/// Walks `s` (`user_walk`) and applies what it meets to the cache.
fn walk_user(s: &Vec<char>, cache: &mut UserApplyCache, chain: &[String], layer: bool)
    requires
        old(cache).next_source_order + rule_count(user_walk(s@, 0, strings_view(chain@), layer))
            <= u32::MAX,
    ensures
        cache_view(*final(cache)) == apply_events(
            cache_view(*old(cache)),
            user_walk(s@, 0, strings_view(chain@), layer),
        ),
    decreases s@.len(),
{
    let ghost ch = strings_view(chain@);
    let ghost total = user_walk(s@, 0, ch, layer);
    let ghost c0 = cache_view(*cache);
    let mut i: usize = 0;
    while i < s.len()
        invariant
            i <= s@.len(),
            ch == strings_view(chain@),
            total == user_walk(s@, 0, ch, layer),
            c0 == cache_view(*old(cache)),
            apply_events(cache_view(*cache), user_walk(s@, i as int, ch, layer)) == apply_events(
                c0,
                total,
            ),
            cache.next_source_order + rule_count(user_walk(s@, i as int, ch, layer)) <= u32::MAX,
        decreases s@.len() - i,
    {
        let c = s[i];
        let ghost cv = cache_view(*cache);
        if is_ascii_ws(c) {
            i += 1;
        } else if is_comment_start(s, i) {
            proof {
                lemma_comment_end_bounds(s@, i + 2);
            }
            i = find_comment_end(s, i + 2);
        } else if c == '"' || c == '\'' {
            i = find_string_end(s, i);
        } else if c == '@' {
            let ne = scan_ident(s, i + 1);
            let name = sub_chars(s, i + 1, ne);
            let skip = skip_at_rule(s, i);
            proof {
                lemma_statement_end_bounds(s@, i + 1);
            }
            let is_kf = chars_eq(&name, &chars_of("keyframes")) || chars_eq(
                &name,
                &chars_of("-webkit-keyframes"),
            );
            let is_apply = chars_eq(&name, &chars_of("apply"));
            let semi = if is_apply {
                find_top_level_semicolon(s, ne)
            } else {
                None
            };
            if is_kf && skip.is_some() {
                i = skip.unwrap();
            } else if is_apply && semi.is_some() {
                let sm = semi.unwrap();
                let params = sub_chars(s, ne, sm);
                let ghost toks = words_from(params@, 0, Seq::empty());
                let ghost here = applied_events(token_classes(toks, toks.len() as int));
                proof {
                    lemma_apply_events_concat(cv, here, user_walk(s@, sm + 1, ch, layer));
                    lemma_applied_count(token_classes(toks, toks.len() as int));
                    lemma_count_next(cv, here);
                }
                note_apply_tokens(cache, &params);
                i = sm + 1;
            } else {
                match read_at_rule_with_params_and_block(s, ne) {
                    Some((after, open, close)) => {
                        proof {
                            lemma_at_rule_block_bounds(s@, ne as int);
                        }
                        let params = sub_chars(s, ne, open);
                        let body = sub_chars(s, open + 1, close);
                        let ghost rest = user_walk(s@, after as int, ch, layer);
                        if chars_eq(&name, &chars_of("layer")) {
                            let ln = trim_chars(&params);
                            let nested = layer || chars_eq(&ln, &chars_of("utilities")) || chars_eq(
                                &ln,
                                &chars_of("components"),
                            );
                            let ghost inner = user_walk(body@, 0, ch, nested);
                            proof {
                                lemma_apply_events_concat(cv, inner, rest);
                                lemma_rule_count_nonneg(inner);
                                lemma_rule_count_nonneg(rest);
                                lemma_count_next(cv, inner);
                            }
                            walk_user(&body, cache, chain, nested);
                        } else if chars_eq(&name, &chars_of("responsive")) || chars_eq(
                            &name,
                            &chars_of("variants"),
                        ) {
                            let ghost inner = user_walk(body@, 0, ch, true);
                            proof {
                                lemma_apply_events_concat(cv, inner, rest);
                                lemma_rule_count_nonneg(inner);
                                lemma_rule_count_nonneg(rest);
                                lemma_count_next(cv, inner);
                            }
                            walk_user(&body, cache, chain, true);
                        } else {
                            let mut next = clone_strings(chain);
                            let h = header_of(&name, &params);
                            let ghost before_next = strings_view(next@);
                            next.push(h);
                            assert(strings_view(next@) =~= before_next.push(h@));
                            let ghost inner = user_walk(
                                body@,
                                0,
                                ch.push(at_header(name@, params@)),
                                layer,
                            );
                            proof {
                                lemma_apply_events_concat(cv, inner, rest);
                                lemma_rule_count_nonneg(inner);
                                lemma_rule_count_nonneg(rest);
                                lemma_count_next(cv, inner);
                            }
                            walk_user(&body, cache, next.as_slice(), layer);
                        }
                        i = after;
                    },
                    None => {
                        match skip {
                            Some(k) => {
                                i = k;
                            },
                            None => {
                                i += 1;
                            },
                        }
                    },
                }
            }
        } else if is_selector_lead(c) {
            match find_top_level_open_brace(s, i) {
                Some(b) => {
                    match find_matching_close_brace(s, b) {
                        Some(cl) => {
                            proof {
                                lemma_rule_block_bounds(s@, i as int);
                            }
                            let sel = trim_chars(&sub_chars(s, i, b));
                            let body = sub_chars(s, b + 1, cl);
                            let classes = collect_class_names(&sel);
                            let ghost e = CacheEvent::Rule(
                                sel@,
                                body@,
                                chars_list_view(classes@),
                                ch,
                                layer,
                            );
                            let ghost inner = user_walk(body@, 0, ch, layer);
                            let ghost rest = user_walk(s@, cl + 1, ch, layer);
                            proof {
                                assert(user_walk(s@, i as int, ch, layer) == seq![e] + inner
                                    + rest);
                                assert(seq![e] + inner + rest =~= seq![e] + (inner + rest));
                                lemma_single_event(cv, e, inner + rest);
                                lemma_apply_events_concat(apply_event(cv, e), inner, rest);
                                lemma_rule_count_nonneg(inner);
                                lemma_rule_count_nonneg(rest);
                                lemma_count_next(apply_event(cv, e), inner);
                            }
                            file_rule(cache, &sel, &body, &classes, chain, layer);
                            walk_user(&body, cache, chain, layer);
                            i = cl + 1;
                        },
                        None => {
                            i += 1;
                        },
                    }
                },
                None => {
                    i += 1;
                },
            }
        } else {
            i += 1;
        }
    }
}

/// Files the rules of `input` under their classes and notes the classes
/// its `@apply` directives name (`user_walk`), `at_chain` being the
/// at-rules around it and `in_layer_utility` whether it sits in a
/// utility layer.
pub fn walk_for_user_cache(
    input: &str,
    cache: &mut UserApplyCache,
    at_chain: &[String],
    in_layer_utility: bool,
)
    requires
        old(cache).next_source_order + rule_count(
            user_walk(input@, 0, strings_view(at_chain@), in_layer_utility),
        ) <= u32::MAX,
    ensures
        cache_view(*final(cache)) == apply_events(
            cache_view(*old(cache)),
            user_walk(input@, 0, strings_view(at_chain@), in_layer_utility),
        ),
{
    walk_user(&chars_of(input), cache, at_chain, in_layer_utility);
}

impl Default for UserApplyCache {
    fn default() -> (r: Self)
        ensures
            cache_view(r) == (Seq::<(Seq<char>, EntryModel)>::empty(), 0int, Seq::<
                Seq<char>,
            >::empty()),
    {
        let r = UserApplyCache {
            entries: Vec::new(),
            next_source_order: 0,
            applied_classes: Vec::new(),
        };
        assert(entries_view(r.entries@) =~= Seq::<(Seq<char>, EntryModel)>::empty());
        assert(strings_view(r.applied_classes@) =~= Seq::<Seq<char>>::empty());
        r
    }
}

/// The cache of a user stylesheet, built from an empty one.
pub fn build_user_apply_cache_public(input: &str) -> (r: UserApplyCache)
    requires
        rule_count(user_walk(input@, 0, Seq::empty(), false)) <= u32::MAX,
    ensures
        cache_view(r) == apply_events(
            (Seq::empty(), 0, Seq::empty()),
            user_walk(input@, 0, Seq::empty(), false),
        ),
{
    let mut cache = UserApplyCache::default();
    let chain: Vec<String> = Vec::new();
    assert(strings_view(chain@) =~= Seq::<Seq<char>>::empty());
    walk_for_user_cache(input, &mut cache, chain.as_slice(), false);
    cache
}


/// The entries filed under `class` among the first `n` pairs, in order.
pub open spec fn entries_of(es: Seq<(Seq<char>, EntryModel)>, class: Seq<char>, n: int) -> Seq<
    EntryModel,
>
    decreases n,
{
    if n <= 0 {
        Seq::empty()
    } else if es[n - 1].0 == class {
        entries_of(es, class, n - 1).push(es[n - 1].1)
    } else {
        entries_of(es, class, n - 1)
    }
}

fn clone_entry(e: &UserApplyEntry) -> (r: UserApplyEntry)
    ensures
        entry_view(r) == entry_view(*e),
{
    UserApplyEntry {
        selector: e.selector.clone(),
        body: e.body.clone(),
        at_rules: clone_strings(e.at_rules.as_slice()),
        in_layer_utility: e.in_layer_utility,
        source_order: e.source_order,
    }
}

impl UserApplyCache {
    /// The rules filed under `class`, in source order.
    pub fn entries_for(&self, class: &str) -> (r: Vec<UserApplyEntry>)
        ensures
            r@.map_values(|e: UserApplyEntry| entry_view(e)) == entries_of(
                entries_view(self.entries@),
                class@,
                self.entries@.len() as int,
            ),
    {
        let ghost ev = entries_view(self.entries@);
        let key = chars_of(class);
        let mut r: Vec<UserApplyEntry> = Vec::new();
        let mut k: usize = 0;
        while k < self.entries.len()
            invariant
                k <= self.entries@.len(),
                ev == entries_view(self.entries@),
                key@ == class@,
                r@.map_values(|e: UserApplyEntry| entry_view(e)) == entries_of(ev, class@, k as int),
            decreases self.entries@.len() - k,
        {
            assert(ev[k as int] == (self.entries@[k as int].0@, entry_view(self.entries@[k as int].1)));
            if chars_eq(&chars_of(self.entries[k].0.as_str()), &key) {
                let x = clone_entry(&self.entries[k].1);
                let ghost before = r@;
                r.push(x);
                assert(r@.map_values(|e: UserApplyEntry| entry_view(e)) =~= before.map_values(
                    |e: UserApplyEntry| entry_view(e),
                ).push(entry_view(x)));
            }
            k += 1;
        }
        r
    }

    /// Whether `@apply` names `class` somewhere.
    pub fn is_applied(&self, class: &str) -> (r: bool)
        ensures
            r == strings_view(self.applied_classes@).contains(class@),
    {
        is_candidate(&self.applied_classes, &chars_of(class))
    }
}

} // verus!
