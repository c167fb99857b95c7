//! The last passes over the emitted stylesheet: it is read into a list of
//! items (comments, rules, at-rule blocks, simple at-rules, other text),
//! adjacent rules with the same selector and adjacent at-rule blocks with
//! the same header are merged, and duplicate declarations inside a rule
//! are collapsed.
use vstd::prelude::*;
use crate::directives::chars_list_view;
use crate::css_blocks::{
    comment_end, comment_start, find_comment_end, find_string_end, is_comment_start, is_quote,
    lemma_comment_end_bounds, ws_end,
};
use crate::lcss::is_digit;
use crate::text::{
    append_str, str_eq, ascii_alnum, ascii_ws, chars_eq, is_ascii_alnum, chars_of, extend_chars, is_ascii_ws, is_unicode_ws, lemma_quote_end_bounds,
    quote_end, quote_end_at, string_from_chars, sub_chars, trim_chars, trim_end_chars, trim_end_spec, trim_spec, unicode_ws,
};

verus! {

/// One item of a stylesheet.
pub enum CssItem {
    Comment(String),
    /// `<selector> { <body> }`, the body as written.
    Rule { selector: String, body: String },
    /// An at-rule with a block (`@media`, `@supports`, …) and the items
    /// inside it.
    AtBlock { name: String, params: String, items: Vec<CssItem> },
    /// `@<name> <params>;`.
    AtSimple { text: String },
    /// Whitespace, or text that is not read further.
    Other(String),
}

/// The mathematical model of an item.
pub enum ItemModel {
    Comment(Seq<char>),
    Rule(Seq<char>, Seq<char>),
    AtBlock(Seq<char>, Seq<char>, Seq<ItemModel>),
    AtSimple(Seq<char>),
    Other(Seq<char>),
}

pub open spec fn item_view(i: CssItem) -> ItemModel
    decreases i,
{
    match i {
        CssItem::Comment(s) => ItemModel::Comment(s@),
        CssItem::Rule { selector, body } => ItemModel::Rule(selector@, body@),
        CssItem::AtBlock { name, params, items } => ItemModel::AtBlock(
            name@,
            params@,
            items_view(items@),
        ),
        CssItem::AtSimple { text } => ItemModel::AtSimple(text@),
        CssItem::Other(s) => ItemModel::Other(s@),
    }
}

pub open spec fn items_view(v: Seq<CssItem>) -> Seq<ItemModel>
    decreases v,
{
    if v.len() == 0 {
        Seq::empty()
    } else {
        items_view(v.drop_last()).push(item_view(v.last()))
    }
}

pub proof fn lemma_items_view(v: Seq<CssItem>)
    ensures
        items_view(v).len() == v.len(),
        forall|i: int| 0 <= i < v.len() ==> #[trigger] items_view(v)[i] == item_view(v[i]),
    decreases v.len(),
{
    if v.len() > 0 {
        lemma_items_view(v.drop_last());
    }
}

pub proof fn lemma_items_view_push(v: Seq<CssItem>, x: CssItem)
    ensures
        items_view(v.push(x)) == items_view(v).push(item_view(x)),
{
    assert(v.push(x).drop_last() =~= v);
}

// ---------------------------------------------------------------------
// Reading
// ---------------------------------------------------------------------

/// The end of an at-rule header from `j`: its first top-level `;` or
/// `{` (escapes, strings, parentheses and brackets stepped over), or the
/// end of the text.
pub open spec fn at_header_end(s: Seq<char>, j: int, dp: int, db: int) -> int
    decreases s.len() - j,
{
    if !(0 <= j < s.len()) {
        s.len() as int
    } else if s[j] == '\\' && j + 1 < s.len() {
        at_header_end(s, j + 2, dp, db)
    } else if is_quote(s[j]) {
        proof {
            lemma_quote_end_bounds(s, j + 1, s[j]);
        }
        at_header_end(s, quote_end(s, j + 1, s[j]), dp, db)
    } else if s[j] == '(' {
        at_header_end(s, j + 1, dp + 1, db)
    } else if s[j] == ')' {
        at_header_end(s, j + 1, dp - 1, db)
    } else if s[j] == '[' {
        at_header_end(s, j + 1, dp, db + 1)
    } else if s[j] == ']' {
        at_header_end(s, j + 1, dp, db - 1)
    } else if (s[j] == ';' || s[j] == '{') && dp == 0 && db == 0 {
        j
    } else {
        at_header_end(s, j + 1, dp, db)
    }
}

/// The end of a rule's selector from `j`: its first top-level `{` or
/// `}`, or the end of the text.
pub open spec fn rule_head_end(s: Seq<char>, j: int, dp: int, db: int) -> int
    decreases s.len() - j,
{
    if !(0 <= j < s.len()) {
        s.len() as int
    } else if s[j] == '\\' && j + 1 < s.len() {
        rule_head_end(s, j + 2, dp, db)
    } else if is_quote(s[j]) {
        proof {
            lemma_quote_end_bounds(s, j + 1, s[j]);
        }
        rule_head_end(s, quote_end(s, j + 1, s[j]), dp, db)
    } else if s[j] == '(' {
        rule_head_end(s, j + 1, dp + 1, db)
    } else if s[j] == ')' {
        rule_head_end(s, j + 1, dp - 1, db)
    } else if s[j] == '[' {
        rule_head_end(s, j + 1, dp, db + 1)
    } else if s[j] == ']' {
        rule_head_end(s, j + 1, dp, db - 1)
    } else if (s[j] == '{' || s[j] == '}') && dp == 0 && db == 0 {
        j
    } else {
        rule_head_end(s, j + 1, dp, db)
    }
}

/// The `}` closing a block with `depth` braces open at `i` (escapes,
/// strings and comments stepped over), or the end of the text.
pub open spec fn close_top(s: Seq<char>, i: int, depth: nat) -> int
    decreases s.len() - i,
{
    if !(0 <= i < s.len()) {
        s.len() as int
    } else if s[i] == '\\' && i + 1 < s.len() {
        close_top(s, i + 2, depth)
    } else if is_quote(s[i]) {
        proof {
            lemma_quote_end_bounds(s, i + 1, s[i]);
        }
        close_top(s, quote_end(s, i + 1, s[i]), depth)
    } else if comment_start(s, i) {
        proof {
            lemma_comment_end_bounds(s, i + 2);
        }
        close_top(s, comment_end(s, i + 2), depth)
    } else if s[i] == '{' {
        close_top(s, i + 1, depth + 1)
    } else if s[i] == '}' {
        if depth <= 1 {
            i
        } else {
            close_top(s, i + 1, (depth - 1) as nat)
        }
    } else {
        close_top(s, i + 1, depth)
    }
}

pub proof fn lemma_at_header_end_bounds(s: Seq<char>, j: int, dp: int, db: int)
    requires
        0 <= j,
    ensures
        j <= at_header_end(s, j, dp, db) || j > s.len(),
        at_header_end(s, j, dp, db) <= s.len(),
    decreases s.len() - j,
{
    if 0 <= j < s.len() {
        if s[j] == '\\' && j + 1 < s.len() {
            lemma_at_header_end_bounds(s, j + 2, dp, db);
        } else if is_quote(s[j]) {
            lemma_quote_end_bounds(s, j + 1, s[j]);
            lemma_at_header_end_bounds(s, quote_end(s, j + 1, s[j]), dp, db);
        } else if s[j] == '(' {
            lemma_at_header_end_bounds(s, j + 1, dp + 1, db);
        } else if s[j] == ')' {
            lemma_at_header_end_bounds(s, j + 1, dp - 1, db);
        } else if s[j] == '[' {
            lemma_at_header_end_bounds(s, j + 1, dp, db + 1);
        } else if s[j] == ']' {
            lemma_at_header_end_bounds(s, j + 1, dp, db - 1);
        } else if !((s[j] == ';' || s[j] == '{') && dp == 0 && db == 0) {
            lemma_at_header_end_bounds(s, j + 1, dp, db);
        }
    }
}

pub proof fn lemma_rule_head_end_bounds(s: Seq<char>, j: int, dp: int, db: int)
    requires
        0 <= j,
    ensures
        j <= rule_head_end(s, j, dp, db) || j > s.len(),
        rule_head_end(s, j, dp, db) <= s.len(),
    decreases s.len() - j,
{
    if 0 <= j < s.len() {
        if s[j] == '\\' && j + 1 < s.len() {
            lemma_rule_head_end_bounds(s, j + 2, dp, db);
        } else if is_quote(s[j]) {
            lemma_quote_end_bounds(s, j + 1, s[j]);
            lemma_rule_head_end_bounds(s, quote_end(s, j + 1, s[j]), dp, db);
        } else if s[j] == '(' {
            lemma_rule_head_end_bounds(s, j + 1, dp + 1, db);
        } else if s[j] == ')' {
            lemma_rule_head_end_bounds(s, j + 1, dp - 1, db);
        } else if s[j] == '[' {
            lemma_rule_head_end_bounds(s, j + 1, dp, db + 1);
        } else if s[j] == ']' {
            lemma_rule_head_end_bounds(s, j + 1, dp, db - 1);
        } else if !((s[j] == '{' || s[j] == '}') && dp == 0 && db == 0) {
            lemma_rule_head_end_bounds(s, j + 1, dp, db);
        }
    }
}

pub proof fn lemma_close_top_bounds(s: Seq<char>, i: int, depth: nat)
    requires
        0 <= i <= s.len(),
    ensures
        i <= close_top(s, i, depth) <= s.len(),
    decreases s.len() - i,
{
    if i < s.len() {
        if s[i] == '\\' && i + 1 < s.len() {
            lemma_close_top_bounds(s, i + 2, depth);
        } else if is_quote(s[i]) {
            lemma_quote_end_bounds(s, i + 1, s[i]);
            lemma_close_top_bounds(s, quote_end(s, i + 1, s[i]), depth);
        } else if comment_start(s, i) {
            lemma_comment_end_bounds(s, i + 2);
            lemma_close_top_bounds(s, comment_end(s, i + 2), depth);
        } else if s[i] == '{' {
            lemma_close_top_bounds(s, i + 1, depth + 1);
        } else if s[i] == '}' {
            if depth > 1 {
                lemma_close_top_bounds(s, i + 1, (depth - 1) as nat);
            }
        } else {
            lemma_close_top_bounds(s, i + 1, depth);
        }
    }
}

pub proof fn lemma_ws_end_bounds(s: Seq<char>, j: int)
    requires
        0 <= j <= s.len(),
    ensures
        j <= ws_end(s, j) <= s.len(),
    decreases s.len() - j,
{
    if j < s.len() && ascii_ws(s[j]) {
        lemma_ws_end_bounds(s, j + 1);
    }
}

/// The first Unicode whitespace of `t`, or its length.
pub open spec fn first_ws(t: Seq<char>, k: int) -> int
    decreases t.len() - k,
{
    if !(0 <= k < t.len()) || unicode_ws(t[k]) {
        k
    } else {
        first_ws(t, k + 1)
    }
}

/// An at-rule header (after `@`, up to `{`) as name and parameters: the
/// trimmed header split at its first whitespace, the parameters trimmed.
pub open spec fn header_parts(h: Seq<char>) -> (Seq<char>, Seq<char>) {
    let t = trim_spec(h);
    let k = first_ws(t, 0);
    if 0 <= k < t.len() {
        (t.take(k), trim_spec(t.skip(k)))
    } else {
        (t, Seq::empty())
    }
}

/// The items of a stylesheet from position `i` on: whitespace runs,
/// comments, at-rules (a simple one up to its `;`, a block one with its
/// items read in turn), rules, and a stray `}` on its own; text that
/// never reaches a terminator ends the list as it is.
pub open spec fn items_scan(s: Seq<char>, i: int) -> Seq<ItemModel>
    decreases s.len(), s.len() + 1 - i,
{
    if !(0 <= i < s.len()) {
        Seq::empty()
    } else if ascii_ws(s[i]) {
        proof {
            lemma_ws_end_bounds(s, i + 1);
        }
        let e = ws_end(s, i);
        seq![ItemModel::Other(s.subrange(i, e))] + items_scan(s, e)
    } else if comment_start(s, i) {
        proof {
            lemma_comment_end_bounds(s, i + 2);
        }
        let e = comment_end(s, i + 2);
        seq![ItemModel::Comment(s.subrange(i, e))] + items_scan(s, e)
    } else if s[i] == '@' {
        proof {
            lemma_at_header_end_bounds(s, i + 1, 0, 0);
        }
        let j = at_header_end(s, i + 1, 0, 0);
        if j < s.len() && s[j] == ';' {
            seq![ItemModel::AtSimple(s.subrange(i, j + 1))] + items_scan(s, j + 1)
        } else if j < s.len() && s[j] == '{' {
            proof {
                lemma_close_top_bounds(s, j + 1, 1);
            }
            let be = close_top(s, j + 1, 1);
            let (name, params) = header_parts(s.subrange(i + 1, j));
            seq![ItemModel::AtBlock(name, params, items_scan(s.subrange(j + 1, be), 0))]
                + items_scan(s, be + 1)
        } else {
            seq![ItemModel::Other(s.skip(i))]
        }
    } else {
        proof {
            lemma_rule_head_end_bounds(s, i, 0, 0);
        }
        let j = rule_head_end(s, i, 0, 0);
        if j >= s.len() {
            seq![ItemModel::Other(s.skip(i))]
        } else if s[j] == '}' {
            seq![ItemModel::Other(s.subrange(i, j)), ItemModel::Other(s.subrange(j, j + 1))]
                + items_scan(s, j + 1)
        } else {
            proof {
                lemma_close_top_bounds(s, j + 1, 1);
            }
            let be = close_top(s, j + 1, 1);
            seq![ItemModel::Rule(trim_spec(s.subrange(i, j)), s.subrange(j + 1, be))]
                + items_scan(s, be + 1)
        }
    }
}


// ---------------------------------------------------------------------
// Reading, executable
// ---------------------------------------------------------------------

/// `at_header_end(s, from, 0, 0)`: the depths are kept as counts of
/// opening and closing brackets seen.
fn header_end_at(s: &Vec<char>, from: usize) -> (r: usize)
    requires
        from <= s.len(),
    ensures
        r == at_header_end(s@, from as int, 0, 0),
        from <= r <= s@.len(),
{
    proof {
        lemma_at_header_end_bounds(s@, from as int, 0, 0);
    }
    let mut j = from;
    let mut po: usize = 0;
    let mut pc: usize = 0;
    let mut bo: usize = 0;
    let mut bc: usize = 0;
    while j < s.len()
        invariant
            from <= j <= s@.len(),
            po <= j,
            pc <= j,
            bo <= j,
            bc <= j,
            at_header_end(s@, j as int, po - pc, bo - bc) == at_header_end(s@, from as int, 0, 0),
        decreases s@.len() - j,
    {
        let c = s[j];
        if c == '\\' && j + 1 < s.len() {
            j += 2;
        } else if c == '"' || c == '\'' {
            j = find_string_end(s, j);
        } else if c == '(' {
            po += 1;
            j += 1;
        } else if c == ')' {
            pc += 1;
            j += 1;
        } else if c == '[' {
            bo += 1;
            j += 1;
        } else if c == ']' {
            bc += 1;
            j += 1;
        } else if (c == ';' || c == '{') && po == pc && bo == bc {
            return j;
        } else {
            j += 1;
        }
    }
    j
}

/// `rule_head_end(s, from, 0, 0)`.
fn rule_head_end_at(s: &Vec<char>, from: usize) -> (r: usize)
    requires
        from <= s.len(),
    ensures
        r == rule_head_end(s@, from as int, 0, 0),
        from <= r <= s@.len(),
{
    proof {
        lemma_rule_head_end_bounds(s@, from as int, 0, 0);
    }
    let mut j = from;
    let mut po: usize = 0;
    let mut pc: usize = 0;
    let mut bo: usize = 0;
    let mut bc: usize = 0;
    while j < s.len()
        invariant
            from <= j <= s@.len(),
            po <= j,
            pc <= j,
            bo <= j,
            bc <= j,
            rule_head_end(s@, j as int, po - pc, bo - bc) == rule_head_end(s@, from as int, 0, 0),
        decreases s@.len() - j,
    {
        let c = s[j];
        if c == '\\' && j + 1 < s.len() {
            j += 2;
        } else if c == '"' || c == '\'' {
            j = find_string_end(s, j);
        } else if c == '(' {
            po += 1;
            j += 1;
        } else if c == ')' {
            pc += 1;
            j += 1;
        } else if c == '[' {
            bo += 1;
            j += 1;
        } else if c == ']' {
            bc += 1;
            j += 1;
        } else if (c == '{' || c == '}') && po == pc && bo == bc {
            return j;
        } else {
            j += 1;
        }
    }
    j
}

/// The `}` that closes the block opened by the `{` at `open` (escapes,
/// strings and comments stepped over), or the length of the text when
/// the block is never closed.
pub fn find_matching_close_brace_top(s: &Vec<char>, open: usize) -> (r: usize)
    requires
        open < s.len(),
    ensures
        r == close_top(s@, open + 1, 1),
        open < r <= s@.len(),
{
    proof {
        lemma_close_top_bounds(s@, open + 1, 1);
    }
    let mut i = open + 1;
    let mut extra: usize = 0;
    while i < s.len()
        invariant
            open + 1 <= i <= s@.len(),
            extra <= i,
            close_top(s@, i as int, (extra + 1) as nat) == close_top(s@, open + 1, 1),
        decreases s@.len() - i,
    {
        let c = s[i];
        if c == '\\' && i + 1 < s.len() {
            i += 2;
        } else if c == '"' || c == '\'' {
            i = find_string_end(s, i);
        } else if is_comment_start(s, i) {
            proof {
                lemma_comment_end_bounds(s@, i + 2);
            }
            i = find_comment_end(s, i + 2);
        } else if c == '{' {
            extra += 1;
            i += 1;
        } else if c == '}' {
            if extra == 0 {
                return i;
            }
            extra -= 1;
            i += 1;
        } else {
            i += 1;
        }
    }
    i
}

/// `ws_end(s, from)`.
fn ws_end_at(s: &Vec<char>, from: usize) -> (r: usize)
    requires
        from <= s.len(),
    ensures
        r == ws_end(s@, from as int),
        from <= r <= s@.len(),
{
    let mut i = from;
    while i < s.len() && is_ascii_ws(s[i])
        invariant
            from <= i <= s@.len(),
            ws_end(s@, i as int) == ws_end(s@, from as int),
        decreases s@.len() - i,
    {
        i += 1;
    }
    i
}

/// The name and parameters of an at-rule header (`header_parts`).
fn split_header(h: &Vec<char>) -> (r: (String, String))
    ensures
        (r.0@, r.1@) == header_parts(h@),
{
    let t = trim_chars(h);
    let mut k: usize = 0;
    while k < t.len() && !is_unicode_ws(t[k])
        invariant
            k <= t@.len(),
            first_ws(t@, k as int) == first_ws(t@, 0),
        decreases t@.len() - k,
    {
        k += 1;
    }
    if k < t.len() {
        let name = string_from_chars(&sub_chars(&t, 0, k));
        let rest = sub_chars(&t, k, t.len());
        let params = string_from_chars(&trim_chars(&rest));
        proof {
            assert(t@.subrange(0, k as int) =~= t@.take(k as int));
            assert(t@.subrange(k as int, t@.len() as int) =~= t@.skip(k as int));
        }
        (name, params)
    } else {
        (string_from_chars(&t), String::new())
    }
}

fn text_of(s: &Vec<char>, a: usize, b: usize) -> (r: String)
    requires
        a <= b <= s.len(),
    ensures
        r@ == s@.subrange(a as int, b as int),
{
    string_from_chars(&sub_chars(s, a, b))
}

proof fn lemma_scan_step(done: Seq<ItemModel>, m: Seq<ItemModel>, rest: Seq<ItemModel>)
    ensures
        done + (m + rest) == (done + m) + rest,
{
    assert(done + (m + rest) =~= (done + m) + rest);
}

/// The items of a stylesheet, read as `items_scan` says.
pub fn parse_items(s: &Vec<char>) -> (r: Vec<CssItem>)
    ensures
        items_view(r@) == items_scan(s@, 0),
    decreases s@.len(),
{
    let mut items: Vec<CssItem> = Vec::new();
    let mut i: usize = 0;
    while i < s.len()
        invariant
            i <= s@.len(),
            items_view(items@) + items_scan(s@, i as int) == items_scan(s@, 0),
        decreases s@.len() - i,
    {
        let ghost done = items_view(items@);
        let c = s[i];
        if is_ascii_ws(c) {
            let e = ws_end_at(s, i + 1);
            let x = CssItem::Other(text_of(s, i, e));
            proof {
                lemma_items_view_push(items@, x);
                lemma_scan_step(done, seq![item_view(x)], items_scan(s@, e as int));
            }
            items.push(x);
            i = e;
        } else if is_comment_start(s, i) {
            proof {
                lemma_comment_end_bounds(s@, i + 2);
            }
            let e = find_comment_end(s, i + 2);
            let x = CssItem::Comment(text_of(s, i, e));
            proof {
                lemma_items_view_push(items@, x);
                lemma_scan_step(done, seq![item_view(x)], items_scan(s@, e as int));
            }
            items.push(x);
            i = e;
        } else if c == '@' {
            let j = header_end_at(s, i + 1);
            if j < s.len() && s[j] == ';' {
                let x = CssItem::AtSimple { text: text_of(s, i, j + 1) };
                proof {
                    lemma_items_view_push(items@, x);
                    lemma_scan_step(done, seq![item_view(x)], items_scan(s@, j + 1));
                }
                items.push(x);
                i = j + 1;
            } else if j < s.len() && s[j] == '{' {
                let be = find_matching_close_brace_top(s, j);
                let (name, params) = split_header(&sub_chars(s, i + 1, j));
                let inner = parse_items(&sub_chars(s, j + 1, be));
                let x = CssItem::AtBlock { name, params, items: inner };
                proof {
                    lemma_items_view_push(items@, x);
                    lemma_scan_step(done, seq![item_view(x)], items_scan(s@, be + 1));
                }
                items.push(x);
                if be == s.len() {
                    return items;
                }
                i = be + 1;
            } else {
                let x = CssItem::Other(text_of(s, i, s.len()));
                proof {
                    lemma_items_view_push(items@, x);
                    assert(s@.subrange(i as int, s@.len() as int) =~= s@.skip(i as int));
                    assert(done + seq![item_view(x)] =~= items_view(items@.push(x)));
                }
                items.push(x);
                return items;
            }
        } else {
            let j = rule_head_end_at(s, i);
            if j >= s.len() {
                let x = CssItem::Other(text_of(s, i, s.len()));
                proof {
                    lemma_items_view_push(items@, x);
                    assert(s@.subrange(i as int, s@.len() as int) =~= s@.skip(i as int));
                }
                items.push(x);
                return items;
            } else if s[j] == '}' {
                let x = CssItem::Other(text_of(s, i, j));
                let y = CssItem::Other(text_of(s, j, j + 1));
                proof {
                    lemma_items_view_push(items@, x);
                    lemma_items_view_push(items@.push(x), y);
                    lemma_scan_step(done, seq![item_view(x), item_view(y)], items_scan(s@, j + 1));
                    assert(seq![item_view(x), item_view(y)] =~= seq![item_view(x)].push(item_view(y)));
                }
                items.push(x);
                items.push(y);
                i = j + 1;
            } else {
                let be = find_matching_close_brace_top(s, j);
                let selector = string_from_chars(&trim_chars(&sub_chars(s, i, j)));
                let x = CssItem::Rule { selector, body: text_of(s, j + 1, be) };
                proof {
                    lemma_items_view_push(items@, x);
                    lemma_scan_step(done, seq![item_view(x)], items_scan(s@, be + 1));
                }
                items.push(x);
                if be == s.len() {
                    return items;
                }
                i = be + 1;
            }
        }
    }
    proof {
        assert(items_view(items@) + Seq::<ItemModel>::empty() =~= items_view(items@));
    }
    items
}

/// The items of the stylesheet `input`.
pub fn parse_top_level_items(input: &str) -> (r: Vec<CssItem>)
    ensures
        items_view(r@) == items_scan(input@, 0),
{
    parse_items(&chars_of(input))
}


// ---------------------------------------------------------------------
// Declarations of a rule body
// ---------------------------------------------------------------------

/// The end of a property name from `i`: the first `:`, `;` or `}`
/// outside comments, or the end of the text.
pub open spec fn prop_end(b: Seq<char>, i: int) -> int
    decreases b.len() - i,
{
    if !(0 <= i < b.len()) || b[i] == ':' || b[i] == ';' || b[i] == '}' {
        i
    } else if comment_start(b, i) {
        proof {
            lemma_comment_end_bounds(b, i + 2);
        }
        prop_end(b, comment_end(b, i + 2))
    } else {
        prop_end(b, i + 1)
    }
}

/// The end of a declaration's value from `i`: the first `;` or `}` at
/// parenthesis depth zero (escapes and strings stepped over), or the
/// end of the text.
pub open spec fn value_end(b: Seq<char>, i: int, dp: int) -> int
    decreases b.len() - i,
{
    if !(0 <= i < b.len()) {
        b.len() as int
    } else if b[i] == '\\' && i + 1 < b.len() {
        value_end(b, i + 2, dp)
    } else if is_quote(b[i]) {
        proof {
            lemma_quote_end_bounds(b, i + 1, b[i]);
        }
        value_end(b, quote_end(b, i + 1, b[i]), dp)
    } else if b[i] == '(' {
        value_end(b, i + 1, dp + 1)
    } else if b[i] == ')' {
        value_end(b, i + 1, dp - 1)
    } else if (b[i] == ';' || b[i] == '}') && dp == 0 {
        i
    } else {
        value_end(b, i + 1, dp)
    }
}

pub proof fn lemma_prop_end_bounds(b: Seq<char>, i: int)
    requires
        0 <= i <= b.len(),
    ensures
        i <= prop_end(b, i) <= b.len(),
    decreases b.len() - i,
{
    if i < b.len() && !(b[i] == ':' || b[i] == ';' || b[i] == '}') {
        if comment_start(b, i) {
            lemma_comment_end_bounds(b, i + 2);
            lemma_prop_end_bounds(b, comment_end(b, i + 2));
        } else {
            lemma_prop_end_bounds(b, i + 1);
        }
    }
}

pub proof fn lemma_value_end_bounds(b: Seq<char>, i: int, dp: int)
    requires
        0 <= i <= b.len(),
    ensures
        i <= value_end(b, i, dp) <= b.len(),
    decreases b.len() - i,
{
    if i < b.len() {
        if b[i] == '\\' && i + 1 < b.len() {
            lemma_value_end_bounds(b, i + 2, dp);
        } else if is_quote(b[i]) {
            lemma_quote_end_bounds(b, i + 1, b[i]);
            lemma_value_end_bounds(b, quote_end(b, i + 1, b[i]), dp);
        } else if b[i] == '(' {
            lemma_value_end_bounds(b, i + 1, dp + 1);
        } else if b[i] == ')' {
            lemma_value_end_bounds(b, i + 1, dp - 1);
        } else if !((b[i] == ';' || b[i] == '}') && dp == 0) {
            lemma_value_end_bounds(b, i + 1, dp);
        }
    }
}

/// How a declaration is written back: `<prop>: <value>;`.
pub open spec fn decl_text(prop: Seq<char>, value: Seq<char>) -> Seq<char> {
    prop + seq![':', ' '] + value + seq![';']
}

/// The declarations of a rule body from `i` on, each as (property,
/// value, text). Comments and stray text are kept with an empty
/// property; a value ends at its `;` or at a `}`.
pub open spec fn decl_scan(b: Seq<char>, i: int) -> Seq<(Seq<char>, Seq<char>, Seq<char>)>
    decreases b.len() + 1 - i,
{
    if !(0 <= i <= b.len()) {
        Seq::empty()
    } else {
        proof {
            lemma_ws_end_bounds(b, i);
        }
        let i0 = ws_end(b, i);
        if i0 >= b.len() {
            Seq::empty()
        } else if comment_start(b, i0) {
            proof {
                lemma_comment_end_bounds(b, i0 + 2);
            }
            let e = comment_end(b, i0 + 2);
            seq![(Seq::empty(), Seq::empty(), b.subrange(i0, e))] + decl_scan(b, e)
        } else {
            proof {
                lemma_prop_end_bounds(b, i0);
            }
            let p = prop_end(b, i0);
            if p >= b.len() || b[p] != ':' {
                let stray = if i0 < p {
                    seq![(Seq::empty(), Seq::empty(), b.subrange(i0, p))]
                } else {
                    Seq::empty()
                };
                if p < b.len() {
                    stray + seq![(Seq::empty(), Seq::empty(), b.subrange(p, p + 1))]
                        + decl_scan(b, p + 1)
                } else {
                    stray
                }
            } else {
                proof {
                    lemma_value_end_bounds(b, p + 1, 0);
                }
                let v = value_end(b, p + 1, 0);
                let prop = trim_spec(b.subrange(i0, p));
                let value = trim_spec(b.subrange(p + 1, v));
                let next = if v < b.len() && b[v] == ';' {
                    v + 1
                } else {
                    v
                };
                seq![(prop, value, decl_text(prop, value))] + decl_scan(b, next)
            }
        }
    }
}

pub open spec fn digits_end(s: Seq<char>, i: int) -> int
    decreases s.len() - i,
{
    if 0 <= i < s.len() && is_digit(s[i]) {
        digits_end(s, i + 1)
    } else {
        i
    }
}

pub open spec fn unit_end(s: Seq<char>, i: int) -> int
    decreases s.len() - i,
{
    if 0 <= i < s.len() && (ascii_alnum(s[i]) || s[i] == '%') {
        unit_end(s, i + 1)
    } else {
        i
    }
}

/// The unit of a numeric value: an optional `-`, digits with an
/// optional `.` and fraction digits (at least one character of them),
/// then a run of ASCII letters, digits or `%` reaching the end, which is
/// the unit (empty for a bare number). `None` for anything else.
pub open spec fn resolve_unit_spec(s: Seq<char>) -> Option<Seq<char>> {
    let i0: int = if s.len() > 0 && s[0] == '-' {
        1
    } else {
        0
    };
    let d = digits_end(s, i0);
    let f = if d < s.len() && s[d] == '.' {
        digits_end(s, d + 1)
    } else {
        d
    };
    if f == i0 || unit_end(s, f) != s.len() {
        None
    } else {
        Some(s.skip(f))
    }
}

/// A declaration survives the first pass unless a later one has the
/// same property and value.
pub open spec fn keep_first(d: Seq<(Seq<char>, Seq<char>, Seq<char>)>, k: int) -> bool {
    d[k].0.len() == 0 || !(exists|m: int|
        #![trigger d[m]]
        k < m < d.len() && d[m].0 == d[k].0 && d[m].1 == d[k].1)
}

/// A declaration is kept unless a later one has the same property and
/// value, or a later one that survives the first pass has the same
/// property and a value with the same unit.
pub open spec fn keep_decl(d: Seq<(Seq<char>, Seq<char>, Seq<char>)>, k: int) -> bool {
    &&& keep_first(d, k)
    &&& !(d[k].0.len() > 0 && resolve_unit_spec(d[k].1) is Some && exists|m: int|
        #![trigger d[m]]
        k < m < d.len() && keep_first(d, m) && d[m].0 == d[k].0 && resolve_unit_spec(d[m].1)
            == resolve_unit_spec(d[k].1))
}

/// The texts of the kept declarations among the first `n`.
pub open spec fn kept_texts(d: Seq<(Seq<char>, Seq<char>, Seq<char>)>, n: int) -> Seq<Seq<char>>
    decreases n,
{
    if n <= 0 {
        Seq::empty()
    } else if keep_decl(d, n - 1) {
        kept_texts(d, n - 1).push(d[n - 1].2)
    } else {
        kept_texts(d, n - 1)
    }
}

/// `acc` followed by `r`, with a space between them unless `acc` is
/// empty or already ends in a space or a newline.
pub open spec fn space_join(acc: Seq<char>, r: Seq<char>) -> Seq<char> {
    if acc.len() > 0 && acc.last() != ' ' && acc.last() != '\n' {
        acc + seq![' '] + r
    } else {
        acc + r
    }
}

pub open spec fn join_texts(rs: Seq<Seq<char>>) -> Seq<char>
    decreases rs.len(),
{
    if rs.len() == 0 {
        Seq::empty()
    } else {
        space_join(join_texts(rs.drop_last()), rs.last())
    }
}

/// A rule body with its duplicate declarations collapsed.
pub open spec fn collapse_spec(body: Seq<char>) -> Seq<char> {
    let d = decl_scan(body, 0);
    join_texts(kept_texts(d, d.len() as int))
}


// ---------------------------------------------------------------------
// Declarations, executable
// ---------------------------------------------------------------------

pub open spec fn decl_views(v: Seq<(Vec<char>, Vec<char>, Vec<char>)>) -> Seq<
    (Seq<char>, Seq<char>, Seq<char>),
> {
    Seq::new(v.len(), |k: int| (v[k].0@, v[k].1@, v[k].2@))
}

proof fn lemma_decl_views_push(
    v: Seq<(Vec<char>, Vec<char>, Vec<char>)>,
    x: (Vec<char>, Vec<char>, Vec<char>),
)
    ensures
        decl_views(v.push(x)) == decl_views(v).push((x.0@, x.1@, x.2@)),
{
    assert(decl_views(v.push(x)) =~= decl_views(v).push((x.0@, x.1@, x.2@)));
}

fn prop_end_at(b: &Vec<char>, from: usize) -> (r: usize)
    requires
        from <= b.len(),
    ensures
        r == prop_end(b@, from as int),
        from <= r <= b@.len(),
{
    proof {
        lemma_prop_end_bounds(b@, from as int);
    }
    let mut i = from;
    while i < b.len() && b[i] != ':' && b[i] != ';' && b[i] != '}'
        invariant
            from <= i <= b@.len(),
            prop_end(b@, i as int) == prop_end(b@, from as int),
        decreases b@.len() - i,
    {
        if is_comment_start(b, i) {
            proof {
                lemma_comment_end_bounds(b@, i + 2);
            }
            i = find_comment_end(b, i + 2);
        } else {
            i += 1;
        }
    }
    i
}

fn value_end_at(b: &Vec<char>, from: usize) -> (r: usize)
    requires
        from <= b.len(),
    ensures
        r == value_end(b@, from as int, 0),
        from <= r <= b@.len(),
{
    proof {
        lemma_value_end_bounds(b@, from as int, 0);
    }
    let mut i = from;
    let mut po: usize = 0;
    let mut pc: usize = 0;
    while i < b.len()
        invariant
            from <= i <= b@.len(),
            po <= i,
            pc <= i,
            value_end(b@, i as int, po - pc) == value_end(b@, from as int, 0),
        decreases b@.len() - i,
    {
        let c = b[i];
        if c == '\\' && i + 1 < b.len() {
            i += 2;
        } else if c == '"' || c == '\'' {
            i = find_string_end(b, i);
        } else if c == '(' {
            po += 1;
            i += 1;
        } else if c == ')' {
            pc += 1;
            i += 1;
        } else if (c == ';' || c == '}') && po == pc {
            return i;
        } else {
            i += 1;
        }
    }
    i
}

/// The declarations of a rule body, read as `decl_scan` says.
fn scan_decls(b: &Vec<char>) -> (r: Vec<(Vec<char>, Vec<char>, Vec<char>)>)
    ensures
        decl_views(r@) == decl_scan(b@, 0),
{
    let mut r: Vec<(Vec<char>, Vec<char>, Vec<char>)> = Vec::new();
    let mut i: usize = 0;
    loop
        invariant_except_break
            i <= b@.len(),
            decl_views(r@) + decl_scan(b@, i as int) == decl_scan(b@, 0),
        ensures
            decl_views(r@) == decl_scan(b@, 0),
        decreases b@.len() + 1 - i,
    {
        let ghost done = decl_views(r@);
        let i0 = ws_end_at(b, i);
        if i0 >= b.len() {
            proof {
                assert(decl_views(r@) + Seq::empty() =~= decl_views(r@));
            }
            break;
        }
        if is_comment_start(b, i0) {
            proof {
                lemma_comment_end_bounds(b@, i0 + 2);
            }
            let e = find_comment_end(b, i0 + 2);
            let x = (Vec::new(), Vec::new(), sub_chars(b, i0, e));
            proof {
                lemma_decl_views_push(r@, x);
                assert(x.0@ =~= Seq::<char>::empty() && x.1@ =~= Seq::<char>::empty());
                assert(done + (seq![(x.0@, x.1@, x.2@)] + decl_scan(b@, e as int)) =~= done.push(
                    (x.0@, x.1@, x.2@),
                ) + decl_scan(b@, e as int));
            }
            r.push(x);
            i = e;
        } else {
            let p = prop_end_at(b, i0);
            if p >= b.len() || b[p] != ':' {
                let ghost stray: Seq<(Seq<char>, Seq<char>, Seq<char>)> = if i0 < p {
                    seq![(Seq::empty(), Seq::empty(), b@.subrange(i0 as int, p as int))]
                } else {
                    Seq::empty()
                };
                if i0 < p {
                    let x = (Vec::new(), Vec::new(), sub_chars(b, i0, p));
                    proof {
                        lemma_decl_views_push(r@, x);
                        assert(x.0@ =~= Seq::<char>::empty() && x.1@ =~= Seq::<char>::empty());
                    }
                    r.push(x);
                }
                assert(decl_views(r@) == done + stray);
                if p < b.len() {
                    let y = (Vec::new(), Vec::new(), sub_chars(b, p, p + 1));
                    proof {
                        lemma_decl_views_push(r@, y);
                        assert(y.0@ =~= Seq::<char>::empty() && y.1@ =~= Seq::<char>::empty());
                        assert(done + (stray + seq![(y.0@, y.1@, y.2@)] + decl_scan(
                            b@,
                            p + 1,
                        )) =~= (done + stray).push((y.0@, y.1@, y.2@)) + decl_scan(b@, p + 1));
                    }
                    r.push(y);
                    i = p + 1;
                } else {
                    proof {
                        assert(done + stray =~= decl_scan(b@, 0));
                    }
                    break;
                }
            } else {
                let v = value_end_at(b, p + 1);
                let prop = trim_chars(&sub_chars(b, i0, p));
                let value = trim_chars(&sub_chars(b, p + 1, v));
                let mut raw: Vec<char> = Vec::new();
                extend_chars(&mut raw, &prop);
                raw.push(':');
                raw.push(' ');
                extend_chars(&mut raw, &value);
                raw.push(';');
                let next = if v < b.len() && b[v] == ';' {
                    v + 1
                } else {
                    v
                };
                let x = (prop, value, raw);
                proof {
                    lemma_decl_views_push(r@, x);
                    assert(x.2@ =~= decl_text(x.0@, x.1@));
                    assert(done + (seq![(x.0@, x.1@, x.2@)] + decl_scan(b@, next as int))
                        =~= done.push((x.0@, x.1@, x.2@)) + decl_scan(b@, next as int));
                }
                r.push(x);
                i = next;
            }
        }
    }
    r
}


fn digits_end_at(s: &Vec<char>, from: usize) -> (r: usize)
    requires
        from <= s.len(),
    ensures
        r == digits_end(s@, from as int),
        from <= r <= s@.len(),
{
    let mut i = from;
    while i < s.len() && '0' <= s[i] && s[i] <= '9'
        invariant
            from <= i <= s@.len(),
            digits_end(s@, i as int) == digits_end(s@, from as int),
        decreases s@.len() - i,
    {
        i += 1;
    }
    i
}

fn unit_chars(s: &Vec<char>) -> (r: Option<Vec<char>>)
    ensures
        opt_view(r) == resolve_unit_spec(s@),
{
    let i0: usize = if s.len() > 0 && s[0] == '-' {
        1
    } else {
        0
    };
    let d = digits_end_at(s, i0);
    let f = if d < s.len() && s[d] == '.' {
        digits_end_at(s, d + 1)
    } else {
        d
    };
    if f == i0 {
        return None;
    }
    let mut u = f;
    while u < s.len() && (is_ascii_alnum(s[u]) || s[u] == '%')
        invariant
            f <= u <= s@.len(),
            unit_end(s@, u as int) == unit_end(s@, f as int),
        decreases s@.len() - u,
    {
        u += 1;
    }
    if u != s.len() {
        None
    } else {
        let r = sub_chars(s, f, s.len());
        proof {
            assert(r@ =~= s@.skip(f as int));
        }
        Some(r)
    }
}

pub open spec fn opt_view(o: Option<Vec<char>>) -> Option<Seq<char>> {
    match o {
        Some(v) => Some(v@),
        None => None,
    }
}

/// The unit of a numeric value (`resolve_unit_spec`): `px` for `10px`,
/// the empty string for `1.5`, `None` for `var(--x)`.
pub fn resolve_unit(input: &str) -> (r: Option<String>)
    ensures
        match r {
            Some(u) => resolve_unit_spec(input@) == Some(u@),
            None => resolve_unit_spec(input@) is None,
        },
{
    match unit_chars(&chars_of(input)) {
        Some(u) => Some(string_from_chars(&u)),
        None => None,
    }
}

fn opt_chars_eq(a: &Option<Vec<char>>, b: &Option<Vec<char>>) -> (r: bool)
    ensures
        r == (opt_view(*a) == opt_view(*b)),
{
    match (a, b) {
        (Some(x), Some(y)) => chars_eq(x, y),
        (None, None) => true,
        _ => false,
    }
}

/// Whether a later declaration has the same property and value as the
/// `k`-th.
fn has_later_same(d: &Vec<(Vec<char>, Vec<char>, Vec<char>)>, k: usize) -> (r: bool)
    requires
        k < d.len(),
    ensures
        r == (exists|m: int|
            #![trigger decl_views(d@)[m]]
            k < m < d@.len() && decl_views(d@)[m].0 == decl_views(d@)[k as int].0
                && decl_views(d@)[m].1 == decl_views(d@)[k as int].1),
{
    let ghost dv = decl_views(d@);
    let mut m = k + 1;
    while m < d.len()
        invariant
            k < m <= d@.len(),
            dv == decl_views(d@),
            forall|j: int|
                #![trigger dv[j]]
                k < j < m ==> !(dv[j].0 == dv[k as int].0 && dv[j].1 == dv[k as int].1),
        decreases d@.len() - m,
    {
        if chars_eq(&d[m].0, &d[k].0) && chars_eq(&d[m].1, &d[k].1) {
            assert(dv[m as int].0 == dv[k as int].0 && dv[m as int].1 == dv[k as int].1);
            return true;
        }
        assert(!(dv[m as int].0 == dv[k as int].0 && dv[m as int].1 == dv[k as int].1));
        m += 1;
    }
    false
}

/// Whether a later declaration that survives the first pass has the
/// same property as the `k`-th and a value with the same unit.
fn has_later_same_unit(
    d: &Vec<(Vec<char>, Vec<char>, Vec<char>)>,
    first: &Vec<bool>,
    units: &Vec<Option<Vec<char>>>,
    k: usize,
) -> (r: bool)
    requires
        k < d.len(),
        first@.len() == d@.len(),
        units@.len() == d@.len(),
        forall|j: int| 0 <= j < d@.len() ==> #[trigger] first@[j] == keep_first(decl_views(d@), j),
        forall|j: int|
            0 <= j < d@.len() ==> #[trigger] opt_view(units@[j]) == resolve_unit_spec(
                decl_views(d@)[j].1,
            ),
    ensures
        r == (exists|m: int|
            #![trigger decl_views(d@)[m]]
            k < m < d@.len() && keep_first(decl_views(d@), m) && decl_views(d@)[m].0
                == decl_views(d@)[k as int].0 && resolve_unit_spec(decl_views(d@)[m].1)
                == resolve_unit_spec(decl_views(d@)[k as int].1)),
{
    let ghost dv = decl_views(d@);
    let mut m = k + 1;
    while m < d.len()
        invariant
            k < m <= d@.len(),
            dv == decl_views(d@),
            first@.len() == d@.len(),
            units@.len() == d@.len(),
            forall|j: int| 0 <= j < d@.len() ==> #[trigger] first@[j] == keep_first(dv, j),
            forall|j: int|
                0 <= j < d@.len() ==> #[trigger] opt_view(units@[j]) == resolve_unit_spec(
                    dv[j].1,
                ),
            forall|j: int|
                #![trigger dv[j]]
                k < j < m ==> !(keep_first(dv, j) && dv[j].0 == dv[k as int].0
                    && resolve_unit_spec(dv[j].1) == resolve_unit_spec(dv[k as int].1)),
        decreases d@.len() - m,
    {
        let hit = first[m] && chars_eq(&d[m].0, &d[k].0) && opt_chars_eq(&units[m], &units[k]);
        assert(first@[m as int] == keep_first(dv, m as int));
        assert(opt_view(units@[m as int]) == resolve_unit_spec(dv[m as int].1));
        assert(opt_view(units@[k as int]) == resolve_unit_spec(dv[k as int].1));
        if hit {
            assert(keep_first(dv, m as int) && dv[m as int].0 == dv[k as int].0
                && resolve_unit_spec(dv[m as int].1) == resolve_unit_spec(dv[k as int].1));
            return true;
        }
        m += 1;
    }
    false
}

proof fn lemma_join_step(d: Seq<(Seq<char>, Seq<char>, Seq<char>)>, k: int)
    requires
        0 <= k,
    ensures
        kept_texts(d, k + 1) == (if keep_decl(d, k) {
            kept_texts(d, k).push(d[k].2)
        } else {
            kept_texts(d, k)
        }),
{
}

/// A rule body with duplicate declarations collapsed: of declarations
/// with the same property and value only the last stays; of those left
/// with the same property and a value of the same unit only the last
/// stays; the rest, comments and stray text included, are written back
/// in order, separated by single spaces.
pub fn collapse_duplicate_decls(body: &str) -> (r: String)
    ensures
        r@ == collapse_spec(body@),
{
    string_from_chars(&collapse_chars(&chars_of(body)))
}

fn collapse_chars(b: &Vec<char>) -> (r: Vec<char>)
    ensures
        r@ == collapse_spec(b@),
{
    let d = scan_decls(b);
    let ghost dv = decl_views(d@);
    let n = d.len();
    let mut first: Vec<bool> = Vec::new();
    let mut units: Vec<Option<Vec<char>>> = Vec::new();
    let mut k: usize = 0;
    while k < n
        invariant
            n == d@.len(),
            k <= n,
            dv == decl_views(d@),
            first@.len() == k,
            units@.len() == k,
            forall|j: int| 0 <= j < k ==> #[trigger] first@[j] == keep_first(dv, j),
            forall|j: int|
                0 <= j < k ==> #[trigger] opt_view(units@[j]) == resolve_unit_spec(dv[j].1),
        decreases n - k,
    {
        let f = d[k].0.len() == 0 || !has_later_same(&d, k);
        assert(dv[k as int].0 == d@[k as int].0@);
        first.push(f);
        units.push(unit_chars(&d[k].1));
        k += 1;
    }
    let mut out: Vec<char> = Vec::new();
    let mut k: usize = 0;
    while k < n
        invariant
            n == d@.len(),
            k <= n,
            dv == decl_views(d@),
            first@.len() == n,
            units@.len() == n,
            forall|j: int| 0 <= j < n ==> #[trigger] first@[j] == keep_first(dv, j),
            forall|j: int|
                0 <= j < n ==> #[trigger] opt_view(units@[j]) == resolve_unit_spec(dv[j].1),
            out@ == join_texts(kept_texts(dv, k as int)),
        decreases n - k,
    {
        assert(first@[k as int] == keep_first(dv, k as int));
        assert(opt_view(units@[k as int]) == resolve_unit_spec(dv[k as int].1));
        assert(dv[k as int].0 == d@[k as int].0@);
        let keep = first[k] && (d[k].0.len() == 0 || units[k].is_none() || !has_later_same_unit(
            &d,
            &first,
            &units,
            k,
        ));
        proof {
            lemma_join_step(dv, k as int);
        }
        if keep {
            let ghost before = out@;
            if out.len() > 0 && out[out.len() - 1] != ' ' && out[out.len() - 1] != '\n' {
                out.push(' ');
            }
            extend_chars(&mut out, &d[k].2);
            proof {
                let t = kept_texts(dv, k as int).push(dv[k as int].2);
                assert(t.drop_last() =~= kept_texts(dv, k as int));
                assert(out@ =~= space_join(before, dv[k as int].2));
            }
        }
        k += 1;
    }
    out
}


// ---------------------------------------------------------------------
// Keys under which adjacent items merge
// ---------------------------------------------------------------------

/// The words of `s[i..]` (runs of non-whitespace) joined by single
/// spaces; `emitted` says whether a word came before `i`, `owed`
/// whether whitespace followed it.
pub open spec fn squash_from(s: Seq<char>, i: int, emitted: bool, owed: bool) -> Seq<char>
    decreases s.len() - i,
{
    if !(0 <= i < s.len()) {
        Seq::empty()
    } else if unicode_ws(s[i]) {
        squash_from(s, i + 1, emitted, emitted)
    } else {
        (if owed {
            seq![' ', s[i]]
        } else {
            seq![s[i]]
        }) + squash_from(s, i + 1, true, false)
    }
}

/// The words of `s` joined by single spaces.
pub open spec fn squash_ws(s: Seq<char>) -> Seq<char> {
    squash_from(s, 0, false, false)
}

/// `s` without the `;` at its end, however many there are.
pub open spec fn strip_semis(s: Seq<char>) -> Seq<char>
    decreases s.len(),
{
    if s.len() > 0 && s.last() == ';' {
        strip_semis(s.drop_last())
    } else {
        s
    }
}

/// The identity of a simple at-rule: its text trimmed, without its
/// trailing `;`, words joined by single spaces.
pub open spec fn simple_key(t: Seq<char>) -> Seq<char> {
    squash_ws(strip_semis(trim_spec(t)))
}

fn squash_chars(s: &Vec<char>) -> (r: Vec<char>)
    ensures
        r@ == squash_ws(s@),
{
    let mut r: Vec<char> = Vec::new();
    let mut emitted = false;
    let mut owed = false;
    let mut i: usize = 0;
    while i < s.len()
        invariant
            i <= s@.len(),
            r@ + squash_from(s@, i as int, emitted, owed) == squash_ws(s@),
        decreases s@.len() - i,
    {
        let ghost before = r@;
        let c = s[i];
        if is_unicode_ws(c) {
            owed = emitted;
        } else {
            if owed {
                r.push(' ');
            }
            r.push(c);
            proof {
                let piece = if owed {
                    seq![' ', c]
                } else {
                    seq![c]
                };
                assert(r@ =~= before + piece);
                assert(before + (piece + squash_from(s@, i + 1, true, false)) =~= (before + piece)
                    + squash_from(s@, i + 1, true, false));
            }
            emitted = true;
            owed = false;
        }
        i += 1;
    }
    proof {
        assert(r@ + Seq::<char>::empty() =~= r@);
    }
    r
}

/// The words of a selector joined by single spaces.
pub fn normalize_selector_key(selector: &str) -> (r: String)
    ensures
        r@ == squash_ws(selector@),
{
    string_from_chars(&squash_chars(&chars_of(selector)))
}

/// The words of at-rule parameters joined by single spaces.
pub fn normalize_at_params(params: &str) -> (r: String)
    ensures
        r@ == squash_ws(params@),
{
    string_from_chars(&squash_chars(&chars_of(params)))
}

fn simple_key_chars(t: &Vec<char>) -> (r: Vec<char>)
    ensures
        r@ == simple_key(t@),
{
    let tr = trim_chars(t);
    let mut n = tr.len();
    proof {
        assert(tr@.take(n as int) =~= tr@);
    }
    while n > 0 && tr[n - 1] == ';'
        invariant
            n <= tr@.len(),
            strip_semis(tr@.take(n as int)) == strip_semis(tr@),
        decreases n,
    {
        proof {
            assert(tr@.take(n as int).drop_last() =~= tr@.take(n - 1));
        }
        n -= 1;
    }
    let stripped = sub_chars(&tr, 0, n);
    proof {
        assert(stripped@ =~= tr@.take(n as int));
        if n > 0 {
            assert(stripped@.last() != ';');
        }
        assert(strip_semis(stripped@) == stripped@);
    }
    squash_chars(&stripped)
}

/// The identity of a simple at-rule (`simple_key`).
pub fn normalize_at_simple_key(text: &str) -> (r: String)
    ensures
        r@ == simple_key(text@),
{
    string_from_chars(&simple_key_chars(&chars_of(text)))
}


// ---------------------------------------------------------------------
// Writing the items back, adjacent ones merged
// ---------------------------------------------------------------------

pub open spec fn item_size(x: ItemModel) -> nat
    decreases x,
{
    match x {
        ItemModel::AtBlock(_, _, inner) => 1 + items_size(inner),
        _ => 1,
    }
}

/// The number of items, nested ones included.
pub open spec fn items_size(v: Seq<ItemModel>) -> nat
    decreases v,
{
    if v.len() == 0 {
        0
    } else {
        item_size(v[0]) + items_size(v.subrange(1, v.len() as int))
    }
}

pub proof fn lemma_size_concat(a: Seq<ItemModel>, b: Seq<ItemModel>)
    ensures
        items_size(a + b) == items_size(a) + items_size(b),
    decreases a.len(),
{
    if a.len() > 0 {
        assert((a + b).subrange(1, (a + b).len() as int) =~= a.subrange(1, a.len() as int) + b);
        lemma_size_concat(a.subrange(1, a.len() as int), b);
    } else {
        assert(a + b =~= b);
    }
}

pub proof fn lemma_size_skip(v: Seq<ItemModel>, i: int)
    requires
        0 <= i < v.len(),
    ensures
        items_size(v.skip(i)) == item_size(v[i]) + items_size(v.skip(i + 1)),
{
    let w = v.skip(i);
    assert(w.subrange(1, w.len() as int) =~= v.skip(i + 1));
}

pub proof fn lemma_size_skip_mono(v: Seq<ItemModel>, a: int, b: int)
    requires
        0 <= a <= b <= v.len(),
    ensures
        items_size(v.skip(b)) <= items_size(v.skip(a)),
    decreases b - a,
{
    if a < b {
        lemma_size_skip(v, a);
        lemma_size_skip_mono(v, a + 1, b);
    }
}

/// What a run of adjacent items must match to merge with the item that
/// starts it.
pub enum RunKind {
    /// Simple at-rules with this key (`simple_key`).
    Simple(Seq<char>),
    /// Rules whose selector has these words.
    Rule(Seq<char>),
    /// At-rule blocks with this name and these parameter words.
    Block(Seq<char>, Seq<char>),
}

/// Whitespace only.
pub open spec fn is_blank(x: ItemModel) -> bool {
    match x {
        ItemModel::Other(s) => trim_spec(s).len() == 0,
        _ => false,
    }
}

/// Whether an item continues a run: whitespace always does; otherwise
/// an item of the run's kind whose key matches.
pub open spec fn joins(x: ItemModel, k: RunKind) -> bool {
    is_blank(x) || match (x, k) {
        (ItemModel::AtSimple(t), RunKind::Simple(key)) => simple_key(t) == key,
        (ItemModel::Rule(sel, _), RunKind::Rule(key)) => squash_ws(sel) == key,
        (ItemModel::AtBlock(n, p, _), RunKind::Block(name, key)) => n == name && squash_ws(p)
            == key,
        _ => false,
    }
}

/// The end of the run of items joining from `j`.
pub open spec fn run_end(v: Seq<ItemModel>, j: int, k: RunKind) -> int
    decreases v.len() - j,
{
    if 0 <= j < v.len() && joins(v[j], k) {
        run_end(v, j + 1, k)
    } else {
        j
    }
}

pub proof fn lemma_run_end_bounds(v: Seq<ItemModel>, j: int, k: RunKind)
    requires
        0 <= j <= v.len(),
    ensures
        j <= run_end(v, j, k) <= v.len(),
    decreases v.len() - j,
{
    if j < v.len() && joins(v[j], k) {
        lemma_run_end_bounds(v, j + 1, k);
    }
}

/// A rule body `b2` appended to the bodies merged so far: a `;` first
/// when they do not end in one and are not blank, then a space.
pub open spec fn add_body(acc: Seq<char>, b2: Seq<char>) -> Seq<char> {
    let te = trim_end_spec(acc);
    (if !(te.len() > 0 && te.last() == ';') && trim_spec(acc).len() > 0 {
        acc.push(';')
    } else {
        acc
    }) + seq![' '] + b2
}

/// `acc` with the bodies of the rules among `v[a..b]` appended.
pub open spec fn merged_body(v: Seq<ItemModel>, a: int, b: int, acc: Seq<char>) -> Seq<char>
    decreases b - a,
{
    if b <= a {
        acc
    } else {
        let m = merged_body(v, a, b - 1, acc);
        match v[b - 1] {
            ItemModel::Rule(_, b2) => add_body(m, b2),
            _ => m,
        }
    }
}

/// The items inside the at-rule blocks among `v[a..b]`, in order.
pub open spec fn merged_inner(v: Seq<ItemModel>, a: int, b: int) -> Seq<ItemModel>
    decreases b - a,
{
    if b <= a {
        Seq::empty()
    } else {
        merged_inner(v, a, b - 1) + match v[b - 1] {
            ItemModel::AtBlock(_, _, inner) => inner,
            _ => Seq::empty(),
        }
    }
}

pub proof fn lemma_merged_inner_size(v: Seq<ItemModel>, a: int, b: int)
    requires
        0 <= a <= b <= v.len(),
    ensures
        items_size(merged_inner(v, a, b)) + items_size(v.skip(b)) <= items_size(v.skip(a)),
    decreases b - a,
{
    if a < b {
        lemma_merged_inner_size(v, a, b - 1);
        lemma_size_skip(v, b - 1);
        let part = match v[b - 1] {
            ItemModel::AtBlock(_, _, inner) => inner,
            _ => Seq::empty(),
        };
        lemma_size_concat(merged_inner(v, a, b - 1), part);
    }
}

/// `@font-face` and keyframes blocks are written back as they are,
/// never merged with their neighbours.
pub open spec fn keeps_apart(name: Seq<char>) -> bool {
    name == "font-face"@ || name == "keyframes"@ || name == "-webkit-keyframes"@
}

/// `@<name> <params> { ` (no space and no parameters when they are empty).
pub open spec fn block_head(name: Seq<char>, params: Seq<char>) -> Seq<char> {
    seq!['@'] + name + (if params.len() > 0 {
        seq![' '] + params
    } else {
        Seq::empty()
    }) + seq![' ', '{', ' ']
}

/// The stylesheet text of the items from `v[i]` on. Whitespace and
/// comments are written as they are. A simple at-rule is written once
/// for a run of identical neighbours. A rule absorbs the following rules
/// with the same selector words, its body and theirs joined and their
/// duplicate declarations collapsed: `<sel> { <body> }` and a newline.
/// An at-rule block absorbs the following blocks with the same name and
/// parameter words, and its items and theirs are written the same way
/// inside `@<name> <params> { ... }`; `@font-face` and keyframes blocks
/// absorb nothing. Whitespace between merged items is dropped, and so is
/// whitespace after them.
pub open spec fn emit_from(v: Seq<ItemModel>, i: int) -> Seq<char>
    decreases items_size(v.skip(i)),
{
    if !(0 <= i < v.len()) {
        Seq::empty()
    } else {
        proof {
            lemma_size_skip(v, i);
        }
        match v[i] {
            ItemModel::Other(s) => s + emit_from(v, i + 1),
            ItemModel::Comment(s) => s + emit_from(v, i + 1),
            ItemModel::AtSimple(t) => {
                let k = RunKind::Simple(simple_key(t));
                proof {
                    lemma_run_end_bounds(v, i + 1, k);
                    lemma_size_skip_mono(v, i + 1, run_end(v, i + 1, k));
                }
                t + emit_from(v, run_end(v, i + 1, k))
            },
            ItemModel::Rule(sel, body) => {
                let k = RunKind::Rule(squash_ws(sel));
                proof {
                    lemma_run_end_bounds(v, i + 1, k);
                    lemma_size_skip_mono(v, i + 1, run_end(v, i + 1, k));
                }
                let e = run_end(v, i + 1, k);
                sel + seq![' ', '{', ' '] + collapse_spec(merged_body(v, i + 1, e, body)) + seq![
                    ' ',
                    '}',
                    '\n',
                ] + emit_from(v, e)
            },
            ItemModel::AtBlock(name, params, inner) => {
                if keeps_apart(name) {
                    proof {
                        assert(inner.skip(0) =~= inner);
                    }
                    block_head(name, params) + emit_from(inner, 0) + seq![' ', '}', '\n']
                        + emit_from(v, i + 1)
                } else {
                    let k = RunKind::Block(name, squash_ws(params));
                    proof {
                        lemma_run_end_bounds(v, i + 1, k);
                        lemma_size_skip_mono(v, i + 1, run_end(v, i + 1, k));
                    }
                    let e = run_end(v, i + 1, k);
                    let comb = inner + merged_inner(v, i + 1, e);
                    proof {
                        lemma_merged_inner_size(v, i + 1, e);
                        lemma_size_concat(inner, merged_inner(v, i + 1, e));
                        assert(comb.skip(0) =~= comb);
                    }
                    block_head(name, params) + emit_from(comb, 0) + seq![' ', '}', '\n']
                        + emit_from(v, e)
                }
            },
        }
    }
}


// ---------------------------------------------------------------------
// Writing back, executable
// ---------------------------------------------------------------------

/// A run key as the executable code holds it.
enum RunKey {
    Simple(Vec<char>),
    Rule(Vec<char>),
    Block(Vec<char>, Vec<char>),
}

spec fn key_view(k: RunKey) -> RunKind {
    match k {
        RunKey::Simple(s) => RunKind::Simple(s@),
        RunKey::Rule(s) => RunKind::Rule(s@),
        RunKey::Block(n, p) => RunKind::Block(n@, p@),
    }
}

fn str_chars(s: &String) -> (r: Vec<char>)
    ensures
        r@ == s@,
{
    chars_of(s.as_str())
}

fn blank_item(x: &CssItem) -> (r: bool)
    ensures
        r == is_blank(item_view(*x)),
{
    match x {
        CssItem::Other(s) => trim_chars(&str_chars(s)).len() == 0,
        _ => false,
    }
}

fn item_joins(x: &CssItem, k: &RunKey) -> (r: bool)
    ensures
        r == joins(item_view(*x), key_view(*k)),
{
    if blank_item(x) {
        return true;
    }
    match (x, k) {
        (CssItem::AtSimple { text }, RunKey::Simple(key)) => chars_eq(
            &simple_key_chars(&str_chars(text)),
            key,
        ),
        (CssItem::Rule { selector, .. }, RunKey::Rule(key)) => chars_eq(
            &squash_chars(&str_chars(selector)),
            key,
        ),
        (CssItem::AtBlock { name, params, .. }, RunKey::Block(n, key)) => chars_eq(
            &str_chars(name),
            n,
        ) && chars_eq(&squash_chars(&str_chars(params)), key),
        _ => false,
    }
}

fn run_end_at(items: &[CssItem], from: usize, k: &RunKey) -> (r: usize)
    requires
        from <= items@.len(),
    ensures
        r == run_end(items_view(items@), from as int, key_view(*k)),
        from <= r <= items@.len(),
{
    let ghost v = items_view(items@);
    proof {
        lemma_items_view(items@);
        lemma_run_end_bounds(v, from as int, key_view(*k));
    }
    let mut j = from;
    while j < items.len() && item_joins(&items[j], k)
        invariant
            from <= j <= items@.len(),
            v == items_view(items@),
            v.len() == items@.len(),
            forall|t: int| 0 <= t < items@.len() ==> #[trigger] v[t] == item_view(items@[t]),
            run_end(v, j as int, key_view(*k)) == run_end(v, from as int, key_view(*k)),
        decreases items@.len() - j,
    {
        j += 1;
    }
    j
}

proof fn lemma_item_le_size(v: Seq<ItemModel>, k: int)
    requires
        0 <= k < v.len(),
    ensures
        item_size(v[k]) <= items_size(v),
{
    lemma_size_skip(v, k);
    lemma_size_skip_mono(v, 0, k);
    assert(v.skip(0) =~= v);
}

pub(crate) fn clone_item(x: &CssItem) -> (r: CssItem)
    ensures
        item_view(r) == item_view(*x),
    decreases item_size(item_view(*x)), 0nat,
{
    match x {
        CssItem::Comment(s) => CssItem::Comment(s.clone()),
        CssItem::Rule { selector, body } => CssItem::Rule {
            selector: selector.clone(),
            body: body.clone(),
        },
        CssItem::AtBlock { name, params, items } => {
            let mut inner: Vec<CssItem> = Vec::new();
            append_clones(&mut inner, items.as_slice());
            proof {
                assert(items_view(Seq::<CssItem>::empty()) =~= Seq::<ItemModel>::empty());
                assert(Seq::<ItemModel>::empty() + items_view(items@) =~= items_view(items@));
            }
            CssItem::AtBlock { name: name.clone(), params: params.clone(), items: inner }
        },
        CssItem::AtSimple { text } => CssItem::AtSimple { text: text.clone() },
        CssItem::Other(s) => CssItem::Other(s.clone()),
    }
}

/// Appends deep copies of the items of `src` to `dst`.
fn append_clones(dst: &mut Vec<CssItem>, src: &[CssItem])
    ensures
        items_view(final(dst)@) == items_view(old(dst)@) + items_view(src@),
    decreases items_size(items_view(src@)), 1nat,
{
    let ghost sv = items_view(src@);
    proof {
        lemma_items_view(src@);
    }
    let mut k: usize = 0;
    while k < src.len()
        invariant
            k <= src@.len(),
            sv == items_view(src@),
            sv.len() == src@.len(),
            forall|t: int| 0 <= t < src@.len() ==> #[trigger] sv[t] == item_view(src@[t]),
            items_view(dst@) == items_view(old(dst)@) + sv.take(k as int),
        decreases src@.len() - k,
    {
        proof {
            lemma_item_le_size(sv, k as int);
        }
        let x = clone_item(&src[k]);
        proof {
            lemma_items_view_push(dst@, x);
            assert(sv.take(k + 1) =~= sv.take(k as int).push(sv[k as int]));
        }
        dst.push(x);
        k += 1;
    }
    proof {
        assert(sv.take(k as int) =~= sv);
    }
}

fn add_body_chars(acc: &mut Vec<char>, b2: &Vec<char>)
    ensures
        final(acc)@ == add_body(old(acc)@, b2@),
{
    let te = trim_end_chars(acc);
    let tr = trim_chars(acc);
    if !(te.len() > 0 && te[te.len() - 1] == ';') && tr.len() > 0 {
        acc.push(';');
    }
    acc.push(' ');
    extend_chars(acc, b2);
}

fn push_block_head(out: &mut Vec<char>, name: &Vec<char>, params: &Vec<char>)
    ensures
        final(out)@ == old(out)@ + block_head(name@, params@),
{
    out.push('@');
    extend_chars(out, name);
    if params.len() > 0 {
        out.push(' ');
        extend_chars(out, params);
    }
    out.push(' ');
    out.push('{');
    out.push(' ');
    proof {
        assert(out@ =~= old(out)@ + block_head(name@, params@));
    }
}

proof fn lemma_append_piece(before: Seq<char>, piece: Seq<char>, rest: Seq<char>)
    ensures
        before + (piece + rest) == (before + piece) + rest,
{
    assert(before + (piece + rest) =~= (before + piece) + rest);
}


fn keeps_apart_chars(name: &String) -> (r: bool)
    ensures
        r == keeps_apart(name@),
{
    let n = name.as_str();
    str_eq(n, "font-face") || str_eq(n, "keyframes") || str_eq(n, "-webkit-keyframes")
}

/// The stylesheet text of `items` (`emit_from`), appended to `out`.
fn emit_into(items: &[CssItem], out: &mut Vec<char>)
    ensures
        final(out)@ == old(out)@ + emit_from(items_view(items@), 0),
    decreases items_size(items_view(items@)),
{
    let ghost v = items_view(items@);
    let ghost start = out@;
    proof {
        lemma_items_view(items@);
        assert(v.skip(0) =~= v);
    }
    let mut i: usize = 0;
    while i < items.len()
        invariant
            i <= items@.len(),
            v == items_view(items@),
            v.len() == items@.len(),
            forall|t: int| 0 <= t < items@.len() ==> #[trigger] v[t] == item_view(items@[t]),
            items_size(v.skip(0)) == items_size(v),
            start + emit_from(v, 0) == out@ + emit_from(v, i as int),
        decreases items@.len() - i,
    {
        let ghost before = out@;
        proof {
            lemma_size_skip(v, i as int);
            lemma_size_skip_mono(v, 0, i as int);
        }
        assert(v[i as int] == item_view(items@[i as int]));
        match &items[i] {
            CssItem::Other(s) => {
                let t = str_chars(s);
                extend_chars(out, &t);
                proof {
                    lemma_append_piece(before, s@, emit_from(v, i + 1));
                }
                i += 1;
            },
            CssItem::Comment(s) => {
                let t = str_chars(s);
                extend_chars(out, &t);
                proof {
                    lemma_append_piece(before, s@, emit_from(v, i + 1));
                }
                i += 1;
            },
            CssItem::AtSimple { text } => {
                let t = str_chars(text);
                extend_chars(out, &t);
                let key = RunKey::Simple(simple_key_chars(&t));
                let e = run_end_at(items, i + 1, &key);
                proof {
                    lemma_append_piece(before, text@, emit_from(v, e as int));
                }
                i = e;
            },
            CssItem::Rule { selector, body } => {
                let sel = str_chars(selector);
                let key = RunKey::Rule(squash_chars(&sel));
                let e = run_end_at(items, i + 1, &key);
                let mut comb = str_chars(body);
                let mut j = i + 1;
                while j < e
                    invariant
                        i + 1 <= j <= e <= items@.len(),
                        v == items_view(items@),
                        forall|t: int|
                            0 <= t < items@.len() ==> #[trigger] v[t] == item_view(items@[t]),
                        comb@ == merged_body(v, i + 1, j as int, body@),
                    decreases e - j,
                {
                    assert(v[j as int] == item_view(items@[j as int]));
                    match &items[j] {
                        CssItem::Rule { body: b2, .. } => {
                            add_body_chars(&mut comb, &str_chars(b2));
                        },
                        _ => {},
                    }
                    j += 1;
                }
                let collapsed = collapse_chars(&comb);
                extend_chars(out, &sel);
                out.push(' ');
                out.push('{');
                out.push(' ');
                extend_chars(out, &collapsed);
                out.push(' ');
                out.push('}');
                out.push('\n');
                proof {
                    let piece = selector@ + seq![' ', '{', ' '] + collapse_spec(
                        merged_body(v, i + 1, e as int, body@),
                    ) + seq![' ', '}', '\n'];
                    assert(out@ =~= before + piece);
                    lemma_append_piece(before, piece, emit_from(v, e as int));
                }
                i = e;
            },
            CssItem::AtBlock { name, params, items: inner } => {
                let nm = str_chars(name);
                let pm = str_chars(params);
                let ghost iv = items_view(inner@);
                if keeps_apart_chars(name) {
                    push_block_head(out, &nm, &pm);
                    let ghost mid = out@;
                    proof {
                        assert(iv.skip(0) =~= iv);
                    }
                    emit_into(inner.as_slice(), out);
                    out.push(' ');
                    out.push('}');
                    out.push('\n');
                    proof {
                        let piece = block_head(name@, params@) + emit_from(iv, 0) + seq![
                            ' ',
                            '}',
                            '\n',
                        ];
                        assert(out@ =~= before + piece);
                        lemma_append_piece(before, piece, emit_from(v, i + 1));
                    }
                    i += 1;
                } else {
                    let key = RunKey::Block(str_chars(name), squash_chars(&pm));
                    let e = run_end_at(items, i + 1, &key);
                    let mut comb: Vec<CssItem> = Vec::new();
                    append_clones(&mut comb, inner.as_slice());
                    proof {
                        assert(items_view(Seq::<CssItem>::empty()) =~= Seq::<ItemModel>::empty());
                        assert(Seq::<ItemModel>::empty() + iv =~= iv);
                        assert(iv + merged_inner(v, i + 1, i + 1) =~= iv);
                    }
                    let mut j = i + 1;
                    while j < e
                        invariant
                            i + 1 <= j <= e <= items@.len(),
                            v == items_view(items@),
                            forall|t: int|
                                0 <= t < items@.len() ==> #[trigger] v[t] == item_view(
                                    items@[t],
                                ),
                            items_view(comb@) == iv + merged_inner(v, i + 1, j as int),
                        decreases e - j,
                    {
                        assert(v[j as int] == item_view(items@[j as int]));
                        let ghost prev = items_view(comb@);
                        match &items[j] {
                            CssItem::AtBlock { items: inner2, .. } => {
                                append_clones(&mut comb, inner2.as_slice());
                                proof {
                                    assert(iv + merged_inner(v, i + 1, j + 1) =~= prev
                                        + items_view(inner2@));
                                }
                            },
                            _ => {
                                proof {
                                    assert(iv + merged_inner(v, i + 1, j + 1) =~= prev);
                                }
                            },
                        }
                        j += 1;
                    }
                    let ghost cv = iv + merged_inner(v, i + 1, e as int);
                    proof {
                        lemma_merged_inner_size(v, i + 1, e as int);
                        lemma_size_concat(iv, merged_inner(v, i + 1, e as int));
                        assert(cv.skip(0) =~= cv);
                    }
                    push_block_head(out, &nm, &pm);
                    emit_into(comb.as_slice(), out);
                    out.push(' ');
                    out.push('}');
                    out.push('\n');
                    proof {
                        let piece = block_head(name@, params@) + emit_from(cv, 0) + seq![
                            ' ',
                            '}',
                            '\n',
                        ];
                        assert(out@ =~= before + piece);
                        lemma_append_piece(before, piece, emit_from(v, e as int));
                    }
                    i = e;
                }
            },
        }
    }
    proof {
        assert(out@ + Seq::<char>::empty() =~= out@);
    }
}

/// Appends the stylesheet text of `items` to `out`, adjacent rules and
/// at-rule blocks merged (`emit_from`).
pub fn emit_collapsed_items(items: &[CssItem], out: &mut String)
    ensures
        final(out)@ == old(out)@ + emit_from(items_view(items@), 0),
{
    let mut buf: Vec<char> = Vec::new();
    emit_into(items, &mut buf);
    let text = string_from_chars(&buf);
    append_str(out, text.as_str());
    proof {
        assert(Seq::<char>::empty() + emit_from(items_view(items@), 0) =~= emit_from(
            items_view(items@),
            0,
        ));
    }
}

/// Merges adjacent rules with the same selector and adjacent at-rule
/// blocks with the same header, and collapses duplicate declarations.
pub fn collapse_adjacent_rules_pass(css: &str) -> (r: String)
    ensures
        r@ == emit_from(items_scan(css@, 0), 0),
{
    let items = parse_top_level_items(css);
    let mut out = String::new();
    emit_collapsed_items(items.as_slice(), &mut out);
    proof {
        assert(Seq::<char>::empty() + emit_from(items_scan(css@, 0), 0) =~= emit_from(
            items_scan(css@, 0),
            0,
        ));
    }
    out
}

// ---------------------------------------------------------------------
// Selector lists of emitted rules
// ---------------------------------------------------------------------

/// The trimmed comma-separated selectors of `s` from `i` on, as
/// `split_dir_scan` reads them but with no escapes: a backslash is an
/// ordinary character here.
pub open spec fn split_plain_scan(s: Seq<char>, i: int, dp: int, db: int, start: int) -> Seq<
    Seq<char>,
>
    decreases s.len() - i,
{
    if !(0 <= i < s.len()) {
        let t = trim_spec(s.subrange(start, s.len() as int));
        if t.len() > 0 {
            seq![t]
        } else {
            Seq::empty()
        }
    } else if s[i] == '(' {
        split_plain_scan(s, i + 1, dp + 1, db, start)
    } else if s[i] == ')' {
        split_plain_scan(s, i + 1, dp - 1, db, start)
    } else if s[i] == '[' {
        split_plain_scan(s, i + 1, dp, db + 1, start)
    } else if s[i] == ']' {
        split_plain_scan(s, i + 1, dp, db - 1, start)
    } else if s[i] == ',' && dp == 0 && db == 0 {
        seq![trim_spec(s.subrange(start, i))] + split_plain_scan(s, i + 1, dp, db, i + 1)
    } else {
        split_plain_scan(s, i + 1, dp, db, start)
    }
}

/// The selectors of a list; the whole text when there are none.
pub open spec fn split_plain_spec(s: Seq<char>) -> Seq<Seq<char>> {
    let p = split_plain_scan(s, 0, 0, 0, 0);
    if p.len() == 0 {
        seq![s]
    } else {
        p
    }
}

/// Split a selector list at its top-level commas (see `split_plain_spec`).
pub fn split_top_level_selectors(input: &str) -> (r: Vec<String>)
    ensures
        r@.len() == split_plain_spec(input@).len(),
        forall|k: int| 0 <= k < r@.len() ==> #[trigger] r@[k]@ == split_plain_spec(input@)[k],
{
    let s = chars_of(input);
    let mut parts: Vec<Vec<char>> = Vec::new();
    let mut i: usize = 0;
    let mut start: usize = 0;
    let mut po: usize = 0;
    let mut pc: usize = 0;
    let mut bo: usize = 0;
    let mut bc: usize = 0;
    while i < s.len()
        invariant
            s@ == input@,
            start <= i <= s@.len(),
            po <= i && pc <= i && bo <= i && bc <= i,
            crate::directives::chars_list_view(parts@) + split_plain_scan(
                s@,
                i as int,
                po - pc,
                bo - bc,
                start as int,
            ) == split_plain_scan(s@, 0, 0, 0, 0),
        decreases s@.len() - i,
    {
        let ch = s[i];
        if ch == '(' {
            po += 1;
        } else if ch == ')' {
            pc += 1;
        } else if ch == '[' {
            bo += 1;
        } else if ch == ']' {
            bc += 1;
        } else if ch == ',' && po == pc && bo == bc {
            let t = trim_chars(&sub_chars(&s, start, i));
            let ghost before = crate::directives::chars_list_view(parts@);
            parts.push(t);
            assert(crate::directives::chars_list_view(parts@) =~= before + seq![
                trim_spec(s@.subrange(start as int, i as int)),
            ]);
            start = i + 1;
        }
        i += 1;
    }
    let t = trim_chars(&sub_chars(&s, start, s.len()));
    if t.len() > 0 {
        let ghost before = crate::directives::chars_list_view(parts@);
        parts.push(t);
        assert(crate::directives::chars_list_view(parts@) =~= before + seq![t@]);
    } else {
        assert(crate::directives::chars_list_view(parts@) =~= crate::directives::chars_list_view(
            parts@,
        ) + Seq::<Seq<char>>::empty());
    }
    if parts.len() == 0 {
        let whole = sub_chars(&s, 0, s.len());
        assert(whole@ =~= s@);
        parts.push(whole);
        assert(crate::directives::chars_list_view(parts@) =~= seq![s@]);
    }
    let ghost pv = crate::directives::chars_list_view(parts@);
    let mut r: Vec<String> = Vec::new();
    let mut k: usize = 0;
    while k < parts.len()
        invariant
            k <= parts@.len(),
            pv == crate::directives::chars_list_view(parts@),
            pv == split_plain_spec(input@),
            r@.len() == k,
            forall|j: int| 0 <= j < k ==> #[trigger] r@[j]@ == pv[j],
        decreases parts@.len() - k,
    {
        r.push(string_from_chars(&parts[k]));
        k += 1;
    }
    r
}

/// Whether a selector has a top-level combinator (see `crate::css_blocks::comb_scan`).
pub fn has_top_level_combinator(input: &str) -> (r: bool)
    ensures
        r == crate::css_blocks::comb_scan(input@, 0, 0, 0, false),
{
    crate::css_blocks::has_top_level_combinator_dir(&chars_of(input))
}


/// `s[i..]` with each backslash escape replaced by the character it
/// escapes.
pub open spec fn unescape_from(s: Seq<char>, i: int) -> Seq<char>
    decreases s.len() - i,
{
    if !(0 <= i < s.len()) {
        Seq::empty()
    } else if s[i] == '\\' && i + 1 < s.len() {
        seq![s[i + 1]] + unescape_from(s, i + 2)
    } else {
        seq![s[i]] + unescape_from(s, i + 1)
    }
}

/// A class name with its CSS escapes removed (`custom-top-1\/4` becomes
/// `custom-top-1/4`); a backslash at the very end stays.
pub fn strip_css_escapes(s: &str) -> (r: String)
    ensures
        r@ == unescape_from(s@, 0),
{
    let v = chars_of(s);
    let mut out: Vec<char> = Vec::new();
    let mut i: usize = 0;
    while i < v.len()
        invariant
            v@ == s@,
            i <= v@.len(),
            out@ + unescape_from(v@, i as int) == unescape_from(v@, 0),
        decreases v@.len() - i,
    {
        let ghost before = out@;
        if v[i] == '\\' && i + 1 < v.len() {
            out.push(v[i + 1]);
            proof {
                assert(before + (seq![v@[i + 1]] + unescape_from(v@, i + 2)) =~= out@
                    + unescape_from(v@, i + 2));
            }
            i += 2;
        } else {
            out.push(v[i]);
            proof {
                assert(before + (seq![v@[i as int]] + unescape_from(v@, i + 1)) =~= out@
                    + unescape_from(v@, i + 1));
            }
            i += 1;
        }
    }
    proof {
        assert(out@ + Seq::<char>::empty() =~= out@);
    }
    string_from_chars(&out)
}


// ---------------------------------------------------------------------
// Declarations of a user rule body, typed
// ---------------------------------------------------------------------

/// A CSS declaration.
pub struct Declaration {
    pub property: String,
    pub value: String,
    pub important: bool,
}

/// Where the skipping of an at-rule inside a body from `i` stops: after
/// its `;`, after the `}` closing its block, or at a `}` that closes the
/// body itself.
pub open spec fn at_skip(b: Seq<char>, i: int, depth: int) -> int
    decreases b.len() - i,
{
    if !(0 <= i < b.len()) {
        i
    } else if b[i] == '{' {
        at_skip(b, i + 1, depth + 1)
    } else if b[i] == '}' {
        if depth == 0 {
            i
        } else if depth == 1 {
            i + 1
        } else {
            at_skip(b, i + 1, depth - 1)
        }
    } else if b[i] == ';' && depth == 0 {
        i + 1
    } else {
        at_skip(b, i + 1, depth)
    }
}

/// The first `:`, `;`, `{` or `}` from `i`, or the end.
pub open spec fn colon_stop(b: Seq<char>, i: int) -> int
    decreases b.len() - i,
{
    if !(0 <= i < b.len()) || b[i] == ':' || b[i] == ';' || b[i] == '{' || b[i] == '}' {
        i
    } else {
        colon_stop(b, i + 1)
    }
}

/// The position after the `}` closing a nested block, `depth` braces
/// being open at `i` (no strings or comments considered); the end when
/// it is never closed.
pub open spec fn nested_end(b: Seq<char>, i: int, depth: int) -> int
    decreases b.len() - i,
{
    if !(0 <= i < b.len()) || depth <= 0 {
        i
    } else if b[i] == '{' {
        nested_end(b, i + 1, depth + 1)
    } else if b[i] == '}' {
        nested_end(b, i + 1, depth - 1)
    } else {
        nested_end(b, i + 1, depth)
    }
}

pub proof fn lemma_at_skip_bounds(b: Seq<char>, i: int, depth: int)
    requires
        0 <= i <= b.len(),
    ensures
        i <= at_skip(b, i, depth) <= b.len(),
    decreases b.len() - i,
{
    if i < b.len() {
        if b[i] == '{' {
            lemma_at_skip_bounds(b, i + 1, depth + 1);
        } else if b[i] == '}' {
            if depth != 0 && depth != 1 {
                lemma_at_skip_bounds(b, i + 1, depth - 1);
            }
        } else if !(b[i] == ';' && depth == 0) {
            lemma_at_skip_bounds(b, i + 1, depth);
        }
    }
}

pub proof fn lemma_colon_stop_bounds(b: Seq<char>, i: int)
    requires
        0 <= i <= b.len(),
    ensures
        i <= colon_stop(b, i) <= b.len(),
    decreases b.len() - i,
{
    if i < b.len() && !(b[i] == ':' || b[i] == ';' || b[i] == '{' || b[i] == '}') {
        lemma_colon_stop_bounds(b, i + 1);
    }
}

pub proof fn lemma_nested_end_bounds(b: Seq<char>, i: int, depth: int)
    requires
        0 <= i <= b.len(),
    ensures
        i <= nested_end(b, i, depth) <= b.len(),
    decreases b.len() - i,
{
    if i < b.len() && depth > 0 {
        if b[i] == '{' {
            lemma_nested_end_bounds(b, i + 1, depth + 1);
        } else if b[i] == '}' {
            lemma_nested_end_bounds(b, i + 1, depth - 1);
        } else {
            lemma_nested_end_bounds(b, i + 1, depth);
        }
    }
}

/// A value and its `important` flag once a trailing `!important` is
/// taken off it (the value is already trimmed).
pub open spec fn strip_important(value: Seq<char>, important: bool) -> (Seq<char>, bool) {
    let bang = "!important"@;
    if value.len() >= bang.len() && value.skip(value.len() - bang.len()) == bang {
        (trim_end_spec(value.take(value.len() - bang.len())), true)
    } else {
        (value, important)
    }
}

/// The declarations of a user rule body from `i` on, as (property,
/// value, important): at-rules, comments, nested blocks and stray text
/// are skipped, and declarations with an empty property or value are
/// dropped. `important` marks them all; a trailing `!important` marks
/// one.
pub open spec fn body_decls(b: Seq<char>, i: int, important: bool) -> Seq<
    (Seq<char>, Seq<char>, bool),
>
    decreases b.len() + 1 - i,
{
    if !(0 <= i <= b.len()) {
        Seq::empty()
    } else {
        proof {
            lemma_ws_end_bounds(b, i);
        }
        let i0 = ws_end(b, i);
        if i0 >= b.len() {
            Seq::empty()
        } else if b[i0] == '@' {
            proof {
                lemma_at_skip_bounds(b, i0 + 1, 0);
            }
            body_decls(b, at_skip(b, i0 + 1, 0), important)
        } else if comment_start(b, i0) {
            proof {
                lemma_comment_end_bounds(b, i0 + 2);
            }
            body_decls(b, comment_end(b, i0 + 2), important)
        } else {
            proof {
                lemma_colon_stop_bounds(b, i0);
            }
            let p = colon_stop(b, i0);
            if p >= b.len() {
                Seq::empty()
            } else if b[p] == '{' {
                proof {
                    lemma_nested_end_bounds(b, p + 1, 1);
                }
                body_decls(b, nested_end(b, p + 1, 1), important)
            } else if b[p] != ':' {
                body_decls(b, p + 1, important)
            } else {
                proof {
                    lemma_value_end_bounds(b, p + 1, 0);
                }
                let v = value_end(b, p + 1, 0);
                let prop = trim_spec(b.subrange(i0, p));
                let (value, imp) = strip_important(trim_spec(b.subrange(p + 1, v)), important);
                let next = if v < b.len() && b[v] == ';' {
                    v + 1
                } else {
                    v
                };
                (if prop.len() > 0 && value.len() > 0 {
                    seq![(prop, value, imp)]
                } else {
                    Seq::empty()
                }) + body_decls(b, next, important)
            }
        }
    }
}

pub open spec fn declaration_view(d: Declaration) -> (Seq<char>, Seq<char>, bool) {
    (d.property@, d.value@, d.important)
}

fn at_skip_at(b: &Vec<char>, from: usize) -> (r: usize)
    requires
        from <= b.len(),
    ensures
        r == at_skip(b@, from as int, 0),
        from <= r <= b@.len(),
{
    proof {
        lemma_at_skip_bounds(b@, from as int, 0);
    }
    let mut i = from;
    let mut depth: usize = 0;
    while i < b.len()
        invariant
            from <= i <= b@.len(),
            depth <= i,
            at_skip(b@, i as int, depth as int) == at_skip(b@, from as int, 0),
        decreases b@.len() - i,
    {
        let c = b[i];
        if c == '{' {
            depth += 1;
        } else if c == '}' {
            if depth == 0 {
                return i;
            } else if depth == 1 {
                return i + 1;
            }
            depth -= 1;
        } else if c == ';' && depth == 0 {
            return i + 1;
        }
        i += 1;
    }
    i
}

fn colon_stop_at(b: &Vec<char>, from: usize) -> (r: usize)
    requires
        from <= b.len(),
    ensures
        r == colon_stop(b@, from as int),
        from <= r <= b@.len(),
{
    proof {
        lemma_colon_stop_bounds(b@, from as int);
    }
    let mut i = from;
    while i < b.len() && b[i] != ':' && b[i] != ';' && b[i] != '{' && b[i] != '}'
        invariant
            from <= i <= b@.len(),
            colon_stop(b@, i as int) == colon_stop(b@, from as int),
        decreases b@.len() - i,
    {
        i += 1;
    }
    i
}

fn nested_end_at(b: &Vec<char>, from: usize) -> (r: usize)
    requires
        1 <= from <= b.len(),
    ensures
        r == nested_end(b@, from as int, 1),
        from <= r <= b@.len(),
{
    proof {
        lemma_nested_end_bounds(b@, from as int, 1);
    }
    let mut i = from;
    let mut depth: usize = 1;
    while i < b.len() && depth > 0
        invariant
            from <= i <= b@.len(),
            1 <= from,
            depth <= i,
            nested_end(b@, i as int, depth as int) == nested_end(b@, from as int, 1),
        decreases b@.len() - i,
    {
        if b[i] == '{' {
            depth += 1;
        } else if b[i] == '}' {
            depth -= 1;
        }
        i += 1;
    }
    i
}

fn strip_important_chars(value: Vec<char>, important: bool) -> (r: (Vec<char>, bool))
    ensures
        (r.0@, r.1) == strip_important(value@, important),
{
    let bang = chars_of("!important");
    proof {
        reveal_strlit("!important");
    }
    let n = value.len();
    if n >= bang.len() {
        let tail = sub_chars(&value, n - bang.len(), n);
        proof {
            assert(tail@ =~= value@.skip(n - bang@.len()));
        }
        if chars_eq(&tail, &bang) {
            let head = sub_chars(&value, 0, n - bang.len());
            proof {
                assert(head@ =~= value@.take(n - bang@.len()));
            }
            return (trim_end_chars(&head), true);
        }
    }
    (value, important)
}

/// The declarations of a user rule body (`body_decls`), each marked
/// important when `important` is set.
pub fn parse_decls_from_body(body: &str, important: bool) -> (r: Vec<Declaration>)
    ensures
        r@.map_values(|d: Declaration| declaration_view(d)) == body_decls(body@, 0, important),
{
    let b = chars_of(body);
    let mut r: Vec<Declaration> = Vec::new();
    let mut i: usize = 0;
    loop
        invariant_except_break
            b@ == body@,
            i <= b@.len(),
            r@.map_values(|d: Declaration| declaration_view(d)) + body_decls(b@, i as int, important)
                == body_decls(b@, 0, important),
        ensures
            r@.map_values(|d: Declaration| declaration_view(d)) == body_decls(body@, 0, important),
        decreases b@.len() + 1 - i,
    {
        let ghost done = r@.map_values(|d: Declaration| declaration_view(d));
        let i0 = ws_end_at(&b, i);
        if i0 >= b.len() {
            proof {
                assert(done + Seq::empty() =~= done);
            }
            break;
        }
        if b[i0] == '@' {
            i = at_skip_at(&b, i0 + 1);
        } else if is_comment_start(&b, i0) {
            proof {
                lemma_comment_end_bounds(b@, i0 + 2);
            }
            i = find_comment_end(&b, i0 + 2);
        } else {
            let p = colon_stop_at(&b, i0);
            if p >= b.len() {
                proof {
                    assert(done + Seq::empty() =~= done);
                }
                break;
            } else if b[p] == '{' {
                i = nested_end_at(&b, p + 1);
            } else if b[p] != ':' {
                i = p + 1;
            } else {
                let v = value_end_at(&b, p + 1);
                let prop = trim_chars(&sub_chars(&b, i0, p));
                let (value, imp) = strip_important_chars(
                    trim_chars(&sub_chars(&b, p + 1, v)),
                    important,
                );
                let next = if v < b.len() && b[v] == ';' {
                    v + 1
                } else {
                    v
                };
                if prop.len() > 0 && value.len() > 0 {
                    let d = Declaration {
                        property: string_from_chars(&prop),
                        value: string_from_chars(&value),
                        important: imp,
                    };
                    proof {
                        assert(r@.push(d).map_values(|d: Declaration| declaration_view(d))
                            =~= done.push(declaration_view(d)));
                        assert(done + (seq![declaration_view(d)] + body_decls(
                            b@,
                            next as int,
                            important,
                        )) =~= done.push(declaration_view(d)) + body_decls(
                            b@,
                            next as int,
                            important,
                        ));
                    }
                    r.push(d);
                } else {
                    proof {
                        assert(done + (Seq::empty() + body_decls(b@, next as int, important))
                            =~= done + body_decls(b@, next as int, important));
                    }
                }
                i = next;
            }
        }
    }
    r
}


// ---------------------------------------------------------------------
// `@defaults` markers
// ---------------------------------------------------------------------

/// The first `;` or `{` of `s` from `k`, or -1.
pub open spec fn marker_term(s: Seq<char>, k: int) -> int
    decreases s.len() - k,
{
    if !(0 <= k < s.len()) {
        -1
    } else if s[k] == ';' || s[k] == '{' {
        k
    } else {
        marker_term(s, k + 1)
    }
}

pub proof fn lemma_marker_term_bounds(s: Seq<char>, k: int)
    requires
        0 <= k,
    ensures
        marker_term(s, k) == -1 || k <= marker_term(s, k) < s.len(),
    decreases s.len() - k,
{
    if 0 <= k < s.len() && !(s[k] == ';' || s[k] == '{') {
        lemma_marker_term_bounds(s, k + 1);
    }
}

/// The end of the spaces, tabs and line breaks from `k`.
pub open spec fn blank_run_end(s: Seq<char>, k: int) -> int
    decreases s.len() - k,
{
    if 0 <= k < s.len() && (s[k] == ' ' || s[k] == '\t' || s[k] == '\n' || s[k] == '\r') {
        blank_run_end(s, k + 1)
    } else {
        k
    }
}

pub proof fn lemma_blank_run_end_bounds(s: Seq<char>, k: int)
    requires
        0 <= k <= s.len(),
    ensures
        k <= blank_run_end(s, k) <= s.len(),
    decreases s.len() - k,
{
    if k < s.len() && (s[k] == ' ' || s[k] == '\t' || s[k] == '\n' || s[k] == '\r') {
        lemma_blank_run_end_bounds(s, k + 1);
    }
}

/// A rule body without its `@defaults <id>;` markers (and the blanks
/// after each), and the ids they named, in order. `@defaults` not
/// followed by whitespace, the block form `@defaults … {`, and a marker
/// that never ends are left as written.
pub open spec fn defaults_markers(rest: Seq<char>) -> (Seq<char>, Seq<Seq<char>>)
    decreases rest.len(),
{
    let word = "@defaults"@;
    let idx = crate::directives::find_from(rest, word, 0);
    if idx < 0 || idx + 9 > rest.len() || word.len() != 9 {
        (rest, Seq::empty())
    } else {
        let a = idx + 9;
        let after = rest.skip(a);
        let t = marker_term(after, 0);
        if !(after.len() > 0 && ascii_ws(after[0])) {
            let (o, g) = defaults_markers(rest.skip(a));
            (rest.take(a) + o, g)
        } else if t < 0 {
            (rest, Seq::empty())
        } else if after[t] == '{' {
            let (o, g) = defaults_markers(rest.skip(a));
            (rest.take(a) + o, g)
        } else {
            let name = trim_spec(after.take(t));
            proof {
                lemma_marker_term_bounds(after, 0);
                lemma_blank_run_end_bounds(rest, a + t + 1);
            }
            let ts = blank_run_end(rest, a + t + 1);
            let (o, g) = defaults_markers(rest.skip(ts));
            (rest.take(idx) + o, if name.len() > 0 {
                seq![name] + g
            } else {
                g
            })
        }
    }
}

proof fn lemma_find_from_bounds(s: Seq<char>, p: Seq<char>, k: int)
    requires
        0 <= k,
    ensures
        crate::directives::find_from(s, p, k) == -1 || (k <= crate::directives::find_from(s, p, k)
            <= s.len() && crate::text::has_prefix_at(s, crate::directives::find_from(s, p, k), p)),
    decreases s.len() + 1 - k,
{
    if 0 <= k <= s.len() && !crate::text::has_prefix_at(s, k, p) {
        lemma_find_from_bounds(s, p, k + 1);
    }
}

/// A rule body without its `@defaults` markers, and the ids they named
/// (`defaults_markers`).
pub fn extract_defaults_markers(body: &str) -> (r: (String, Vec<String>))
    ensures
        (r.0@, r.1@.map_values(|g: String| g@)) == defaults_markers(body@),
{
    let b = chars_of(body);
    let word = chars_of("@defaults");
    proof {
        reveal_strlit("@defaults");
    }
    let mut out: Vec<char> = Vec::new();
    let mut groups: Vec<String> = Vec::new();
    let mut p: usize = 0;
    proof {
        assert(b@.skip(0) =~= b@);
        assert(out@ + defaults_markers(b@).0 =~= defaults_markers(b@).0);
        assert(groups@.map_values(|g: String| g@) + defaults_markers(b@).1 =~= defaults_markers(
            b@,
        ).1);
    }
    loop
        invariant_except_break
            b@ == body@,
            word@ == "@defaults"@,
            word@.len() == 9,
            p <= b@.len(),
            out@ + defaults_markers(b@.skip(p as int)).0 == defaults_markers(b@).0,
            groups@.map_values(|g: String| g@) + defaults_markers(b@.skip(p as int)).1
                == defaults_markers(b@).1,
        ensures
            (out@, groups@.map_values(|g: String| g@)) == defaults_markers(body@),
        decreases b@.len() - p,
    {
        let rest = sub_chars(&b, p, b.len());
        let ghost rv = rest@;
        assert(rv =~= b@.skip(p as int));
        let ghost done = out@;
        let ghost gdone = groups@.map_values(|g: String| g@);
        match crate::directives::find_needle(&rest, &word) {
            None => {
                extend_chars(&mut out, &rest);
                proof {
                    assert(gdone + Seq::<Seq<char>>::empty() =~= gdone);
                }
                break;
            },
            Some(idx) => {
                proof {
                    lemma_find_from_bounds(rv, word@, 0);
                }
                if idx + 9 > rest.len() {
                    extend_chars(&mut out, &rest);
                    proof {
                        assert(gdone + Seq::<Seq<char>>::empty() =~= gdone);
                    }
                    break;
                }
                let a = idx + 9;
                let after = sub_chars(&rest, a, rest.len());
                assert(after@ =~= rv.skip(a as int));
                if !(after.len() > 0 && is_ascii_ws(after[0])) {
                    extend_chars(&mut out, &sub_chars(&rest, 0, a));
                    proof {
                        assert(rv.skip(a as int) =~= b@.skip(p + a));
                        assert(done + (rv.take(a as int) + defaults_markers(rv.skip(a as int)).0)
                            =~= out@ + defaults_markers(b@.skip(p + a)).0);
                    }
                    p = p + a;
                } else {
                    let mut t: usize = 0;
                    proof {
                        lemma_marker_term_bounds(after@, 0);
                    }
                    while t < after.len() && after[t] != ';' && after[t] != '{'
                        invariant
                            t <= after@.len(),
                            marker_term(after@, t as int) == marker_term(after@, 0),
                        decreases after@.len() - t,
                    {
                        t += 1;
                    }
                    if t >= after.len() {
                        extend_chars(&mut out, &rest);
                        proof {
                            assert(gdone + Seq::<Seq<char>>::empty() =~= gdone);
                        }
                        break;
                    } else if after[t] == '{' {
                        extend_chars(&mut out, &sub_chars(&rest, 0, a));
                        proof {
                            assert(rv.skip(a as int) =~= b@.skip(p + a));
                            assert(done + (rv.take(a as int) + defaults_markers(
                                rv.skip(a as int),
                            ).0) =~= out@ + defaults_markers(b@.skip(p + a)).0);
                        }
                        p = p + a;
                    } else {
                        let head = sub_chars(&after, 0, t);
                        assert(head@ =~= after@.take(t as int));
                        let name = trim_chars(&head);
                        proof {
                            lemma_blank_run_end_bounds(rv, a + t + 1);
                        }
                        let mut ts = a + t + 1;
                        while ts < rest.len() && (rest[ts] == ' ' || rest[ts] == '\t'
                            || rest[ts] == '\n' || rest[ts] == '\r')
                            invariant
                                a + t + 1 <= ts <= rv.len(),
                                rv == rest@,
                                blank_run_end(rv, ts as int) == blank_run_end(rv, a + t + 1),
                            decreases rv.len() - ts,
                        {
                            ts += 1;
                        }
                        extend_chars(&mut out, &sub_chars(&rest, 0, idx));
                        if name.len() > 0 {
                            let ghost before = groups@.map_values(|g: String| g@);
                            let nm = string_from_chars(&name);
                            groups.push(nm);
                            assert(groups@.map_values(|g: String| g@) =~= before.push(nm@));
                        }
                        proof {
                            assert(rv.skip(ts as int) =~= b@.skip(p + ts));
                            let (o, g) = defaults_markers(rv.skip(ts as int));
                            assert(done + (rv.take(idx as int) + o) =~= out@ + o);
                            if name@.len() > 0 {
                                assert(gdone + (seq![name@] + g) =~= gdone.push(name@) + g);
                            }
                        }
                        p = p + ts;
                    }
                }
            },
        }
    }
    string_pair(out, groups)
}

fn string_pair(out: Vec<char>, groups: Vec<String>) -> (r: (String, Vec<String>))
    ensures
        r.0@ == out@,
        r.1 == groups,
{
    (string_from_chars(&out), groups)
}


// ---------------------------------------------------------------------
// Removing alpha variables
// ---------------------------------------------------------------------

/// `s[i..]` with every occurrence of `pat` (found left to right, not
/// overlapping) removed.
pub open spec fn remove_all_from(s: Seq<char>, pat: Seq<char>, i: int) -> Seq<char>
    decreases s.len() - i,
{
    if !(0 <= i < s.len()) || pat.len() == 0 {
        s.subrange(if 0 <= i <= s.len() {
            i
        } else {
            s.len() as int
        }, s.len() as int)
    } else if crate::text::has_prefix_at(s, i, pat) {
        remove_all_from(s, pat, i + pat.len())
    } else {
        seq![s[i]] + remove_all_from(s, pat, i + 1)
    }
}

/// The value with `/ var(<var>, 1)` and then `/ var(<var>)` removed.
pub open spec fn strip_alpha_var(value: Seq<char>, var: Seq<char>) -> Seq<char> {
    let once = remove_all_from(value, "/ var("@ + var + ", 1)"@, 0);
    remove_all_from(once, "/ var("@ + var + seq![')'], 0)
}

pub open spec fn strip_alpha_vars(value: Seq<char>, vars: Seq<Seq<char>>, n: int) -> Seq<char>
    decreases n,
{
    if n <= 0 {
        value
    } else {
        strip_alpha_var(strip_alpha_vars(value, vars, n - 1), vars[n - 1])
    }
}

/// The declarations among the first `n` whose property is not one of
/// `vars`, each with the alpha variables taken out of its value.
pub open spec fn alpha_removed(
    d: Seq<(Seq<char>, Seq<char>, bool)>,
    vars: Seq<Seq<char>>,
    n: int,
) -> Seq<(Seq<char>, Seq<char>, bool)>
    decreases n,
{
    if n <= 0 {
        Seq::empty()
    } else if vars.contains(d[n - 1].0) {
        alpha_removed(d, vars, n - 1)
    } else {
        alpha_removed(d, vars, n - 1).push(
            (d[n - 1].0, strip_alpha_vars(d[n - 1].1, vars, vars.len() as int), d[n - 1].2),
        )
    }
}

fn remove_all_chars(s: &Vec<char>, pat: &Vec<char>) -> (r: Vec<char>)
    requires
        pat@.len() > 0,
    ensures
        r@ == remove_all_from(s@, pat@, 0),
{
    let mut out: Vec<char> = Vec::new();
    let mut i: usize = 0;
    while i < s.len()
        invariant
            i <= s@.len(),
            pat@.len() > 0,
            out@ + remove_all_from(s@, pat@, i as int) == remove_all_from(s@, pat@, 0),
        decreases s@.len() - i,
    {
        let ghost before = out@;
        if crate::text::prefix_at(s, i, pat) {
            assert(crate::text::has_prefix_at(s@, i as int, pat@));
            i = i + pat.len();
        } else {
            out.push(s[i]);
            assert(before + (seq![s@[i as int]] + remove_all_from(s@, pat@, i + 1)) =~= out@
                + remove_all_from(s@, pat@, i + 1));
            i += 1;
        }
    }
    assert(s@.subrange(i as int, s@.len() as int) =~= Seq::<char>::empty());
    assert(out@ + Seq::<char>::empty() =~= out@);
    out
}

fn strip_alpha_var_chars(value: &Vec<char>, var: &Vec<char>) -> (r: Vec<char>)
    ensures
        r@ == strip_alpha_var(value@, var@),
{
    let mut with_one = chars_of("/ var(");
    extend_chars(&mut with_one, var);
    extend_chars(&mut with_one, &chars_of(", 1)"));
    let mut bare = chars_of("/ var(");
    extend_chars(&mut bare, var);
    bare.push(')');
    proof {
        reveal_strlit("/ var(");
        reveal_strlit(", 1)");
        assert(with_one@ =~= "/ var("@ + var@ + ", 1)"@);
        assert(bare@ =~= "/ var("@ + var@ + seq![')']);
    }
    let once = remove_all_chars(value, &with_one);
    remove_all_chars(&once, &bare)
}

pub open spec fn decl_model(d: Declaration) -> (Seq<char>, Seq<char>, bool) {
    (d.property@, d.value@, d.important)
}

/// Drop the declarations that set one of `remove_vars` and take
/// `/ var(<var>, 1)` and `/ var(<var>)` out of the other values
/// (`alpha_removed`).
pub fn apply_alpha_var_removal(decls: &mut Vec<Declaration>, remove_vars: &[&str])
    ensures
        final(decls)@.map_values(|d: Declaration| decl_model(d)) == alpha_removed(
            old(decls)@.map_values(|d: Declaration| decl_model(d)),
            remove_vars@.map_values(|v: &str| v@),
            old(decls)@.len() as int,
        ),
{
    let ghost dv = decls@.map_values(|d: Declaration| decl_model(d));
    let ghost vv = remove_vars@.map_values(|v: &str| v@);
    let mut vars: Vec<Vec<char>> = Vec::new();
    let mut k: usize = 0;
    while k < remove_vars.len()
        invariant
            k <= remove_vars@.len(),
            vv == remove_vars@.map_values(|v: &str| v@),
            chars_list_view(vars@) == vv.take(k as int),
        decreases remove_vars@.len() - k,
    {
        let v = chars_of(remove_vars[k]);
        assert(v@ == vv[k as int]);
        let ghost before = chars_list_view(vars@);
        vars.push(v);
        assert(chars_list_view(vars@) =~= before.push(v@));
        assert(vv.take(k + 1) =~= vv.take(k as int).push(vv[k as int]));
        k += 1;
    }
    assert(vv.take(k as int) =~= vv);
    let mut out: Vec<Declaration> = Vec::new();
    let mut j: usize = 0;
    while j < decls.len()
        invariant
            j <= decls@.len(),
            dv == decls@.map_values(|d: Declaration| decl_model(d)),
            decls@ == old(decls)@,
            chars_list_view(vars@) == vv,
            out@.map_values(|d: Declaration| decl_model(d)) == alpha_removed(dv, vv, j as int),
        decreases decls@.len() - j,
    {
        let p = chars_of(decls[j].property.as_str());
        assert(dv[j as int].0 == p@);
        let mut m: usize = 0;
        let mut listed = false;
        while m < vars.len() && !listed
            invariant
                m <= vars@.len(),
                chars_list_view(vars@) == vv,
                listed == (exists|x: int| 0 <= x < m && vv[x] == p@),
            decreases vars@.len() - m,
        {
            if chars_eq(&vars[m], &p) {
                assert(vv[m as int] == p@);
                listed = true;
            }
            m += 1;
        }
        proof {
            if !listed {
                assert(m == vars@.len());
                assert(!vv.contains(p@));
            } else {
                let x = choose|x: int| 0 <= x < m && vv[x] == p@;
                assert(vv.contains(p@));
            }
        }
        if !listed {
            let mut value = chars_of(decls[j].value.as_str());
            let mut n: usize = 0;
            while n < vars.len()
                invariant
                    n <= vars@.len(),
                    chars_list_view(vars@) == vv,
                    value@ == strip_alpha_vars(dv[j as int].1, vv, n as int),
                decreases vars@.len() - n,
            {
                assert(vv[n as int] == vars@[n as int]@);
                value = strip_alpha_var_chars(&value, &vars[n]);
                n += 1;
            }
            let d = Declaration {
                property: string_from_chars(&p),
                value: string_from_chars(&value),
                important: decls[j].important,
            };
            let ghost before = out@.map_values(|d: Declaration| decl_model(d));
            out.push(d);
            assert(out@.map_values(|d: Declaration| decl_model(d)) =~= before.push(decl_model(d)));
        }
        j += 1;
    }
    *decls = out;
}

} // verus!
