//! Reducing a selector to its least specific form, for the rules that
//! carry the defaults of cascading variables: the last compound of the
//! selector, tokenized, anchored on its last tag, class, id or attribute.
use vstd::prelude::*;
use crate::css_blocks::is_quote;
use crate::directives::chars_list_view;
use crate::text::{
    ascii_alnum, ascii_ws, chars_eq, chars_of, extend_chars, is_ascii_alnum, is_ascii_ws,
    lemma_quote_end_bounds, quote_end, quote_end_at, string_from_chars, sub_chars, trim_chars,
    trim_spec,
};

verus! {

/// A node of a compound selector.
pub enum SelToken {
    Tag(String),
    /// A class, without its `.`.
    Class(String),
    /// An id, without its `#`.
    Id(String),
    /// An attribute selector with its brackets.
    Attribute(String),
    /// A pseudo-class or pseudo-element as written, whether it has an
    /// argument list, and whether it is an element.
    Pseudo { text: String, has_subnodes: bool, is_element: bool },
    Combinator(String),
    Universal,
}

/// The model of a node.
pub enum TokModel {
    Tag(Seq<char>),
    Class(Seq<char>),
    Id(Seq<char>),
    Attribute(Seq<char>),
    Pseudo(Seq<char>, bool, bool),
    Combinator(Seq<char>),
    Universal,
}

pub open spec fn tok_view(t: SelToken) -> TokModel {
    match t {
        SelToken::Tag(s) => TokModel::Tag(s@),
        SelToken::Class(s) => TokModel::Class(s@),
        SelToken::Id(s) => TokModel::Id(s@),
        SelToken::Attribute(s) => TokModel::Attribute(s@),
        SelToken::Pseudo { text, has_subnodes, is_element } => TokModel::Pseudo(
            text@,
            has_subnodes,
            is_element,
        ),
        SelToken::Combinator(s) => TokModel::Combinator(s@),
        SelToken::Universal => TokModel::Universal,
    }
}

pub open spec fn toks_view(v: Seq<SelToken>) -> Seq<TokModel> {
    v.map_values(|t: SelToken| tok_view(t))
}

/// How a node is written back.
pub open spec fn tok_text(t: TokModel) -> Seq<char> {
    match t {
        TokModel::Tag(s) => s,
        TokModel::Class(s) => seq!['.'] + s,
        TokModel::Id(s) => seq!['#'] + s,
        TokModel::Attribute(s) => s,
        TokModel::Pseudo(text, _, _) => text,
        TokModel::Combinator(s) => s,
        TokModel::Universal => seq!['*'],
    }
}

impl SelToken {
    /// The node as it is written.
    pub fn text(&self) -> (r: String)
        ensures
            r@ == tok_text(tok_view(*self)),
    {
        match self {
            SelToken::Tag(s) => s.clone(),
            SelToken::Class(s) => {
                let mut v: Vec<char> = Vec::new();
                v.push('.');
                extend_chars(&mut v, &chars_of(s.as_str()));
                string_from_chars(&v)
            },
            SelToken::Id(s) => {
                let mut v: Vec<char> = Vec::new();
                v.push('#');
                extend_chars(&mut v, &chars_of(s.as_str()));
                string_from_chars(&v)
            },
            SelToken::Attribute(s) => s.clone(),
            SelToken::Pseudo { text, .. } => text.clone(),
            SelToken::Combinator(s) => s.clone(),
            SelToken::Universal => {
                let mut v: Vec<char> = Vec::new();
                v.push('*');
                string_from_chars(&v)
            },
        }
    }
}

// ---------------------------------------------------------------------
// Tokenizing a compound
// ---------------------------------------------------------------------

pub open spec fn ident_c(c: char) -> bool {
    ascii_alnum(c) || c == '-' || c == '_'
}

/// The end of an identifier from `j`, a backslash and the character
/// after it counting as one identifier character.
pub open spec fn esc_ident_end(s: Seq<char>, j: int) -> int
    decreases s.len() - j,
{
    if 0 <= j < s.len() && s[j] == '\\' && j + 1 < s.len() {
        esc_ident_end(s, j + 2)
    } else if 0 <= j < s.len() && ident_c(s[j]) {
        esc_ident_end(s, j + 1)
    } else {
        j
    }
}

/// The end of an attribute selector, `depth` brackets being open at
/// `j` (escapes and quoted text stepped over).
pub open spec fn attr_end(s: Seq<char>, j: int, depth: int) -> int
    decreases s.len() - j,
{
    if !(0 <= j < s.len()) || depth <= 0 {
        j
    } else if s[j] == '\\' && j + 1 < s.len() {
        attr_end(s, j + 2, depth)
    } else if s[j] == '[' {
        attr_end(s, j + 1, depth + 1)
    } else if s[j] == ']' {
        attr_end(s, j + 1, depth - 1)
    } else if is_quote(s[j]) {
        proof {
            lemma_quote_end_bounds(s, j + 1, s[j]);
        }
        attr_end(s, quote_end(s, j + 1, s[j]), depth)
    } else {
        attr_end(s, j + 1, depth)
    }
}

/// The end of a pseudo's argument list, `depth` parentheses being open
/// at `k` (escapes stepped over).
pub open spec fn paren_end(s: Seq<char>, k: int, depth: int) -> int
    decreases s.len() - k,
{
    if !(0 <= k < s.len()) || depth <= 0 {
        k
    } else if s[k] == '\\' && k + 1 < s.len() {
        paren_end(s, k + 2, depth)
    } else if s[k] == '(' {
        paren_end(s, k + 1, depth + 1)
    } else if s[k] == ')' {
        paren_end(s, k + 1, depth - 1)
    } else {
        paren_end(s, k + 1, depth)
    }
}

pub proof fn lemma_esc_ident_end_bounds(s: Seq<char>, j: int)
    requires
        0 <= j <= s.len(),
    ensures
        j <= esc_ident_end(s, j) <= s.len(),
    decreases s.len() - j,
{
    if j < s.len() && s[j] == '\\' && j + 1 < s.len() {
        lemma_esc_ident_end_bounds(s, j + 2);
    } else if j < s.len() && ident_c(s[j]) {
        lemma_esc_ident_end_bounds(s, j + 1);
    }
}

pub proof fn lemma_attr_end_bounds(s: Seq<char>, j: int, depth: int)
    requires
        0 <= j <= s.len(),
    ensures
        j <= attr_end(s, j, depth) <= s.len(),
    decreases s.len() - j,
{
    if j < s.len() && depth > 0 {
        if s[j] == '\\' && j + 1 < s.len() {
            lemma_attr_end_bounds(s, j + 2, depth);
        } else if s[j] == '[' {
            lemma_attr_end_bounds(s, j + 1, depth + 1);
        } else if s[j] == ']' {
            lemma_attr_end_bounds(s, j + 1, depth - 1);
        } else if is_quote(s[j]) {
            lemma_quote_end_bounds(s, j + 1, s[j]);
            lemma_attr_end_bounds(s, quote_end(s, j + 1, s[j]), depth);
        } else {
            lemma_attr_end_bounds(s, j + 1, depth);
        }
    }
}

pub proof fn lemma_paren_end_bounds(s: Seq<char>, k: int, depth: int)
    requires
        0 <= k <= s.len(),
    ensures
        k <= paren_end(s, k, depth) <= s.len(),
    decreases s.len() - k,
{
    if k < s.len() && depth > 0 {
        if s[k] == '\\' && k + 1 < s.len() {
            lemma_paren_end_bounds(s, k + 2, depth);
        } else if s[k] == '(' {
            lemma_paren_end_bounds(s, k + 1, depth + 1);
        } else if s[k] == ')' {
            lemma_paren_end_bounds(s, k + 1, depth - 1);
        } else {
            lemma_paren_end_bounds(s, k + 1, depth);
        }
    }
}

/// Pseudo-elements that may be written with a single colon.
pub open spec fn legacy_element(name: Seq<char>) -> bool {
    name == "before"@ || name == "after"@ || name == "first-line"@ || name == "first-letter"@
}

/// The nodes of a compound selector from `i` on: whitespace and
/// characters that start no node are skipped.
pub open spec fn tok_scan(s: Seq<char>, i: int) -> Seq<TokModel>
    decreases s.len() - i,
{
    if !(0 <= i < s.len()) {
        Seq::empty()
    } else if ascii_ws(s[i]) {
        tok_scan(s, i + 1)
    } else if s[i] == '.' || s[i] == '#' {
        proof {
            lemma_esc_ident_end_bounds(s, i + 1);
        }
        let j = esc_ident_end(s, i + 1);
        let name = s.subrange(i + 1, j);
        seq![
            if s[i] == '.' {
                TokModel::Class(name)
            } else {
                TokModel::Id(name)
            },
        ] + tok_scan(s, j)
    } else if s[i] == '[' {
        proof {
            lemma_attr_end_bounds(s, i + 1, 1);
        }
        let j = attr_end(s, i + 1, 1);
        seq![TokModel::Attribute(s.subrange(i, j))] + tok_scan(s, j)
    } else if s[i] == ':' {
        let dbl = i + 1 < s.len() && s[i + 1] == ':';
        let ns = if dbl {
            i + 2
        } else {
            i + 1
        };
        proof {
            lemma_esc_ident_end_bounds(s, ns);
        }
        let j = esc_ident_end(s, ns);
        let is_el = dbl || legacy_element(s.subrange(ns, j));
        if j < s.len() && s[j] == '(' {
            proof {
                lemma_paren_end_bounds(s, j + 1, 1);
            }
            let k = paren_end(s, j + 1, 1);
            seq![TokModel::Pseudo(s.subrange(i, k), true, is_el)] + tok_scan(s, k)
        } else {
            seq![TokModel::Pseudo(s.subrange(i, j), false, is_el)] + tok_scan(s, j)
        }
    } else if s[i] == '*' {
        seq![TokModel::Universal] + tok_scan(s, i + 1)
    } else if s[i] == '>' || s[i] == '+' || s[i] == '~' {
        seq![TokModel::Combinator(seq![s[i]])] + tok_scan(s, i + 1)
    } else if ident_c(s[i]) {
        proof {
            lemma_esc_ident_end_bounds(s, i + 1);
        }
        let j = esc_ident_end(s, i);
        seq![TokModel::Tag(s.subrange(i, j))] + tok_scan(s, j)
    } else {
        tok_scan(s, i + 1)
    }
}

// ---------------------------------------------------------------------
// The last compound
// ---------------------------------------------------------------------

/// The last index in `[lo, j)` that is not whitespace, or -1.
pub open spec fn prev_non_ws(s: Seq<char>, lo: int, j: int) -> int
    decreases j - lo,
{
    if j <= lo {
        -1
    } else if !ascii_ws(s[j - 1]) {
        j - 1
    } else {
        prev_non_ws(s, lo, j - 1)
    }
}

pub open spec fn comb_char(c: char) -> bool {
    c == '>' || c == '+' || c == '~'
}

pub open spec fn ws_run_end(s: Seq<char>, i: int) -> int
    decreases s.len() - i,
{
    if 0 <= i < s.len() && ascii_ws(s[i]) {
        ws_run_end(s, i + 1)
    } else {
        i
    }
}

pub proof fn lemma_ws_run_end_bounds(s: Seq<char>, i: int)
    requires
        0 <= i <= s.len(),
    ensures
        i <= ws_run_end(s, i) <= s.len(),
    decreases s.len() - i,
{
    if i < s.len() && ascii_ws(s[i]) {
        lemma_ws_run_end_bounds(s, i + 1);
    }
}

/// The start of the last compound of `s` from `i` on (`start` being the
/// start so far): top-level blanks that are not next to a `>`, `+` or
/// `~` start a new compound; escapes, parentheses and brackets are
/// stepped over.
pub open spec fn last_compound_start(s: Seq<char>, i: int, dp: int, db: int, start: int) -> int
    decreases s.len() - i,
{
    if !(0 <= i < s.len()) {
        start
    } else if s[i] == '\\' && i + 1 < s.len() {
        last_compound_start(s, i + 2, dp, db, start)
    } else if s[i] == '(' {
        last_compound_start(s, i + 1, dp + 1, db, start)
    } else if s[i] == ')' {
        last_compound_start(s, i + 1, dp - 1, db, start)
    } else if s[i] == '[' {
        last_compound_start(s, i + 1, dp, db + 1, start)
    } else if s[i] == ']' {
        last_compound_start(s, i + 1, dp, db - 1, start)
    } else if (s[i] == ' ' || s[i] == '\t') && dp == 0 && db == 0 {
        let p = prev_non_ws(s, start, i);
        let was_comb = p >= 0 && comb_char(s[p]);
        proof {
            lemma_ws_run_end_bounds(s, i + 1);
        }
        let e = ws_run_end(s, i);
        if !was_comb && e < s.len() && !comb_char(s[e]) {
            last_compound_start(s, e, dp, db, e)
        } else {
            last_compound_start(s, e, dp, db, start)
        }
    } else {
        last_compound_start(s, i + 1, dp, db, start)
    }
}

pub proof fn lemma_last_compound_start_bounds(s: Seq<char>, i: int, dp: int, db: int, start: int)
    requires
        0 <= start <= s.len(),
        0 <= i,
    ensures
        0 <= last_compound_start(s, i, dp, db, start) <= s.len(),
    decreases s.len() - i,
{
    if 0 <= i < s.len() {
        if s[i] == '\\' && i + 1 < s.len() {
            lemma_last_compound_start_bounds(s, i + 2, dp, db, start);
        } else if s[i] == '(' {
            lemma_last_compound_start_bounds(s, i + 1, dp + 1, db, start);
        } else if s[i] == ')' {
            lemma_last_compound_start_bounds(s, i + 1, dp - 1, db, start);
        } else if s[i] == '[' {
            lemma_last_compound_start_bounds(s, i + 1, dp, db + 1, start);
        } else if s[i] == ']' {
            lemma_last_compound_start_bounds(s, i + 1, dp, db - 1, start);
        } else if (s[i] == ' ' || s[i] == '\t') && dp == 0 && db == 0 {
            lemma_ws_run_end_bounds(s, i + 1);
            let e = ws_run_end(s, i);
            lemma_last_compound_start_bounds(s, e, dp, db, e);
            lemma_last_compound_start_bounds(s, e, dp, db, start);
        } else {
            lemma_last_compound_start_bounds(s, i + 1, dp, db, start);
        }
    }
}

/// The last compound of a selector, trimmed: `.a .b > .c` gives
/// `.b > .c`.
pub open spec fn last_compound_spec(s: Seq<char>) -> Seq<char> {
    trim_spec(s.skip(last_compound_start(s, 0, 0, 0, 0)))
}

// ---------------------------------------------------------------------
// The reduced selector
// ---------------------------------------------------------------------

/// Pseudo-classes without an argument list are dropped.
pub open spec fn kept_tok(t: TokModel) -> bool {
    match t {
        TokModel::Pseudo(_, sub, el) => sub || el,
        _ => true,
    }
}

pub open spec fn kept_toks(v: Seq<TokModel>, n: int) -> Seq<TokModel>
    decreases n,
{
    if n <= 0 {
        Seq::empty()
    } else if kept_tok(v[n - 1]) {
        kept_toks(v, n - 1).push(v[n - 1])
    } else {
        kept_toks(v, n - 1)
    }
}

pub open spec fn is_anchor(t: TokModel) -> bool {
    t is Tag || t is Class || t is Id || t is Attribute
}

/// The index of the last anchor among the first `n` nodes, or -1.
pub open spec fn last_anchor(v: Seq<TokModel>, n: int) -> int
    decreases n,
{
    if n <= 0 {
        -1
    } else if is_anchor(v[n - 1]) {
        n - 1
    } else {
        last_anchor(v, n - 1)
    }
}

pub open spec fn texts_of(v: Seq<TokModel>, a: int, b: int) -> Seq<char>
    decreases b - a,
{
    if b <= a {
        Seq::empty()
    } else {
        texts_of(v, a, b - 1) + tok_text(v[b - 1])
    }
}

/// An anchor as the reduced selector writes it: an id as an attribute
/// selector, quoted unless it is a plain identifier.
pub open spec fn anchor_text(t: TokModel) -> Seq<char> {
    match t {
        TokModel::Id(name) => if forall|k: int| 0 <= k < name.len() ==> ident_c(#[trigger] name[k]) {
            "[id="@ + name + seq![']']
        } else {
            "[id=\""@ + name + "\"]"@
        },
        _ => tok_text(t),
    }
}

/// A selector reduced to its least specific form: its last compound's
/// nodes without argument-less pseudo-classes, from the last tag, class,
/// id or attribute on (the id written as an attribute), trimmed; all of
/// them when there is no such node.
pub open spec fn reduce_spec(sel: Seq<char>) -> Seq<char> {
    let toks = tok_scan(last_compound_spec(sel), 0);
    let f = kept_toks(toks, toks.len() as int);
    let idx = last_anchor(f, f.len() as int);
    if idx < 0 {
        trim_spec(texts_of(f, 0, f.len() as int))
    } else {
        trim_spec(anchor_text(f[idx]) + texts_of(f, idx + 1, f.len() as int))
    }
}

/// The comma-separated parts of a selector list, each trimmed; a
/// trailing empty part is kept.
pub open spec fn commas_owned_scan(s: Seq<char>, i: int, dp: int, db: int, start: int) -> Seq<
    Seq<char>,
>
    decreases s.len() - i,
{
    if !(0 <= i < s.len()) {
        seq![trim_spec(s.subrange(start, s.len() as int))]
    } else if s[i] == '\\' && i + 1 < s.len() {
        commas_owned_scan(s, i + 2, dp, db, start)
    } else if s[i] == '(' {
        commas_owned_scan(s, i + 1, dp + 1, db, start)
    } else if s[i] == ')' {
        commas_owned_scan(s, i + 1, dp - 1, db, start)
    } else if s[i] == '[' {
        commas_owned_scan(s, i + 1, dp, db + 1, start)
    } else if s[i] == ']' {
        commas_owned_scan(s, i + 1, dp, db - 1, start)
    } else if s[i] == ',' && dp == 0 && db == 0 {
        seq![trim_spec(s.subrange(start, i))] + commas_owned_scan(s, i + 1, dp, db, i + 1)
    } else {
        commas_owned_scan(s, i + 1, dp, db, start)
    }
}


// ---------------------------------------------------------------------
// Executable
// ---------------------------------------------------------------------

fn is_ident_c(c: char) -> (r: bool)
    ensures
        r == ident_c(c),
{
    is_ascii_alnum(c) || c == '-' || c == '_'
}

fn esc_ident_end_at(s: &Vec<char>, from: usize) -> (r: usize)
    requires
        from <= s.len(),
    ensures
        r == esc_ident_end(s@, from as int),
        from <= r <= s@.len(),
{
    proof {
        lemma_esc_ident_end_bounds(s@, from as int);
    }
    let mut j = from;
    while j < s.len()
        invariant
            from <= j <= s@.len(),
            esc_ident_end(s@, j as int) == esc_ident_end(s@, from as int),
        decreases s@.len() - j,
    {
        if s[j] == '\\' && j + 1 < s.len() {
            j += 2;
        } else if is_ident_c(s[j]) {
            j += 1;
        } else {
            return j;
        }
    }
    j
}

fn attr_end_at(s: &Vec<char>, from: usize) -> (r: usize)
    requires
        from <= s.len(),
    ensures
        r == attr_end(s@, from as int, 1),
        from <= r <= s@.len(),
{
    proof {
        lemma_attr_end_bounds(s@, from as int, 1);
    }
    let mut j = from;
    let mut extra: usize = 0;
    while j < s.len()
        invariant
            from <= j <= s@.len(),
            extra <= j,
            attr_end(s@, j as int, extra + 1) == attr_end(s@, from as int, 1),
        decreases s@.len() - j,
    {
        let c = s[j];
        if c == '\\' && j + 1 < s.len() {
            j += 2;
        } else if c == '[' {
            extra += 1;
            j += 1;
        } else if c == ']' {
            if extra == 0 {
                assert(attr_end(s@, j + 1, 0) == j + 1);
                return j + 1;
            }
            extra -= 1;
            j += 1;
        } else if c == '"' || c == '\'' {
            proof {
                lemma_quote_end_bounds(s@, j + 1, c);
            }
            j = quote_end_at(s, j + 1, c);
        } else {
            j += 1;
        }
    }
    j
}

fn paren_end_at(s: &Vec<char>, from: usize) -> (r: usize)
    requires
        from <= s.len(),
    ensures
        r == paren_end(s@, from as int, 1),
        from <= r <= s@.len(),
{
    proof {
        lemma_paren_end_bounds(s@, from as int, 1);
    }
    let mut k = from;
    let mut extra: usize = 0;
    while k < s.len()
        invariant
            from <= k <= s@.len(),
            extra <= k,
            paren_end(s@, k as int, extra + 1) == paren_end(s@, from as int, 1),
        decreases s@.len() - k,
    {
        let c = s[k];
        if c == '\\' && k + 1 < s.len() {
            k += 2;
        } else if c == '(' {
            extra += 1;
            k += 1;
        } else if c == ')' {
            if extra == 0 {
                assert(paren_end(s@, k + 1, 0) == k + 1);
                return k + 1;
            }
            extra -= 1;
            k += 1;
        } else {
            k += 1;
        }
    }
    k
}

fn text_of(s: &Vec<char>, a: usize, b: usize) -> (r: String)
    requires
        a <= b <= s.len(),
    ensures
        r@ == s@.subrange(a as int, b as int),
{
    string_from_chars(&sub_chars(s, a, b))
}

fn is_legacy_element(name: &Vec<char>) -> (r: bool)
    ensures
        r == legacy_element(name@),
{
    chars_eq(name, &chars_of("before")) || chars_eq(name, &chars_of("after")) || chars_eq(
        name,
        &chars_of("first-line"),
    ) || chars_eq(name, &chars_of("first-letter"))
}

proof fn lemma_toks_push(v: Seq<SelToken>, x: SelToken)
    ensures
        toks_view(v.push(x)) == toks_view(v).push(tok_view(x)),
{
    assert(toks_view(v.push(x)) =~= toks_view(v).push(tok_view(x)));
}

fn tokenize_chars(s: &Vec<char>) -> (r: Vec<SelToken>)
    ensures
        toks_view(r@) == tok_scan(s@, 0),
{
    let mut toks: Vec<SelToken> = Vec::new();
    let mut i: usize = 0;
    while i < s.len()
        invariant
            i <= s@.len(),
            toks_view(toks@) + tok_scan(s@, i as int) == tok_scan(s@, 0),
        decreases s@.len() - i,
    {
        let ghost done = toks_view(toks@);
        let c = s[i];
        if is_ascii_ws(c) {
            i += 1;
        } else {
            let ghost before_toks = toks@;
            let mut x: Option<SelToken> = None;
            let mut next: usize = i + 1;
            if c == '.' || c == '#' {
                let j = esc_ident_end_at(s, i + 1);
                let name = text_of(s, i + 1, j);
                x = Some(
                    if c == '.' {
                        SelToken::Class(name)
                    } else {
                        SelToken::Id(name)
                    },
                );
                next = j;
            } else if c == '[' {
                let j = attr_end_at(s, i + 1);
                x = Some(SelToken::Attribute(text_of(s, i, j)));
                next = j;
            } else if c == ':' {
                let dbl = i + 1 < s.len() && s[i + 1] == ':';
                let ns = if dbl {
                    i + 2
                } else {
                    i + 1
                };
                let j = esc_ident_end_at(s, ns);
                let is_el = dbl || is_legacy_element(&sub_chars(s, ns, j));
                if j < s.len() && s[j] == '(' {
                    let k = paren_end_at(s, j + 1);
                    x = Some(
                        SelToken::Pseudo { text: text_of(s, i, k), has_subnodes: true, is_element: is_el },
                    );
                    next = k;
                } else {
                    x = Some(
                        SelToken::Pseudo { text: text_of(s, i, j), has_subnodes: false, is_element: is_el },
                    );
                    next = j;
                }
            } else if c == '*' {
                x = Some(SelToken::Universal);
            } else if c == '>' || c == '+' || c == '~' {
                x = Some(SelToken::Combinator(text_of(s, i, i + 1)));
                proof {
                    assert(s@.subrange(i as int, i + 1) =~= seq![c]);
                }
            } else if is_ident_c(c) {
                let j = esc_ident_end_at(s, i);
                x = Some(SelToken::Tag(text_of(s, i, j)));
                next = j;
            }
            match x {
                Some(tok) => {
                    proof {
                        lemma_toks_push(toks@, tok);
                        assert(done + (seq![tok_view(tok)] + tok_scan(s@, next as int)) =~= done.push(
                            tok_view(tok),
                        ) + tok_scan(s@, next as int));
                    }
                    toks.push(tok);
                },
                None => {},
            }
            i = next;
        }
    }
    proof {
        assert(toks_view(toks@) + Seq::<TokModel>::empty() =~= toks_view(toks@));
    }
    toks
}

/// The nodes of a compound selector (`tok_scan`).
pub fn tokenize_compound(input: &str) -> (r: Vec<SelToken>)
    ensures
        toks_view(r@) == tok_scan(input@, 0),
{
    tokenize_chars(&chars_of(input))
}

fn last_compound_chars(s: &Vec<char>) -> (r: Vec<char>)
    ensures
        r@ == last_compound_spec(s@),
{
    proof {
        lemma_last_compound_start_bounds(s@, 0, 0, 0, 0);
    }
    let mut i: usize = 0;
    let mut start: usize = 0;
    let mut po: usize = 0;
    let mut pc: usize = 0;
    let mut bo: usize = 0;
    let mut bc: usize = 0;
    while i < s.len()
        invariant
            start <= i <= s@.len(),
            po <= i && pc <= i && bo <= i && bc <= i,
            last_compound_start(s@, i as int, po - pc, bo - bc, start as int) == last_compound_start(
                s@,
                0,
                0,
                0,
                0,
            ),
        decreases s@.len() - i,
    {
        let c = s[i];
        if c == '\\' && i + 1 < s.len() {
            i += 2;
        } else if c == '(' {
            po += 1;
            i += 1;
        } else if c == ')' {
            pc += 1;
            i += 1;
        } else if c == '[' {
            bo += 1;
            i += 1;
        } else if c == ']' {
            bc += 1;
            i += 1;
        } else if (c == ' ' || c == '\t') && po == pc && bo == bc {
            let mut p = i;
            while p > start && is_ascii_ws(s[p - 1])
                invariant
                    start <= p <= i < s@.len(),
                    prev_non_ws(s@, start as int, p as int) == prev_non_ws(
                        s@,
                        start as int,
                        i as int,
                    ),
                decreases p,
            {
                p -= 1;
            }
            let was_comb = p > start && (s[p - 1] == '>' || s[p - 1] == '+' || s[p - 1] == '~');
            proof {
                lemma_ws_run_end_bounds(s@, i + 1);
            }
            let mut e = i + 1;
            while e < s.len() && is_ascii_ws(s[e])
                invariant
                    i + 1 <= e <= s@.len(),
                    ws_run_end(s@, e as int) == ws_run_end(s@, i as int),
                decreases s@.len() - e,
            {
                e += 1;
            }
            if !was_comb && e < s.len() && !(s[e] == '>' || s[e] == '+' || s[e] == '~') {
                start = e;
            }
            i = e;
        } else {
            i += 1;
        }
    }
    let tail = sub_chars(s, start, s.len());
    assert(tail@ =~= s@.skip(start as int));
    trim_chars(&tail)
}

/// The last compound of a selector (`last_compound_spec`).
pub fn take_last_compound(selector: &str) -> (r: String)
    ensures
        r@ == last_compound_spec(selector@),
{
    string_from_chars(&last_compound_chars(&chars_of(selector)))
}

fn clone_tok(t: &SelToken) -> (r: SelToken)
    ensures
        tok_view(r) == tok_view(*t),
{
    match t {
        SelToken::Tag(s) => SelToken::Tag(s.clone()),
        SelToken::Class(s) => SelToken::Class(s.clone()),
        SelToken::Id(s) => SelToken::Id(s.clone()),
        SelToken::Attribute(s) => SelToken::Attribute(s.clone()),
        SelToken::Pseudo { text, has_subnodes, is_element } => SelToken::Pseudo {
            text: text.clone(),
            has_subnodes: *has_subnodes,
            is_element: *is_element,
        },
        SelToken::Combinator(s) => SelToken::Combinator(s.clone()),
        SelToken::Universal => SelToken::Universal,
    }
}

fn anchor_chars(t: &SelToken) -> (r: Vec<char>)
    ensures
        r@ == anchor_text(tok_view(*t)),
{
    match t {
        SelToken::Id(name) => {
            let n = chars_of(name.as_str());
            let mut k: usize = 0;
            while k < n.len() && is_ident_c(n[k])
                invariant
                    k <= n@.len(),
                    forall|m: int| 0 <= m < k ==> ident_c(#[trigger] n@[m]),
                decreases n@.len() - k,
            {
                k += 1;
            }
            let plain = k == n.len();
            let mut out = chars_of("[id=");
            if !plain {
                out.push('"');
            }
            extend_chars(&mut out, &n);
            if !plain {
                out.push('"');
            }
            out.push(']');
            proof {
                reveal_strlit("[id=");
                reveal_strlit("[id=\"");
                reveal_strlit("\"]");
                if plain {
                    assert(out@ =~= "[id="@ + n@ + seq![']']);
                } else {
                    assert(!ident_c(n@[k as int]));
                    assert(out@ =~= "[id=\""@ + n@ + "\"]"@);
                }
            }
            out
        },
        _ => chars_of(t.text().as_str()),
    }
}

fn is_anchor_tok(t: &SelToken) -> (r: bool)
    ensures
        r == is_anchor(tok_view(*t)),
{
    match t {
        SelToken::Tag(_) => true,
        SelToken::Class(_) => true,
        SelToken::Id(_) => true,
        SelToken::Attribute(_) => true,
        _ => false,
    }
}

/// A selector reduced to its least specific form (`reduce_spec`).
pub fn reduce_to_element_selector(selector: &str) -> (r: String)
    ensures
        r@ == reduce_spec(selector@),
{
    let last = last_compound_chars(&chars_of(selector));
    let toks = tokenize_chars(&last);
    let ghost tv = toks_view(toks@);
    let mut f: Vec<SelToken> = Vec::new();
    let mut k: usize = 0;
    while k < toks.len()
        invariant
            k <= toks@.len(),
            tv == toks_view(toks@),
            toks_view(f@) == kept_toks(tv, k as int),
        decreases toks@.len() - k,
    {
        assert(tv[k as int] == tok_view(toks@[k as int]));
        let keep = match &toks[k] {
            SelToken::Pseudo { has_subnodes, is_element, .. } => *has_subnodes || *is_element,
            _ => true,
        };
        if keep {
            let x = clone_tok(&toks[k]);
            proof {
                lemma_toks_push(f@, x);
            }
            f.push(x);
        }
        k += 1;
    }
    let ghost fv = toks_view(f@);
    let mut a: usize = f.len();
    while a > 0 && !is_anchor_tok(&f[a - 1])
        invariant
            a <= f@.len(),
            fv == toks_view(f@),
            last_anchor(fv, a as int) == last_anchor(fv, f@.len() as int),
        decreases a,
    {
        assert(fv[a - 1] == tok_view(f@[a - 1]));
        a -= 1;
    }
    let mut out: Vec<char> = Vec::new();
    let from: usize = if a == 0 {
        0
    } else {
        assert(fv[a - 1] == tok_view(f@[a - 1]));
        let anchor = anchor_chars(&f[a - 1]);
        extend_chars(&mut out, &anchor);
        a
    };
    let ghost head = out@;
    let mut m: usize = from;
    while m < f.len()
        invariant
            from <= m <= f@.len(),
            fv == toks_view(f@),
            out@ == head + texts_of(fv, from as int, m as int),
        decreases f@.len() - m,
    {
        assert(fv[m as int] == tok_view(f@[m as int]));
        let piece = chars_of(f[m].text().as_str());
        extend_chars(&mut out, &piece);
        m += 1;
    }
    proof {
        if a == 0 {
            assert(head =~= Seq::<char>::empty());
            assert(out@ =~= texts_of(fv, 0, fv.len() as int));
        }
    }
    string_from_chars(&trim_chars(&out))
}

/// Split a selector list at its top-level commas (`commas_owned_scan`).
pub fn split_top_level_commas_owned(selector: &str) -> (r: Vec<String>)
    ensures
        r@.map_values(|p: String| p@) == commas_owned_scan(selector@, 0, 0, 0, 0),
{
    let s = chars_of(selector);
    let mut parts: Vec<String> = Vec::new();
    let mut i: usize = 0;
    let mut start: usize = 0;
    let mut po: usize = 0;
    let mut pc: usize = 0;
    let mut bo: usize = 0;
    let mut bc: usize = 0;
    while i < s.len()
        invariant
            s@ == selector@,
            start <= i <= s@.len(),
            po <= i && pc <= i && bo <= i && bc <= i,
            parts@.map_values(|p: String| p@) + commas_owned_scan(
                s@,
                i as int,
                po - pc,
                bo - bc,
                start as int,
            ) == commas_owned_scan(s@, 0, 0, 0, 0),
        decreases s@.len() - i,
    {
        let c = s[i];
        if c == '\\' && i + 1 < s.len() {
            i += 2;
        } else if c == '(' {
            po += 1;
            i += 1;
        } else if c == ')' {
            pc += 1;
            i += 1;
        } else if c == '[' {
            bo += 1;
            i += 1;
        } else if c == ']' {
            bc += 1;
            i += 1;
        } else if c == ',' && po == pc && bo == bc {
            let t = string_from_chars(&trim_chars(&sub_chars(&s, start, i)));
            let ghost before = parts@.map_values(|p: String| p@);
            parts.push(t);
            assert(parts@.map_values(|p: String| p@) =~= before.push(t@));
            assert(before + (seq![t@] + commas_owned_scan(s@, i + 1, po - pc, bo - bc, i + 1))
                =~= before.push(t@) + commas_owned_scan(s@, i + 1, po - pc, bo - bc, i + 1));
            i += 1;
            start = i;
        } else {
            i += 1;
        }
    }
    let t = string_from_chars(&trim_chars(&sub_chars(&s, start, s.len())));
    let ghost before = parts@.map_values(|p: String| p@);
    parts.push(t);
    assert(parts@.map_values(|p: String| p@) =~= before.push(t@));
    parts
}

} // verus!
