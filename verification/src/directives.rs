//! Selector text surgery for directive processing: splitting selector
//! lists, finding classes, and substituting a class with a parent
//! selector the way `@apply` and user-layer utilities need it.
//!
//! Everything here works on the selector's characters. Strings, escapes,
//! parentheses and brackets are tracked so that a class inside
//! `[data-x='.a']` or `:nth-child(2n)` is left alone.
use vstd::prelude::*;
use crate::plugins::strings_view;
use crate::selector_ast::{
    lemma_sels_view, move_pseudos_in_selector, move_pseudos_spec, parse_list, parse_selector_list,
    ser_list,
    serialize_selector_list, sels_view, SelNode, SelectorAst,
};
use crate::json::{json_get, member_from, JsonValue};
use crate::text::{
    ascii_alnum, chars_eq, chars_of, extend_chars, has_prefix_at, is_ascii_alnum,
    lemma_quote_end_bounds, prefix_at, quote_end, quote_end_at, string_from_chars, sub_chars,
    trim_chars, trim_spec,
};

verus! {

// ---------------------------------------------------------------------
// Compounds and their tokens
// ---------------------------------------------------------------------

/// A combinator or list separator: what ends a compound selector.
pub open spec fn compound_sep(c: char) -> bool {
    c == ' ' || c == '\t' || c == ',' || c == '>' || c == '+' || c == '~'
}

/// An identifier character: ASCII letter or digit, `-` or `_`.
pub open spec fn ident_char(c: char) -> bool {
    ascii_alnum(c) || c == '-' || c == '_'
}

/// The start of the compound that contains position `pos`: the position
/// after the nearest separator to its left that stands outside
/// parentheses and brackets, or 0.
pub open spec fn left_boundary(s: Seq<char>, pos: int) -> int {
    if pos > s.len() {
        pos
    } else {
        left_scan(s, pos, 0, 0)
    }
}

/// The leftward scan of `left_boundary`, `dp` and `db` closing
/// parentheses and brackets being open to the right of `pos`.
pub open spec fn left_scan(s: Seq<char>, pos: int, dp: nat, db: nat) -> int
    decreases pos,
{
    if pos <= 0 || pos > s.len() {
        0
    } else {
        let c = s[pos - 1];
        if c == ')' {
            left_scan(s, pos - 1, dp + 1, db)
        } else if c == '(' && dp > 0 {
            left_scan(s, pos - 1, (dp - 1) as nat, db)
        } else if c == ']' {
            left_scan(s, pos - 1, dp, db + 1)
        } else if c == '[' && db > 0 {
            left_scan(s, pos - 1, dp, (db - 1) as nat)
        } else if dp == 0 && db == 0 && compound_sep(c) {
            pos
        } else {
            left_scan(s, pos - 1, dp, db)
        }
    }
}

pub proof fn lemma_left_scan_bounds(s: Seq<char>, pos: int, dp: nat, db: nat)
    requires
        0 <= pos <= s.len(),
    ensures
        0 <= left_scan(s, pos, dp, db) <= pos,
    decreases pos,
{
    if pos > 0 {
        let c = s[pos - 1];
        if c == ')' {
            lemma_left_scan_bounds(s, pos - 1, dp + 1, db);
        } else if c == '(' && dp > 0 {
            lemma_left_scan_bounds(s, pos - 1, (dp - 1) as nat, db);
        } else if c == ']' {
            lemma_left_scan_bounds(s, pos - 1, dp, db + 1);
        } else if c == '[' && db > 0 {
            lemma_left_scan_bounds(s, pos - 1, dp, (db - 1) as nat);
        } else if dp == 0 && db == 0 && compound_sep(c) {
        } else {
            lemma_left_scan_bounds(s, pos - 1, dp, db);
        }
    }
}

/// The position after the group that closes with `close` once `depth`
/// groups of `open` are open at `i` (the end when it never closes).
/// Nothing but the two characters counts.
pub open spec fn group_end(s: Seq<char>, i: int, depth: nat, open: char, close: char) -> int
    decreases s.len() - i,
{
    if !(0 <= i < s.len()) || depth == 0 {
        i
    } else if s[i] == open {
        group_end(s, i + 1, depth + 1, open, close)
    } else if s[i] == close {
        group_end(s, i + 1, (depth - 1) as nat, open, close)
    } else {
        group_end(s, i + 1, depth, open, close)
    }
}

/// The end of the compound whose scan is at `i`: the first separator
/// outside strings, escapes, parentheses and brackets, or the end.
pub open spec fn right_boundary(s: Seq<char>, i: int) -> int
    decreases s.len() - i,
{
    if !(0 <= i < s.len()) {
        s.len() as int
    } else if compound_sep(s[i]) {
        i
    } else if s[i] == '\\' && i + 1 < s.len() {
        right_boundary(s, i + 2)
    } else if s[i] == '"' || s[i] == '\'' {
        proof {
            lemma_quote_end_bounds(s, i + 1, s[i]);
        }
        right_boundary(s, quote_end(s, i + 1, s[i]))
    } else if s[i] == '(' {
        proof {
            lemma_group_end_bounds(s, i + 1, 1, '(', ')');
        }
        right_boundary(s, group_end(s, i + 1, 1, '(', ')'))
    } else if s[i] == '[' {
        proof {
            lemma_group_end_bounds(s, i + 1, 1, '[', ']');
        }
        right_boundary(s, group_end(s, i + 1, 1, '[', ']'))
    } else {
        right_boundary(s, i + 1)
    }
}

pub proof fn lemma_group_end_bounds(s: Seq<char>, i: int, depth: nat, open: char, close: char)
    requires
        0 <= i <= s.len(),
    ensures
        i <= group_end(s, i, depth, open, close) <= s.len(),
    decreases s.len() - i,
{
    if i < s.len() && depth > 0 {
        if s[i] == open {
            lemma_group_end_bounds(s, i + 1, depth + 1, open, close);
        } else if s[i] == close {
            lemma_group_end_bounds(s, i + 1, (depth - 1) as nat, open, close);
        } else {
            lemma_group_end_bounds(s, i + 1, depth, open, close);
        }
    }
}

pub proof fn lemma_right_boundary_bounds(s: Seq<char>, i: int)
    requires
        0 <= i <= s.len(),
    ensures
        i <= right_boundary(s, i) <= s.len(),
    decreases s.len() - i,
{
    if i < s.len() && !compound_sep(s[i]) {
        if s[i] == '\\' && i + 1 < s.len() {
            lemma_right_boundary_bounds(s, i + 2);
        } else if s[i] == '"' || s[i] == '\'' {
            lemma_quote_end_bounds(s, i + 1, s[i]);
            lemma_right_boundary_bounds(s, quote_end(s, i + 1, s[i]));
        } else if s[i] == '(' {
            lemma_group_end_bounds(s, i + 1, 1, '(', ')');
            lemma_right_boundary_bounds(s, group_end(s, i + 1, 1, '(', ')'));
        } else if s[i] == '[' {
            lemma_group_end_bounds(s, i + 1, 1, '[', ']');
            lemma_right_boundary_bounds(s, group_end(s, i + 1, 1, '[', ']'));
        } else {
            lemma_right_boundary_bounds(s, i + 1);
        }
    }
}

pub proof fn lemma_left_boundary_bounds(s: Seq<char>, pos: int)
    requires
        0 <= pos <= s.len(),
    ensures
        0 <= left_boundary(s, pos) <= pos,
{
    lemma_left_scan_bounds(s, pos, 0, 0);
}

/// The kinds of the pieces of a compound selector.
#[derive(Clone, Copy, Debug, PartialEq, Eq)]
pub enum TokenKind {
    Tag,
    Class,
    Id,
    Attr,
    PseudoClass,
    PseudoElement,
    Other,
}

/// The end of an identifier run (`ident_char`s) that starts at `i`.
pub open spec fn ident_run_end(s: Seq<char>, i: int) -> int
    decreases s.len() - i,
{
    if 0 <= i < s.len() && ident_char(s[i]) {
        ident_run_end(s, i + 1)
    } else {
        i
    }
}

/// The end of a class token's name that starts at `i`: identifier
/// characters and `\x` escapes.
pub open spec fn class_token_end(s: Seq<char>, i: int) -> int
    decreases s.len() - i,
{
    if !(0 <= i < s.len()) {
        i
    } else if s[i] == '\\' && i + 1 < s.len() {
        class_token_end(s, i + 2)
    } else if ident_char(s[i]) {
        class_token_end(s, i + 1)
    } else {
        i
    }
}

pub proof fn lemma_ident_run_end_bounds(s: Seq<char>, i: int)
    requires
        0 <= i <= s.len(),
    ensures
        i <= ident_run_end(s, i) <= s.len(),
    decreases s.len() - i,
{
    if i < s.len() && ident_char(s[i]) {
        lemma_ident_run_end_bounds(s, i + 1);
    }
}

pub proof fn lemma_class_token_end_bounds(s: Seq<char>, i: int)
    requires
        0 <= i <= s.len(),
    ensures
        i <= class_token_end(s, i) <= s.len(),
    decreases s.len() - i,
{
    if i < s.len() {
        if s[i] == '\\' && i + 1 < s.len() {
            lemma_class_token_end_bounds(s, i + 2);
        } else if ident_char(s[i]) {
            lemma_class_token_end_bounds(s, i + 1);
        }
    }
}

/// The kind and end of the token of compound `s` that starts at `i`:
/// `.class` (with escapes), `#id`, `[attr]` (to its matching `]`),
/// `:pseudo` or `::pseudo-element` (with a parenthesised argument), `*`
/// or a tag name; any other character is a token of its own.
pub open spec fn token_at(s: Seq<char>, i: int) -> (TokenKind, int) {
    if s[i] == '.' {
        (TokenKind::Class, class_token_end(s, i + 1))
    } else if s[i] == '#' {
        (TokenKind::Id, ident_run_end(s, i + 1))
    } else if s[i] == '[' {
        (TokenKind::Attr, group_end(s, i + 1, 1, '[', ']'))
    } else if s[i] == ':' {
        let element = i + 1 < s.len() && s[i + 1] == ':';
        let j = ident_run_end(
            s,
            if element {
                i + 2
            } else {
                i + 1
            },
        );
        let e = if j < s.len() && s[j] == '(' {
            group_end(s, j + 1, 1, '(', ')')
        } else {
            j
        };
        (
            if element {
                TokenKind::PseudoElement
            } else {
                TokenKind::PseudoClass
            },
            e,
        )
    } else if s[i] == '*' {
        (TokenKind::Tag, i + 1)
    } else if ('a' <= s[i] && s[i] <= 'z') || ('A' <= s[i] && s[i] <= 'Z') {
        (TokenKind::Tag, ident_run_end(s, i))
    } else {
        (TokenKind::Other, i + 1)
    }
}

pub proof fn lemma_token_at_bounds(s: Seq<char>, i: int)
    requires
        0 <= i < s.len(),
    ensures
        i < token_at(s, i).1 <= s.len(),
{
    if s[i] == '.' {
        lemma_class_token_end_bounds(s, i + 1);
    } else if s[i] == '#' {
        lemma_ident_run_end_bounds(s, i + 1);
    } else if s[i] == '[' {
        lemma_group_end_bounds(s, i + 1, 1, '[', ']');
    } else if s[i] == ':' {
        let element = i + 1 < s.len() && s[i + 1] == ':';
        let k = if element {
            i + 2
        } else {
            i + 1
        };
        lemma_ident_run_end_bounds(s, k);
        let j = ident_run_end(s, k);
        if j < s.len() && s[j] == '(' {
            lemma_group_end_bounds(s, j + 1, 1, '(', ')');
        }
    } else if ('a' <= s[i] && s[i] <= 'z') || ('A' <= s[i] && s[i] <= 'Z') {
        assert(ident_char(s[i]));
        lemma_ident_run_end_bounds(s, i + 1);
    }
}

/// A token as plain values: its kind and its text.
pub type TokenModel = (TokenKind, Seq<char>);

/// The tokens of compound `s` from position `i` on, in order.
pub open spec fn tokens_from(s: Seq<char>, i: int) -> Seq<TokenModel>
    decreases s.len() - i,
{
    if !(0 <= i < s.len()) {
        Seq::empty()
    } else {
        proof {
            lemma_token_at_bounds(s, i);
        }
        let (k, e) = token_at(s, i);
        seq![(k, s.subrange(i, e))] + tokens_from(s, e)
    }
}

pub open spec fn tokenize_spec(s: Seq<char>) -> Seq<TokenModel> {
    tokens_from(s, 0)
}

/// The characters of the tokens, in order.
pub open spec fn tokens_text(ts: Seq<TokenModel>) -> Seq<char>
    decreases ts.len(),
{
    if ts.len() == 0 {
        Seq::empty()
    } else {
        ts[0].1 + tokens_text(ts.drop_first())
    }
}

proof fn lemma_tokens_from_text(s: Seq<char>, i: int)
    requires
        0 <= i <= s.len(),
    ensures
        tokens_text(tokens_from(s, i)) == s.skip(i),
    decreases s.len() - i,
{
    if i < s.len() {
        lemma_token_at_bounds(s, i);
        let e = token_at(s, i).1;
        lemma_tokens_from_text(s, e);
        let ts = tokens_from(s, i);
        assert(ts.drop_first() =~= tokens_from(s, e));
        assert(s.skip(i) =~= s.subrange(i, e) + s.skip(e));
    } else {
        assert(s.skip(i) =~= Seq::<char>::empty());
    }
}

/// The tokens of a compound, read in order, give the compound back: the
/// tokenizer neither drops nor adds a character.
pub proof fn law_tokens_cover_the_compound(s: Seq<char>)
    ensures
        tokens_text(tokenize_spec(s)) == s,
{
    lemma_tokens_from_text(s, 0);
    assert(s.skip(0) =~= s);
}

/// The kind a token's leading characters give it: `.` a class, `#` an
/// id, `[` an attribute, `::` a pseudo-element, another `:` a
/// pseudo-class, `*` or an ASCII letter a tag, anything else other.
pub open spec fn kind_by_lead(t: Seq<char>) -> TokenKind {
    if t[0] == '.' {
        TokenKind::Class
    } else if t[0] == '#' {
        TokenKind::Id
    } else if t[0] == '[' {
        TokenKind::Attr
    } else if t[0] == ':' {
        if t.len() > 1 && t[1] == ':' {
            TokenKind::PseudoElement
        } else {
            TokenKind::PseudoClass
        }
    } else if t[0] == '*' || ('a' <= t[0] && t[0] <= 'z') || ('A' <= t[0] && t[0] <= 'Z') {
        TokenKind::Tag
    } else {
        TokenKind::Other
    }
}

proof fn lemma_tokens_from_lead(s: Seq<char>, i: int)
    requires
        0 <= i <= s.len(),
    ensures
        forall|k: int|
            0 <= k < tokens_from(s, i).len() ==> (#[trigger] tokens_from(s, i)[k]).1.len() > 0
                && tokens_from(s, i)[k].0 == kind_by_lead(tokens_from(s, i)[k].1),
    decreases s.len() - i,
{
    if i < s.len() {
        lemma_token_at_bounds(s, i);
        let e = token_at(s, i).1;
        lemma_tokens_from_lead(s, e);
        let ts = tokens_from(s, i);
        let t = s.subrange(i, e);
        assert(ts[0] == (token_at(s, i).0, t));
        assert(t[0] == s[i]);
        if e > i + 1 {
            assert(t[1] == s[i + 1]);
        }
        if s[i] == ':' && i + 1 < s.len() && s[i + 1] == ':' {
            lemma_ident_run_end_bounds(s, i + 2);
        }
        assert forall|k: int| 0 <= k < ts.len() implies (#[trigger] ts[k]).1.len() > 0 && ts[k].0
            == kind_by_lead(ts[k].1) by {
            if k > 0 {
                assert(ts[k] == tokens_from(s, e)[k - 1]);
            }
        }
    }
}

/// Every token of a compound has at least one character, and its kind is
/// the one its leading characters give.
pub proof fn law_tokens_are_led_by_their_kind(s: Seq<char>)
    ensures
        forall|k: int|
            0 <= k < tokenize_spec(s).len() ==> (#[trigger] tokenize_spec(s)[k]).1.len() > 0
                && tokenize_spec(s)[k].0 == kind_by_lead(tokenize_spec(s)[k].1),
{
    lemma_tokens_from_lead(s, 0);
}

/// One token: its kind and characters.
pub struct CompoundToken {
    pub kind: TokenKind,
    pub text: Vec<char>,
}

pub open spec fn token_view(t: CompoundToken) -> TokenModel {
    (t.kind, t.text@)
}

pub open spec fn tokens_view(ts: Seq<CompoundToken>) -> Seq<TokenModel> {
    ts.map_values(|t: CompoundToken| token_view(t))
}

pub fn is_ident_char(c: char) -> (r: bool)
    ensures
        r == ident_char(c),
{
    is_ascii_alnum(c) || c == '-' || c == '_'
}

pub fn ident_run_end_at(s: &Vec<char>, start: usize) -> (e: usize)
    requires
        start <= s@.len(),
    ensures
        e == ident_run_end(s@, start as int),
{
    let mut i = start;
    while i < s.len() && is_ident_char(s[i])
        invariant
            start <= i <= s@.len(),
            ident_run_end(s@, i as int) == ident_run_end(s@, start as int),
        decreases s@.len() - i,
    {
        i += 1;
    }
    i
}

fn class_token_end_at(s: &Vec<char>, start: usize) -> (e: usize)
    requires
        start <= s@.len(),
    ensures
        e == class_token_end(s@, start as int),
{
    let mut i = start;
    while i < s.len()
        invariant
            start <= i <= s@.len(),
            class_token_end(s@, i as int) == class_token_end(s@, start as int),
        decreases s@.len() - i,
    {
        if s[i] == '\\' && i + 1 < s.len() {
            i += 2;
        } else if is_ident_char(s[i]) {
            i += 1;
        } else {
            return i;
        }
    }
    i
}

pub fn group_end_at(s: &Vec<char>, start: usize, open: char, close: char) -> (e: usize)
    requires
        1 <= start <= s@.len(),
    ensures
        e == group_end(s@, start as int, 1, open, close),
{
    let mut i = start;
    let mut depth: usize = 1;
    while i < s.len() && depth > 0
        invariant
            1 <= start <= i <= s@.len(),
            depth <= i - start + 1,
            group_end(s@, i as int, depth as nat, open, close) == group_end(
                s@,
                start as int,
                1,
                open,
                close,
            ),
        decreases s@.len() - i,
    {
        if s[i] == open {
            depth += 1;
        } else if s[i] == close {
            depth -= 1;
        }
        i += 1;
    }
    i
}

fn token_at_exec(s: &Vec<char>, i: usize) -> (r: (TokenKind, usize))
    requires
        i < s.len(),
    ensures
        r.0 == token_at(s@, i as int).0,
        r.1 == token_at(s@, i as int).1,
{
    let c = s[i];
    if c == '.' {
        (TokenKind::Class, class_token_end_at(s, i + 1))
    } else if c == '#' {
        (TokenKind::Id, ident_run_end_at(s, i + 1))
    } else if c == '[' {
        (TokenKind::Attr, group_end_at(s, i + 1, '[', ']'))
    } else if c == ':' {
        let element = i + 1 < s.len() && s[i + 1] == ':';
        let j = ident_run_end_at(
            s,
            if element {
                i + 2
            } else {
                i + 1
            },
        );
        proof {
            lemma_ident_run_end_bounds(
                s@,
                if element {
                    i + 2
                } else {
                    i + 1
                },
            );
        }
        let e = if j < s.len() && s[j] == '(' {
            group_end_at(s, j + 1, '(', ')')
        } else {
            j
        };
        (
            if element {
                TokenKind::PseudoElement
            } else {
                TokenKind::PseudoClass
            },
            e,
        )
    } else if c == '*' {
        (TokenKind::Tag, i + 1)
    } else if ('a' <= c && c <= 'z') || ('A' <= c && c <= 'Z') {
        (TokenKind::Tag, ident_run_end_at(s, i))
    } else {
        (TokenKind::Other, i + 1)
    }
}

/// Split a compound selector (one without combinators) into its tokens,
/// in order; see `token_at`.
pub fn tokenize_compound(compound: &Vec<char>) -> (r: Vec<CompoundToken>)
    ensures
        tokens_view(r@) == tokenize_spec(compound@),
{
    let mut out: Vec<CompoundToken> = Vec::new();
    let mut i: usize = 0;
    while i < compound.len()
        invariant
            i <= compound@.len(),
            tokens_view(out@) + tokens_from(compound@, i as int) == tokenize_spec(compound@),
        decreases compound@.len() - i,
    {
        proof {
            lemma_token_at_bounds(compound@, i as int);
        }
        let (kind, e) = token_at_exec(compound, i);
        let ghost before = tokens_view(out@);
        let text = sub_chars(compound, i, e);
        out.push(CompoundToken { kind, text });
        assert(tokens_view(out@) =~= before + seq![(kind, compound@.subrange(i as int, e as int))]);
        i = e;
    }
    assert(tokens_view(out@) =~= tokens_view(out@) + tokens_from(compound@, i as int));
    out
}

fn compound_left_boundary(s: &Vec<char>, pos: usize) -> (r: usize)
    requires
        pos <= s@.len(),
    ensures
        r == left_boundary(s@, pos as int),
{
    let mut i = pos;
    let mut dp: usize = 0;
    let mut db: usize = 0;
    while i > 0
        invariant
            i <= pos <= s@.len(),
            dp <= pos - i,
            db <= pos - i,
            left_scan(s@, i as int, dp as nat, db as nat) == left_boundary(s@, pos as int),
        decreases i,
    {
        let c = s[i - 1];
        if c == ')' {
            dp += 1;
        } else if c == '(' && dp > 0 {
            dp -= 1;
        } else if c == ']' {
            db += 1;
        } else if c == '[' && db > 0 {
            db -= 1;
        } else if dp == 0 && db == 0 && (c == ' ' || c == '\t' || c == ',' || c == '>' || c == '+'
            || c == '~') {
            return i;
        }
        i -= 1;
    }
    0
}

fn compound_right_boundary(s: &Vec<char>, pos: usize) -> (r: usize)
    requires
        pos <= s@.len(),
    ensures
        r == right_boundary(s@, pos as int),
{
    let mut i = pos;
    while i < s.len()
        invariant
            pos <= i <= s@.len(),
            right_boundary(s@, i as int) == right_boundary(s@, pos as int),
        decreases s@.len() - i,
    {
        let c = s[i];
        if c == ' ' || c == '\t' || c == ',' || c == '>' || c == '+' || c == '~' {
            return i;
        } else if c == '\\' && i + 1 < s.len() {
            i += 2;
        } else if c == '"' || c == '\'' {
            proof {
                lemma_quote_end_bounds(s@, i + 1, c);
            }
            i = quote_end_at(s, i + 1, c);
        } else if c == '(' {
            proof {
                lemma_group_end_bounds(s@, i + 1, 1, '(', ')');
            }
            i = group_end_at(s, i + 1, '(', ')');
        } else if c == '[' {
            proof {
                lemma_group_end_bounds(s@, i + 1, 1, '[', ']');
            }
            i = group_end_at(s, i + 1, '[', ']');
        } else {
            i += 1;
        }
    }
    i
}

// ---------------------------------------------------------------------
// Sorting a compound's tokens
// ---------------------------------------------------------------------

pub open spec fn class_like(k: TokenKind) -> bool {
    k is Class || k is Id || k is Attr
}

/// The order compound tokens are sorted by: a tag before a class, id or
/// attribute; those before a pseudo-element; every other pair in source
/// order (`a`, `b` are positions).
pub open spec fn kind_less(ka: TokenKind, a: int, kb: TokenKind, b: int) -> bool {
    if ka is Tag && class_like(kb) {
        true
    } else if class_like(ka) && kb is Tag {
        false
    } else if class_like(ka) && kb is PseudoElement {
        true
    } else if ka is PseudoElement && class_like(kb) {
        false
    } else {
        a < b
    }
}

pub open spec fn token_kinds(ts: Seq<TokenModel>) -> Seq<TokenKind> {
    ts.map_values(|t: TokenModel| t.0)
}

/// Where a stable insertion sort puts token `x` into `order` (positions
/// already sorted): left past every entry it is less than, starting
/// from `j`.
pub open spec fn insert_pos(kinds: Seq<TokenKind>, order: Seq<int>, x: int, j: int) -> int
    decreases j,
{
    if 0 < j <= order.len() && kind_less(kinds[x], x, kinds[order[j - 1]], order[j - 1]) {
        insert_pos(kinds, order, x, j - 1)
    } else {
        j
    }
}

/// The positions of the first `n` tokens in the order a stable insertion
/// sort by `kind_less` leaves them in (the order `slice::sort_by` gives
/// for up to 20 elements, and whenever `kind_less` is a strict order on
/// the tokens).
pub open spec fn sort_order(kinds: Seq<TokenKind>, n: int) -> Seq<int>
    decreases n,
{
    if n <= 0 {
        Seq::empty()
    } else {
        let prev = sort_order(kinds, n - 1);
        prev.insert(insert_pos(kinds, prev, n - 1, prev.len() as int), n - 1)
    }
}

/// The texts of the tokens at the first `m` positions of `order`, joined.
pub open spec fn concat_at(tokens: Seq<TokenModel>, order: Seq<int>, m: int) -> Seq<char>
    decreases m,
{
    if m <= 0 {
        Seq::empty()
    } else {
        concat_at(tokens, order, m - 1) + tokens[order[m - 1]].1
    }
}

/// The compound the tokens make once sorted.
pub open spec fn sorted_text(tokens: Seq<TokenModel>) -> Seq<char> {
    let order = sort_order(token_kinds(tokens), tokens.len() as int);
    concat_at(tokens, order, order.len() as int)
}

pub proof fn lemma_insert_pos_bounds(kinds: Seq<TokenKind>, order: Seq<int>, x: int, j: int)
    requires
        0 <= j <= order.len(),
    ensures
        0 <= insert_pos(kinds, order, x, j) <= j,
    decreases j,
{
    if 0 < j && kind_less(kinds[x], x, kinds[order[j - 1]], order[j - 1]) {
        lemma_insert_pos_bounds(kinds, order, x, j - 1);
    }
}

pub proof fn lemma_sort_order(kinds: Seq<TokenKind>, n: int)
    requires
        0 <= n,
    ensures
        sort_order(kinds, n).len() == n,
        forall|k: int| 0 <= k < n ==> 0 <= #[trigger] sort_order(kinds, n)[k] < n,
    decreases n,
{
    if n > 0 {
        lemma_sort_order(kinds, n - 1);
        let prev = sort_order(kinds, n - 1);
        lemma_insert_pos_bounds(kinds, prev, n - 1, prev.len() as int);
        let p = insert_pos(kinds, prev, n - 1, prev.len() as int);
        assert forall|k: int| 0 <= k < n implies 0 <= #[trigger] sort_order(kinds, n)[k] < n by {
            if k < p {
                assert(sort_order(kinds, n)[k] == prev[k]);
            } else if k > p {
                assert(sort_order(kinds, n)[k] == prev[k - 1]);
            }
        }
    }
}

fn kind_less_exec(ka: TokenKind, a: usize, kb: TokenKind, b: usize) -> (r: bool)
    ensures
        r == kind_less(ka, a as int, kb, b as int),
{
    let ca = match ka {
        TokenKind::Class | TokenKind::Id | TokenKind::Attr => true,
        _ => false,
    };
    let cb = match kb {
        TokenKind::Class | TokenKind::Id | TokenKind::Attr => true,
        _ => false,
    };
    let ta = match ka {
        TokenKind::Tag => true,
        _ => false,
    };
    let tb = match kb {
        TokenKind::Tag => true,
        _ => false,
    };
    let ea = match ka {
        TokenKind::PseudoElement => true,
        _ => false,
    };
    let eb = match kb {
        TokenKind::PseudoElement => true,
        _ => false,
    };
    if ta && cb {
        true
    } else if ca && tb {
        false
    } else if ca && eb {
        true
    } else if ea && cb {
        false
    } else {
        a < b
    }
}

pub open spec fn order_view(o: Seq<usize>) -> Seq<int> {
    o.map_values(|x: usize| x as int)
}

/// Sort a compound's tokens (see `sort_order`) and join their texts.
pub fn sort_token_list(tokens: &Vec<CompoundToken>) -> (r: Vec<char>)
    ensures
        r@ == sorted_text(tokens_view(tokens@)),
{
    let ghost tv = tokens_view(tokens@);
    let ghost kinds = token_kinds(tv);
    let n = tokens.len();
    let mut order: Vec<usize> = Vec::new();
    let mut k: usize = 0;
    while k < n
        invariant
            k <= n == tokens@.len(),
            tv == tokens_view(tokens@),
            kinds == token_kinds(tv),
            order_view(order@) == sort_order(kinds, k as int),
            order@.len() == k,
            forall|m: int| 0 <= m < k ==> #[trigger] order@[m] < k,
        decreases n - k,
    {
        let ghost ov = order_view(order@);
        let mut j = order.len();
        while j > 0 && kind_less_exec(tokens[k].kind, k, tokens[order[j - 1]].kind, order[j - 1])
            invariant
                j <= order@.len() == k < n == tokens@.len(),
                ov == order_view(order@),
                tv == tokens_view(tokens@),
                kinds == token_kinds(tv),
                forall|m: int| 0 <= m < k ==> #[trigger] order@[m] < k,
                insert_pos(kinds, ov, k as int, j as int) == insert_pos(
                    kinds,
                    ov,
                    k as int,
                    k as int,
                ),
            decreases j,
        {
            assert(kinds[order@[j - 1] as int] == tokens@[order@[j - 1] as int].kind);
            j -= 1;
        }
        proof {
            if j > 0 {
                assert(kinds[order@[j - 1] as int] == tokens@[order@[j - 1] as int].kind);
            }
            assert(kinds[k as int] == tokens@[k as int].kind);
        }
        let ghost old_o = order@;
        order.insert(j, k);
        proof {
            assert(order_view(order@) =~= ov.insert(j as int, k as int));
            assert forall|m: int| 0 <= m < k + 1 implies #[trigger] order@[m] < k + 1 by {
                if m < j {
                    assert(order@[m] == old_o[m]);
                } else if m > j {
                    assert(order@[m] == old_o[m - 1]);
                }
            }
        }
        k += 1;
    }
    let mut out: Vec<char> = Vec::new();
    let mut m: usize = 0;
    while m < order.len()
        invariant
            m <= order@.len() == n == tokens@.len(),
            tv == tokens_view(tokens@),
            forall|q: int| 0 <= q < n ==> #[trigger] order@[q] < n,
            out@ == concat_at(tv, order_view(order@), m as int),
        decreases order@.len() - m,
    {
        let idx = order[m];
        let t = &tokens[idx].text;
        let mut c: usize = 0;
        let ghost before = out@;
        while c < t.len()
            invariant
                c <= t@.len(),
                out@ == before + t@.take(c as int),
            decreases t@.len() - c,
        {
            out.push(t[c]);
            c += 1;
            assert(out@ =~= before + t@.take(c as int));
        }
        assert(t@.take(c as int) =~= t@);
        assert(tv[idx as int].1 == t@);
        m += 1;
    }
    out
}

// ---------------------------------------------------------------------
// Moving pseudo-elements to the end
// ---------------------------------------------------------------------

pub open spec fn move_all(l: Seq<Seq<SelNode>>) -> Seq<Seq<SelNode>> {
    l.map_values(|x: Seq<SelNode>| move_pseudos_spec(x))
}

/// Every selector of the list with its pseudo-elements moved to its end
/// (see `move_pseudos_spec`), printed back.
pub open spec fn move_pseudo_elements_spec(s: Seq<char>) -> Seq<char> {
    ser_list(move_all(parse_list(s)))
}

/// Hoist pseudo-elements (and the pseudo-classes attached to them) to the
/// end of each selector of a list.
pub fn move_pseudo_elements_to_end(selector: &str) -> (r: String)
    ensures
        r@ == move_pseudo_elements_spec(selector@),
{
    let mut parsed = parse_selector_list(selector);
    let ghost orig = parsed@;
    let ghost ov = sels_view(orig);
    proof {
        lemma_sels_view(orig);
    }
    let n = parsed.len();
    let mut moved: Vec<SelectorAst> = Vec::new();
    let mut k: usize = 0;
    while k < n
        invariant
            k <= n == orig.len(),
            ov == sels_view(orig),
            ov.len() == orig.len(),
            forall|i: int| 0 <= i < orig.len() ==> #[trigger] ov[i] == orig[i]@,
            parsed@ == orig.skip(k as int),
            moved@.len() == k,
            forall|i: int| 0 <= i < k ==> #[trigger] moved@[i]@ == move_pseudos_spec(ov[i]),
        decreases n - k,
    {
        let sel = parsed.remove(0);
        assert(sel == orig[k as int]);
        let m = move_pseudos_in_selector(sel);
        moved.push(m);
        k += 1;
        assert(parsed@ =~= orig.skip(k as int));
    }
    proof {
        lemma_sels_view(moved@);
        assert forall|i: int| 0 <= i < n implies sels_view(moved@)[i] == move_all(ov)[i] by {
            assert(moved@[i]@ == move_pseudos_spec(ov[i]));
        }
        assert(sels_view(moved@) =~= move_all(ov));
    }
    serialize_selector_list(moved.as_slice())
}

// ---------------------------------------------------------------------
// Replacing the first occurrence of a class
// ---------------------------------------------------------------------

pub open spec fn opt_seq(o: Option<Vec<char>>) -> Option<Seq<char>> {
    match o {
        Some(v) => Some(v@),
        None => None,
    }
}

/// A character that continues a class name: an identifier character or
/// `\`.
pub open spec fn class_continues(c: char) -> bool {
    ident_char(c) || c == '\\'
}

/// Whether the class `.c` stands, whole, with its `.` at `i`.
pub open spec fn class_at(s: Seq<char>, i: int, c: Seq<char>) -> bool {
    &&& 0 <= i < s.len()
    &&& s[i] == '.'
    &&& has_prefix_at(s, i + 1, c)
    &&& (i + 1 + c.len() == s.len() || !class_continues(s[i + 1 + c.len()]))
}

/// The position of the first class token `.name` among `ts` from `k` on,
/// or -1.
pub open spec fn first_class_token(ts: Seq<TokenModel>, name: Seq<char>, k: int) -> int
    decreases ts.len() - k,
{
    if !(0 <= k < ts.len()) {
        -1
    } else if ts[k].0 is Class && ts[k].1 == seq!['.'] + name {
        k
    } else {
        first_class_token(ts, name, k + 1)
    }
}

pub open spec fn has_tag(ts: Seq<TokenModel>) -> bool {
    exists|k: int| 0 <= k < ts.len() && (#[trigger] ts[k]).0 is Tag
}

/// The compound's tokens with the class token at `idx` replaced by the
/// replacement's tokens: in place when the replacement has a tag (which
/// the sort then moves ahead), at the front otherwise. No class token:
/// the tokens unchanged.
pub open spec fn merge_tokens(src: Seq<TokenModel>, rep: Seq<TokenModel>, idx: int) -> Seq<
    TokenModel,
> {
    if idx < 0 || idx >= src.len() {
        src
    } else if has_tag(rep) {
        src.take(idx) + rep + src.skip(idx + 1)
    } else {
        rep + src.take(idx) + src.skip(idx + 1)
    }
}

/// The selector once the class `.c` whose `.` is at `i` gives way to the
/// replacement `r`: the compound around it is tokenized, merged with the
/// replacement's tokens and sorted, and pseudo-elements are then moved to
/// the end of the selector.
pub open spec fn splice_spec(s: Seq<char>, c: Seq<char>, r: Seq<char>, i: int) -> Seq<char> {
    let cs = left_boundary(s, i);
    let ce = right_boundary(s, i + 1 + c.len());
    let src = tokenize_spec(s.subrange(cs, ce));
    let rep = tokenize_spec(r);
    let merged = merge_tokens(src, rep, first_class_token(src, c, 0));
    move_pseudo_elements_spec(s.take(cs) + sorted_text(merged) + s.skip(ce))
}

/// The first `(` at or after `i`, or the length.
pub open spec fn paren_pos(s: Seq<char>, i: int) -> int
    decreases s.len() - i,
{
    if !(0 <= i < s.len()) {
        s.len() as int
    } else if s[i] == '(' {
        i
    } else {
        paren_pos(s, i + 1)
    }
}

/// The pseudo-classes whose argument is a selector list.
pub open spec fn selector_list_pseudo(h: Seq<char>) -> bool {
    h == ":is"@ || h == ":where"@ || h == ":has"@ || h == ":not"@
}

/// The `)` that closes a group with `depth` groups open at `i`, skipping
/// strings; -1 when none.
pub open spec fn close_paren_from(s: Seq<char>, i: int, depth: nat) -> int
    decreases s.len() - i,
{
    if !(0 <= i < s.len()) {
        -1
    } else if s[i] == '"' || s[i] == '\'' {
        proof {
            lemma_quote_end_bounds(s, i + 1, s[i]);
        }
        close_paren_from(s, quote_end(s, i + 1, s[i]), depth)
    } else if s[i] == '(' {
        close_paren_from(s, i + 1, depth + 1)
    } else if s[i] == ')' {
        if depth <= 1 {
            i
        } else {
            close_paren_from(s, i + 1, (depth - 1) as nat)
        }
    } else {
        close_paren_from(s, i + 1, depth)
    }
}

pub proof fn lemma_close_paren_bounds(s: Seq<char>, i: int, depth: nat)
    requires
        0 <= i,
    ensures
        close_paren_from(s, i, depth) == -1 || i <= close_paren_from(s, i, depth) < s.len(),
    decreases s.len() - i,
{
    if 0 <= i < s.len() {
        if s[i] == '"' || s[i] == '\'' {
            lemma_quote_end_bounds(s, i + 1, s[i]);
            lemma_close_paren_bounds(s, quote_end(s, i + 1, s[i]), depth);
        } else if s[i] == '(' {
            lemma_close_paren_bounds(s, i + 1, depth + 1);
        } else if s[i] == ')' {
            if depth > 1 {
                lemma_close_paren_bounds(s, i + 1, (depth - 1) as nat);
            }
        } else {
            lemma_close_paren_bounds(s, i + 1, depth);
        }
    }
}

pub proof fn lemma_paren_pos_bounds(s: Seq<char>, i: int)
    requires
        0 <= i <= s.len(),
    ensures
        i <= paren_pos(s, i) <= s.len(),
    decreases s.len() - i,
{
    if i < s.len() && s[i] != '(' {
        lemma_paren_pos_bounds(s, i + 1);
    }
}

/// Replacing the first top-level `.c` of `s` from position `i` on, with
/// `dp` parentheses and `db` brackets open: `None` when there is none.
/// Strings and escapes are skipped; inside `:is(…)`, `:where(…)`,
/// `:has(…)` and `:not(…)` the search goes into the argument (and a hit
/// there is the result), other parenthesised arguments and brackets are
/// passed over.
pub open spec fn rfc_scan(s: Seq<char>, c: Seq<char>, r: Seq<char>, i: int, dp: int, db: int) -> Option<
    Seq<char>,
>
    decreases s.len(), s.len() - i,
{
    if !(0 <= i < s.len()) {
        None
    } else if s[i] == '\\' && i + 1 < s.len() {
        rfc_scan(s, c, r, i + 2, dp, db)
    } else if s[i] == '"' || s[i] == '\'' {
        proof {
            lemma_quote_end_bounds(s, i + 1, s[i]);
        }
        rfc_scan(s, c, r, quote_end(s, i + 1, s[i]), dp, db)
    } else if s[i] == ':' && dp == 0 && db == 0 {
        proof {
            lemma_paren_pos_bounds(s, i);
        }
        let open = paren_pos(s, i);
        if selector_list_pseudo(s.subrange(i, open)) && open < s.len() {
            proof {
                lemma_close_paren_bounds(s, open + 1, 1);
            }
            let close = close_paren_from(s, open + 1, 1);
            if close >= 0 {
                match rfc_scan(s.subrange(open + 1, close), c, r, 0, 0, 0) {
                    Some(rep) => Some(s.take(open + 1) + rep + s.skip(close)),
                    None => rfc_scan(s, c, r, close + 1, dp, db),
                }
            } else {
                rfc_scan(s, c, r, i + 1, dp, db)
            }
        } else {
            rfc_scan(s, c, r, i + 1, dp, db)
        }
    } else if s[i] == '(' {
        rfc_scan(s, c, r, i + 1, dp + 1, db)
    } else if s[i] == ')' {
        rfc_scan(s, c, r, i + 1, dp - 1, db)
    } else if s[i] == '[' {
        rfc_scan(s, c, r, i + 1, dp, db + 1)
    } else if s[i] == ']' {
        rfc_scan(s, c, r, i + 1, dp, db - 1)
    } else if dp == 0 && db == 0 && class_at(s, i, c) {
        Some(splice_spec(s, c, r, i))
    } else {
        rfc_scan(s, c, r, i + 1, dp, db)
    }
}

/// Replacing the first top-level `.c` of `s` with `r` (see `rfc_scan`).
pub open spec fn replace_first_class_spec(s: Seq<char>, c: Seq<char>, r: Seq<char>) -> Option<
    Seq<char>,
> {
    rfc_scan(s, c, r, 0, 0, 0)
}

fn class_at_exec(s: &Vec<char>, i: usize, c: &Vec<char>) -> (r: bool)
    requires
        i < s.len(),
    ensures
        r == class_at(s@, i as int, c@),
{
    if s[i] != '.' {
        return false;
    }
    if !prefix_at(s, i + 1, c) {
        return false;
    }
    let after = i + 1 + c.len();
    if after == s.len() {
        return true;
    }
    let n = s[after];
    !(is_ident_char(n) || n == '\\')
}

fn copy_token(t: &CompoundToken) -> (r: CompoundToken)
    ensures
        token_view(r) == token_view(*t),
{
    let text = sub_chars(&t.text, 0, t.text.len());
    assert(text@ =~= t.text@);
    CompoundToken { kind: t.kind, text }
}

/// Append copies of `ts[a..b]` to `out`.
fn extend_tokens(out: &mut Vec<CompoundToken>, ts: &Vec<CompoundToken>, a: usize, b: usize)
    requires
        a <= b <= ts@.len(),
    ensures
        tokens_view(final(out)@) == tokens_view(old(out)@) + tokens_view(ts@).subrange(
            a as int,
            b as int,
        ),
{
    let mut k = a;
    while k < b
        invariant
            a <= k <= b <= ts@.len(),
            tokens_view(out@) == tokens_view(old(out)@) + tokens_view(ts@).subrange(
                a as int,
                k as int,
            ),
        decreases b - k,
    {
        let ghost before = tokens_view(out@);
        let t = copy_token(&ts[k]);
        assert(token_view(t) == tokens_view(ts@)[k as int]);
        out.push(t);
        assert(tokens_view(out@) =~= before.push(token_view(t)));
        k += 1;
        assert(tokens_view(out@) =~= tokens_view(old(out)@) + tokens_view(ts@).subrange(
            a as int,
            k as int,
        ));
    }
}

fn first_class_token_exec(ts: &Vec<CompoundToken>, c: &Vec<char>) -> (r: Option<usize>)
    ensures
        match r {
            Some(k) => first_class_token(tokens_view(ts@), c@, 0) == k as int && k < ts@.len(),
            None => first_class_token(tokens_view(ts@), c@, 0) == -1,
        },
{
    let ghost tv = tokens_view(ts@);
    let mut k: usize = 0;
    while k < ts.len()
        invariant
            k <= ts@.len(),
            tv == tokens_view(ts@),
            first_class_token(tv, c@, k as int) == first_class_token(tv, c@, 0),
        decreases ts@.len() - k,
    {
        let is_class = match ts[k].kind {
            TokenKind::Class => true,
            _ => false,
        };
        let t = &ts[k].text;
        if is_class && t.len() > 0 && t.len() - 1 == c.len() && t[0] == '.' {
            let rest = sub_chars(t, 1, t.len());
            if chars_eq(&rest, c) {
                assert(t@ =~= seq!['.'] + c@);
                return Some(k);
            }
            assert(t@ != seq!['.'] + c@) by {
                if t@ == seq!['.'] + c@ {
                    assert(rest@ =~= c@);
                }
            }
        } else {
            assert(is_class && t@.len() == c@.len() + 1 ==> t@ != seq!['.'] + c@);
        }
        k += 1;
    }
    None
}

fn has_tag_exec(ts: &Vec<CompoundToken>) -> (r: bool)
    ensures
        r == has_tag(tokens_view(ts@)),
{
    let mut k: usize = 0;
    while k < ts.len()
        invariant
            k <= ts@.len(),
            forall|j: int| 0 <= j < k ==> !(ts@[j].kind is Tag),
        decreases ts@.len() - k,
    {
        match ts[k].kind {
            TokenKind::Tag => {
                assert(tokens_view(ts@)[k as int].0 is Tag);
                return true;
            },
            _ => {},
        }
        k += 1;
    }
    assert forall|j: int| 0 <= j < ts@.len() implies !((#[trigger] tokens_view(ts@)[j]).0 is Tag) by {
        assert(tokens_view(ts@)[j] == token_view(ts@[j]));
    }
    false
}

/// Replace the class `.c` whose `.` is at `i` (see `splice_spec`).
fn splice(s: &Vec<char>, c: &Vec<char>, r: &Vec<char>, i: usize) -> (out: Vec<char>)
    requires
        class_at(s@, i as int, c@),
    ensures
        out@ == splice_spec(s@, c@, r@, i as int),
{
    let slen = s.len();
    let clen = c.len();
    assert(i + 1 + clen <= slen);
    let after = i + 1 + clen;
    let cs = compound_left_boundary(s, i);
    let ce = compound_right_boundary(s, after);
    proof {
        lemma_left_boundary_bounds(s@, i as int);
        lemma_right_boundary_bounds(s@, after as int);
    }
    let compound = sub_chars(s, cs, ce);
    let src = tokenize_compound(&compound);
    let rep = tokenize_compound(r);
    let ghost sv = tokens_view(src@);
    let ghost rv = tokens_view(rep@);
    let src_len = src.len();
    let mut merged: Vec<CompoundToken> = Vec::new();
    match first_class_token_exec(&src, c) {
        Some(idx) => {
            if has_tag_exec(&rep) {
                extend_tokens(&mut merged, &src, 0, idx);
                extend_tokens(&mut merged, &rep, 0, rep.len());
                extend_tokens(&mut merged, &src, idx + 1, src.len());
                assert(tokens_view(merged@) =~= merge_tokens(sv, rv, idx as int));
            } else {
                extend_tokens(&mut merged, &rep, 0, rep.len());
                extend_tokens(&mut merged, &src, 0, idx);
                extend_tokens(&mut merged, &src, idx + 1, src.len());
                assert(tokens_view(merged@) =~= merge_tokens(sv, rv, idx as int));
            }
        },
        None => {
            extend_tokens(&mut merged, &src, 0, src.len());
            assert(tokens_view(merged@) =~= merge_tokens(sv, rv, -1));
        },
    }
    let sorted = sort_token_list(&merged);
    let mut joined = sub_chars(s, 0, cs);
    extend_chars(&mut joined, &sorted);
    let tail = sub_chars(s, ce, s.len());
    extend_chars(&mut joined, &tail);
    assert(joined@ =~= s@.take(cs as int) + sorted@ + s@.skip(ce as int));
    let text = string_from_chars(&joined);
    let moved = move_pseudo_elements_to_end(text.as_str());
    chars_of(moved.as_str())
}

fn paren_pos_at(s: &Vec<char>, start: usize) -> (r: usize)
    requires
        start <= s@.len(),
    ensures
        r == paren_pos(s@, start as int),
{
    let mut i = start;
    while i < s.len() && s[i] != '('
        invariant
            start <= i <= s@.len(),
            paren_pos(s@, i as int) == paren_pos(s@, start as int),
        decreases s@.len() - i,
    {
        i += 1;
    }
    i
}

pub fn find_matching_close_paren(s: &Vec<char>, open: usize) -> (r: Option<usize>)
    requires
        open < s.len(),
    ensures
        match r {
            Some(k) => close_paren_from(s@, open + 1, 1) == k as int && k < s.len(),
            None => close_paren_from(s@, open + 1, 1) == -1,
        },
{
    let mut i = open + 1;
    let mut extra: usize = 0;
    while i < s.len()
        invariant
            open + 1 <= i <= s@.len(),
            extra <= i,
            close_paren_from(s@, i as int, (extra + 1) as nat) == close_paren_from(
                s@,
                open + 1,
                1,
            ),
        decreases s@.len() - i,
    {
        let c = s[i];
        if c == '"' || c == '\'' {
            proof {
                lemma_quote_end_bounds(s@, i + 1, c);
            }
            i = quote_end_at(s, i + 1, c);
        } else if c == '(' {
            extra += 1;
            i += 1;
        } else if c == ')' {
            if extra == 0 {
                return Some(i);
            }
            extra -= 1;
            i += 1;
        } else {
            i += 1;
        }
    }
    None
}

fn is_selector_list_pseudo(h: &Vec<char>) -> (r: bool)
    ensures
        r == selector_list_pseudo(h@),
{
    chars_eq(h, &chars_of(":is")) || chars_eq(h, &chars_of(":where")) || chars_eq(
        h,
        &chars_of(":has"),
    ) || chars_eq(h, &chars_of(":not"))
}

/// Replace the first top-level `.c` of `s` with `r`; see `rfc_scan`.
fn replace_first_class(s: &Vec<char>, c: &Vec<char>, r: &Vec<char>) -> (out: Option<
    Vec<char>,
>)
    ensures
        opt_seq(out) == replace_first_class_spec(s@, c@, r@),
    decreases s@.len(),
{
    let mut i: usize = 0;
    let mut po: usize = 0;
    let mut pc: usize = 0;
    let mut bo: usize = 0;
    let mut bc: usize = 0;
    while i < s.len()
        invariant
            i <= s@.len(),
            po <= i && pc <= i && bo <= i && bc <= i,
            rfc_scan(s@, c@, r@, i as int, po - pc, bo - bc) == rfc_scan(s@, c@, r@, 0, 0, 0),
        decreases s@.len() - i,
    {
        let ch = s[i];
        if ch == '\\' && i + 1 < s.len() {
            i += 2;
        } else if ch == '"' || ch == '\'' {
            proof {
                lemma_quote_end_bounds(s@, i + 1, ch);
            }
            i = quote_end_at(s, i + 1, ch);
        } else if ch == ':' && po == pc && bo == bc {
            let open = paren_pos_at(s, i);
            proof {
                lemma_paren_pos_bounds(s@, i as int);
            }
            let head = sub_chars(s, i, open);
            if is_selector_list_pseudo(&head) && open < s.len() {
                proof {
                    lemma_close_paren_bounds(s@, open + 1, 1);
                }
                match find_matching_close_paren(s, open) {
                    Some(close) => {
                        let inner = sub_chars(s, open + 1, close);
                        match replace_first_class(&inner, c, r) {
                            Some(rep) => {
                                let mut out = sub_chars(s, 0, open + 1);
                                extend_chars(&mut out, &rep);
                                let tail = sub_chars(s, close, s.len());
                                extend_chars(&mut out, &tail);
                                assert(out@ =~= s@.take(open + 1) + rep@ + s@.skip(close as int));
                                return Some(out);
                            },
                            None => {
                                i = close + 1;
                            },
                        }
                    },
                    None => {
                        i += 1;
                    },
                }
            } else {
                i += 1;
            }
        } else if ch == '(' {
            po += 1;
            i += 1;
        } else if ch == ')' {
            pc += 1;
            i += 1;
        } else if ch == '[' {
            bo += 1;
            i += 1;
        } else if ch == ']' {
            bc += 1;
            i += 1;
        } else if po == pc && bo == bc && class_at_exec(s, i, c) {
            return Some(splice(s, c, r, i));
        } else {
            i += 1;
        }
    }
    None
}

// ---------------------------------------------------------------------
// Selector lists
// ---------------------------------------------------------------------

/// The trimmed comma-separated selectors of `s` from position `i` on,
/// the current one starting at `start`, with `dp` parentheses and `db`
/// brackets open. Commas inside parentheses, brackets and strings do not
/// split; an empty last selector is dropped.
pub open spec fn split_sel_scan(s: Seq<char>, i: int, dp: int, db: int, start: int) -> Seq<
    Seq<char>,
>
    decreases s.len() - i,
{
    if !(0 <= i < s.len()) {
        let tail = trim_spec(s.subrange(start, s.len() as int));
        if tail.len() > 0 {
            seq![tail]
        } else {
            Seq::empty()
        }
    } else if s[i] == '"' || s[i] == '\'' {
        proof {
            lemma_quote_end_bounds(s, i + 1, s[i]);
        }
        split_sel_scan(s, quote_end(s, i + 1, s[i]), dp, db, start)
    } else if s[i] == '(' {
        split_sel_scan(s, i + 1, dp + 1, db, start)
    } else if s[i] == ')' {
        split_sel_scan(s, i + 1, dp - 1, db, start)
    } else if s[i] == '[' {
        split_sel_scan(s, i + 1, dp, db + 1, start)
    } else if s[i] == ']' {
        split_sel_scan(s, i + 1, dp, db - 1, start)
    } else if s[i] == ',' && dp == 0 && db == 0 {
        seq![trim_spec(s.subrange(start, i))] + split_sel_scan(s, i + 1, dp, db, i + 1)
    } else {
        split_sel_scan(s, i + 1, dp, db, start)
    }
}

pub open spec fn split_selectors_spec(s: Seq<char>) -> Seq<Seq<char>> {
    split_sel_scan(s, 0, 0, 0, 0)
}

pub open spec fn chars_list_view(v: Seq<Vec<char>>) -> Seq<Seq<char>> {
    v.map_values(|x: Vec<char>| x@)
}

/// Split a selector list at its top-level commas into trimmed selectors;
/// see `split_sel_scan`.
pub fn split_top_level_selectors(input: &Vec<char>) -> (r: Vec<Vec<char>>)
    ensures
        chars_list_view(r@) == split_selectors_spec(input@),
{
    let s = input;
    let mut parts: Vec<Vec<char>> = Vec::new();
    let mut i: usize = 0;
    let mut start: usize = 0;
    let mut po: usize = 0;
    let mut pc: usize = 0;
    let mut bo: usize = 0;
    let mut bc: usize = 0;
    while i < s.len()
        invariant
            start <= i <= s@.len(),
            po <= i && pc <= i && bo <= i && bc <= i,
            chars_list_view(parts@) + split_sel_scan(
                s@,
                i as int,
                po - pc,
                bo - bc,
                start as int,
            ) == split_selectors_spec(s@),
        decreases s@.len() - i,
    {
        let ch = s[i];
        if ch == '"' || ch == '\'' {
            proof {
                lemma_quote_end_bounds(s@, i + 1, ch);
            }
            i = quote_end_at(s, i + 1, ch);
        } else if ch == '(' {
            po += 1;
            i += 1;
        } else if ch == ')' {
            pc += 1;
            i += 1;
        } else if ch == '[' {
            bo += 1;
            i += 1;
        } else if ch == ']' {
            bc += 1;
            i += 1;
        } else if ch == ',' && po == pc && bo == bc {
            let piece = sub_chars(s, start, i);
            let t = trim_chars(&piece);
            let ghost before = chars_list_view(parts@);
            parts.push(t);
            assert(chars_list_view(parts@) =~= before + seq![trim_spec(s@.subrange(start as int, i as int))]);
            i += 1;
            start = i;
        } else {
            i += 1;
        }
    }
    let piece = sub_chars(s, start, s.len());
    let t = trim_chars(&piece);
    if t.len() > 0 {
        let ghost before = chars_list_view(parts@);
        parts.push(t);
        assert(chars_list_view(parts@) =~= before + seq![t@]);
    } else {
        assert(chars_list_view(parts@) =~= chars_list_view(parts@) + Seq::<Seq<char>>::empty());
    }
    parts
}

// ---------------------------------------------------------------------
// Replacing every occurrence
// ---------------------------------------------------------------------

/// Repeating the replacement from `s` for at most `n` further rounds:
/// the text once a round finds nothing to replace or changes nothing, or
/// `None` when that takes more rounds.
pub open spec fn rounds(s: Seq<char>, c: Seq<char>, r: Seq<char>, n: nat) -> Option<Seq<char>>
    decreases n,
{
    match replace_first_class_spec(s, c, r) {
        None => Some(s),
        Some(next) => if next == s {
            Some(s)
        } else if n == 0 {
            None
        } else {
            rounds(next, c, r, (n - 1) as nat)
        },
    }
}

/// Whether repeating the replacement on `s` comes to rest. It need not:
/// a replacement that contains the class itself (`.a` by `.a.b`) grows
/// the selector without end.
pub open spec fn replacement_settles(s: Seq<char>, c: Seq<char>, r: Seq<char>) -> bool {
    exists|n: nat| (#[trigger] rounds(s, c, r, n)) is Some
}

/// Where repeating the replacement on `s` comes to rest.
pub open spec fn settled(s: Seq<char>, c: Seq<char>, r: Seq<char>) -> Seq<char> {
    rounds(s, c, r, choose|n: nat| (#[trigger] rounds(s, c, r, n)) is Some)->0
}

/// Every top-level `.c` of `s` replaced by `r`, round after round, until
/// nothing changes; `None` when the first round changes nothing.
pub open spec fn replace_all_spec(s: Seq<char>, c: Seq<char>, r: Seq<char>) -> Option<Seq<char>> {
    match replace_first_class_spec(s, c, r) {
        Some(next) => if next != s {
            Some(settled(s, c, r))
        } else {
            None
        },
        None => None,
    }
}

pub proof fn lemma_rounds_more(s: Seq<char>, c: Seq<char>, r: Seq<char>, n: nat, m: nat)
    requires
        rounds(s, c, r, n) is Some,
        n <= m,
    ensures
        rounds(s, c, r, m) == rounds(s, c, r, n),
    decreases n,
{
    match replace_first_class_spec(s, c, r) {
        None => {},
        Some(next) => {
            if next != s {
                lemma_rounds_more(next, c, r, (n - 1) as nat, (m - 1) as nat);
            }
        },
    }
}

proof fn lemma_rounds_rest(s: Seq<char>, c: Seq<char>, r: Seq<char>, n: nat)
    requires
        rounds(s, c, r, n) is Some,
    ensures
        ({
            let t = rounds(s, c, r, n)->0;
            replace_first_class_spec(t, c, r) is None || replace_first_class_spec(t, c, r) == Some(
                t,
            )
        }),
    decreases n,
{
    match replace_first_class_spec(s, c, r) {
        None => {},
        Some(next) => {
            if next != s {
                lemma_rounds_rest(next, c, r, (n - 1) as nat);
            }
        },
    }
}

/// Replacing every top-level `.c` until nothing changes ends on a
/// selector that one more replacement leaves as it is.
pub proof fn law_replace_all_reaches_a_fixpoint(s: Seq<char>, c: Seq<char>, r: Seq<char>)
    requires
        replacement_settles(s, c, r),
    ensures
        replace_all_spec(s, c, r) matches Some(t) ==> (replace_first_class_spec(t, c, r) is None
            || replace_first_class_spec(t, c, r) == Some(t)),
{
    let n = choose|n: nat| (#[trigger] rounds(s, c, r, n)) is Some;
    lemma_rounds_rest(s, c, r, n);
}

fn replace_all_classes(selector: &Vec<char>, c: &Vec<char>, r: &Vec<char>) -> (out: Option<
    Vec<char>,
>)
    requires
        replacement_settles(selector@, c@, r@),
    ensures
        opt_seq(out) == replace_all_spec(selector@, c@, r@),
{
    let ghost n0 = choose|n: nat| (#[trigger] rounds(selector@, c@, r@, n)) is Some;
    let ghost fin = settled(selector@, c@, r@);
    let mut current = sub_chars(selector, 0, selector.len());
    assert(current@ =~= selector@);
    let mut found_any = false;
    let ghost mut fuel: nat = n0;
    loop
        invariant
            rounds(current@, c@, r@, fuel) == Some(fin),
            fin == settled(selector@, c@, r@),
            !found_any ==> current@ == selector@,
            found_any ==> replace_all_spec(selector@, c@, r@) == Some(fin),
        ensures
            found_any ==> current@ == fin,
            !found_any ==> replace_all_spec(selector@, c@, r@) is None,
        decreases fuel,
    {
        match replace_first_class(&current, c, r) {
            Some(next) => {
                if chars_eq(&next, &current) {
                    break;
                }
                proof {
                    fuel = (fuel - 1) as nat;
                }
                found_any = true;
                current = next;
            },
            None => {
                break;
            },
        }
    }
    if found_any {
        Some(current)
    } else {
        None
    }
}

/// The selectors that mention `.c` with every such class replaced by `r`
/// (see `replace_all_spec`), in order; the others are dropped.
pub open spec fn replaced_all_parts(parts: Seq<Seq<char>>, c: Seq<char>, r: Seq<char>, k: int) -> Seq<
    Seq<char>,
>
    decreases k,
{
    if k <= 0 {
        Seq::empty()
    } else {
        let prev = replaced_all_parts(parts, c, r, k - 1);
        match replace_all_spec(trim_spec(parts[k - 1]), c, r) {
            Some(x) => prev.push(x),
            None => prev,
        }
    }
}

/// The selectors that mention `.c` with the first such class replaced by
/// `r` (see `replace_first_class_spec`), in order; the others are
/// dropped.
pub open spec fn replaced_first_parts(parts: Seq<Seq<char>>, c: Seq<char>, r: Seq<char>, k: int) -> Seq<
    Seq<char>,
>
    decreases k,
{
    if k <= 0 {
        Seq::empty()
    } else {
        let prev = replaced_first_parts(parts, c, r, k - 1);
        match replace_first_class_spec(trim_spec(parts[k - 1]), c, r) {
            Some(x) => prev.push(x),
            None => prev,
        }
    }
}

/// Selectors joined with `", "`.
pub open spec fn join_selectors(parts: Seq<Seq<char>>) -> Seq<char>
    decreases parts.len(),
{
    if parts.len() == 0 {
        Seq::empty()
    } else if parts.len() == 1 {
        parts[0]
    } else {
        join_selectors(parts.drop_last()) + ", "@ + parts.last()
    }
}

pub(crate) fn join_selectors_exec(parts: &Vec<Vec<char>>) -> (r: String)
    ensures
        r@ == join_selectors(chars_list_view(parts@)),
{
    let ghost pv = chars_list_view(parts@);
    let sep = chars_of(", ");
    let mut out: Vec<char> = Vec::new();
    let mut k: usize = 0;
    while k < parts.len()
        invariant
            k <= parts@.len(),
            pv == chars_list_view(parts@),
            sep@ == ", "@,
            out@ == join_selectors(pv.take(k as int)),
        decreases parts@.len() - k,
    {
        assert(pv.take(k + 1).drop_last() =~= pv.take(k as int));
        if k > 0 {
            extend_chars(&mut out, &sep);
        }
        extend_chars(&mut out, &parts[k]);
        k += 1;
        assert(out@ =~= join_selectors(pv.take(k as int)));
    }
    assert(pv.take(k as int) =~= pv);
    string_from_chars(&out)
}

/// The selector list with every top-level `.class_name` replaced by
/// `replacement`, selector by selector; selectors without it are
/// dropped. Every selector's replacement must come to rest (see
/// `replacement_settles`).
pub fn substitute_class_in_selector_public(
    selector: &str,
    class_name: &str,
    replacement: &str,
) -> (r: String)
    requires
        forall|k: int|
            0 <= k < split_selectors_spec(selector@).len() ==> replacement_settles(
                trim_spec(#[trigger] split_selectors_spec(selector@)[k]),
                class_name@,
                replacement@,
            ),
    ensures
        r@ == join_selectors(
            replaced_all_parts(
                split_selectors_spec(selector@),
                class_name@,
                replacement@,
                split_selectors_spec(selector@).len() as int,
            ),
        ),
{
    let s = chars_of(selector);
    let c = chars_of(class_name);
    let rep = chars_of(replacement);
    let parts = split_top_level_selectors(&s);
    let ghost pv = chars_list_view(parts@);
    let mut out: Vec<Vec<char>> = Vec::new();
    let mut k: usize = 0;
    while k < parts.len()
        invariant
            k <= parts@.len(),
            pv == chars_list_view(parts@),
            pv == split_selectors_spec(selector@),
            c@ == class_name@,
            rep@ == replacement@,
            forall|j: int|
                0 <= j < pv.len() ==> replacement_settles(
                    trim_spec(#[trigger] pv[j]),
                    class_name@,
                    replacement@,
                ),
            chars_list_view(out@) == replaced_all_parts(pv, c@, rep@, k as int),
        decreases parts@.len() - k,
    {
        let t = trim_chars(&parts[k]);
        assert(t@ == trim_spec(pv[k as int]));
        match replace_all_classes(&t, &c, &rep) {
            Some(x) => {
                let ghost before = chars_list_view(out@);
                out.push(x);
                assert(chars_list_view(out@) =~= before.push(x@));
            },
            None => {},
        }
        k += 1;
    }
    join_selectors_exec(&out)
}

/// Whether repeating the replacement on `s` comes to rest within `fuel`
/// changing rounds (`rounds`).
fn settles_within(s: &Vec<char>, c: &Vec<char>, r: &Vec<char>, fuel: usize) -> (b: bool)
    ensures
        b == (rounds(s@, c@, r@, fuel as nat) is Some),
{
    let mut cur = sub_chars(s, 0, s.len());
    assert(cur@ =~= s@);
    let mut f = fuel;
    loop
        invariant
            (rounds(cur@, c@, r@, f as nat) is Some) == (rounds(s@, c@, r@, fuel as nat) is Some),
        decreases f,
    {
        match replace_first_class(&cur, c, r) {
            None => {
                return true;
            },
            Some(next) => {
                if chars_eq(&next, &cur) {
                    return true;
                }
                if f == 0 {
                    return false;
                }
                cur = next;
                f -= 1;
            },
        }
    }
}

/// Whether every selector of the list comes to rest within `max_rounds`
/// changing rounds.
pub open spec fn all_settle_within(selector: Seq<char>, c: Seq<char>, r: Seq<char>, max_rounds: nat) -> bool {
    forall|k: int|
        0 <= k < split_selectors_spec(selector).len() ==> (rounds(
            trim_spec(#[trigger] split_selectors_spec(selector)[k]),
            c,
            r,
            max_rounds,
        ) is Some)
}

/// `substitute_class_in_selector_public` when every selector of the list
/// comes to rest within `max_rounds` changing rounds; `None` when one does
/// not (a replacement that holds the class itself never does).
pub fn substitute_class_in_selector_bounded(
    selector: &str,
    class_name: &str,
    replacement: &str,
    max_rounds: usize,
) -> (r: Option<String>)
    ensures
        match r {
            Some(t) => all_settle_within(selector@, class_name@, replacement@, max_rounds as nat)
                && t@ == join_selectors(
                replaced_all_parts(
                    split_selectors_spec(selector@),
                    class_name@,
                    replacement@,
                    split_selectors_spec(selector@).len() as int,
                ),
            ),
            None => !all_settle_within(selector@, class_name@, replacement@, max_rounds as nat),
        },
{
    let s = chars_of(selector);
    let c = chars_of(class_name);
    let rep = chars_of(replacement);
    let parts = split_top_level_selectors(&s);
    let ghost pv = chars_list_view(parts@);
    let mut k: usize = 0;
    while k < parts.len()
        invariant
            k <= parts@.len(),
            pv == chars_list_view(parts@),
            pv == split_selectors_spec(selector@),
            c@ == class_name@,
            rep@ == replacement@,
            forall|j: int|
                0 <= j < k ==> (rounds(trim_spec(#[trigger] pv[j]), c@, rep@, max_rounds as nat) is Some),
        decreases parts@.len() - k,
    {
        let t = trim_chars(&parts[k]);
        assert(t@ == trim_spec(pv[k as int]));
        if !settles_within(&t, &c, &rep, max_rounds) {
            return None;
        }
        k += 1;
    }
    proof {
        assert forall|j: int|
            0 <= j < split_selectors_spec(selector@).len() implies replacement_settles(
            trim_spec(#[trigger] split_selectors_spec(selector@)[j]),
            class_name@,
            replacement@,
        ) by {
            assert(rounds(trim_spec(pv[j]), c@, rep@, max_rounds as nat) is Some);
        }
    }
    Some(substitute_class_in_selector_public(selector, class_name, replacement))
}

/// The selector list with the first top-level `.class_name` of each
/// selector replaced by `replacement`; selectors without it are dropped.
pub fn substitute_class_in_selector(selector: &str, class_name: &str, replacement: &str) -> (r:
    String)
    ensures
        r@ == join_selectors(
            replaced_first_parts(
                split_selectors_spec(selector@),
                class_name@,
                replacement@,
                split_selectors_spec(selector@).len() as int,
            ),
        ),
{
    let s = chars_of(selector);
    let c = chars_of(class_name);
    let rep = chars_of(replacement);
    let parts = split_top_level_selectors(&s);
    let ghost pv = chars_list_view(parts@);
    let mut out: Vec<Vec<char>> = Vec::new();
    let mut k: usize = 0;
    while k < parts.len()
        invariant
            k <= parts@.len(),
            pv == chars_list_view(parts@),
            pv == split_selectors_spec(selector@),
            c@ == class_name@,
            rep@ == replacement@,
            chars_list_view(out@) == replaced_first_parts(pv, c@, rep@, k as int),
        decreases parts@.len() - k,
    {
        let t = trim_chars(&parts[k]);
        assert(t@ == trim_spec(pv[k as int]));
        match replace_first_class(&t, &c, &rep) {
            Some(x) => {
                let ghost before = chars_list_view(out@);
                out.push(x);
                assert(chars_list_view(out@) =~= before.push(x@));
            },
            None => {},
        }
        k += 1;
    }
    join_selectors_exec(&out)
}

// ---------------------------------------------------------------------
// Classes of a base rule's selector
// ---------------------------------------------------------------------

/// The selectors of a list split at top-level commas, untrimmed and with
/// empty ones kept; escapes, parentheses and brackets are stepped over.
pub open spec fn split_owned_scan(s: Seq<char>, i: int, dp: int, db: int, start: int) -> Seq<
    Seq<char>,
>
    decreases s.len() - i,
{
    if !(0 <= i < s.len()) {
        seq![s.subrange(start, s.len() as int)]
    } else if s[i] == '\\' && i + 1 < s.len() {
        split_owned_scan(s, i + 2, dp, db, start)
    } else if s[i] == '(' {
        split_owned_scan(s, i + 1, dp + 1, db, start)
    } else if s[i] == ')' {
        split_owned_scan(s, i + 1, dp - 1, db, start)
    } else if s[i] == '[' {
        split_owned_scan(s, i + 1, dp, db + 1, start)
    } else if s[i] == ']' {
        split_owned_scan(s, i + 1, dp, db - 1, start)
    } else if s[i] == ',' && dp == 0 && db == 0 {
        seq![s.subrange(start, i)] + split_owned_scan(s, i + 1, dp, db, i + 1)
    } else {
        split_owned_scan(s, i + 1, dp, db, start)
    }
}

/// Split a selector list at its top-level commas, keeping each piece as
/// written (see `split_owned_scan`).
pub fn split_top_level_selectors_owned(s: &Vec<char>) -> (r: Vec<Vec<char>>)
    ensures
        chars_list_view(r@) == split_owned_scan(s@, 0, 0, 0, 0),
{
    let mut parts: Vec<Vec<char>> = Vec::new();
    let mut i: usize = 0;
    let mut start: usize = 0;
    let mut po: usize = 0;
    let mut pc: usize = 0;
    let mut bo: usize = 0;
    let mut bc: usize = 0;
    while i < s.len()
        invariant
            start <= i <= s@.len(),
            po <= i && pc <= i && bo <= i && bc <= i,
            chars_list_view(parts@) + split_owned_scan(
                s@,
                i as int,
                po - pc,
                bo - bc,
                start as int,
            ) == split_owned_scan(s@, 0, 0, 0, 0),
        decreases s@.len() - i,
    {
        let ch = s[i];
        if ch == '\\' && i + 1 < s.len() {
            i += 2;
        } else if ch == '(' {
            po += 1;
            i += 1;
        } else if ch == ')' {
            pc += 1;
            i += 1;
        } else if ch == '[' {
            bo += 1;
            i += 1;
        } else if ch == ']' {
            bc += 1;
            i += 1;
        } else if ch == ',' && po == pc && bo == bc {
            let ghost before = chars_list_view(parts@);
            parts.push(sub_chars(s, start, i));
            assert(chars_list_view(parts@) =~= before + seq![s@.subrange(start as int, i as int)]);
            i += 1;
            start = i;
        } else {
            i += 1;
        }
    }
    let ghost before = chars_list_view(parts@);
    parts.push(sub_chars(s, start, s.len()));
    assert(chars_list_view(parts@) =~= before + seq![s@.subrange(start as int, s@.len() as int)]);
    parts
}

/// The end of a run of ASCII letters, digits and `-` from `i`.
pub open spec fn word_end(s: Seq<char>, i: int) -> int
    decreases s.len() - i,
{
    if 0 <= i < s.len() && (ascii_alnum(s[i]) || s[i] == '-') {
        word_end(s, i + 1)
    } else {
        i
    }
}

pub proof fn lemma_word_end_bounds(s: Seq<char>, i: int)
    requires
        0 <= i <= s.len(),
    ensures
        i <= word_end(s, i) <= s.len(),
    decreases s.len() - i,
{
    if i < s.len() && (ascii_alnum(s[i]) || s[i] == '-') {
        lemma_word_end_bounds(s, i + 1);
    }
}

/// The classes a single selector names at its top level, in order:
/// `.` and a class name (identifier characters and escapes), outside
/// `:not(…)` groups (`not_depth` open).
pub open spec fn top_classes_scan(s: Seq<char>, i: int, not_depth: nat) -> Seq<Seq<char>>
    decreases s.len() - i,
{
    if !(0 <= i < s.len()) {
        Seq::empty()
    } else if s[i] == '\\' && i + 1 < s.len() {
        top_classes_scan(s, i + 2, not_depth)
    } else if s[i] == ':' && !(i + 1 < s.len() && s[i + 1] == ':') {
        proof {
            lemma_word_end_bounds(s, i + 1);
        }
        let j = word_end(s, i + 1);
        if s.subrange(i + 1, j) == "not"@ && j < s.len() && s[j] == '(' {
            top_classes_scan(s, j + 1, not_depth + 1)
        } else {
            top_classes_scan(s, j, not_depth)
        }
    } else if s[i] == '(' {
        top_classes_scan(s, i + 1, not_depth)
    } else if s[i] == ')' {
        top_classes_scan(
            s,
            i + 1,
            if not_depth > 0 {
                (not_depth - 1) as nat
            } else {
                0
            },
        )
    } else if s[i] == '.' && not_depth == 0 {
        proof {
            lemma_class_token_end_bounds(s, i + 1);
        }
        let e = class_token_end(s, i + 1);
        (if e > i + 1 {
            seq![s.subrange(i + 1, e)]
        } else {
            Seq::empty()
        }) + top_classes_scan(s, e, not_depth)
    } else {
        top_classes_scan(s, i + 1, not_depth)
    }
}

/// The classes a single selector names at its top level (see
/// `top_classes_scan`).
pub fn collect_top_level_classes(s: &Vec<char>) -> (r: Vec<Vec<char>>)
    ensures
        chars_list_view(r@) == top_classes_scan(s@, 0, 0),
{
    let not_word = chars_of("not");
    let mut out: Vec<Vec<char>> = Vec::new();
    let mut i: usize = 0;
    let mut nd: usize = 0;
    while i < s.len()
        invariant
            i <= s@.len(),
            nd <= i,
            not_word@ == "not"@,
            chars_list_view(out@) + top_classes_scan(s@, i as int, nd as nat) == top_classes_scan(
                s@,
                0,
                0,
            ),
        decreases s@.len() - i,
    {
        let c = s[i];
        let ghost before = chars_list_view(out@);
        if c == '\\' && i + 1 < s.len() {
            i += 2;
        } else if c == ':' && !(i + 1 < s.len() && s[i + 1] == ':') {
            let mut j = i + 1;
            while j < s.len() && (is_ascii_alnum(s[j]) || s[j] == '-')
                invariant
                    i + 1 <= j <= s@.len(),
                    word_end(s@, j as int) == word_end(s@, i + 1),
                decreases s@.len() - j,
            {
                j += 1;
            }
            let word = sub_chars(s, i + 1, j);
            if chars_eq(&word, &not_word) && j < s.len() && s[j] == '(' {
                nd += 1;
                i = j + 1;
            } else {
                i = j;
            }
        } else if c == '(' {
            i += 1;
        } else if c == ')' {
            if nd > 0 {
                nd -= 1;
            }
            i += 1;
        } else if c == '.' && nd == 0 {
            proof {
                lemma_class_token_end_bounds(s@, i + 1);
            }
            let e = class_token_end_at(s, i + 1);
            if e > i + 1 {
                out.push(sub_chars(s, i + 1, e));
                assert(chars_list_view(out@) =~= before + seq![s@.subrange(i + 1, e as int)]);
            } else {
                assert(chars_list_view(out@) =~= before + Seq::<Seq<char>>::empty());
            }
            i = e;
        } else {
            i += 1;
        }
    }
    assert(chars_list_view(out@) =~= chars_list_view(out@) + top_classes_scan(
        s@,
        i as int,
        nd as nat,
    ));
    out
}

/// The first position where `p` occurs in `s` at or after `k`, or -1.
pub open spec fn find_from(s: Seq<char>, p: Seq<char>, k: int) -> int
    decreases s.len() + 1 - k,
{
    if !(0 <= k <= s.len()) {
        -1
    } else if has_prefix_at(s, k, p) {
        k
    } else {
        find_from(s, p, k + 1)
    }
}

/// `.old` replaced by `.new` at its first occurrence, when that
/// occurrence ends the class name there; otherwise the selector as it is.
pub open spec fn replace_class_token_spec(s: Seq<char>, old: Seq<char>, new: Seq<char>) -> Seq<char> {
    let needle = seq!['.'] + old;
    let idx = find_from(s, needle, 0);
    let after = idx + needle.len();
    if idx >= 0 && (after >= s.len() || !class_continues(s[after])) {
        s.take(idx) + seq!['.'] + new + s.skip(after)
    } else {
        s
    }
}

pub(crate) fn find_needle(s: &Vec<char>, needle: &Vec<char>) -> (r: Option<usize>)
    requires
        needle@.len() >= 1,
    ensures
        match r {
            Some(k) => find_from(s@, needle@, 0) == k as int && has_prefix_at(
                s@,
                k as int,
                needle@,
            ),
            None => find_from(s@, needle@, 0) == -1,
        },
{
    let mut k: usize = 0;
    while k < s.len()
        invariant
            k <= s@.len(),
            find_from(s@, needle@, k as int) == find_from(s@, needle@, 0),
        decreases s@.len() - k,
    {
        if prefix_at(s, k, needle) {
            return Some(k);
        }
        k += 1;
    }
    assert(!has_prefix_at(s@, k as int, needle@));
    assert(find_from(s@, needle@, k + 1) == -1);
    None
}

/// Rewrite the first `.old` of a selector to `.new` (see
/// `replace_class_token_spec`).
pub fn replace_class_token(selector: &str, old: &str, new: &str) -> (r: String)
    ensures
        r@ == replace_class_token_spec(selector@, old@, new@),
{
    let s = chars_of(selector);
    let mut needle: Vec<char> = Vec::new();
    needle.push('.');
    extend_chars(&mut needle, &chars_of(old));
    assert(needle@ =~= seq!['.'] + old@);
    let pos = find_needle(&s, &needle);
    match pos {
        Some(k) => {
            let slen = s.len();
            assert(k + needle@.len() <= slen);
            let after = k + needle.len();
            let valid = after >= s.len() || !(is_ident_char(s[after]) || s[after] == '\\');
            if valid {
                let mut out = sub_chars(&s, 0, k);
                out.push('.');
                extend_chars(&mut out, &chars_of(new));
                extend_chars(&mut out, &sub_chars(&s, after, s.len()));
                assert(out@ =~= s@.take(k as int) + seq!['.'] + new@ + s@.skip(after as int));
                return string_from_chars(&out);
            }
        },
        None => {},
    }
    string_from_chars(&s)
}

// ---------------------------------------------------------------------
// Configuration switches
// ---------------------------------------------------------------------

/// `config[key]` of a configuration that may be absent.
pub open spec fn config_get(config: Option<&JsonValue>, key: Seq<char>) -> Option<JsonValue> {
    match config {
        Some(c) => json_get(*c, key),
        None => None,
    }
}

/// `experimental: 'all'`, or `experimental.optimizeUniversalDefaults:
/// true`.
pub open spec fn optimize_universal_defaults_spec(config: Option<&JsonValue>) -> bool {
    match config_get(config, "experimental"@) {
        Some(JsonValue::Str(s)) => s@ == "all"@,
        Some(e) => json_get(e, "optimizeUniversalDefaults"@) == Some(JsonValue::Bool(true)),
        None => false,
    }
}

/// Whether universal defaults are optimized for `@apply` (see
/// `optimize_universal_defaults_spec`).
pub fn optimize_universal_defaults_for_apply(config: Option<&JsonValue>) -> (r: bool)
    ensures
        r == optimize_universal_defaults_spec(config),
{
    let exp = match config {
        Some(c) => c.get("experimental"),
        None => None,
    };
    match exp {
        Some(e) => match e.as_str() {
            Some(s) => crate::text::str_eq(s, "all"),
            None => match e.get("optimizeUniversalDefaults") {
                Some(v) => match v.as_bool() {
                    Some(b) => b,
                    None => false,
                },
                None => false,
            },
        },
        None => false,
    }
}

/// Whether the configuration says `important: true`.
pub fn important_is_bang(config: Option<&JsonValue>) -> (r: bool)
    ensures
        r == (config_get(config, "important"@) == Some(JsonValue::Bool(true))),
{
    let v = match config {
        Some(c) => c.get("important"),
        None => None,
    };
    match v {
        Some(x) => match x.as_bool() {
            Some(b) => b,
            None => false,
        },
        None => false,
    }
}

/// The `important: '<selector>'` of a configuration, when it is a
/// non-empty string.
pub fn important_selector_str(config: Option<&JsonValue>) -> (r: Option<&str>)
    ensures
        match r {
            Some(s) => config_get(config, "important"@) matches Some(v) && is_text(v, s@) && s@.len()
                > 0,
            None => !(config_get(config, "important"@) matches Some(v) && v is Str && v->Str_0@.len()
                > 0),
        },
{
    let v = match config {
        Some(c) => c.get("important"),
        None => None,
    };
    match v {
        Some(x) => match x.as_str() {
            Some(s) => {
                if s.is_empty() {
                    None
                } else {
                    Some(s)
                }
            },
            None => None,
        },
        None => None,
    }
}

/// Whether a value is the string `t`.
pub open spec fn is_text(v: JsonValue, t: Seq<char>) -> bool {
    match v {
        JsonValue::Str(s) => s@ == t,
        _ => false,
    }
}

/// Whether preflight is on: without a configuration, yes; a
/// `corePlugins` object turns it off with `preflight: false`, a list
/// keeps it only when it names `preflight`, and `corePlugins: false`
/// turns it off.
pub open spec fn preflight_spec(config: Option<&JsonValue>) -> bool {
    match config {
        None => true,
        Some(c) => match json_get(*c, "corePlugins"@) {
            Some(JsonValue::Object(m)) => member_from(m@, "preflight"@, 0) != Some(
                JsonValue::Bool(false),
            ),
            Some(JsonValue::Array(items)) => exists|k: int|
                0 <= k < items@.len() && is_text(#[trigger] items@[k], "preflight"@),
            Some(JsonValue::Bool(b)) => b,
            _ => true,
        },
    }
}

fn names_preflight(items: &Vec<JsonValue>) -> (r: bool)
    ensures
        r == exists|k: int| 0 <= k < items@.len() && is_text(#[trigger] items@[k], "preflight"@),
{
    let mut k: usize = 0;
    while k < items.len()
        invariant
            k <= items@.len(),
            forall|j: int| 0 <= j < k ==> !is_text(#[trigger] items@[j], "preflight"@),
        decreases items@.len() - k,
    {
        match &items[k] {
            JsonValue::Str(t) => {
                if crate::text::str_eq(t.as_str(), "preflight") {
                    assert(is_text(items@[k as int], "preflight"@));
                    return true;
                }
            },
            _ => {},
        }
        k += 1;
    }
    false
}

/// Whether preflight is on (see `preflight_spec`).
pub fn preflight_enabled(config: Option<&JsonValue>) -> (r: bool)
    ensures
        r == preflight_spec(config),
{
    let cfg = match config {
        Some(c) => c,
        None => {
            return true;
        },
    };
    match cfg.get("corePlugins") {
        Some(cp) => match cp {
            JsonValue::Object(_) => match cp.get("preflight") {
                Some(p) => match p {
                    JsonValue::Bool(b) => *b,
                    _ => true,
                },
                None => true,
            },
            JsonValue::Array(items) => names_preflight(items),
            JsonValue::Bool(b) => *b,
            _ => true,
        },
        None => true,
    }
}


// ---------------------------------------------------------------------
// Base rules of plugins
// ---------------------------------------------------------------------

/// How a plugin's base rule is written: its selector (`None` when no
/// part of it is kept) and whether its declarations become important.
pub struct AddBaseEmission {
    pub selector: Option<String>,
    pub force_important: bool,
}

/// The first class of `classes[k..]` that is a candidate, plain or with
/// a leading `!` (the flag says which), each class tried both ways
/// before the next.
pub open spec fn class_hit(classes: Seq<Seq<char>>, cands: Seq<Seq<char>>, k: int) -> Option<
    (Seq<char>, bool),
>
    decreases classes.len() - k,
{
    if !(0 <= k < classes.len()) {
        None
    } else if cands.contains(classes[k]) {
        Some((classes[k], false))
    } else if cands.contains(seq!['!'] + classes[k]) {
        Some((classes[k], true))
    } else {
        class_hit(classes, cands, k + 1)
    }
}

/// What becomes of one part of a base rule's selector list: blank parts
/// are dropped; parts without a top-level class are kept as they are;
/// others are kept only when one of their classes is a candidate, and
/// when the candidate is the `!` form that class is written `\!class`
/// and the declarations become important.
pub open spec fn addbase_part(part: Seq<char>, cands: Seq<Seq<char>>) -> Option<(Seq<char>, bool)> {
    let t = trim_spec(part);
    let classes = top_classes_scan(t, 0, 0);
    if t.len() == 0 {
        None
    } else if classes.len() == 0 {
        Some((t, false))
    } else {
        match class_hit(classes, cands, 0) {
            None => None,
            Some((c, bang)) => if bang {
                Some((replace_class_token_spec(t, c, seq!['\\', '!'] + c), true))
            } else {
                Some((t, false))
            },
        }
    }
}

/// The kept parts among the first `n` and whether any forces important.
pub open spec fn addbase_scan(parts: Seq<Seq<char>>, cands: Seq<Seq<char>>, n: int) -> (
    Seq<Seq<char>>,
    bool,
)
    decreases n,
{
    if n <= 0 {
        (Seq::empty(), false)
    } else {
        let (ps, f) = addbase_scan(parts, cands, n - 1);
        match addbase_part(parts[n - 1], cands) {
            None => (ps, f),
            Some((t, bang)) => (ps.push(t), f || bang),
        }
    }
}

pub open spec fn plan_addbase_spec(selector: Seq<char>, cands: Seq<Seq<char>>) -> (
    Option<Seq<char>>,
    bool,
) {
    let parts = split_owned_scan(selector, 0, 0, 0, 0);
    let (ps, f) = addbase_scan(parts, cands, parts.len() as int);
    if ps.len() == 0 {
        (None, false)
    } else {
        (Some(join_selectors(ps)), f)
    }
}

pub(crate) fn is_candidate(cands: &Vec<String>, c: &Vec<char>) -> (r: bool)
    ensures
        r == strings_view(cands@).contains(c@),
{
    let ghost cv = strings_view(cands@);
    let mut k: usize = 0;
    while k < cands.len()
        invariant
            k <= cands@.len(),
            cv == strings_view(cands@),
            forall|j: int| 0 <= j < k ==> cv[j] != c@,
        decreases cands@.len() - k,
    {
        if chars_eq(&chars_of(cands[k].as_str()), c) {
            assert(cv[k as int] == c@);
            return true;
        }
        k += 1;
    }
    proof {
        if cv.contains(c@) {
            let j = choose|j: int| 0 <= j < cv.len() && cv[j] == c@;
            assert(cv[j] != c@);
        }
    }
    false
}

fn addbase_part_exec(part: &Vec<char>, cands: &Vec<String>) -> (r: Option<(Vec<char>, bool)>)
    ensures
        match r {
            None => addbase_part(part@, strings_view(cands@)) is None,
            Some((t, b)) => addbase_part(part@, strings_view(cands@)) == Some((t@, b)),
        },
{
    let ghost cv = strings_view(cands@);
    let t = trim_chars(part);
    if t.len() == 0 {
        return None;
    }
    let classes = collect_top_level_classes(&t);
    let ghost clv = chars_list_view(classes@);
    if classes.len() == 0 {
        return Some((t, false));
    }
    let mut k: usize = 0;
    while k < classes.len()
        invariant
            k <= classes@.len(),
            clv == chars_list_view(classes@),
            cv == strings_view(cands@),
            t@ == trim_spec(part@),
            t@.len() > 0,
            clv == top_classes_scan(t@, 0, 0),
            clv.len() > 0,
            class_hit(clv, cv, k as int) == class_hit(clv, cv, 0),
        decreases classes@.len() - k,
    {
        assert(clv[k as int] == classes@[k as int]@);
        if is_candidate(cands, &classes[k]) {
            return Some((t, false));
        }
        let mut bang: Vec<char> = Vec::new();
        bang.push('!');
        extend_chars(&mut bang, &classes[k]);
        if is_candidate(cands, &bang) {
            let mut rep: Vec<char> = Vec::new();
            rep.push('\\');
            rep.push('!');
            extend_chars(&mut rep, &classes[k]);
            let sel = string_from_chars(&t);
            let old = string_from_chars(&classes[k]);
            let nw = string_from_chars(&rep);
            let replaced = replace_class_token(sel.as_str(), old.as_str(), nw.as_str());
            return Some((chars_of(replaced.as_str()), true));
        }
        k += 1;
    }
    None
}

/// How a plugin's base rule is written given the scanned candidates
/// (`plan_addbase_spec`): the kept parts joined by `, `.
pub fn plan_addbase_emission(selector: &str, candidate_set: &Vec<String>) -> (r: AddBaseEmission)
    ensures
        plan_addbase_spec(selector@, strings_view(candidate_set@)) == (
            match r.selector {
                Some(s) => Some(s@),
                None => None,
            },
            r.force_important,
        ),
{
    let ghost cv = strings_view(candidate_set@);
    let s = chars_of(selector);
    let parts = split_top_level_selectors_owned(&s);
    let ghost pv = chars_list_view(parts@);
    let mut emit: Vec<Vec<char>> = Vec::new();
    let mut force = false;
    let mut k: usize = 0;
    while k < parts.len()
        invariant
            k <= parts@.len(),
            pv == chars_list_view(parts@),
            cv == strings_view(candidate_set@),
            (chars_list_view(emit@), force) == addbase_scan(pv, cv, k as int),
        decreases parts@.len() - k,
    {
        assert(pv[k as int] == parts@[k as int]@);
        match addbase_part_exec(&parts[k], candidate_set) {
            Some((t, b)) => {
                let ghost before = chars_list_view(emit@);
                emit.push(t);
                assert(chars_list_view(emit@) =~= before.push(t@));
                force = force || b;
            },
            None => {},
        }
        k += 1;
    }
    if emit.len() == 0 {
        AddBaseEmission { selector: None, force_important: false }
    } else {
        AddBaseEmission { selector: Some(join_selectors_exec(&emit)), force_important: force }
    }
}

} // verus!
