//! A small CSS minifier driven by a character state machine.
//!
//! Removes `/* … */` comments, collapses whitespace, strips spaces around
//! `{`, `}`, `:`, `;`, `,`, and removes trailing semicolons before `}`.
//! Quoted string values (e.g. `content: " "`) are left untouched.
use vstd::prelude::*;
use crate::text::{
    ascii_ws, chars_of, is_ascii_ws, lead_ws, lemma_lead_ws_bounds, lemma_trail_ws_bounds,
    string_from_chars, trail_ws, trim_chars, trim_spec, unicode_ws,
};

verus! {

/// Does `s[i]` close the string opened with `d`? The quote closes unless
/// the character before it is a backslash.
pub open spec fn closes_string(s: Seq<char>, i: int, d: char) -> bool {
    s[i] == d && (i == 0 || s[i - 1] != '\\')
}

pub open spec fn is_quote(c: char) -> bool {
    c == '"' || c == '\''
}

/// The state after reading `s[i]` inside a string delimited by `d`.
pub open spec fn string_state(s: Seq<char>, i: int, d: char) -> Option<char> {
    if closes_string(s, i, d) { None } else { Some(d) }
}

/// Phase one from position `i`: what the comment-stripping,
/// whitespace-collapsing pass emits for `s[i..]` given its state.
pub open spec fn strip_rest(
    s: Seq<char>,
    i: int,
    in_comment: bool,
    delim: Option<char>,
    last_ws: bool,
) -> Seq<char>
    decreases s.len() - i,
{
    if i < 0 || i >= s.len() {
        Seq::empty()
    } else {
        let c = s[i];
        if in_comment {
            if c == '*' && i + 1 < s.len() && s[i + 1] == '/' {
                if !last_ws {
                    seq![' '] + strip_rest(s, i + 2, false, delim, true)
                } else {
                    strip_rest(s, i + 2, false, delim, last_ws)
                }
            } else {
                strip_rest(s, i + 1, true, delim, last_ws)
            }
        } else if delim is Some {
            seq![c] + strip_rest(s, i + 1, false, string_state(s, i, delim->0), false)
        } else if c == '/' && i + 1 < s.len() && s[i + 1] == '*' {
            strip_rest(s, i + 2, true, delim, last_ws)
        } else if is_quote(c) {
            seq![c] + strip_rest(s, i + 1, false, Some(c), false)
        } else if ascii_ws(c) {
            if !last_ws {
                seq![' '] + strip_rest(s, i + 1, false, delim, true)
            } else {
                strip_rest(s, i + 1, false, delim, true)
            }
        } else {
            seq![c] + strip_rest(s, i + 1, false, delim, false)
        }
    }
}

/// Phase one: comments removed, whitespace runs collapsed to one space.
pub open spec fn strip_comments_spec(s: Seq<char>) -> Seq<char> {
    strip_rest(s, 0, false, None, false)
}

pub open spec fn structural(c: char) -> bool {
    c == '{' || c == '}' || c == ':' || c == ';' || c == ','
}

/// Phase two from position `i`: drop every space outside strings that has
/// a structural character right before or right after it.
pub open spec fn compact_rest(s: Seq<char>, i: int, delim: Option<char>) -> Seq<char>
    decreases s.len() - i,
{
    if i < 0 || i >= s.len() {
        Seq::empty()
    } else {
        let c = s[i];
        if delim is Some {
            seq![c] + compact_rest(s, i + 1, string_state(s, i, delim->0))
        } else if is_quote(c) {
            seq![c] + compact_rest(s, i + 1, Some(c))
        } else if c == ' ' && ((i > 0 && structural(s[i - 1])) || (i + 1 < s.len() && structural(
            s[i + 1],
        ))) {
            compact_rest(s, i + 1, delim)
        } else {
            seq![c] + compact_rest(s, i + 1, delim)
        }
    }
}

pub open spec fn compact_spec(s: Seq<char>) -> Seq<char> {
    compact_rest(s, 0, None)
}

/// The first position at or after `j` that holds neither a space nor a
/// `;`.
pub open spec fn skip_spaces_semis(s: Seq<char>, j: int) -> int
    decreases s.len() - j,
{
    if 0 <= j < s.len() && (s[j] == ' ' || s[j] == ';') {
        skip_spaces_semis(s, j + 1)
    } else {
        j
    }
}

/// Phase three from position `i`: drop every `;` outside strings whose
/// run of semicolons and spaces ends at `}`.
pub open spec fn semi_rest(s: Seq<char>, i: int, delim: Option<char>) -> Seq<char>
    decreases s.len() - i,
{
    if i < 0 || i >= s.len() {
        Seq::empty()
    } else {
        let c = s[i];
        if delim is Some {
            seq![c] + semi_rest(s, i + 1, string_state(s, i, delim->0))
        } else if is_quote(c) {
            seq![c] + semi_rest(s, i + 1, Some(c))
        } else if c == ';' && skip_spaces_semis(s, i + 1) < s.len() && s[skip_spaces_semis(s, i + 1)] == '}' {
            semi_rest(s, i + 1, delim)
        } else {
            seq![c] + semi_rest(s, i + 1, delim)
        }
    }
}

pub open spec fn remove_semis_spec(s: Seq<char>) -> Seq<char> {
    semi_rest(s, 0, None)
}

/// The whole minifier: strip comments and collapse whitespace, compact
/// around punctuation, drop trailing semicolons, trim.
pub open spec fn minify_spec(s: Seq<char>) -> Seq<char> {
    trim_spec(remove_semis_spec(compact_spec(strip_comments_spec(s))))
}

proof fn lemma_skip_spaces_semis_bounds(s: Seq<char>, j: int)
    requires
        0 <= j <= s.len(),
    ensures
        j <= skip_spaces_semis(s, j) <= s.len(),
    decreases s.len() - j,
{
    if j < s.len() && (s[j] == ' ' || s[j] == ';') {
        lemma_skip_spaces_semis_bounds(s, j + 1);
    }
}

/// Minify a CSS string: comments removed, whitespace collapsed, no spaces
/// around `{ } : ; ,`, no `;` right before `}`, and the ends trimmed.
/// Quoted strings pass through untouched.
pub fn minify_css(input: &str) -> (out: String)
    ensures
        out@ == minify_spec(input@),
        out@.len() > 0 ==> !unicode_ws(out@[0]) && !unicode_ws(out@.last()),
{
    let chars = chars_of(input);
    let stripped = strip_comments_and_collapse_ws(&chars);
    let compacted = compact_around_punctuation(&stripped);
    let final_css = remove_trailing_semicolons(&compacted);
    let trimmed = trim_chars(&final_css);
    string_from_chars(&trimmed)
}

/// Strip `/* … */` comments and collapse runs of whitespace to a single
/// space. Characters inside `'…'` / `"…"` strings are emitted verbatim.
fn strip_comments_and_collapse_ws(input: &Vec<char>) -> (out: Vec<char>)
    ensures
        out@ == strip_comments_spec(input@),
{
    let len = input.len();
    let mut out: Vec<char> = Vec::new();
    let mut i: usize = 0;
    let mut in_comment = false;
    let mut string_delim: Option<char> = None;
    let mut last_was_ws = false;
    let ghost s = input@;
    while i < len
        invariant
            len == s.len(),
            s == input@,
            i <= len,
            out@ + strip_rest(s, i as int, in_comment, string_delim, last_was_ws)
                == strip_comments_spec(s),
        decreases len - i,
    {
        let ghost old_out = out@;
        let ghost rest = strip_rest(s, i as int, in_comment, string_delim, last_was_ws);
        let c = input[i];
        if in_comment {
            if c == '*' && i + 1 < len && input[i + 1] == '/' {
                in_comment = false;
                i += 2;
                if !last_was_ws {
                    out.push(' ');
                    last_was_ws = true;
                    assert(old_out + rest =~= out@ + strip_rest(
                        s,
                        i as int,
                        in_comment,
                        string_delim,
                        last_was_ws,
                    ));
                }
            } else {
                i += 1;
            }
            continue;
        }
        match string_delim {
            Some(delim) => {
                if c == delim && (i == 0 || input[i - 1] != '\\') {
                    string_delim = None;
                }
                out.push(c);
                last_was_ws = false;
                i += 1;
                assert(old_out + rest =~= out@ + strip_rest(
                    s,
                    i as int,
                    in_comment,
                    string_delim,
                    last_was_ws,
                ));
                continue;
            },
            None => {},
        }
        if c == '/' && i + 1 < len && input[i + 1] == '*' {
            in_comment = true;
            i += 2;
            continue;
        }
        if c == '"' || c == '\'' {
            string_delim = Some(c);
            out.push(c);
            last_was_ws = false;
            i += 1;
            assert(old_out + rest =~= out@ + strip_rest(
                s,
                i as int,
                in_comment,
                string_delim,
                last_was_ws,
            ));
            continue;
        }
        if is_ascii_ws(c) {
            if !last_was_ws {
                out.push(' ');
                last_was_ws = true;
                i += 1;
                assert(old_out + rest =~= out@ + strip_rest(
                    s,
                    i as int,
                    in_comment,
                    string_delim,
                    last_was_ws,
                ));
            } else {
                i += 1;
            }
            continue;
        }
        out.push(c);
        last_was_ws = false;
        i += 1;
        assert(old_out + rest =~= out@ + strip_rest(
            s,
            i as int,
            in_comment,
            string_delim,
            last_was_ws,
        ));
    }
    assert(out@ =~= out@ + strip_rest(s, i as int, in_comment, string_delim, last_was_ws));
    out
}

pub fn is_structural(c: char) -> (b: bool)
    ensures
        b == structural(c),
{
    c == '{' || c == '}' || c == ':' || c == ';' || c == ','
}

/// Remove spaces immediately before or after `{`, `}`, `:`, `;`, `,`.
/// Characters inside `'…'` / `"…"` strings are passed through untouched.
fn compact_around_punctuation(input: &Vec<char>) -> (out: Vec<char>)
    ensures
        out@ == compact_spec(input@),
{
    let len = input.len();
    let mut out: Vec<char> = Vec::new();
    let mut i: usize = 0;
    let mut string_delim: Option<char> = None;
    let ghost s = input@;
    while i < len
        invariant
            len == s.len(),
            s == input@,
            i <= len,
            out@ + compact_rest(s, i as int, string_delim) == compact_spec(s),
        decreases len - i,
    {
        let ghost old_out = out@;
        let ghost rest = compact_rest(s, i as int, string_delim);
        let c = input[i];
        match string_delim {
            Some(delim) => {
                if c == delim && (i == 0 || input[i - 1] != '\\') {
                    string_delim = None;
                }
                out.push(c);
                i += 1;
                assert(old_out + rest =~= out@ + compact_rest(s, i as int, string_delim));
                continue;
            },
            None => {},
        }
        if c == '"' || c == '\'' {
            string_delim = Some(c);
            out.push(c);
            i += 1;
            assert(old_out + rest =~= out@ + compact_rest(s, i as int, string_delim));
            continue;
        }
        if c == ' ' {
            let prev_is_structural = i > 0 && is_structural(input[i - 1]);
            let next_is_structural = i + 1 < len && is_structural(input[i + 1]);
            if prev_is_structural || next_is_structural {
                i += 1;
                continue;
            }
        }
        out.push(c);
        i += 1;
        assert(old_out + rest =~= out@ + compact_rest(s, i as int, string_delim));
    }
    assert(out@ =~= out@ + compact_rest(s, i as int, string_delim));
    out
}

/// Remove every `;` followed by `}` with only spaces and semicolons in
/// between. Characters inside quoted strings pass through untouched.
fn remove_trailing_semicolons(input: &Vec<char>) -> (out: Vec<char>)
    ensures
        out@ == remove_semis_spec(input@),
{
    let len = input.len();
    let mut out: Vec<char> = Vec::new();
    let mut string_delim: Option<char> = None;
    let mut i: usize = 0;
    let ghost s = input@;
    while i < len
        invariant
            len == s.len(),
            s == input@,
            i <= len,
            out@ + semi_rest(s, i as int, string_delim) == remove_semis_spec(s),
        decreases len - i,
    {
        let ghost old_out = out@;
        let ghost rest = semi_rest(s, i as int, string_delim);
        let c = input[i];
        match string_delim {
            Some(delim) => {
                if c == delim && (i == 0 || input[i - 1] != '\\') {
                    string_delim = None;
                }
                out.push(c);
                i += 1;
                assert(old_out + rest =~= out@ + semi_rest(s, i as int, string_delim));
                continue;
            },
            None => {},
        }
        if c == '"' || c == '\'' {
            string_delim = Some(c);
            out.push(c);
            i += 1;
            assert(old_out + rest =~= out@ + semi_rest(s, i as int, string_delim));
            continue;
        }
        if c == ';' {
            let mut j = i + 1;
            while j < len && (input[j] == ' ' || input[j] == ';')
                invariant
                    i < j <= len,
                    len == s.len(),
                    s == input@,
                    skip_spaces_semis(s, j as int) == skip_spaces_semis(s, i + 1),
                decreases len - j,
            {
                j += 1;
            }
            if j < len && input[j] == '}' {
                i += 1;
                continue;
            }
        }
        out.push(c);
        i += 1;
        assert(old_out + rest =~= out@ + semi_rest(s, i as int, string_delim));
    }
    assert(out@ =~= out@ + semi_rest(s, i as int, string_delim));
    out
}

/// No run of two spaces, no comment opener `/*`, and no space on either
/// side of `{ } : ; ,`.
pub open spec fn spaced_pair(a: char, b: char) -> bool {
    &&& !(a == ' ' && b == ' ')
    &&& !(a == '/' && b == '*')
    &&& !(a == ' ' && structural(b))
    &&& !(structural(a) && b == ' ')
}

/// Two neighbouring characters of minified output: spaced as above, and
/// no `;` right before `}`.
pub open spec fn tidy_pair(a: char, b: char) -> bool {
    &&& spaced_pair(a, b)
    &&& !(a == ';' && b == '}')
}

/// Every pair of neighbours in `s` satisfies `p`.
pub open spec fn pairs_hold(s: Seq<char>, p: spec_fn(char, char) -> bool) -> bool {
    forall|k: int, j: int| #![trigger s[k], s[j]] 0 <= k && j == k + 1 && j < s.len() ==> p(s[k], s[j])
}

/// Every character of `s` satisfies `q`.
pub open spec fn chars_hold(s: Seq<char>, q: spec_fn(char) -> bool) -> bool {
    forall|k: int| 0 <= k < s.len() ==> q(#[trigger] s[k])
}

spec fn plain_char() -> spec_fn(char) -> bool {
    |c: char| (c == ' ' || !ascii_ws(c)) && !is_quote(c)
}

spec fn loose_pair() -> spec_fn(char, char) -> bool {
    |a: char, b: char| !(a == ' ' && b == ' ') && !(a == '/' && b == '*')
}

spec fn spaced_pairs() -> spec_fn(char, char) -> bool {
    |a: char, b: char| spaced_pair(a, b)
}

spec fn tight_pair() -> spec_fn(char, char) -> bool {
    |a: char, b: char| tidy_pair(a, b)
}

proof fn lemma_cons_holds(
    c: char,
    r: Seq<char>,
    p: spec_fn(char, char) -> bool,
    q: spec_fn(char) -> bool,
)
    requires
        pairs_hold(r, p),
        chars_hold(r, q),
        q(c),
        r.len() > 0 ==> p(c, r[0]),
    ensures
        pairs_hold(seq![c] + r, p),
        chars_hold(seq![c] + r, q),
{
    let w = seq![c] + r;
    assert forall|k: int, j: int| #![trigger w[k], w[j]] 0 <= k && j == k + 1 && j < w.len() implies p(
        w[k],
        w[j],
    ) by {
        if k > 0 {
            assert(w[k] == r[k - 1] && w[j] == r[j - 1]);
        }
    }
    assert forall|k: int| 0 <= k < w.len() implies q(#[trigger] w[k]) by {
        if k > 0 {
            assert(w[k] == r[k - 1]);
        }
    }
}

proof fn lemma_subrange_holds(
    s: Seq<char>,
    a: int,
    b: int,
    p: spec_fn(char, char) -> bool,
    q: spec_fn(char) -> bool,
)
    requires
        0 <= a <= b <= s.len(),
        pairs_hold(s, p),
        chars_hold(s, q),
    ensures
        pairs_hold(s.subrange(a, b), p),
        chars_hold(s.subrange(a, b), q),
{
    let w = s.subrange(a, b);
    assert forall|k: int, j: int| #![trigger w[k], w[j]] 0 <= k && j == k + 1 && j < w.len() implies p(
        w[k],
        w[j],
    ) by {
        assert(w[k] == s[a + k] && w[j] == s[a + j]);
    }
    assert forall|k: int| 0 <= k < w.len() implies q(#[trigger] w[k]) by {
        assert(w[k] == s[a + k]);
    }
}

/// Phase one on quote-free text: only plain spaces, no double spaces, no
/// `/*`; a leading space only when the state had not just emitted one; a
/// leading `*` only after a space or straight from `s[i]`.
proof fn lemma_strip_shape(s: Seq<char>, i: int, in_comment: bool, last_ws: bool)
    requires
        0 <= i <= s.len(),
        forall|k: int| 0 <= k < s.len() ==> !is_quote(#[trigger] s[k]),
    ensures
        pairs_hold(strip_rest(s, i, in_comment, None, last_ws), loose_pair()),
        chars_hold(strip_rest(s, i, in_comment, None, last_ws), plain_char()),
        strip_rest(s, i, in_comment, None, last_ws).len() > 0 && strip_rest(
            s,
            i,
            in_comment,
            None,
            last_ws,
        )[0] == ' ' ==> !last_ws,
        strip_rest(s, i, in_comment, None, last_ws).len() > 0 && strip_rest(
            s,
            i,
            in_comment,
            None,
            last_ws,
        )[0] == '*' ==> last_ws || (!in_comment && i < s.len() && s[i] == '*'),
    decreases s.len() - i,
{
    if i < s.len() {
        let c = s[i];
        assert(!is_quote(c));
        if in_comment {
            if c == '*' && i + 1 < s.len() && s[i + 1] == '/' {
                if !last_ws {
                    lemma_strip_shape(s, i + 2, false, true);
                    lemma_cons_holds(
                        ' ',
                        strip_rest(s, i + 2, false, None, true),
                        loose_pair(),
                        plain_char(),
                    );
                } else {
                    lemma_strip_shape(s, i + 2, false, last_ws);
                }
            } else {
                lemma_strip_shape(s, i + 1, true, last_ws);
            }
        } else if c == '/' && i + 1 < s.len() && s[i + 1] == '*' {
            lemma_strip_shape(s, i + 2, true, last_ws);
        } else if ascii_ws(c) {
            lemma_strip_shape(s, i + 1, false, true);
            if !last_ws {
                lemma_cons_holds(
                    ' ',
                    strip_rest(s, i + 1, false, None, true),
                    loose_pair(),
                    plain_char(),
                );
            }
        } else {
            lemma_strip_shape(s, i + 1, false, false);
            lemma_cons_holds(
                c,
                strip_rest(s, i + 1, false, None, false),
                loose_pair(),
                plain_char(),
            );
        }
    }
}

/// Whether phase two drops the space at `t[i]`.
spec fn compact_drops(t: Seq<char>, i: int) -> bool {
    t[i] == ' ' && ((i > 0 && structural(t[i - 1])) || (i + 1 < t.len() && structural(t[i + 1])))
}

/// Phase two keeps the phase-one shape and adds: no space beside `{ } : ; ,`.
proof fn lemma_compact_shape(t: Seq<char>, i: int)
    requires
        0 <= i <= t.len(),
        pairs_hold(t, loose_pair()),
        chars_hold(t, plain_char()),
    ensures
        pairs_hold(compact_rest(t, i, None), spaced_pairs()),
        chars_hold(compact_rest(t, i, None), plain_char()),
        i < t.len() && !compact_drops(t, i) ==> compact_rest(t, i, None).len() > 0
            && compact_rest(t, i, None)[0] == t[i],
        i + 1 < t.len() && compact_drops(t, i) ==> compact_rest(t, i, None).len() > 0
            && compact_rest(t, i, None)[0] == t[i + 1],
    decreases t.len() - i,
{
    if i < t.len() {
        let c = t[i];
        assert(plain_char()(c));
        lemma_compact_shape(t, i + 1);
        let rest = compact_rest(t, i + 1, None);
        if i + 1 < t.len() {
            assert(loose_pair()(t[i], t[i + 1]));
        }
        if i + 2 < t.len() {
            assert(loose_pair()(t[i + 1], t[i + 2]));
            lemma_compact_shape(t, i + 2);
        }
        if i + 2 == t.len() {
            assert(compact_rest(t, i + 2, None).len() == 0);
        }
        if !compact_drops(t, i) {
            if rest.len() > 0 {
                assert(spaced_pair(c, rest[0]));
            }
            lemma_cons_holds(c, rest, spaced_pairs(), plain_char());
        }
    }
}

/// Whether phase three drops the `;` at `u[i]`.
spec fn semi_drops(u: Seq<char>, i: int) -> bool {
    u[i] == ';' && skip_spaces_semis(u, i + 1) < u.len() && u[skip_spaces_semis(u, i + 1)] == '}'
}

/// Phase three keeps the spaced shape and leaves no `;` before `}`.
proof fn lemma_semi_shape(u: Seq<char>, i: int)
    requires
        0 <= i <= u.len(),
        pairs_hold(u, spaced_pairs()),
        chars_hold(u, plain_char()),
    ensures
        pairs_hold(semi_rest(u, i, None), tight_pair()),
        chars_hold(semi_rest(u, i, None), plain_char()),
        i < u.len() && !semi_drops(u, i) ==> semi_rest(u, i, None).len() > 0 && semi_rest(
            u,
            i,
            None,
        )[0] == u[i],
        i < u.len() && semi_drops(u, i) ==> semi_rest(u, i, None).len() > 0 && semi_rest(
            u,
            i,
            None,
        )[0] == '}',
    decreases u.len() - i,
{
    if i < u.len() {
        let c = u[i];
        assert(plain_char()(c));
        if i + 1 < u.len() {
            assert(spaced_pairs()(u[i], u[i + 1]));
            if u[i + 1] == ';' {
                assert(skip_spaces_semis(u, i + 1) == skip_spaces_semis(u, i + 2));
            } else if u[i + 1] != ' ' {
                assert(skip_spaces_semis(u, i + 1) == i + 1);
            }
        } else {
            assert(skip_spaces_semis(u, i + 1) == i + 1);
        }
        if i + 2 < u.len() {
            assert(spaced_pairs()(u[i + 1], u[i + 2]));
        }
        lemma_semi_shape(u, i + 1);
        let rest = semi_rest(u, i + 1, None);
        if !semi_drops(u, i) {
            if rest.len() > 0 {
                assert(tidy_pair(c, rest[0]));
            }
            lemma_cons_holds(c, rest, tight_pair(), plain_char());
        }
    }
}

/// On input without quote characters, minified output holds no tab,
/// newline, carriage return or form feed, no two spaces in a row, no `/*`,
/// no space on either side of `{`, `}`, `:`, `;` or `,`, and no `;` right
/// before `}`.
pub proof fn law_minified_output_shape(input: Seq<char>)
    requires
        forall|k: int| 0 <= k < input.len() ==> !is_quote(#[trigger] input[k]),
    ensures
        forall|k: int|
            0 <= k < minify_spec(input).len() ==> #[trigger] minify_spec(input)[k] == ' '
                || !ascii_ws(minify_spec(input)[k]),
        forall|k: int, j: int|
            #![trigger minify_spec(input)[k], minify_spec(input)[j]]
            0 <= k && j == k + 1 && j < minify_spec(input).len() ==> tidy_pair(
                minify_spec(input)[k],
                minify_spec(input)[j],
            ),
{
    lemma_strip_shape(input, 0, false, false);
    let t = strip_comments_spec(input);
    lemma_compact_shape(t, 0);
    let u = compact_spec(t);
    lemma_semi_shape(u, 0);
    let v = remove_semis_spec(u);
    lemma_lead_ws_bounds(v, 0);
    let a = lead_ws(v, 0);
    lemma_subrange_holds(v, a, v.len() as int, tight_pair(), plain_char());
    let w = v.subrange(a, v.len() as int);
    lemma_trail_ws_bounds(w, w.len() as int);
    lemma_subrange_holds(w, 0, trail_ws(w, w.len() as int), tight_pair(), plain_char());
    let out = minify_spec(input);
    assert(out == w.subrange(0, trail_ws(w, w.len() as int)));
    assert forall|k: int| 0 <= k < out.len() implies #[trigger] out[k] == ' ' || !ascii_ws(out[k]) by {
        assert(plain_char()(out[k]));
    }
    assert forall|k: int, j: int| #![trigger out[k], out[j]] 0 <= k && j == k + 1 && j < out.len() implies tidy_pair(
        out[k],
        out[j],
    ) by {
        assert(tight_pair()(out[k], out[j]));
    }
}

/// Text in minified shape: only plain spaces for whitespace, no quotes,
/// every pair of neighbours tidy, and no whitespace at either end.
pub open spec fn minified_shape(s: Seq<char>) -> bool {
    &&& forall|k: int| 0 <= k < s.len() ==> (#[trigger] s[k] == ' ' || !ascii_ws(s[k])) && !is_quote(s[k])
    &&& forall|k: int, j: int|
        #![trigger s[k], s[j]]
        0 <= k && j == k + 1 && j < s.len() ==> tidy_pair(s[k], s[j])
    &&& s.len() > 0 ==> !unicode_ws(s[0]) && !unicode_ws(s.last())
}

proof fn lemma_strip_keeps(s: Seq<char>, i: int)
    requires
        minified_shape(s),
        0 <= i <= s.len(),
    ensures
        strip_rest(s, i, false, None, i > 0 && s[i - 1] == ' ') == s.skip(i),
    decreases s.len() - i,
{
    if i == s.len() {
        assert(s.skip(i) =~= Seq::<char>::empty());
    } else {
        let c = s[i];
        assert(c == ' ' || !ascii_ws(c));
        if i + 1 < s.len() {
            assert(tidy_pair(s[i], s[i + 1]));
        }
        if i > 0 {
            assert(tidy_pair(s[i - 1], s[i]));
        }
        lemma_strip_keeps(s, i + 1);
        assert(s.skip(i) =~= seq![c] + s.skip(i + 1));
    }
}

proof fn lemma_compact_keeps(s: Seq<char>, i: int)
    requires
        minified_shape(s),
        0 <= i <= s.len(),
    ensures
        compact_rest(s, i, None) == s.skip(i),
    decreases s.len() - i,
{
    if i == s.len() {
        assert(s.skip(i) =~= Seq::<char>::empty());
    } else {
        let c = s[i];
        if i + 1 < s.len() {
            assert(tidy_pair(s[i], s[i + 1]));
        }
        if i > 0 {
            assert(tidy_pair(s[i - 1], s[i]));
        }
        lemma_compact_keeps(s, i + 1);
        assert(s.skip(i) =~= seq![c] + s.skip(i + 1));
    }
}

/// After a `;` the run of semicolons ends on a character other than `}`.
proof fn lemma_semis_end_elsewhere(s: Seq<char>, j: int)
    requires
        minified_shape(s),
        0 < j <= s.len(),
        s[j - 1] == ';',
    ensures
        !(skip_spaces_semis(s, j) < s.len() && s[skip_spaces_semis(s, j)] == '}'),
    decreases s.len() - j,
{
    if j < s.len() {
        assert(tidy_pair(s[j - 1], s[j]));
        if s[j] == ';' {
            lemma_semis_end_elsewhere(s, j + 1);
        }
    }
}

proof fn lemma_semi_keeps(s: Seq<char>, i: int)
    requires
        minified_shape(s),
        0 <= i <= s.len(),
    ensures
        semi_rest(s, i, None) == s.skip(i),
    decreases s.len() - i,
{
    if i == s.len() {
        assert(s.skip(i) =~= Seq::<char>::empty());
    } else {
        let c = s[i];
        if c == ';' {
            lemma_semis_end_elsewhere(s, i + 1);
        }
        lemma_semi_keeps(s, i + 1);
        assert(s.skip(i) =~= seq![c] + s.skip(i + 1));
    }
}

/// Text already in minified shape comes back unchanged: every space
/// between two characters other than `{ } : ; ,` stays, and no other
/// character is touched.
pub proof fn law_minified_text_is_left_alone(s: Seq<char>)
    requires
        minified_shape(s),
    ensures
        minify_spec(s) == s,
{
    lemma_strip_keeps(s, 0);
    assert(s.skip(0) =~= s);
    lemma_compact_keeps(s, 0);
    lemma_semi_keeps(s, 0);
    assert(lead_ws(s, 0) == 0);
    assert(s.subrange(0, s.len() as int) =~= s);
    assert(trail_ws(s, s.len() as int) == s.len());
    assert(s.subrange(0, s.len() as int) =~= s);
}

} // verus!
