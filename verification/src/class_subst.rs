//! Putting a candidate's class into a plugin rule's selector: finding a
//! class token, replacing the first one, replacing inside pseudo-class
//! wrappers, and choosing which referenced class to replace.
use vstd::prelude::*;
use crate::css_blocks::is_quote;
use crate::css_items::{split_plain_spec, split_top_level_selectors, unescape_from, strip_css_escapes};
use crate::directives::{join_selectors, join_selectors_exec, chars_list_view};
use crate::element_selector::ident_c;
use crate::plugins::{opt_string, primary_class_spec, refs_from, strings_view, PluginRule};
use crate::text::{
    chars_eq, chars_of, extend_chars, is_ascii_alnum, lemma_quote_end_bounds, quote_end,
    quote_end_at, string_from_chars, sub_chars,
};

verus! {

/// `c` stands in `s` at `k` as a whole class name: what follows is not
/// an identifier character.
pub open spec fn class_token_at(s: Seq<char>, k: int, c: Seq<char>) -> bool {
    &&& 0 <= k
    &&& k + c.len() <= s.len()
    &&& s.subrange(k, k + c.len()) == c
    &&& (k + c.len() == s.len() || !ident_c(s[k + c.len()]))
}

fn is_ident_c(c: char) -> (r: bool)
    ensures
        r == ident_c(c),
{
    is_ascii_alnum(c) || c == '-' || c == '_'
}

fn token_at(s: &Vec<char>, k: usize, c: &Vec<char>) -> (r: bool)
    requires
        k <= s.len(),
    ensures
        r == class_token_at(s@, k as int, c@),
{
    if s.len() - k < c.len() {
        return false;
    }
    let slen = s.len();
    let mut m: usize = 0;
    while m < c.len()
        invariant
            slen == s@.len(),
            k + c@.len() <= s@.len(),
            m <= c@.len(),
            forall|j: int| 0 <= j < m ==> s@[k + j] == c@[j],
        decreases c@.len() - m,
    {
        assert(k + m < s@.len());
        if s[k + m] != c[m] {
            assert(s@.subrange(k as int, k + c@.len())[m as int] != c@[m as int]);
            return false;
        }
        m += 1;
    }
    assert(s@.subrange(k as int, k + c@.len()) =~= c@);
    k + c.len() == s.len() || !is_ident_c(s[k + c.len()])
}

/// Whether `rest` starts with the class name `needle` as a whole token.
pub fn matches_class_token(rest: &Vec<char>, needle: &Vec<char>) -> (r: bool)
    ensures
        r == class_token_at(rest@, 0, needle@),
{
    token_at(rest, 0, needle)
}

// ---------------------------------------------------------------------
// The first class token
// ---------------------------------------------------------------------

/// `s[i..]` with its first `.c` token (outside escapes and quoted text)
/// replaced by `r`, which carries its own `.`; and whether there was one.
pub open spec fn sub_once(s: Seq<char>, c: Seq<char>, r: Seq<char>, i: int) -> (Seq<char>, bool)
    decreases s.len() - i,
{
    if !(0 <= i < s.len()) {
        (Seq::empty(), false)
    } else if s[i] == '\\' && i + 1 < s.len() {
        let t = sub_once(s, c, r, i + 2);
        (s.subrange(i, i + 2) + t.0, t.1)
    } else if is_quote(s[i]) {
        proof {
            lemma_quote_end_bounds(s, i + 1, s[i]);
        }
        let e = quote_end(s, i + 1, s[i]);
        let t = sub_once(s, c, r, e);
        (s.subrange(i, e) + t.0, t.1)
    } else if s[i] == '.' && class_token_at(s, i + 1, c) {
        (r + s.skip(i + 1 + c.len()), true)
    } else {
        let t = sub_once(s, c, r, i + 1);
        (seq![s[i]] + t.0, t.1)
    }
}

fn sub_once_chars(s: &Vec<char>, c: &Vec<char>, r: &Vec<char>) -> (out: (Vec<char>, bool))
    ensures
        (out.0@, out.1) == sub_once(s@, c@, r@, 0),
{
    let mut out: Vec<char> = Vec::new();
    let mut i: usize = 0;
    while i < s.len()
        invariant
            i <= s@.len(),
            out@ + sub_once(s@, c@, r@, i as int).0 == sub_once(s@, c@, r@, 0).0,
            sub_once(s@, c@, r@, i as int).1 == sub_once(s@, c@, r@, 0).1,
        decreases s@.len() - i,
    {
        let ghost before = out@;
        let ch = s[i];
        if ch == '\\' && i + 1 < s.len() {
            out.push(s[i]);
            out.push(s[i + 1]);
            proof {
                assert(out@ =~= before + s@.subrange(i as int, i + 2));
                assert(before + (s@.subrange(i as int, i + 2) + sub_once(s@, c@, r@, i + 2).0)
                    =~= out@ + sub_once(s@, c@, r@, i + 2).0);
            }
            i += 2;
        } else if ch == '"' || ch == '\'' {
            proof {
                lemma_quote_end_bounds(s@, i + 1, ch);
            }
            let e = quote_end_at(s, i + 1, ch);
            extend_chars(&mut out, &sub_chars(s, i, e));
            proof {
                assert(before + (s@.subrange(i as int, e as int) + sub_once(s@, c@, r@, e as int).0)
                    =~= out@ + sub_once(s@, c@, r@, e as int).0);
            }
            i = e;
        } else if ch == '.' && token_at(s, i + 1, c) {
            extend_chars(&mut out, r);
            let rest = sub_chars(s, i + 1 + c.len(), s.len());
            extend_chars(&mut out, &rest);
            proof {
                assert(rest@ =~= s@.skip(i + 1 + c@.len()));
                assert(before + (r@ + s@.skip(i + 1 + c@.len())) =~= out@);
            }
            return (out, true);
        } else {
            out.push(ch);
            proof {
                assert(before + (seq![ch] + sub_once(s@, c@, r@, i + 1).0) =~= out@ + sub_once(
                    s@,
                    c@,
                    r@,
                    i + 1,
                ).0);
            }
            i += 1;
        }
    }
    proof {
        assert(out@ + Seq::<char>::empty() =~= out@);
    }
    (out, false)
}

/// The selector with its first `.class_name` token replaced by
/// `replacement` (`sub_once`), and whether one was replaced.
pub fn substitute_class_once(selector: &str, class_name: &str, replacement: &str) -> (r: (
    String,
    bool,
))
    ensures
        (r.0@, r.1) == sub_once(selector@, class_name@, replacement@, 0),
{
    let (out, hit) = sub_once_chars(&chars_of(selector), &chars_of(class_name), &chars_of(replacement));
    (string_from_chars(&out), hit)
}

/// The parts of a selector list in which `.c` was replaced, replaced.
pub open spec fn hit_parts(parts: Seq<Seq<char>>, c: Seq<char>, r: Seq<char>, n: int) -> Seq<
    Seq<char>,
>
    decreases n,
{
    if n <= 0 {
        Seq::empty()
    } else {
        let t = sub_once(parts[n - 1], c, r, 0);
        if t.1 {
            hit_parts(parts, c, r, n - 1).push(t.0)
        } else {
            hit_parts(parts, c, r, n - 1)
        }
    }
}

/// Each selector of a list with its first `.class_name` replaced;
/// selectors without it are dropped, and `None` when none is left.
pub fn substitute_class_in_selector_list(selector: &str, class_name: &str, replacement: &str) -> (r:
    Option<String>)
    ensures
        ({
            let parts = split_plain_spec(selector@);
            let kept = hit_parts(parts, class_name@, replacement@, parts.len() as int);
            match r {
                Some(t) => kept.len() > 0 && t@ == join_selectors(kept),
                None => kept.len() == 0,
            }
        }),
{
    let parts = split_top_level_selectors(selector);
    let ghost pv = split_plain_spec(selector@);
    let c = chars_of(class_name);
    let rep = chars_of(replacement);
    let mut kept: Vec<Vec<char>> = Vec::new();
    let mut k: usize = 0;
    while k < parts.len()
        invariant
            k <= parts@.len(),
            parts@.len() == pv.len(),
            forall|j: int| 0 <= j < parts@.len() ==> #[trigger] parts@[j]@ == pv[j],
            c@ == class_name@,
            rep@ == replacement@,
            chars_list_view(kept@) == hit_parts(pv, c@, rep@, k as int),
        decreases parts@.len() - k,
    {
        assert(parts@[k as int]@ == pv[k as int]);
        let (t, hit) = sub_once_chars(&chars_of(parts[k].as_str()), &c, &rep);
        if hit {
            let ghost before = chars_list_view(kept@);
            kept.push(t);
            assert(chars_list_view(kept@) =~= before.push(t@));
        }
        k += 1;
    }
    if kept.len() == 0 {
        None
    } else {
        Some(join_selectors_exec(&kept))
    }
}

// ---------------------------------------------------------------------
// Inside pseudo-class wrappers
// ---------------------------------------------------------------------

/// `s` with the first `nd` token found inside parentheses (from `i`,
/// `depth` of them open) replaced by `r`; `None` when there is none.
pub open spec fn wrap_scan(s: Seq<char>, nd: Seq<char>, r: Seq<char>, i: int, depth: int) -> Option<
    Seq<char>,
>
    decreases s.len() - i,
{
    if !(0 <= i < s.len()) {
        None
    } else if s[i] == '\\' && i + 1 < s.len() {
        wrap_scan(s, nd, r, i + 2, depth)
    } else if s[i] == '(' {
        wrap_scan(s, nd, r, i + 1, depth + 1)
    } else if s[i] == ')' {
        wrap_scan(s, nd, r, i + 1, depth - 1)
    } else if depth > 0 && class_token_at(s, i, nd) {
        Some(s.take(i) + r + s.skip(i + nd.len()))
    } else {
        wrap_scan(s, nd, r, i + 1, depth)
    }
}

fn wrap_scan_chars(s: &Vec<char>, nd: &Vec<char>, r: &Vec<char>) -> (out: Option<Vec<char>>)
    ensures
        match out {
            Some(t) => wrap_scan(s@, nd@, r@, 0, 0) == Some(t@),
            None => wrap_scan(s@, nd@, r@, 0, 0) is None,
        },
{
    let mut i: usize = 0;
    let mut opens: usize = 0;
    let mut closes: usize = 0;
    while i < s.len()
        invariant
            i <= s@.len(),
            opens <= i && closes <= i,
            wrap_scan(s@, nd@, r@, i as int, opens - closes) == wrap_scan(s@, nd@, r@, 0, 0),
        decreases s@.len() - i,
    {
        let ch = s[i];
        if ch == '\\' && i + 1 < s.len() {
            i += 2;
        } else if ch == '(' {
            opens += 1;
            i += 1;
        } else if ch == ')' {
            closes += 1;
            i += 1;
        } else if opens > closes && token_at(s, i, nd) {
            let mut out = sub_chars(s, 0, i);
            extend_chars(&mut out, r);
            extend_chars(&mut out, &sub_chars(s, i + nd.len(), s.len()));
            proof {
                assert(out@ =~= s@.take(i as int) + r@ + s@.skip(i + nd@.len()));
            }
            return Some(out);
        } else {
            i += 1;
        }
    }
    None
}

fn dotted(c: &str) -> (r: Vec<char>)
    ensures
        r@ == seq!['.'] + c@,
{
    let mut v: Vec<char> = Vec::new();
    v.push('.');
    extend_chars(&mut v, &chars_of(c));
    assert(v@ =~= seq!['.'] + c@);
    v
}

/// The selector with the first `.primary` inside a pseudo-class wrapper
/// (`:where(.btn)`) replaced by `replacement`; `None` when there is none.
pub fn replace_class_in_wrapped_selector(selector: &str, primary: &str, replacement: &str) -> (r:
    Option<String>)
    ensures
        match r {
            Some(t) => wrap_scan(selector@, seq!['.'] + primary@, replacement@, 0, 0) == Some(t@),
            None => wrap_scan(selector@, seq!['.'] + primary@, replacement@, 0, 0) is None,
        },
{
    match wrap_scan_chars(&chars_of(selector), &dotted(primary), &chars_of(replacement)) {
        Some(t) => Some(string_from_chars(&t)),
        None => None,
    }
}

/// The parts of a list each with its first `.c` replaced when it has
/// one, and whether any had.
pub open spec fn each_part(parts: Seq<Seq<char>>, c: Seq<char>, r: Seq<char>, n: int) -> (
    Seq<Seq<char>>,
    bool,
)
    decreases n,
{
    if n <= 0 {
        (Seq::empty(), false)
    } else {
        let (ps, any) = each_part(parts, c, r, n - 1);
        let t = sub_once(parts[n - 1], c, r, 0);
        if t.1 {
            (ps.push(t.0), true)
        } else {
            (ps.push(parts[n - 1]), any)
        }
    }
}

pub open spec fn has_prefix_seq(s: Seq<char>, p: Seq<char>) -> bool {
    p.len() <= s.len() && s.take(p.len() as int) == p
}

/// The selector with `.primary` replaced when the candidate matched the
/// rule's primary class: the whole selector when it is `.primary`, its
/// start when it starts so, else inside a wrapper, else in each selector
/// of a list that has it (others kept); unchanged otherwise.
pub open spec fn primary_subst_spec(sel: Seq<char>, primary: Seq<char>, r: Seq<char>) -> Seq<char> {
    let orig = seq!['.'] + primary;
    let parts = split_plain_spec(sel);
    let (ps, any) = each_part(parts, primary, r, parts.len() as int);
    if sel == orig {
        r
    } else if has_prefix_seq(sel, orig) {
        r + sel.skip(orig.len() as int)
    } else if wrap_scan(sel, orig, r, 0, 0) is Some {
        wrap_scan(sel, orig, r, 0, 0)->0
    } else if parts.len() > 1 && any {
        join_selectors(ps)
    } else {
        sel
    }
}

/// The selector list with the candidate's class put where the rule's
/// primary class stood (`primary_subst_spec`).
pub fn substitute_primary_class_in_selector_list(selector: &str, primary: &str, replacement: &str) -> (r:
    String)
    ensures
        r@ == primary_subst_spec(selector@, primary@, replacement@),
{
    let s = chars_of(selector);
    let orig = dotted(primary);
    let rep = chars_of(replacement);
    if chars_eq(&s, &orig) {
        return string_from_chars(&rep);
    }
    if orig.len() <= s.len() {
        let head = sub_chars(&s, 0, orig.len());
        if chars_eq(&head, &orig) {
            let mut out = rep;
            let tail = sub_chars(&s, orig.len(), s.len());
            extend_chars(&mut out, &tail);
            proof {
                assert(head@ =~= s@.take(orig@.len() as int));
                assert(tail@ =~= s@.skip(orig@.len() as int));
            }
            return string_from_chars(&out);
        }
        proof {
            assert(head@ =~= s@.take(orig@.len() as int));
        }
    }
    match wrap_scan_chars(&s, &orig, &rep) {
        Some(t) => {
            return string_from_chars(&t);
        },
        None => {},
    }
    let parts = split_top_level_selectors(selector);
    let ghost pv = split_plain_spec(selector@);
    let c = chars_of(primary);
    let mut out_parts: Vec<Vec<char>> = Vec::new();
    let mut any = false;
    let mut k: usize = 0;
    while k < parts.len()
        invariant
            k <= parts@.len(),
            parts@.len() == pv.len(),
            forall|j: int| 0 <= j < parts@.len() ==> #[trigger] parts@[j]@ == pv[j],
            c@ == primary@,
            rep@ == replacement@,
            (chars_list_view(out_parts@), any) == each_part(pv, c@, rep@, k as int),
        decreases parts@.len() - k,
    {
        assert(parts@[k as int]@ == pv[k as int]);
        let p = chars_of(parts[k].as_str());
        let (t, hit) = sub_once_chars(&p, &c, &rep);
        let ghost before = chars_list_view(out_parts@);
        if hit {
            out_parts.push(t);
            any = true;
            assert(chars_list_view(out_parts@) =~= before.push(t@));
        } else {
            out_parts.push(p);
            assert(chars_list_view(out_parts@) =~= before.push(pv[k as int]));
        }
        k += 1;
    }
    if parts.len() > 1 && any {
        join_selectors_exec(&out_parts)
    } else {
        string_from_chars(&s)
    }
}

// ---------------------------------------------------------------------
// Positions of classes
// ---------------------------------------------------------------------

/// The first `.c` token of `s` from `i`: the position of its name, or -1.
pub open spec fn find_class_from(s: Seq<char>, c: Seq<char>, i: int) -> int
    decreases s.len() - i,
{
    if !(0 <= i && i + 1 + c.len() <= s.len()) {
        -1
    } else if s[i] == '.' && class_token_at(s, i + 1, c) {
        i + 1
    } else {
        find_class_from(s, c, i + 1)
    }
}

/// Where the name of the first `.class_name` token of a selector starts.
pub fn find_class_in_selector(selector: &str, class_name: &str) -> (r: Option<usize>)
    ensures
        match r {
            Some(k) => find_class_from(selector@, class_name@, 0) == k as int,
            None => find_class_from(selector@, class_name@, 0) == -1,
        },
{
    let s = chars_of(selector);
    let c = chars_of(class_name);
    let mut i: usize = 0;
    while i < s.len() && s.len() - i > c.len()
        invariant
            i <= s@.len(),
            s@ == selector@,
            c@ == class_name@,
            find_class_from(s@, c@, i as int) == find_class_from(s@, c@, 0),
        decreases s@.len() - i,
    {
        if s[i] == '.' && token_at(&s, i + 1, &c) {
            return Some(i + 1);
        }
        i += 1;
    }
    None
}

/// Characters that may follow a class token when counting positions.
pub open spec fn pos_boundary(b: char) -> bool {
    b == '.' || b == ' ' || b == ',' || b == '>' || b == '~' || b == '+' || b == '#' || b == '['
        || b == ':' || b == ')' || b == '\t' || b == '\n'
}

pub open spec fn plain_ident_end(s: Seq<char>, j: int) -> int
    decreases s.len() - j,
{
    if 0 <= j < s.len() && ident_c(s[j]) {
        plain_ident_end(s, j + 1)
    } else {
        j
    }
}

pub proof fn lemma_plain_ident_end_bounds(s: Seq<char>, j: int)
    requires
        0 <= j <= s.len(),
    ensures
        j <= plain_ident_end(s, j) <= s.len(),
    decreases s.len() - j,
{
    if j < s.len() && ident_c(s[j]) {
        lemma_plain_ident_end_bounds(s, j + 1);
    }
}

/// How many classes come before the token `nd` (`.class`) in `s` from
/// `i` (`count` so far, at most 255); `None` when it is not there.
pub open spec fn pos_scan(s: Seq<char>, nd: Seq<char>, i: int, count: int) -> Option<int>
    decreases s.len() - i,
{
    if !(0 <= i < s.len() && i + nd.len() <= s.len()) {
        None
    } else if s[i] == '.' && s.subrange(i, i + nd.len()) == nd && (i + nd.len() == s.len()
        || pos_boundary(s[i + nd.len()])) {
        Some(count)
    } else if s[i] == '.' && plain_ident_end(s, i + 1) > i + 1 {
        proof {
            lemma_plain_ident_end_bounds(s, i + 1);
        }
        pos_scan(
            s,
            nd,
            plain_ident_end(s, i + 1),
            if count < 255 {
                count + 1
            } else {
                255
            },
        )
    } else {
        pos_scan(s, nd, i + 1, count)
    }
}

fn is_pos_boundary(b: char) -> (r: bool)
    ensures
        r == pos_boundary(b),
{
    b == '.' || b == ' ' || b == ',' || b == '>' || b == '~' || b == '+' || b == '#' || b == '['
        || b == ':' || b == ')' || b == '\t' || b == '\n'
}

/// How many classes stand in a selector before `.class`, counting to at
/// most 255 (`pos_scan`); `None` when `.class` is not there.
pub fn position_of_class_in_selector(selector: &str, class: &str) -> (r: Option<u8>)
    ensures
        match r {
            Some(n) => pos_scan(selector@, seq!['.'] + class@, 0, 0) == Some(n as int),
            None => pos_scan(selector@, seq!['.'] + class@, 0, 0) is None,
        },
{
    let s = chars_of(selector);
    let nd = dotted(class);
    let mut count: u8 = 0;
    let mut i: usize = 0;
    while i < s.len() && s.len() - i >= nd.len()
        invariant
            i <= s@.len(),
            s@ == selector@,
            nd@ == seq!['.'] + class@,
            pos_scan(s@, nd@, i as int, count as int) == pos_scan(s@, nd@, 0, 0),
        decreases s@.len() - i,
    {
        if s[i] == '.' {
            let slen = s.len();
            let mut m: usize = 0;
            let mut same = true;
            while m < nd.len()
                invariant
                    slen == s@.len(),
                    i + nd@.len() <= s@.len(),
                    m <= nd@.len(),
                    same == (forall|j: int| 0 <= j < m ==> s@[i + j] == nd@[j]),
                decreases nd@.len() - m,
            {
                assert(i + m < s@.len());
                if s[i + m] != nd[m] {
                    same = false;
                }
                m += 1;
            }
            proof {
                if same {
                    assert(s@.subrange(i as int, i + nd@.len()) =~= nd@);
                } else {
                    let j = choose|j: int| 0 <= j < nd@.len() && s@[i + j] != nd@[j];
                    assert(s@.subrange(i as int, i + nd@.len())[j] != nd@[j]);
                }
            }
            let end = i + nd.len();
            if same && (end == s.len() || is_pos_boundary(s[end])) {
                return Some(count);
            }
            proof {
                lemma_plain_ident_end_bounds(s@, i + 1);
            }
            let mut j = i + 1;
            while j < s.len() && is_ident_c(s[j])
                invariant
                    i + 1 <= j <= s@.len(),
                    plain_ident_end(s@, j as int) == plain_ident_end(s@, i + 1),
                decreases s@.len() - j,
            {
                j += 1;
            }
            if j > i + 1 {
                count = if count < 255 {
                    count + 1
                } else {
                    255
                };
                i = j;
            } else {
                i += 1;
            }
        } else {
            i += 1;
        }
    }
    None
}

// ---------------------------------------------------------------------
// Choosing the class to replace
// ---------------------------------------------------------------------

/// The first of `refs` that the candidate root names, as written or
/// unescaped, from `k`; -1 when none.
pub open spec fn first_ref_match(refs: Seq<Seq<char>>, root: Seq<char>, k: int) -> int
    decreases refs.len() - k,
{
    if !(0 <= k < refs.len()) {
        -1
    } else if refs[k] == root || unescape_from(refs[k], 0) == root {
        k
    } else {
        first_ref_match(refs, root, k + 1)
    }
}

/// The place of the class the candidate matched among the classes the
/// rule references (0 when it matched none of them).
pub fn matched_class_position(rule: &PluginRule, candidate_root: &str) -> (r: u32)
    ensures
        ({
            let k = first_ref_match(refs_from(rule.selector@, 0, 0), candidate_root@, 0);
            r == if k >= 0 {
                k as u32
            } else {
                0u32
            }
        }),
{
    let refs = rule.referenced_classes();
    let ghost rv = strings_view(refs@);
    let root = chars_of(candidate_root);
    let mut k: usize = 0;
    while k < refs.len()
        invariant
            k <= refs@.len(),
            rv == strings_view(refs@),
            rv == refs_from(rule.selector@, 0, 0),
            root@ == candidate_root@,
            first_ref_match(rv, root@, k as int) == first_ref_match(rv, root@, 0),
        decreases refs@.len() - k,
    {
        assert(rv[k as int] == refs@[k as int]@);
        let c = chars_of(refs[k].as_str());
        let u = strip_css_escapes(refs[k].as_str());
        if chars_eq(&c, &root) || chars_eq(&chars_of(u.as_str()), &root) {
            return k as u32;
        }
        k += 1;
    }
    0
}

/// Whether one of the candidate forms names the class, as written or
/// unescaped.
pub open spec fn names_form(forms: Seq<Seq<char>>, c: Seq<char>) -> bool {
    exists|j: int| 0 <= j < forms.len() && (forms[j] == c || forms[j] == unescape_from(c, 0))
}

/// The class to replace among the first `n` referenced classes, and
/// whether it is the primary one: a class a candidate form names and
/// that stands in the selector as a token; the primary class wins, else
/// the first such class.
pub open spec fn alias_scan(
    refs: Seq<Seq<char>>,
    forms: Seq<Seq<char>>,
    sel: Seq<char>,
    primary: Option<Seq<char>>,
    n: int,
) -> (Option<Seq<char>>, bool)
    decreases n,
{
    if n <= 0 {
        (None, false)
    } else {
        let (best, prim) = alias_scan(refs, forms, sel, primary, n - 1);
        let c = refs[n - 1];
        if names_form(forms, c) && find_class_from(sel, c, 0) >= 0 {
            if primary == Some(c) {
                (Some(c), true)
            } else if best is None {
                (Some(c), false)
            } else {
                (best, prim)
            }
        } else {
            (best, prim)
        }
    }
}

fn names_form_exec(forms: &Vec<String>, c: &Vec<char>) -> (r: bool)
    ensures
        r == names_form(strings_view(forms@), c@),
{
    let ghost fv = strings_view(forms@);
    let u = chars_of(strip_css_escapes(string_from_chars(c).as_str()).as_str());
    let mut j: usize = 0;
    while j < forms.len()
        invariant
            j <= forms@.len(),
            fv == strings_view(forms@),
            u@ == unescape_from(c@, 0),
            forall|m: int| 0 <= m < j ==> !(fv[m] == c@ || fv[m] == unescape_from(c@, 0)),
        decreases forms@.len() - j,
    {
        let f = chars_of(forms[j].as_str());
        assert(fv[j as int] == f@);
        if chars_eq(&f, c) || chars_eq(&f, &u) {
            return true;
        }
        j += 1;
    }
    false
}

/// Which referenced class of the rule to replace for a candidate
/// (`alias_scan`), and whether it is not the rule's primary class.
pub fn alias_substitution_target(rule: &PluginRule, candidate_forms: &Vec<String>) -> (r: Option<
    (String, bool),
>)
    ensures
        ({
            let refs = refs_from(rule.selector@, 0, 0);
            let (best, prim) = alias_scan(
                refs,
                strings_view(candidate_forms@),
                rule.selector@,
                primary_class_spec(rule.selector@),
                refs.len() as int,
            );
            match r {
                Some((s, alias)) => best == Some(s@) && alias == !prim,
                None => best is None,
            }
        }),
{
    let primary = rule.primary_class();
    let refs = rule.referenced_classes();
    let ghost rv = strings_view(refs@);
    let ghost fv = strings_view(candidate_forms@);
    let ghost pv = primary_class_spec(rule.selector@);
    let mut best: Option<Vec<char>> = None;
    let mut prim = false;
    let mut k: usize = 0;
    while k < refs.len()
        invariant
            k <= refs@.len(),
            rv == strings_view(refs@),
            rv == refs_from(rule.selector@, 0, 0),
            fv == strings_view(candidate_forms@),
            pv == primary_class_spec(rule.selector@),
            opt_string(primary) == pv,
            ({
                let (b, p) = alias_scan(rv, fv, rule.selector@, pv, k as int);
                &&& p == prim
                &&& match best {
                    Some(v) => b == Some(v@),
                    None => b is None,
                }
            }),
        decreases refs@.len() - k,
    {
        let c = chars_of(refs[k].as_str());
        assert(rv[k as int] == c@);
        if names_form_exec(candidate_forms, &c) {
            match find_class_in_selector(rule.selector.as_str(), refs[k].as_str()) {
                Some(_) => {
                    let is_primary = match &primary {
                        Some(p) => chars_eq(&chars_of(p.as_str()), &c),
                        None => false,
                    };
                    if is_primary {
                        best = Some(c);
                        prim = true;
                    } else if best.is_none() {
                        best = Some(c);
                        prim = false;
                    }
                },
                None => {},
            }
        }
        k += 1;
    }
    match best {
        Some(v) => Some((string_from_chars(&v), !prim)),
        None => None,
    }
}

} // verus!
