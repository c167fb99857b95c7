//! Character-level helpers shared by the string-processing modules.
use vstd::prelude::*;
use vstd::std_specs::iter::IteratorSpec;

verus! {

broadcast use vstd::string::axiom_spec_iter;

/// `std`'s `String::push` appends one character.
pub assume_specification[ String::push ](string: &mut String, ch: char)
    ensures
        final(string)@ == old(string)@.push(ch),
;

/// ASCII whitespace as `char::is_ascii_whitespace` defines it:
/// space, tab, line feed, form feed and carriage return.
pub open spec fn ascii_ws(c: char) -> bool {
    c == ' ' || c == '\t' || c == '\n' || c == '\x0C' || c == '\r'
}

#[verifier::when_used_as_spec(ascii_ws)]
pub fn is_ascii_ws(c: char) -> (b: bool)
    ensures
        b == ascii_ws(c),
{
    c == ' ' || c == '\t' || c == '\n' || c == '\x0C' || c == '\r'
}

/// Unicode `White_Space`, the set `char::is_whitespace` (and so
/// `str::trim`) uses.
pub open spec fn unicode_ws(c: char) -> bool {
    ||| c == ' '
    ||| ('\t' <= c && c <= '\r')
    ||| c == '\u{85}'
    ||| c == '\u{A0}'
    ||| c == '\u{1680}'
    ||| ('\u{2000}' <= c && c <= '\u{200A}')
    ||| c == '\u{2028}'
    ||| c == '\u{2029}'
    ||| c == '\u{202F}'
    ||| c == '\u{205F}'
    ||| c == '\u{3000}'
}

#[verifier::when_used_as_spec(unicode_ws)]
pub fn is_unicode_ws(c: char) -> (b: bool)
    ensures
        b == unicode_ws(c),
{
    c == ' ' || ('\t' <= c && c <= '\r') || c == '\u{85}' || c == '\u{A0}' || c == '\u{1680}'
        || ('\u{2000}' <= c && c <= '\u{200A}') || c == '\u{2028}' || c == '\u{2029}'
        || c == '\u{202F}' || c == '\u{205F}' || c == '\u{3000}'
}

/// ASCII letters and digits (`u8::is_ascii_alphanumeric` on the byte).
pub open spec fn ascii_alnum(c: char) -> bool {
    ('a' <= c && c <= 'z') || ('A' <= c && c <= 'Z') || ('0' <= c && c <= '9')
}

#[verifier::when_used_as_spec(ascii_alnum)]
pub fn is_ascii_alnum(c: char) -> (b: bool)
    ensures
        b == ascii_alnum(c),
{
    ('a' <= c && c <= 'z') || ('A' <= c && c <= 'Z') || ('0' <= c && c <= '9')
}

/// The characters of `s`, in order.
pub fn chars_of(s: &str) -> (v: Vec<char>)
    ensures
        v@ == s@,
{
    let mut v: Vec<char> = Vec::new();
    let mut it = s.chars();
    loop
        invariant_except_break
            v@ + it.remaining() == s@,
        ensures
            v@ == s@,
        decreases s@.len() - v@.len(),
    {
        match it.next() {
            Some(c) => {
                v.push(c);
            },
            None => {
                break;
            },
        }
    }
    v
}

/// A `String` holding exactly the characters `v[a..b]`.
pub fn string_from_range(v: &Vec<char>, a: usize, b: usize) -> (s: String)
    requires
        a <= b <= v.len(),
    ensures
        s@ == v@.subrange(a as int, b as int),
{
    let mut s = String::new();
    let mut i = a;
    while i < b
        invariant
            a <= i <= b <= v.len(),
            s@ == v@.subrange(a as int, i as int),
        decreases b - i,
    {
        s.push(v[i]);
        i += 1;
        assert(s@ =~= v@.subrange(a as int, i as int));
    }
    s
}

/// A `String` holding exactly the characters of `v`.
pub fn string_from_chars(v: &Vec<char>) -> (s: String)
    ensures
        s@ == v@,
{
    let s = string_from_range(v, 0, v.len());
    assert(v@.subrange(0, v@.len() as int) =~= v@);
    s
}

/// A copy of `v[a..b]`.
pub fn sub_chars(v: &Vec<char>, a: usize, b: usize) -> (r: Vec<char>)
    requires
        a <= b <= v.len(),
    ensures
        r@ == v@.subrange(a as int, b as int),
{
    let mut r: Vec<char> = Vec::new();
    let mut i = a;
    while i < b
        invariant
            a <= i <= b <= v.len(),
            r@ == v@.subrange(a as int, i as int),
        decreases b - i,
    {
        r.push(v[i]);
        i += 1;
        assert(r@ =~= v@.subrange(a as int, i as int));
    }
    r
}

/// The first position at or after `i` that is not Unicode whitespace.
pub open spec fn lead_ws(s: Seq<char>, i: int) -> int
    decreases s.len() - i,
{
    if 0 <= i < s.len() && unicode_ws(s[i]) {
        lead_ws(s, i + 1)
    } else {
        i
    }
}

/// The end of `s[..j]` once trailing Unicode whitespace is dropped.
pub open spec fn trail_ws(s: Seq<char>, j: int) -> int
    decreases j,
{
    if 0 < j <= s.len() && unicode_ws(s[j - 1]) {
        trail_ws(s, j - 1)
    } else {
        j
    }
}

/// `str::trim`: leading and trailing Unicode whitespace removed.
pub open spec fn trim_spec(s: Seq<char>) -> Seq<char> {
    let t = s.subrange(lead_ws(s, 0), s.len() as int);
    t.subrange(0, trail_ws(t, t.len() as int))
}

pub proof fn lemma_lead_ws_bounds(s: Seq<char>, i: int)
    requires
        0 <= i <= s.len(),
    ensures
        i <= lead_ws(s, i) <= s.len(),
        lead_ws(s, i) < s.len() ==> !unicode_ws(s[lead_ws(s, i)]),
    decreases s.len() - i,
{
    if i < s.len() && unicode_ws(s[i]) {
        lemma_lead_ws_bounds(s, i + 1);
    }
}

pub proof fn lemma_trail_ws_bounds(s: Seq<char>, j: int)
    requires
        0 <= j <= s.len(),
    ensures
        0 <= trail_ws(s, j) <= j,
        trail_ws(s, j) > 0 ==> !unicode_ws(s[trail_ws(s, j) - 1]),
    decreases j,
{
    if j > 0 && unicode_ws(s[j - 1]) {
        lemma_trail_ws_bounds(s, j - 1);
    }
}

pub proof fn lemma_trim_len(s: Seq<char>)
    ensures
        trim_spec(s).len() <= s.len(),
{
    lemma_lead_ws_bounds(s, 0);
    let t = s.subrange(lead_ws(s, 0), s.len() as int);
    lemma_trail_ws_bounds(t, t.len() as int);
}

/// Lexicographic order on character sequences (the order `str`'s `Ord`
/// gives, since UTF-8 preserves code point order).
pub open spec fn lex_lt(a: Seq<char>, b: Seq<char>) -> bool
    decreases a.len(),
{
    if a.len() == 0 {
        b.len() > 0
    } else if b.len() == 0 {
        false
    } else if a[0] != b[0] {
        a[0] < b[0]
    } else {
        lex_lt(a.drop_first(), b.drop_first())
    }
}

pub proof fn lemma_lex_irreflexive(a: Seq<char>)
    ensures
        !lex_lt(a, a),
    decreases a.len(),
{
    if a.len() > 0 {
        lemma_lex_irreflexive(a.drop_first());
    }
}

pub proof fn lemma_lex_total(a: Seq<char>, b: Seq<char>)
    ensures
        a =~= b || lex_lt(a, b) || lex_lt(b, a),
        !(lex_lt(a, b) && lex_lt(b, a)),
    decreases a.len(),
{
    if a.len() > 0 && b.len() > 0 && a[0] == b[0] {
        lemma_lex_total(a.drop_first(), b.drop_first());
        if a.drop_first() =~= b.drop_first() {
            assert(a =~= seq![a[0]] + a.drop_first());
            assert(b =~= seq![b[0]] + b.drop_first());
        }
    }
}

pub proof fn lemma_lex_transitive(a: Seq<char>, b: Seq<char>, c: Seq<char>)
    requires
        lex_lt(a, b),
        lex_lt(b, c),
    ensures
        lex_lt(a, c),
    decreases a.len(),
{
    if a.len() > 0 && b.len() > 0 && c.len() > 0 && a[0] == b[0] && b[0] == c[0] {
        lemma_lex_transitive(a.drop_first(), b.drop_first(), c.drop_first());
    }
}

/// `a < b` on the strings' characters.
pub fn str_lt(a: &str, b: &str) -> (r: bool)
    ensures
        r == lex_lt(a@, b@),
{
    let x = chars_of(a);
    let y = chars_of(b);
    let mut i: usize = 0;
    assert(x@.skip(0) =~= x@ && y@.skip(0) =~= y@);
    while i < x.len() && i < y.len() && x[i] == y[i]
        invariant
            i <= x@.len() && i <= y@.len(),
            x@ == a@ && y@ == b@,
            lex_lt(a@, b@) == lex_lt(x@.skip(i as int), y@.skip(i as int)),
        decreases x@.len() - i,
    {
        assert(x@.skip(i as int).drop_first() =~= x@.skip(i + 1));
        assert(y@.skip(i as int).drop_first() =~= y@.skip(i + 1));
        i += 1;
    }
    if i == x.len() {
        i < y.len()
    } else if i == y.len() {
        false
    } else {
        x[i] < y[i]
    }
}

/// `str::trim` over a character vector.
pub fn trim_chars(s: &Vec<char>) -> (r: Vec<char>)
    ensures
        r@ == trim_spec(s@),
        r@.len() > 0 ==> !unicode_ws(r@[0]) && !unicode_ws(r@.last()),
{
    let len = s.len();
    let mut a: usize = 0;
    while a < len && is_unicode_ws(s[a])
        invariant
            a <= len == s@.len(),
            lead_ws(s@, a as int) == lead_ws(s@, 0),
        decreases len - a,
    {
        a += 1;
    }
    let t = sub_chars(s, a, len);
    let mut b: usize = t.len();
    while b > 0 && is_unicode_ws(t[b - 1])
        invariant
            b <= t@.len(),
            trail_ws(t@, b as int) == trail_ws(t@, t@.len() as int),
        decreases b,
    {
        b -= 1;
    }
    let r = sub_chars(&t, 0, b);
    proof {
        lemma_lead_ws_bounds(s@, 0);
        lemma_trail_ws_bounds(t@, t@.len() as int);
        if r@.len() > 0 {
            assert(r@[0] == s@[lead_ws(s@, 0)]);
        }
    }
    r
}

/// `str::trim_start`: leading Unicode whitespace removed.
pub open spec fn trim_start_spec(s: Seq<char>) -> Seq<char> {
    s.skip(lead_ws(s, 0))
}

/// `str::trim_end`: trailing Unicode whitespace removed.
pub open spec fn trim_end_spec(s: Seq<char>) -> Seq<char> {
    s.take(trail_ws(s, s.len() as int))
}

/// Whether `p` occurs in `s` starting at position `i`.
pub open spec fn has_prefix_at(s: Seq<char>, i: int, p: Seq<char>) -> bool {
    0 <= i && i + p.len() <= s.len() && s.subrange(i, i + p.len()) == p
}

/// `str::trim_start` over a character vector.
pub fn trim_start_chars(s: &Vec<char>) -> (r: Vec<char>)
    ensures
        r@ == trim_start_spec(s@),
{
    let len = s.len();
    let mut a: usize = 0;
    while a < len && is_unicode_ws(s[a])
        invariant
            a <= len == s@.len(),
            lead_ws(s@, a as int) == lead_ws(s@, 0),
        decreases len - a,
    {
        a += 1;
    }
    let r = sub_chars(s, a, len);
    assert(r@ =~= trim_start_spec(s@));
    r
}

/// `str::trim_end` over a character vector.
pub fn trim_end_chars(s: &Vec<char>) -> (r: Vec<char>)
    ensures
        r@ == trim_end_spec(s@),
{
    let mut b: usize = s.len();
    while b > 0 && is_unicode_ws(s[b - 1])
        invariant
            b <= s@.len(),
            trail_ws(s@, b as int) == trail_ws(s@, s@.len() as int),
        decreases b,
    {
        b -= 1;
    }
    let r = sub_chars(s, 0, b);
    assert(r@ =~= trim_end_spec(s@));
    r
}

/// Whether `p` occurs in `s` starting at position `i`.
pub fn prefix_at(s: &Vec<char>, i: usize, p: &Vec<char>) -> (r: bool)
    ensures
        r == has_prefix_at(s@, i as int, p@),
{
    if i > s.len() || p.len() > s.len() - i {
        return false;
    }
    let mut k: usize = 0;
    while k < p.len()
        invariant
            i + p@.len() <= s@.len(),
            s@.len() == s.len(),
            k <= p@.len(),
            forall|j: int| 0 <= j < k ==> s@[i + j] == p@[j],
        decreases p@.len() - k,
    {
        if s[i + k] != p[k] {
            assert(s@.subrange(i as int, i + p@.len())[k as int] != p@[k as int]);
            return false;
        }
        k += 1;
    }
    assert(s@.subrange(i as int, i + p@.len()) =~= p@);
    true
}

/// Append the characters of `t` to `s`.
pub fn append_str(s: &mut String, t: &str)
    ensures
        final(s)@ == old(s)@ + t@,
{
    let v = chars_of(t);
    let mut i: usize = 0;
    while i < v.len()
        invariant
            i <= v@.len(),
            v@ == t@,
            s@ == old(s)@ + v@.take(i as int),
        decreases v@.len() - i,
    {
        s.push(v[i]);
        i += 1;
        assert(s@ =~= old(s)@ + v@.take(i as int));
    }
    assert(v@.take(i as int) =~= t@);
}

/// Whether two texts are the same.
pub fn str_eq(a: &str, b: &str) -> (r: bool)
    ensures
        r == (a@ == b@),
{
    let x = chars_of(a);
    let y = chars_of(b);
    if x.len() != y.len() {
        return false;
    }
    let mut i: usize = 0;
    while i < x.len()
        invariant
            x@ == a@,
            y@ == b@,
            x@.len() == y@.len(),
            i <= x@.len(),
            forall|k: int| 0 <= k < i ==> x@[k] == y@[k],
        decreases x@.len() - i,
    {
        if x[i] != y[i] {
            return false;
        }
        i += 1;
    }
    assert(x@ =~= y@);
    true
}

/// `a` followed by `b`, as a new `String`.
pub fn concat(a: &str, b: &str) -> (r: String)
    ensures
        r@ == a@ + b@,
{
    let mut s = String::new();
    append_str(&mut s, a);
    append_str(&mut s, b);
    assert(s@ =~= a@ + b@);
    s
}

/// The position just past the quote `q` that closes a string whose
/// contents start at `i` (the end of `s` when it is never closed).
pub open spec fn quote_end(s: Seq<char>, i: int, q: char) -> int
    decreases s.len() - i,
{
    if !(0 <= i < s.len()) {
        i
    } else if s[i] == q {
        i + 1
    } else if s[i] == '\\' && i + 1 < s.len() {
        quote_end(s, i + 2, q)
    } else {
        quote_end(s, i + 1, q)
    }
}

pub proof fn lemma_quote_end_bounds(s: Seq<char>, i: int, q: char)
    requires
        0 <= i <= s.len(),
    ensures
        i <= quote_end(s, i, q) <= s.len(),
    decreases s.len() - i,
{
    if i < s.len() && s[i] != q {
        if s[i] == '\\' && i + 1 < s.len() {
            lemma_quote_end_bounds(s, i + 2, q);
        } else {
            lemma_quote_end_bounds(s, i + 1, q);
        }
    }
}

/// The position just past the quote `q` closing a string whose contents
/// start at `start` (see `quote_end`).
pub fn quote_end_at(s: &Vec<char>, start: usize, q: char) -> (e: usize)
    requires
        start <= s@.len(),
    ensures
        e == quote_end(s@, start as int, q),
{
    let mut i = start;
    while i < s.len()
        invariant
            start <= i <= s@.len(),
            quote_end(s@, i as int, q) == quote_end(s@, start as int, q),
        decreases s@.len() - i,
    {
        let c = s[i];
        if c == q {
            return i + 1;
        } else if c == '\\' && i + 1 < s.len() {
            i += 2;
        } else {
            i += 1;
        }
    }
    i
}

/// Whether two character vectors hold the same characters.
pub fn chars_eq(a: &Vec<char>, b: &Vec<char>) -> (r: bool)
    ensures
        r == (a@ == b@),
{
    if a.len() != b.len() {
        return false;
    }
    let mut i: usize = 0;
    while i < a.len()
        invariant
            a@.len() == b@.len(),
            i <= a@.len(),
            forall|k: int| 0 <= k < i ==> a@[k] == b@[k],
        decreases a@.len() - i,
    {
        if a[i] != b[i] {
            return false;
        }
        i += 1;
    }
    assert(a@ =~= b@);
    true
}

/// Append the characters of `t` to `v`.
pub fn extend_chars(v: &mut Vec<char>, t: &Vec<char>)
    ensures
        final(v)@ == old(v)@ + t@,
{
    let mut i: usize = 0;
    while i < t.len()
        invariant
            i <= t@.len(),
            v@ == old(v)@ + t@.take(i as int),
        decreases t@.len() - i,
    {
        v.push(t[i]);
        i += 1;
        assert(v@ =~= old(v)@ + t@.take(i as int));
    }
    assert(t@.take(i as int) =~= t@);
}


/// Trimming a text already trimmed changes nothing.
pub proof fn lemma_trim_trimmed(s: Seq<char>)
    ensures
        trim_spec(trim_spec(s)) == trim_spec(s),
        trim_spec(s).len() > 0 ==> !unicode_ws(trim_spec(s)[0]) && !unicode_ws(
            trim_spec(s).last(),
        ),
        forall|k: int|
            0 <= k < trim_spec(s).len() ==> trim_spec(s)[k] == s[k + lead_ws(s, 0)],
        trim_spec(s).len() + lead_ws(s, 0) <= s.len(),
{
    lemma_lead_ws_bounds(s, 0);
    let a = lead_ws(s, 0);
    let t = s.subrange(a, s.len() as int);
    lemma_trail_ws_bounds(t, t.len() as int);
    let u = trim_spec(s);
    if u.len() > 0 {
        lemma_trim_of_unpadded(u);
    } else {
        assert(trim_spec(u) =~= u);
    }
}

/// A text that starts and ends with something other than whitespace is
/// its own trim.
pub proof fn lemma_trim_of_unpadded(u: Seq<char>)
    requires
        u.len() > 0,
        !unicode_ws(u[0]),
        !unicode_ws(u.last()),
    ensures
        trim_spec(u) == u,
{
    assert(lead_ws(u, 0) == 0);
    assert(u.subrange(0, u.len() as int) =~= u);
    assert(trail_ws(u, u.len() as int) == u.len());
    assert(u.subrange(0, u.len() as int) =~= u);
}

} // verus!
