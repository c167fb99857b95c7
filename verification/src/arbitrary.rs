//! Arbitrary properties (`[prop:value]`) and values: reading them,
//! rejecting what would not be valid CSS, and normalizing the value;
//! with the top-level splitting of animation values and the family
//! prefixes of parametric variants.
use vstd::prelude::*;
use crate::css_blocks::is_quote;
use crate::element_selector::ident_c;
use crate::text::{
    ascii_alnum, chars_eq, chars_of, extend_chars, is_ascii_alnum, lemma_quote_end_bounds,
    quote_end, quote_end_at, string_from_chars, sub_chars,
};
use crate::theme::ascii_alpha;

verus! {

/// Whether `s[i..]` has a `:` outside strings, parentheses and brackets
/// (escapes stepped over).
pub open spec fn colon_scan(s: Seq<char>, i: int, dp: int, db: int) -> bool
    decreases s.len() - i,
{
    if !(0 <= i < s.len()) {
        false
    } else if s[i] == '\\' && i + 1 < s.len() {
        colon_scan(s, i + 2, dp, db)
    } else if is_quote(s[i]) {
        proof {
            lemma_quote_end_bounds(s, i + 1, s[i]);
        }
        colon_scan(s, quote_end(s, i + 1, s[i]), dp, db)
    } else if s[i] == '(' {
        colon_scan(s, i + 1, dp + 1, db)
    } else if s[i] == ')' {
        colon_scan(s, i + 1, dp - 1, db)
    } else if s[i] == '[' {
        colon_scan(s, i + 1, dp, db + 1)
    } else if s[i] == ']' {
        colon_scan(s, i + 1, dp, db - 1)
    } else if s[i] == ':' && dp == 0 && db == 0 {
        true
    } else {
        colon_scan(s, i + 1, dp, db)
    }
}

/// Whether a value has a `:` at its top level.
pub fn value_has_top_level_colon(value: &str) -> (r: bool)
    ensures
        r == colon_scan(value@, 0, 0, 0),
{
    let s = chars_of(value);
    let mut i: usize = 0;
    let mut po: usize = 0;
    let mut pc: usize = 0;
    let mut bo: usize = 0;
    let mut bc: usize = 0;
    while i < s.len()
        invariant
            s@ == value@,
            i <= s@.len(),
            po <= i && pc <= i && bo <= i && bc <= i,
            colon_scan(s@, i as int, po - pc, bo - bc) == colon_scan(s@, 0, 0, 0),
        decreases s@.len() - i,
    {
        let c = s[i];
        if c == '\\' && i + 1 < s.len() {
            i += 2;
        } else if c == '"' || c == '\'' {
            proof {
                lemma_quote_end_bounds(s@, i + 1, c);
            }
            i = quote_end_at(&s, i + 1, c);
        } else if c == '(' {
            po += 1;
            i += 1;
        } else if c == ')' {
            pc += 1;
            i += 1;
        } else if c == '[' {
            bo += 1;
            i += 1;
        } else if c == ']' {
            bc += 1;
            i += 1;
        } else if c == ':' && po == pc && bo == bc {
            return true;
        } else {
            i += 1;
        }
    }
    false
}

/// Whether `s[i..]` has a `{` or `}` outside strings (escapes stepped
/// over).
pub open spec fn brace_scan(s: Seq<char>, i: int) -> bool
    decreases s.len() - i,
{
    if !(0 <= i < s.len()) {
        false
    } else if s[i] == '\\' && i + 1 < s.len() {
        brace_scan(s, i + 2)
    } else if is_quote(s[i]) {
        proof {
            lemma_quote_end_bounds(s, i + 1, s[i]);
        }
        brace_scan(s, quote_end(s, i + 1, s[i]))
    } else if s[i] == '{' || s[i] == '}' {
        true
    } else {
        brace_scan(s, i + 1)
    }
}

/// Whether a value holds a brace outside strings.
pub fn value_has_braces(value: &str) -> (r: bool)
    ensures
        r == brace_scan(value@, 0),
{
    let s = chars_of(value);
    let mut i: usize = 0;
    while i < s.len()
        invariant
            s@ == value@,
            i <= s@.len(),
            brace_scan(s@, i as int) == brace_scan(s@, 0),
        decreases s@.len() - i,
    {
        let c = s[i];
        if c == '\\' && i + 1 < s.len() {
            i += 2;
        } else if c == '"' || c == '\'' {
            proof {
                lemma_quote_end_bounds(s@, i + 1, c);
            }
            i = quote_end_at(&s, i + 1, c);
        } else if c == '{' || c == '}' {
            return true;
        } else {
            i += 1;
        }
    }
    false
}

/// `<property>:<value>` reads as a URL with a scheme and a host: the
/// property is letters only, the value starts with `//` and a host
/// character.
pub open spec fn uri_spec(property: Seq<char>, value: Seq<char>) -> bool {
    &&& value.len() >= 3
    &&& value[0] == '/' && value[1] == '/'
    &&& property.len() > 0
    &&& forall|k: int| 0 <= k < property.len() ==> ascii_alpha(#[trigger] property[k])
    &&& value[2] != '/' && value[2] != '?' && value[2] != '#'
}

fn all_alpha(s: &Vec<char>) -> (r: bool)
    ensures
        r == forall|k: int| 0 <= k < s@.len() ==> ascii_alpha(#[trigger] s@[k]),
{
    let mut k: usize = 0;
    while k < s.len()
        invariant
            k <= s@.len(),
            forall|m: int| 0 <= m < k ==> ascii_alpha(#[trigger] s@[m]),
        decreases s@.len() - k,
    {
        let c = s[k];
        if !(('a' <= c && c <= 'z') || ('A' <= c && c <= 'Z')) {
            return false;
        }
        k += 1;
    }
    true
}

/// Whether `property:value` looks like a URL (`uri_spec`).
pub fn looks_like_uri(property: &str, value: &str) -> (r: bool)
    ensures
        r == uri_spec(property@, value@),
{
    let p = chars_of(property);
    let v = chars_of(value);
    if v.len() < 3 || v[0] != '/' || v[1] != '/' {
        return false;
    }
    if p.len() == 0 || !all_alpha(&p) {
        return false;
    }
    v[2] != '/' && v[2] != '?' && v[2] != '#'
}

/// A property name of an arbitrary property: `--` and identifier
/// characters for a custom property, else a letter then letters,
/// digits and `-`.
pub open spec fn arb_name_spec(n: Seq<char>) -> bool {
    if n.len() >= 2 && n[0] == '-' && n[1] == '-' {
        n.len() > 2 && forall|k: int| 2 <= k < n.len() ==> ident_c(#[trigger] n[k])
    } else {
        &&& n.len() > 0
        &&& ascii_alpha(n[0])
        &&& forall|k: int| 0 <= k < n.len() ==> (ascii_alnum(#[trigger] n[k]) || n[k] == '-')
    }
}

/// Whether a name can be the property of an arbitrary property
/// (`arb_name_spec`).
pub fn is_arbitrary_property_name(name: &str) -> (r: bool)
    ensures
        r == arb_name_spec(name@),
{
    let n = chars_of(name);
    if n.len() >= 2 && n[0] == '-' && n[1] == '-' {
        if n.len() == 2 {
            return false;
        }
        let mut k: usize = 2;
        while k < n.len()
            invariant
                2 <= k <= n@.len(),
                n@ == name@,
                n@.len() > 2 && n@[0] == '-' && n@[1] == '-',
                forall|m: int| 2 <= m < k ==> ident_c(#[trigger] n@[m]),
            decreases n@.len() - k,
        {
            if !(is_ascii_alnum(n[k]) || n[k] == '-' || n[k] == '_') {
                assert(!ident_c(n@[k as int]));
                return false;
            }
            k += 1;
        }
        return true;
    }
    if n.len() == 0 || !(('a' <= n[0] && n[0] <= 'z') || ('A' <= n[0] && n[0] <= 'Z')) {
        return false;
    }
    let mut k: usize = 0;
    while k < n.len()
        invariant
            k <= n@.len(),
            n@ == name@,
            !(n@.len() >= 2 && n@[0] == '-' && n@[1] == '-'),
            n@.len() > 0 && ascii_alpha(n@[0]),
            forall|m: int| 0 <= m < k ==> (ascii_alnum(#[trigger] n@[m]) || n@[m] == '-'),
        decreases n@.len() - k,
    {
        if !(is_ascii_alnum(n[k]) || n[k] == '-') {
            assert(!(ascii_alnum(n@[k as int]) || n@[k as int] == '-'));
            return false;
        }
        k += 1;
    }
    true
}

/// The first `:` of `s` from `i` at depth zero, parentheses and
/// brackets counted together; -1 when none.
pub open spec fn arb_colon(s: Seq<char>, i: int, depth: int) -> int
    decreases s.len() - i,
{
    if !(0 <= i < s.len()) {
        -1
    } else if s[i] == '(' || s[i] == '[' {
        arb_colon(s, i + 1, depth + 1)
    } else if s[i] == ')' || s[i] == ']' {
        arb_colon(s, i + 1, depth - 1)
    } else if s[i] == ':' && depth == 0 {
        i
    } else {
        arb_colon(s, i + 1, depth)
    }
}

pub proof fn lemma_arb_colon_bounds(s: Seq<char>, i: int, depth: int)
    requires
        0 <= i,
    ensures
        arb_colon(s, i, depth) == -1 || i <= arb_colon(s, i, depth) < s.len(),
    decreases s.len() - i,
{
    if 0 <= i < s.len() {
        if s[i] == '(' || s[i] == '[' {
            lemma_arb_colon_bounds(s, i + 1, depth + 1);
        } else if s[i] == ')' || s[i] == ']' {
            lemma_arb_colon_bounds(s, i + 1, depth - 1);
        } else if !(s[i] == ':' && depth == 0) {
            lemma_arb_colon_bounds(s, i + 1, depth);
        }
    }
}

/// `[<property>:<value>]` as its property and value: the split is at
/// the first top-level `:`; neither may be empty, the property must be a
/// property name, and the value must not look like the rest of a URL nor
/// hold a top-level `:` or a brace.
pub open spec fn arb_property_spec(root: Seq<char>) -> Option<(Seq<char>, Seq<char>)> {
    if !(root.len() >= 2 && root[0] == '[' && root[root.len() - 1] == ']') {
        None
    } else {
        let inner = root.subrange(1, root.len() - 1);
        let c = arb_colon(inner, 0, 0);
        if c < 0 {
            None
        } else {
            let property = inner.take(c);
            let value = inner.skip(c + 1);
            if property.len() == 0 || value.len() == 0 || !arb_name_spec(property) || uri_spec(
                property,
                value,
            ) || colon_scan(value, 0, 0, 0) || brace_scan(value, 0) {
                None
            } else {
                Some((property, value))
            }
        }
    }
}

fn arb_colon_at(inner: &Vec<char>) -> (r: Option<usize>)
    ensures
        match r {
            Some(c) => arb_colon(inner@, 0, 0) == c as int && c < inner@.len(),
            None => arb_colon(inner@, 0, 0) == -1,
        },
{
    let mut i: usize = 0;
    let mut opens: usize = 0;
    let mut closes: usize = 0;
    proof {
        lemma_arb_colon_bounds(inner@, 0, 0);
    }
    while i < inner.len()
        invariant
            i <= inner@.len(),
            opens <= i && closes <= i,
            arb_colon(inner@, i as int, opens - closes) == arb_colon(inner@, 0, 0),
        decreases inner@.len() - i,
    {
        let c = inner[i];
        if c == '(' || c == '[' {
            opens += 1;
        } else if c == ')' || c == ']' {
            closes += 1;
        } else if c == ':' && opens == closes {
            return Some(i);
        }
        i += 1;
    }
    None
}

/// Read an arbitrary property (`arb_property_spec`).
pub fn parse_arbitrary_property(root: &str) -> (r: Option<(String, String)>)
    ensures
        match r {
            Some((p, v)) => arb_property_spec(root@) == Some((p@, v@)),
            None => arb_property_spec(root@) is None,
        },
{
    let s = chars_of(root);
    if !(s.len() >= 2 && s[0] == '[' && s[s.len() - 1] == ']') {
        return None;
    }
    let inner = sub_chars(&s, 1, s.len() - 1);
    let c = match arb_colon_at(&inner) {
        Some(c) => c,
        None => {
            return None;
        },
    };
    let property = sub_chars(&inner, 0, c);
    let value = sub_chars(&inner, c + 1, inner.len());
    proof {
        assert(property@ =~= inner@.take(c as int));
        assert(value@ =~= inner@.skip(c + 1));
    }
    if property.len() == 0 || value.len() == 0 {
        return None;
    }
    let ps = string_from_chars(&property);
    let vs = string_from_chars(&value);
    if !is_arbitrary_property_name(ps.as_str()) || looks_like_uri(ps.as_str(), vs.as_str())
        || value_has_top_level_colon(vs.as_str()) || value_has_braces(vs.as_str()) {
        return None;
    }
    Some((ps, vs))
}

/// `s[i..]` with `_` read as a space and `\x` as `x`.
pub open spec fn underscores_from(s: Seq<char>, i: int) -> Seq<char>
    decreases s.len() - i,
{
    if !(0 <= i < s.len()) {
        Seq::empty()
    } else if s[i] == '\\' && i + 1 < s.len() {
        seq![s[i + 1]] + underscores_from(s, i + 2)
    } else if s[i] == '_' {
        seq![' '] + underscores_from(s, i + 1)
    } else {
        seq![s[i]] + underscores_from(s, i + 1)
    }
}

/// An arbitrary value with its underscores read as spaces; an escaped
/// character stands for itself (`underscores_from`).
pub fn normalize_arbitrary_value(value: &str) -> (r: String)
    ensures
        r@ == underscores_from(value@, 0),
{
    let s = chars_of(value);
    let mut out: Vec<char> = Vec::new();
    let mut i: usize = 0;
    while i < s.len()
        invariant
            s@ == value@,
            i <= s@.len(),
            out@ + underscores_from(s@, i as int) == underscores_from(s@, 0),
        decreases s@.len() - i,
    {
        let ghost before = out@;
        if s[i] == '\\' && i + 1 < s.len() {
            out.push(s[i + 1]);
            assert(before + (seq![s@[i + 1]] + underscores_from(s@, i + 2)) =~= out@
                + underscores_from(s@, i + 2));
            i += 2;
        } else {
            let c = if s[i] == '_' {
                ' '
            } else {
                s[i]
            };
            out.push(c);
            assert(before + (seq![c] + underscores_from(s@, i + 1)) =~= out@ + underscores_from(
                s@,
                i + 1,
            ));
            i += 1;
        }
    }
    assert(out@ + Seq::<char>::empty() =~= out@);
    string_from_chars(&out)
}

/// The properties that take a `<dashed-ident>` as it is.
pub open spec fn dashed_ident_property(p: Seq<char>) -> bool {
    ||| p == "scroll-timeline-name"@
    ||| p == "timeline-scope"@
    ||| p == "view-timeline-name"@
    ||| p == "font-palette"@
    ||| p == "anchor-name"@
    ||| p == "anchor-scope"@
    ||| p == "position-anchor"@
    ||| p == "position-try-options"@
    ||| p == "scroll-timeline"@
    ||| p == "animation-timeline"@
    ||| p == "view-timeline"@
    ||| p == "position-try"@
}

/// Whether a property takes a `<dashed-ident>` as it is.
pub fn property_accepts_dashed_ident(prop: &str) -> (r: bool)
    ensures
        r == dashed_ident_property(prop@),
{
    let p = chars_of(prop);
    chars_eq(&p, &chars_of("scroll-timeline-name")) || chars_eq(&p, &chars_of("timeline-scope"))
        || chars_eq(&p, &chars_of("view-timeline-name")) || chars_eq(&p, &chars_of("font-palette"))
        || chars_eq(&p, &chars_of("anchor-name")) || chars_eq(&p, &chars_of("anchor-scope"))
        || chars_eq(&p, &chars_of("position-anchor")) || chars_eq(
        &p,
        &chars_of("position-try-options"),
    ) || chars_eq(&p, &chars_of("scroll-timeline")) || chars_eq(
        &p,
        &chars_of("animation-timeline"),
    ) || chars_eq(&p, &chars_of("view-timeline")) || chars_eq(&p, &chars_of("position-try"))
}

/// A value that is a bare custom-property name (`--x`) wrapped in
/// `var(...)`, unless the property takes dashed idents.
pub open spec fn wrap_var_spec(value: Seq<char>, property: Seq<char>) -> Seq<char> {
    if !dashed_ident_property(property) && value.len() >= 2 && value[0] == '-' && value[1] == '-'
        && forall|k: int| 0 <= k < value.len() ==> ident_c(#[trigger] value[k]) {
        "var("@ + value + seq![')']
    } else {
        value
    }
}

/// Wrap a bare custom-property reference in `var(...)` (`wrap_var_spec`).
pub fn maybe_wrap_var_reference(value: &str, property: &str) -> (r: String)
    ensures
        r@ == wrap_var_spec(value@, property@),
{
    let v = chars_of(value);
    if property_accepts_dashed_ident(property) || !(v.len() >= 2 && v[0] == '-' && v[1] == '-') {
        return string_from_chars(&v);
    }
    let mut k: usize = 0;
    while k < v.len()
        invariant
            k <= v@.len(),
            v@ == value@,
            !dashed_ident_property(property@),
            v@.len() >= 2 && v@[0] == '-' && v@[1] == '-',
            forall|m: int| 0 <= m < k ==> ident_c(#[trigger] v@[m]),
        decreases v@.len() - k,
    {
        if !(is_ascii_alnum(v[k]) || v[k] == '-' || v[k] == '_') {
            assert(!ident_c(v@[k as int]));
            return string_from_chars(&v);
        }
        k += 1;
    }
    let mut out = chars_of("var(");
    extend_chars(&mut out, &v);
    out.push(')');
    string_from_chars(&out)
}

// ---------------------------------------------------------------------
// Splitting at the top level
// ---------------------------------------------------------------------

/// The parts of `s` from `i` separated by `delim` outside parentheses,
/// brackets and braces (`start` being where the current part began);
/// a closing character never takes the depth below zero.
pub open spec fn top_split_scan(s: Seq<char>, delim: char, i: int, depth: int, start: int) -> Seq<
    Seq<char>,
>
    decreases s.len() - i,
{
    if !(0 <= i < s.len()) {
        seq![s.subrange(start, s.len() as int)]
    } else if s[i] == '(' || s[i] == '[' || s[i] == '{' {
        top_split_scan(s, delim, i + 1, depth + 1, start)
    } else if s[i] == ')' || s[i] == ']' || s[i] == '}' {
        top_split_scan(
            s,
            delim,
            i + 1,
            if depth - 1 < 0 {
                0
            } else {
                depth - 1
            },
            start,
        )
    } else if s[i] == delim && depth == 0 {
        seq![s.subrange(start, i)] + top_split_scan(s, delim, i + 1, depth, i + 1)
    } else {
        top_split_scan(s, delim, i + 1, depth, start)
    }
}

/// Split a value at `delim` outside parentheses, brackets and braces
/// (`top_split_scan`).
pub fn split_top_level(input: &str, delim: char) -> (r: Vec<String>)
    ensures
        r@.map_values(|p: String| p@) == top_split_scan(input@, delim, 0, 0, 0),
{
    let s = chars_of(input);
    let mut out: Vec<String> = Vec::new();
    let mut depth: usize = 0;
    let mut start: usize = 0;
    let mut i: usize = 0;
    while i < s.len()
        invariant
            s@ == input@,
            start <= i <= s@.len(),
            depth <= i,
            out@.map_values(|p: String| p@) + top_split_scan(
                s@,
                delim,
                i as int,
                depth as int,
                start as int,
            ) == top_split_scan(s@, delim, 0, 0, 0),
        decreases s@.len() - i,
    {
        let c = s[i];
        if c == '(' || c == '[' || c == '{' {
            depth += 1;
        } else if c == ')' || c == ']' || c == '}' {
            if depth > 0 {
                depth -= 1;
            }
        } else if c == delim && depth == 0 {
            let part = string_from_chars(&sub_chars(&s, start, i));
            let ghost before = out@.map_values(|p: String| p@);
            out.push(part);
            assert(out@.map_values(|p: String| p@) =~= before.push(part@));
            assert(before + (seq![part@] + top_split_scan(s@, delim, i + 1, 0, i + 1)) =~= before.push(
                part@,
            ) + top_split_scan(s@, delim, i + 1, 0, i + 1));
            start = i + 1;
        }
        i += 1;
    }
    let part = string_from_chars(&sub_chars(&s, start, s.len()));
    let ghost before = out@.map_values(|p: String| p@);
    out.push(part);
    assert(out@.map_values(|p: String| p@) =~= before.push(part@));
    out
}

/// The family a parametric variant name belongs to (`group`, `peer`,
/// `aria`, `data`, `has`, `supports`, `min`, `max`): the first whose
/// prefix and `-` start the name.
pub open spec fn family_spec(name: Seq<char>) -> Option<Seq<char>> {
    let fams = seq!["group"@, "peer"@, "aria"@, "data"@, "has"@, "supports"@, "min"@, "max"@];
    family_from(name, fams, 0)
}

pub open spec fn family_from(name: Seq<char>, fams: Seq<Seq<char>>, k: int) -> Option<Seq<char>>
    decreases fams.len() - k,
{
    if !(0 <= k < fams.len()) {
        None
    } else {
        let p = fams[k] + seq!['-'];
        if p.len() <= name.len() && name.take(p.len() as int) == p {
            Some(fams[k])
        } else {
            family_from(name, fams, k + 1)
        }
    }
}

/// The family of a parametric variant name (`family_spec`).
pub fn strip_family_prefix(name: &str) -> (r: Option<String>)
    ensures
        match r {
            Some(f) => family_spec(name@) == Some(f@),
            None => family_spec(name@) is None,
        },
{
    let n = chars_of(name);
    let ghost fams = seq!["group"@, "peer"@, "aria"@, "data"@, "has"@, "supports"@, "min"@, "max"@];
    let list: Vec<&str> = vec!["group", "peer", "aria", "data", "has", "supports", "min", "max"];
    assert(family_spec(name@) == family_from(name@, fams, 0));
    assert(list@.len() == 8);
    let mut k: usize = 0;
    while k < list.len()
        invariant
            k <= list@.len(),
            list@.len() == 8,
            n@ == name@,
            fams.len() == 8,
            forall|j: int| 0 <= j < 8 ==> #[trigger] list@[j]@ == fams[j],
            family_from(name@, fams, k as int) == family_from(name@, fams, 0),
            family_spec(name@) == family_from(name@, fams, 0),
        decreases list@.len() - k,
    {
        let fam = chars_of(list[k]);
        let mut p = chars_of(list[k]);
        p.push('-');
        assert(fam@ == fams[k as int]);
        assert(p@ =~= fams[k as int] + seq!['-']);
        if p.len() <= n.len() {
            let head = sub_chars(&n, 0, p.len());
            assert(head@ =~= n@.take(p@.len() as int));
            if chars_eq(&head, &p) {
                proof {
                    let pk = fams[k as int] + seq!['-'];
                    assert(pk == p@);
                    assert(name@.take(pk.len() as int) == pk);
                    assert(family_from(name@, fams, k as int) == Some(fams[k as int]));
                }
                return Some(string_from_chars(&fam));
            }
        }
        k += 1;
    }
    None
}

} // verus!
