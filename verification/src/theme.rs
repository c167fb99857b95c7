//! Reading values out of a theme for `theme(…)` calls: paths and their
//! alpha suffix, walking the theme object, the per-section rendering of
//! a value, and applying an alpha to a color.
use vstd::prelude::*;
use crate::directives::chars_list_view;
use crate::json::{json_get, json_str, member_from, JsonValue};
use crate::lcss::{all_digits, digits_value, is_digit};
use crate::text::{
    chars_eq, chars_of, extend_chars, lemma_quote_end_bounds, quote_end, quote_end_at,
    string_from_chars, sub_chars, trim_chars, trim_spec,
};

verus! {

// ---------------------------------------------------------------------
// Paths
// ---------------------------------------------------------------------

pub open spec fn flush(cur: Seq<char>) -> Seq<Seq<char>> {
    if cur.len() > 0 {
        seq![cur]
    } else {
        Seq::empty()
    }
}

/// The segments of a theme path from `i` on, `cur` being the segment
/// read so far: `.` separates segments outside brackets, `[` and `]`
/// delimit a segment (which may hold `.`); empty segments are dropped.
pub open spec fn path_scan(s: Seq<char>, i: int, cur: Seq<char>, in_bracket: bool) -> Seq<Seq<char>>
    decreases s.len() - i,
{
    if !(0 <= i < s.len()) {
        flush(cur)
    } else if s[i] == '[' {
        flush(cur) + path_scan(s, i + 1, Seq::empty(), true)
    } else if s[i] == ']' {
        flush(cur) + path_scan(s, i + 1, Seq::empty(), false)
    } else if s[i] == '.' && !in_bracket {
        flush(cur) + path_scan(s, i + 1, Seq::empty(), in_bracket)
    } else {
        path_scan(s, i + 1, cur.push(s[i]), in_bracket)
    }
}

/// The segments of a theme path: `colors.red.500` and `colors[red.500]`.
pub fn to_path_segments(path: &str) -> (r: Vec<Vec<char>>)
    ensures
        chars_list_view(r@) == path_scan(path@, 0, Seq::empty(), false),
{
    let s = chars_of(path);
    let mut out: Vec<Vec<char>> = Vec::new();
    let mut cur: Vec<char> = Vec::new();
    let mut in_bracket = false;
    let mut i: usize = 0;
    while i < s.len()
        invariant
            i <= s@.len(),
            s@ == path@,
            chars_list_view(out@) + path_scan(s@, i as int, cur@, in_bracket) == path_scan(
                s@,
                0,
                Seq::empty(),
                false,
            ),
        decreases s@.len() - i,
    {
        let c = s[i];
        let ghost before = chars_list_view(out@);
        if c == '[' || c == ']' || (c == '.' && !in_bracket) {
            if cur.len() > 0 {
                out.push(cur);
                assert(chars_list_view(out@) =~= before + flush(out@.last()@));
            } else {
                assert(chars_list_view(out@) =~= before + flush(cur@));
            }
            cur = Vec::new();
            if c == '[' {
                in_bracket = true;
            } else if c == ']' {
                in_bracket = false;
            }
        } else {
            cur.push(c);
        }
        i += 1;
    }
    let ghost before = chars_list_view(out@);
    if cur.len() > 0 {
        out.push(cur);
        assert(chars_list_view(out@) =~= before + flush(out@.last()@));
    } else {
        assert(chars_list_view(out@) =~= before + flush(cur@));
    }
    out
}

/// The first `/` from `i` on outside brackets (`depth` open), or -1.
pub open spec fn slash_pos(s: Seq<char>, i: int, depth: int) -> int
    decreases s.len() - i,
{
    if !(0 <= i < s.len()) {
        -1
    } else if s[i] == '[' {
        slash_pos(s, i + 1, depth + 1)
    } else if s[i] == ']' {
        slash_pos(s, i + 1, depth - 1)
    } else if s[i] == '/' && depth == 0 {
        i
    } else {
        slash_pos(s, i + 1, depth)
    }
}

pub open spec fn blank(c: char) -> bool {
    c == ' ' || c == '\t'
}

/// The start of the blanks that end `s[..j]`.
pub open spec fn blanks_before(s: Seq<char>, j: int) -> int
    decreases j,
{
    if 0 < j <= s.len() && blank(s[j - 1]) {
        blanks_before(s, j - 1)
    } else {
        j
    }
}

/// The end of the blanks that start at `j`.
pub open spec fn blanks_after(s: Seq<char>, j: int) -> int
    decreases s.len() - j,
{
    if 0 <= j < s.len() && blank(s[j]) {
        blanks_after(s, j + 1)
    } else {
        j
    }
}

/// A theme path and its alpha: `colors.blue.500 / 50%` splits at its
/// first `/` outside brackets into the path and `50%`; no `/`, an empty
/// alpha or one holding another `/` leaves the path whole.
pub open spec fn split_alpha_spec(s: Seq<char>) -> (Seq<char>, Option<Seq<char>>) {
    let k = slash_pos(s, 0, 0);
    if k < 0 {
        (s, None)
    } else {
        let alpha = s.skip(blanks_after(s, k + 1));
        if alpha.len() == 0 || alpha.contains('/') {
            (s, None)
        } else {
            (s.take(blanks_before(s, k)), Some(alpha))
        }
    }
}

proof fn lemma_slash_pos_bounds(s: Seq<char>, i: int, depth: int)
    requires
        0 <= i,
    ensures
        slash_pos(s, i, depth) == -1 || (i <= slash_pos(s, i, depth) < s.len() && s[slash_pos(
            s,
            i,
            depth,
        )] == '/'),
    decreases s.len() - i,
{
    if 0 <= i < s.len() {
        if s[i] == '[' {
            lemma_slash_pos_bounds(s, i + 1, depth + 1);
        } else if s[i] == ']' {
            lemma_slash_pos_bounds(s, i + 1, depth - 1);
        } else if !(s[i] == '/' && depth == 0) {
            lemma_slash_pos_bounds(s, i + 1, depth);
        }
    }
}

proof fn lemma_blanks_before_bounds(s: Seq<char>, j: int)
    requires
        0 <= j <= s.len(),
    ensures
        0 <= blanks_before(s, j) <= j,
    decreases j,
{
    if j > 0 && blank(s[j - 1]) {
        lemma_blanks_before_bounds(s, j - 1);
    }
}

proof fn lemma_blanks_after_bounds(s: Seq<char>, j: int)
    requires
        0 <= j <= s.len(),
    ensures
        j <= blanks_after(s, j) <= s.len(),
    decreases s.len() - j,
{
    if j < s.len() && blank(s[j]) {
        lemma_blanks_after_bounds(s, j + 1);
    }
}

/// Split a theme path from its alpha (see `split_alpha_spec`).
pub fn split_theme_alpha(s: &Vec<char>) -> (r: (Vec<char>, Option<Vec<char>>))
    ensures
        r.0@ == split_alpha_spec(s@).0,
        match r.1 {
            Some(a) => split_alpha_spec(s@).1 == Some(a@),
            None => split_alpha_spec(s@).1 is None,
        },
{
    proof {
        lemma_slash_pos_bounds(s@, 0, 0);
    }
    let mut i: usize = 0;
    let mut bo: usize = 0;
    let mut bc: usize = 0;
    while i < s.len()
        invariant
            i <= s@.len(),
            bo <= i && bc <= i,
            slash_pos(s@, i as int, bo - bc) == slash_pos(s@, 0, 0),
        decreases s@.len() - i,
    {
        let c = s[i];
        if c == '[' {
            bo += 1;
        } else if c == ']' {
            bc += 1;
        } else if c == '/' && bo == bc {
            let mut path_end = i;
            while path_end > 0 && (s[path_end - 1] == ' ' || s[path_end - 1] == '\t')
                invariant
                    path_end <= i < s@.len(),
                    blanks_before(s@, path_end as int) == blanks_before(s@, i as int),
                decreases path_end,
            {
                path_end -= 1;
            }
            let mut alpha_start = i + 1;
            while alpha_start < s.len() && (s[alpha_start] == ' ' || s[alpha_start] == '\t')
                invariant
                    i + 1 <= alpha_start <= s@.len(),
                    blanks_after(s@, alpha_start as int) == blanks_after(s@, i + 1),
                decreases s@.len() - alpha_start,
            {
                alpha_start += 1;
            }
            let alpha = sub_chars(s, alpha_start, s.len());
            assert(alpha@ =~= s@.skip(alpha_start as int));
            let mut has_slash = false;
            let mut k: usize = 0;
            while k < alpha.len()
                invariant
                    k <= alpha@.len(),
                    has_slash == (exists|j: int| 0 <= j < k && alpha@[j] == '/'),
                decreases alpha@.len() - k,
            {
                if alpha[k] == '/' {
                    has_slash = true;
                }
                k += 1;
            }
            assert(has_slash == alpha@.contains('/'));
            assert(slash_pos(s@, 0, 0) == i as int);
            assert(blanks_after(s@, alpha_start as int) == alpha_start as int);
            assert(blanks_before(s@, path_end as int) == path_end as int);
            if alpha.len() == 0 || has_slash {
                let whole = sub_chars(s, 0, s.len());
                assert(whole@ =~= s@);
                return (whole, None);
            }
            let head = sub_chars(s, 0, path_end);
            assert(head@ =~= s@.take(path_end as int));
            return (head, Some(alpha));
        }
        i += 1;
    }
    let whole = sub_chars(s, 0, s.len());
    assert(whole@ =~= s@);
    (whole, None)
}

/// The first `,` of a `theme()` argument list outside strings,
/// parentheses and brackets, or -1.
pub open spec fn first_comma(s: Seq<char>, i: int, dp: int, db: int) -> int
    decreases s.len() - i,
{
    if !(0 <= i < s.len()) {
        -1
    } else if s[i] == '"' || s[i] == '\'' {
        proof {
            lemma_quote_end_bounds(s, i + 1, s[i]);
        }
        first_comma(s, quote_end(s, i + 1, s[i]), dp, db)
    } else if s[i] == '(' {
        first_comma(s, i + 1, dp + 1, db)
    } else if s[i] == ')' {
        first_comma(s, i + 1, dp - 1, db)
    } else if s[i] == '[' {
        first_comma(s, i + 1, dp, db + 1)
    } else if s[i] == ']' {
        first_comma(s, i + 1, dp, db - 1)
    } else if s[i] == ',' && dp == 0 && db == 0 {
        i
    } else {
        first_comma(s, i + 1, dp, db)
    }
}

pub proof fn lemma_first_comma_bounds(s: Seq<char>, i: int, dp: int, db: int)
    requires
        0 <= i,
    ensures
        first_comma(s, i, dp, db) == -1 || i <= first_comma(s, i, dp, db) < s.len(),
    decreases s.len() - i,
{
    if 0 <= i < s.len() {
        if s[i] == '"' || s[i] == '\'' {
            lemma_quote_end_bounds(s, i + 1, s[i]);
            lemma_first_comma_bounds(s, quote_end(s, i + 1, s[i]), dp, db);
        } else if s[i] == '(' {
            lemma_first_comma_bounds(s, i + 1, dp + 1, db);
        } else if s[i] == ')' {
            lemma_first_comma_bounds(s, i + 1, dp - 1, db);
        } else if s[i] == '[' {
            lemma_first_comma_bounds(s, i + 1, dp, db + 1);
        } else if s[i] == ']' {
            lemma_first_comma_bounds(s, i + 1, dp, db - 1);
        } else if !(s[i] == ',' && dp == 0 && db == 0) {
            lemma_first_comma_bounds(s, i + 1, dp, db);
        }
    }
}

/// Split `theme()` arguments at the first top-level comma: the path and
/// the default, if any.
pub fn split_first_arg(s: &Vec<char>) -> (r: (Vec<char>, Option<Vec<char>>))
    ensures
        first_comma(s@, 0, 0, 0) < 0 ==> r.0@ == s@ && r.1 is None,
        first_comma(s@, 0, 0, 0) >= 0 ==> r.0@ == s@.take(first_comma(s@, 0, 0, 0)) && (
        r.1 matches Some(d) && d@ == s@.skip(first_comma(s@, 0, 0, 0) + 1)),
{
    proof {
        lemma_first_comma_bounds(s@, 0, 0, 0);
    }
    let mut i: usize = 0;
    let mut po: usize = 0;
    let mut pc: usize = 0;
    let mut bo: usize = 0;
    let mut bc: usize = 0;
    while i < s.len()
        invariant
            i <= s@.len(),
            po <= i && pc <= i && bo <= i && bc <= i,
            first_comma(s@, i as int, po - pc, bo - bc) == first_comma(s@, 0, 0, 0),
        decreases s@.len() - i,
    {
        let c = s[i];
        if c == '"' || c == '\'' {
            proof {
                lemma_quote_end_bounds(s@, i + 1, c);
            }
            i = quote_end_at(s, i + 1, c);
        } else if c == '(' {
            po += 1;
            i += 1;
        } else if c == ')' {
            pc += 1;
            i += 1;
        } else if c == '[' {
            bo += 1;
            i += 1;
        } else if c == ']' {
            bc += 1;
            i += 1;
        } else if c == ',' && po == pc && bo == bc {
            assert(first_comma(s@, i as int, po - pc, bo - bc) == i as int);
            let head = sub_chars(s, 0, i);
            let rest = sub_chars(s, i + 1, s.len());
            assert(head@ =~= s@.take(i as int));
            assert(rest@ =~= s@.skip(i + 1));
            return (head, Some(rest));
        } else {
            i += 1;
        }
    }
    let whole = sub_chars(s, 0, s.len());
    assert(whole@ =~= s@);
    (whole, None)
}

// ---------------------------------------------------------------------
// Walking the theme
// ---------------------------------------------------------------------

/// `usize::from_str`: an optional `+`, then one or more ASCII digits
/// whose value fits in a `usize`.
pub open spec fn parse_usize_spec(s: Seq<char>) -> Option<usize> {
    let d = if s.len() > 0 && s[0] == '+' {
        s.drop_first()
    } else {
        s
    };
    if d.len() > 0 && all_digits(d) && digits_value(d) <= usize::MAX {
        Some(digits_value(d) as usize)
    } else {
        None
    }
}

fn parse_usize(s: &Vec<char>) -> (r: Option<usize>)
    ensures
        r == parse_usize_spec(s@),
{
    let mut i: usize = 0;
    if i < s.len() && s[i] == '+' {
        i += 1;
    }
    let ghost d = s@.skip(i as int);
    assert(d =~= (if s@.len() > 0 && s@[0] == '+' {
        s@.drop_first()
    } else {
        s@
    }));
    if i == s.len() {
        return None;
    }
    let start = i;
    let mut acc: usize = 0;
    let mut over = false;
    while i < s.len()
        invariant
            start <= i <= s@.len(),
            start <= 1,
            d == s@.skip(start as int),
            d == (if s@.len() > 0 && s@[0] == '+' {
                s@.drop_first()
            } else {
                s@
            }),
            forall|j: int| start <= j < i ==> is_digit(#[trigger] s@[j]),
            !over ==> acc == digits_value(s@.subrange(start as int, i as int)),
            over ==> digits_value(s@.subrange(start as int, i as int)) > usize::MAX,
        decreases s@.len() - i,
    {
        let c = s[i];
        if !('0' <= c && c <= '9') {
            assert(!is_digit(d[i - start]));
            return None;
        }
        assert(s@.subrange(start as int, i + 1).drop_last() =~= s@.subrange(
            start as int,
            i as int,
        ));
        let v = (c as u32 - '0' as u32) as usize;
        if !over {
            match acc.checked_mul(10) {
                Some(m) => match m.checked_add(v) {
                    Some(n) => {
                        acc = n;
                    },
                    None => {
                        over = true;
                    },
                },
                None => {
                    over = true;
                },
            }
        }
        i += 1;
    }
    assert(s@.subrange(start as int, i as int) =~= d);
    assert forall|j: int| 0 <= j < d.len() implies is_digit(#[trigger] d[j]) by {
        assert(d[j] == s@[start + j]);
    }
    if over {
        None
    } else {
        Some(acc)
    }
}

/// The value at the end of a path of segments from `k` on: arrays are
/// indexed by numeric segments, objects by key.
pub open spec fn walk_spec(v: JsonValue, segs: Seq<Seq<char>>, k: int) -> Option<JsonValue>
    decreases segs.len() - k,
{
    if !(0 <= k < segs.len()) {
        Some(v)
    } else {
        let next = match v {
            JsonValue::Array(items) => match parse_usize_spec(segs[k]) {
                Some(n) => if n < items@.len() {
                    Some(items@[n as int])
                } else {
                    None
                },
                None => None,
            },
            _ => json_get(v, segs[k]),
        };
        match next {
            Some(n) => walk_spec(n, segs, k + 1),
            None => None,
        }
    }
}

/// Follow path segments into a theme value (see `walk_spec`).
pub fn walk_path<'a>(root: &'a JsonValue, segments: &Vec<Vec<char>>) -> (r: Option<&'a JsonValue>)
    ensures
        match r {
            Some(x) => walk_spec(*root, chars_list_view(segments@), 0) == Some(*x),
            None => walk_spec(*root, chars_list_view(segments@), 0) is None,
        },
{
    let ghost sv = chars_list_view(segments@);
    let mut node = root;
    let mut k: usize = 0;
    while k < segments.len()
        invariant
            k <= segments@.len(),
            sv == chars_list_view(segments@),
            walk_spec(*node, sv, k as int) == walk_spec(*root, sv, 0),
        decreases segments@.len() - k,
    {
        assert(sv[k as int] == segments@[k as int]@);
        let seg = &segments[k];
        let mut next: Option<&JsonValue> = None;
        let mut decided = false;
        match node {
            JsonValue::Array(items) => {
                decided = true;
                match parse_usize(seg) {
                    Some(n) => {
                        if n < items.len() {
                            next = Some(&items[n]);
                        }
                    },
                    None => {},
                }
            },
            _ => {},
        }
        if !decided {
            let key = string_from_chars(seg);
            next = node.get(key.as_str());
        }
        match next {
            Some(n) => {
                node = n;
            },
            None => {
                return None;
            },
        }
        k += 1;
    }
    Some(node)
}

/// The `.`-separated segments of a path, empty ones included.
pub open spec fn dot_segments(s: Seq<char>, start: int, i: int) -> Seq<Seq<char>>
    decreases s.len() - i,
{
    if !(0 <= i < s.len()) {
        seq![s.subrange(start, s.len() as int)]
    } else if s[i] == '.' {
        seq![s.subrange(start, i)] + dot_segments(s, i + 1, i + 1)
    } else {
        dot_segments(s, start, i + 1)
    }
}

/// The value at a dotted path (`spacing.4`) inside a theme object, keys
/// only.
pub open spec fn lookup_spec(v: JsonValue, segs: Seq<Seq<char>>, k: int) -> Option<JsonValue>
    decreases segs.len() - k,
{
    if !(0 <= k < segs.len()) {
        Some(v)
    } else {
        match json_get(v, segs[k]) {
            Some(n) => lookup_spec(n, segs, k + 1),
            None => None,
        }
    }
}

/// Look up a dotted path inside a theme object.
pub fn lookup_theme<'a>(theme: &'a JsonValue, path: &str) -> (r: Option<&'a JsonValue>)
    ensures
        match r {
            Some(x) => lookup_spec(*theme, dot_segments(path@, 0, 0), 0) == Some(*x),
            None => lookup_spec(*theme, dot_segments(path@, 0, 0), 0) is None,
        },
{
    let s = chars_of(path);
    let ghost segs = dot_segments(s@, 0, 0);
    let mut node = theme;
    let mut start: usize = 0;
    let mut i: usize = 0;
    let ghost mut pre: Seq<Seq<char>> = Seq::empty();
    while i < s.len()
        invariant
            start <= i <= s@.len(),
            s@ == path@,
            segs == dot_segments(s@, 0, 0),
            segs == pre + dot_segments(s@, start as int, i as int),
            lookup_spec(*node, segs, pre.len() as int) == lookup_spec(*theme, segs, 0),
        decreases s@.len() - i,
    {
        if s[i] == '.' {
            let seg = string_from_chars(&sub_chars(&s, start, i));
            assert(segs[pre.len() as int] == s@.subrange(start as int, i as int));
            match node.get(seg.as_str()) {
                Some(n) => {
                    node = n;
                },
                None => {
                    return None;
                },
            }
            proof {
                pre = pre.push(s@.subrange(start as int, i as int));
                assert(segs =~= pre + dot_segments(s@, i + 1, i + 1));
            }
            i += 1;
            start = i;
        } else {
            i += 1;
        }
    }
    let seg = string_from_chars(&sub_chars(&s, start, s.len()));
    assert(segs =~= pre.push(s@.subrange(start as int, s@.len() as int)));
    assert(segs[pre.len() as int] == seg@);
    match node.get(seg.as_str()) {
        Some(n) => {
            assert(lookup_spec(*n, segs, pre.len() + 1int) == Some(*n));
            Some(n)
        },
        None => None,
    }
}

// ---------------------------------------------------------------------
// Rendering theme values
// ---------------------------------------------------------------------

/// The texts of the string items, in order; other items are skipped.
pub open spec fn str_items(items: Seq<JsonValue>) -> Seq<Seq<char>>
    decreases items.len(),
{
    if items.len() == 0 {
        Seq::empty()
    } else {
        let prev = str_items(items.drop_last());
        match items.last() {
            JsonValue::Str(t) => prev.push(t@),
            _ => prev,
        }
    }
}

/// Texts joined with `sep`.
pub open spec fn join_with(parts: Seq<Seq<char>>, sep: Seq<char>) -> Seq<char>
    decreases parts.len(),
{
    if parts.len() == 0 {
        Seq::empty()
    } else if parts.len() == 1 {
        parts[0]
    } else {
        join_with(parts.drop_last(), sep) + sep + parts.last()
    }
}

/// The position of the first member named `key`, or -1.
pub open spec fn member_pos(m: Seq<(String, JsonValue)>, key: Seq<char>, i: int) -> int
    decreases m.len() - i,
{
    if !(0 <= i < m.len()) {
        -1
    } else if m[i].0@ == key {
        i
    } else {
        member_pos(m, key, i + 1)
    }
}

pub proof fn lemma_member_pos(m: Seq<(String, JsonValue)>, key: Seq<char>, i: int)
    requires
        0 <= i,
    ensures
        member_pos(m, key, i) == -1 || i <= member_pos(m, key, i) < m.len(),
        member_pos(m, key, i) == -1 ==> member_from(m, key, i) is None,
        member_pos(m, key, i) >= 0 ==> member_from(m, key, i) == Some(
            m[member_pos(m, key, i)].1,
        ),
    decreases m.len() - i,
{
    if 0 <= i < m.len() && m[i].0@ != key {
        lemma_member_pos(m, key, i + 1);
    }
}

/// The sections whose array values join their strings with `", "`.
pub open spec fn joined_section(section: Seq<char>) -> bool {
    ||| section == "boxShadow"@
    ||| section == "transitionProperty"@
    ||| section == "transitionDuration"@
    ||| section == "transitionDelay"@
    ||| section == "transitionTimingFunction"@
    ||| section == "backgroundImage"@
    ||| section == "backgroundSize"@
    ||| section == "backgroundColor"@
    ||| section == "cursor"@
    ||| section == "animation"@
}

/// A theme value rendered the way its section needs: `fontSize` and
/// `outline` take an array's first string; `fontFamily` joins its
/// families (an array of them, possibly followed by options) with
/// `", "`; the joined sections join an array's strings; elsewhere an
/// object renders its `DEFAULT`. Strings render as they are, numbers as
/// their text.
pub open spec fn transform_spec(section: Seq<char>, v: JsonValue) -> Option<Seq<char>>
    decreases v,
{
    if section == "fontSize"@ || section == "outline"@ {
        match v {
            JsonValue::Array(items) => if items@.len() > 0 {
                json_str(items@[0])
            } else {
                None
            },
            JsonValue::Str(t) => Some(t@),
            JsonValue::Number(n) => Some(n@),
            _ => None,
        }
    } else if section == "fontFamily"@ {
        match v {
            JsonValue::Array(items) => {
                let families = if items@.len() > 1 && items@[1] is Object {
                    items@[0]
                } else {
                    v
                };
                match families {
                    JsonValue::Array(list) => Some(join_with(str_items(list@), ", "@)),
                    JsonValue::Str(t) => Some(t@),
                    _ => None,
                }
            },
            JsonValue::Str(t) => Some(t@),
            _ => None,
        }
    } else if joined_section(section) {
        match v {
            JsonValue::Array(items) => Some(join_with(str_items(items@), ", "@)),
            JsonValue::Str(t) => Some(t@),
            JsonValue::Number(n) => Some(n@),
            _ => None,
        }
    } else {
        match v {
            JsonValue::Str(t) => Some(t@),
            JsonValue::Number(n) => Some(n@),
            JsonValue::Object(m) => {
                let k = member_pos(m@, "DEFAULT"@, 0);
                if 0 <= k < m@.len() {
                    transform_spec(section, m@[k].1)
                } else {
                    None
                }
            },
            _ => None,
        }
    }
}

fn join_str_items(items: &Vec<JsonValue>) -> (r: String)
    ensures
        r@ == join_with(str_items(items@), ", "@),
{
    let mut out: Vec<char> = Vec::new();
    let sep = chars_of(", ");
    let mut count: usize = 0;
    let mut k: usize = 0;
    while k < items.len()
        invariant
            k <= items@.len(),
            sep@ == ", "@,
            count == str_items(items@.take(k as int)).len(),
            count <= k,
            out@ == join_with(str_items(items@.take(k as int)), ", "@),
        decreases items@.len() - k,
    {
        assert(items@.take(k + 1).drop_last() =~= items@.take(k as int));
        let ghost prev = str_items(items@.take(k as int));
        match &items[k] {
            JsonValue::Str(t) => {
                assert(str_items(items@.take(k + 1)) == prev.push(t@));
                assert(prev.push(t@).drop_last() =~= prev);
                if count > 0 {
                    extend_chars(&mut out, &sep);
                }
                extend_chars(&mut out, &chars_of(t.as_str()));
                count += 1;
            },
            _ => {},
        }
        k += 1;
        assert(out@ =~= join_with(str_items(items@.take(k as int)), ", "@));
    }
    assert(items@.take(k as int) =~= items@);
    string_from_chars(&out)
}

fn is_joined_section(section: &str) -> (r: bool)
    ensures
        r == joined_section(section@),
{
    crate::text::str_eq(section, "boxShadow") || crate::text::str_eq(section, "transitionProperty")
        || crate::text::str_eq(section, "transitionDuration") || crate::text::str_eq(
        section,
        "transitionDelay",
    ) || crate::text::str_eq(section, "transitionTimingFunction") || crate::text::str_eq(
        section,
        "backgroundImage",
    ) || crate::text::str_eq(section, "backgroundSize") || crate::text::str_eq(
        section,
        "backgroundColor",
    ) || crate::text::str_eq(section, "cursor") || crate::text::str_eq(section, "animation")
}

fn copy_string(s: &String) -> (r: String)
    ensures
        r@ == s@,
{
    string_from_chars(&chars_of(s.as_str()))
}

/// Render a theme value for its section (see `transform_spec`).
pub fn transform_theme_value(section: &str, value: &JsonValue) -> (r: Option<String>)
    ensures
        match r {
            Some(t) => transform_spec(section@, *value) == Some(t@),
            None => transform_spec(section@, *value) is None,
        },
    decreases *value,
{
    if crate::text::str_eq(section, "fontSize") || crate::text::str_eq(section, "outline") {
        match value {
            JsonValue::Array(items) => {
                if items.len() > 0 {
                    match &items[0] {
                        JsonValue::Str(t) => Some(copy_string(t)),
                        _ => None,
                    }
                } else {
                    None
                }
            },
            JsonValue::Str(t) => Some(copy_string(t)),
            JsonValue::Number(n) => Some(copy_string(n)),
            _ => None,
        }
    } else if crate::text::str_eq(section, "fontFamily") {
        match value {
            JsonValue::Array(items) => {
                let second_is_object = items.len() > 1 && match &items[1] {
                    JsonValue::Object(_) => true,
                    _ => false,
                };
                let families = if second_is_object {
                    &items[0]
                } else {
                    value
                };
                match families {
                    JsonValue::Array(list) => Some(join_str_items(list)),
                    JsonValue::Str(t) => Some(copy_string(t)),
                    _ => None,
                }
            },
            JsonValue::Str(t) => Some(copy_string(t)),
            _ => None,
        }
    } else if is_joined_section(section) {
        match value {
            JsonValue::Array(items) => Some(join_str_items(items)),
            JsonValue::Str(t) => Some(copy_string(t)),
            JsonValue::Number(n) => Some(copy_string(n)),
            _ => None,
        }
    } else {
        match value {
            JsonValue::Str(t) => Some(copy_string(t)),
            JsonValue::Number(n) => Some(copy_string(n)),
            JsonValue::Object(m) => {
                let mut k: usize = 0;
                while k < m.len()
                    invariant
                        k <= m@.len(),
                        *value == JsonValue::Object(*m),
                        !(section@ == "fontSize"@ || section@ == "outline"@),
                        section@ != "fontFamily"@,
                        !joined_section(section@),
                        member_pos(m@, "DEFAULT"@, k as int) == member_pos(m@, "DEFAULT"@, 0),
                    decreases m@.len() - k,
                {
                    if crate::text::str_eq(m[k].0.as_str(), "DEFAULT") {
                        proof {
                            assert(decreases_to!(*value => m@[k as int].1));
                        }
                        return transform_theme_value(section, &m[k].1);
                    }
                    k += 1;
                }
                None
            },
            _ => None,
        }
    }
}

// ---------------------------------------------------------------------
// Colors
// ---------------------------------------------------------------------

/// A color read for alpha application: its function name (`rgb`,
/// `rgba`, `hsl`, `hsla`) and its components as written.
pub struct ParsedColor {
    pub mode: Vec<char>,
    pub components: Vec<Vec<char>>,
}

pub type ColorModel = (Seq<char>, Seq<Seq<char>>);

pub open spec fn color_view(c: ParsedColor) -> ColorModel {
    (c.mode@, chars_list_view(c.components@))
}

pub open spec fn hex_digit(c: char) -> bool {
    ('0' <= c && c <= '9') || ('a' <= c && c <= 'f') || ('A' <= c && c <= 'F')
}

pub open spec fn hex_value(c: char) -> int {
    if '0' <= c && c <= '9' {
        c as int - '0' as int
    } else if 'a' <= c && c <= 'f' {
        c as int - 'a' as int + 10
    } else {
        c as int - 'A' as int + 10
    }
}

/// The decimal digits of `n`.
pub open spec fn decimal_text(n: nat) -> Seq<char>
    decreases n,
{
    if n < 10 {
        seq![((n + 48) as u8) as char]
    } else {
        decimal_text(n / 10).push((((n % 10) + 48) as u8) as char)
    }
}

pub open spec fn all_hex(h: Seq<char>) -> bool {
    forall|k: int| 0 <= k < h.len() ==> hex_digit(#[trigger] h[k])
}

/// `#RGB`/`#RGBA` (each digit doubled) or `#RRGGBB`/`#RRGGBBAA` as `rgb`
/// with the three channels in decimal; any alpha digits are dropped.
pub open spec fn parse_hex_spec(v: Seq<char>) -> Option<ColorModel> {
    if !(v.len() > 0 && v[0] == '#') {
        None
    } else {
        let h = v.drop_first();
        if !all_hex(h) {
            None
        } else if h.len() == 3 || h.len() == 4 {
            Some(
                (
                    "rgb"@,
                    seq![
                        decimal_text((17 * hex_value(h[0])) as nat),
                        decimal_text((17 * hex_value(h[1])) as nat),
                        decimal_text((17 * hex_value(h[2])) as nat),
                    ],
                ),
            )
        } else if h.len() == 6 || h.len() == 8 {
            Some(
                (
                    "rgb"@,
                    seq![
                        decimal_text((16 * hex_value(h[0]) + hex_value(h[1])) as nat),
                        decimal_text((16 * hex_value(h[2]) + hex_value(h[3])) as nat),
                        decimal_text((16 * hex_value(h[4]) + hex_value(h[5])) as nat),
                    ],
                ),
            )
        } else {
            None
        }
    }
}

/// A short hex colour reads as its long form with every digit doubled:
/// `#RGB` as `#RRGGBB` and `#RGBA` as `#RRGGBBAA`, channel for channel.
pub proof fn law_short_hex_is_doubled(x: char, y: char, z: char, w: char)
    requires
        hex_digit(x),
        hex_digit(y),
        hex_digit(z),
        hex_digit(w),
    ensures
        parse_hex_spec(seq!['#', x, y, z]) is Some,
        parse_hex_spec(seq!['#', x, y, z]) == parse_hex_spec(seq!['#', x, x, y, y, z, z]),
        parse_hex_spec(seq!['#', x, y, z, w]) == parse_hex_spec(seq!['#', x, x, y, y, z, z, w, w]),
{
    let a = seq!['#', x, y, z];
    let b = seq!['#', x, x, y, y, z, z];
    let c = seq!['#', x, y, z, w];
    let d = seq!['#', x, x, y, y, z, z, w, w];
    assert(a.drop_first() =~= seq![x, y, z]);
    assert(b.drop_first() =~= seq![x, x, y, y, z, z]);
    assert(c.drop_first() =~= seq![x, y, z, w]);
    assert(d.drop_first() =~= seq![x, x, y, y, z, z, w, w]);
    assert(all_hex(seq![x, y, z]));
    assert(all_hex(seq![x, x, y, y, z, z]));
    assert(all_hex(seq![x, y, z, w]));
    assert(all_hex(seq![x, x, y, y, z, z, w, w]));
}

/// The channel texts a hex colour reads as (none when it does not read).
pub open spec fn hex_channels(v: Seq<char>) -> Seq<Seq<char>> {
    match parse_hex_spec(v) {
        Some(m) => m.1,
        None => Seq::empty(),
    }
}

/// In `#RRGGBB` (and `#RRGGBBAA`) the red, green and blue channels are
/// read from the first, second and third digit pair: each channel is
/// fixed by its own pair alone.
pub proof fn law_hex_channel_reads_its_pair(h: Seq<char>, g: Seq<char>, k: int)
    requires
        h.len() == 6 || h.len() == 8,
        g.len() == 6 || g.len() == 8,
        all_hex(h),
        all_hex(g),
        0 <= k < 3,
        h[2 * k] == g[2 * k],
        h[2 * k + 1] == g[2 * k + 1],
    ensures
        parse_hex_spec(seq!['#'] + h) matches Some(m) && m.0 == "rgb"@ && m.1.len() == 3,
        hex_channels(seq!['#'] + h)[k] == hex_channels(seq!['#'] + g)[k],
{
    assert((seq!['#'] + h).drop_first() =~= h);
    assert((seq!['#'] + g).drop_first() =~= g);
}

fn hex_val(c: char) -> (r: u8)
    requires
        hex_digit(c),
    ensures
        r == hex_value(c),
{
    if '0' <= c && c <= '9' {
        (c as u32 - '0' as u32) as u8
    } else if 'a' <= c && c <= 'f' {
        (c as u32 - 'a' as u32 + 10) as u8
    } else {
        (c as u32 - 'A' as u32 + 10) as u8
    }
}

fn digit_char(d: u8) -> (r: char)
    requires
        d < 10,
    ensures
        r == ((d + 48) as u8) as char,
{
    ((d + 48) as u8) as char
}

/// The decimal text of a byte.
fn decimal_u8(n: u8) -> (r: Vec<char>)
    ensures
        r@ == decimal_text(n as nat),
{
    let mut r: Vec<char> = Vec::new();
    if n >= 100 {
        let q = n / 10;
        r.push(digit_char(q / 10));
        r.push(digit_char(q % 10));
        r.push(digit_char(n % 10));
        assert(decimal_text(q as nat) == decimal_text((q / 10) as nat).push(
            (((q % 10) + 48) as u8) as char,
        ));
        assert(r@ =~= decimal_text(n as nat));
    } else if n >= 10 {
        r.push(digit_char(n / 10));
        r.push(digit_char(n % 10));
        assert(decimal_text((n / 10) as nat) =~= seq![(((n / 10) + 48) as u8) as char]);
        assert(r@ =~= decimal_text(n as nat));
    } else {
        r.push(digit_char(n));
        assert(r@ =~= decimal_text(n as nat));
    }
    r
}

/// Read a hex color (see `parse_hex_spec`).
pub fn parse_hex_color(v: &Vec<char>) -> (r: Option<ParsedColor>)
    ensures
        match r {
            Some(c) => parse_hex_spec(v@) == Some(color_view(c)),
            None => parse_hex_spec(v@) is None,
        },
{
    if v.len() == 0 || v[0] != '#' {
        return None;
    }
    let h = sub_chars(v, 1, v.len());
    assert(h@ =~= v@.drop_first());
    let mut k: usize = 0;
    while k < h.len()
        invariant
            k <= h@.len(),
            h@ == v@.drop_first(),
            v@.len() > 0 && v@[0] == '#',
            forall|j: int| 0 <= j < k ==> hex_digit(#[trigger] h@[j]),
        decreases h@.len() - k,
    {
        let c = h[k];
        if !(('0' <= c && c <= '9') || ('a' <= c && c <= 'f') || ('A' <= c && c <= 'F')) {
            assert(!hex_digit(h@[k as int]));
            return None;
        }
        k += 1;
    }
    let n = h.len();
    let (a, b, c) = if n == 3 || n == 4 {
        (17 * hex_val(h[0]), 17 * hex_val(h[1]), 17 * hex_val(h[2]))
    } else if n == 6 || n == 8 {
        (
            16 * hex_val(h[0]) + hex_val(h[1]),
            16 * hex_val(h[2]) + hex_val(h[3]),
            16 * hex_val(h[4]) + hex_val(h[5]),
        )
    } else {
        return None;
    };
    let mut components: Vec<Vec<char>> = Vec::new();
    components.push(decimal_u8(a));
    components.push(decimal_u8(b));
    components.push(decimal_u8(c));
    let mode = chars_of("rgb");
    let r = ParsedColor { mode, components };
    assert(chars_list_view(r.components@) =~= seq![a as nat, b as nat, c as nat].map_values(|x: nat| decimal_text(x)));
    Some(r)
}

pub open spec fn flush_trimmed(x: Seq<char>) -> Seq<Seq<char>> {
    flush(trim_spec(x))
}

/// The components of a color function's argument from `i` on (the
/// current one starting at `start`, `dp` parentheses open): split at
/// top-level `,`, blanks and `/`, trimmed, empty ones dropped.
pub open spec fn comp_scan(s: Seq<char>, i: int, dp: int, start: int) -> Seq<Seq<char>>
    decreases s.len() - i,
{
    if !(0 <= i < s.len()) {
        flush_trimmed(s.subrange(start, s.len() as int))
    } else if s[i] == '(' {
        comp_scan(s, i + 1, dp + 1, start)
    } else if s[i] == ')' {
        comp_scan(s, i + 1, dp - 1, start)
    } else if (s[i] == ',' || s[i] == ' ' || s[i] == '\t' || s[i] == '/') && dp == 0 {
        flush_trimmed(s.subrange(start, i)) + comp_scan(s, i + 1, dp, i + 1)
    } else {
        comp_scan(s, i + 1, dp, start)
    }
}

/// Split a color function's argument into its components (see
/// `comp_scan`).
pub fn split_color_components(s: &Vec<char>) -> (r: Vec<Vec<char>>)
    ensures
        chars_list_view(r@) == comp_scan(s@, 0, 0, 0),
{
    let mut parts: Vec<Vec<char>> = Vec::new();
    let mut i: usize = 0;
    let mut start: usize = 0;
    let mut po: usize = 0;
    let mut pc: usize = 0;
    while i < s.len()
        invariant
            start <= i <= s@.len(),
            po <= i && pc <= i,
            chars_list_view(parts@) + comp_scan(s@, i as int, po - pc, start as int) == comp_scan(
                s@,
                0,
                0,
                0,
            ),
        decreases s@.len() - i,
    {
        let c = s[i];
        if c == '(' {
            po += 1;
        } else if c == ')' {
            pc += 1;
        } else if (c == ',' || c == ' ' || c == '\t' || c == '/') && po == pc {
            let t = trim_chars(&sub_chars(s, start, i));
            let ghost before = chars_list_view(parts@);
            if t.len() > 0 {
                parts.push(t);
                assert(chars_list_view(parts@) =~= before + flush_trimmed(
                    s@.subrange(start as int, i as int),
                ));
            } else {
                assert(chars_list_view(parts@) =~= before + flush_trimmed(
                    s@.subrange(start as int, i as int),
                ));
            }
            start = i + 1;
        }
        i += 1;
    }
    let t = trim_chars(&sub_chars(s, start, s.len()));
    let ghost before = chars_list_view(parts@);
    if t.len() > 0 {
        parts.push(t);
    }
    assert(chars_list_view(parts@) =~= before + flush_trimmed(
        s@.subrange(start as int, s@.len() as int),
    ));
    parts
}

/// ASCII letters in lower case; other characters unchanged.
pub open spec fn ascii_lower(s: Seq<char>) -> Seq<char> {
    s.map_values(
        |c: char|
            if 'A' <= c && c <= 'Z' {
                (((c as u8) + 32) as u8) as char
            } else {
                c
            },
    )
}

/// The position of the first `(`, or -1.
pub open spec fn open_paren_pos(s: Seq<char>) -> int {
    if exists|k: int| 0 <= k < s.len() && s[k] == '(' {
        choose|k: int| 0 <= k < s.len() && s[k] == '(' && forall|j: int| 0 <= j < k ==> s[j] != '('
    } else {
        -1
    }
}

pub open spec fn color_mode(mode: Seq<char>) -> bool {
    mode == "rgb"@ || mode == "rgba"@ || mode == "hsl"@ || mode == "hsla"@
}

/// A color function (`rgb(…)`, `rgba(…)`, `hsl(…)`, `hsla(…)`, its name in
/// any case) whose text ends in `)` and has at least one component.
pub open spec fn parse_function_spec(v: Seq<char>) -> Option<ColorModel> {
    let open = open_paren_pos(v);
    if open < 0 {
        None
    } else {
        let mode = ascii_lower(trim_spec(v.take(open)));
        if !color_mode(mode) {
            None
        } else if !(v.len() > 0 && v.last() == ')') {
            None
        } else {
            let comps = comp_scan(v.subrange(open + 1, v.len() - 1), 0, 0, 0);
            if comps.len() == 0 {
                None
            } else {
                Some((mode, comps))
            }
        }
    }
}

/// A color as `rgb`/`rgba`/`hsl`/`hsla` and its components: a hex color
/// or a color function, once trimmed.
pub open spec fn parse_color_spec(value: Seq<char>) -> Option<ColorModel> {
    let v = trim_spec(value);
    if parse_hex_spec(v) is Some {
        parse_hex_spec(v)
    } else {
        parse_function_spec(v)
    }
}

fn first_open_paren(v: &Vec<char>) -> (r: Option<usize>)
    ensures
        match r {
            Some(k) => open_paren_pos(v@) == k as int && k < v@.len() && v@[k as int] == '(',
            None => open_paren_pos(v@) == -1,
        },
{
    let mut k: usize = 0;
    while k < v.len()
        invariant
            k <= v@.len(),
            forall|j: int| 0 <= j < k ==> v@[j] != '(',
        decreases v@.len() - k,
    {
        if v[k] == '(' {
            let ghost c = choose|c: int|
                0 <= c < v@.len() && v@[c] == '(' && forall|j: int| 0 <= j < c ==> v@[j] != '(';
            assert(0 <= k < v@.len() && v@[k as int] == '(' && forall|j: int|
                0 <= j < k ==> v@[j] != '(');
            assert(open_paren_pos(v@) == k as int) by {
                if c < k {
                } else if c > k {
                    assert(v@[k as int] != '(');
                }
            }
            return Some(k);
        }
        k += 1;
    }
    None
}

fn to_ascii_lower(s: &Vec<char>) -> (r: Vec<char>)
    ensures
        r@ == ascii_lower(s@),
{
    let mut out: Vec<char> = Vec::new();
    let mut k: usize = 0;
    while k < s.len()
        invariant
            k <= s@.len(),
            out@ == ascii_lower(s@.take(k as int)),
        decreases s@.len() - k,
    {
        let c = s[k];
        if 'A' <= c && c <= 'Z' {
            out.push(((c as u8) + 32) as char);
        } else {
            out.push(c);
        }
        k += 1;
        assert(out@ =~= ascii_lower(s@.take(k as int)));
    }
    assert(s@.take(k as int) =~= s@);
    out
}

fn is_color_mode(mode: &Vec<char>) -> (r: bool)
    ensures
        r == color_mode(mode@),
{
    chars_eq(mode, &chars_of("rgb")) || chars_eq(mode, &chars_of("rgba")) || chars_eq(
        mode,
        &chars_of("hsl"),
    ) || chars_eq(mode, &chars_of("hsla"))
}

fn parse_color_function(v: &Vec<char>) -> (r: Option<ParsedColor>)
    ensures
        match r {
            Some(c) => parse_function_spec(v@) == Some(color_view(c)),
            None => parse_function_spec(v@) is None,
        },
{
    let open = match first_open_paren(v) {
        Some(k) => k,
        None => {
            return None;
        },
    };
    let head = trim_chars(&sub_chars(v, 0, open));
    assert(v@.subrange(0, open as int) =~= v@.take(open as int));
    let mode = to_ascii_lower(&head);
    if !is_color_mode(&mode) {
        return None;
    }
    if !(v.len() > 0 && v[v.len() - 1] == ')') {
        return None;
    }
    let inner = sub_chars(v, open + 1, v.len() - 1);
    let components = split_color_components(&inner);
    if components.len() == 0 {
        return None;
    }
    Some(ParsedColor { mode, components })
}

/// Read a color (see `parse_color_spec`).
pub fn parse_color(value: &Vec<char>) -> (r: Option<ParsedColor>)
    ensures
        match r {
            Some(c) => parse_color_spec(value@) == Some(color_view(c)),
            None => parse_color_spec(value@) is None,
        },
{
    let v = trim_chars(value);
    match parse_hex_color(&v) {
        Some(c) => Some(c),
        None => parse_color_function(&v),
    }
}


/// The color with `alpha` as its alpha: `rgba`/`hsla` list the first
/// three components and the alpha with commas, `rgb`/`hsl` with blanks
/// and ` / alpha`.
pub open spec fn format_alpha_spec(c: ColorModel, alpha: Seq<char>) -> Seq<char> {
    let trio = if c.1.len() > 3 {
        c.1.take(3)
    } else {
        c.1
    };
    if c.0 == "rgba"@ || c.0 == "hsla"@ {
        c.0 + seq!['('] + join_with(trio, ", "@) + ", "@ + alpha + seq![')']
    } else {
        c.0 + seq!['('] + join_with(trio, seq![' ']) + " / "@ + alpha + seq![')']
    }
}

fn join_chars(parts: &Vec<Vec<char>>, n: usize, sep: &Vec<char>) -> (r: Vec<char>)
    requires
        n <= parts@.len(),
    ensures
        r@ == join_with(chars_list_view(parts@).take(n as int), sep@),
{
    let ghost pv = chars_list_view(parts@);
    let mut out: Vec<char> = Vec::new();
    let mut k: usize = 0;
    while k < n
        invariant
            k <= n <= parts@.len(),
            pv == chars_list_view(parts@),
            out@ == join_with(pv.take(k as int), sep@),
        decreases n - k,
    {
        assert(pv.take(k + 1).drop_last() =~= pv.take(k as int));
        if k > 0 {
            extend_chars(&mut out, sep);
        }
        extend_chars(&mut out, &parts[k]);
        assert(pv[k as int] == parts@[k as int]@);
        k += 1;
        assert(out@ =~= join_with(pv.take(k as int), sep@));
    }
    out
}

/// Write a color with an alpha (see `format_alpha_spec`).
pub fn format_color_with_alpha(c: &ParsedColor, alpha: &str) -> (r: String)
    ensures
        r@ == format_alpha_spec(color_view(*c), alpha@),
{
    let n = if c.components.len() > 3 {
        3
    } else {
        c.components.len()
    };
    let ghost cv = chars_list_view(c.components@);
    assert(cv.take(n as int) =~= (if cv.len() > 3 {
        cv.take(3)
    } else {
        cv
    }));
    let mut out = sub_chars(&c.mode, 0, c.mode.len());
    assert(out@ =~= c.mode@);
    out.push('(');
    if chars_eq(&c.mode, &chars_of("rgba")) || chars_eq(&c.mode, &chars_of("hsla")) {
        extend_chars(&mut out, &join_chars(&c.components, n, &chars_of(", ")));
        extend_chars(&mut out, &chars_of(", "));
    } else {
        let mut blank_sep: Vec<char> = Vec::new();
        blank_sep.push(' ');
        assert(blank_sep@ =~= seq![' ']);
        extend_chars(&mut out, &join_chars(&c.components, n, &blank_sep));
        extend_chars(&mut out, &chars_of(" / "));
    }
    extend_chars(&mut out, &chars_of(alpha));
    out.push(')');
    string_from_chars(&out)
}

/// A color with an alpha applied, when the color can be read.
pub fn apply_alpha_to_color(color: &str, alpha: &str) -> (r: Option<String>)
    ensures
        match r {
            Some(t) => parse_color_spec(color@) matches Some(c) && t@ == format_alpha_spec(
                c,
                alpha@,
            ),
            None => parse_color_spec(color@) is None,
        },
{
    match parse_color(&chars_of(color)) {
        Some(c) => Some(format_color_with_alpha(&c, alpha)),
        None => None,
    }
}


// ---------------------------------------------------------------------
// `theme()` calls inside arbitrary values
// ---------------------------------------------------------------------

/// The first `]` from `i`, or the end.
pub open spec fn bracket_stop(s: Seq<char>, i: int) -> int
    decreases s.len() - i,
{
    if !(0 <= i < s.len()) || s[i] == ']' {
        i
    } else {
        bracket_stop(s, i + 1)
    }
}

pub proof fn lemma_bracket_stop_bounds(s: Seq<char>, i: int)
    requires
        0 <= i <= s.len(),
    ensures
        i <= bracket_stop(s, i) <= s.len(),
    decreases s.len() - i,
{
    if i < s.len() && s[i] != ']' {
        lemma_bracket_stop_bounds(s, i + 1);
    }
}

/// The segments of a `theme()` path from `i` on, `buf` being the
/// segment read so far: `.` ends a segment, `[...]` is a segment of its
/// own (kept even when empty), a stray `]` is ignored; empty dotted
/// segments are dropped.
pub open spec fn call_path_scan(s: Seq<char>, i: int, buf: Seq<char>) -> Seq<Seq<char>>
    decreases s.len() + 1 - i,
{
    if !(0 <= i < s.len()) {
        flush(buf)
    } else if s[i] == '.' {
        flush(buf) + call_path_scan(s, i + 1, Seq::empty())
    } else if s[i] == '[' {
        proof {
            lemma_bracket_stop_bounds(s, i + 1);
        }
        let j = bracket_stop(s, i + 1);
        flush(buf) + seq![s.subrange(i + 1, j)] + call_path_scan(s, j + 1, Seq::empty())
    } else if s[i] == ']' {
        call_path_scan(s, i + 1, buf)
    } else {
        call_path_scan(s, i + 1, buf.push(s[i]))
    }
}

/// The node at the end of `segs[k..]`: at each level the remaining
/// segments joined by `-` are tried as one key first, then the next
/// segment alone.
pub open spec fn walk_segments_spec(node: JsonValue, segs: Seq<Seq<char>>, k: int) -> Option<
    JsonValue,
>
    decreases segs.len() - k,
{
    if !(0 <= k < segs.len()) {
        Some(node)
    } else {
        match json_get(node, join_with(segs.skip(k), seq!['-'])) {
            Some(c) => Some(c),
            None => match json_get(node, segs[k]) {
                Some(c) => walk_segments_spec(c, segs, k + 1),
                None => None,
            },
        }
    }
}

/// The first `q` from `k`, or the end (no escapes).
pub open spec fn plain_quote_stop(s: Seq<char>, k: int, q: char) -> int
    decreases s.len() - k,
{
    if !(0 <= k < s.len()) || s[k] == q {
        k
    } else {
        plain_quote_stop(s, k + 1, q)
    }
}

pub proof fn lemma_plain_quote_stop_bounds(s: Seq<char>, k: int, q: char)
    requires
        0 <= k <= s.len(),
    ensures
        k <= plain_quote_stop(s, k, q) <= s.len(),
    decreases s.len() - k,
{
    if k < s.len() && s[k] != q {
        lemma_plain_quote_stop_bounds(s, k + 1, q);
    }
}

/// The first `,` of a `theme()` argument from `k` at depth zero
/// (parentheses and brackets counted together, quoted text skipped), or
/// -1.
pub open spec fn arg_comma(s: Seq<char>, k: int, depth: int) -> int
    decreases s.len() + 1 - k,
{
    if !(0 <= k < s.len()) {
        -1
    } else if s[k] == '(' || s[k] == '[' {
        arg_comma(s, k + 1, depth + 1)
    } else if s[k] == ')' || s[k] == ']' {
        arg_comma(s, k + 1, depth - 1)
    } else if s[k] == ',' && depth == 0 {
        k
    } else if s[k] == '"' || s[k] == '\'' {
        proof {
            lemma_plain_quote_stop_bounds(s, k + 1, s[k]);
        }
        arg_comma(s, plain_quote_stop(s, k + 1, s[k]) + 1, depth)
    } else {
        arg_comma(s, k + 1, depth)
    }
}

pub open spec fn is_quote_char(c: char) -> bool {
    c == '"' || c == '\''
}

pub open spec fn quote_lead(t: Seq<char>, i: int) -> int
    decreases t.len() - i,
{
    if 0 <= i < t.len() && is_quote_char(t[i]) {
        quote_lead(t, i + 1)
    } else {
        i
    }
}

pub open spec fn quote_trail(t: Seq<char>, j: int) -> int
    decreases j,
{
    if 0 < j <= t.len() && is_quote_char(t[j - 1]) {
        quote_trail(t, j - 1)
    } else {
        j
    }
}

/// `t` without the quote characters at either end.
pub open spec fn strip_quote_chars(t: Seq<char>) -> Seq<char> {
    let a = quote_lead(t, 0);
    if a >= t.len() {
        Seq::empty()
    } else {
        t.subrange(a, quote_trail(t, t.len() as int))
    }
}

/// What one `theme(<arg>)` call becomes: the path (before a top-level
/// comma, trimmed, quotes taken off) is looked up in the configured
/// theme, then in the default theme; a string or number found there is
/// its text; otherwise the default after the comma, trimmed, or the
/// call as it was written.
pub open spec fn theme_arg_spec(arg: Seq<char>, config: Option<JsonValue>, defaults: JsonValue) -> Seq<
    char,
> {
    let c = arg_comma(arg, 0, 0);
    let path_arg = if c >= 0 {
        arg.take(c)
    } else {
        arg
    };
    let segs = call_path_scan(strip_quote_chars(trim_spec(path_arg)), 0, Seq::empty());
    let from_config = match config {
        Some(cfg) => match json_get(cfg, "theme"@) {
            Some(th) => walk_segments_spec(th, segs, 0),
            None => None,
        },
        None => None,
    };
    let resolved = match from_config {
        Some(v) => Some(v),
        None => walk_segments_spec(defaults, segs, 0),
    };
    match resolved {
        Some(JsonValue::Str(s)) => s@,
        Some(JsonValue::Number(n)) => n@,
        _ => if c >= 0 {
            trim_spec(arg.skip(c + 1))
        } else {
            "theme("@ + arg + ")"@
        },
    }
}

/// The `)` closing a call with `depth` parentheses open at `j` (quoted
/// text with escapes skipped), or -1.
pub open spec fn call_close(s: Seq<char>, j: int, depth: int) -> int
    decreases s.len() + 1 - j,
{
    if !(0 <= j < s.len()) {
        -1
    } else if s[j] == '(' {
        call_close(s, j + 1, depth + 1)
    } else if s[j] == ')' {
        if depth - 1 == 0 {
            j
        } else {
            call_close(s, j + 1, depth - 1)
        }
    } else if s[j] == '"' || s[j] == '\'' {
        proof {
            lemma_quote_end_bounds(s, j + 1, s[j]);
        }
        call_close(s, quote_end(s, j + 1, s[j]), depth)
    } else {
        call_close(s, j + 1, depth)
    }
}

pub proof fn lemma_call_close_bounds(s: Seq<char>, j: int, depth: int)
    requires
        0 <= j,
    ensures
        call_close(s, j, depth) == -1 || j <= call_close(s, j, depth) < s.len(),
    decreases s.len() + 1 - j,
{
    if j < s.len() {
        if s[j] == '(' {
            lemma_call_close_bounds(s, j + 1, depth + 1);
        } else if s[j] == ')' {
            if depth - 1 != 0 {
                lemma_call_close_bounds(s, j + 1, depth - 1);
            }
        } else if s[j] == '"' || s[j] == '\'' {
            lemma_quote_end_bounds(s, j + 1, s[j]);
            lemma_call_close_bounds(s, quote_end(s, j + 1, s[j]), depth);
        } else {
            lemma_call_close_bounds(s, j + 1, depth);
        }
    }
}

pub open spec fn ascii_alpha(c: char) -> bool {
    ('a' <= c && c <= 'z') || ('A' <= c && c <= 'Z')
}

pub open spec fn word_char(c: char) -> bool {
    ascii_alpha(c) || ('0' <= c && c <= '9') || c == '_' || c == '-'
}

pub open spec fn word_stop(s: Seq<char>, i: int) -> int
    decreases s.len() - i,
{
    if 0 <= i < s.len() && word_char(s[i]) {
        word_stop(s, i + 1)
    } else {
        i
    }
}

pub proof fn lemma_word_stop_bounds(s: Seq<char>, i: int)
    requires
        0 <= i <= s.len(),
    ensures
        i <= word_stop(s, i) <= s.len(),
    decreases s.len() - i,
{
    if i < s.len() && word_char(s[i]) {
        lemma_word_stop_bounds(s, i + 1);
    }
}

/// A value from `i` on with each `theme(...)` call replaced
/// (`theme_arg_spec`); quoted text is copied as it is, and so is a word
/// that is not a complete call.
pub open spec fn theme_calls_scan(
    s: Seq<char>,
    i: int,
    config: Option<JsonValue>,
    defaults: JsonValue,
) -> Seq<char>
    decreases s.len() - i,
{
    if !(0 <= i < s.len()) {
        Seq::empty()
    } else if s[i] == '"' || s[i] == '\'' {
        proof {
            lemma_quote_end_bounds(s, i + 1, s[i]);
        }
        let e = quote_end(s, i + 1, s[i]);
        s.subrange(i, e) + theme_calls_scan(s, e, config, defaults)
    } else if ascii_alpha(s[i]) {
        proof {
            lemma_word_stop_bounds(s, i + 1);
        }
        let end = word_stop(s, i);
        let j = call_close(s, end + 1, 1);
        proof {
            lemma_call_close_bounds(s, end + 1, 1);
        }
        if s.subrange(i, end) == "theme"@ && end < s.len() && s[end] == '(' && j >= 0 {
            theme_arg_spec(s.subrange(end + 1, j), config, defaults) + theme_calls_scan(
                s,
                j + 1,
                config,
                defaults,
            )
        } else {
            s.subrange(i, end) + theme_calls_scan(s, end, config, defaults)
        }
    } else {
        seq![s[i]] + theme_calls_scan(s, i + 1, config, defaults)
    }
}

/// A value with its `theme(...)` calls resolved; a value without
/// `theme(` is left as it is.
pub open spec fn theme_calls_spec(s: Seq<char>, config: Option<JsonValue>, defaults: JsonValue) -> Seq<
    char,
> {
    if crate::directives::find_from(s, "theme("@, 0) < 0 {
        s
    } else {
        theme_calls_scan(s, 0, config, defaults)
    }
}


fn parse_theme_path_segments(s: &Vec<char>) -> (r: Vec<Vec<char>>)
    ensures
        chars_list_view(r@) == call_path_scan(s@, 0, Seq::empty()),
{
    let mut out: Vec<Vec<char>> = Vec::new();
    let mut buf: Vec<char> = Vec::new();
    let mut i: usize = 0;
    while i < s.len()
        invariant
            i <= s@.len(),
            chars_list_view(out@) + call_path_scan(s@, i as int, buf@) == call_path_scan(
                s@,
                0,
                Seq::empty(),
            ),
        decreases s@.len() - i,
    {
        let ghost before = chars_list_view(out@);
        let ghost b0 = buf@;
        let c = s[i];
        if c == '.' || c == '[' {
            if buf.len() > 0 {
                let full = buf;
                buf = Vec::new();
                out.push(full);
            } else {
                buf = Vec::new();
            }
            assert(chars_list_view(out@) =~= before + flush(b0));
            assert(buf@ =~= Seq::<char>::empty());
            if c == '.' {
                proof {
                    assert(before + (flush(b0) + call_path_scan(s@, i + 1, Seq::empty()))
                        =~= (before + flush(b0)) + call_path_scan(s@, i + 1, Seq::empty()));
                }
                i += 1;
            } else {
                proof {
                    lemma_bracket_stop_bounds(s@, i + 1);
                }
                let mut j = i + 1;
                while j < s.len() && s[j] != ']'
                    invariant
                        i + 1 <= j <= s@.len(),
                        bracket_stop(s@, j as int) == bracket_stop(s@, i + 1),
                    decreases s@.len() - j,
                {
                    j += 1;
                }
                let seg = sub_chars(s, i + 1, j);
                let ghost mid = chars_list_view(out@);
                out.push(seg);
                proof {
                    assert(chars_list_view(out@) =~= mid.push(seg@));
                    assert(before + (flush(b0) + seq![seg@] + call_path_scan(
                        s@,
                        j + 1,
                        Seq::empty(),
                    )) =~= chars_list_view(out@) + call_path_scan(s@, j + 1, Seq::empty()));
                }
                if j >= s.len() {
                    i = s.len();
                } else {
                    i = j + 1;
                }
            }
        } else if c == ']' {
            i += 1;
        } else {
            buf.push(c);
            i += 1;
        }
    }
    let ghost before = chars_list_view(out@);
    let ghost b0 = buf@;
    if buf.len() > 0 {
        out.push(buf);
    }
    assert(chars_list_view(out@) =~= before + flush(b0));
    out
}

fn join_dash_from(parts: &Vec<Vec<char>>, k0: usize) -> (r: Vec<char>)
    requires
        k0 <= parts@.len(),
    ensures
        r@ == join_with(chars_list_view(parts@).skip(k0 as int), seq!['-']),
{
    let ghost pv = chars_list_view(parts@);
    let mut out: Vec<char> = Vec::new();
    let mut k: usize = k0;
    while k < parts.len()
        invariant
            k0 <= k <= parts@.len(),
            pv == chars_list_view(parts@),
            out@ == join_with(pv.subrange(k0 as int, k as int), seq!['-']),
        decreases parts@.len() - k,
    {
        assert(pv.subrange(k0 as int, k + 1).drop_last() =~= pv.subrange(k0 as int, k as int));
        if k > k0 {
            out.push('-');
        }
        extend_chars(&mut out, &parts[k]);
        assert(pv[k as int] == parts@[k as int]@);
        k += 1;
        assert(out@ =~= join_with(pv.subrange(k0 as int, k as int), seq!['-']));
    }
    assert(pv.subrange(k0 as int, pv.len() as int) =~= pv.skip(k0 as int));
    out
}

/// Follow `theme()` path segments into a theme (`walk_segments_spec`).
fn walk_theme_segments<'a>(root: &'a JsonValue, segs: &Vec<Vec<char>>) -> (r: Option<&'a JsonValue>)
    ensures
        match r {
            Some(x) => walk_segments_spec(*root, chars_list_view(segs@), 0) == Some(*x),
            None => walk_segments_spec(*root, chars_list_view(segs@), 0) is None,
        },
{
    let ghost sv = chars_list_view(segs@);
    let mut node = root;
    let mut k: usize = 0;
    while k < segs.len()
        invariant
            k <= segs@.len(),
            sv == chars_list_view(segs@),
            walk_segments_spec(*node, sv, k as int) == walk_segments_spec(*root, sv, 0),
        decreases segs@.len() - k,
    {
        let joined = string_from_chars(&join_dash_from(segs, k));
        match node.get(joined.as_str()) {
            Some(c) => {
                return Some(c);
            },
            None => {},
        }
        let key = string_from_chars(&segs[k]);
        assert(sv[k as int] == segs@[k as int]@);
        match node.get(key.as_str()) {
            Some(c) => {
                node = c;
                k += 1;
            },
            None => {
                return None;
            },
        }
    }
    Some(node)
}

fn arg_comma_at(s: &Vec<char>) -> (r: Option<usize>)
    ensures
        match r {
            Some(c) => arg_comma(s@, 0, 0) == c as int && c < s@.len(),
            None => arg_comma(s@, 0, 0) == -1,
        },
{
    let mut k: usize = 0;
    let mut opens: usize = 0;
    let mut closes: usize = 0;
    while k < s.len()
        invariant
            k <= s@.len(),
            opens <= k && closes <= k,
            arg_comma(s@, k as int, opens - closes) == arg_comma(s@, 0, 0),
        decreases s@.len() - k,
    {
        let c = s[k];
        if c == '(' || c == '[' {
            opens += 1;
            k += 1;
        } else if c == ')' || c == ']' {
            closes += 1;
            k += 1;
        } else if c == ',' && opens == closes {
            return Some(k);
        } else if c == '"' || c == '\'' {
            proof {
                lemma_plain_quote_stop_bounds(s@, k + 1, c);
            }
            let mut e = k + 1;
            while e < s.len() && s[e] != c
                invariant
                    k + 1 <= e <= s@.len(),
                    plain_quote_stop(s@, e as int, c) == plain_quote_stop(s@, k + 1, c),
                decreases s@.len() - e,
            {
                e += 1;
            }
            assert(plain_quote_stop(s@, e as int, c) == e);
            assert(arg_comma(s@, k as int, opens - closes) == arg_comma(
                s@,
                e + 1,
                opens - closes,
            ));
            if e >= s.len() {
                assert(arg_comma(s@, e + 1, opens - closes) == -1);
                return None;
            }
            k = e + 1;
        } else {
            k += 1;
        }
    }
    None
}

fn strip_quote_chars_exec(t: &Vec<char>) -> (r: Vec<char>)
    ensures
        r@ == strip_quote_chars(t@),
{
    let mut a: usize = 0;
    while a < t.len() && (t[a] == '"' || t[a] == '\'')
        invariant
            a <= t@.len(),
            quote_lead(t@, a as int) == quote_lead(t@, 0),
        decreases t@.len() - a,
    {
        a += 1;
    }
    if a >= t.len() {
        return Vec::new();
    }
    let mut b: usize = t.len();
    while b > 0 && (t[b - 1] == '"' || t[b - 1] == '\'')
        invariant
            b <= t@.len(),
            a < t@.len(),
            !is_quote_char(t@[a as int]),
            a < b || b <= a,
            quote_trail(t@, b as int) == quote_trail(t@, t@.len() as int),
            b > a,
        decreases b,
    {
        b -= 1;
    }
    sub_chars(t, a, b)
}

pub open spec fn opt_ref_json(config: Option<&JsonValue>) -> Option<JsonValue> {
    match config {
        Some(c) => Some(*c),
        None => None,
    }
}

fn resolve_theme_arg(arg: &Vec<char>, config: Option<&JsonValue>, defaults: &JsonValue) -> (r: Vec<char>)
    ensures
        r@ == theme_arg_spec(arg@, opt_ref_json(config), *defaults),
{
    let comma = arg_comma_at(arg);
    let path_arg = match comma {
        Some(c) => sub_chars(arg, 0, c),
        None => sub_chars(arg, 0, arg.len()),
    };
    proof {
        match comma {
            Some(c) => {
                assert(path_arg@ =~= arg@.take(c as int));
            },
            None => {
                assert(path_arg@ =~= arg@);
            },
        }
    }
    let segs = parse_theme_path_segments(&strip_quote_chars_exec(&trim_chars(&path_arg)));
    let from_config = match config {
        Some(cfg) => match cfg.get("theme") {
            Some(th) => walk_theme_segments(th, &segs),
            None => None,
        },
        None => None,
    };
    let resolved = match from_config {
        Some(v) => Some(v),
        None => walk_theme_segments(defaults, &segs),
    };
    match resolved {
        Some(JsonValue::Str(s)) => chars_of(s.as_str()),
        Some(JsonValue::Number(n)) => chars_of(n.as_str()),
        _ => match comma {
            Some(c) => {
                let d = trim_chars(&sub_chars(arg, c + 1, arg.len()));
                proof {
                    assert(arg@.subrange(c + 1, arg@.len() as int) =~= arg@.skip(c + 1));
                }
                d
            },
            None => {
                let mut out = chars_of("theme(");
                extend_chars(&mut out, arg);
                out.push(')');
                proof {
                    reveal_strlit(")");
                    assert(out@ =~= "theme("@ + arg@ + ")"@);
                }
                out
            },
        },
    }
}

fn call_close_at(s: &Vec<char>, from: usize) -> (r: Option<usize>)
    requires
        from <= s@.len(),
    ensures
        match r {
            Some(j) => call_close(s@, from as int, 1) == j as int && from <= j < s@.len(),
            None => call_close(s@, from as int, 1) == -1,
        },
{
    let mut j = from;
    let mut extra: usize = 0;
    while j < s.len()
        invariant
            from <= j <= s@.len(),
            extra <= j,
            call_close(s@, j as int, extra + 1) == call_close(s@, from as int, 1),
        decreases s@.len() - j,
    {
        let c = s[j];
        if c == '(' {
            extra += 1;
            j += 1;
        } else if c == ')' {
            if extra == 0 {
                return Some(j);
            }
            extra -= 1;
            j += 1;
        } else if c == '"' || c == '\'' {
            proof {
                lemma_quote_end_bounds(s@, j + 1, c);
            }
            j = quote_end_at(s, j + 1, c);
        } else {
            j += 1;
        }
    }
    None
}

pub fn is_ascii_alpha(c: char) -> (r: bool)
    ensures
        r == ascii_alpha(c),
{
    ('a' <= c && c <= 'z') || ('A' <= c && c <= 'Z')
}

/// A value with its `theme(...)` calls resolved against the configured
/// theme and then the default one (`theme_calls_spec`).
pub fn resolve_theme_calls_in_value(
    value: &str,
    config: Option<&JsonValue>,
    defaults: &JsonValue,
) -> (r: String)
    ensures
        r@ == theme_calls_spec(value@, opt_ref_json(config), *defaults),
{
    let s = chars_of(value);
    let needle = chars_of("theme(");
    proof {
        reveal_strlit("theme(");
    }
    if crate::directives::find_needle(&s, &needle).is_none() {
        return string_from_chars(&s);
    }
    let ghost cfg = opt_ref_json(config);
    let mut out: Vec<char> = Vec::new();
    let mut i: usize = 0;
    while i < s.len()
        invariant
            s@ == value@,
            i <= s@.len(),
            cfg == opt_ref_json(config),
            out@ + theme_calls_scan(s@, i as int, cfg, *defaults) == theme_calls_scan(
                s@,
                0,
                cfg,
                *defaults,
            ),
        decreases s@.len() - i,
    {
        let ghost before = out@;
        let c = s[i];
        if c == '"' || c == '\'' {
            proof {
                lemma_quote_end_bounds(s@, i + 1, c);
            }
            let e = quote_end_at(&s, i + 1, c);
            extend_chars(&mut out, &sub_chars(&s, i, e));
            proof {
                assert(before + (s@.subrange(i as int, e as int) + theme_calls_scan(
                    s@,
                    e as int,
                    cfg,
                    *defaults,
                )) =~= out@ + theme_calls_scan(s@, e as int, cfg, *defaults));
            }
            i = e;
        } else if is_ascii_alpha(c) {
            proof {
                lemma_word_stop_bounds(s@, i + 1);
            }
            let mut end = i + 1;
            while end < s.len() && (is_ascii_alpha(s[end]) || ('0' <= s[end] && s[end] <= '9')
                || s[end] == '_' || s[end] == '-')
                invariant
                    i + 1 <= end <= s@.len(),
                    word_stop(s@, end as int) == word_stop(s@, i as int),
                decreases s@.len() - end,
            {
                end += 1;
            }
            let word = sub_chars(&s, i, end);
            let mut done = false;
            if end < s.len() && s[end] == '(' && chars_eq(&word, &chars_of("theme")) {
                match call_close_at(&s, end + 1) {
                    Some(j) => {
                        let arg = sub_chars(&s, end + 1, j);
                        let piece = resolve_theme_arg(&arg, config, defaults);
                        extend_chars(&mut out, &piece);
                        proof {
                            assert(before + (piece@ + theme_calls_scan(
                                s@,
                                j + 1,
                                cfg,
                                *defaults,
                            )) =~= out@ + theme_calls_scan(s@, j + 1, cfg, *defaults));
                        }
                        i = j + 1;
                        done = true;
                    },
                    None => {},
                }
            }
            if !done {
                extend_chars(&mut out, &word);
                proof {
                    assert(before + (word@ + theme_calls_scan(s@, end as int, cfg, *defaults))
                        =~= out@ + theme_calls_scan(s@, end as int, cfg, *defaults));
                }
                i = end;
            }
        } else {
            out.push(c);
            proof {
                assert(before + (seq![c] + theme_calls_scan(s@, i + 1, cfg, *defaults)) =~= out@
                    + theme_calls_scan(s@, i + 1, cfg, *defaults));
            }
            i += 1;
        }
    }
    proof {
        assert(out@ + Seq::<char>::empty() =~= out@);
    }
    string_from_chars(&out)
}

} // verus!
