//! Scanning CSS source text for its blocks: comments, strings, at-rules,
//! rule braces and declarations, and the passes that rewrite user CSS
//! with them (marking declarations `!important`, prefixing selectors with
//! an `important` selector) or inspect it (class names, whether a rule
//! is candidate-driven).
//!
//! Comments and strings are always stepped over whole, so a brace or a
//! semicolon inside `url("a;b")` or `/* { */` never counts.
use vstd::prelude::*;
use crate::directives::{
    close_paren_from, ident_char, ident_run_end, ident_run_end_at, is_ident_char,
    lemma_close_paren_bounds, lemma_ident_run_end_bounds, split_selectors_spec,
    split_top_level_selectors,
};
use crate::text::{
    ascii_alnum, ascii_ws, chars_of, extend_chars, has_prefix_at, is_ascii_alnum, is_ascii_ws,
    lead_ws, lemma_quote_end_bounds, prefix_at, quote_end, quote_end_at, string_from_chars,
    sub_chars, trim_chars, trim_end_chars, trim_end_spec, trim_spec, lemma_trim_trimmed,
    lemma_trim_of_unpadded, trail_ws, unicode_ws,
};

verus! {

pub open spec fn is_quote(c: char) -> bool {
    c == '"' || c == '\''
}

/// Whether a comment opens at `i`.
pub open spec fn comment_start(s: Seq<char>, i: int) -> bool {
    0 <= i && i + 1 < s.len() && s[i] == '/' && s[i + 1] == '*'
}

/// The position after the `*/` that closes a comment whose text starts
/// at `i`; the end when it is never closed.
pub open spec fn comment_end(s: Seq<char>, i: int) -> int
    decreases s.len() - i,
{
    if 0 <= i && i + 1 < s.len() {
        if s[i] == '*' && s[i + 1] == '/' {
            i + 2
        } else {
            comment_end(s, i + 1)
        }
    } else {
        s.len() as int
    }
}

pub proof fn lemma_comment_end_bounds(s: Seq<char>, i: int)
    requires
        0 <= i <= s.len(),
    ensures
        i <= comment_end(s, i) <= s.len(),
    decreases s.len() - i,
{
    if i + 1 < s.len() && !(s[i] == '*' && s[i + 1] == '/') {
        lemma_comment_end_bounds(s, i + 1);
    }
}

/// The first `{` at or after `i` outside comments, strings, parentheses
/// and brackets (`dp`, `db` open); -1 when a top-level `;` or the end
/// comes first.
pub open spec fn open_brace_from(s: Seq<char>, i: int, dp: int, db: int) -> int
    decreases s.len() - i,
{
    if !(0 <= i < s.len()) {
        -1
    } else if comment_start(s, i) {
        proof {
            lemma_comment_end_bounds(s, i + 2);
        }
        open_brace_from(s, comment_end(s, i + 2), dp, db)
    } else if is_quote(s[i]) {
        proof {
            lemma_quote_end_bounds(s, i + 1, s[i]);
        }
        open_brace_from(s, quote_end(s, i + 1, s[i]), dp, db)
    } else if s[i] == '(' {
        open_brace_from(s, i + 1, dp + 1, db)
    } else if s[i] == ')' {
        open_brace_from(s, i + 1, dp - 1, db)
    } else if s[i] == '[' {
        open_brace_from(s, i + 1, dp, db + 1)
    } else if s[i] == ']' {
        open_brace_from(s, i + 1, dp, db - 1)
    } else if s[i] == '{' && dp == 0 && db == 0 {
        i
    } else if s[i] == ';' && dp == 0 && db == 0 {
        -1
    } else {
        open_brace_from(s, i + 1, dp, db)
    }
}

/// The first `;` at or after `i` outside comments, strings, parentheses
/// and brackets; -1 when a top-level `}` or the end comes first.
pub open spec fn semicolon_from(s: Seq<char>, i: int, dp: int, db: int) -> int
    decreases s.len() - i,
{
    if !(0 <= i < s.len()) {
        -1
    } else if comment_start(s, i) {
        proof {
            lemma_comment_end_bounds(s, i + 2);
        }
        semicolon_from(s, comment_end(s, i + 2), dp, db)
    } else if is_quote(s[i]) {
        proof {
            lemma_quote_end_bounds(s, i + 1, s[i]);
        }
        semicolon_from(s, quote_end(s, i + 1, s[i]), dp, db)
    } else if s[i] == '(' {
        semicolon_from(s, i + 1, dp + 1, db)
    } else if s[i] == ')' {
        semicolon_from(s, i + 1, dp - 1, db)
    } else if s[i] == '[' {
        semicolon_from(s, i + 1, dp, db + 1)
    } else if s[i] == ']' {
        semicolon_from(s, i + 1, dp, db - 1)
    } else if s[i] == ';' && dp == 0 && db == 0 {
        i
    } else if s[i] == '}' && dp == 0 && db == 0 {
        -1
    } else {
        semicolon_from(s, i + 1, dp, db)
    }
}

/// The `}` that closes a block with `depth` braces open at `i`,
/// skipping comments and strings; -1 when none.
pub open spec fn close_brace_from(s: Seq<char>, i: int, depth: nat) -> int
    decreases s.len() - i,
{
    if !(0 <= i < s.len()) {
        -1
    } else if comment_start(s, i) {
        proof {
            lemma_comment_end_bounds(s, i + 2);
        }
        close_brace_from(s, comment_end(s, i + 2), depth)
    } else if is_quote(s[i]) {
        proof {
            lemma_quote_end_bounds(s, i + 1, s[i]);
        }
        close_brace_from(s, quote_end(s, i + 1, s[i]), depth)
    } else if s[i] == '{' {
        close_brace_from(s, i + 1, depth + 1)
    } else if s[i] == '}' {
        if depth <= 1 {
            i
        } else {
            close_brace_from(s, i + 1, (depth - 1) as nat)
        }
    } else {
        close_brace_from(s, i + 1, depth)
    }
}

pub proof fn lemma_open_brace_bounds(s: Seq<char>, i: int, dp: int, db: int)
    requires
        0 <= i,
    ensures
        open_brace_from(s, i, dp, db) == -1 || i <= open_brace_from(s, i, dp, db) < s.len(),
    decreases s.len() - i,
{
    if 0 <= i < s.len() {
        if comment_start(s, i) {
            lemma_comment_end_bounds(s, i + 2);
            lemma_open_brace_bounds(s, comment_end(s, i + 2), dp, db);
        } else if is_quote(s[i]) {
            lemma_quote_end_bounds(s, i + 1, s[i]);
            lemma_open_brace_bounds(s, quote_end(s, i + 1, s[i]), dp, db);
        } else if s[i] == '(' {
            lemma_open_brace_bounds(s, i + 1, dp + 1, db);
        } else if s[i] == ')' {
            lemma_open_brace_bounds(s, i + 1, dp - 1, db);
        } else if s[i] == '[' {
            lemma_open_brace_bounds(s, i + 1, dp, db + 1);
        } else if s[i] == ']' {
            lemma_open_brace_bounds(s, i + 1, dp, db - 1);
        } else if !((s[i] == '{' || s[i] == ';') && dp == 0 && db == 0) {
            lemma_open_brace_bounds(s, i + 1, dp, db);
        }
    }
}

pub proof fn lemma_semicolon_bounds(s: Seq<char>, i: int, dp: int, db: int)
    requires
        0 <= i,
    ensures
        semicolon_from(s, i, dp, db) == -1 || i <= semicolon_from(s, i, dp, db) < s.len(),
        semicolon_from(s, i, dp, db) >= 0 ==> s[semicolon_from(s, i, dp, db)] == ';',
    decreases s.len() - i,
{
    if 0 <= i < s.len() {
        if comment_start(s, i) {
            lemma_comment_end_bounds(s, i + 2);
            lemma_semicolon_bounds(s, comment_end(s, i + 2), dp, db);
        } else if is_quote(s[i]) {
            lemma_quote_end_bounds(s, i + 1, s[i]);
            lemma_semicolon_bounds(s, quote_end(s, i + 1, s[i]), dp, db);
        } else if s[i] == '(' {
            lemma_semicolon_bounds(s, i + 1, dp + 1, db);
        } else if s[i] == ')' {
            lemma_semicolon_bounds(s, i + 1, dp - 1, db);
        } else if s[i] == '[' {
            lemma_semicolon_bounds(s, i + 1, dp, db + 1);
        } else if s[i] == ']' {
            lemma_semicolon_bounds(s, i + 1, dp, db - 1);
        } else if !((s[i] == ';' || s[i] == '}') && dp == 0 && db == 0) {
            lemma_semicolon_bounds(s, i + 1, dp, db);
        }
    }
}

pub proof fn lemma_close_brace_bounds(s: Seq<char>, i: int, depth: nat)
    requires
        0 <= i,
    ensures
        close_brace_from(s, i, depth) == -1 || i <= close_brace_from(s, i, depth) < s.len(),
    decreases s.len() - i,
{
    if 0 <= i < s.len() {
        if comment_start(s, i) {
            lemma_comment_end_bounds(s, i + 2);
            lemma_close_brace_bounds(s, comment_end(s, i + 2), depth);
        } else if is_quote(s[i]) {
            lemma_quote_end_bounds(s, i + 1, s[i]);
            lemma_close_brace_bounds(s, quote_end(s, i + 1, s[i]), depth);
        } else if s[i] == '{' {
            lemma_close_brace_bounds(s, i + 1, depth + 1);
        } else if s[i] == '}' {
            if depth > 1 {
                lemma_close_brace_bounds(s, i + 1, (depth - 1) as nat);
            }
        } else {
            lemma_close_brace_bounds(s, i + 1, depth);
        }
    }
}

/// The position after a comment whose text starts at `from`.
pub fn find_comment_end(s: &Vec<char>, from: usize) -> (r: usize)
    requires
        from <= s@.len(),
    ensures
        r == comment_end(s@, from as int),
{
    let mut i = from;
    while s.len() > 1 && i < s.len() - 1
        invariant
            from <= i <= s@.len(),
            comment_end(s@, i as int) == comment_end(s@, from as int),
        decreases s@.len() - i,
    {
        if s[i] == '*' && s[i + 1] == '/' {
            return i + 2;
        }
        i += 1;
    }
    s.len()
}

/// The position after the string that opens at `start`.
pub fn find_string_end(s: &Vec<char>, start: usize) -> (r: usize)
    requires
        start < s.len(),
        is_quote(s@[start as int]),
    ensures
        r == quote_end(s@, start + 1, s@[start as int]),
        start < r <= s@.len(),
{
    proof {
        lemma_quote_end_bounds(s@, start + 1, s@[start as int]);
    }
    quote_end_at(s, start + 1, s[start])
}

pub(crate) fn is_comment_start(s: &Vec<char>, i: usize) -> (r: bool)
    requires
        i <= s.len(),
    ensures
        r == comment_start(s@, i as int),
{
    i < s.len() && s.len() - i > 1 && s[i] == '/' && s[i + 1] == '*'
}

/// The first top-level `{` from `from` on (see `open_brace_from`).
pub fn find_top_level_open_brace(s: &Vec<char>, from: usize) -> (r: Option<usize>)
    requires
        from <= s@.len(),
    ensures
        match r {
            Some(k) => open_brace_from(s@, from as int, 0, 0) == k as int && from <= k < s@.len(),
            None => open_brace_from(s@, from as int, 0, 0) == -1,
        },
{
    proof {
        lemma_open_brace_bounds(s@, from as int, 0, 0);
    }
    let mut i = from;
    let mut po: usize = 0;
    let mut pc: usize = 0;
    let mut bo: usize = 0;
    let mut bc: usize = 0;
    while i < s.len()
        invariant
            from <= i <= s@.len(),
            po <= i && pc <= i && bo <= i && bc <= i,
            open_brace_from(s@, i as int, po - pc, bo - bc) == open_brace_from(
                s@,
                from as int,
                0,
                0,
            ),
        decreases s@.len() - i,
    {
        let c = s[i];
        if is_comment_start(s, i) {
            proof {
                lemma_comment_end_bounds(s@, i + 2);
            }
            i = find_comment_end(s, i + 2);
        } else if c == '"' || c == '\'' {
            i = find_string_end(s, i);
        } else if c == '(' {
            po += 1;
            i += 1;
        } else if c == ')' {
            pc += 1;
            i += 1;
        } else if c == '[' {
            bo += 1;
            i += 1;
        } else if c == ']' {
            bc += 1;
            i += 1;
        } else if c == '{' && po == pc && bo == bc {
            return Some(i);
        } else if c == ';' && po == pc && bo == bc {
            return None;
        } else {
            i += 1;
        }
    }
    None
}

/// The first top-level `;` from `from` on (see `semicolon_from`).
pub fn find_top_level_semicolon(s: &Vec<char>, from: usize) -> (r: Option<usize>)
    requires
        from <= s@.len(),
    ensures
        match r {
            Some(k) => semicolon_from(s@, from as int, 0, 0) == k as int && from <= k < s@.len(),
            None => semicolon_from(s@, from as int, 0, 0) == -1,
        },
{
    proof {
        lemma_semicolon_bounds(s@, from as int, 0, 0);
    }
    let mut i = from;
    let mut po: usize = 0;
    let mut pc: usize = 0;
    let mut bo: usize = 0;
    let mut bc: usize = 0;
    while i < s.len()
        invariant
            from <= i <= s@.len(),
            po <= i && pc <= i && bo <= i && bc <= i,
            semicolon_from(s@, i as int, po - pc, bo - bc) == semicolon_from(
                s@,
                from as int,
                0,
                0,
            ),
        decreases s@.len() - i,
    {
        let c = s[i];
        if is_comment_start(s, i) {
            proof {
                lemma_comment_end_bounds(s@, i + 2);
            }
            i = find_comment_end(s, i + 2);
        } else if c == '"' || c == '\'' {
            i = find_string_end(s, i);
        } else if c == '(' {
            po += 1;
            i += 1;
        } else if c == ')' {
            pc += 1;
            i += 1;
        } else if c == '[' {
            bo += 1;
            i += 1;
        } else if c == ']' {
            bc += 1;
            i += 1;
        } else if c == ';' && po == pc && bo == bc {
            return Some(i);
        } else if c == '}' && po == pc && bo == bc {
            return None;
        } else {
            i += 1;
        }
    }
    None
}

/// The `}` matching the `{` at `open` (see `close_brace_from`).
pub fn find_matching_close_brace(s: &Vec<char>, open: usize) -> (r: Option<usize>)
    requires
        open < s.len(),
    ensures
        match r {
            Some(k) => close_brace_from(s@, open + 1, 1) == k as int && open < k < s@.len(),
            None => close_brace_from(s@, open + 1, 1) == -1,
        },
{
    proof {
        lemma_close_brace_bounds(s@, open + 1, 1);
    }
    let mut i = open + 1;
    let mut extra: usize = 0;
    while i < s.len()
        invariant
            open + 1 <= i <= s@.len(),
            extra <= i,
            close_brace_from(s@, i as int, (extra + 1) as nat) == close_brace_from(
                s@,
                open + 1,
                1,
            ),
        decreases s@.len() - i,
    {
        let c = s[i];
        if is_comment_start(s, i) {
            proof {
                lemma_comment_end_bounds(s@, i + 2);
            }
            i = find_comment_end(s, i + 2);
        } else if c == '"' || c == '\'' {
            i = find_string_end(s, i);
        } else if c == '{' {
            extra += 1;
            i += 1;
        } else if c == '}' {
            if extra == 0 {
                return Some(i);
            }
            extra -= 1;
            i += 1;
        } else {
            i += 1;
        }
    }
    None
}

// ---------------------------------------------------------------------
// At-rules and rules
// ---------------------------------------------------------------------

/// `@<name> <params> { <body> }` read from the end of the name: the
/// position after the block, and those of its `{` and `}`.
pub open spec fn at_rule_block(s: Seq<char>, name_end: int) -> Option<(int, int, int)> {
    let open = open_brace_from(s, name_end, 0, 0);
    let close = close_brace_from(s, open + 1, 1);
    if open >= 0 && close >= 0 {
        Some((close + 1, open, close))
    } else {
        None
    }
}

/// `@<name> <value>;` read from the end of the name: the position after
/// the `;` and that of the `;`; at the end of the text the value runs to
/// the end, unless a `{` makes it a block.
pub open spec fn at_rule_value(s: Seq<char>, name_end: int) -> Option<(int, int)> {
    let semi = semicolon_from(s, name_end, 0, 0);
    if semi >= 0 {
        Some((semi + 1, semi))
    } else if s.subrange(name_end, s.len() as int).contains('{') {
        None
    } else {
        Some((s.len() as int, s.len() as int))
    }
}

/// Stepping over a statement from `i`: past its first `;`, or past the
/// block its first `{` opens; -1 when neither closes.
pub open spec fn statement_end(s: Seq<char>, i: int) -> int
    decreases s.len() - i,
{
    if !(0 <= i < s.len()) {
        -1
    } else if s[i] == ';' {
        i + 1
    } else if s[i] == '{' {
        let close = close_brace_from(s, i + 1, 1);
        if close >= 0 {
            close + 1
        } else {
            -1
        }
    } else if comment_start(s, i) {
        proof {
            lemma_comment_end_bounds(s, i + 2);
        }
        statement_end(s, comment_end(s, i + 2))
    } else if is_quote(s[i]) {
        proof {
            lemma_quote_end_bounds(s, i + 1, s[i]);
        }
        statement_end(s, quote_end(s, i + 1, s[i]))
    } else {
        statement_end(s, i + 1)
    }
}

/// The end of a layer child from `i`: past its block and the ASCII
/// whitespace after it, or past its first `;`; -1 when neither closes.
pub open spec fn child_end(s: Seq<char>, i: int) -> int
    decreases s.len() - i,
{
    if !(0 <= i < s.len()) {
        -1
    } else if s[i] == '{' {
        let close = close_brace_from(s, i + 1, 1);
        if close >= 0 {
            ws_end(s, close + 1)
        } else {
            -1
        }
    } else if comment_start(s, i) {
        proof {
            lemma_comment_end_bounds(s, i + 2);
        }
        child_end(s, comment_end(s, i + 2))
    } else if is_quote(s[i]) {
        proof {
            lemma_quote_end_bounds(s, i + 1, s[i]);
        }
        child_end(s, quote_end(s, i + 1, s[i]))
    } else if s[i] == ';' {
        i + 1
    } else {
        child_end(s, i + 1)
    }
}

/// The first position at or after `j` that is not ASCII whitespace.
pub open spec fn ws_end(s: Seq<char>, j: int) -> int
    decreases s.len() - j,
{
    if 0 <= j < s.len() && ascii_ws(s[j]) {
        ws_end(s, j + 1)
    } else {
        j
    }
}

pub proof fn lemma_statement_end_bounds(s: Seq<char>, i: int)
    requires
        0 <= i,
    ensures
        statement_end(s, i) == -1 || i < statement_end(s, i) <= s.len(),
    decreases s.len() - i,
{
    if 0 <= i < s.len() {
        if s[i] == '{' {
            lemma_close_brace_bounds(s, i + 1, 1);
        } else if s[i] != ';' {
            if comment_start(s, i) {
                lemma_comment_end_bounds(s, i + 2);
                lemma_statement_end_bounds(s, comment_end(s, i + 2));
            } else if is_quote(s[i]) {
                lemma_quote_end_bounds(s, i + 1, s[i]);
                lemma_statement_end_bounds(s, quote_end(s, i + 1, s[i]));
            } else {
                lemma_statement_end_bounds(s, i + 1);
            }
        }
    }
}

pub proof fn lemma_at_rule_block_bounds(s: Seq<char>, name_end: int)
    requires
        0 <= name_end,
    ensures
        at_rule_block(s, name_end) matches Some((after, open, close)) ==> name_end <= open
            < close < after <= s.len() && after == close + 1,
{
    lemma_open_brace_bounds(s, name_end, 0, 0);
    let open = open_brace_from(s, name_end, 0, 0);
    if open >= 0 {
        lemma_close_brace_bounds(s, open + 1, 1);
    }
}

/// A character that can start a rule's selector.
pub open spec fn selector_lead(c: char) -> bool {
    ascii_alnum(c) || c == '.' || c == '#' || c == '*' || c == ':' || c == '[' || c == '&' || c
        == '>' || c == '+' || c == '~' || c == '_' || c == '-'
}

pub fn is_selector_lead(c: char) -> (r: bool)
    ensures
        r == selector_lead(c),
{
    is_ascii_alnum(c) || c == '.' || c == '#' || c == '*' || c == ':' || c == '[' || c == '&' || c
        == '>' || c == '+' || c == '~' || c == '_' || c == '-'
}

/// The end of the identifier that starts at `start`.
pub fn scan_ident(s: &Vec<char>, start: usize) -> (r: usize)
    requires
        start <= s@.len(),
    ensures
        r == ident_run_end(s@, start as int),
        start <= r <= s@.len(),
{
    proof {
        lemma_ident_run_end_bounds(s@, start as int);
    }
    ident_run_end_at(s, start)
}

/// Read `@<name> <params> { <body> }` from the end of the name: the
/// position after it, and those of its `{` and `}`.
pub fn read_at_rule_with_params_and_block(s: &Vec<char>, name_end: usize) -> (r: Option<
    (usize, usize, usize),
>)
    requires
        name_end <= s.len(),
    ensures
        match r {
            Some((a, o, c)) => at_rule_block(s@, name_end as int) == Some(
                (a as int, o as int, c as int),
            ),
            None => at_rule_block(s@, name_end as int) is None,
        },
{
    let open = match find_top_level_open_brace(s, name_end) {
        Some(o) => o,
        None => {
            return None;
        },
    };
    let close = match find_matching_close_brace(s, open) {
        Some(c) => c,
        None => {
            return None;
        },
    };
    Some((close + 1, open, close))
}

fn contains_char(s: &Vec<char>, from: usize, c: char) -> (r: bool)
    requires
        from <= s@.len(),
    ensures
        r == s@.subrange(from as int, s@.len() as int).contains(c),
{
    let mut i = from;
    while i < s.len()
        invariant
            from <= i <= s@.len(),
            forall|k: int| from <= k < i ==> s@[k] != c,
        decreases s@.len() - i,
    {
        if s[i] == c {
            assert(s@.subrange(from as int, s@.len() as int)[i - from] == c);
            return true;
        }
        i += 1;
    }
    assert forall|k: int| 0 <= k < s@.len() - from implies s@.subrange(
        from as int,
        s@.len() as int,
    )[k] != c by {
        assert(s@[from + k] != c);
    }
    false
}

/// Read `@<name> <value>;` from the end of the name: the position after
/// it and the end of the value.
pub fn read_at_rule_simple_value(s: &Vec<char>, name_end: usize) -> (r: Option<(usize, usize)>)
    requires
        name_end <= s.len(),
    ensures
        match r {
            Some((a, e)) => at_rule_value(s@, name_end as int) == Some((a as int, e as int)),
            None => at_rule_value(s@, name_end as int) is None,
        },
{
    match find_top_level_semicolon(s, name_end) {
        Some(semi) => Some((semi + 1, semi)),
        None => {
            if contains_char(s, name_end, '{') {
                None
            } else {
                Some((s.len(), s.len()))
            }
        },
    }
}

fn statement_end_at(s: &Vec<char>, start: usize) -> (r: Option<usize>)
    requires
        start <= s@.len(),
    ensures
        match r {
            Some(k) => statement_end(s@, start as int) == k as int,
            None => statement_end(s@, start as int) == -1,
        },
{
    let mut i = start;
    while i < s.len()
        invariant
            start <= i <= s@.len(),
            statement_end(s@, i as int) == statement_end(s@, start as int),
        decreases s@.len() - i,
    {
        let c = s[i];
        if c == ';' {
            return Some(i + 1);
        } else if c == '{' {
            return match find_matching_close_brace(s, i) {
                Some(close) => Some(close + 1),
                None => None,
            };
        } else if is_comment_start(s, i) {
            proof {
                lemma_comment_end_bounds(s@, i + 2);
            }
            i = find_comment_end(s, i + 2);
        } else if c == '"' || c == '\'' {
            i = find_string_end(s, i);
        } else {
            i += 1;
        }
    }
    None
}

/// Step over the at-rule whose `@` is at `start`: past its first `;` or
/// its first block.
pub fn skip_at_rule(s: &Vec<char>, start: usize) -> (r: Option<usize>)
    requires
        start < s.len(),
    ensures
        match r {
            Some(k) => statement_end(s@, start + 1) == k as int,
            None => statement_end(s@, start + 1) == -1,
        },
{
    statement_end_at(s, start + 1)
}

/// Step over the rule that starts at `start`: past its block, or past a
/// `;` that comes first.
pub fn skip_rule_block(s: &Vec<char>, start: usize) -> (r: Option<usize>)
    requires
        start <= s@.len(),
    ensures
        match r {
            Some(k) => statement_end(s@, start as int) == k as int,
            None => statement_end(s@, start as int) == -1,
        },
{
    statement_end_at(s, start)
}

/// The end of the layer child that starts at `start`, with the
/// whitespace after it (see `child_end`).
pub fn find_top_level_block_end(s: &Vec<char>, start: usize) -> (r: Option<usize>)
    requires
        start <= s@.len(),
    ensures
        match r {
            Some(k) => child_end(s@, start as int) == k as int,
            None => child_end(s@, start as int) == -1,
        },
{
    let mut i = start;
    while i < s.len()
        invariant
            start <= i <= s@.len(),
            child_end(s@, i as int) == child_end(s@, start as int),
        decreases s@.len() - i,
    {
        let c = s[i];
        if c == '{' {
            let close = match find_matching_close_brace(s, i) {
                Some(k) => k,
                None => {
                    return None;
                },
            };
            let mut j = close + 1;
            while j < s.len() && is_ascii_ws(s[j])
                invariant
                    close + 1 <= j <= s@.len(),
                    ws_end(s@, j as int) == ws_end(s@, close + 1),
                decreases s@.len() - j,
            {
                j += 1;
            }
            return Some(j);
        } else if is_comment_start(s, i) {
            proof {
                lemma_comment_end_bounds(s@, i + 2);
            }
            i = find_comment_end(s, i + 2);
        } else if c == '"' || c == '\'' {
            i = find_string_end(s, i);
        } else if c == ';' {
            return Some(i + 1);
        } else {
            i += 1;
        }
    }
    None
}

// ---------------------------------------------------------------------
// Marking declarations important
// ---------------------------------------------------------------------

pub open spec fn ends_with(s: Seq<char>, p: Seq<char>) -> bool {
    p.len() <= s.len() && s.skip(s.len() - p.len()) == p
}

/// A rule starting at `i`: the positions of its top-level `{` and of the
/// matching `}`.
pub open spec fn rule_block(s: Seq<char>, i: int) -> Option<(int, int)> {
    let b = open_brace_from(s, i, 0, 0);
    let c = close_brace_from(s, b + 1, 1);
    if b >= 0 && c >= 0 {
        Some((b, c))
    } else {
        None
    }
}

pub proof fn lemma_rule_block_bounds(s: Seq<char>, i: int)
    requires
        0 <= i,
    ensures
        rule_block(s, i) matches Some((b, c)) ==> i <= b < c < s.len(),
{
    lemma_open_brace_bounds(s, i, 0, 0);
    let b = open_brace_from(s, i, 0, 0);
    if b >= 0 {
        lemma_close_brace_bounds(s, b + 1, 1);
    }
}

/// A declaration `chunk` and its `;`, marked important unless it already
/// ends in `!important`; whitespace before the `;` stays after the mark.
pub open spec fn tag_decl(chunk: Seq<char>) -> Seq<char> {
    let t = trim_end_spec(chunk);
    if ends_with(t, "!important"@) {
        chunk + seq![';']
    } else {
        t + " !important"@ + chunk.skip(t.len() as int) + seq![';']
    }
}

/// `s` from `i` on with every declaration marked important: comments,
/// strings and at-rules pass through whole, nested rule bodies are
/// marked in turn, and `prop: value;` chunks (those with a `:`) get
/// `!important`.
pub open spec fn tag_scan(s: Seq<char>, i: int) -> Seq<char>
    decreases s.len(), s.len() - i,
{
    if !(0 <= i < s.len()) {
        Seq::empty()
    } else if comment_start(s, i) {
        proof {
            lemma_comment_end_bounds(s, i + 2);
        }
        let e = comment_end(s, i + 2);
        s.subrange(i, e) + tag_scan(s, e)
    } else if is_quote(s[i]) {
        proof {
            lemma_quote_end_bounds(s, i + 1, s[i]);
        }
        let e = quote_end(s, i + 1, s[i]);
        s.subrange(i, e) + tag_scan(s, e)
    } else if s[i] == '@' && (at_rule_block(s, ident_run_end(s, i + 1)) is Some || statement_end(
        s,
        i + 1,
    ) >= 0) {
        proof {
            lemma_ident_run_end_bounds(s, i + 1);
            lemma_at_rule_block_bounds(s, ident_run_end(s, i + 1));
            lemma_statement_end_bounds(s, i + 1);
        }
        let after = match at_rule_block(s, ident_run_end(s, i + 1)) {
            Some((a, _, _)) => a,
            None => statement_end(s, i + 1),
        };
        s.subrange(i, after) + tag_scan(s, after)
    } else if selector_lead(s[i]) && rule_block(s, i) is Some {
        proof {
            lemma_rule_block_bounds(s, i);
        }
        match rule_block(s, i) {
            Some((b, c)) => s.subrange(i, b + 1) + tag_scan(s.subrange(b + 1, c), 0) + seq!['}']
                + tag_scan(s, c + 1),
            None => Seq::empty(),
        }
    } else if semicolon_from(s, i, 0, 0) >= 0 {
        proof {
            lemma_semicolon_bounds(s, i, 0, 0);
        }
        let semi = semicolon_from(s, i, 0, 0);
        let chunk = s.subrange(i, semi);
        (if chunk.contains(':') {
            tag_decl(chunk)
        } else {
            chunk + seq![';']
        }) + tag_scan(s, semi + 1)
    } else {
        seq![s[i]] + tag_scan(s, i + 1)
    }
}

fn tag_decl_exec(s: &Vec<char>, i: usize, semi: usize) -> (r: Vec<char>)
    requires
        i <= semi < s@.len(),
    ensures
        r@ == tag_decl(s@.subrange(i as int, semi as int)),
{
    let chunk = sub_chars(s, i, semi);
    let t = trim_end_chars(&chunk);
    let marker = chars_of("!important");
    if t.len() >= marker.len() && prefix_at(&t, t.len() - marker.len(), &marker) {
        assert(t@.skip(t@.len() - marker@.len()) =~= t@.subrange(
            t@.len() - marker@.len(),
            t@.len() as int,
        ));
        let mut out = chunk;
        out.push(';');
        out
    } else {
        assert(t@.len() >= marker@.len() ==> t@.skip(t@.len() - marker@.len()) =~= t@.subrange(
            t@.len() - marker@.len(),
            t@.len() as int,
        ));
        proof {
            crate::text::lemma_trail_ws_bounds(chunk@, chunk@.len() as int);
        }
        let mut out = sub_chars(&t, 0, t.len());
        extend_chars(&mut out, &chars_of(" !important"));
        let rest = sub_chars(&chunk, t.len(), chunk.len());
        extend_chars(&mut out, &rest);
        out.push(';');
        assert(out@ =~= t@ + " !important"@ + chunk@.skip(t@.len() as int) + seq![';']);
        out
    }
}

fn has_colon(s: &Vec<char>, a: usize, b: usize) -> (r: bool)
    requires
        a <= b <= s@.len(),
    ensures
        r == s@.subrange(a as int, b as int).contains(':'),
{
    let mut k = a;
    while k < b
        invariant
            a <= k <= b <= s@.len(),
            forall|j: int| a <= j < k ==> s@[j] != ':',
        decreases b - k,
    {
        if s[k] == ':' {
            assert(s@.subrange(a as int, b as int)[k - a] == ':');
            return true;
        }
        k += 1;
    }
    assert forall|j: int| 0 <= j < b - a implies s@.subrange(a as int, b as int)[j] != ':' by {
        assert(s@.subrange(a as int, b as int)[j] == s@[a + j]);
    }
    false
}

fn tag_decls_chars(s: &Vec<char>) -> (r: Vec<char>)
    ensures
        r@ == tag_scan(s@, 0),
    decreases s@.len(),
{
    let mut out: Vec<char> = Vec::new();
    let mut i: usize = 0;
    while i < s.len()
        invariant
            i <= s@.len(),
            out@ + tag_scan(s@, i as int) == tag_scan(s@, 0),
        decreases s@.len() - i,
    {
        let ghost before = out@;
        let c = s[i];
        let mut handled = false;
        if is_comment_start(s, i) {
            proof {
                lemma_comment_end_bounds(s@, i + 2);
            }
            let e = find_comment_end(s, i + 2);
            extend_chars(&mut out, &sub_chars(s, i, e));
            i = e;
            handled = true;
        } else if c == '"' || c == '\'' {
            let e = find_string_end(s, i);
            extend_chars(&mut out, &sub_chars(s, i, e));
            i = e;
            handled = true;
        } else if c == '@' {
            let name_end = scan_ident(s, i + 1);
            proof {
                lemma_at_rule_block_bounds(s@, name_end as int);
                lemma_statement_end_bounds(s@, i + 1);
            }
            match read_at_rule_with_params_and_block(s, name_end) {
                Some((after, _, _)) => {
                    extend_chars(&mut out, &sub_chars(s, i, after));
                    i = after;
                    handled = true;
                },
                None => match skip_at_rule(s, i) {
                    Some(after) => {
                        extend_chars(&mut out, &sub_chars(s, i, after));
                        i = after;
                        handled = true;
                    },
                    None => {},
                },
            }
        }
        if !handled && is_selector_lead(c) {
            proof {
                lemma_rule_block_bounds(s@, i as int);
            }
            match find_top_level_open_brace(s, i) {
                Some(brace) => match find_matching_close_brace(s, brace) {
                    Some(close) => {
                        let inner = sub_chars(s, brace + 1, close);
                        extend_chars(&mut out, &sub_chars(s, i, brace + 1));
                        let tagged = tag_decls_chars(&inner);
                        extend_chars(&mut out, &tagged);
                        out.push('}');
                        i = close + 1;
                        handled = true;
                    },
                    None => {},
                },
                None => {},
            }
        }
        if !handled {
            match find_top_level_semicolon(s, i) {
                Some(semi) => {
                    if has_colon(s, i, semi) {
                        extend_chars(&mut out, &tag_decl_exec(s, i, semi));
                    } else {
                        proof {
                            lemma_semicolon_bounds(s@, i as int, 0, 0);
                        }
                        extend_chars(&mut out, &sub_chars(s, i, semi + 1));
                        assert(s@.subrange(i as int, semi + 1) =~= s@.subrange(
                            i as int,
                            semi as int,
                        ) + seq![';']);
                    }
                    i = semi + 1;
                },
                None => {
                    out.push(c);
                    i += 1;
                },
            }
        }
        assert(out@ + tag_scan(s@, i as int) =~= tag_scan(s@, 0));
    }
    assert(out@ =~= out@ + tag_scan(s@, i as int));
    out
}

/// Mark every declaration of a rule body `!important` (see `tag_scan`);
/// declarations that already carry it are left alone.
pub fn tag_decls_important(body: &str) -> (r: String)
    ensures
        r@ == tag_scan(body@, 0),
{
    let s = chars_of(body);
    string_from_chars(&tag_decls_chars(&s))
}

// ---------------------------------------------------------------------
// Classes in selectors
// ---------------------------------------------------------------------

/// A character that can start a class name: an ASCII letter, `_`, or any
/// non-ASCII character.
pub open spec fn class_ident_start(c: char) -> bool {
    ('a' <= c && c <= 'z') || ('A' <= c && c <= 'Z') || c == '_' || (c as int) > 0x7f
}

/// The end of a class name whose scan is at `i`: identifier characters,
/// non-ASCII characters and `\x` escapes.
pub open spec fn class_ident_end(s: Seq<char>, i: int) -> int
    decreases s.len() - i,
{
    if !(0 <= i < s.len()) {
        i
    } else if ident_char(s[i]) || (s[i] as int) > 0x7f {
        class_ident_end(s, i + 1)
    } else if s[i] == '\\' && i + 1 < s.len() {
        class_ident_end(s, i + 2)
    } else {
        i
    }
}

/// The `]` that closes a bracket with `depth` brackets open at `i`,
/// skipping strings; -1 when none.
pub open spec fn bracket_close_from(s: Seq<char>, i: int, depth: nat) -> int
    decreases s.len() - i,
{
    if !(0 <= i < s.len()) {
        -1
    } else if s[i] == '[' {
        bracket_close_from(s, i + 1, depth + 1)
    } else if s[i] == ']' {
        if depth <= 1 {
            i
        } else {
            bracket_close_from(s, i + 1, (depth - 1) as nat)
        }
    } else if is_quote(s[i]) {
        proof {
            lemma_quote_end_bounds(s, i + 1, s[i]);
        }
        bracket_close_from(s, quote_end(s, i + 1, s[i]), depth)
    } else {
        bracket_close_from(s, i + 1, depth)
    }
}

/// For a `:not(` at `i`: the position after its matching `)`; -1 when
/// there is no such group at `i`.
pub open spec fn not_group_end(s: Seq<char>, i: int) -> int {
    if has_prefix_at(s, i, ":not("@) && close_paren_from(s, i + ":not("@.len(), 1) >= 0 {
        close_paren_from(s, i + ":not("@.len(), 1) + 1
    } else {
        -1
    }
}

pub proof fn lemma_class_ident_end_bounds(s: Seq<char>, i: int)
    requires
        0 <= i <= s.len(),
    ensures
        i <= class_ident_end(s, i) <= s.len(),
    decreases s.len() - i,
{
    if i < s.len() {
        if ident_char(s[i]) || (s[i] as int) > 0x7f {
            lemma_class_ident_end_bounds(s, i + 1);
        } else if s[i] == '\\' && i + 1 < s.len() {
            lemma_class_ident_end_bounds(s, i + 2);
        }
    }
}

pub proof fn lemma_bracket_close_bounds(s: Seq<char>, i: int, depth: nat)
    requires
        0 <= i,
    ensures
        bracket_close_from(s, i, depth) == -1 || i <= bracket_close_from(s, i, depth) < s.len(),
    decreases s.len() - i,
{
    if 0 <= i < s.len() {
        if s[i] == '[' {
            lemma_bracket_close_bounds(s, i + 1, depth + 1);
        } else if s[i] == ']' {
            if depth > 1 {
                lemma_bracket_close_bounds(s, i + 1, (depth - 1) as nat);
            }
        } else if is_quote(s[i]) {
            lemma_quote_end_bounds(s, i + 1, s[i]);
            lemma_bracket_close_bounds(s, quote_end(s, i + 1, s[i]), depth);
        } else {
            lemma_bracket_close_bounds(s, i + 1, depth);
        }
    }
}

pub proof fn lemma_not_group_end_bounds(s: Seq<char>, i: int)
    requires
        0 <= i,
    ensures
        not_group_end(s, i) == -1 || i < not_group_end(s, i) <= s.len(),
{
    reveal_strlit(":not(");
    lemma_close_paren_bounds(s, i + 5, 1);
}

/// Whether a selector names a class outside brackets, strings and
/// `:not(…)`.
pub open spec fn shc_scan(s: Seq<char>, i: int) -> bool
    decreases s.len() - i,
{
    if !(0 <= i < s.len()) {
        false
    } else if s[i] == '[' {
        proof {
            lemma_bracket_close_bounds(s, i + 1, 1);
        }
        let c = bracket_close_from(s, i + 1, 1);
        if c >= 0 {
            shc_scan(s, c + 1)
        } else {
            shc_scan(s, i + 1)
        }
    } else if is_quote(s[i]) {
        proof {
            lemma_quote_end_bounds(s, i + 1, s[i]);
        }
        shc_scan(s, quote_end(s, i + 1, s[i]))
    } else if s[i] == ':' && not_group_end(s, i) >= 0 {
        proof {
            lemma_not_group_end_bounds(s, i);
        }
        shc_scan(s, not_group_end(s, i))
    } else if s[i] == '.' && i + 1 < s.len() && class_ident_start(s[i + 1]) {
        true
    } else {
        shc_scan(s, i + 1)
    }
}

/// The class names a chunk of CSS mentions in order: `.` followed by a
/// class name (or by `-` and one), outside comments, strings, brackets
/// and `:not(…)`.
pub open spec fn ccn_scan(s: Seq<char>, i: int) -> Seq<Seq<char>>
    decreases s.len() - i,
{
    if !(0 <= i < s.len()) {
        Seq::empty()
    } else if comment_start(s, i) {
        proof {
            lemma_comment_end_bounds(s, i + 2);
        }
        ccn_scan(s, comment_end(s, i + 2))
    } else if is_quote(s[i]) {
        proof {
            lemma_quote_end_bounds(s, i + 1, s[i]);
        }
        ccn_scan(s, quote_end(s, i + 1, s[i]))
    } else if s[i] == '[' {
        proof {
            lemma_bracket_close_bounds(s, i + 1, 1);
        }
        let c = bracket_close_from(s, i + 1, 1);
        if c >= 0 {
            ccn_scan(s, c + 1)
        } else {
            ccn_scan(s, i + 1)
        }
    } else if s[i] == ':' && not_group_end(s, i) >= 0 {
        proof {
            lemma_not_group_end_bounds(s, i);
        }
        ccn_scan(s, not_group_end(s, i))
    } else if s[i] == '.' && i + 1 < s.len() && class_ident_start(s[i + 1]) {
        proof {
            lemma_class_ident_end_bounds(s, i + 1);
        }
        let e = class_ident_end(s, i + 1);
        seq![s.subrange(i + 1, e)] + ccn_scan(s, e)
    } else if s[i] == '.' && i + 2 < s.len() && s[i + 1] == '-' && class_ident_start(s[i + 2]) {
        proof {
            lemma_class_ident_end_bounds(s, i + 2);
        }
        let e = class_ident_end(s, i + 2);
        seq![s.subrange(i + 1, e)] + ccn_scan(s, e)
    } else {
        ccn_scan(s, i + 1)
    }
}

pub fn is_class_ident_start(c: char) -> (r: bool)
    ensures
        r == class_ident_start(c),
{
    ('a' <= c && c <= 'z') || ('A' <= c && c <= 'Z') || c == '_' || c > '\u{7f}'
}

/// The end of the class name that starts at `start` (see
/// `class_ident_end`).
pub fn scan_class_ident(s: &Vec<char>, start: usize) -> (r: usize)
    requires
        start <= s@.len(),
    ensures
        r == class_ident_end(s@, start as int),
{
    let mut i = start;
    while i < s.len()
        invariant
            start <= i <= s@.len(),
            class_ident_end(s@, i as int) == class_ident_end(s@, start as int),
        decreases s@.len() - i,
    {
        let c = s[i];
        if is_ident_char(c) || c > '\u{7f}' {
            i += 1;
        } else if c == '\\' && i + 1 < s.len() {
            i += 2;
        } else {
            return i;
        }
    }
    i
}

/// The `]` matching the `[` at `open`, skipping strings.
pub fn find_matching_close_bracket(s: &Vec<char>, open: usize) -> (r: Option<usize>)
    requires
        open < s.len(),
    ensures
        match r {
            Some(k) => bracket_close_from(s@, open + 1, 1) == k as int,
            None => bracket_close_from(s@, open + 1, 1) == -1,
        },
{
    let mut i = open + 1;
    let mut extra: usize = 0;
    while i < s.len()
        invariant
            open + 1 <= i <= s@.len(),
            extra <= i,
            bracket_close_from(s@, i as int, (extra + 1) as nat) == bracket_close_from(
                s@,
                open + 1,
                1,
            ),
        decreases s@.len() - i,
    {
        let c = s[i];
        if c == '[' {
            extra += 1;
            i += 1;
        } else if c == ']' {
            if extra == 0 {
                return Some(i);
            }
            extra -= 1;
            i += 1;
        } else if c == '"' || c == '\'' {
            i = find_string_end(s, i);
        } else {
            i += 1;
        }
    }
    None
}

fn not_group_end_at(s: &Vec<char>, i: usize) -> (r: Option<usize>)
    requires
        i < s.len(),
    ensures
        match r {
            Some(k) => not_group_end(s@, i as int) == k as int,
            None => not_group_end(s@, i as int) == -1,
        },
{
    let not_open = chars_of(":not(");
    proof {
        reveal_strlit(":not(");
    }
    if prefix_at(s, i, &not_open) {
        match crate::directives::find_matching_close_paren(s, i + 4) {
            Some(close) => Some(close + 1),
            None => None,
        }
    } else {
        None
    }
}

/// Whether a selector names a class (see `shc_scan`).
pub fn selector_has_class(s: &Vec<char>) -> (r: bool)
    ensures
        r == shc_scan(s@, 0),
{
    let mut i: usize = 0;
    while i < s.len()
        invariant
            i <= s@.len(),
            shc_scan(s@, i as int) == shc_scan(s@, 0),
        decreases s@.len() - i,
    {
        let c = s[i];
        if c == '[' {
            proof {
                lemma_bracket_close_bounds(s@, i + 1, 1);
            }
            match find_matching_close_bracket(s, i) {
                Some(close) => {
                    i = close + 1;
                },
                None => {
                    i += 1;
                },
            }
        } else if c == '"' || c == '\'' {
            i = find_string_end(s, i);
        } else if c == ':' && not_group_end_at(s, i).is_some() {
            proof {
                lemma_not_group_end_bounds(s@, i as int);
            }
            match not_group_end_at(s, i) {
                Some(e) => {
                    i = e;
                },
                None => {
                    i += 1;
                },
            }
        } else if c == '.' && i + 1 < s.len() && is_class_ident_start(s[i + 1]) {
            return true;
        } else {
            i += 1;
        }
    }
    false
}

/// The class names a chunk of CSS mentions (see `ccn_scan`).
pub fn collect_class_names(s: &Vec<char>) -> (r: Vec<Vec<char>>)
    ensures
        crate::directives::chars_list_view(r@) == ccn_scan(s@, 0),
{
    let mut out: Vec<Vec<char>> = Vec::new();
    let mut i: usize = 0;
    while i < s.len()
        invariant
            i <= s@.len(),
            crate::directives::chars_list_view(out@) + ccn_scan(s@, i as int) == ccn_scan(s@, 0),
        decreases s@.len() - i,
    {
        let c = s[i];
        let ghost before = crate::directives::chars_list_view(out@);
        if is_comment_start(s, i) {
            proof {
                lemma_comment_end_bounds(s@, i + 2);
            }
            i = find_comment_end(s, i + 2);
        } else if c == '"' || c == '\'' {
            i = find_string_end(s, i);
        } else if c == '[' {
            proof {
                lemma_bracket_close_bounds(s@, i + 1, 1);
            }
            match find_matching_close_bracket(s, i) {
                Some(close) => {
                    i = close + 1;
                },
                None => {
                    i += 1;
                },
            }
        } else if c == ':' && not_group_end_at(s, i).is_some() {
            proof {
                lemma_not_group_end_bounds(s@, i as int);
            }
            match not_group_end_at(s, i) {
                Some(e) => {
                    i = e;
                },
                None => {
                    i += 1;
                },
            }
        } else if c == '.' && i + 1 < s.len() && is_class_ident_start(s[i + 1]) {
            proof {
                lemma_class_ident_end_bounds(s@, i + 1);
            }
            let e = scan_class_ident(s, i + 1);
            out.push(sub_chars(s, i + 1, e));
            assert(crate::directives::chars_list_view(out@) =~= before + seq![
                s@.subrange(i + 1, e as int),
            ]);
            i = e;
        } else if c == '.' && s.len() - i > 2 && s[i + 1] == '-' && is_class_ident_start(s[i + 2]) {
            proof {
                lemma_class_ident_end_bounds(s@, i + 2);
            }
            let e = scan_class_ident(s, i + 2);
            out.push(sub_chars(s, i + 1, e));
            assert(crate::directives::chars_list_view(out@) =~= before + seq![
                s@.subrange(i + 1, e as int),
            ]);
            i = e;
        } else {
            i += 1;
        }
    }
    assert(crate::directives::chars_list_view(out@) =~= crate::directives::chars_list_view(out@)
        + ccn_scan(s@, i as int));
    out
}

// ---------------------------------------------------------------------
// Candidate-driven rules
// ---------------------------------------------------------------------

pub open spec fn all_have_class(parts: Seq<Seq<char>>) -> bool {
    forall|k: int| 0 <= k < parts.len() ==> shc_scan(#[trigger] parts[k], 0)
}

/// Whether some rule of the chunk (from `i` on, nested at-rule and rule
/// bodies included) has a selector without a class: such a rule is
/// always emitted rather than driven by candidates.
pub open spec fn rh_scan(s: Seq<char>, i: int) -> bool
    decreases s.len(), s.len() - i,
{
    if !(0 <= i < s.len()) {
        false
    } else if ascii_ws(s[i]) {
        rh_scan(s, i + 1)
    } else if comment_start(s, i) {
        proof {
            lemma_comment_end_bounds(s, i + 2);
        }
        rh_scan(s, comment_end(s, i + 2))
    } else if is_quote(s[i]) {
        proof {
            lemma_quote_end_bounds(s, i + 1, s[i]);
        }
        rh_scan(s, quote_end(s, i + 1, s[i]))
    } else if s[i] == '@' {
        proof {
            lemma_ident_run_end_bounds(s, i + 1);
            lemma_at_rule_block_bounds(s, ident_run_end(s, i + 1));
            lemma_statement_end_bounds(s, i + 1);
        }
        match at_rule_block(s, ident_run_end(s, i + 1)) {
            Some((after, o, c)) => rh_scan(s.subrange(o + 1, c), 0) || rh_scan(s, after),
            None => if statement_end(s, i + 1) >= 0 {
                rh_scan(s, statement_end(s, i + 1))
            } else {
                rh_scan(s, i + 1)
            },
        }
    } else if selector_lead(s[i]) {
        proof {
            lemma_rule_block_bounds(s, i);
        }
        match rule_block(s, i) {
            None => false,
            Some((b, c)) => !all_have_class(split_selectors_spec(s.subrange(i, b))) || rh_scan(
                s.subrange(b + 1, c),
                0,
            ) || rh_scan(s, c + 1),
        }
    } else {
        rh_scan(s, i + 1)
    }
}

fn all_parts_have_class(parts: &Vec<Vec<char>>) -> (r: bool)
    ensures
        r == all_have_class(crate::directives::chars_list_view(parts@)),
{
    let ghost pv = crate::directives::chars_list_view(parts@);
    let mut k: usize = 0;
    while k < parts.len()
        invariant
            k <= parts@.len(),
            pv == crate::directives::chars_list_view(parts@),
            forall|j: int| 0 <= j < k ==> shc_scan(#[trigger] pv[j], 0),
        decreases parts@.len() - k,
    {
        if !selector_has_class(&parts[k]) {
            assert(pv[k as int] == parts@[k as int]@);
            return false;
        }
        k += 1;
    }
    true
}

fn rule_has_non_class_chars(s: &Vec<char>) -> (r: bool)
    ensures
        r == rh_scan(s@, 0),
    decreases s@.len(),
{
    let mut i: usize = 0;
    while i < s.len()
        invariant
            i <= s@.len(),
            rh_scan(s@, i as int) == rh_scan(s@, 0),
        decreases s@.len() - i,
    {
        let c = s[i];
        if is_ascii_ws(c) {
            i += 1;
        } else if is_comment_start(s, i) {
            proof {
                lemma_comment_end_bounds(s@, i + 2);
            }
            i = find_comment_end(s, i + 2);
        } else if c == '"' || c == '\'' {
            i = find_string_end(s, i);
        } else if c == '@' {
            let name_end = scan_ident(s, i + 1);
            proof {
                lemma_at_rule_block_bounds(s@, name_end as int);
                lemma_statement_end_bounds(s@, i + 1);
            }
            match read_at_rule_with_params_and_block(s, name_end) {
                Some((after, open, close)) => {
                    let body = sub_chars(s, open + 1, close);
                    if rule_has_non_class_chars(&body) {
                        return true;
                    }
                    i = after;
                },
                None => match skip_at_rule(s, i) {
                    Some(after) => {
                        i = after;
                    },
                    None => {
                        i += 1;
                    },
                },
            }
        } else if is_selector_lead(c) {
            proof {
                lemma_rule_block_bounds(s@, i as int);
            }
            let brace = match find_top_level_open_brace(s, i) {
                Some(b) => b,
                None => {
                    return false;
                },
            };
            let close = match find_matching_close_brace(s, brace) {
                Some(k) => k,
                None => {
                    return false;
                },
            };
            let list = sub_chars(s, i, brace);
            let parts = split_top_level_selectors(&list);
            if !all_parts_have_class(&parts) {
                return true;
            }
            let body = sub_chars(s, brace + 1, close);
            if rule_has_non_class_chars(&body) {
                return true;
            }
            i = close + 1;
        } else {
            i += 1;
        }
    }
    false
}

/// Whether some rule of the chunk has a selector with no class (see
/// `rh_scan`).
pub fn rule_has_non_class_only_selector(chunk: &str) -> (r: bool)
    ensures
        r == rh_scan(chunk@, 0),
{
    rule_has_non_class_chars(&chars_of(chunk))
}

/// Whether `s` from `i` on is a class name with nothing after it:
/// identifier characters, non-ASCII characters and `\x` escapes only.
pub open spec fn simple_ident_from(s: Seq<char>, i: int) -> bool
    decreases s.len() - i,
{
    if !(0 <= i < s.len()) {
        true
    } else if ident_char(s[i]) || (s[i] as int) > 0x7f {
        simple_ident_from(s, i + 1)
    } else if s[i] == '\\' && i + 1 < s.len() {
        simple_ident_from(s, i + 2)
    } else {
        false
    }
}

pub open spec fn simple_class_ident(s: Seq<char>) -> bool {
    s.len() > 0 && simple_ident_from(s, 0)
}

/// Whether `s` is a non-empty class name with no pseudo-class, compound
/// or combinator after it.
pub fn is_simple_class_ident(s: &Vec<char>) -> (r: bool)
    ensures
        r == simple_class_ident(s@),
{
    if s.len() == 0 {
        return false;
    }
    let mut i: usize = 0;
    while i < s.len()
        invariant
            i <= s@.len(),
            s@.len() > 0,
            simple_ident_from(s@, i as int) == simple_ident_from(s@, 0),
        decreases s@.len() - i,
    {
        let c = s[i];
        if is_ident_char(c) || c > '\u{7f}' {
            i += 1;
        } else if c == '\\' && i + 1 < s.len() {
            i += 2;
        } else {
            return false;
        }
    }
    true
}

/// Whether every selector of `parts` from `k` on is a bare `.class`
/// (trimmed), and one of them (or `found`) is `.c`.
pub open spec fn trivial_from(parts: Seq<Seq<char>>, c: Seq<char>, k: int, found: bool) -> bool
    decreases parts.len() - k,
{
    if !(0 <= k < parts.len()) {
        found
    } else {
        let t = trim_spec(parts[k]);
        if !(t.len() > 0 && t[0] == '.') || !simple_class_ident(t.drop_first()) {
            false
        } else {
            trivial_from(parts, c, k + 1, found || t.drop_first() == c)
        }
    }
}

/// Whether a selector list is made of bare `.class` selectors only, one
/// of them `.class_name`.
pub fn is_trivial_class_selector(selector: &str, class_name: &str) -> (r: bool)
    ensures
        r == trivial_from(split_selectors_spec(selector@), class_name@, 0, false),
{
    let s = chars_of(selector);
    let c = chars_of(class_name);
    let parts = split_top_level_selectors(&s);
    let ghost pv = crate::directives::chars_list_view(parts@);
    let mut found = false;
    let mut k: usize = 0;
    while k < parts.len()
        invariant
            k <= parts@.len(),
            pv == crate::directives::chars_list_view(parts@),
            pv == split_selectors_spec(selector@),
            c@ == class_name@,
            trivial_from(pv, c@, k as int, found) == trivial_from(pv, c@, 0, false),
        decreases parts@.len() - k,
    {
        let t = trim_chars(&parts[k]);
        assert(t@ == trim_spec(pv[k as int]));
        if t.len() == 0 || t[0] != '.' {
            return false;
        }
        let bare = sub_chars(&t, 1, t.len());
        assert(bare@ =~= t@.drop_first());
        if crate::text::chars_eq(&bare, &c) {
            found = true;
        }
        if !is_simple_class_ident(&bare) {
            return false;
        }
        k += 1;
    }
    found
}

// ---------------------------------------------------------------------
// Important declarations from the apply cache
// ---------------------------------------------------------------------

/// The position of the first `;` at or after `i`, or the length.
pub open spec fn semi_pos(s: Seq<char>, i: int) -> int
    decreases s.len() - i,
{
    if !(0 <= i < s.len()) || s[i] == ';' {
        i
    } else {
        semi_pos(s, i + 1)
    }
}

pub proof fn lemma_semi_pos_bounds(s: Seq<char>, i: int)
    requires
        0 <= i <= s.len(),
    ensures
        i <= semi_pos(s, i) <= s.len(),
        semi_pos(s, i) < s.len() ==> s[semi_pos(s, i)] == ';',
    decreases s.len() - i,
{
    if i < s.len() && s[i] != ';' {
        lemma_semi_pos_bounds(s, i + 1);
    }
}

/// The `;`-separated declarations of `s` from `start` on, each trimmed,
/// empty ones dropped, every one ending in `!important;`.
pub open spec fn important_decls_from(s: Seq<char>, start: int) -> Seq<char>
    decreases s.len() - start,
{
    if !(0 <= start <= s.len()) {
        Seq::empty()
    } else {
        proof {
            lemma_semi_pos_bounds(s, start);
        }
        let p = semi_pos(s, start);
        let piece = trim_spec(s.subrange(start, p));
        let out = if piece.len() == 0 {
            Seq::empty()
        } else if ends_with(piece, "!important"@) {
            piece + seq![';']
        } else {
            piece + " !important"@ + seq![';']
        };
        if p < s.len() {
            out + important_decls_from(s, p + 1)
        } else {
            out
        }
    }
}

/// Mark each `;`-separated declaration of `body` `!important` (see
/// `important_decls_from`).
pub fn apply_important_to_decls(body: &str) -> (r: String)
    ensures
        r@ == important_decls_from(body@, 0),
{
    let s = chars_of(body);
    let marker = chars_of("!important");
    let mut out: Vec<char> = Vec::new();
    let mut start: usize = 0;
    loop
        invariant_except_break
            start <= s@.len(),
            s@ == body@,
            marker@ == "!important"@,
            out@ + important_decls_from(s@, start as int) == important_decls_from(s@, 0),
        ensures
            out@ == important_decls_from(s@, 0),
        decreases s@.len() - start,
    {
        let mut p = start;
        while p < s.len() && s[p] != ';'
            invariant
                start <= p <= s@.len(),
                semi_pos(s@, p as int) == semi_pos(s@, start as int),
            decreases s@.len() - p,
        {
            p += 1;
        }
        let piece = trim_chars(&sub_chars(&s, start, p));
        let ghost before = out@;
        let ghost piece_out = if piece@.len() == 0 {
            Seq::<char>::empty()
        } else if ends_with(piece@, "!important"@) {
            piece@ + seq![';']
        } else {
            piece@ + " !important"@ + seq![';']
        };
        if piece.len() > 0 {
            extend_chars(&mut out, &piece);
            let is_marked = piece.len() >= marker.len() && prefix_at(
                &piece,
                piece.len() - marker.len(),
                &marker,
            );
            proof {
                if piece@.len() >= marker@.len() {
                    assert(piece@.skip(piece@.len() - marker@.len()) =~= piece@.subrange(
                        piece@.len() - marker@.len(),
                        piece@.len() as int,
                    ));
                }
            }
            if !is_marked {
                extend_chars(&mut out, &chars_of(" !important"));
            }
            out.push(';');
        }
        assert(out@ =~= before + piece_out);
        if p < s.len() {
            assert(important_decls_from(s@, start as int) == piece_out + important_decls_from(
                s@,
                p + 1,
            ));
            start = p + 1;
            assert(out@ + important_decls_from(s@, start as int) =~= important_decls_from(s@, 0));
        } else {
            assert(important_decls_from(s@, start as int) == piece_out);
            break;
        }
    }
    string_from_chars(&out)
}

// ---------------------------------------------------------------------
// The `important` selector
// ---------------------------------------------------------------------

/// The trimmed comma-separated selectors of `s` from `i` on (the current
/// one starting at `start`, `dp` parentheses and `db` brackets open);
/// escapes are skipped, an empty last selector is dropped.
pub open spec fn split_dir_scan(s: Seq<char>, i: int, dp: int, db: int, start: int) -> Seq<
    Seq<char>,
>
    decreases s.len() - i,
{
    if !(0 <= i < s.len()) {
        let t = trim_spec(s.subrange(start, s.len() as int));
        if t.len() > 0 {
            seq![t]
        } else {
            Seq::empty()
        }
    } else if s[i] == '\\' && i + 1 < s.len() {
        split_dir_scan(s, i + 2, dp, db, start)
    } else if s[i] == '(' {
        split_dir_scan(s, i + 1, dp + 1, db, start)
    } else if s[i] == ')' {
        split_dir_scan(s, i + 1, dp - 1, db, start)
    } else if s[i] == '[' {
        split_dir_scan(s, i + 1, dp, db + 1, start)
    } else if s[i] == ']' {
        split_dir_scan(s, i + 1, dp, db - 1, start)
    } else if s[i] == ',' && dp == 0 && db == 0 {
        seq![trim_spec(s.subrange(start, i))] + split_dir_scan(s, i + 1, dp, db, i + 1)
    } else {
        split_dir_scan(s, i + 1, dp, db, start)
    }
}

/// The selectors of a list; the whole text when there are none.
pub open spec fn split_dir_spec(s: Seq<char>) -> Seq<Seq<char>> {
    let p = split_dir_scan(s, 0, 0, 0, 0);
    if p.len() == 0 {
        seq![s]
    } else {
        p
    }
}

/// Split a selector list at its top-level commas (see `split_dir_spec`).
pub fn split_top_level_selectors_dir(s: &Vec<char>) -> (r: Vec<Vec<char>>)
    ensures
        crate::directives::chars_list_view(r@) == split_dir_spec(s@),
{
    let mut parts: Vec<Vec<char>> = Vec::new();
    let mut i: usize = 0;
    let mut start: usize = 0;
    let mut po: usize = 0;
    let mut pc: usize = 0;
    let mut bo: usize = 0;
    let mut bc: usize = 0;
    while i < s.len()
        invariant
            start <= i <= s@.len(),
            po <= i && pc <= i && bo <= i && bc <= i,
            crate::directives::chars_list_view(parts@) + split_dir_scan(
                s@,
                i as int,
                po - pc,
                bo - bc,
                start as int,
            ) == split_dir_scan(s@, 0, 0, 0, 0),
        decreases s@.len() - i,
    {
        let ch = s[i];
        if ch == '\\' && i + 1 < s.len() {
            i += 2;
        } else if ch == '(' {
            po += 1;
            i += 1;
        } else if ch == ')' {
            pc += 1;
            i += 1;
        } else if ch == '[' {
            bo += 1;
            i += 1;
        } else if ch == ']' {
            bc += 1;
            i += 1;
        } else if ch == ',' && po == pc && bo == bc {
            let t = trim_chars(&sub_chars(s, start, i));
            let ghost before = crate::directives::chars_list_view(parts@);
            parts.push(t);
            assert(crate::directives::chars_list_view(parts@) =~= before + seq![
                trim_spec(s@.subrange(start as int, i as int)),
            ]);
            i += 1;
            start = i;
        } else {
            i += 1;
        }
    }
    let t = trim_chars(&sub_chars(s, start, s.len()));
    if t.len() > 0 {
        let ghost before = crate::directives::chars_list_view(parts@);
        parts.push(t);
        assert(crate::directives::chars_list_view(parts@) =~= before + seq![t@]);
    } else {
        assert(crate::directives::chars_list_view(parts@) =~= crate::directives::chars_list_view(
            parts@,
        ) + Seq::<Seq<char>>::empty());
    }
    if parts.len() == 0 {
        let whole = sub_chars(s, 0, s.len());
        assert(whole@ =~= s@);
        parts.push(whole);
        assert(crate::directives::chars_list_view(parts@) =~= seq![s@]);
    }
    parts
}

/// The first position at or after `j` that is not a space or a tab.
pub open spec fn blank_end(s: Seq<char>, j: int) -> int
    decreases s.len() - j,
{
    if 0 <= j < s.len() && (s[j] == ' ' || s[j] == '\t') {
        blank_end(s, j + 1)
    } else {
        j
    }
}

/// Whether a selector from `i` on has a top-level combinator: `>`, `+`,
/// `~`, or blanks with something on both sides (`seen`: something came
/// before). Escapes, strings, parentheses and brackets are stepped over.
pub open spec fn comb_scan(s: Seq<char>, i: int, dp: int, db: int, seen: bool) -> bool
    decreases s.len() - i,
{
    if !(0 <= i < s.len()) {
        false
    } else if s[i] == '\\' && i + 1 < s.len() {
        comb_scan(s, i + 2, dp, db, seen)
    } else if is_quote(s[i]) {
        proof {
            lemma_quote_end_bounds(s, i + 1, s[i]);
        }
        comb_scan(s, quote_end(s, i + 1, s[i]), dp, db, seen)
    } else if s[i] == '(' {
        comb_scan(s, i + 1, dp + 1, db, true)
    } else if s[i] == ')' {
        comb_scan(s, i + 1, dp - 1, db, true)
    } else if s[i] == '[' {
        comb_scan(s, i + 1, dp, db + 1, true)
    } else if s[i] == ']' {
        comb_scan(s, i + 1, dp, db - 1, true)
    } else if (s[i] == '>' || s[i] == '+' || s[i] == '~') && dp == 0 && db == 0 {
        true
    } else if (s[i] == ' ' || s[i] == '\t') && dp == 0 && db == 0 {
        if !seen {
            comb_scan(s, i + 1, dp, db, seen)
        } else {
            blank_end(s, i + 1) < s.len()
        }
    } else {
        comb_scan(s, i + 1, dp, db, s[i] != '\0')
    }
}

/// Whether a selector has a top-level combinator (see `comb_scan`).
pub fn has_top_level_combinator_dir(s: &Vec<char>) -> (r: bool)
    ensures
        r == comb_scan(s@, 0, 0, 0, false),
{
    let mut i: usize = 0;
    let mut po: usize = 0;
    let mut pc: usize = 0;
    let mut bo: usize = 0;
    let mut bc: usize = 0;
    let mut seen = false;
    while i < s.len()
        invariant
            i <= s@.len(),
            po <= i && pc <= i && bo <= i && bc <= i,
            comb_scan(s@, i as int, po - pc, bo - bc, seen) == comb_scan(s@, 0, 0, 0, false),
        decreases s@.len() - i,
    {
        let ch = s[i];
        if ch == '\\' && i + 1 < s.len() {
            i += 2;
        } else if ch == '"' || ch == '\'' {
            proof {
                lemma_quote_end_bounds(s@, i + 1, ch);
            }
            i = quote_end_at(s, i + 1, ch);
        } else if ch == '(' {
            po += 1;
            seen = true;
            i += 1;
        } else if ch == ')' {
            pc += 1;
            seen = true;
            i += 1;
        } else if ch == '[' {
            bo += 1;
            seen = true;
            i += 1;
        } else if ch == ']' {
            bc += 1;
            seen = true;
            i += 1;
        } else if (ch == '>' || ch == '+' || ch == '~') && po == pc && bo == bc {
            return true;
        } else if (ch == ' ' || ch == '\t') && po == pc && bo == bc {
            if !seen {
                i += 1;
            } else {
                let mut j = i + 1;
                while j < s.len() && (s[j] == ' ' || s[j] == '\t')
                    invariant
                        i + 1 <= j <= s@.len(),
                        blank_end(s@, j as int) == blank_end(s@, i + 1),
                    decreases s@.len() - j,
                {
                    j += 1;
                }
                return j < s.len();
            }
        } else {
            seen = ch != '\0';
            i += 1;
        }
    }
    false
}

/// One selector with the `important` selector in front: wrapped in
/// `:is(…)` when it has a top-level combinator.
pub open spec fn prefix_selector(part: Seq<char>, sel: Seq<char>) -> Seq<char> {
    sel + seq![' '] + if comb_scan(part, 0, 0, 0, false) {
        ":is("@ + part + seq![')']
    } else {
        part
    }
}

/// The selectors, each prefixed, joined with `", "`.
pub open spec fn prefixed_list(parts: Seq<Seq<char>>, sel: Seq<char>) -> Seq<char>
    decreases parts.len(),
{
    if parts.len() == 0 {
        Seq::empty()
    } else if parts.len() == 1 {
        prefix_selector(parts[0], sel)
    } else {
        prefixed_list(parts.drop_last(), sel) + ", "@ + prefix_selector(parts.last(), sel)
    }
}

/// The end of an at-rule header from `j`: its first `{` or `;`, or the
/// end.
pub open spec fn header_end(s: Seq<char>, j: int) -> int
    decreases s.len() - j,
{
    if !(0 <= j < s.len()) || s[j] == '{' || s[j] == ';' {
        j
    } else {
        header_end(s, j + 1)
    }
}

pub proof fn lemma_header_end_bounds(s: Seq<char>, j: int)
    requires
        0 <= j <= s.len(),
    ensures
        j <= header_end(s, j) <= s.len(),
    decreases s.len() - j,
{
    if j < s.len() && s[j] != '{' && s[j] != ';' {
        lemma_header_end_bounds(s, j + 1);
    }
}

/// A block of rules from `i` on with each top-level rule's selectors
/// prefixed by `sel` (see `prefix_selector`). `depth` counts the braces
/// open; `start` is where the selector being read began (-1 outside a
/// selector). Comments, strings, at-rule headers and rule bodies pass
/// through unchanged; rules nested in at-rules are body text. A selector
/// that never reaches its `{` is dropped.
pub open spec fn ais_scan(s: Seq<char>, sel: Seq<char>, i: int, depth: int, start: int) -> Seq<char>
    decreases s.len() - i,
{
    if !(0 <= i < s.len()) {
        Seq::empty()
    } else if comment_start(s, i) {
        proof {
            lemma_comment_end_bounds(s, i + 2);
        }
        let e = comment_end(s, i + 2);
        (if start < 0 {
            s.subrange(i, e)
        } else {
            Seq::empty()
        }) + ais_scan(s, sel, e, depth, start)
    } else if is_quote(s[i]) {
        proof {
            lemma_quote_end_bounds(s, i + 1, s[i]);
        }
        let e = quote_end(s, i + 1, s[i]);
        (if start < 0 {
            s.subrange(i, e)
        } else {
            Seq::empty()
        }) + ais_scan(s, sel, e, depth, start)
    } else if depth == 0 && start < 0 {
        if ascii_ws(s[i]) {
            seq![s[i]] + ais_scan(s, sel, i + 1, 0, -1)
        } else if s[i] == '@' {
            proof {
                lemma_header_end_bounds(s, i);
            }
            let j = header_end(s, i);
            if j < s.len() && s[j] == ';' {
                s.subrange(i, j + 1) + ais_scan(s, sel, j + 1, 0, -1)
            } else if j < s.len() && s[j] == '{' {
                s.subrange(i, j + 1) + ais_scan(s, sel, j + 1, 1, -1)
            } else {
                s.skip(i)
            }
        } else {
            ais_scan(s, sel, i + 1, 0, i)
        }
    } else if start >= 0 {
        if s[i] == '{' {
            let raw = s.subrange(start, i);
            raw.take(lead_ws(raw, 0)) + prefixed_list(split_dir_spec(trim_spec(raw)), sel)
                + seq![' ', '{'] + ais_scan(s, sel, i + 1, depth + 1, -1)
        } else {
            ais_scan(s, sel, i + 1, depth, start)
        }
    } else if s[i] == '{' {
        seq!['{'] + ais_scan(s, sel, i + 1, depth + 1, -1)
    } else if s[i] == '}' {
        seq!['}'] + ais_scan(s, sel, i + 1, depth - 1, -1)
    } else {
        seq![s[i]] + ais_scan(s, sel, i + 1, depth, -1)
    }
}

fn prefixed_list_exec(parts: &Vec<Vec<char>>, sel: &Vec<char>) -> (r: Vec<char>)
    ensures
        r@ == prefixed_list(crate::directives::chars_list_view(parts@), sel@),
{
    let ghost pv = crate::directives::chars_list_view(parts@);
    let mut out: Vec<char> = Vec::new();
    let mut k: usize = 0;
    while k < parts.len()
        invariant
            k <= parts@.len(),
            pv == crate::directives::chars_list_view(parts@),
            out@ == prefixed_list(pv.take(k as int), sel@),
        decreases parts@.len() - k,
    {
        assert(pv.take(k + 1).drop_last() =~= pv.take(k as int));
        let ghost before = out@;
        if k > 0 {
            extend_chars(&mut out, &chars_of(", "));
        }
        let ghost sep = out@;
        extend_chars(&mut out, sel);
        out.push(' ');
        if has_top_level_combinator_dir(&parts[k]) {
            extend_chars(&mut out, &chars_of(":is("));
            extend_chars(&mut out, &parts[k]);
            out.push(')');
        } else {
            extend_chars(&mut out, &parts[k]);
        }
        assert(pv[k as int] == parts@[k as int]@);
        assert(out@ =~= sep + prefix_selector(pv[k as int], sel@));
        k += 1;
        assert(out@ =~= prefixed_list(pv.take(k as int), sel@));
    }
    assert(pv.take(k as int) =~= pv);
    out
}

/// Prefix every top-level rule's selectors in `body` with the
/// configured `important` selector (see `ais_scan`).
pub fn apply_important_selector_to_block(body: &str, important_sel: &str) -> (r: String)
    ensures
        r@ == ais_scan(body@, important_sel@, 0, 0, -1),
{
    let s = chars_of(body);
    let sel = chars_of(important_sel);
    let mut out: Vec<char> = Vec::new();
    let mut i: usize = 0;
    let mut depth: usize = 0;
    let mut start: Option<usize> = None;
    while i < s.len()
        invariant
            i <= s@.len(),
            depth <= i,
            s@ == body@,
            sel@ == important_sel@,
            start is Some ==> depth == 0 && start->0 <= i,
            out@ + ais_scan(
                s@,
                sel@,
                i as int,
                depth as int,
                match start {
                    Some(k) => k as int,
                    None => -1,
                },
            ) == ais_scan(s@, sel@, 0, 0, -1),
        decreases s@.len() - i,
    {
        let ghost before = out@;
        let c = s[i];
        if is_comment_start(&s, i) {
            proof {
                lemma_comment_end_bounds(s@, i + 2);
            }
            let e = find_comment_end(&s, i + 2);
            if start.is_none() {
                extend_chars(&mut out, &sub_chars(&s, i, e));
            }
            i = e;
        } else if c == '"' || c == '\'' {
            let e = find_string_end(&s, i);
            if start.is_none() {
                extend_chars(&mut out, &sub_chars(&s, i, e));
            }
            i = e;
        } else if depth == 0 && start.is_none() {
            if is_ascii_ws(c) {
                out.push(c);
                i += 1;
            } else if c == '@' {
                let mut j = i;
                while j < s.len() && s[j] != '{' && s[j] != ';'
                    invariant
                        i <= j <= s@.len(),
                        header_end(s@, j as int) == header_end(s@, i as int),
                    decreases s@.len() - j,
                {
                    j += 1;
                }
                if j < s.len() && s[j] == ';' {
                    extend_chars(&mut out, &sub_chars(&s, i, j + 1));
                    i = j + 1;
                } else if j < s.len() && s[j] == '{' {
                    extend_chars(&mut out, &sub_chars(&s, i, j + 1));
                    depth = 1;
                    i = j + 1;
                } else {
                    extend_chars(&mut out, &sub_chars(&s, i, s.len()));
                    assert(s@.subrange(i as int, s@.len() as int) =~= s@.skip(i as int));
                    assert(out@ =~= ais_scan(s@, sel@, 0, 0, -1));
                    return string_from_chars(&out);
                }
            } else {
                start = Some(i);
                i += 1;
            }
        } else if start.is_some() {
            if c == '{' {
                let st = match start {
                    Some(k) => k,
                    None => 0,
                };
                let raw = sub_chars(&s, st, i);
                let mut lead: usize = 0;
                while lead < raw.len() && crate::text::is_unicode_ws(raw[lead])
                    invariant
                        lead <= raw@.len(),
                        lead_ws(raw@, lead as int) == lead_ws(raw@, 0),
                    decreases raw@.len() - lead,
                {
                    lead += 1;
                }
                extend_chars(&mut out, &sub_chars(&raw, 0, lead));
                let trimmed = trim_chars(&raw);
                let parts = split_top_level_selectors_dir(&trimmed);
                extend_chars(&mut out, &prefixed_list_exec(&parts, &sel));
                out.push(' ');
                out.push('{');
                depth = depth + 1;
                start = None;
                i += 1;
            } else {
                i += 1;
            }
        } else if c == '{' {
            out.push('{');
            depth = depth + 1;
            i += 1;
        } else if c == '}' {
            out.push('}');
            depth = depth - 1;
            i += 1;
        } else {
            out.push(c);
            i += 1;
        }
        assert(out@ + ais_scan(
            s@,
            sel@,
            i as int,
            depth as int,
            match start {
                Some(k) => k as int,
                None => -1,
            },
        ) =~= ais_scan(s@, sel@, 0, 0, -1));
    }
    assert(out@ =~= ais_scan(s@, sel@, 0, 0, -1));
    string_from_chars(&out)
}



// ---------------------------------------------------------------------
// Marking important twice
// ---------------------------------------------------------------------

/// A declaration as `apply_important_to_decls` writes it, without its
/// `;`: not empty, trimmed, free of `;`, ending in `!important`.
pub open spec fn marked_piece(q: Seq<char>) -> bool {
    &&& q.len() > 0
    &&& trim_spec(q) == q
    &&& ends_with(q, "!important"@)
    &&& forall|k: int| 0 <= k < q.len() ==> q[k] != ';'
}

/// `t` from `i` on is a run of marked declarations, each followed by its
/// `;`.
pub open spec fn marked_from(t: Seq<char>, i: int) -> bool
    decreases t.len() - i,
{
    if !(0 <= i < t.len()) {
        i == t.len()
    } else {
        proof {
            lemma_semi_pos_bounds(t, i);
        }
        let p = semi_pos(t, i);
        p < t.len() && marked_piece(t.subrange(i, p)) && marked_from(t, p + 1)
    }
}

proof fn lemma_semi_pos_none_before(s: Seq<char>, i: int)
    requires
        0 <= i <= s.len(),
    ensures
        forall|k: int| i <= k < semi_pos(s, i) ==> s[k] != ';',
    decreases s.len() - i,
{
    if i < s.len() && s[i] != ';' {
        lemma_semi_pos_none_before(s, i + 1);
    }
}

proof fn lemma_semi_pos_at(s: Seq<char>, i: int, p: int)
    requires
        0 <= i <= p < s.len(),
        s[p] == ';',
        forall|k: int| i <= k < p ==> s[k] != ';',
    ensures
        semi_pos(s, i) == p,
    decreases p - i,
{
    if i < p {
        lemma_semi_pos_at(s, i + 1, p);
    }
}

proof fn lemma_semi_shift(x: Seq<char>, y: Seq<char>, j: int)
    requires
        0 <= j <= y.len(),
    ensures
        semi_pos(x + y, x.len() + j) == x.len() + semi_pos(y, j),
    decreases y.len() - j,
{
    if j < y.len() && y[j] != ';' {
        lemma_semi_shift(x, y, j + 1);
    }
}

proof fn lemma_marked_shift(x: Seq<char>, y: Seq<char>, j: int)
    requires
        0 <= j <= y.len(),
    ensures
        marked_from(x + y, x.len() + j) == marked_from(y, j),
    decreases y.len() - j,
{
    if j < y.len() {
        lemma_semi_shift(x, y, j);
        lemma_semi_pos_bounds(y, j);
        let p = semi_pos(y, j);
        assert((x + y).subrange(x.len() + j, x.len() + p) =~= y.subrange(j, p));
        if p < y.len() {
            lemma_marked_shift(x, y, p + 1);
        }
    }
}

/// A marked run is left as it is.
proof fn lemma_marked_fixed(t: Seq<char>, i: int)
    requires
        0 <= i <= t.len(),
        marked_from(t, i),
    ensures
        important_decls_from(t, i) == t.skip(i),
    decreases t.len() - i,
{
    lemma_semi_pos_bounds(t, i);
    if i < t.len() {
        let p = semi_pos(t, i);
        lemma_marked_fixed(t, p + 1);
        assert(t.subrange(i, p) + seq![';'] + t.skip(p + 1) =~= t.skip(i));
    } else {
        assert(trim_spec(t.subrange(i, i)) =~= Seq::<char>::empty());
        assert(t.skip(i) =~= Seq::<char>::empty());
    }
}

/// What `apply_important_to_decls` writes is a marked run.
proof fn lemma_output_marked(s: Seq<char>, start: int)
    requires
        0 <= start <= s.len(),
    ensures
        marked_from(important_decls_from(s, start), 0),
    decreases s.len() - start,
{
    lemma_semi_pos_bounds(s, start);
    lemma_semi_pos_none_before(s, start);
    let p = semi_pos(s, start);
    let raw = s.subrange(start, p);
    let piece = trim_spec(raw);
    lemma_trim_trimmed(raw);
    crate::text::lemma_lead_ws_bounds(raw, 0);
    let rest = if p < s.len() {
        important_decls_from(s, p + 1)
    } else {
        Seq::empty()
    };
    if p < s.len() {
        lemma_output_marked(s, p + 1);
    }
    assert(marked_from(rest, 0));
    if piece.len() == 0 {
        assert(important_decls_from(s, start) =~= rest);
    } else {
        reveal_strlit("!important");
        reveal_strlit(" !important");
        let q = if ends_with(piece, "!important"@) {
            piece
        } else {
            piece + " !important"@
        };
        assert forall|k: int| 0 <= k < piece.len() implies piece[k] != ';' by {
            let m = k + lead_ws(raw, 0);
            assert(piece[k] == raw[m]);
            assert(raw[m] == s[start + m]);
        }
        if !ends_with(piece, "!important"@) {
            assert(q.skip(q.len() - 10) =~= "!important"@);
            assert(q.last() == 't');
            assert(q[0] == piece[0]);
            lemma_trim_of_unpadded(q);
            assert forall|k: int| 0 <= k < q.len() implies q[k] != ';' by {
                if k >= piece.len() {
                    assert(q[k] == " !important"@[k - piece.len()]);
                }
            }
        }
        assert(marked_piece(q));
        let out = q + seq![';'] + rest;
        assert(important_decls_from(s, start) =~= out);
        lemma_semi_pos_at(out, 0, q.len() as int);
        assert(out.subrange(0, q.len() as int) =~= q);
        lemma_marked_shift(q + seq![';'], rest, 0);
        assert(q + seq![';'] + rest =~= out);
    }
}

/// Marking declarations important a second time changes nothing: each
/// declaration already carries the flag.
pub proof fn law_apply_important_is_idempotent(body: Seq<char>)
    ensures
        important_decls_from(important_decls_from(body, 0), 0) == important_decls_from(body, 0),
{
    let once = important_decls_from(body, 0);
    lemma_output_marked(body, 0);
    lemma_marked_fixed(once, 0);
    assert(once.skip(0) =~= once);
}

/// Opening minus closing parentheses in `t`.
pub open spec fn paren_balance(t: Seq<char>) -> int
    decreases t.len(),
{
    if t.len() == 0 {
        0
    } else {
        (if t[0] == '(' {
            1int
        } else if t[0] == ')' {
            -1int
        } else {
            0int
        }) + paren_balance(t.drop_first())
    }
}

proof fn lemma_balance_add(a: Seq<char>, b: Seq<char>)
    ensures
        paren_balance(a + b) == paren_balance(a) + paren_balance(b),
    decreases a.len(),
{
    if a.len() > 0 {
        lemma_balance_add(a.drop_first(), b);
        assert((a + b).drop_first() =~= a.drop_first() + b);
    } else {
        assert(a + b =~= b);
    }
}

/// A property name: ASCII letters and `-`.
pub open spec fn property_name(n: Seq<char>) -> bool {
    &&& n.len() > 0
    &&& forall|k: int|
        0 <= k < n.len() ==> ('a' <= #[trigger] n[k] && n[k] <= 'z') || ('A' <= n[k] && n[k] <= 'Z')
            || n[k] == '-'
}

/// A character a plain declaration value may hold: anything but `;`,
/// braces, brackets, quotes and `/`.
pub open spec fn plain_value_char(c: char) -> bool {
    c != ';' && c != '{' && c != '}' && c != '[' && c != ']' && c != '"' && c != '\'' && c != '/'
}

proof fn lemma_name_balance(n: Seq<char>)
    requires
        forall|k: int|
            0 <= k < n.len() ==> ('a' <= #[trigger] n[k] && n[k] <= 'z') || ('A' <= n[k] && n[k]
                <= 'Z') || n[k] == '-',
    ensures
        paren_balance(n) == 0,
    decreases n.len(),
{
    if n.len() > 0 {
        assert forall|k: int| 0 <= k < n.drop_first().len() implies ('a' <= #[trigger] n.drop_first()[k]
            && n.drop_first()[k] <= 'z') || ('A' <= n.drop_first()[k] && n.drop_first()[k] <= 'Z')
            || n.drop_first()[k] == '-' by {
            assert(n.drop_first()[k] == n[k + 1]);
        }
        lemma_name_balance(n.drop_first());
    }
}

proof fn lemma_no_open_brace(s: Seq<char>, i: int, dp: int, db: int)
    requires
        0 <= i,
        forall|k: int| i <= k < s.len() ==> #[trigger] s[k] != '{' && s[k] != '/' && !is_quote(s[k]),
    ensures
        open_brace_from(s, i, dp, db) == -1,
    decreases s.len() - i,
{
    if i < s.len() {
        let c = s[i];
        if c == '(' {
            lemma_no_open_brace(s, i + 1, dp + 1, db);
        } else if c == ')' {
            lemma_no_open_brace(s, i + 1, dp - 1, db);
        } else if c == '[' {
            lemma_no_open_brace(s, i + 1, dp, db + 1);
        } else if c == ']' {
            lemma_no_open_brace(s, i + 1, dp, db - 1);
        } else if !(c == ';' && dp == 0 && db == 0) {
            lemma_no_open_brace(s, i + 1, dp, db);
        }
    }
}

proof fn lemma_semi_at_end(s: Seq<char>, i: int, dp: int)
    requires
        0 <= i < s.len(),
        s.last() == ';',
        forall|k: int|
            i <= k < s.len() - 1 ==> plain_value_char(#[trigger] s[k]),
        dp + paren_balance(s.subrange(i, s.len() - 1)) == 0,
    ensures
        semicolon_from(s, i, dp, 0) == s.len() - 1,
    decreases s.len() - i,
{
    let l = s.len() - 1;
    if i == l {
        assert(s.subrange(i, l) =~= Seq::<char>::empty());
    } else {
        let c = s[i];
        assert(plain_value_char(c));
        assert(s.subrange(i, l).drop_first() =~= s.subrange(i + 1, l));
        assert(s.subrange(i, l)[0] == c);
        if c == '(' {
            lemma_semi_at_end(s, i + 1, dp + 1);
        } else if c == ')' {
            lemma_semi_at_end(s, i + 1, dp - 1);
        } else {
            lemma_semi_at_end(s, i + 1, dp);
        }
    }
}

/// A declaration `name:value;` whose value holds no `;`, braces,
/// brackets, quotes or `/`, has balanced parentheses and does not end in
/// whitespace or `!important` comes out marked: `name:value !important;`,
/// whatever else its value holds (parentheses, `var()`, `url()` …).
pub proof fn law_every_declaration_is_marked(name: Seq<char>, value: Seq<char>)
    requires
        property_name(name),
        value.len() > 0,
        forall|k: int| 0 <= k < value.len() ==> plain_value_char(#[trigger] value[k]),
        paren_balance(value) == 0,
        !unicode_ws(value.last()),
        !ends_with(name + seq![':'] + value, "!important"@),
    ensures
        tag_scan(name + seq![':'] + value + seq![';'], 0) == name + seq![':'] + value
            + " !important;"@,
{
    let chunk = name + seq![':'] + value;
    let s = chunk + seq![';'];
    let l = chunk.len() as int;
    assert(s.len() == l + 1);
    assert(s.subrange(0, l) =~= chunk);
    assert(s.last() == ';');
    assert forall|k: int| 0 <= k < s.len() implies #[trigger] s[k] != '{' && s[k] != '/' && !is_quote(
        s[k],
    ) by {
        if k < name.len() {
            assert(s[k] == name[k]);
        } else if k > name.len() && k < l {
            assert(s[k] == value[k - name.len() - 1]);
        }
    }
    assert forall|k: int| 0 <= k < s.len() - 1 implies plain_value_char(#[trigger] s[k]) by {
        if k < name.len() {
            assert(s[k] == name[k]);
        } else if k > name.len() {
            assert(s[k] == value[k - name.len() - 1]);
        }
    }
    lemma_name_balance(name);
    lemma_balance_add(name, seq![':']);
    lemma_balance_add(name + seq![':'], value);
    let colon = seq![':'];
    assert(colon[0] == ':');
    assert(colon.drop_first() =~= Seq::<char>::empty());
    assert(paren_balance(Seq::<char>::empty()) == 0);
    assert(paren_balance(colon) == 0);
    lemma_semi_at_end(s, 0, 0);
    lemma_no_open_brace(s, 0, 0, 0);
    assert(s[0] == name[0]);
    assert(!comment_start(s, 0));
    assert(selector_lead(s[0]));
    assert(rule_block(s, 0) is None);
    assert(chunk[name.len() as int] == ':');
    assert(chunk.contains(':'));
    assert(chunk.last() == value.last());
    assert(trail_ws(chunk, l) == l);
    assert(trim_end_spec(chunk) =~= chunk);
    assert(chunk.skip(l) =~= Seq::<char>::empty());
    assert(tag_scan(s, l + 1) == Seq::<char>::empty());
    reveal_strlit(" !important");
    reveal_strlit(" !important;");
    assert(chunk + " !important"@ + chunk.skip(l) + seq![';'] =~= chunk + " !important;"@);
}

/// A declaration that already carries `!important` is left as written
/// (only its `;` follows it).
pub proof fn law_tag_leaves_marked_declarations(chunk: Seq<char>)
    requires
        ends_with(trim_end_spec(chunk), "!important"@),
    ensures
        tag_decl(chunk) == chunk + seq![';'],
{
}


// ---------------------------------------------------------------------
// Tree-shaking user layers
// ---------------------------------------------------------------------

pub proof fn lemma_child_end_bounds(s: Seq<char>, i: int)
    requires
        0 <= i,
    ensures
        child_end(s, i) == -1 || i < child_end(s, i) <= s.len(),
    decreases s.len() - i,
{
    if 0 <= i < s.len() {
        if s[i] == '{' {
            lemma_close_brace_bounds(s, i + 1, 1);
            let close = close_brace_from(s, i + 1, 1);
            if close >= 0 {
                crate::css_items::lemma_ws_end_bounds(s, close + 1);
            }
        } else if comment_start(s, i) {
            lemma_comment_end_bounds(s, i + 2);
            lemma_child_end_bounds(s, comment_end(s, i + 2));
        } else if is_quote(s[i]) {
            lemma_quote_end_bounds(s, i + 1, s[i]);
            lemma_child_end_bounds(s, quote_end(s, i + 1, s[i]));
        } else if s[i] != ';' {
            lemma_child_end_bounds(s, i + 1);
        }
    }
}

/// Whether every class of `classes` is blocked.
pub open spec fn all_blocked(classes: Seq<Seq<char>>, block: Seq<Seq<char>>) -> bool {
    classes.len() > 0 && forall|k: int| 0 <= k < classes.len() ==> block.contains(#[trigger] classes[k])
}

/// Whether some class of `classes` is a candidate.
pub open spec fn any_candidate(classes: Seq<Seq<char>>, cands: Seq<Seq<char>>) -> bool {
    exists|k: int| 0 <= k < classes.len() && cands.contains(#[trigger] classes[k])
}

/// A child of a utility layer is kept unless all its classes are
/// blocked, and then only when one of its selectors has no class or one
/// of its classes is a candidate.
pub open spec fn child_kept(chunk: Seq<char>, cands: Seq<Seq<char>>, block: Seq<Seq<char>>) -> bool {
    let classes = ccn_scan(chunk, 0);
    !all_blocked(classes, block) && (rh_scan(chunk, 0) || any_candidate(classes, cands))
}

/// The body of a utility layer from `i` on with the children that no
/// candidate uses dropped: whitespace and comments stay, a child that
/// does not end keeps the rest as it is.
pub open spec fn shake_scan(s: Seq<char>, i: int, cands: Seq<Seq<char>>, block: Seq<Seq<char>>) -> Seq<
    char,
>
    decreases s.len() - i,
{
    if !(0 <= i < s.len()) {
        Seq::empty()
    } else if ascii_ws(s[i]) {
        seq![s[i]] + shake_scan(s, i + 1, cands, block)
    } else if comment_start(s, i) {
        proof {
            lemma_comment_end_bounds(s, i + 2);
        }
        let e = comment_end(s, i + 2);
        s.subrange(i, e) + shake_scan(s, e, cands, block)
    } else {
        proof {
            lemma_child_end_bounds(s, i);
        }
        let end = child_end(s, i);
        if end < 0 {
            s.skip(i)
        } else {
            let chunk = s.subrange(i, end);
            (if child_kept(chunk, cands, block) {
                chunk
            } else {
                Seq::empty()
            }) + shake_scan(s, end, cands, block)
        }
    }
}

fn classes_all_blocked(classes: &Vec<Vec<char>>, block: &Vec<String>) -> (r: bool)
    ensures
        r == all_blocked(crate::directives::chars_list_view(classes@), crate::plugins::strings_view(block@)),
{
    let ghost cv = crate::directives::chars_list_view(classes@);
    if classes.len() == 0 {
        return false;
    }
    let mut k: usize = 0;
    while k < classes.len()
        invariant
            k <= classes@.len(),
            cv == crate::directives::chars_list_view(classes@),
            forall|j: int| 0 <= j < k ==> crate::plugins::strings_view(block@).contains(#[trigger] cv[j]),
        decreases classes@.len() - k,
    {
        assert(cv[k as int] == classes@[k as int]@);
        if !crate::directives::is_candidate(block, &classes[k]) {
            return false;
        }
        k += 1;
    }
    true
}

fn classes_any_candidate(classes: &Vec<Vec<char>>, cands: &Vec<String>) -> (r: bool)
    ensures
        r == any_candidate(crate::directives::chars_list_view(classes@), crate::plugins::strings_view(cands@)),
{
    let ghost cv = crate::directives::chars_list_view(classes@);
    let mut k: usize = 0;
    while k < classes.len()
        invariant
            k <= classes@.len(),
            cv == crate::directives::chars_list_view(classes@),
            forall|j: int| 0 <= j < k ==> !crate::plugins::strings_view(cands@).contains(#[trigger] cv[j]),
        decreases classes@.len() - k,
    {
        assert(cv[k as int] == classes@[k as int]@);
        if crate::directives::is_candidate(cands, &classes[k]) {
            return true;
        }
        k += 1;
    }
    false
}

/// The body of `@layer utilities` or `@layer components` with the
/// children that no candidate uses dropped (`shake_scan`).
pub fn tree_shake_layer(body: &str, candidate_set: &Vec<String>, blocklist: &Vec<String>) -> (r: String)
    ensures
        r@ == shake_scan(
            body@,
            0,
            crate::plugins::strings_view(candidate_set@),
            crate::plugins::strings_view(blocklist@),
        ),
{
    let s = chars_of(body);
    let ghost cands = crate::plugins::strings_view(candidate_set@);
    let ghost block = crate::plugins::strings_view(blocklist@);
    let mut out: Vec<char> = Vec::new();
    let mut i: usize = 0;
    while i < s.len()
        invariant
            s@ == body@,
            i <= s@.len(),
            cands == crate::plugins::strings_view(candidate_set@),
            block == crate::plugins::strings_view(blocklist@),
            out@ + shake_scan(s@, i as int, cands, block) == shake_scan(s@, 0, cands, block),
        decreases s@.len() - i,
    {
        let ghost before = out@;
        if is_ascii_ws(s[i]) {
            out.push(s[i]);
            assert(before + (seq![s@[i as int]] + shake_scan(s@, i + 1, cands, block)) =~= out@
                + shake_scan(s@, i + 1, cands, block));
            i += 1;
        } else if is_comment_start(&s, i) {
            proof {
                lemma_comment_end_bounds(s@, i + 2);
            }
            let e = find_comment_end(&s, i + 2);
            extend_chars(&mut out, &sub_chars(&s, i, e));
            assert(before + (s@.subrange(i as int, e as int) + shake_scan(s@, e as int, cands, block))
                =~= out@ + shake_scan(s@, e as int, cands, block));
            i = e;
        } else {
            proof {
                lemma_child_end_bounds(s@, i as int);
            }
            match find_top_level_block_end(&s, i) {
                None => {
                    extend_chars(&mut out, &sub_chars(&s, i, s.len()));
                    assert(s@.subrange(i as int, s@.len() as int) =~= s@.skip(i as int));
                    return string_from_chars(&out);
                },
                Some(end) => {
                    let chunk = sub_chars(&s, i, end);
                    let classes = collect_class_names(&chunk);
                    let text = string_from_chars(&chunk);
                    let keep = !classes_all_blocked(&classes, blocklist) && (
                    rule_has_non_class_only_selector(text.as_str()) || classes_any_candidate(
                        &classes,
                        candidate_set,
                    ));
                    if keep {
                        extend_chars(&mut out, &chunk);
                    }
                    assert(before + ((if child_kept(chunk@, cands, block) {
                        chunk@
                    } else {
                        Seq::empty()
                    }) + shake_scan(s@, end as int, cands, block)) =~= out@ + shake_scan(
                        s@,
                        end as int,
                        cands,
                        block,
                    ));
                    i = end;
                },
            }
        }
    }
    assert(out@ + Seq::<char>::empty() =~= out@);
    string_from_chars(&out)
}

} // verus!
