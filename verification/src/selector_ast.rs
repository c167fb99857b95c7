//! Minimal selector AST with a parser and serializer, used to move
//! pseudo-elements to the end of a selector.
//!
//! Serialization preserves the original combinator characters (single
//! space, ` > `, ` + `, ` ~ `, etc.) so a parsed selector prints back the
//! way it was written, modulo moved pseudo nodes.
use vstd::prelude::*;
use vstd::multiset::Multiset;
use crate::text::{
    ascii_alnum, ascii_ws, chars_of, is_ascii_alnum, is_ascii_ws, lemma_trim_len, string_from_range,
    sub_chars, trim_chars, trim_spec,
};

verus! {

/// One compound-selector list entry: the nodes of a single selector.
pub struct SelectorAst {
    pub nodes: Vec<SelAstNode>,
}

pub enum SelAstNode {
    Tag(String),
    Class(String),
    Id(String),
    Attribute(String),
    /// `value` is the full token with its leading colons (`":hover"`,
    /// `"::before"`, `":is"`); `args` is the raw argument text including
    /// the outer parentheses when the arguments are not modelled; `nodes`
    /// is the parsed selector list for `:is/:where/:has/:not`.
    Pseudo { value: String, args: String, nodes: Vec<SelectorAst> },
    /// Combinator characters exactly as they appeared in the source.
    Combinator(String),
    Universal,
    Nesting,
}

/// The mathematical model of a selector node.
pub enum SelNode {
    Tag(Seq<char>),
    Class(Seq<char>),
    Id(Seq<char>),
    Attribute(Seq<char>),
    Pseudo { value: Seq<char>, args: Seq<char>, nodes: Seq<Seq<SelNode>> },
    Combinator(Seq<char>),
    Universal,
    Nesting,
}

pub open spec fn node_view(n: SelAstNode) -> SelNode
    decreases n,
{
    match n {
        SelAstNode::Tag(s) => SelNode::Tag(s@),
        SelAstNode::Class(s) => SelNode::Class(s@),
        SelAstNode::Id(s) => SelNode::Id(s@),
        SelAstNode::Attribute(s) => SelNode::Attribute(s@),
        SelAstNode::Pseudo { value, args, nodes } => SelNode::Pseudo {
            value: value@,
            args: args@,
            nodes: sels_view(nodes@),
        },
        SelAstNode::Combinator(s) => SelNode::Combinator(s@),
        SelAstNode::Universal => SelNode::Universal,
        SelAstNode::Nesting => SelNode::Nesting,
    }
}

pub open spec fn nodes_view(ns: Seq<SelAstNode>) -> Seq<SelNode>
    decreases ns,
{
    if ns.len() == 0 {
        Seq::empty()
    } else {
        nodes_view(ns.drop_last()).push(node_view(ns.last()))
    }
}

pub open spec fn sels_view(ss: Seq<SelectorAst>) -> Seq<Seq<SelNode>>
    decreases ss,
{
    if ss.len() == 0 {
        Seq::empty()
    } else {
        sels_view(ss.drop_last()).push(nodes_view(ss.last().nodes@))
    }
}

impl View for SelAstNode {
    type V = SelNode;

    open spec fn view(&self) -> SelNode {
        node_view(*self)
    }
}

impl View for SelectorAst {
    type V = Seq<SelNode>;

    open spec fn view(&self) -> Seq<SelNode> {
        nodes_view(self.nodes@)
    }
}


pub proof fn lemma_nodes_view(ns: Seq<SelAstNode>)
    ensures
        nodes_view(ns).len() == ns.len(),
        forall|i: int| 0 <= i < ns.len() ==> #[trigger] nodes_view(ns)[i] == node_view(ns[i]),
    decreases ns.len(),
{
    if ns.len() > 0 {
        lemma_nodes_view(ns.drop_last());
    }
}

pub proof fn lemma_sels_view(ss: Seq<SelectorAst>)
    ensures
        sels_view(ss).len() == ss.len(),
        forall|i: int| 0 <= i < ss.len() ==> #[trigger] sels_view(ss)[i] == nodes_view(ss[i].nodes@),
    decreases ss.len(),
{
    if ss.len() > 0 {
        lemma_sels_view(ss.drop_last());
    }
}

/// The text of one node.
pub open spec fn ser_node(n: SelNode) -> Seq<char>
    decreases n,
{
    match n {
        SelNode::Tag(s) => s,
        SelNode::Class(s) => seq!['.'] + s,
        SelNode::Id(s) => seq!['#'] + s,
        SelNode::Attribute(s) => s,
        SelNode::Pseudo { value, args, nodes } => {
            if nodes.len() > 0 {
                value + seq!['('] + ser_list(nodes) + seq![')']
            } else {
                value + args
            }
        },
        SelNode::Combinator(c) => c,
        SelNode::Universal => seq!['*'],
        SelNode::Nesting => seq!['&'],
    }
}

/// The text of one selector: its nodes one after another.
pub open spec fn ser_sel(ns: Seq<SelNode>) -> Seq<char>
    decreases ns,
{
    if ns.len() == 0 {
        Seq::empty()
    } else {
        ser_sel(ns.drop_last()) + ser_node(ns.last())
    }
}

/// The text of a selector list: the selectors joined by `", "`.
pub open spec fn ser_list(l: Seq<Seq<SelNode>>) -> Seq<char>
    decreases l,
{
    if l.len() == 0 {
        Seq::empty()
    } else if l.len() == 1 {
        ser_sel(l[0])
    } else {
        ser_list(l.drop_last()) + seq![',', ' '] + ser_sel(l.last())
    }
}

pub open spec fn list_view(list: Seq<SelectorAst>) -> Seq<Seq<SelNode>> {
    sels_view(list)
}

/// Serialize a selector list into CSS text.
pub fn serialize_selector_list(list: &[SelectorAst]) -> (out: String)
    ensures
        out@ == ser_list(sels_view(list@)),
{
    let mut buf: Vec<char> = Vec::new();
    let ghost l = sels_view(list@);
    proof {
        lemma_sels_view(list@);
    }
    let mut i: usize = 0;
    while i < list.len()
        invariant
            i <= list@.len(),
            l == sels_view(list@),
            l.len() == list@.len(),
            forall|k: int| 0 <= k < list@.len() ==> #[trigger] l[k] == list@[k]@,
            buf@ == ser_list(l.take(i as int)),
        decreases list@.len() - i,
    {
        let ghost before = buf@;
        if i > 0 {
            buf.push(',');
            buf.push(' ');
        }
        serialize_selector_into(&list[i], &mut buf);
        proof {
            assert(l.take(i + 1).drop_last() =~= l.take(i as int));
            if i == 0 {
                assert(buf@ =~= ser_list(l.take(i + 1)));
            } else {
                assert(buf@ =~= ser_list(l.take(i + 1)));
            }
        }
        i += 1;
    }
    assert(l.take(list@.len() as int) =~= l);
    crate::text::string_from_chars(&buf)
}

fn serialize_selector_into(sel: &SelectorAst, out: &mut Vec<char>)
    ensures
        final(out)@ == old(out)@ + ser_sel(sel@),
    decreases sel,
{
    let ghost v = sel@;
    proof {
        lemma_nodes_view(sel.nodes@);
    }
    let mut k: usize = 0;
    while k < sel.nodes.len()
        invariant
            k <= sel.nodes@.len(),
            v == sel@,
            v.len() == sel.nodes@.len(),
            forall|j: int| 0 <= j < sel.nodes@.len() ==> #[trigger] v[j] == sel.nodes@[j]@,
            out@ == old(out)@ + ser_sel(v.take(k as int)),
        decreases sel.nodes@.len() - k,
    {
        let ghost before = out@;
        let node = &sel.nodes[k];
        match node {
            SelAstNode::Tag(s) => push_str(out, s),
            SelAstNode::Class(s) => {
                out.push('.');
                push_str(out, s);
            },
            SelAstNode::Id(s) => {
                out.push('#');
                push_str(out, s);
            },
            SelAstNode::Attribute(s) => push_str(out, s),
            SelAstNode::Pseudo { value, args, nodes } => {
                push_str(out, value);
                if nodes.len() > 0 {
                    out.push('(');
                    let ghost l = sels_view(nodes@);
                    proof {
                        lemma_sels_view(nodes@);
                    }
                    let ghost mid = out@;
                    proof {
                        assert(decreases_to!(*sel => sel.nodes));
                        assert(decreases_to!(sel.nodes => sel.nodes@));
                        assert(decreases_to!(sel.nodes@ => sel.nodes@[k as int]));
                        assert(decreases_to!(*node => nodes));
                        assert(decreases_to!(nodes => nodes@));
                        assert forall|j: int| 0 <= j < nodes@.len() implies decreases_to!(*sel => #[trigger] nodes@[j]) by {
                            assert(decreases_to!(nodes@ => nodes@[j]));
                        }
                    }
                    let mut m: usize = 0;
                    while m < nodes.len()
                        invariant
                            m <= nodes@.len(),
                            l == sels_view(nodes@),
                            l.len() == nodes@.len(),
                            forall|j: int| 0 <= j < nodes@.len() ==> #[trigger] l[j] == nodes@[j]@,
                            out@ == mid + ser_list(l.take(m as int)),
                            forall|j: int| 0 <= j < nodes@.len() ==> decreases_to!(*sel => #[trigger] nodes@[j]),
                        decreases nodes@.len() - m,
                    {
                        if m > 0 {
                            out.push(',');
                            out.push(' ');
                        }
                        serialize_selector_into(&nodes[m], out);
                        proof {
                            assert(l.take(m + 1).drop_last() =~= l.take(m as int));
                            assert(out@ =~= mid + ser_list(l.take(m + 1)));
                        }
                        m += 1;
                    }
                    assert(l.take(nodes@.len() as int) =~= l);
                    out.push(')');
                } else {
                    push_str(out, args);
                }
            },
            SelAstNode::Combinator(c) => push_str(out, c),
            SelAstNode::Universal => out.push('*'),
            SelAstNode::Nesting => out.push('&'),
        }
        assert(out@ =~= before + ser_node(v[k as int]));
        proof {
            assert(v.take(k + 1).drop_last() =~= v.take(k as int));
            assert(out@ =~= old(out)@ + ser_sel(v.take(k + 1)));
        }
        k += 1;
    }
    assert(v.take(sel.nodes@.len() as int) =~= v);
}

/// Append the characters of `s` to `out`.
pub fn push_str(out: &mut Vec<char>, s: &String)
    ensures
        final(out)@ == old(out)@ + s@,
{
    let cs = crate::text::chars_of(s.as_str());
    let mut i: usize = 0;
    while i < cs.len()
        invariant
            i <= cs@.len(),
            cs@ == s@,
            out@ == old(out)@ + cs@.take(i as int),
        decreases cs@.len() - i,
    {
        out.push(cs[i]);
        i += 1;
        assert(out@ =~= old(out)@ + cs@.take(i as int));
    }
    assert(cs@.take(cs@.len() as int) =~= cs@);
}


/// A character of a CSS identifier: an ASCII letter or digit, `-`, `_`,
/// or any non-ASCII character.
pub open spec fn ident_char(c: char) -> bool {
    ascii_alnum(c) || c == '-' || c == '_' || c >= '\u{80}'
}

pub open spec fn is_comb_sym(c: char) -> bool {
    c == '>' || c == '+' || c == '~'
}

/// The end of an identifier that may hold `\`-escapes, read from `j`.
pub open spec fn ident_end(s: Seq<char>, j: int) -> int
    decreases s.len() - j,
{
    if 0 <= j < s.len() {
        if s[j] == '\\' && j + 1 < s.len() {
            ident_end(s, j + 2)
        } else if ident_char(s[j]) {
            ident_end(s, j + 1)
        } else {
            j
        }
    } else {
        j
    }
}

/// The end of a pseudo-class or pseudo-element name read from `p`:
/// identifier characters and backslashes, a backslash taking the next
/// character with it.
pub open spec fn pname_end(s: Seq<char>, p: int) -> int
    decreases s.len() - p,
{
    if 0 <= p < s.len() && (ident_char(s[p]) || s[p] == '\\') {
        if s[p] == '\\' && p + 1 < s.len() {
            pname_end(s, p + 2)
        } else {
            pname_end(s, p + 1)
        }
    } else {
        p
    }
}

/// Scan a bracketed run from `j` with `depth` open brackets and the
/// quote `q` open (if any): backslash escapes skip a character, quoted
/// strings are skipped, `open` characters nest and `close` characters
/// unnest; the scan stops once the depth reaches zero or the input ends.
pub open spec fn bracket_end(s: Seq<char>, j: int, depth: int, q: Option<char>, parens: bool) -> int
    decreases s.len() - j,
{
    if j < 0 || j >= s.len() {
        j
    } else if q is Some {
        if s[j] == q->0 {
            bracket_end(s, j + 1, depth, None, parens)
        } else if s[j] == '\\' && j + 1 < s.len() {
            bracket_end(s, j + 2, depth, q, parens)
        } else {
            bracket_end(s, j + 1, depth, q, parens)
        }
    } else if depth <= 0 {
        j
    } else {
        let c = s[j];
        if c == '\\' && j + 1 < s.len() {
            bracket_end(s, j + 2, depth, q, parens)
        } else if c == '[' || (parens && c == '(') {
            bracket_end(s, j + 1, depth + 1, q, parens)
        } else if c == ']' || (parens && c == ')') {
            bracket_end(s, j + 1, depth - 1, q, parens)
        } else if c == '"' || c == '\'' {
            bracket_end(s, j + 1, depth, Some(c), parens)
        } else {
            bracket_end(s, j + 1, depth, q, parens)
        }
    }
}

/// The end of a whitespace run starting at `i`.
pub open spec fn ws_end(s: Seq<char>, i: int) -> int
    decreases s.len() - i,
{
    if 0 <= i < s.len() && ascii_ws(s[i]) {
        ws_end(s, i + 1)
    } else {
        i
    }
}

/// The end of a combinator starting at `i`: whitespace, an optional
/// `>`/`+`/`~`, and the whitespace after it.
pub open spec fn comb_end(s: Seq<char>, i: int) -> int {
    let a = ws_end(s, i);
    if a < s.len() && is_comb_sym(s[a]) {
        ws_end(s, a + 1)
    } else {
        a
    }
}

/// `name` is `is`, `where`, `has` or `not`, ignoring ASCII case.
pub open spec fn is_logical_name(n: Seq<char>) -> bool {
    ||| (n.len() == 2 && (n[0] == 'i' || n[0] == 'I') && (n[1] == 's' || n[1] == 'S'))
    ||| (n.len() == 5 && (n[0] == 'w' || n[0] == 'W') && (n[1] == 'h' || n[1] == 'H') && (n[2]
        == 'e' || n[2] == 'E') && (n[3] == 'r' || n[3] == 'R') && (n[4] == 'e' || n[4] == 'E'))
    ||| (n.len() == 3 && (n[0] == 'h' || n[0] == 'H') && (n[1] == 'a' || n[1] == 'A') && (n[2]
        == 's' || n[2] == 'S'))
    ||| (n.len() == 3 && (n[0] == 'n' || n[0] == 'N') && (n[1] == 'o' || n[1] == 'O') && (n[2]
        == 't' || n[2] == 'T'))
}

/// The piece boundaries of a selector list split at top-level commas
/// (not inside parentheses, brackets or quoted strings).
pub open spec fn split_scan(
    s: Seq<char>,
    i: int,
    start: int,
    dp: int,
    db: int,
    q: Option<char>,
) -> Seq<(int, int)>
    decreases s.len() - i,
{
    if i < 0 || i >= s.len() {
        seq![(start, s.len() as int)]
    } else if q is Some {
        if s[i] == q->0 {
            split_scan(s, i + 1, start, dp, db, None)
        } else if s[i] == '\\' && i + 1 < s.len() {
            split_scan(s, i + 2, start, dp, db, q)
        } else {
            split_scan(s, i + 1, start, dp, db, q)
        }
    } else {
        let c = s[i];
        if c == '\\' && i + 1 < s.len() {
            split_scan(s, i + 2, start, dp, db, q)
        } else if c == '(' {
            split_scan(s, i + 1, start, dp + 1, db, q)
        } else if c == ')' {
            split_scan(s, i + 1, start, dp - 1, db, q)
        } else if c == '[' {
            split_scan(s, i + 1, start, dp, db + 1, q)
        } else if c == ']' {
            split_scan(s, i + 1, start, dp, db - 1, q)
        } else if c == '"' || c == '\'' {
            split_scan(s, i + 1, start, dp, db, Some(c))
        } else if c == ',' && dp == 0 && db == 0 {
            seq![(start, i)] + split_scan(s, i + 1, i + 1, dp, db, q)
        } else {
            split_scan(s, i + 1, start, dp, db, q)
        }
    }
}

pub open spec fn split_commas(s: Seq<char>) -> Seq<(int, int)> {
    split_scan(s, 0, 0, 0, 0, None)
}

/// The trimmed text of a piece.
pub open spec fn piece_text(s: Seq<char>, a: int, b: int) -> Seq<char> {
    if 0 <= a <= b <= s.len() {
        trim_spec(s.subrange(a, b))
    } else {
        Seq::empty()
    }
}

/// The parsed selector list of `s`: each top-level comma piece, trimmed
/// and parsed as one selector.
pub open spec fn parse_list(s: Seq<char>) -> Seq<Seq<SelNode>>
    decreases s.len(), 2int, 0int,
{
    parse_pieces(s, split_commas(s), 0)
}

pub open spec fn parse_pieces(s: Seq<char>, ps: Seq<(int, int)>, k: int) -> Seq<Seq<SelNode>>
    decreases s.len(), 1int, ps.len() - k,
{
    if k < 0 || k >= ps.len() {
        Seq::empty()
    } else {
        let piece = piece_text(s, ps[k].0, ps[k].1);
        let sel = if piece.len() <= s.len() {
            parse_from(piece, 0)
        } else {
            Seq::empty()
        };
        seq![sel] + parse_pieces(s, ps, k + 1)
    }
}

proof fn lemma_split_scan_nonempty(s: Seq<char>, i: int, start: int, dp: int, db: int, q: Option<char>)
    ensures
        split_scan(s, i, start, dp, db, q).len() >= 1,
    decreases s.len() - i,
{
    if !(i < 0 || i >= s.len()) {
        if q is Some {
            if s[i] == q->0 {
                lemma_split_scan_nonempty(s, i + 1, start, dp, db, None);
            } else if s[i] == '\\' && i + 1 < s.len() {
                lemma_split_scan_nonempty(s, i + 2, start, dp, db, q);
            } else {
                lemma_split_scan_nonempty(s, i + 1, start, dp, db, q);
            }
        } else {
            let c = s[i];
            if c == '\\' && i + 1 < s.len() {
                lemma_split_scan_nonempty(s, i + 2, start, dp, db, q);
            } else if c == '(' {
                lemma_split_scan_nonempty(s, i + 1, start, dp + 1, db, q);
            } else if c == ')' {
                lemma_split_scan_nonempty(s, i + 1, start, dp - 1, db, q);
            } else if c == '[' {
                lemma_split_scan_nonempty(s, i + 1, start, dp, db + 1, q);
            } else if c == ']' {
                lemma_split_scan_nonempty(s, i + 1, start, dp, db - 1, q);
            } else if c == '"' || c == '\'' {
                lemma_split_scan_nonempty(s, i + 1, start, dp, db, Some(c));
            } else if c == ',' && dp == 0 && db == 0 {
                lemma_split_scan_nonempty(s, i + 1, i + 1, dp, db, q);
            } else {
                lemma_split_scan_nonempty(s, i + 1, start, dp, db, q);
            }
        }
    }
}

proof fn lemma_parse_pieces(s: Seq<char>, ps: Seq<(int, int)>, k: int)
    requires
        0 <= k <= ps.len(),
    ensures
        parse_pieces(s, ps, k).len() == ps.len() - k,
        forall|m: int| k <= m < ps.len() ==> #[trigger] parse_pieces(s, ps, k)[m - k] == (if piece_text(s, ps[m].0, ps[m].1).len() <= s.len() {
            parse_from(piece_text(s, ps[m].0, ps[m].1), 0)
        } else {
            Seq::empty()
        }),
    decreases ps.len() - k,
{
    if k < ps.len() {
        lemma_parse_pieces(s, ps, k + 1);
        assert forall|m: int| k <= m < ps.len() implies #[trigger] parse_pieces(s, ps, k)[m - k] == (if piece_text(s, ps[m].0, ps[m].1).len() <= s.len() {
            parse_from(piece_text(s, ps[m].0, ps[m].1), 0)
        } else {
            Seq::empty()
        }) by {
            if m > k {
                assert(parse_pieces(s, ps, k)[m - k] == parse_pieces(s, ps, k + 1)[m - (k + 1)]);
            }
        }
    }
}

/// A selector list parses into one selector per top-level comma piece
/// (at least one), the `k`-th being the parse of the `k`-th piece,
/// trimmed.
pub proof fn law_one_selector_per_piece(s: Seq<char>)
    ensures
        parse_list(s).len() == split_commas(s).len(),
        parse_list(s).len() >= 1,
        forall|k: int| 0 <= k < parse_list(s).len() ==> #[trigger] parse_list(s)[k] == (if piece_text(
            s,
            split_commas(s)[k].0,
            split_commas(s)[k].1,
        ).len() <= s.len() {
            parse_from(piece_text(s, split_commas(s)[k].0, split_commas(s)[k].1), 0)
        } else {
            Seq::empty()
        }),
{
    lemma_split_scan_nonempty(s, 0, 0, 0, 0, None);
    lemma_parse_pieces(s, split_commas(s), 0);
    assert forall|k: int| 0 <= k < parse_list(s).len() implies #[trigger] parse_list(s)[k] == (if piece_text(
        s,
        split_commas(s)[k].0,
        split_commas(s)[k].1,
    ).len() <= s.len() {
        parse_from(piece_text(s, split_commas(s)[k].0, split_commas(s)[k].1), 0)
    } else {
        Seq::empty()
    }) by {
        assert(parse_pieces(s, split_commas(s), 0)[k - 0] == parse_list(s)[k]);
    }
}

/// The argument text inside a pseudo's parentheses: from after `(` at
/// `p` to before the character that ended the scan at `q`.
pub open spec fn inner_args(s: Seq<char>, p: int, q: int) -> Seq<char> {
    if p + 1 <= q - 1 && q - 1 <= s.len() {
        s.subrange(p + 1, q - 1)
    } else {
        Seq::empty()
    }
}

/// The nodes of one selector, parsed from position `i` on.
pub open spec fn parse_from(s: Seq<char>, i: int) -> Seq<SelNode>
    decreases s.len(), 0int, s.len() - i,
{
    if i < 0 || i >= s.len() {
        Seq::empty()
    } else {
        let b = s[i];
        if ascii_ws(b) || is_comb_sym(b) {
            let j = comb_end(s, i);
            if j >= s.len() || j <= i {
                Seq::empty()
            } else {
                seq![SelNode::Combinator(s.subrange(i, j))] + parse_from(s, j)
            }
        } else if b == '.' || b == '#' {
            let j = ident_end(s, i + 1);
            if j <= i || j > s.len() {
                Seq::empty()
            } else {
                let name = s.subrange(i + 1, j);
                let node = if b == '.' {
                    SelNode::Class(name)
                } else {
                    SelNode::Id(name)
                };
                seq![node] + parse_from(s, j)
            }
        } else if b == '[' {
            let j = bracket_end(s, i + 1, 1, None, false);
            if j <= i || j > s.len() {
                Seq::empty()
            } else {
                seq![SelNode::Attribute(s.subrange(i, j))] + parse_from(s, j)
            }
        } else if b == ':' {
            let p0 = if i + 1 < s.len() && s[i + 1] == ':' {
                i + 2
            } else {
                i + 1
            };
            let p = pname_end(s, p0);
            if p <= i || p > s.len() {
                Seq::empty()
            } else {
                let value = s.subrange(i, p);
                if p < s.len() && s[p] == '(' {
                    let q = bracket_end(s, p + 1, 1, None, true);
                    if q <= p || q > s.len() {
                        Seq::empty()
                    } else {
                        let inner = inner_args(s, p, q);
                        let node = if is_logical_name(s.subrange(p0, p)) {
                            SelNode::Pseudo {
                                value,
                                args: Seq::empty(),
                                nodes: if inner.len() < s.len() {
                                    parse_list(inner)
                                } else {
                                    Seq::empty()
                                },
                            }
                        } else {
                            SelNode::Pseudo { value, args: s.subrange(p, q), nodes: Seq::empty() }
                        };
                        seq![node] + parse_from(s, q)
                    }
                } else {
                    seq![SelNode::Pseudo { value, args: Seq::empty(), nodes: Seq::empty() }]
                        + parse_from(s, p)
                }
            }
        } else if b == '*' {
            seq![SelNode::Universal] + parse_from(s, i + 1)
        } else if b == '&' {
            seq![SelNode::Nesting] + parse_from(s, i + 1)
        } else if (ident_char(b) || b == '\\') && i < ident_end(s, i) <= s.len() {
            let j = ident_end(s, i);
            seq![SelNode::Tag(s.subrange(i, j))] + parse_from(s, j)
        } else {
            seq![SelNode::Tag(s.subrange(i, i + 1))] + parse_from(s, i + 1)
        }
    }
}

/// Parse a comma-separated selector list.
pub fn parse_selector_list(input: &str) -> (out: Vec<SelectorAst>)
    ensures
        sels_view(out@) == parse_list(input@),
{
    let chars = chars_of(input);
    parse_list_chars(&chars)
}

fn parse_list_chars(s: &Vec<char>) -> (out: Vec<SelectorAst>)
    ensures
        sels_view(out@) == parse_list(s@),
    decreases s@.len(), 2int,
{
    let ps = split_top_level_commas(s);
    let ghost sp = split_commas(s@);
    let mut out: Vec<SelectorAst> = Vec::new();
    let mut k: usize = 0;
    while k < ps.len()
        invariant
            k <= ps@.len() == sp.len(),
            sp == split_commas(s@),
            forall|m: int|
                0 <= m < ps@.len() ==> #[trigger] sp[m] == (ps@[m].0 as int, ps@[m].1 as int),
            forall|m: int| 0 <= m < ps@.len() ==> (#[trigger] ps@[m]).0 <= ps@[m].1 <= s@.len(),
            sels_view(out@) + parse_pieces(s@, sp, k as int) == parse_list(s@),
        decreases ps@.len() - k,
    {
        let (a, b) = ps[k];
        let raw = sub_chars(s, a, b);
        let piece = trim_chars(&raw);
        proof {
            lemma_trim_len(raw@);
        }
        let sel = parse_one_selector(&piece);
        let ghost before = out@;
        out.push(sel);
        proof {
            assert(out@.drop_last() =~= before);
            assert(sels_view(before) + parse_pieces(s@, sp, k as int) =~= sels_view(out@)
                + parse_pieces(s@, sp, k + 1));
        }
        k += 1;
    }
    assert(sels_view(out@) =~= sels_view(out@) + parse_pieces(s@, sp, k as int));
    out
}

pub open spec fn is_comma_free_pair(p: (usize, usize)) -> (int, int) {
    (p.0 as int, p.1 as int)
}

/// Split a selector list on top-level commas (not inside `(`, `[`, or
/// quoted strings), returning the piece boundaries.
fn split_top_level_commas(s: &Vec<char>) -> (out: Vec<(usize, usize)>)
    ensures
        out@.len() == split_commas(s@).len(),
        forall|m: int|
            0 <= m < out@.len() ==> #[trigger] split_commas(s@)[m] == (
                out@[m].0 as int,
                out@[m].1 as int,
            ),
        forall|m: int| 0 <= m < out@.len() ==> (#[trigger] out@[m]).0 <= out@[m].1 <= s@.len(),
{
    let len = s.len();
    let mut out: Vec<(usize, usize)> = Vec::new();
    let mut start: usize = 0;
    let mut opens_p: usize = 0;
    let mut closes_p: usize = 0;
    let mut opens_b: usize = 0;
    let mut closes_b: usize = 0;
    let mut q: Option<char> = None;
    let mut i: usize = 0;
    let ghost whole = split_commas(s@);
    while i < len
        invariant
            len == s@.len(),
            i <= len,
            start <= i,
            opens_p <= i && closes_p <= i && opens_b <= i && closes_b <= i,
            whole == split_commas(s@),
            forall|m: int| 0 <= m < out@.len() ==> (#[trigger] out@[m]).0 <= out@[m].1 <= s@.len(),
            out@.map_values(|p: (usize, usize)| is_comma_free_pair(p)) + split_scan(
                s@,
                i as int,
                start as int,
                opens_p - closes_p,
                opens_b - closes_b,
                q,
            ) == whole,
        decreases len - i,
    {
        let ghost before = out@;
        let c = s[i];
        match q {
            Some(qc) => {
                if c == qc {
                    q = None;
                    i += 1;
                } else if c == '\\' && i + 1 < len {
                    i += 2;
                } else {
                    i += 1;
                }
                continue;
            },
            None => {},
        }
        if c == '\\' && i + 1 < len {
            i += 2;
        } else if c == '(' {
            opens_p += 1;
            i += 1;
        } else if c == ')' {
            closes_p += 1;
            i += 1;
        } else if c == '[' {
            opens_b += 1;
            i += 1;
        } else if c == ']' {
            closes_b += 1;
            i += 1;
        } else if c == '"' || c == '\'' {
            q = Some(c);
            i += 1;
        } else if c == ',' && opens_p == closes_p && opens_b == closes_b {
            let ghost m1 = before.map_values(|p: (usize, usize)| is_comma_free_pair(p));
            let ghost rest = split_scan(
                s@,
                i + 1,
                i + 1,
                opens_p - closes_p,
                opens_b - closes_b,
                q,
            );
            out.push((start, i));
            proof {
                assert(out@.map_values(|p: (usize, usize)| is_comma_free_pair(p)) =~= m1.push(
                    (start as int, i as int),
                ));
                assert(m1.push((start as int, i as int)) + rest =~= m1 + (seq![
                    (start as int, i as int),
                ] + rest));
            }
            start = i + 1;
            i += 1;
        } else {
            i += 1;
        }
    }
    let ghost before = out@;
    out.push((start, len));
    proof {
        let m1 = before.map_values(|p: (usize, usize)| is_comma_free_pair(p));
        assert(out@.map_values(|p: (usize, usize)| is_comma_free_pair(p)) =~= m1.push(
            (start as int, len as int),
        ));
        assert(out@.map_values(|p: (usize, usize)| is_comma_free_pair(p)) =~= whole);
    }
    out
}

proof fn lemma_ident_end(s: Seq<char>, j: int)
    requires
        0 <= j <= s.len(),
    ensures
        j <= ident_end(s, j) <= s.len(),
    decreases s.len() - j,
{
    if j < s.len() {
        if s[j] == '\\' && j + 1 < s.len() {
            lemma_ident_end(s, j + 2);
        } else if ident_char(s[j]) {
            lemma_ident_end(s, j + 1);
        }
    }
}

proof fn lemma_pname_end(s: Seq<char>, p: int)
    requires
        0 <= p <= s.len(),
    ensures
        p <= pname_end(s, p) <= s.len(),
    decreases s.len() - p,
{
    if p < s.len() && (ident_char(s[p]) || s[p] == '\\') {
        if s[p] == '\\' && p + 1 < s.len() {
            lemma_pname_end(s, p + 2);
        } else {
            lemma_pname_end(s, p + 1);
        }
    }
}

proof fn lemma_bracket_end(s: Seq<char>, j: int, depth: int, q: Option<char>, parens: bool)
    requires
        0 <= j <= s.len(),
    ensures
        j <= bracket_end(s, j, depth, q, parens) <= s.len(),
    decreases s.len() - j,
{
    if j < s.len() {
        if q is Some {
            if s[j] == q->0 {
                lemma_bracket_end(s, j + 1, depth, None, parens);
            } else if s[j] == '\\' && j + 1 < s.len() {
                lemma_bracket_end(s, j + 2, depth, q, parens);
            } else {
                lemma_bracket_end(s, j + 1, depth, q, parens);
            }
        } else if depth > 0 {
            let c = s[j];
            if c == '\\' && j + 1 < s.len() {
                lemma_bracket_end(s, j + 2, depth, q, parens);
            } else if c == '[' || (parens && c == '(') {
                lemma_bracket_end(s, j + 1, depth + 1, q, parens);
            } else if c == ']' || (parens && c == ')') {
                lemma_bracket_end(s, j + 1, depth - 1, q, parens);
            } else if c == '"' || c == '\'' {
                lemma_bracket_end(s, j + 1, depth, Some(c), parens);
            } else {
                lemma_bracket_end(s, j + 1, depth, q, parens);
            }
        }
    }
}

proof fn lemma_ws_end(s: Seq<char>, i: int)
    requires
        0 <= i <= s.len(),
    ensures
        i <= ws_end(s, i) <= s.len(),
    decreases s.len() - i,
{
    if i < s.len() && ascii_ws(s[i]) {
        lemma_ws_end(s, i + 1);
    }
}

fn read_ident_with_escapes(s: &Vec<char>, start: usize) -> (j: usize)
    requires
        start <= s@.len(),
    ensures
        j == ident_end(s@, start as int),
        start <= j <= s@.len(),
{
    let len = s.len();
    let mut j = start;
    while j < len && ((s[j] == '\\' && j + 1 < len) || is_ident_char(s[j]))
        invariant
            len == s@.len(),
            start <= j <= len,
            ident_end(s@, j as int) == ident_end(s@, start as int),
        decreases len - j,
    {
        if s[j] == '\\' && j + 1 < len {
            j += 2;
        } else {
            j += 1;
        }
    }
    j
}

fn read_pseudo_name(s: &Vec<char>, start: usize) -> (p: usize)
    requires
        start <= s@.len(),
    ensures
        p == pname_end(s@, start as int),
        start <= p <= s@.len(),
{
    let mut p = start;
    while p < s.len() && (is_ident_char(s[p]) || s[p] == '\\')
        invariant
            start <= p <= s@.len(),
            pname_end(s@, p as int) == pname_end(s@, start as int),
        decreases s@.len() - p,
    {
        if s[p] == '\\' && p + 1 < s.len() {
            p += 2;
        } else {
            p += 1;
        }
    }
    p
}

/// Scan a bracketed run that starts just after its opening bracket.
fn scan_brackets(s: &Vec<char>, start: usize, parens: bool) -> (j: usize)
    requires
        1 <= start <= s@.len(),
    ensures
        j == bracket_end(s@, start as int, 1, None, parens),
        start <= j <= s@.len(),
{
    let len = s.len();
    let mut j = start;
    let mut depth: usize = 1;
    let mut q: Option<char> = None;
    while j < len && (q.is_some() || depth > 0)
        invariant
            len == s@.len(),
            1 <= start <= j <= len,
            depth <= j - start + 1,
            bracket_end(s@, j as int, depth as int, q, parens) == bracket_end(
                s@,
                start as int,
                1,
                None,
                parens,
            ),
        decreases s@.len() - j,
    {
        let c = s[j];
        match q {
            Some(qc) => {
                if c == qc {
                    q = None;
                    j += 1;
                } else if c == '\\' && j + 1 < s.len() {
                    j += 2;
                } else {
                    j += 1;
                }
            },
            None => {
                if c == '\\' && j + 1 < s.len() {
                    j += 2;
                } else if c == '[' || (parens && c == '(') {
                    assert(depth < len);
                    depth += 1;
                    j += 1;
                } else if c == ']' || (parens && c == ')') {
                    depth -= 1;
                    j += 1;
                } else if c == '"' || c == '\'' {
                    q = Some(c);
                    j += 1;
                } else {
                    j += 1;
                }
            },
        }
    }
    j
}

fn skip_ws(s: &Vec<char>, start: usize) -> (i: usize)
    requires
        start <= s@.len(),
    ensures
        i == ws_end(s@, start as int),
        start <= i <= s@.len(),
{
    let mut i = start;
    while i < s.len() && is_ascii_ws(s[i])
        invariant
            start <= i <= s@.len(),
            ws_end(s@, i as int) == ws_end(s@, start as int),
        decreases s@.len() - i,
    {
        i += 1;
    }
    i
}

pub fn is_ident_char(c: char) -> (b: bool)
    ensures
        b == ident_char(c),
{
    is_ascii_alnum(c) || c == '-' || c == '_' || c >= '\u{80}'
}

fn ci(c: char, lower: char, upper: char) -> (b: bool)
    ensures
        b == (c == lower || c == upper),
{
    c == lower || c == upper
}

fn logical_name(s: &Vec<char>, a: usize, b: usize) -> (r: bool)
    requires
        a <= b <= s@.len(),
    ensures
        r == is_logical_name(s@.subrange(a as int, b as int)),
{
    let n = b - a;
    let ghost t = s@.subrange(a as int, b as int);
    assert(forall|k: int| 0 <= k < n ==> #[trigger] t[k] == s@[a + k]);
    if n == 2 {
        ci(s[a], 'i', 'I') && ci(s[a + 1], 's', 'S')
    } else if n == 5 {
        ci(s[a], 'w', 'W') && ci(s[a + 1], 'h', 'H') && ci(s[a + 2], 'e', 'E') && ci(
            s[a + 3],
            'r',
            'R',
        ) && ci(s[a + 4], 'e', 'E')
    } else if n == 3 {
        (ci(s[a], 'h', 'H') && ci(s[a + 1], 'a', 'A') && ci(s[a + 2], 's', 'S')) || (ci(
            s[a],
            'n',
            'N',
        ) && ci(s[a + 1], 'o', 'O') && ci(s[a + 2], 't', 'T'))
    } else {
        false
    }
}

fn parse_one_selector(s: &Vec<char>) -> (sel: SelectorAst)
    ensures
        sel@ == parse_from(s@, 0),
    decreases s@.len(), 1int,
{
    let len = s.len();
    let mut nodes: Vec<SelAstNode> = Vec::new();
    let mut i: usize = 0;
    while i < len
        invariant
            len == s@.len(),
            i <= len,
            nodes_view(nodes@) + parse_from(s@, i as int) == parse_from(s@, 0),
        decreases len - i,
    {
        let ghost before = nodes@;
        let ghost rest = parse_from(s@, i as int);
        let b = s[i];
        let mut node: Option<SelAstNode> = None;
        let mut next: usize = i + 1;
        if is_ascii_ws(b) || b == '>' || b == '+' || b == '~' {
            let a = skip_ws(s, i);
            let mut j = a;
            if a < len && (s[a] == '>' || s[a] == '+' || s[a] == '~') {
                j = skip_ws(s, a + 1);
            }
            proof {
                lemma_ws_end(s@, i as int);
                if i + 1 <= len {
                    lemma_ws_end(s@, i + 1);
                }
                assert(j == comb_end(s@, i as int));
            }
            if j >= len {
                next = len;
            } else {
                node = Some(SelAstNode::Combinator(string_from_range(s, i, j)));
                next = j;
                assert(rest == seq![node_view(node->0)] + parse_from(s@, next as int));
            }
        } else if b == '.' || b == '#' {
            let j = read_ident_with_escapes(s, i + 1);
            let name = string_from_range(s, i + 1, j);
            if b == '.' {
                node = Some(SelAstNode::Class(name));
            } else {
                node = Some(SelAstNode::Id(name));
            }
            next = j;
            assert(rest == seq![node_view(node->0)] + parse_from(s@, next as int));
        } else if b == '[' {
            let j = scan_brackets(s, i + 1, false);
            node = Some(SelAstNode::Attribute(string_from_range(s, i, j)));
            next = j;
            assert(rest == seq![node_view(node->0)] + parse_from(s@, next as int));
        } else if b == ':' {
            let p0 = if i + 1 < len && s[i + 1] == ':' {
                i + 2
            } else {
                i + 1
            };
            let p = read_pseudo_name(s, p0);
            let value = string_from_range(s, i, p);
            if p < len && s[p] == '(' {
                let q = scan_brackets(s, p + 1, true);
                if logical_name(s, p0, p) {
                    let sub_nodes = if p + 1 <= q - 1 {
                        let inner = sub_chars(s, p + 1, q - 1);
                        parse_list_chars(&inner)
                    } else {
                        let empty: Vec<char> = Vec::new();
                        assert(empty@ =~= Seq::<char>::empty());
                        parse_list_chars(&empty)
                    };
                    proof {
                        if !(p + 1 <= q - 1) {
                            assert(split_commas(Seq::<char>::empty()) =~= seq![(0int, 0int)]);
                        }
                    }
                    node = Some(
                        SelAstNode::Pseudo { value, args: String::new(), nodes: sub_nodes },
                    );
                } else {
                    node = Some(
                        SelAstNode::Pseudo {
                            value,
                            args: string_from_range(s, p, q),
                            nodes: Vec::new(),
                        },
                    );
                }
                next = q;
                assert(rest == seq![node_view(node->0)] + parse_from(s@, next as int));
            } else {
                node = Some(
                    SelAstNode::Pseudo { value, args: String::new(), nodes: Vec::new() },
                );
                next = p;
                assert(rest == seq![node_view(node->0)] + parse_from(s@, next as int));
            }
        } else if b == '*' {
            node = Some(SelAstNode::Universal);
        } else if b == '&' {
            node = Some(SelAstNode::Nesting);
        } else if is_ident_char(b) || b == '\\' {
            let j = read_ident_with_escapes(s, i);
            if j > i {
                node = Some(SelAstNode::Tag(string_from_range(s, i, j)));
                next = j;
            } else {
                node = Some(SelAstNode::Tag(string_from_range(s, i, i + 1)));
            }
        } else {
            node = Some(SelAstNode::Tag(string_from_range(s, i, i + 1)));
        }
        match node {
            Some(n) => {
                nodes.push(n);
                proof {
                    assert(nodes@.drop_last() =~= before);
                    assert(rest == seq![node_view(n)] + parse_from(s@, next as int));
                    assert(nodes_view(before) + rest =~= nodes_view(nodes@) + parse_from(
                        s@,
                        next as int,
                    ));
                }
            },
            None => {
                assert(rest == parse_from(s@, next as int));
            },
        }
        i = next;
    }
    assert(nodes_view(nodes@) =~= nodes_view(nodes@) + parse_from(s@, i as int));
    SelectorAst { nodes }
}

/// Pseudo-element-like: either `::*` or one of the legacy single-colon
/// pseudo-elements and opaque grouping pseudos.
pub open spec fn is_pseudo_element_like(v: Seq<char>) -> bool {
    ||| (v.len() >= 2 && v[0] == ':' && v[1] == ':')
    ||| v == ":after"@
    ||| v == ":before"@
    ||| v == ":first-letter"@
    ||| v == ":first-line"@
    ||| v == ":is"@
    ||| v == ":where"@
    ||| v == ":has"@
}

/// Pseudo-elements that get hoisted to the end of the selector.
pub open spec fn is_movable_pseudo_element(v: Seq<char>) -> bool {
    &&& is_pseudo_element_like(v)
    &&& !(v == ":is"@ || v == ":where"@ || v == ":has"@ || v == "::deep"@ || v == "::v-deep"@
        || v == "::ng-deep"@)
}

/// Pseudo-elements that survive a combinator boundary in the move buffer.
pub open spec fn is_jumpable(v: Seq<char>) -> bool {
    ||| v == "::after"@
    ||| v == "::backdrop"@
    ||| v == "::before"@
    ||| v == "::first-letter"@
    ||| v == "::first-line"@
    ||| v == "::marker"@
    ||| v == "::placeholder"@
    ||| v == "::selection"@
    ||| v == ":after"@
    ||| v == ":before"@
    ||| v == ":first-letter"@
    ||| v == ":first-line"@
}

/// Pseudo-elements that let user-action pseudo-classes attach to them.
pub open spec fn is_actionable_pseudo_element(v: Seq<char>) -> bool {
    &&& is_pseudo_element_like(v)
    &&& !(v == "::after"@ || v == "::before"@ || v == "::backdrop"@ || v == "::first-letter"@ || v
        == "::first-line"@ || v == "::marker"@ || v == "::placeholder"@ || v == "::selection"@)
    &&& !(v == ":after"@ || v == ":before"@ || v == ":first-letter"@ || v == ":first-line"@)
    &&& !(v == "::cue"@ || v == "::cue-region"@ || v == "::grammar-error"@ || v == "::slotted"@
        || v == "::spelling-error"@ || v == "::target-text"@)
    &&& !(v == ":is"@ || v == ":where"@ || v == ":has"@)
}

/// A pseudo-class attaches to a preceding actionable pseudo-element.
pub open spec fn is_attachable_pseudo_class(node_value: Seq<char>, last_seen: Seq<char>) -> bool {
    !is_pseudo_element_like(node_value) && is_actionable_pseudo_element(last_seen)
}

/// Whether a combinator follows position `i` of the selector.
pub open spec fn comb_after(full: Seq<SelNode>, i: int) -> bool {
    exists|j: int| i < j < full.len() && (#[trigger] full[j]) is Combinator
}

/// The state of the pseudo-moving walk: the kept nodes, the buffer of
/// nodes bound for the end of the outermost selector, and the last movable
/// pseudo-element seen.
pub type MoveState = (Seq<SelNode>, Seq<SelNode>, Option<Seq<char>>);

/// The walk over the first `n` nodes of one selector; `outer` says
/// whether a combinator follows the selector in an enclosing one.
pub open spec fn collect_prefix(full: Seq<SelNode>, n: int, outer: bool) -> MoveState
    decreases full, n,
{
    if n <= 0 || n > full.len() {
        (Seq::empty(), Seq::empty(), None)
    } else {
        collect_step(
            collect_prefix(full, n - 1, outer),
            full[n - 1],
            outer || comb_after(full, n - 1),
        )
    }
}

/// One step of the walk. A movable pseudo-element, or a pseudo-class
/// attached to one, goes to the buffer unless a combinator follows it
/// (here or in an enclosing selector) and it cannot jump combinators; then
/// it stays where it is.
pub open spec fn collect_step(st: MoveState, node: SelNode, blocked: bool) -> MoveState
    decreases node, 0int,
{
    match node {
        SelNode::Combinator(c) => (st.0.push(node), st.1, None),
        SelNode::Pseudo { value, args, nodes } => {
            let movable = is_movable_pseudo_element(value);
            let attachable = !movable && st.2 is Some && is_attachable_pseudo_class(
                value,
                st.2->0,
            );
            let ls = if movable {
                Some(value)
            } else if !attachable {
                None
            } else {
                st.2
            };
            let subs = collect_subs(nodes, ls, blocked);
            let pn = SelNode::Pseudo { value, args, nodes: subs.0 };
            if (movable || attachable) && (is_jumpable(value) || !blocked) {
                (st.0, (st.1 + subs.1).push(pn), subs.2)
            } else {
                (st.0.push(pn), st.1 + subs.1, subs.2)
            }
        },
        _ => (st.0.push(node), st.1, None),
    }
}

/// The walk over the selectors nested in a pseudo: each is cleaned, their
/// buffers are concatenated, and a nested last-seen pseudo-element wins.
pub open spec fn collect_subs(subs: Seq<Seq<SelNode>>, ls: Option<Seq<char>>, outer: bool) -> (
    Seq<Seq<SelNode>>,
    Seq<SelNode>,
    Option<Seq<char>>,
)
    decreases subs, 0int,
{
    if subs.len() == 0 {
        (Seq::empty(), Seq::empty(), ls)
    } else {
        let prev = collect_subs(subs.drop_last(), ls, outer);
        let r = collect_prefix(subs.last(), subs.last().len() as int, outer);
        (prev.0.push(r.0), prev.1 + r.1, if r.2 is Some { r.2 } else { prev.2 })
    }
}

/// The selector with its movable pseudos (and the pseudo-classes attached
/// to them) moved to the end; those that a later combinator would cut off
/// and that cannot jump combinators stay in place.
pub open spec fn move_pseudos_spec(ns: Seq<SelNode>) -> Seq<SelNode> {
    let r = collect_prefix(ns, ns.len() as int, false);
    r.0 + r.1
}

/// No node of the selector carries a parsed selector list (the argument
/// of `:is`, `:where`, `:has` or `:not`).
pub open spec fn no_nested_lists(ns: Seq<SelNode>) -> bool {
    forall|k: int|
        0 <= k < ns.len() ==> ((#[trigger] ns[k]) matches SelNode::Pseudo { nodes, .. } ==> nodes.len()
            == 0)
}

/// The text does not end in whitespace or a combinator symbol.
pub open spec fn ends_cleanly(t: Seq<char>) -> bool {
    t.len() == 0 || (!ascii_ws(t.last()) && !is_comb_sym(t.last()))
}

proof fn lemma_ser_cons(n: SelNode, rest: Seq<SelNode>)
    ensures
        ser_sel(seq![n] + rest) == ser_node(n) + ser_sel(rest),
    decreases rest.len(),
{
    let w = seq![n] + rest;
    if rest.len() == 0 {
        assert(w =~= seq![n]);
        assert(w.drop_last() =~= Seq::<SelNode>::empty());
        assert(w.last() == n);
        assert(ser_sel(Seq::<SelNode>::empty()) == Seq::<char>::empty());
        assert(ser_sel(rest) == Seq::<char>::empty());
        assert(Seq::<char>::empty() + ser_node(n) =~= ser_node(n) + Seq::<char>::empty());
    } else {
        lemma_ser_cons(n, rest.drop_last());
        assert(w.drop_last() =~= seq![n] + rest.drop_last());
        assert(w.last() == rest.last());
        assert(ser_node(n) + ser_sel(rest) =~= ser_node(n) + ser_sel(rest.drop_last()) + ser_node(
            rest.last(),
        ));
    }
}

proof fn lemma_ws_run_to_end(t: Seq<char>, i: int)
    requires
        0 <= i < t.len(),
        ws_end(t, i) == t.len(),
    ensures
        ascii_ws(t.last()),
    decreases t.len() - i,
{
    if i + 1 < t.len() {
        if ascii_ws(t[i]) {
            lemma_ws_run_to_end(t, i + 1);
        }
    }
}

proof fn lemma_comb_inside(t: Seq<char>, i: int)
    requires
        0 <= i < t.len(),
        ends_cleanly(t),
        ascii_ws(t[i]) || is_comb_sym(t[i]),
    ensures
        i < comb_end(t, i) < t.len(),
{
    lemma_ws_end(t, i);
    if ascii_ws(t[i]) {
        lemma_ws_end(t, i + 1);
    }
    let a = ws_end(t, i);
    if a == t.len() {
        lemma_ws_run_to_end(t, i);
    }
    if a < t.len() && is_comb_sym(t[a]) {
        assert(a + 1 < t.len());
        lemma_ws_end(t, a + 1);
        if ws_end(t, a + 1) == t.len() {
            lemma_ws_run_to_end(t, a + 1);
        }
    }
}

/// The first node parsed at `i` and where the parse goes on.
proof fn lemma_first_node(t: Seq<char>, i: int) -> (j: int)
    requires
        0 <= i < t.len(),
        ends_cleanly(t),
    ensures
        i < j <= t.len(),
        parse_from(t, i).len() > 0,
        parse_from(t, i) == seq![parse_from(t, i)[0]] + parse_from(t, j),
        (parse_from(t, i)[0] matches SelNode::Pseudo { nodes, .. } ==> nodes.len() == 0) ==> ser_node(
            parse_from(t, i)[0],
        ) == t.subrange(i, j),
{
    let b = t[i];
    if ascii_ws(b) || is_comb_sym(b) {
        lemma_comb_inside(t, i);
        let j = comb_end(t, i);
        assert(parse_from(t, i)[0] == SelNode::Combinator(t.subrange(i, j)));
        j
    } else if b == '.' || b == '#' {
        lemma_ident_end(t, i + 1);
        let j = ident_end(t, i + 1);
        assert(seq![b] + t.subrange(i + 1, j) =~= t.subrange(i, j));
        if b == '.' {
            assert(parse_from(t, i)[0] == SelNode::Class(t.subrange(i + 1, j)));
        } else {
            assert(parse_from(t, i)[0] == SelNode::Id(t.subrange(i + 1, j)));
        }
        j
    } else if b == '[' {
        lemma_bracket_end(t, i + 1, 1, None, false);
        let j = bracket_end(t, i + 1, 1, None, false);
        assert(parse_from(t, i)[0] == SelNode::Attribute(t.subrange(i, j)));
        j
    } else if b == ':' {
        let p0 = if i + 1 < t.len() && t[i + 1] == ':' {
            i + 2
        } else {
            i + 1
        };
        lemma_pname_end(t, p0);
        let p = pname_end(t, p0);
        if p < t.len() && t[p] == '(' {
            lemma_bracket_end(t, p + 1, 1, None, true);
            let q = bracket_end(t, p + 1, 1, None, true);
            let inner = inner_args(t, p, q);
            if is_logical_name(t.subrange(p0, p)) {
                assert(inner.len() < t.len());
                lemma_split_scan_nonempty(inner, 0, 0, 0, 0, None);
                lemma_parse_pieces(inner, split_commas(inner), 0);
                assert(parse_list(inner).len() > 0);
                assert(parse_from(t, i)[0] == SelNode::Pseudo {
                    value: t.subrange(i, p),
                    args: Seq::empty(),
                    nodes: parse_list(inner),
                });
            } else {
                assert(parse_from(t, i)[0] == SelNode::Pseudo {
                    value: t.subrange(i, p),
                    args: t.subrange(p, q),
                    nodes: Seq::empty(),
                });
                assert(t.subrange(i, p) + t.subrange(p, q) =~= t.subrange(i, q));
            }
            q
        } else {
            assert(parse_from(t, i)[0] == SelNode::Pseudo {
                value: t.subrange(i, p),
                args: Seq::empty(),
                nodes: Seq::empty(),
            });
            assert(t.subrange(i, p) + Seq::<char>::empty() =~= t.subrange(i, p));
            p
        }
    } else if b == '*' || b == '&' {
        assert(t.subrange(i, i + 1) =~= seq![b]);
        if b == '*' {
            assert(parse_from(t, i)[0] == SelNode::Universal);
        } else {
            assert(parse_from(t, i)[0] == SelNode::Nesting);
        }
        i + 1
    } else if (ident_char(b) || b == '\\') && i < ident_end(t, i) <= t.len() {
        let j = ident_end(t, i);
        assert(parse_from(t, i)[0] == SelNode::Tag(t.subrange(i, j)));
        j
    } else {
        assert(parse_from(t, i)[0] == SelNode::Tag(t.subrange(i, i + 1)));
        i + 1
    }
}

proof fn lemma_prints_back(t: Seq<char>, i: int)
    requires
        0 <= i <= t.len(),
        ends_cleanly(t),
        no_nested_lists(parse_from(t, i)),
    ensures
        ser_sel(parse_from(t, i)) == t.subrange(i, t.len() as int),
    decreases t.len() - i,
{
    if i == t.len() {
        assert(t.subrange(i, i) =~= Seq::<char>::empty());
    } else {
        let ns = parse_from(t, i);
        let j = lemma_first_node(t, i);
        let rest = parse_from(t, j);
        assert forall|k: int| 0 <= k < rest.len() implies ((#[trigger] rest[k]) matches SelNode::Pseudo {
            nodes,
            ..
        } ==> nodes.len() == 0) by {
            assert(rest[k] == ns[k + 1]);
        }
        assert(ns[0] matches SelNode::Pseudo { nodes, .. } ==> nodes.len() == 0);
        lemma_prints_back(t, j);
        lemma_ser_cons(ns[0], rest);
        assert(t.subrange(i, j) + t.subrange(j, t.len() as int) =~= t.subrange(i, t.len() as int));
    }
}

/// A selector that does not end in whitespace or a combinator, and whose
/// parse holds no `:is`, `:where`, `:has` or `:not` argument list, prints
/// back exactly as written.
pub proof fn law_selector_prints_back(t: Seq<char>)
    requires
        ends_cleanly(t),
        no_nested_lists(parse_from(t, 0)),
    ensures
        ser_sel(parse_from(t, 0)) == t,
{
    lemma_prints_back(t, 0);
    assert(t.subrange(0, t.len() as int) =~= t);
}

/// The pieces a scan yields from `i` on cover the text: the first starts
/// at `start`, the last ends at the end, and consecutive pieces are
/// separated by one comma.
proof fn lemma_split_cover(s: Seq<char>, i: int, start: int, dp: int, db: int, q: Option<char>)
    requires
        0 <= start <= i <= s.len(),
    ensures
        split_scan(s, i, start, dp, db, q).len() >= 1,
        split_scan(s, i, start, dp, db, q)[0].0 == start,
        i <= split_scan(s, i, start, dp, db, q)[0].1,
        split_scan(s, i, start, dp, db, q).last().1 == s.len(),
        forall|k: int|
            0 <= k < split_scan(s, i, start, dp, db, q).len() ==> (#[trigger] split_scan(
                s,
                i,
                start,
                dp,
                db,
                q,
            )[k]).0 <= split_scan(s, i, start, dp, db, q)[k].1 <= s.len(),
        forall|k: int|
            0 <= k < split_scan(s, i, start, dp, db, q).len() - 1 ==> s[(#[trigger] split_scan(
                s,
                i,
                start,
                dp,
                db,
                q,
            )[k]).1] == ',' && split_scan(s, i, start, dp, db, q)[k + 1].0 == split_scan(
                s,
                i,
                start,
                dp,
                db,
                q,
            )[k].1 + 1,
    decreases s.len() - i,
{
    if i < s.len() {
        if q is Some {
            if s[i] == q->0 {
                lemma_split_cover(s, i + 1, start, dp, db, None);
            } else if s[i] == '\\' && i + 1 < s.len() {
                lemma_split_cover(s, i + 2, start, dp, db, q);
            } else {
                lemma_split_cover(s, i + 1, start, dp, db, q);
            }
        } else {
            let c = s[i];
            if c == '\\' && i + 1 < s.len() {
                lemma_split_cover(s, i + 2, start, dp, db, q);
            } else if c == '(' {
                lemma_split_cover(s, i + 1, start, dp + 1, db, q);
            } else if c == ')' {
                lemma_split_cover(s, i + 1, start, dp - 1, db, q);
            } else if c == '[' {
                lemma_split_cover(s, i + 1, start, dp, db + 1, q);
            } else if c == ']' {
                lemma_split_cover(s, i + 1, start, dp, db - 1, q);
            } else if c == '"' || c == '\'' {
                lemma_split_cover(s, i + 1, start, dp, db, Some(c));
            } else if c == ',' && dp == 0 && db == 0 {
                lemma_split_cover(s, i + 1, i + 1, dp, db, q);
                let rest = split_scan(s, i + 1, i + 1, dp, db, q);
                let ps = split_scan(s, i, start, dp, db, q);
                assert(ps == seq![(start, i)] + rest);
                assert forall|k: int| 0 <= k < ps.len() implies (#[trigger] ps[k]).0 <= ps[k].1 <= s.len() by {
                    if k > 0 {
                        assert(ps[k] == rest[k - 1]);
                    }
                }
                assert forall|k: int| 0 <= k < ps.len() - 1 implies s[(#[trigger] ps[k]).1] == ',' && ps[k + 1].0 == ps[k].1 + 1 by {
                    if k > 0 {
                        assert(ps[k] == rest[k - 1]);
                        assert(ps[k + 1] == rest[k]);
                    }
                }
            } else {
                lemma_split_cover(s, i + 1, start, dp, db, q);
            }
        }
    }
}

/// A selector, from position `i` on, that prints back as written: it
/// does not end in whitespace or a combinator, and the argument of each
/// `:is`, `:where`, `:has` or `:not` is closed by `)` and is itself such
/// a list.
pub open spec fn sel_prints_back(t: Seq<char>, i: int) -> bool
    decreases t.len(), 0int, t.len() - i,
{
    if i < 0 || i >= t.len() {
        true
    } else {
        let b = t[i];
        let j = if ascii_ws(b) || is_comb_sym(b) {
            comb_end(t, i)
        } else if b == '.' || b == '#' {
            ident_end(t, i + 1)
        } else if b == '[' {
            bracket_end(t, i + 1, 1, None, false)
        } else if b == ':' {
            let p0 = if i + 1 < t.len() && t[i + 1] == ':' {
                i + 2
            } else {
                i + 1
            };
            let p = pname_end(t, p0);
            if p < t.len() && t[p] == '(' {
                bracket_end(t, p + 1, 1, None, true)
            } else {
                p
            }
        } else if b == '*' || b == '&' {
            i + 1
        } else if (ident_char(b) || b == '\\') && i < ident_end(t, i) <= t.len() {
            ident_end(t, i)
        } else {
            i + 1
        };
        let args_ok = if b == ':' {
            let p0 = if i + 1 < t.len() && t[i + 1] == ':' {
                i + 2
            } else {
                i + 1
            };
            let p = pname_end(t, p0);
            if p < t.len() && t[p] == '(' && is_logical_name(t.subrange(p0, p)) {
                let inner = inner_args(t, p, j);
                p + 1 <= j - 1 && j <= t.len() && t[j - 1] == ')' && inner.len() < t.len()
                    && list_prints_back(inner)
            } else {
                true
            }
        } else {
            true
        };
        &&& i < j
        &&& j <= t.len()
        &&& !((ascii_ws(b) || is_comb_sym(b)) && j >= t.len())
        &&& args_ok
        &&& sel_prints_back(t, j)
    }
}

/// A selector list that prints back as written: a single space after
/// each top-level comma and no other space around the pieces, each piece
/// a selector that prints back.
pub open spec fn list_prints_back(s: Seq<char>) -> bool
    decreases s.len(), 2int, 0int,
{
    pieces_print_back(s, split_commas(s), 0)
}

pub open spec fn pieces_print_back(s: Seq<char>, ps: Seq<(int, int)>, k: int) -> bool
    decreases s.len(), 1int, ps.len() - k,
{
    if k < 0 || k >= ps.len() {
        true
    } else {
        let piece = piece_text(s, ps[k].0, ps[k].1);
        let raw = if 0 <= ps[k].0 <= ps[k].1 <= s.len() {
            s.subrange(ps[k].0, ps[k].1)
        } else {
            Seq::empty()
        };
        &&& (if k == 0 {
            raw == piece
        } else {
            raw == seq![' '] + piece
        })
        &&& piece.len() <= s.len()
        &&& sel_prints_back(piece, 0)
        &&& pieces_print_back(s, ps, k + 1)
    }
}

proof fn lemma_node_back(t: Seq<char>, i: int) -> (j: int)
    requires
        0 <= i < t.len(),
        sel_prints_back(t, i),
    ensures
        i < j <= t.len(),
        sel_prints_back(t, j),
        parse_from(t, i).len() > 0,
        parse_from(t, i) == seq![parse_from(t, i)[0]] + parse_from(t, j),
        ser_node(parse_from(t, i)[0]) == t.subrange(i, j),
    decreases t.len(), 0int, t.len() - i, 0int,
{
    let b = t[i];
    if ascii_ws(b) || is_comb_sym(b) {
        let j = comb_end(t, i);
        assert(parse_from(t, i)[0] == SelNode::Combinator(t.subrange(i, j)));
        j
    } else if b == '.' || b == '#' {
        lemma_ident_end(t, i + 1);
        let j = ident_end(t, i + 1);
        assert(seq![b] + t.subrange(i + 1, j) =~= t.subrange(i, j));
        if b == '.' {
            assert(parse_from(t, i)[0] == SelNode::Class(t.subrange(i + 1, j)));
        } else {
            assert(parse_from(t, i)[0] == SelNode::Id(t.subrange(i + 1, j)));
        }
        j
    } else if b == '[' {
        let j = bracket_end(t, i + 1, 1, None, false);
        assert(parse_from(t, i)[0] == SelNode::Attribute(t.subrange(i, j)));
        j
    } else if b == ':' {
        let p0 = if i + 1 < t.len() && t[i + 1] == ':' {
            i + 2
        } else {
            i + 1
        };
        lemma_pname_end(t, p0);
        let p = pname_end(t, p0);
        if p < t.len() && t[p] == '(' {
            lemma_bracket_end(t, p + 1, 1, None, true);
            let q = bracket_end(t, p + 1, 1, None, true);
            let inner = inner_args(t, p, q);
            if is_logical_name(t.subrange(p0, p)) {
                lemma_list_back(inner);
                lemma_split_scan_nonempty(inner, 0, 0, 0, 0, None);
                lemma_parse_pieces(inner, split_commas(inner), 0);
                assert(parse_list(inner).len() > 0);
                assert(parse_from(t, i)[0] == SelNode::Pseudo {
                    value: t.subrange(i, p),
                    args: Seq::empty(),
                    nodes: parse_list(inner),
                });
                assert(inner == t.subrange(p + 1, q - 1));
                assert(t.subrange(i, p) + seq!['('] + inner + seq![')'] =~= t.subrange(i, q));
            } else {
                assert(parse_from(t, i)[0] == SelNode::Pseudo {
                    value: t.subrange(i, p),
                    args: t.subrange(p, q),
                    nodes: Seq::empty(),
                });
                assert(t.subrange(i, p) + t.subrange(p, q) =~= t.subrange(i, q));
            }
            q
        } else {
            assert(parse_from(t, i)[0] == SelNode::Pseudo {
                value: t.subrange(i, p),
                args: Seq::empty(),
                nodes: Seq::empty(),
            });
            assert(t.subrange(i, p) + Seq::<char>::empty() =~= t.subrange(i, p));
            p
        }
    } else if b == '*' || b == '&' {
        assert(t.subrange(i, i + 1) =~= seq![b]);
        if b == '*' {
            assert(parse_from(t, i)[0] == SelNode::Universal);
        } else {
            assert(parse_from(t, i)[0] == SelNode::Nesting);
        }
        i + 1
    } else if (ident_char(b) || b == '\\') && i < ident_end(t, i) <= t.len() {
        let j = ident_end(t, i);
        assert(parse_from(t, i)[0] == SelNode::Tag(t.subrange(i, j)));
        j
    } else {
        assert(parse_from(t, i)[0] == SelNode::Tag(t.subrange(i, i + 1)));
        i + 1
    }
}

proof fn lemma_sel_back(t: Seq<char>, i: int)
    requires
        0 <= i <= t.len(),
        sel_prints_back(t, i),
    ensures
        ser_sel(parse_from(t, i)) == t.subrange(i, t.len() as int),
    decreases t.len(), 0int, t.len() - i, 1int,
{
    if i == t.len() {
        assert(t.subrange(i, i) =~= Seq::<char>::empty());
    } else {
        let ns = parse_from(t, i);
        let j = lemma_node_back(t, i);
        lemma_sel_back(t, j);
        lemma_ser_cons(ns[0], parse_from(t, j));
        assert(t.subrange(i, j) + t.subrange(j, t.len() as int) =~= t.subrange(i, t.len() as int));
    }
}

proof fn lemma_list_back(s: Seq<char>)
    requires
        list_prints_back(s),
    ensures
        ser_list(parse_list(s)) == s,
    decreases s.len(), 2int, 0int, 0int,
{
    let ps = split_commas(s);
    law_one_selector_per_piece(s);
    lemma_split_cover(s, 0, 0, 0, 0, None);
    lemma_parse_pieces(s, ps, 0);
    let l = parse_list(s);
    lemma_pieces_back(s, ps, 0);
    let n = ps.len() as int;
    lemma_list_prefix(s, ps, n);
    assert(l.take(n) =~= l);
    assert(s.subrange(0, s.len() as int) =~= s);
}

proof fn lemma_pieces_back(s: Seq<char>, ps: Seq<(int, int)>, k: int)
    requires
        0 <= k <= ps.len(),
        pieces_print_back(s, ps, k),
    ensures
        forall|m: int|
            k <= m < ps.len() ==> ser_sel(
                parse_from(#[trigger] piece_text(s, ps[m].0, ps[m].1), 0),
            ) == piece_text(s, ps[m].0, ps[m].1) && (if m == 0 {
                (if 0 <= ps[m].0 <= ps[m].1 <= s.len() {
                    s.subrange(ps[m].0, ps[m].1)
                } else {
                    Seq::empty()
                }) == piece_text(s, ps[m].0, ps[m].1)
            } else {
                (if 0 <= ps[m].0 <= ps[m].1 <= s.len() {
                    s.subrange(ps[m].0, ps[m].1)
                } else {
                    Seq::empty()
                }) == seq![' '] + piece_text(s, ps[m].0, ps[m].1)
            }) && piece_text(s, ps[m].0, ps[m].1).len() <= s.len(),
    decreases s.len(), 1int, ps.len() - k, 0int,
{
    if k < ps.len() {
        let piece = piece_text(s, ps[k].0, ps[k].1);
        lemma_sel_back(piece, 0);
        assert(piece.subrange(0, piece.len() as int) =~= piece);
        lemma_pieces_back(s, ps, k + 1);
    }
}

/// The first `m` selectors of the list print as the text up to the end
/// of piece `m - 1`.
proof fn lemma_list_prefix(s: Seq<char>, ps: Seq<(int, int)>, m: int)
    requires
        ps == split_commas(s),
        1 <= m <= ps.len(),
        parse_list(s).len() == ps.len(),
        ps[0].0 == 0,
        forall|k: int| 0 <= k < ps.len() ==> (#[trigger] ps[k]).0 <= ps[k].1 <= s.len(),
        forall|k: int|
            0 <= k < ps.len() - 1 ==> s[(#[trigger] ps[k]).1] == ',' && ps[k + 1].0 == ps[k].1 + 1,
        forall|k: int|
            0 <= k < ps.len() ==> #[trigger] parse_list(s)[k] == (if piece_text(
                s,
                ps[k].0,
                ps[k].1,
            ).len() <= s.len() {
                parse_from(piece_text(s, ps[k].0, ps[k].1), 0)
            } else {
                Seq::empty()
            }),
        forall|k: int|
            0 <= k < ps.len() ==> ser_sel(parse_from(#[trigger] piece_text(s, ps[k].0, ps[k].1), 0))
                == piece_text(s, ps[k].0, ps[k].1) && (if k == 0 {
                (if 0 <= ps[k].0 <= ps[k].1 <= s.len() {
                    s.subrange(ps[k].0, ps[k].1)
                } else {
                    Seq::empty()
                }) == piece_text(s, ps[k].0, ps[k].1)
            } else {
                (if 0 <= ps[k].0 <= ps[k].1 <= s.len() {
                    s.subrange(ps[k].0, ps[k].1)
                } else {
                    Seq::empty()
                }) == seq![' '] + piece_text(s, ps[k].0, ps[k].1)
            }) && piece_text(s, ps[k].0, ps[k].1).len() <= s.len(),
    ensures
        ser_list(parse_list(s).take(m)) == s.subrange(0, ps[m - 1].1),
    decreases m,
{
    let l = parse_list(s);
    let pt = piece_text(s, ps[m - 1].0, ps[m - 1].1);
    assert(l[m - 1] == parse_from(pt, 0));
    assert(ser_sel(parse_from(pt, 0)) == pt);
    if m == 1 {
        assert(l.take(1) =~= seq![l[0]]);
        assert(s.subrange(ps[0].0, ps[0].1) == pt);
    } else {
        lemma_list_prefix(s, ps, m - 1);
        let a = l.take(m);
        assert(a.drop_last() =~= l.take(m - 1));
        assert(a.last() == l[m - 1]);
        let e = ps[m - 2].1;
        assert(s[e] == ',' && ps[m - 1].0 == e + 1);
        assert(s.subrange(ps[m - 1].0, ps[m - 1].1) == seq![' '] + pt);
        assert(s.subrange(0, ps[m - 1].1) =~= s.subrange(0, e) + seq![','] + s.subrange(
            ps[m - 1].0,
            ps[m - 1].1,
        ));
        assert(s.subrange(0, e) + seq![',', ' '] + pt =~= s.subrange(0, e) + seq![','] + (seq![' ']
            + pt));
    }
}

/// A selector list with one space after each top-level comma and no other
/// space around its pieces, whose selectors do not end in whitespace or a
/// combinator and whose `:is`, `:where`, `:has` and `:not` arguments are
/// closed and again such lists, prints back exactly as written.
pub proof fn law_selector_list_prints_back(s: Seq<char>)
    requires
        list_prints_back(s),
    ensures
        ser_list(parse_list(s)) == s,
{
    lemma_list_back(s);
}

/// A node that is neither a pseudo nor a combinator.
pub open spec fn is_simple_node(n: SelNode) -> bool {
    !(n is Pseudo) && !(n is Combinator)
}

/// The pseudo-elements to which no user-action pseudo-class attaches.
pub open spec fn closed_pseudo_element(v: Seq<char>) -> bool {
    v == "::after"@ || v == "::before"@ || v == "::backdrop"@ || v == "::first-letter"@ || v
        == "::first-line"@ || v == "::marker"@ || v == "::placeholder"@ || v == "::selection"@
}

proof fn lemma_simple_prefix(full: Seq<SelNode>, n: int, outer: bool)
    requires
        0 <= n <= full.len(),
        forall|k: int| 0 <= k < n ==> is_simple_node(#[trigger] full[k]),
    ensures
        collect_prefix(full, n, outer) == (full.take(n), Seq::<SelNode>::empty(), Option::<Seq<char>>::None),
    decreases n,
{
    if n > 0 {
        lemma_simple_prefix(full, n - 1, outer);
        let x = full[n - 1];
        assert(is_simple_node(x));
        let prev = collect_prefix(full, n - 1, outer);
        let st = collect_step(prev, x, outer || comb_after(full, n - 1));
        assert(collect_prefix(full, n, outer) == st);
        assert(st == (prev.0.push(x), prev.1, Option::<Seq<char>>::None));
        assert(full.take(n - 1).push(x) =~= full.take(n));
    } else {
        assert(full.take(0) =~= Seq::<SelNode>::empty());
    }
}

/// After a closed pseudo-element (`::placeholder`, `::before`, …) a
/// pseudo-class does not attach to it: moving puts the pseudo-element
/// last and leaves the pseudo-class before it.
pub proof fn law_pseudo_class_stays_before_closed_pseudo_element(
    pre: Seq<SelNode>,
    pe: Seq<char>,
    pc: Seq<char>,
    pc_args: Seq<char>,
)
    requires
        forall|k: int| 0 <= k < pre.len() ==> is_simple_node(#[trigger] pre[k]),
        closed_pseudo_element(pe),
        pc.len() >= 2,
        pc[0] == ':',
        pc[1] != ':',
        !(pc == ":after"@ || pc == ":before"@ || pc == ":first-letter"@ || pc == ":first-line"@ || pc
            == ":is"@ || pc == ":where"@ || pc == ":has"@),
    ensures
        move_pseudos_spec(
            pre + seq![
                SelNode::Pseudo { value: pe, args: Seq::empty(), nodes: Seq::empty() },
                SelNode::Pseudo { value: pc, args: pc_args, nodes: Seq::empty() },
            ],
        ) == pre + seq![
            SelNode::Pseudo { value: pc, args: pc_args, nodes: Seq::empty() },
            SelNode::Pseudo { value: pe, args: Seq::empty(), nodes: Seq::empty() },
        ],
{
    reveal_strlit("::after");
    reveal_strlit("::before");
    reveal_strlit("::backdrop");
    reveal_strlit("::first-letter");
    reveal_strlit("::first-line");
    reveal_strlit("::marker");
    reveal_strlit("::placeholder");
    reveal_strlit("::selection");
    reveal_strlit(":after");
    reveal_strlit(":before");
    reveal_strlit(":first-letter");
    reveal_strlit(":first-line");
    reveal_strlit(":is");
    reveal_strlit(":where");
    reveal_strlit(":has");
    reveal_strlit("::deep");
    reveal_strlit("::v-deep");
    reveal_strlit("::ng-deep");
    let e = SelNode::Pseudo { value: pe, args: Seq::empty(), nodes: Seq::empty() };
    let c = SelNode::Pseudo { value: pc, args: pc_args, nodes: Seq::empty() };
    let full = pre + seq![e, c];
    let n = pre.len() as int;
    assert forall|k: int| 0 <= k < n implies is_simple_node(#[trigger] full[k]) by {
        assert(full[k] == pre[k]);
    }
    lemma_simple_prefix(full, n, false);
    assert(full.take(n) =~= pre);
    assert(full[n] == e);
    assert(full[n + 1] == c);
    assert(pe.len() >= 7 && pe[0] == ':' && pe[1] == ':' && pe[2] != 'd' && pe[2] != 'v' && pe[2]
        != 'n');
    assert("::deep"@[2] == 'd' && "::v-deep"@[2] == 'v' && "::ng-deep"@[2] == 'n');
    assert(":is"@[1] != ':' && ":where"@[1] != ':' && ":has"@[1] != ':');
    assert(is_pseudo_element_like(pe));
    assert(is_movable_pseudo_element(pe));
    assert(is_jumpable(pe));
    assert(!is_actionable_pseudo_element(pe));
    assert(!is_pseudo_element_like(pc));
    assert(!is_movable_pseudo_element(pc));
    let st1 = collect_prefix(full, n + 1, false);
    assert(st1 == collect_step((pre, Seq::<SelNode>::empty(), Option::<Seq<char>>::None), e, comb_after(full, n)));
    assert(st1 == (pre, seq![e], Some(pe)));
    let st2 = collect_prefix(full, n + 2, false);
    assert(st2 == collect_step(st1, c, comb_after(full, n + 1)));
    assert(!is_attachable_pseudo_class(pc, pe));
    assert(st2 == (pre.push(c), seq![e], Option::<Seq<char>>::None));
    assert(full.len() == n + 2);
    assert(pre.push(c) + seq![e] =~= pre + seq![c, e]);
}

/// A node without the selectors nested in it.
pub open spec fn bare_node(n: SelNode) -> SelNode {
    match n {
        SelNode::Pseudo { value, args, nodes } => SelNode::Pseudo {
            value,
            args,
            nodes: Seq::empty(),
        },
        _ => n,
    }
}

/// Every node of `n`, nested ones included, each without its nested
/// selectors.
pub open spec fn node_bag(n: SelNode) -> Multiset<SelNode>
    decreases n,
{
    match n {
        SelNode::Pseudo { nodes, .. } => Multiset::singleton(bare_node(n)).add(subs_bag(nodes)),
        _ => Multiset::singleton(n),
    }
}

/// Every node of a selector, nested ones included.
pub open spec fn seq_bag(ns: Seq<SelNode>) -> Multiset<SelNode>
    decreases ns,
{
    if ns.len() == 0 {
        Multiset::empty()
    } else {
        seq_bag(ns.drop_last()).add(node_bag(ns.last()))
    }
}

/// Every node of a list of selectors, nested ones included.
pub open spec fn subs_bag(ss: Seq<Seq<SelNode>>) -> Multiset<SelNode>
    decreases ss,
{
    if ss.len() == 0 {
        Multiset::empty()
    } else {
        subs_bag(ss.drop_last()).add(seq_bag(ss.last()))
    }
}

proof fn lemma_seq_bag_add(a: Seq<SelNode>, b: Seq<SelNode>)
    ensures
        seq_bag(a + b) =~= seq_bag(a).add(seq_bag(b)),
    decreases b.len(),
{
    if b.len() > 0 {
        lemma_seq_bag_add(a, b.drop_last());
        assert((a + b).drop_last() =~= a + b.drop_last());
    } else {
        assert(a + b =~= a);
    }
}

proof fn lemma_step_bag(st: MoveState, node: SelNode, blocked: bool)
    ensures
        seq_bag(collect_step(st, node, blocked).0).add(seq_bag(collect_step(st, node, blocked).1))
            =~= seq_bag(st.0).add(seq_bag(st.1)).add(node_bag(node)),
    decreases node, 0int,
{
    match node {
        SelNode::Pseudo { value, args, nodes } => {
            let movable = is_movable_pseudo_element(value);
            let attachable = !movable && st.2 is Some && is_attachable_pseudo_class(
                value,
                st.2->0,
            );
            let ls = if movable {
                Some(value)
            } else if !attachable {
                None
            } else {
                st.2
            };
            let subs = collect_subs(nodes, ls, blocked);
            lemma_subs_bag(nodes, ls, blocked);
            let pn = SelNode::Pseudo { value, args, nodes: subs.0 };
            lemma_seq_bag_add(st.1, subs.1);
            assert(bare_node(pn) == bare_node(node));
            assert(node_bag(pn) == Multiset::singleton(bare_node(node)).add(subs_bag(subs.0)));
            assert(node_bag(node) == Multiset::singleton(bare_node(node)).add(subs_bag(nodes)));
            assert((st.1 + subs.1).push(pn).drop_last() =~= st.1 + subs.1);
            assert(st.0.push(pn).drop_last() =~= st.0);
            assert(seq_bag((st.1 + subs.1).push(pn)) == seq_bag(st.1 + subs.1).add(node_bag(pn)));
            assert(seq_bag(st.0.push(pn)) == seq_bag(st.0).add(node_bag(pn)));
            let a = seq_bag(st.0);
            let b = seq_bag(st.1);
            let c = seq_bag(subs.1);
            let d = subs_bag(subs.0);
            let e = Multiset::singleton(bare_node(node));
            assert(subs_bag(nodes) =~= d.add(c));
            if (movable || attachable) && (is_jumpable(value) || !blocked) {
                assert(a.add(b.add(c).add(e.add(d))) =~= a.add(b).add(e.add(d.add(c))));
            } else {
                assert(a.add(e.add(d)).add(b.add(c)) =~= a.add(b).add(e.add(d.add(c))));
            }
        },
        _ => {
            assert(st.0.push(node).drop_last() =~= st.0);
        },
    }
}

proof fn lemma_subs_bag(subs: Seq<Seq<SelNode>>, ls: Option<Seq<char>>, outer: bool)
    ensures
        subs_bag(collect_subs(subs, ls, outer).0).add(seq_bag(collect_subs(subs, ls, outer).1))
            =~= subs_bag(subs),
    decreases subs, 0int,
{
    if subs.len() > 0 {
        let prev = collect_subs(subs.drop_last(), ls, outer);
        lemma_subs_bag(subs.drop_last(), ls, outer);
        let r = collect_prefix(subs.last(), subs.last().len() as int, outer);
        lemma_prefix_bag(subs.last(), subs.last().len() as int, outer);
        assert(subs.last().take(subs.last().len() as int) =~= subs.last());
        lemma_seq_bag_add(prev.1, r.1);
        assert(prev.0.push(r.0).drop_last() =~= prev.0);
    }
}

proof fn lemma_prefix_bag(full: Seq<SelNode>, n: int, outer: bool)
    requires
        0 <= n <= full.len(),
    ensures
        seq_bag(collect_prefix(full, n, outer).0).add(seq_bag(collect_prefix(full, n, outer).1))
            =~= seq_bag(full.take(n)),
    decreases full, n,
{
    if n == 0 {
        assert(full.take(0) =~= Seq::<SelNode>::empty());
    } else {
        lemma_prefix_bag(full, n - 1, outer);
        lemma_step_bag(collect_prefix(full, n - 1, outer), full[n - 1], outer || comb_after(full, n - 1));
        assert(full.take(n).drop_last() =~= full.take(n - 1));
    }
}

/// Moving pseudo-elements neither loses nor adds a node: the nodes of the
/// result, nested ones included, are those of the selector, counted with
/// multiplicity.
pub proof fn law_move_pseudos_keeps_nodes(ns: Seq<SelNode>)
    ensures
        seq_bag(move_pseudos_spec(ns)) =~= seq_bag(ns),
{
    lemma_prefix_bag(ns, ns.len() as int, false);
    let r = collect_prefix(ns, ns.len() as int, false);
    lemma_seq_bag_add(r.0, r.1);
    assert(ns.take(ns.len() as int) =~= ns);
}

pub open spec fn opt_view(o: Option<String>) -> Option<Seq<char>> {
    match o {
        Some(s) => Some(s@),
        None => None,
    }
}

pub proof fn lemma_nodes_view_add(a: Seq<SelAstNode>, b: Seq<SelAstNode>)
    ensures
        nodes_view(a + b) == nodes_view(a) + nodes_view(b),
    decreases b.len(),
{
    if b.len() == 0 {
        assert(a + b =~= a);
        assert(nodes_view(a) + nodes_view(b) =~= nodes_view(a));
    } else {
        lemma_nodes_view_add(a, b.drop_last());
        assert((a + b).drop_last() =~= a + b.drop_last());
        assert(nodes_view(a + b) =~= nodes_view(a) + nodes_view(b));
    }
}

fn eq_lit(v: &Vec<char>, lit: &str) -> (b: bool)
    ensures
        b == (v@ == lit@),
{
    let w = chars_of(lit);
    if v.len() != w.len() {
        return false;
    }
    let mut i: usize = 0;
    while i < v.len()
        invariant
            v@.len() == w@.len(),
            w@ == lit@,
            i <= v@.len(),
            forall|k: int| 0 <= k < i ==> v@[k] == w@[k],
        decreases v@.len() - i,
    {
        if v[i] != w[i] {
            return false;
        }
        i += 1;
    }
    assert(v@ =~= w@);
    true
}

fn pseudo_element_like(v: &Vec<char>) -> (b: bool)
    ensures
        b == is_pseudo_element_like(v@),
{
    (v.len() >= 2 && v[0] == ':' && v[1] == ':') || eq_lit(v, ":after") || eq_lit(v, ":before")
        || eq_lit(v, ":first-letter") || eq_lit(v, ":first-line") || eq_lit(v, ":is") || eq_lit(
        v,
        ":where",
    ) || eq_lit(v, ":has")
}

fn movable_pseudo_element(v: &Vec<char>) -> (b: bool)
    ensures
        b == is_movable_pseudo_element(v@),
{
    if !pseudo_element_like(v) {
        return false;
    }
    !(eq_lit(v, ":is") || eq_lit(v, ":where") || eq_lit(v, ":has") || eq_lit(v, "::deep")
        || eq_lit(v, "::v-deep") || eq_lit(v, "::ng-deep"))
}

fn jumpable(v: &Vec<char>) -> (b: bool)
    ensures
        b == is_jumpable(v@),
{
    eq_lit(v, "::after") || eq_lit(v, "::backdrop") || eq_lit(v, "::before") || eq_lit(
        v,
        "::first-letter",
    ) || eq_lit(v, "::first-line") || eq_lit(v, "::marker") || eq_lit(v, "::placeholder")
        || eq_lit(v, "::selection") || eq_lit(v, ":after") || eq_lit(v, ":before") || eq_lit(
        v,
        ":first-letter",
    ) || eq_lit(v, ":first-line")
}

fn actionable_pseudo_element(v: &Vec<char>) -> (b: bool)
    ensures
        b == is_actionable_pseudo_element(v@),
{
    if !pseudo_element_like(v) {
        return false;
    }
    if eq_lit(v, "::after") || eq_lit(v, "::before") || eq_lit(v, "::backdrop") || eq_lit(
        v,
        "::first-letter",
    ) || eq_lit(v, "::first-line") || eq_lit(v, "::marker") || eq_lit(v, "::placeholder")
        || eq_lit(v, "::selection") {
        return false;
    }
    if eq_lit(v, ":after") || eq_lit(v, ":before") || eq_lit(v, ":first-letter") || eq_lit(
        v,
        ":first-line",
    ) {
        return false;
    }
    if eq_lit(v, "::cue") || eq_lit(v, "::cue-region") || eq_lit(v, "::grammar-error") || eq_lit(
        v,
        "::slotted",
    ) || eq_lit(v, "::spelling-error") || eq_lit(v, "::target-text") {
        return false;
    }
    !(eq_lit(v, ":is") || eq_lit(v, ":where") || eq_lit(v, ":has"))
}

fn attachable_pseudo_class(node_value: &Vec<char>, last_seen: &Vec<char>) -> (b: bool)
    ensures
        b == is_attachable_pseudo_class(node_value@, last_seen@),
{
    if pseudo_element_like(node_value) {
        return false;
    }
    actionable_pseudo_element(last_seen)
}

/// For each position, whether a combinator follows it.
fn combinators_after(nodes: &Vec<SelAstNode>) -> (r: Vec<bool>)
    ensures
        r@.len() == nodes@.len(),
        forall|i: int| 0 <= i < nodes@.len() ==> #[trigger] r@[i] == comb_after(nodes_view(nodes@), i),
{
    let ghost all = nodes_view(nodes@);
    proof {
        lemma_nodes_view(nodes@);
    }
    let n = nodes.len();
    let mut rev: Vec<bool> = Vec::new();
    let mut seen = false;
    let mut k: usize = n;
    while k > 0
        invariant
            k <= n == nodes@.len() == all.len(),
            all == nodes_view(nodes@),
            forall|j: int| 0 <= j < n ==> #[trigger] all[j] == node_view(nodes@[j]),
            rev@.len() == n - k,
            seen == (exists|j: int| k <= j < n && (#[trigger] all[j]) is Combinator),
            forall|t: int| 0 <= t < n - k ==> #[trigger] rev@[t] == comb_after(all, n - 1 - t),
        decreases k,
    {
        proof {
            let i = k - 1;
            assert(comb_after(all, i) == seen) by {
                if seen {
                    let j = choose|j: int| k <= j < n && (#[trigger] all[j]) is Combinator;
                    assert(i < j < all.len() && all[j] is Combinator);
                }
            }
        }
        rev.push(seen);
        let is_comb = match &nodes[k - 1] {
            SelAstNode::Combinator(_) => true,
            _ => false,
        };
        proof {
            assert(is_comb == (all[k - 1] is Combinator));
        }
        if is_comb {
            seen = true;
        }
        k -= 1;
    }
    let mut r: Vec<bool> = Vec::new();
    let mut i: usize = 0;
    while i < n
        invariant
            i <= n == rev@.len() == nodes@.len() == all.len(),
            all == nodes_view(nodes@),
            forall|t: int| 0 <= t < n ==> #[trigger] rev@[t] == comb_after(all, n - 1 - t),
            r@.len() == i,
            forall|t: int| 0 <= t < i ==> #[trigger] r@[t] == comb_after(all, t),
        decreases n - i,
    {
        r.push(rev[n - 1 - i]);
        i += 1;
    }
    r
}

/// Move pseudo-elements (and any pseudo-classes attached to actionable
/// ones) to the tail of the outermost selector.
pub fn move_pseudos_in_selector(sel: SelectorAst) -> (out: SelectorAst)
    ensures
        out@ == move_pseudos_spec(sel@),
{
    let (mut cleaned, mut hoisted, _) = collect_movable(sel, false);
    let ghost a = cleaned.nodes@;
    let ghost b = hoisted@;
    cleaned.nodes.append(&mut hoisted);
    proof {
        lemma_nodes_view_add(a, b);
    }
    cleaned
}

/// Walk one selector's nodes, returning the cleaned selector, the nodes to
/// append to the outermost selector, and the last movable pseudo-element
/// seen at the end of the walk.
fn collect_movable(sel: SelectorAst, outer: bool) -> (r: (SelectorAst, Vec<SelAstNode>, Option<String>))
    ensures
        (r.0@, nodes_view(r.1@), opt_view(r.2)) == collect_prefix(sel@, sel@.len() as int, outer),
    decreases sel,
{
    let ghost orig = sel.nodes@;
    let ghost all = nodes_view(orig);
    proof {
        lemma_nodes_view(orig);
        assert(decreases_to!(sel => sel.nodes));
        assert(decreases_to!(sel.nodes => sel.nodes@));
        assert forall|j: int| 0 <= j < orig.len() implies decreases_to!(sel => #[trigger] orig[j]) by {
            assert(decreases_to!(sel.nodes@ => sel.nodes@[j]));
        }
    }
    let after = combinators_after(&sel.nodes);
    let total = sel.nodes.len();
    let SelectorAst { nodes: mut src } = sel;
    let mut idx: usize = 0;
    let mut new_nodes: Vec<SelAstNode> = Vec::new();
    let mut buffer: Vec<SelAstNode> = Vec::new();
    let mut last_seen: Option<String> = None;
    let ghost mut k: int = 0;
    while src.len() > 0
        invariant
            0 <= k <= orig.len(),
            src@ == orig.skip(k),
            all == nodes_view(orig),
            all.len() == orig.len(),
            forall|j: int| 0 <= j < orig.len() ==> #[trigger] all[j] == node_view(orig[j]),
            forall|j: int| 0 <= j < orig.len() ==> decreases_to!(sel => #[trigger] orig[j]),
            idx == k,
            total == orig.len(),
            after@.len() == orig.len(),
            forall|j: int| 0 <= j < orig.len() ==> #[trigger] after@[j] == comb_after(all, j),
            (nodes_view(new_nodes@), nodes_view(buffer@), opt_view(last_seen)) == collect_prefix(
                all,
                k,
                outer,
            ),
        decreases src@.len(),
    {
        let node = src.remove(0);
        let ghost st = collect_prefix(all, k, outer);
        let blocked = outer || after[idx];
        proof {
            assert(node == orig[k]);
            assert(all[k] == node_view(node));
        }
        match node {
            SelAstNode::Combinator(c) => {
                let ghost nb = new_nodes@;
                last_seen = None;
                new_nodes.push(SelAstNode::Combinator(c));
                proof {
                    assert(new_nodes@.drop_last() =~= nb);
                }
                assert((nodes_view(new_nodes@), nodes_view(buffer@), opt_view(last_seen)) == collect_step(st, all[k], blocked));
            },
            SelAstNode::Pseudo { value, args, nodes } => {
                let vc = chars_of(value.as_str());
                let movable = movable_pseudo_element(&vc);
                let attachable = if movable {
                    false
                } else {
                    match &last_seen {
                        Some(ls) => {
                            let lc = chars_of(ls.as_str());
                            attachable_pseudo_class(&vc, &lc)
                        },
                        None => false,
                    }
                };
                if movable {
                    last_seen = Some(value.clone());
                } else if !attachable {
                    last_seen = None;
                }
                let ghost subs_orig = nodes@;
                let ghost subs_all = sels_view(subs_orig);
                let ghost ls1 = opt_view(last_seen);
                let ghost buf0 = nodes_view(buffer@);
                proof {
                    lemma_sels_view(subs_orig);
                    assert(decreases_to!(orig[k] => nodes));
                    assert(decreases_to!(nodes => nodes@));
                    assert forall|j: int| 0 <= j < subs_orig.len() implies decreases_to!(sel => #[trigger] subs_orig[j]) by {
                        assert(decreases_to!(nodes@ => nodes@[j]));
                    }
                }
                let mut sub_src = nodes;
                let mut new_subs: Vec<SelectorAst> = Vec::new();
                let ghost mut m: int = 0;
                while sub_src.len() > 0
                    invariant
                        0 <= m <= subs_orig.len(),
                        sub_src@ == subs_orig.skip(m),
                        subs_all == sels_view(subs_orig),
                        subs_all.len() == subs_orig.len(),
                        forall|j: int| 0 <= j < subs_orig.len() ==> #[trigger] subs_all[j] == subs_orig[j]@,
                        forall|j: int| 0 <= j < subs_orig.len() ==> decreases_to!(sel => #[trigger] subs_orig[j]),
                        sels_view(new_subs@) == collect_subs(subs_all.take(m), ls1, blocked).0,
                        nodes_view(buffer@) == buf0 + collect_subs(subs_all.take(m), ls1, blocked).1,
                        opt_view(last_seen) == collect_subs(subs_all.take(m), ls1, blocked).2,
                    decreases sub_src@.len(),
                {
                    let sub = sub_src.remove(0);
                    proof {
                        assert(sub == subs_orig[m]);
                        assert(subs_all.take(m + 1).drop_last() =~= subs_all.take(m));
                    }
                    let (clean_sub, mut sub_buffer, sub_ls) = collect_movable(sub, blocked);
                    let ghost nsb = new_subs@;
                    new_subs.push(clean_sub);
                    let ghost bb = buffer@;
                    let ghost sbb = sub_buffer@;
                    buffer.append(&mut sub_buffer);
                    if sub_ls.is_some() {
                        last_seen = sub_ls;
                    }
                    proof {
                        assert(new_subs@.drop_last() =~= nsb);
                        lemma_nodes_view_add(bb, sbb);
                        m = m + 1;
                        assert(sub_src@ =~= subs_orig.skip(m));
                        assert(nodes_view(buffer@) =~= buf0 + collect_subs(subs_all.take(m), ls1, blocked).1);
                    }
                }
                proof {
                    assert(subs_all.take(m) =~= subs_all);
                }
                let ghost spec_node = all[k];
                                assert(spec_node is Pseudo);
                assert(spec_node->Pseudo_value == value@);
                assert(spec_node->Pseudo_nodes == subs_all);
                assert(ls1 == (if movable { Some(value@) } else if !attachable { None } else { st.2 }));
                assert(movable == is_movable_pseudo_element(value@));
                assert(attachable == (!movable && st.2 is Some && is_attachable_pseudo_class(value@, st.2->0)));
                let ghost args_v = args@;
                let pseudo_node = SelAstNode::Pseudo { value, args, nodes: new_subs };
                let ghost pv = node_view(pseudo_node);
                proof {
                    let subs = collect_subs(subs_all, ls1, blocked);
                    assert(spec_node->Pseudo_args == args_v);
                    assert(pv == SelNode::Pseudo { value: spec_node->Pseudo_value, args: spec_node->Pseudo_args, nodes: subs.0 });
                }
                let moves = (movable || attachable) && (jumpable(&vc) || !blocked);
                if moves {
                    let ghost bb = buffer@;
                    buffer.push(pseudo_node);
                    proof {
                        assert(buffer@.drop_last() =~= bb);
                        let subs = collect_subs(subs_all, ls1, blocked);
                        let pn = SelNode::Pseudo { value: spec_node->Pseudo_value, args: spec_node->Pseudo_args, nodes: subs.0 };
                        assert(nodes_view(buffer@) == (st.1 + subs.1).push(pn));
                        assert(nodes_view(new_nodes@) == st.0);
                        assert(opt_view(last_seen) == subs.2);
                    }
                } else {
                    let ghost nb = new_nodes@;
                    new_nodes.push(pseudo_node);
                    proof {
                        assert(new_nodes@.drop_last() =~= nb);
                        let subs = collect_subs(subs_all, ls1, blocked);
                        let pn = SelNode::Pseudo { value: spec_node->Pseudo_value, args: spec_node->Pseudo_args, nodes: subs.0 };
                        assert(nodes_view(new_nodes@) == st.0.push(pn));
                        assert(nodes_view(buffer@) == st.1 + subs.1);
                        assert(opt_view(last_seen) == subs.2);
                    }
                }
            },
            other => {
                let ghost nb = new_nodes@;
                last_seen = None;
                new_nodes.push(other);
                proof {
                    assert(new_nodes@.drop_last() =~= nb);
                }
                assert((nodes_view(new_nodes@), nodes_view(buffer@), opt_view(last_seen)) == collect_step(st, all[k], blocked));
            },
        }
        assert((nodes_view(new_nodes@), nodes_view(buffer@), opt_view(last_seen)) == collect_step(st, all[k], blocked));
        proof {
            k = k + 1;
            assert(src@ =~= orig.skip(k));
        }
        idx += 1;
    }
    (SelectorAst { nodes: new_nodes }, buffer, last_seen)
}

} // verus!
