//! Source Map v3 for the compiled CSS: every generated line maps to the
//! start of the input file, which carries its own text inline.
use vstd::prelude::*;
use base64::Engine;
use crate::json::{json_quoted, json_string_literal};
use crate::text::{append_str, chars_of};

verus! {

/// The number of lines `str::lines` yields: one per `\n`, plus a last
/// line when the text does not end with one.
pub open spec fn line_count(s: Seq<char>) -> nat {
    newline_count(s) + if s.len() > 0 && s.last() != '\n' {
        1nat
    } else {
        0nat
    }
}

pub open spec fn newline_count(s: Seq<char>) -> nat
    decreases s.len(),
{
    if s.len() == 0 {
        0
    } else {
        newline_count(s.drop_last()) + if s.last() == '\n' {
            1nat
        } else {
            0nat
        }
    }
}

proof fn lemma_newline_count_le(s: Seq<char>)
    ensures
        newline_count(s) <= s.len(),
    decreases s.len(),
{
    if s.len() > 0 {
        lemma_newline_count_le(s.drop_last());
    }
}

/// `AAAA` for the first of `n` lines and `;AAAA` for each further one:
/// every line maps to line 0, column 0 of source 0.
pub open spec fn mappings_spec(n: nat) -> Seq<char>
    decreases n,
{
    if n <= 1 {
        "AAAA"@
    } else {
        mappings_spec((n - 1) as nat) + ";AAAA"@
    }
}

/// A digit of the standard base64 alphabet: `A-Z`, `a-z`, `0-9`, `+`, `/`.
pub open spec fn base64_digit(n: int) -> char {
    if n < 26 {
        (('A' as int) + n) as char
    } else if n < 52 {
        (('a' as int) + n - 26) as char
    } else if n < 62 {
        (('0' as int) + n - 52) as char
    } else if n == 62 {
        '+'
    } else {
        '/'
    }
}

/// Standard base64 of a byte string: each group of three bytes as four
/// digits, a last group of one or two bytes padded with `=`.
pub open spec fn base64_bytes(b: Seq<u8>) -> Seq<char>
    decreases b.len(),
{
    if b.len() == 0 {
        Seq::empty()
    } else if b.len() == 1 {
        let x = b[0] as int;
        seq![base64_digit(x / 4), base64_digit((x % 4) * 16), '=', '=']
    } else if b.len() == 2 {
        let x = b[0] as int;
        let y = b[1] as int;
        seq![
            base64_digit(x / 4),
            base64_digit((x % 4) * 16 + y / 16),
            base64_digit((y % 16) * 4),
            '=',
        ]
    } else {
        let x = b[0] as int;
        let y = b[1] as int;
        let z = b[2] as int;
        seq![
            base64_digit(x / 4),
            base64_digit((x % 4) * 16 + y / 16),
            base64_digit((y % 16) * 4 + z / 64),
            base64_digit(z % 64),
        ] + base64_bytes(b.subrange(3, b.len() as int))
    }
}

/// The standard (padded) base64 encoding of a text's UTF-8 bytes.
pub open spec fn base64_standard(text: Seq<char>) -> Seq<char> {
    base64_bytes(vstd::utf8::encode_utf8(text))
}

/// `base64::engine::general_purpose::STANDARD.encode` on the text's
/// bytes. Claimed: the result is `base64_standard` of the text, the
/// padded standard-alphabet encoding of its UTF-8 bytes.
#[verifier::external_body]
fn base64_encode(text: &str) -> (r: String)
    ensures
        r@ == base64_standard(text@),
{
    base64::engine::general_purpose::STANDARD.encode(text)
}

/// The source map JSON: version 3, the one source with its content, no
/// names, and the mappings; `{}` should a string fail to serialize.
pub open spec fn source_map_spec(output_css: Seq<char>, path: Seq<char>, content: Seq<char>) -> Seq<
    char,
> {
    let n = if line_count(output_css) == 0 {
        1
    } else {
        line_count(output_css)
    };
    match (json_quoted(path), json_quoted(content), json_quoted(mappings_spec(n))) {
        (Some(p), Some(c), Some(m)) => "{\"version\":3,\"sources\":["@ + p
            + "],\"sourcesContent\":["@ + c + "],\"names\":[],\"mappings\":"@ + m + "}"@,
        _ => "{}"@,
    }
}

/// The mappings string for `n` generated lines.
fn build_mappings(n: usize) -> (r: String)
    requires
        n >= 1,
    ensures
        r@ == mappings_spec(n as nat),
{
    let mut s = String::new();
    append_str(&mut s, "AAAA");
    let mut k: usize = 1;
    while k < n
        invariant
            1 <= k <= n,
            s@ == mappings_spec(k as nat),
        decreases n - k,
    {
        append_str(&mut s, ";AAAA");
        k += 1;
    }
    s
}

/// `str::lines().count()`.
fn count_lines(text: &str) -> (r: usize)
    ensures
        r == line_count(text@),
{
    let v = chars_of(text);
    let mut n: usize = 0;
    let mut i: usize = 0;
    while i < v.len()
        invariant
            i <= v@.len(),
            v@ == text@,
            n == newline_count(v@.take(i as int)),
            n <= i,
        decreases v@.len() - i,
    {
        assert(v@.take(i + 1).drop_last() =~= v@.take(i as int));
        if v[i] == '\n' {
            n += 1;
        }
        i += 1;
    }
    assert(v@.take(i as int) =~= v@);
    if v.len() > 0 && v[v.len() - 1] != '\n' {
        proof {
            lemma_newline_count_le(v@.drop_last());
        }
        n + 1
    } else {
        n
    }
}

/// A Source Map v3 JSON pointing every line of `output_css` at the start
/// of `source_path`, with `source_content` inlined.
pub fn build_source_map(output_css: &str, source_path: &str, source_content: &str) -> (r: String)
    ensures
        r@ == source_map_spec(output_css@, source_path@, source_content@),
{
    let lines = count_lines(output_css);
    let n = if lines == 0 {
        1
    } else {
        lines
    };
    let mappings = build_mappings(n);
    let p = json_string_literal(source_path);
    let c = json_string_literal(source_content);
    let m = json_string_literal(mappings.as_str());
    match (p, c, m) {
        (Some(p), Some(c), Some(m)) => {
            let mut out = String::new();
            append_str(&mut out, "{\"version\":3,\"sources\":[");
            append_str(&mut out, p.as_str());
            append_str(&mut out, "],\"sourcesContent\":[");
            append_str(&mut out, c.as_str());
            append_str(&mut out, "],\"names\":[],\"mappings\":");
            append_str(&mut out, m.as_str());
            append_str(&mut out, "}");
            out
        },
        _ => {
            let mut out = String::new();
            append_str(&mut out, "{}");
            out
        },
    }
}

/// Append the inline source-map comment
/// `\n/*# sourceMappingURL=data:application/json;base64,<map> */\n` to
/// `css`.
pub fn append_inline_source_map(css: &mut String, map_json: &str)
    ensures
        final(css)@ == old(css)@ + "\n/*# sourceMappingURL=data:application/json;base64,"@
            + base64_standard(map_json@) + " */\n"@,
{
    let encoded = base64_encode(map_json);
    append_str(css, "\n/*# sourceMappingURL=data:application/json;base64,");
    append_str(css, encoded.as_str());
    append_str(css, " */\n");
}

} // verus!
