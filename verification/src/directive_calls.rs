//! The function calls that CSS directives may hold: `theme(path,
//! default)` resolved against the configured theme, and `screen(name)`
//! resolved against the configured screens; each unresolvable call is
//! left as written and reported.
use vstd::prelude::*;
use crate::config::{config_member, opt_json};
use crate::directives::{
    close_paren_from, find_matching_close_paren, ident_run_end, lemma_close_paren_bounds,
    lemma_ident_run_end_bounds,
};
use crate::json::JsonValue;
use crate::screens::{screen_view, Screen, ScreenModel};
use crate::text::{
    chars_eq, chars_of, extend_chars, lemma_trim_len, string_from_chars, sub_chars, trim_chars,
    trim_spec,
};
use crate::theme::{
    apply_alpha_to_color, ascii_alpha, first_comma, format_alpha_spec, parse_color_spec,
    path_scan, split_alpha_spec, split_first_arg, split_theme_alpha, strip_quote_chars,
    to_path_segments, transform_spec, transform_theme_value, walk_path, walk_spec,
};

verus! {

/// A warning about a directive: its code and its message.
pub struct Warning {
    pub code: String,
    pub message: String,
}

pub type WarningModel = (Seq<char>, Seq<char>);

pub open spec fn warning_view(w: Warning) -> WarningModel {
    (w.code@, w.message@)
}

pub open spec fn warnings_view(v: Seq<Warning>) -> Seq<WarningModel> {
    v.map_values(|w: Warning| warning_view(w))
}

// ---------------------------------------------------------------------
// `theme()`
// ---------------------------------------------------------------------

/// The value a `theme(path, default)` argument list finds, before its
/// default is considered: the path (before the first top-level comma,
/// trimmed, quotes taken off) with an optional `/ alpha`, looked up in
/// the configured theme and rendered for its section; with an alpha,
/// the color carries it (no value when it is no color).
pub open spec fn theme_value_spec(config: Option<JsonValue>, arg: Seq<char>) -> Option<Seq<char>> {
    let c = first_comma(arg, 0, 0, 0);
    let path_arg = if c < 0 {
        arg
    } else {
        arg.take(c)
    };
    let raw = strip_quote_chars(trim_spec(path_arg));
    let (path, alpha) = split_alpha_spec(raw);
    let segs = path_scan(path, 0, Seq::empty(), false);
    let section = if segs.len() > 0 {
        segs[0]
    } else {
        Seq::empty()
    };
    let resolved = match config_member(config, "theme"@) {
        Some(t) => walk_spec(t, segs, 0),
        None => None,
    };
    match resolved {
        None => None,
        Some(v) => match transform_spec(section, v) {
            None => None,
            Some(s) => match alpha {
                None => Some(s),
                Some(a) => match parse_color_spec(s) {
                    Some(col) => Some(format_alpha_spec(col, a)),
                    None => None,
                },
            },
        },
    }
}

/// The text a `theme()` call becomes and the warnings it gives: the
/// value found when it is not empty; else its default, trimmed, with the
/// `theme()` calls inside resolved in turn; else the call as written,
/// with a warning.
pub open spec fn theme_spec(config: Option<JsonValue>, arg: Seq<char>) -> (
    Seq<char>,
    Seq<WarningModel>,
)
    decreases arg.len(), 0int,
{
    match theme_value_spec(config, arg) {
        Some(s) if s.len() > 0 => (s, Seq::empty()),
        _ => {
            let c = first_comma(arg, 0, 0, 0);
            if c >= 0 && c < arg.len() {
                let d = trim_spec(arg.skip(c + 1));
                proof {
                    lemma_trim_len(arg.skip(c + 1));
                }
                theme_str_spec(config, d)
            } else {
                (
                    "theme("@ + arg + seq![')'],
                    seq![
                        ("unknown-theme-path"@, "`theme("@ + arg + ")` does not match any theme value"@),
                    ],
                )
            }
        },
    }
}

/// A text with its `theme()` calls resolved (`theme_spec`); a text
/// without `theme(` is left as it is.
pub open spec fn theme_str_spec(config: Option<JsonValue>, s: Seq<char>) -> (
    Seq<char>,
    Seq<WarningModel>,
)
    decreases s.len(), s.len() + 2,
{
    if crate::directives::find_from(s, "theme("@, 0) < 0 {
        (s, Seq::empty())
    } else {
        theme_str_scan(config, s, 0)
    }
}

/// `s[i..]` with each `theme(...)` call replaced; other characters are
/// copied one by one.
pub open spec fn theme_str_scan(config: Option<JsonValue>, s: Seq<char>, i: int) -> (
    Seq<char>,
    Seq<WarningModel>,
)
    decreases s.len(), s.len() + 1 - i,
{
    if !(0 <= i < s.len()) {
        (Seq::empty(), Seq::empty())
    } else {
        proof {
            lemma_ident_run_end_bounds(s, i);
        }
        let end = ident_run_end(s, i);
        let close = close_paren_from(s, end + 1, 1);
        proof {
            lemma_close_paren_bounds(s, end + 1, 1);
        }
        if ascii_alpha(s[i]) && s.subrange(i, end) == "theme"@ && end < s.len() && s[end] == '('
            && close >= 0 {
            let x = trim_spec(s.subrange(end + 1, close));
            proof {
                lemma_trim_len(s.subrange(end + 1, close));
            }
            let (t, w) = theme_spec(config, x);
            let (t2, w2) = theme_str_scan(config, s, close + 1);
            (t + t2, w + w2)
        } else {
            let (t2, w2) = theme_str_scan(config, s, i + 1);
            (seq![s[i]] + t2, w2)
        }
    }
}

fn strip_quotes_exec(t: &Vec<char>) -> (r: Vec<char>)
    ensures
        r@ == strip_quote_chars(t@),
{
    let mut a: usize = 0;
    while a < t.len() && (t[a] == '"' || t[a] == '\'')
        invariant
            a <= t@.len(),
            crate::theme::quote_lead(t@, a as int) == crate::theme::quote_lead(t@, 0),
        decreases t@.len() - a,
    {
        a += 1;
    }
    if a >= t.len() {
        return Vec::new();
    }
    let mut b: usize = t.len();
    while b > 0 && (t[b - 1] == '"' || t[b - 1] == '\'')
        invariant
            b <= t@.len(),
            a < t@.len(),
            !crate::theme::is_quote_char(t@[a as int]),
            b > a,
            crate::theme::quote_trail(t@, b as int) == crate::theme::quote_trail(
                t@,
                t@.len() as int,
            ),
        decreases b,
    {
        b -= 1;
    }
    sub_chars(t, a, b)
}

fn theme_value(config: Option<&JsonValue>, arg: &Vec<char>) -> (r: Option<Vec<char>>)
    ensures
        match r {
            Some(s) => theme_value_spec(opt_json(config), arg@) == Some(s@),
            None => theme_value_spec(opt_json(config), arg@) is None,
        },
{
    let (path_arg, _) = split_first_arg(arg);
    let raw = strip_quotes_exec(&trim_chars(&path_arg));
    let (path, alpha) = split_theme_alpha(&raw);
    let path_text = string_from_chars(&path);
    let segs = to_path_segments(path_text.as_str());
    let ghost sv = crate::directives::chars_list_view(segs@);
    let theme = match config {
        Some(c) => c.get("theme"),
        None => None,
    };
    let resolved = match theme {
        Some(t) => walk_path(t, &segs),
        None => None,
    };
    let section = if segs.len() > 0 {
        assert(sv[0] == segs@[0]@);
        string_from_chars(&segs[0])
    } else {
        String::new()
    };
    let v = match resolved {
        Some(v) => v,
        None => {
            return None;
        },
    };
    let s = match transform_theme_value(section.as_str(), v) {
        Some(s) => s,
        None => {
            return None;
        },
    };
    match alpha {
        None => Some(chars_of(s.as_str())),
        Some(a) => {
            let at = string_from_chars(&a);
            match apply_alpha_to_color(s.as_str(), at.as_str()) {
                Some(t) => Some(chars_of(t.as_str())),
                None => None,
            }
        },
    }
}

fn push_warning(warnings: &mut Vec<Warning>, code: &str, before: &str, arg: &Vec<char>, after: &str)
    ensures
        warnings_view(final(warnings)@) == warnings_view(old(warnings)@).push(
            (code@, before@ + arg@ + after@),
        ),
{
    let mut m = chars_of(before);
    extend_chars(&mut m, arg);
    extend_chars(&mut m, &chars_of(after));
    let w = Warning { code: string_from_chars(&chars_of(code)), message: string_from_chars(&m) };
    let ghost prev = warnings_view(warnings@);
    warnings.push(w);
    assert(warnings_view(warnings@) =~= prev.push(warning_view(w)));
}

fn resolve_theme_chars(config: Option<&JsonValue>, arg: &Vec<char>, warnings: &mut Vec<Warning>) -> (r: Vec<char>)
    ensures
        r@ == theme_spec(opt_json(config), arg@).0,
        warnings_view(final(warnings)@) == warnings_view(old(warnings)@) + theme_spec(
            opt_json(config),
            arg@,
        ).1,
    decreases arg@.len(), 0int,
{
    match theme_value(config, arg) {
        Some(s) => {
            if s.len() > 0 {
                assert(warnings_view(warnings@) + Seq::<WarningModel>::empty() =~= warnings_view(
                    warnings@,
                ));
                return s;
            }
        },
        None => {},
    }
    let (_, default_arg) = split_first_arg(arg);
    proof {
        crate::theme::lemma_first_comma_bounds(arg@, 0, 0, 0);
    }
    match default_arg {
        Some(d) => {
            let dt = trim_chars(&d);
            proof {
                lemma_trim_len(d@);
            }
            resolve_theme_in_chars(config, &dt, warnings)
        },
        None => {
            let mut out = chars_of("theme(");
            extend_chars(&mut out, arg);
            out.push(')');
            push_warning(warnings, "unknown-theme-path", "`theme(", arg, ")` does not match any theme value");
            proof {
                reveal_strlit("theme(");
                assert(out@ =~= "theme("@ + arg@ + seq![')']);
            }
            out
        },
    }
}

fn resolve_theme_in_chars(config: Option<&JsonValue>, s: &Vec<char>, warnings: &mut Vec<Warning>) -> (r: Vec<char>)
    ensures
        r@ == theme_str_spec(opt_json(config), s@).0,
        warnings_view(final(warnings)@) == warnings_view(old(warnings)@) + theme_str_spec(
            opt_json(config),
            s@,
        ).1,
    decreases s@.len(), s@.len() + 2,
{
    let needle = chars_of("theme(");
    proof {
        reveal_strlit("theme(");
    }
    if crate::directives::find_needle(s, &needle).is_none() {
        assert(warnings_view(warnings@) + Seq::<WarningModel>::empty() =~= warnings_view(warnings@));
        return sub_chars(s, 0, s.len());
    }
    let ghost cfg = opt_json(config);
    let ghost w0 = warnings_view(warnings@);
    let mut out: Vec<char> = Vec::new();
    let mut i: usize = 0;
    while i < s.len()
        invariant
            i <= s@.len(),
            cfg == opt_json(config),
            out@ + theme_str_scan(cfg, s@, i as int).0 == theme_str_scan(cfg, s@, 0).0,
            warnings_view(warnings@) + theme_str_scan(cfg, s@, i as int).1 == w0 + theme_str_scan(
                cfg,
                s@,
                0,
            ).1,
        decreases s@.len() - i,
    {
        let ghost before = out@;
        let ghost wb = warnings_view(warnings@);
        proof {
            lemma_ident_run_end_bounds(s@, i as int);
        }
        let end = crate::css_blocks::scan_ident(s, i);
        let mut done = false;
        if crate::theme::is_ascii_alpha(s[i]) && end < s.len() && s[end] == '(' && chars_eq(
            &sub_chars(s, i, end),
            &chars_of("theme"),
        ) {
            match find_matching_close_paren(s, end) {
                Some(close) => {
                    proof {
                        lemma_close_paren_bounds(s@, end + 1, 1);
                    }
                    let inner = sub_chars(s, end + 1, close);
                    let x = trim_chars(&inner);
                    proof {
                        lemma_trim_len(inner@);
                    }
                    let t = resolve_theme_chars(config, &x, warnings);
                    extend_chars(&mut out, &t);
                    proof {
                        let rest = theme_str_scan(cfg, s@, close + 1);
                        assert(before + (t@ + rest.0) =~= out@ + rest.0);
                        assert(wb + (theme_spec(cfg, x@).1 + rest.1) =~= warnings_view(warnings@)
                            + rest.1);
                    }
                    i = close + 1;
                    done = true;
                },
                None => {},
            }
        }
        if !done {
            out.push(s[i]);
            proof {
                let rest = theme_str_scan(cfg, s@, i + 1);
                assert(before + (seq![s@[i as int]] + rest.0) =~= out@ + rest.0);
            }
            i += 1;
        }
    }
    proof {
        assert(out@ + Seq::<char>::empty() =~= out@);
        assert(warnings_view(warnings@) + Seq::<WarningModel>::empty() =~= warnings_view(warnings@));
    }
    out
}

/// What a `theme()` argument list resolves to (`theme_spec`); the
/// warnings it gives are appended to `warnings`.
pub fn resolve_theme(config: Option<&JsonValue>, arg: &str, warnings: &mut Vec<Warning>) -> (r: String)
    ensures
        r@ == theme_spec(opt_json(config), arg@).0,
        warnings_view(final(warnings)@) == warnings_view(old(warnings)@) + theme_spec(
            opt_json(config),
            arg@,
        ).1,
{
    string_from_chars(&resolve_theme_chars(config, &chars_of(arg), warnings))
}

/// A text with its `theme()` calls resolved (`theme_str_spec`); the
/// warnings they give are appended to `warnings`.
pub fn resolve_theme_in_string(config: Option<&JsonValue>, s: &str, warnings: &mut Vec<Warning>) -> (r: String)
    ensures
        r@ == theme_str_spec(opt_json(config), s@).0,
        warnings_view(final(warnings)@) == warnings_view(old(warnings)@) + theme_str_spec(
            opt_json(config),
            s@,
        ).1,
{
    string_from_chars(&resolve_theme_in_chars(config, &chars_of(s), warnings))
}

// ---------------------------------------------------------------------
// `screen()`
// ---------------------------------------------------------------------

/// The first screen named `name` from `k`, or -1.
pub open spec fn screen_named(screens: Seq<ScreenModel>, name: Seq<char>, k: int) -> int
    decreases screens.len() - k,
{
    if !(0 <= k < screens.len()) {
        -1
    } else if screens[k].0 == name {
        k
    } else {
        screen_named(screens, name, k + 1)
    }
}

/// What `screen(<name>)` becomes: the media query body of the screen of
/// that name (trimmed, quotes taken off): its raw body, or
/// `(min-width: <value>)`; the call as written, with a warning, when no
/// screen has the name.
pub open spec fn screen_spec(screens: Seq<ScreenModel>, name: Seq<char>) -> (
    Seq<char>,
    Seq<WarningModel>,
) {
    let u = strip_quote_chars(trim_spec(name));
    let k = screen_named(screens, u, 0);
    if 0 <= k < screens.len() {
        if screens[k].2 {
            (screens[k].1, Seq::empty())
        } else {
            ("(min-width: "@ + screens[k].1 + seq![')'], Seq::empty())
        }
    } else {
        (
            "screen("@ + name + seq![')'],
            seq![("unknown-screen"@, "`screen("@ + name + ")` does not match any configured screen"@)],
        )
    }
}

/// `s[i..]` with each `screen(...)` call replaced (`screen_spec`, the
/// argument trimmed); other characters are copied one by one.
pub open spec fn screen_calls_scan(screens: Seq<ScreenModel>, s: Seq<char>, i: int) -> (
    Seq<char>,
    Seq<WarningModel>,
)
    decreases s.len() - i,
{
    if !(0 <= i < s.len()) {
        (Seq::empty(), Seq::empty())
    } else {
        proof {
            lemma_ident_run_end_bounds(s, i);
        }
        let end = ident_run_end(s, i);
        let close = close_paren_from(s, end + 1, 1);
        proof {
            lemma_close_paren_bounds(s, end + 1, 1);
        }
        if ascii_alpha(s[i]) && s.subrange(i, end) == "screen"@ && end < s.len() && s[end] == '('
            && close >= 0 {
            let (t, w) = screen_spec(screens, trim_spec(s.subrange(end + 1, close)));
            let (t2, w2) = screen_calls_scan(screens, s, close + 1);
            (t + t2, w + w2)
        } else {
            let (t2, w2) = screen_calls_scan(screens, s, i + 1);
            (seq![s[i]] + t2, w2)
        }
    }
}

pub open spec fn screens_model(v: Seq<Screen>) -> Seq<ScreenModel> {
    v.map_values(|s: Screen| screen_view(s))
}

fn resolve_screen_chars(screens: &Vec<Screen>, name: &Vec<char>, warnings: &mut Vec<Warning>) -> (r: Vec<char>)
    ensures
        r@ == screen_spec(screens_model(screens@), name@).0,
        warnings_view(final(warnings)@) == warnings_view(old(warnings)@) + screen_spec(
            screens_model(screens@),
            name@,
        ).1,
{
    let ghost sm = screens_model(screens@);
    let u = strip_quotes_exec(&trim_chars(name));
    let mut k: usize = 0;
    while k < screens.len()
        invariant
            k <= screens@.len(),
            sm == screens_model(screens@),
            u@ == strip_quote_chars(trim_spec(name@)),
            warnings@ == old(warnings)@,
            screen_named(sm, u@, k as int) == screen_named(sm, u@, 0),
        decreases screens@.len() - k,
    {
        assert(sm[k as int] == screen_view(screens@[k as int]));
        if chars_eq(&chars_of(screens[k].name.as_str()), &u) {
            assert(warnings_view(warnings@) + Seq::<WarningModel>::empty() =~= warnings_view(
                warnings@,
            ));
            if screens[k].is_raw {
                return chars_of(screens[k].value.as_str());
            }
            let mut out = chars_of("(min-width: ");
            extend_chars(&mut out, &chars_of(screens[k].value.as_str()));
            out.push(')');
            proof {
                reveal_strlit("(min-width: ");
                assert(out@ =~= "(min-width: "@ + sm[k as int].1 + seq![')']);
            }
            return out;
        }
        k += 1;
    }
    let mut out = chars_of("screen(");
    extend_chars(&mut out, name);
    out.push(')');
    push_warning(warnings, "unknown-screen", "`screen(", name, ")` does not match any configured screen");
    proof {
        reveal_strlit("screen(");
        assert(out@ =~= "screen("@ + name@ + seq![')']);
    }
    out
}

/// What `screen(<name>)` becomes (`screen_spec`); a warning for an
/// unknown screen is appended to `warnings`.
pub fn resolve_screen(screens: &Vec<Screen>, name: &str, warnings: &mut Vec<Warning>) -> (r: String)
    ensures
        r@ == screen_spec(screens_model(screens@), name@).0,
        warnings_view(final(warnings)@) == warnings_view(old(warnings)@) + screen_spec(
            screens_model(screens@),
            name@,
        ).1,
{
    string_from_chars(&resolve_screen_chars(screens, &chars_of(name), warnings))
}

/// At-rule parameters with their `screen()` calls replaced
/// (`screen_calls_scan`); warnings are appended to `warnings`.
pub fn resolve_screen_calls(screens: &Vec<Screen>, params: &str, warnings: &mut Vec<Warning>) -> (r: String)
    ensures
        r@ == screen_calls_scan(screens_model(screens@), params@, 0).0,
        warnings_view(final(warnings)@) == warnings_view(old(warnings)@) + screen_calls_scan(
            screens_model(screens@),
            params@,
            0,
        ).1,
{
    let s = chars_of(params);
    let ghost sm = screens_model(screens@);
    let ghost w0 = warnings_view(warnings@);
    let mut out: Vec<char> = Vec::new();
    let mut i: usize = 0;
    while i < s.len()
        invariant
            i <= s@.len(),
            s@ == params@,
            sm == screens_model(screens@),
            out@ + screen_calls_scan(sm, s@, i as int).0 == screen_calls_scan(sm, s@, 0).0,
            warnings_view(warnings@) + screen_calls_scan(sm, s@, i as int).1 == w0
                + screen_calls_scan(sm, s@, 0).1,
        decreases s@.len() - i,
    {
        let ghost before = out@;
        let ghost wb = warnings_view(warnings@);
        proof {
            lemma_ident_run_end_bounds(s@, i as int);
        }
        let end = crate::css_blocks::scan_ident(&s, i);
        let mut done = false;
        if crate::theme::is_ascii_alpha(s[i]) && end < s.len() && s[end] == '(' && chars_eq(
            &sub_chars(&s, i, end),
            &chars_of("screen"),
        ) {
            match find_matching_close_paren(&s, end) {
                Some(close) => {
                    proof {
                        lemma_close_paren_bounds(s@, end + 1, 1);
                    }
                    let arg = trim_chars(&sub_chars(&s, end + 1, close));
                    let t = resolve_screen_chars(screens, &arg, warnings);
                    extend_chars(&mut out, &t);
                    proof {
                        let rest = screen_calls_scan(sm, s@, close + 1);
                        assert(before + (t@ + rest.0) =~= out@ + rest.0);
                        assert(wb + (screen_spec(sm, arg@).1 + rest.1) =~= warnings_view(warnings@)
                            + rest.1);
                    }
                    i = close + 1;
                    done = true;
                },
                None => {},
            }
        }
        if !done {
            out.push(s[i]);
            proof {
                let rest = screen_calls_scan(sm, s@, i + 1);
                assert(before + (seq![s@[i as int]] + rest.0) =~= out@ + rest.0);
            }
            i += 1;
        }
    }
    proof {
        assert(out@ + Seq::<char>::empty() =~= out@);
        assert(warnings_view(warnings@) + Seq::<WarningModel>::empty() =~= warnings_view(warnings@));
    }
    string_from_chars(&out)
}

} // verus!
