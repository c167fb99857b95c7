//! How a candidate's class is written: the escape style of commas and
//! the modifier that follows a `/`.
use vstd::prelude::*;
use crate::json::{json_get, json_str, JsonValue};
use crate::text::{append_str, chars_of};

verus! {

/// How a `,` in a class name is escaped.
#[derive(PartialEq, Eq, Structural, Clone, Copy, Debug)]
pub enum CommaEscapeStyle {
    /// `\,`
    Literal,
    /// `\2c `
    Numeric,
}

/// The configured class prefix, empty when there is none.
pub open spec fn config_prefix(config: Option<JsonValue>) -> Seq<char> {
    match config {
        Some(c) => match json_get(c, "prefix"@) {
            Some(p) => match json_str(p) {
                Some(s) => s,
                None => Seq::empty(),
            },
            None => Seq::empty(),
        },
        None => Seq::empty(),
    }
}

/// Commas are escaped literally when a prefix is configured and the
/// class has no variants and is no arbitrary property; numerically
/// otherwise.
pub open spec fn comma_style_spec(prefix: Seq<char>, class_form: Seq<char>, has_variants: bool) -> CommaEscapeStyle {
    if prefix.len() > 0 && !has_variants && !(class_form.len() > 0 && class_form[0] == '[') {
        CommaEscapeStyle::Literal
    } else {
        CommaEscapeStyle::Numeric
    }
}

/// The comma escape style for a class (`comma_style_spec`).
pub fn comma_style(config: Option<&JsonValue>, class_form: &str, has_variants: bool) -> (r:
    CommaEscapeStyle)
    ensures
        r == comma_style_spec(
            config_prefix(
                match config {
                    Some(c) => Some(*c),
                    None => None,
                },
            ),
            class_form@,
            has_variants,
        ),
{
    let prefix_len: usize = match config {
        Some(c) => match c.get("prefix") {
            Some(p) => match p.as_str() {
                Some(s) => chars_of(s).len(),
                None => 0,
            },
            None => 0,
        },
        None => 0,
    };
    let f = chars_of(class_form);
    if prefix_len > 0 && !has_variants && !(f.len() > 0 && f[0] == '[') {
        CommaEscapeStyle::Literal
    } else {
        CommaEscapeStyle::Numeric
    }
}

/// A candidate's modifier: a name, or an arbitrary value in brackets.
pub enum Modifier {
    Named(String),
    Arbitrary(String),
}

pub open spec fn modifier_text(m: Modifier) -> Seq<char> {
    match m {
        Modifier::Named(n) => n@,
        Modifier::Arbitrary(a) => seq!['['] + a@ + seq![']'],
    }
}

/// Append a modifier as it is written (`modifier_text`).
pub fn render_modifier_into(modifier: &Modifier, out: &mut String)
    ensures
        final(out)@ == old(out)@ + modifier_text(*modifier),
{
    match modifier {
        Modifier::Named(n) => append_str(out, n.as_str()),
        Modifier::Arbitrary(a) => {
            out.push('[');
            append_str(out, a.as_str());
            out.push(']');
            assert(out@ =~= old(out)@ + modifier_text(*modifier));
        },
    }
}

/// A candidate's class form without variants, `!` or negation, with its
/// modifier merged back in: `root`, then `/` and the modifier when there
/// is one. Plugin class names such as `custom-top-1/4` are found by it.
pub fn render_class_form_no_modifier(root: &str, modifier: Option<&Modifier>) -> (r: String)
    ensures
        r@ == root@ + match modifier {
            Some(m) => seq!['/'] + modifier_text(*m),
            None => Seq::empty(),
        },
{
    let mut out = String::new();
    append_str(&mut out, root);
    match modifier {
        Some(m) => {
            out.push('/');
            render_modifier_into(m, &mut out);
            assert(out@ =~= root@ + (seq!['/'] + modifier_text(*m)));
        },
        None => {
            assert(out@ =~= root@ + Seq::<char>::empty());
        },
    }
    out
}

} // verus!
