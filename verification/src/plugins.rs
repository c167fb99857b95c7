//! Rules, declarations and variants recorded from user plugins, and the
//! class extraction that lets a candidate find the plugin rules it
//! triggers.
//!
//! Plugins run elsewhere against a recording context; what they added
//! (`utilities`, `components`, `base`, `variants`) reaches the compiler as
//! plain data, which this module reads.
use vstd::prelude::*;
use crate::text::{
    ascii_alnum, chars_of, has_prefix_at, is_ascii_alnum, lead_ws, prefix_at, string_from_chars,
    string_from_range, sub_chars, trim_chars, trim_end_chars, trim_end_spec, trim_spec,
    trim_start_chars, trim_start_spec, trail_ws, quote_end, quote_end_at, lemma_quote_end_bounds,
};

verus! {

/// Everything the plugins of a configuration added.
#[derive(Clone, Debug)]
pub struct PluginOutput {
    pub utilities: Vec<PluginRule>,
    pub components: Vec<PluginRule>,
    pub base: Vec<PluginRule>,
    pub variants: Vec<PluginVariant>,
}

/// One rule a plugin added.
#[derive(Clone, Debug)]
pub struct PluginRule {
    pub selector: String,
    pub declarations: Vec<PluginDecl>,
    /// Enclosing at-rules, outermost first.
    pub at_rules: Vec<String>,
    /// Whether the `important` configuration applies to the rule
    /// (`respectImportant`; true for utilities unless the plugin opts out).
    pub respect_important: bool,
    /// The candidate class this rule was emitted with, for companion rules
    /// (such as `@keyframes`) that carry no class selector of their own.
    pub group_class: Option<String>,
}

/// One declaration of a plugin rule.
#[derive(Clone, Debug)]
pub struct PluginDecl {
    pub property: String,
    pub value: String,
    pub important: bool,
}

/// A variant a plugin added with `addVariant`.
#[derive(Clone, Debug)]
pub struct PluginVariant {
    pub name: String,
    /// Selector formats, `&` standing for the rule's selector.
    pub selector_formats: Vec<String>,
    pub at_rule: Option<String>,
    /// A template for declaration values, `{}` standing for the original
    /// value.
    pub decl_value_template: Option<String>,
}

impl Default for PluginOutput {
    fn default() -> (r: Self)
        ensures
            r.utilities@.len() == 0,
            r.components@.len() == 0,
            r.base@.len() == 0,
            r.variants@.len() == 0,
    {
        PluginOutput {
            utilities: Vec::new(),
            components: Vec::new(),
            base: Vec::new(),
            variants: Vec::new(),
        }
    }
}

/// The `respectImportant` a rule has when the plugin says nothing.
pub fn default_respect_important() -> (r: bool)
    ensures
        r,
{
    true
}

pub open spec fn strings_view(v: Seq<String>) -> Seq<Seq<char>> {
    v.map_values(|x: String| x@)
}

pub open spec fn opt_chars(o: Option<Vec<char>>) -> Option<Seq<char>> {
    match o {
        Some(v) => Some(v@),
        None => None,
    }
}

pub open spec fn opt_string(o: Option<String>) -> Option<Seq<char>> {
    match o {
        Some(v) => Some(v@),
        None => None,
    }
}

// ---------------------------------------------------------------------
// Class names
// ---------------------------------------------------------------------

/// A character of a class name outside brackets: an ASCII letter or
/// digit, `-`, `_` or `/`.
pub open spec fn class_char(c: char) -> bool {
    ascii_alnum(c) || c == '-' || c == '_' || c == '/'
}

/// The end of the class name whose scan is at `i` with `depth` open
/// brackets: `\x` escapes are taken whole, a bracketed run takes anything
/// up to its matching `]`, and outside brackets only class characters
/// continue the name.
pub open spec fn class_end(s: Seq<char>, i: int, depth: nat) -> int
    decreases s.len() - i,
{
    if !(0 <= i < s.len()) {
        i
    } else if s[i] == '\\' && i + 1 < s.len() {
        class_end(s, i + 2, depth)
    } else if s[i] == '[' {
        class_end(s, i + 1, depth + 1)
    } else if s[i] == ']' {
        if depth > 0 {
            class_end(s, i + 1, (depth - 1) as nat)
        } else {
            i
        }
    } else if depth > 0 || class_char(s[i]) {
        class_end(s, i + 1, depth)
    } else {
        i
    }
}

/// The end of a class name that is skipped rather than collected (inside
/// `:not(...)`): escapes and class characters, no brackets.
pub open spec fn skip_name_end(s: Seq<char>, i: int) -> int
    decreases s.len() - i,
{
    if !(0 <= i < s.len()) {
        i
    } else if s[i] == '\\' && i + 1 < s.len() {
        skip_name_end(s, i + 2)
    } else if class_char(s[i]) {
        skip_name_end(s, i + 1)
    } else {
        i
    }
}

pub proof fn lemma_class_end_bounds(s: Seq<char>, i: int, depth: nat)
    requires
        0 <= i <= s.len(),
    ensures
        i <= class_end(s, i, depth) <= s.len(),
    decreases s.len() - i,
{
    if i < s.len() {
        if s[i] == '\\' && i + 1 < s.len() {
            lemma_class_end_bounds(s, i + 2, depth);
        } else if s[i] == '[' {
            lemma_class_end_bounds(s, i + 1, depth + 1);
        } else if s[i] == ']' {
            if depth > 0 {
                lemma_class_end_bounds(s, i + 1, (depth - 1) as nat);
            }
        } else if depth > 0 || class_char(s[i]) {
            lemma_class_end_bounds(s, i + 1, depth);
        }
    }
}

pub proof fn lemma_skip_name_end_bounds(s: Seq<char>, i: int)
    requires
        0 <= i <= s.len(),
    ensures
        i <= skip_name_end(s, i) <= s.len(),
    decreases s.len() - i,
{
    if i < s.len() {
        if s[i] == '\\' && i + 1 < s.len() {
            lemma_skip_name_end_bounds(s, i + 2);
        } else if class_char(s[i]) {
            lemma_skip_name_end_bounds(s, i + 1);
        }
    }
}

fn is_class_char(c: char) -> (r: bool)
    ensures
        r == class_char(c),
{
    is_ascii_alnum(c) || c == '-' || c == '_' || c == '/'
}

fn class_end_at(s: &Vec<char>, start: usize) -> (e: usize)
    requires
        start <= s@.len(),
    ensures
        e == class_end(s@, start as int, 0),
{
    let mut i = start;
    let mut depth: usize = 0;
    while i < s.len()
        invariant
            start <= i <= s@.len(),
            depth <= i,
            class_end(s@, i as int, depth as nat) == class_end(s@, start as int, 0),
        decreases s@.len() - i,
    {
        let c = s[i];
        if c == '\\' && i + 1 < s.len() {
            i += 2;
        } else if c == '[' {
            depth += 1;
            i += 1;
        } else if c == ']' {
            if depth > 0 {
                depth -= 1;
                i += 1;
            } else {
                return i;
            }
        } else if depth > 0 || is_class_char(c) {
            i += 1;
        } else {
            return i;
        }
    }
    i
}

fn skip_name_at(s: &Vec<char>, start: usize) -> (e: usize)
    requires
        start <= s@.len(),
    ensures
        e == skip_name_end(s@, start as int),
{
    let mut i = start;
    while i < s.len()
        invariant
            start <= i <= s@.len(),
            skip_name_end(s@, i as int) == skip_name_end(s@, start as int),
        decreases s@.len() - i,
    {
        let c = s[i];
        if c == '\\' && i + 1 < s.len() {
            i += 2;
        } else if is_class_char(c) {
            i += 1;
        } else {
            return i;
        }
    }
    i
}

// ---------------------------------------------------------------------
// The primary class
// ---------------------------------------------------------------------

/// The position of the `)` that closes a group opened before `i`, with
/// `depth` groups open; -1 when there is none. `\x` escapes are skipped.
pub open spec fn close_paren(s: Seq<char>, i: int, depth: int) -> int
    decreases s.len() - i,
{
    if !(0 <= i < s.len()) {
        -1
    } else if s[i] == '\\' && i + 1 < s.len() {
        close_paren(s, i + 2, depth)
    } else if s[i] == '(' {
        close_paren(s, i + 1, depth + 1)
    } else if s[i] == ')' {
        if depth <= 1 {
            i
        } else {
            close_paren(s, i + 1, depth - 1)
        }
    } else {
        close_paren(s, i + 1, depth)
    }
}

/// The position of the first `,` at or after `i`, or the length.
pub open spec fn comma_pos(s: Seq<char>, i: int) -> int
    decreases s.len() - i,
{
    if !(0 <= i < s.len()) {
        i
    } else if s[i] == ',' {
        i
    } else {
        comma_pos(s, i + 1)
    }
}

/// The length of the `:where(`, `:is(` or `:has(` that `s` starts with,
/// or 0.
pub open spec fn wrapper_prefix_len(s: Seq<char>) -> int {
    if has_prefix_at(s, 0, ":where("@) {
        ":where("@.len() as int
    } else if has_prefix_at(s, 0, ":is("@) {
        ":is("@.len() as int
    } else if has_prefix_at(s, 0, ":has("@) {
        ":has("@.len() as int
    } else {
        0
    }
}

/// When the whole of `s` is one `:where(...)`, `:is(...)` or `:has(...)`,
/// the first comma-separated entry of its argument, trimmed.
pub open spec fn strip_wrapper_spec(s: Seq<char>) -> Option<Seq<char>> {
    let p = wrapper_prefix_len(s);
    let rest = s.skip(p);
    let c = close_paren(rest, 0, 1);
    if p > 0 && c >= 0 && c + 1 == rest.len() {
        let inner = rest.take(c);
        Some(trim_spec(inner.take(comma_pos(inner, 0))))
    } else {
        None
    }
}

/// The class a plugin rule's selector is for: the selector trimmed, a
/// leading `&` (and the space after it) dropped, one whole-selector
/// `:where`/`:is`/`:has` wrapper peeled, and then the class name after a
/// leading `.`; `None` when there is no such class.
pub open spec fn primary_class_spec(selector: Seq<char>) -> Option<Seq<char>> {
    let t = trim_spec(selector);
    let s = if t.len() > 0 && t[0] == '&' {
        trim_start_spec(t.drop_first())
    } else {
        t
    };
    let u = match strip_wrapper_spec(s) {
        Some(x) => x,
        None => s,
    };
    if u.len() > 0 && u[0] == '.' {
        let rest = u.drop_first();
        let e = class_end(rest, 0, 0);
        if e > 0 {
            Some(rest.take(e))
        } else {
            None
        }
    } else {
        None
    }
}

fn close_paren_at(s: &Vec<char>) -> (r: Option<usize>)
    ensures
        match r {
            Some(c) => close_paren(s@, 0, 1) == c as int && c < s@.len(),
            None => close_paren(s@, 0, 1) == -1,
        },
{
    let mut i: usize = 0;
    // the number of groups open beyond the wrapper's own
    let mut extra: usize = 0;
    while i < s.len()
        invariant
            i <= s@.len(),
            extra <= i,
            close_paren(s@, i as int, extra + 1) == close_paren(s@, 0, 1),
        decreases s@.len() - i,
    {
        let c = s[i];
        if c == '\\' && i + 1 < s.len() {
            i += 2;
        } else if c == '(' {
            extra += 1;
            i += 1;
        } else if c == ')' {
            if extra == 0 {
                return Some(i);
            }
            extra -= 1;
            i += 1;
        } else {
            i += 1;
        }
    }
    None
}

fn comma_pos_at(s: &Vec<char>) -> (r: usize)
    ensures
        r == comma_pos(s@, 0),
        r <= s@.len(),
{
    let mut i: usize = 0;
    while i < s.len()
        invariant
            i <= s@.len(),
            comma_pos(s@, i as int) == comma_pos(s@, 0),
        decreases s@.len() - i,
    {
        if s[i] == ',' {
            return i;
        }
        i += 1;
    }
    i
}

fn wrapper_prefix(s: &Vec<char>) -> (r: usize)
    ensures
        r == wrapper_prefix_len(s@),
        r <= s@.len(),
{
    let w = chars_of(":where(");
    if prefix_at(s, 0, &w) {
        return w.len();
    }
    let i = chars_of(":is(");
    if prefix_at(s, 0, &i) {
        return i.len();
    }
    let h = chars_of(":has(");
    if prefix_at(s, 0, &h) {
        return h.len();
    }
    0
}

/// Peel a whole-selector `:where(...)`/`:is(...)`/`:has(...)` wrapper
/// (see `strip_wrapper_spec`).
fn strip_pseudo_wrapper(s: &Vec<char>) -> (r: Option<Vec<char>>)
    ensures
        opt_chars(r) == strip_wrapper_spec(s@),
{
    let p = wrapper_prefix(s);
    if p == 0 {
        return None;
    }
    let rest = sub_chars(s, p, s.len());
    assert(rest@ =~= s@.skip(p as int));
    match close_paren_at(&rest) {
        Some(c) => {
            if c + 1 == rest.len() {
                let inner = sub_chars(&rest, 0, c);
                assert(inner@ =~= rest@.take(c as int));
                let k = comma_pos_at(&inner);
                let first = sub_chars(&inner, 0, k);
                assert(first@ =~= inner@.take(k as int));
                Some(trim_chars(&first))
            } else {
                None
            }
        },
        None => None,
    }
}

impl PluginRule {
    /// The bare class name the selector is for (`.scrollbar-none` gives
    /// `scrollbar-none`), or `None` for selectors that do not start with a
    /// class (`html`, `*`, `body > *`). Bracketed arbitrary values
    /// (`.bg-[#0b14374d]`) and `/` stay part of the name; a leading `&`
    /// and one whole-selector `:where`/`:is`/`:has` wrapper are looked
    /// through.
    pub fn primary_class(&self) -> (r: Option<String>)
        ensures
            opt_string(r) == primary_class_spec(self.selector@),
    {
        let all = chars_of(self.selector.as_str());
        let t = trim_chars(&all);
        let s = if t.len() > 0 && t[0] == '&' {
            let d = sub_chars(&t, 1, t.len());
            assert(d@ =~= t@.drop_first());
            trim_start_chars(&d)
        } else {
            t
        };
        let u = match strip_pseudo_wrapper(&s) {
            Some(x) => x,
            None => s,
        };
        if u.len() == 0 || u[0] != '.' {
            return None;
        }
        let rest = sub_chars(&u, 1, u.len());
        assert(rest@ =~= u@.drop_first());
        let e = class_end_at(&rest, 0);
        if e == 0 {
            return None;
        }
        proof {
            lemma_class_end_bounds(rest@, 0, 0);
        }
        let name = string_from_range(&rest, 0, e);
        assert(name@ =~= rest@.take(e as int));
        Some(name)
    }
}

// ---------------------------------------------------------------------
// Referenced classes
// ---------------------------------------------------------------------

/// The classes named in `s` from position `i` on, with `not_depth` groups
/// of a `:not(...)` open: every `.<class>` outside `:not(...)` and
/// outside quoted strings, in order. Escapes are skipped in pairs.
pub open spec fn refs_from(s: Seq<char>, i: int, not_depth: nat) -> Seq<Seq<char>>
    decreases s.len() - i,
{
    if !(0 <= i < s.len()) {
        Seq::empty()
    } else if s[i] == '\\' && i + 1 < s.len() {
        refs_from(s, i + 2, not_depth)
    } else if s[i] == '"' || s[i] == '\'' {
        proof {
            lemma_quote_end_bounds(s, i + 1, s[i]);
        }
        refs_from(s, quote_end(s, i + 1, s[i]), not_depth)
    } else if s[i] == ':' {
        if has_prefix_at(s, i, ":not("@) {
            proof {
                reveal_strlit(":not(");
            }
            refs_from(s, i + ":not("@.len(), not_depth + 1)
        } else {
            refs_from(s, i + 1, not_depth)
        }
    } else if s[i] == '(' && not_depth > 0 {
        refs_from(s, i + 1, not_depth + 1)
    } else if s[i] == ')' && not_depth > 0 {
        refs_from(s, i + 1, (not_depth - 1) as nat)
    } else if s[i] == '.' && not_depth > 0 {
        proof {
            lemma_skip_name_end_bounds(s, i + 1);
        }
        refs_from(s, skip_name_end(s, i + 1), not_depth)
    } else if s[i] == '.' {
        proof {
            lemma_class_end_bounds(s, i + 1, 0);
        }
        let e = class_end(s, i + 1, 0);
        if e > i + 1 {
            seq![s.subrange(i + 1, e)] + refs_from(s, e, not_depth)
        } else {
            refs_from(s, e, not_depth)
        }
    } else {
        refs_from(s, i + 1, not_depth)
    }
}

impl PluginRule {
    /// Every `.<class>` the selector names, in order, including those
    /// inside `:is()`/`:where()`/`:has()`, but not those inside `:not()`
    /// (exclusions, not targets) or inside quoted attribute values.
    pub fn referenced_classes(&self) -> (r: Vec<String>)
        ensures
            strings_view(r@) == refs_from(self.selector@, 0, 0),
    {
        let s = chars_of(self.selector.as_str());
        let not_open = chars_of(":not(");
        let mut out: Vec<String> = Vec::new();
        let mut i: usize = 0;
        let mut nd: usize = 0;
        while i < s.len()
            invariant
                s@ == self.selector@,
                not_open@ == ":not("@,
                i <= s@.len(),
                nd <= i,
                strings_view(out@) + refs_from(s@, i as int, nd as nat) == refs_from(s@, 0, 0),
            decreases s@.len() - i,
        {
            let c = s[i];
            let ghost before = strings_view(out@);
            if c == '\\' && i + 1 < s.len() {
                i += 2;
            } else if c == '"' || c == '\'' {
                proof {
                    lemma_quote_end_bounds(s@, i + 1, c);
                }
                i = quote_end_at(&s, i + 1, c);
            } else if c == ':' {
                if prefix_at(&s, i, &not_open) {
                    proof {
                        reveal_strlit(":not(");
                    }
                    nd += 1;
                    i += not_open.len();
                } else {
                    i += 1;
                }
            } else if c == '(' && nd > 0 {
                nd += 1;
                i += 1;
            } else if c == ')' && nd > 0 {
                nd -= 1;
                i += 1;
            } else if c == '.' && nd > 0 {
                proof {
                    lemma_skip_name_end_bounds(s@, i + 1);
                }
                i = skip_name_at(&s, i + 1);
            } else if c == '.' {
                proof {
                    lemma_class_end_bounds(s@, i + 1, 0);
                }
                let e = class_end_at(&s, i + 1);
                if e > i + 1 {
                    out.push(string_from_range(&s, i + 1, e));
                    assert(strings_view(out@) =~= before + seq![s@.subrange(i + 1, e as int)]);
                }
                i = e;
            } else {
                i += 1;
            }
        }
        assert(strings_view(out@) =~= strings_view(out@) + refs_from(s@, i as int, nd as nat));
        out
    }
}

// ---------------------------------------------------------------------
// Reading the recorded output
// ---------------------------------------------------------------------

/// A declaration as plain values: property, value, important.
pub type DeclModel = (Seq<char>, Seq<char>, bool);

pub open spec fn decl_view(d: PluginDecl) -> DeclModel {
    (d.property@, d.value@, d.important)
}

pub open spec fn decls_view(ds: Seq<PluginDecl>) -> Seq<DeclModel> {
    ds.map_values(|d: PluginDecl| decl_view(d))
}

/// A value that ends in `!important` (trailing whitespace aside) loses
/// the marker and the whitespace before it, and the declaration becomes
/// important; other declarations are unchanged.
pub open spec fn lift_important_spec(d: DeclModel) -> DeclModel {
    let t = trim_end_spec(d.1);
    let n = "!important"@.len() as int;
    if t.len() >= n && t.skip(t.len() - n) == "!important"@ {
        (d.0, trim_end_spec(t.take(t.len() - n)), true)
    } else {
        d
    }
}

/// `after` is the rule `before` with every declaration's `!important`
/// lifted and all else unchanged.
pub open spec fn rule_lifted(before: PluginRule, after: PluginRule) -> bool {
    &&& after.selector == before.selector
    &&& after.at_rules == before.at_rules
    &&& after.respect_important == before.respect_important
    &&& after.group_class == before.group_class
    &&& after.declarations@.len() == before.declarations@.len()
    &&& forall|k: int|
        0 <= k < before.declarations@.len() ==> #[trigger] decl_view(after.declarations@[k])
            == lift_important_spec(decl_view(before.declarations@[k]))
}

/// `after` is `before`, rule by rule, with `!important` lifted.
pub open spec fn rules_lifted(before: Seq<PluginRule>, after: Seq<PluginRule>) -> bool {
    &&& after.len() == before.len()
    &&& forall|k: int| 0 <= k < before.len() ==> rule_lifted(before[k], #[trigger] after[k])
}

fn lift_important(d: &mut PluginDecl)
    ensures
        decl_view(*final(d)) == lift_important_spec(decl_view(*old(d))),
{
    let v = chars_of(d.value.as_str());
    let t = trim_end_chars(&v);
    let marker = chars_of("!important");
    if t.len() >= marker.len() && prefix_at(&t, t.len() - marker.len(), &marker) {
        let head = sub_chars(&t, 0, t.len() - marker.len());
        let stripped = trim_end_chars(&head);
        d.value = string_from_chars(&stripped);
        d.important = true;
        assert(t@.skip(t@.len() - marker@.len()) =~= t@.subrange(
            t@.len() - marker@.len(),
            t@.len() as int,
        ));
        assert(head@ =~= t@.take(t@.len() - marker@.len()));
    } else {
        assert(t@.len() >= marker@.len() ==> t@.skip(t@.len() - marker@.len()) =~= t@.subrange(
            t@.len() - marker@.len(),
            t@.len() as int,
        ));
    }
}

fn lift_rule(rule: &mut PluginRule)
    ensures
        rule_lifted(*old(rule), *final(rule)),
{
    let ghost orig = rule.declarations@;
    let n = rule.declarations.len();
    let mut j: usize = 0;
    while j < n
        invariant
            n == orig.len() == rule.declarations@.len(),
            j <= n,
            rule.selector == old(rule).selector,
            rule.at_rules == old(rule).at_rules,
            rule.respect_important == old(rule).respect_important,
            rule.group_class == old(rule).group_class,
            orig == old(rule).declarations@,
            forall|k: int|
                0 <= k < j ==> #[trigger] decl_view(rule.declarations@[k]) == lift_important_spec(
                    decl_view(orig[k]),
                ),
            forall|k: int| j <= k < n ==> #[trigger] rule.declarations@[k] == orig[k],
        decreases n - j,
    {
        lift_important(&mut rule.declarations[j]);
        j += 1;
    }
}

fn lift_rules(rules: &mut Vec<PluginRule>)
    ensures
        rules_lifted(old(rules)@, final(rules)@),
{
    let ghost orig = rules@;
    let mut r: usize = 0;
    while r < rules.len()
        invariant
            r <= rules@.len() == orig.len(),
            orig == old(rules)@,
            forall|k: int| r <= k < orig.len() ==> #[trigger] rules@[k] == orig[k],
            forall|k: int| 0 <= k < r ==> rule_lifted(orig[k], #[trigger] rules@[k]),
        decreases orig.len() - r,
    {
        lift_rule(&mut rules[r]);
        r += 1;
    }
}

/// The plugin output of a configuration, from its recorded form (`None`
/// when the configuration has none or it could not be read): the empty
/// output, or the recorded one with every declaration value that ends in
/// `!important` turned into an important declaration without the marker.
/// Variants pass through unchanged.
pub fn read_plugin_output(recorded: Option<PluginOutput>) -> (r: PluginOutput)
    ensures
        match recorded {
            None => {
                &&& r.utilities@.len() == 0
                &&& r.components@.len() == 0
                &&& r.base@.len() == 0
                &&& r.variants@.len() == 0
            },
            Some(o) => {
                &&& rules_lifted(o.utilities@, r.utilities@)
                &&& rules_lifted(o.components@, r.components@)
                &&& rules_lifted(o.base@, r.base@)
                &&& r.variants == o.variants
            },
        },
{
    match recorded {
        None => PluginOutput::default(),
        Some(mut output) => {
            lift_rules(&mut output.utilities);
            lift_rules(&mut output.components);
            lift_rules(&mut output.base);
            output
        },
    }
}

} // verus!
