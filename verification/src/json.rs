//! A JSON document model: what the configuration readers look at.
//!
//! Numbers keep their textual form; object members keep their order.
use vstd::prelude::*;
use crate::text::{append_str, chars_of};

verus! {

pub enum JsonValue {
    Null,
    Bool(bool),
    /// A number in its JSON text form.
    Number(String),
    Str(String),
    Array(Vec<JsonValue>),
    /// Members in document order.
    Object(Vec<(String, JsonValue)>),
}

/// The first member of `members` named `key`, searching from `i`.
pub open spec fn member_from(members: Seq<(String, JsonValue)>, key: Seq<char>, i: int) -> Option<
    JsonValue,
>
    decreases members.len() - i,
{
    if i < 0 || i >= members.len() {
        None
    } else if members[i].0@ == key {
        Some(members[i].1)
    } else {
        member_from(members, key, i + 1)
    }
}

/// `value[key]` for an object, `None` otherwise.
pub open spec fn json_get(v: JsonValue, key: Seq<char>) -> Option<JsonValue> {
    match v {
        JsonValue::Object(members) => member_from(members@, key, 0),
        _ => None,
    }
}

/// The text of a JSON string, `None` for other values.
pub open spec fn json_str(v: JsonValue) -> Option<Seq<char>> {
    match v {
        JsonValue::Str(s) => Some(s@),
        _ => None,
    }
}

fn same_text(a: &str, b: &str) -> (r: bool)
    ensures
        r == (a@ == b@),
{
    let x = chars_of(a);
    let y = chars_of(b);
    if x.len() != y.len() {
        return false;
    }
    let mut i: usize = 0;
    while i < x.len()
        invariant
            x@ == a@,
            y@ == b@,
            x@.len() == y@.len(),
            i <= x@.len(),
            forall|k: int| 0 <= k < i ==> x@[k] == y@[k],
        decreases x@.len() - i,
    {
        if x[i] != y[i] {
            return false;
        }
        i += 1;
    }
    assert(x@ =~= y@);
    true
}

/// A lower-case hexadecimal digit.
pub open spec fn hex_digit(n: int) -> char {
    if n < 10 {
        (('0' as int) + n) as char
    } else {
        (('a' as int) + n - 10) as char
    }
}

/// How one character is written inside a JSON string: `"` and `\` and
/// the control characters below U+0020 escaped (`\b \t \n \f \r` by name,
/// the others as `\u00XX`), everything else as it is.
pub open spec fn json_escape_char(c: char) -> Seq<char> {
    if c == '"' {
        seq!['\\', '"']
    } else if c == '\\' {
        seq!['\\', '\\']
    } else if c == '\x08' {
        seq!['\\', 'b']
    } else if c == '\t' {
        seq!['\\', 't']
    } else if c == '\n' {
        seq!['\\', 'n']
    } else if c == '\x0C' {
        seq!['\\', 'f']
    } else if c == '\r' {
        seq!['\\', 'r']
    } else if (c as int) < 0x20 {
        seq!['\\', 'u', '0', '0', hex_digit((c as int) / 16), hex_digit((c as int) % 16)]
    } else {
        seq![c]
    }
}

/// The escaped body of a JSON string.
pub open spec fn json_escape(s: Seq<char>) -> Seq<char>
    decreases s.len(),
{
    if s.len() == 0 {
        Seq::empty()
    } else {
        json_escape(s.drop_last()) + json_escape_char(s.last())
    }
}

/// The JSON string literal for a text: the escaped text between double
/// quotes. Serialising a `str` into memory does not fail.
pub open spec fn json_quoted(text: Seq<char>) -> Option<Seq<char>> {
    Some(seq!['"'] + json_escape(text) + seq!['"'])
}

/// `serde_json::to_string` on a `str`: the JSON string literal for it.
/// Claimed: the result is `json_quoted` of the text: the text between
/// double quotes with `"`, `\\` and the control characters escaped as
/// `serde_json`'s escape table writes them, and never an error (the
/// writer is a `Vec`).
#[verifier::external_body]
pub(crate) fn json_string_literal(text: &str) -> (r: Option<String>)
    ensures
        match r {
            Some(q) => json_quoted(text@) == Some(q@),
            None => json_quoted(text@) is None,
        },
{
    match serde_json::to_string(text) {
        Ok(q) => Some(q),
        Err(_) => None,
    }
}

/// The compact JSON text of a value (as `serde_json` displays it): `None`
/// should a string fail to serialize.
pub open spec fn json_text(v: JsonValue) -> Option<Seq<char>>
    decreases v, 0nat,
{
    match v {
        JsonValue::Null => Some("null"@),
        JsonValue::Bool(b) => Some(
            if b {
                "true"@
            } else {
                "false"@
            },
        ),
        JsonValue::Number(n) => Some(n@),
        JsonValue::Str(s) => json_quoted(s@),
        JsonValue::Array(items) => match items_text(items@, items@.len()) {
            Some(t) => Some("["@ + t + "]"@),
            None => None,
        },
        JsonValue::Object(members) => match members_text(members@, members@.len()) {
            Some(t) => Some("{"@ + t + "}"@),
            None => None,
        },
    }
}

/// The first `n` items, comma-separated.
pub open spec fn items_text(items: Seq<JsonValue>, n: nat) -> Option<Seq<char>>
    decreases items, n,
{
    if n == 0 || n > items.len() {
        Some(Seq::empty())
    } else {
        match (items_text(items, (n - 1) as nat), json_text(items[n - 1])) {
            (Some(a), Some(b)) => Some(
                if n == 1 {
                    b
                } else {
                    a + ","@ + b
                },
            ),
            _ => None,
        }
    }
}

/// The first `n` members as `"key":value`, comma-separated.
pub open spec fn members_text(members: Seq<(String, JsonValue)>, n: nat) -> Option<Seq<char>>
    decreases members, n,
{
    if n == 0 || n > members.len() {
        Some(Seq::empty())
    } else {
        match (
            members_text(members, (n - 1) as nat),
            json_quoted(members[n - 1].0@),
            json_text(members[n - 1].1),
        ) {
            (Some(a), Some(k), Some(b)) => Some(
                if n == 1 {
                    k + ":"@ + b
                } else {
                    a + ","@ + k + ":"@ + b
                },
            ),
            _ => None,
        }
    }
}

proof fn lemma_items_none(items: Seq<JsonValue>, k: nat, n: nat)
    requires
        1 <= k <= n <= items.len(),
        items_text(items, k) is None,
    ensures
        items_text(items, n) is None,
    decreases n - k,
{
    if k < n {
        lemma_items_none(items, k, (n - 1) as nat);
    }
}

proof fn lemma_members_none(members: Seq<(String, JsonValue)>, k: nat, n: nat)
    requires
        1 <= k <= n <= members.len(),
        members_text(members, k) is None,
    ensures
        members_text(members, n) is None,
    decreases n - k,
{
    if k < n {
        lemma_members_none(members, k, (n - 1) as nat);
    }
}

/// Append the compact JSON text of `v` to `out`; false (with `out` in
/// some state) should a string fail to serialize.
fn write_json(v: &JsonValue, out: &mut String) -> (ok: bool)
    ensures
        ok <==> json_text(*v) is Some,
        ok ==> final(out)@ == old(out)@ + json_text(*v)->0,
    decreases *v,
{
    match v {
        JsonValue::Null => {
            append_str(out, "null");
            true
        },
        JsonValue::Bool(b) => {
            if *b {
                append_str(out, "true");
            } else {
                append_str(out, "false");
            }
            true
        },
        JsonValue::Number(n) => {
            append_str(out, n.as_str());
            true
        },
        JsonValue::Str(s) => match json_string_literal(s.as_str()) {
            Some(q) => {
                append_str(out, q.as_str());
                true
            },
            None => false,
        },
        JsonValue::Array(items) => {
            append_str(out, "[");
            let ghost start = out@;
            let mut i: usize = 0;
            while i < items.len()
                invariant
                    i <= items@.len(),
                    *v == JsonValue::Array(*items),
                    items_text(items@, i as nat) is Some,
                    out@ == start + items_text(items@, i as nat)->0,
                decreases items@.len() - i,
            {
                if i > 0 {
                    append_str(out, ",");
                }
                if !write_json(&items[i], out) {
                    proof {
                        lemma_items_none(items@, (i + 1) as nat, items@.len());
                    }
                    return false;
                }
                i += 1;
                assert(out@ =~= start + items_text(items@, i as nat)->0);
            }
            append_str(out, "]");
            assert(out@ =~= old(out)@ + json_text(*v)->0);
            true
        },
        JsonValue::Object(members) => {
            append_str(out, "{");
            let ghost start = out@;
            let mut i: usize = 0;
            while i < members.len()
                invariant
                    i <= members@.len(),
                    *v == JsonValue::Object(*members),
                    members_text(members@, i as nat) is Some,
                    out@ == start + members_text(members@, i as nat)->0,
                decreases members@.len() - i,
            {
                if i > 0 {
                    append_str(out, ",");
                }
                match json_string_literal(members[i].0.as_str()) {
                    Some(k) => append_str(out, k.as_str()),
                    None => {
                        proof {
                            lemma_members_none(members@, (i + 1) as nat, members@.len());
                        }
                        return false;
                    },
                }
                append_str(out, ":");
                if !write_json(&members[i].1, out) {
                    proof {
                        lemma_members_none(members@, (i + 1) as nat, members@.len());
                    }
                    return false;
                }
                i += 1;
                assert(out@ =~= start + members_text(members@, i as nat)->0);
            }
            append_str(out, "}");
            assert(out@ =~= old(out)@ + json_text(*v)->0);
            true
        },
    }
}

impl JsonValue {
    /// The member named `key` of an object (the first one, should the
    /// document repeat it); `None` for a missing key or a non-object.
    pub fn get(&self, key: &str) -> (r: Option<&JsonValue>)
        ensures
            match r {
                Some(x) => json_get(*self, key@) == Some(*x),
                None => json_get(*self, key@) is None,
            },
    {
        match self {
            JsonValue::Object(members) => {
                let mut i: usize = 0;
                while i < members.len()
                    invariant
                        i <= members@.len(),
                        *self == JsonValue::Object(*members),
                        member_from(members@, key@, i as int) == member_from(members@, key@, 0),
                    decreases members@.len() - i,
                {
                    if same_text(members[i].0.as_str(), key) {
                        return Some(&members[i].1);
                    }
                    i += 1;
                }
                None
            },
            _ => None,
        }
    }

    /// The text of a string value.
    pub fn as_str(&self) -> (r: Option<&str>)
        ensures
            match r {
                Some(s) => json_str(*self) == Some(s@),
                None => json_str(*self) is None,
            },
    {
        match self {
            JsonValue::Str(s) => Some(s.as_str()),
            _ => None,
        }
    }

    /// The members of an object value.
    pub fn as_object(&self) -> (r: Option<&Vec<(String, JsonValue)>>)
        ensures
            match r {
                Some(m) => *self == JsonValue::Object(*m),
                None => !(*self is Object),
            },
    {
        match self {
            JsonValue::Object(m) => Some(m),
            _ => None,
        }
    }

    /// The compact JSON text of the value, as `serde_json` displays it
    /// (`None` should a string fail to serialize).
    pub fn to_json_text(&self) -> (r: Option<String>)
        ensures
            match r {
                Some(t) => json_text(*self) == Some(t@),
                None => json_text(*self) is None,
            },
    {
        let mut out = String::new();
        if write_json(self, &mut out) {
            Some(out)
        } else {
            None
        }
    }

    /// The value of a boolean.
    pub fn as_bool(&self) -> (r: Option<bool>)
        ensures
            r == (match *self {
                JsonValue::Bool(b) => Some(b),
                _ => None::<bool>,
            }),
    {
        match self {
            JsonValue::Bool(b) => Some(*b),
            _ => None,
        }
    }

    pub fn is_null(&self) -> (r: bool)
        ensures
            r == (*self is Null),
    {
        match self {
            JsonValue::Null => true,
            _ => false,
        }
    }
}

} // verus!
