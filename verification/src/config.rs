//! Reading the compiler's configuration: which core plugins are on, the
//! safelist and blocklist, the `important` mode, and the experimental
//! universal-defaults flag.
use vstd::prelude::*;
use crate::json::{json_get, json_str, JsonValue};
use crate::plugins::strings_view;
use crate::text::{chars_eq, chars_of, string_from_chars};

verus! {

pub open spec fn opt_json(config: Option<&JsonValue>) -> Option<JsonValue> {
    match config {
        Some(c) => Some(*c),
        None => None,
    }
}

/// `config[key]`, when there is a configuration and it has the key.
pub open spec fn config_member(config: Option<JsonValue>, key: Seq<char>) -> Option<JsonValue> {
    match config {
        Some(c) => json_get(c, key),
        None => None,
    }
}

/// The texts of the string items of an array, in order.
pub open spec fn string_items(items: Seq<JsonValue>, n: int) -> Seq<Seq<char>>
    decreases n,
{
    if n <= 0 {
        Seq::empty()
    } else {
        match json_str(items[n - 1]) {
            Some(s) => string_items(items, n - 1).push(s),
            None => string_items(items, n - 1),
        }
    }
}

/// The string items of the array at `config[key]`; none when it is
/// missing or not an array.
pub open spec fn string_list_spec(config: Option<JsonValue>, key: Seq<char>) -> Seq<Seq<char>> {
    match config_member(config, key) {
        Some(JsonValue::Array(items)) => string_items(items@, items@.len() as int),
        _ => Seq::empty(),
    }
}

fn string_list(config: Option<&JsonValue>, key: &str) -> (r: Vec<String>)
    ensures
        strings_view(r@) == string_list_spec(opt_json(config), key@),
{
    let node = match config {
        Some(c) => c.get(key),
        None => None,
    };
    let mut out: Vec<String> = Vec::new();
    match node {
        Some(JsonValue::Array(items)) => {
            let mut k: usize = 0;
            while k < items.len()
                invariant
                    k <= items@.len(),
                    strings_view(out@) == string_items(items@, k as int),
                decreases items@.len() - k,
            {
                match items[k].as_str() {
                    Some(s) => {
                        let ghost before = strings_view(out@);
                        let t = string_from_chars(&chars_of(s));
                        out.push(t);
                        assert(strings_view(out@) =~= before.push(t@));
                    },
                    None => {},
                }
                k += 1;
            }
        },
        _ => {},
    }
    out
}

/// The string entries of `config.safelist`.
pub fn read_safelist_strings(config: Option<&JsonValue>) -> (r: Vec<String>)
    ensures
        strings_view(r@) == string_list_spec(opt_json(config), "safelist"@),
{
    string_list(config, "safelist")
}

/// The string entries of `config.blocklist`.
pub fn read_blocklist(config: Option<&JsonValue>) -> (r: Vec<String>)
    ensures
        strings_view(r@) == string_list_spec(opt_json(config), "blocklist"@),
{
    string_list(config, "blocklist")
}

/// The global `important` setting.
pub enum ImportantConfig {
    Off,
    /// `important: true`: every declaration is marked `!important`.
    Bang,
    /// `important: '<selector>'`: every selector is nested under it.
    SelectorPrefix(String),
}

/// `true` gives `Bang`, a non-empty string gives `SelectorPrefix`,
/// anything else `Off`.
pub open spec fn important_config_spec(config: Option<JsonValue>) -> Option<Option<Seq<char>>> {
    match config_member(config, "important"@) {
        Some(JsonValue::Bool(true)) => Some(None),
        Some(JsonValue::Str(s)) => if s@.len() > 0 {
            Some(Some(s@))
        } else {
            None
        },
        _ => None,
    }
}

/// The `important` setting of the configuration (`important_config_spec`:
/// `None` for `Off`, `Some(None)` for `Bang`).
pub fn read_important_config(config: Option<&JsonValue>) -> (r: ImportantConfig)
    ensures
        important_config_spec(opt_json(config)) == match r {
            ImportantConfig::Off => None,
            ImportantConfig::Bang => Some(None),
            ImportantConfig::SelectorPrefix(s) => Some(Some(s@)),
        },
{
    let node = match config {
        Some(c) => c.get("important"),
        None => None,
    };
    match node {
        Some(JsonValue::Bool(b)) => if *b {
            ImportantConfig::Bang
        } else {
            ImportantConfig::Off
        },
        Some(JsonValue::Str(s)) => {
            let v = chars_of(s.as_str());
            if v.len() > 0 {
                ImportantConfig::SelectorPrefix(s.clone())
            } else {
                ImportantConfig::Off
            }
        },
        _ => ImportantConfig::Off,
    }
}

/// Whether `experimental.optimizeUniversalDefaults` is on (or
/// `experimental` is `'all'`).
pub fn optimize_universal_defaults_enabled(config: Option<&JsonValue>) -> (r: bool)
    ensures
        r == crate::directives::optimize_universal_defaults_spec(config),
{
    crate::directives::optimize_universal_defaults_for_apply(config)
}

/// Which core plugins are on.
pub enum CorePluginsFilter {
    All,
    /// Only these.
    Whitelist(Vec<String>),
    /// All but these.
    Blacklist(Vec<String>),
}

/// The keys of the members set to `false`, in order.
pub open spec fn false_keys(m: Seq<(String, JsonValue)>, n: int) -> Seq<Seq<char>>
    decreases n,
{
    if n <= 0 {
        Seq::empty()
    } else if m[n - 1].1 == JsonValue::Bool(false) {
        false_keys(m, n - 1).push(m[n - 1].0@)
    } else {
        false_keys(m, n - 1)
    }
}

/// Whether a plugin is on: all are without `corePlugins`; an array lists
/// those on; an object turns off those set to `false`.
pub open spec fn plugin_enabled_spec(config: Option<JsonValue>, plugin: Seq<char>) -> bool {
    match config_member(config, "corePlugins"@) {
        Some(JsonValue::Array(items)) => string_items(items@, items@.len() as int).contains(plugin),
        Some(JsonValue::Object(m)) => !false_keys(m@, m@.len() as int).contains(plugin),
        _ => true,
    }
}

fn listed(v: &Vec<String>, x: &str) -> (r: bool)
    ensures
        r == strings_view(v@).contains(x@),
{
    crate::directives::is_candidate(v, &chars_of(x))
}

impl CorePluginsFilter {
    /// The filter a configuration sets (see `plugin_enabled_spec`).
    pub fn from_config(config: Option<&JsonValue>) -> (r: Self)
        ensures
            forall|p: Seq<char>|
                #![trigger r.enabled_spec(p)]
                r.enabled_spec(p) == plugin_enabled_spec(opt_json(config), p),
    {
        let node = match config {
            Some(c) => c.get("corePlugins"),
            None => None,
        };
        match node {
            Some(JsonValue::Array(_)) => CorePluginsFilter::Whitelist(string_list(config, "corePlugins")),
            Some(JsonValue::Object(m)) => {
                let mut out: Vec<String> = Vec::new();
                let mut k: usize = 0;
                while k < m.len()
                    invariant
                        k <= m@.len(),
                        strings_view(out@) == false_keys(m@, k as int),
                    decreases m@.len() - k,
                {
                    let off = match &m[k].1 {
                        JsonValue::Bool(b) => !*b,
                        _ => false,
                    };
                    if off {
                        let ghost before = strings_view(out@);
                        let key = m[k].0.clone();
                        out.push(key);
                        assert(strings_view(out@) =~= before.push(m@[k as int].0@));
                    }
                    k += 1;
                }
                CorePluginsFilter::Blacklist(out)
            },
            _ => CorePluginsFilter::All,
        }
    }

    pub open spec fn enabled_spec(&self, plugin: Seq<char>) -> bool {
        match self {
            CorePluginsFilter::All => true,
            CorePluginsFilter::Whitelist(v) => strings_view(v@).contains(plugin),
            CorePluginsFilter::Blacklist(v) => !strings_view(v@).contains(plugin),
        }
    }

    /// Whether a plugin is on.
    pub fn is_enabled(&self, plugin: &str) -> (r: bool)
        ensures
            r == self.enabled_spec(plugin@),
    {
        match self {
            CorePluginsFilter::All => true,
            CorePluginsFilter::Whitelist(v) => listed(v, plugin),
            CorePluginsFilter::Blacklist(v) => !listed(v, plugin),
        }
    }
}

} // verus!
