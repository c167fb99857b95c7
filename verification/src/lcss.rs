//! The final Lightning CSS pass: parse the emitted CSS, then print it
//! minified or pretty, lowered and prefixed for the requested browsers,
//! optionally with a source map.
//!
//! Browser targets arrive as a JSON object of version strings
//! (`{"chrome":"95","safari":"15.4"}`); versions pack into Lightning's
//! `major << 16 | minor << 8 | patch`.
use vstd::prelude::*;
use lightningcss::printer::PrinterOptions;
use lightningcss::stylesheet::{ParserOptions, StyleSheet};
use lightningcss::targets::{Browsers, Targets};
use parcel_sourcemap::SourceMap;
use crate::json::{json_text, JsonValue};
use crate::text::{append_str, chars_of, concat, str_eq};

verus! {

/// A style sheet Lightning CSS parsed. Its type names an at-rule type
/// that Lightning CSS keeps in a private module, so Verus cannot be told
/// of it; the sheet is carried here, opaque, from parsing to printing.
#[verifier::external_body]
pub struct SheetHandle<'i> {
    sheet: StyleSheet<'i>,
}

/// A parsed sheet together with the text it was parsed from. Only
/// `parse_sheet` makes one.
pub struct ParsedSheet<'i> {
    handle: SheetHandle<'i>,
    source: Ghost<Seq<char>>,
}

/// Lightning CSS targets together with the browsers they were made from.
/// Only `targets_for` makes them.
pub struct TargetsFor {
    targets: Targets,
    browsers: Ghost<Option<BrowserTargets>>,
}

/// A source map sink: its source path and inlined content, and the
/// printing (sheet text, minify, browsers) it recorded, if any. Only this
/// module makes and fills one, through the calls the ghost fields record.
pub struct MapSink {
    map: SourceMap,
    path: Ghost<Seq<char>>,
    content: Ghost<Option<Seq<char>>>,
    printed: Ghost<Option<(Seq<char>, bool, Option<BrowserTargets>)>>,
}

#[verifier::external_type_specification]
#[verifier::external_body]
pub struct ExSourceMap(SourceMap);

#[verifier::external_type_specification]
#[verifier::external_body]
pub struct ExTargets(Targets);

/// Minimum browser versions, packed as `major << 16 | minor << 8 | patch`.
#[derive(Clone, Copy, Debug, PartialEq, Eq)]
pub struct BrowserTargets {
    pub android: Option<u32>,
    pub chrome: Option<u32>,
    pub edge: Option<u32>,
    pub firefox: Option<u32>,
    pub ie: Option<u32>,
    pub ios_saf: Option<u32>,
    pub opera: Option<u32>,
    pub safari: Option<u32>,
    pub samsung: Option<u32>,
}

pub open spec fn no_browsers() -> BrowserTargets {
    BrowserTargets {
        android: None,
        chrome: None,
        edge: None,
        firefox: None,
        ie: None,
        ios_saf: None,
        opera: None,
        safari: None,
        samsung: None,
    }
}

impl BrowserTargets {
    /// No browser constrained.
    pub fn none() -> (r: Self)
        ensures
            r == no_browsers(),
    {
        BrowserTargets {
            android: None,
            chrome: None,
            edge: None,
            firefox: None,
            ie: None,
            ios_saf: None,
            opera: None,
            safari: None,
            samsung: None,
        }
    }
}

/// Output of the Lightning CSS pass.
pub struct LcssOutput {
    pub css: String,
    /// Source map JSON (v3) when one was asked for.
    pub map: Option<String>,
}

/// Options of `transform`: minify or pretty-print; a source map, whose
/// `sources` entry is `source_path` (`<galeforcecss>` when absent) with
/// `source_content` inlined; and browser targets as a JSON object.
pub struct LcssOptions<'a> {
    pub minify: bool,
    pub source_map: bool,
    pub source_path: Option<&'a str>,
    pub source_content: Option<&'a str>,
    pub targets: Option<&'a JsonValue>,
}

impl<'a> Default for LcssOptions<'a> {
    fn default() -> (r: Self)
        ensures
            !r.minify,
            !r.source_map,
            r.source_path is None,
            r.source_content is None,
            r.targets is None,
    {
        LcssOptions {
            minify: false,
            source_map: false,
            source_path: None,
            source_content: None,
            targets: None,
        }
    }
}

// ---------------------------------------------------------------------
// Versions
// ---------------------------------------------------------------------

pub open spec fn is_digit(c: char) -> bool {
    '0' <= c && c <= '9'
}

/// The decimal value of a run of digits.
pub open spec fn digits_value(s: Seq<char>) -> int
    decreases s.len(),
{
    if s.len() == 0 {
        0
    } else {
        digits_value(s.drop_last()) * 10 + (s.last() as int - '0' as int)
    }
}

pub open spec fn all_digits(s: Seq<char>) -> bool {
    forall|i: int| 0 <= i < s.len() ==> is_digit(#[trigger] s[i])
}

/// `u32::from_str`: an optional `+`, then one or more ASCII digits whose
/// value fits in a `u32`.
pub open spec fn parse_u32_spec(s: Seq<char>) -> Option<u32> {
    let d = if s.len() > 0 && s[0] == '+' {
        s.drop_first()
    } else {
        s
    };
    if d.len() > 0 && all_digits(d) && digits_value(d) <= u32::MAX {
        Some(digits_value(d) as u32)
    } else {
        None
    }
}

/// The position of the first `.` in `s`, or its length.
pub open spec fn dot_pos(s: Seq<char>) -> int {
    if exists|i: int| 0 <= i < s.len() && s[i] == '.' {
        choose|i: int|
            0 <= i < s.len() && s[i] == '.' && forall|j: int| 0 <= j < i ==> s[j] != '.'
    } else {
        s.len() as int
    }
}

/// The field of a dotted version after the first `.`, if there is a `.`.
pub open spec fn after_dot(s: Seq<char>) -> Option<Seq<char>> {
    if dot_pos(s) < s.len() {
        Some(s.skip(dot_pos(s) + 1))
    } else {
        None
    }
}

/// A version's part (its text up to the next `.`) read as a number; 0 when
/// missing or unreadable.
pub open spec fn part_or_zero(rest: Option<Seq<char>>) -> u32 {
    match rest {
        Some(t) => match parse_u32_spec(t.take(dot_pos(t))) {
            Some(n) => n,
            None => 0,
        },
        None => 0,
    }
}

/// `"95"`, `"95.0"`, `"15.4.1"` as `major << 16 | minor << 8 | patch`; the
/// major part must be a number, missing or unreadable minor and patch
/// parts count as 0, later parts are ignored.
pub open spec fn parse_browser_version_spec(s: Seq<char>) -> Option<u32> {
    match parse_u32_spec(s.take(dot_pos(s))) {
        None => None,
        Some(major) => {
            let minor = part_or_zero(after_dot(s));
            let patch = match after_dot(s) {
                Some(t) => part_or_zero(after_dot(t)),
                None => 0,
            };
            Some((major << 16u32) | (minor << 8u32) | patch)
        },
    }
}

/// The position of the first `.` at or after `from`, or the length.
fn find_dot(s: &Vec<char>, from: usize) -> (r: usize)
    requires
        from <= s@.len(),
    ensures
        from <= r <= s@.len(),
        r < s@.len() ==> s@[r as int] == '.',
        forall|j: int| from <= j < r ==> s@[j] != '.',
{
    let mut i = from;
    while i < s.len()
        invariant
            from <= i <= s@.len(),
            forall|j: int| from <= j < i ==> s@[j] != '.',
        decreases s@.len() - i,
    {
        if s[i] == '.' {
            return i;
        }
        i += 1;
    }
    i
}

proof fn lemma_dot_pos(s: Seq<char>, r: int)
    requires
        0 <= r <= s.len(),
        r < s.len() ==> s[r] == '.',
        forall|j: int| 0 <= j < r ==> s[j] != '.',
    ensures
        dot_pos(s) == r,
{
    if r < s.len() {
        assert(exists|i: int| 0 <= i < s.len() && s[i] == '.');
        let c = choose|i: int|
            0 <= i < s.len() && s[i] == '.' && forall|j: int| 0 <= j < i ==> s[j] != '.';
        assert(0 <= c < s.len() && s[c] == '.' && forall|j: int| 0 <= j < c ==> s[j] != '.') by {
            assert(0 <= r < s.len() && s[r] == '.' && forall|j: int| 0 <= j < r ==> s[j] != '.');
        }
        if c < r {
        } else if c > r {
            assert(s[r] != '.');
        }
    } else {
        assert(!exists|i: int| 0 <= i < s.len() && s[i] == '.');
    }
}

/// `u32::from_str` on `s[a..b]`.
fn parse_u32_range(s: &Vec<char>, a: usize, b: usize) -> (r: Option<u32>)
    requires
        a <= b <= s@.len(),
    ensures
        r == parse_u32_spec(s@.subrange(a as int, b as int)),
{
    let ghost t = s@.subrange(a as int, b as int);
    let mut i = a;
    if i < b && s[i] == '+' {
        i += 1;
    }
    let ghost d = s@.subrange(i as int, b as int);
    assert(d =~= (if t.len() > 0 && t[0] == '+' {
        t.drop_first()
    } else {
        t
    }));
    if i == b {
        return None;
    }
    let start = i;
    let mut acc: u64 = 0;
    let mut over = false;
    while i < b
        invariant
            a <= start <= i <= b <= s@.len(),
            d == s@.subrange(start as int, b as int),
            t == s@.subrange(a as int, b as int),
            d == (if t.len() > 0 && t[0] == '+' {
                t.drop_first()
            } else {
                t
            }),
            forall|j: int| start <= j < i ==> is_digit(#[trigger] s@[j]),
            !over ==> acc == digits_value(s@.subrange(start as int, i as int)),
            !over ==> acc <= u32::MAX,
            over ==> digits_value(s@.subrange(start as int, i as int)) > u32::MAX,
        decreases b - i,
    {
        let c = s[i];
        if !('0' <= c && c <= '9') {
            assert(!is_digit(d[i - start]));
            return None;
        }
        let ghost before = s@.subrange(start as int, i as int);
        assert(s@.subrange(start as int, i + 1).drop_last() =~= before);
        let v = (c as u64) - ('0' as u64);
        if !over {
            acc = acc * 10 + v;
            if acc > 4294967295 {
                over = true;
            }
        }
        i += 1;
    }
    assert(s@.subrange(start as int, i as int) =~= d);
    assert forall|j: int| 0 <= j < d.len() implies is_digit(#[trigger] d[j]) by {
        assert(d[j] == s@[start + j]);
    }
    if over {
        None
    } else {
        Some(acc as u32)
    }
}

/// The part of `v` that starts at `from`: its number (see
/// `parse_u32_spec`) and the position of the `.` that ends it (or the
/// length).
fn read_part(v: &Vec<char>, from: usize) -> (r: (Option<u32>, usize))
    requires
        from <= v@.len(),
    ensures
        from + dot_pos(v@.skip(from as int)) == r.1,
        r.1 <= v@.len(),
        r.0 == parse_u32_spec(v@.skip(from as int).take(dot_pos(v@.skip(from as int)))),
        after_dot(v@.skip(from as int)) == (if r.1 < v@.len() {
            Some(v@.skip(r.1 + 1))
        } else {
            None
        }),
{
    let ghost t = v@.skip(from as int);
    let d = find_dot(v, from);
    proof {
        assert forall|j: int| 0 <= j < d - from implies t[j] != '.' by {
            assert(t[j] == v@[from + j]);
        }
        if d < v@.len() {
            assert(t[d - from] == v@[d as int]);
        }
        lemma_dot_pos(t, d - from);
        assert(t.take(d - from) =~= v@.subrange(from as int, d as int));
        if d < v@.len() {
            assert(t.skip(d - from + 1) =~= v@.skip(d + 1));
        }
    }
    (parse_u32_range(v, from, d), d)
}

/// Pack a version string; see `parse_browser_version_spec`.
pub fn parse_browser_version(s: &str) -> (r: Option<u32>)
    ensures
        r == parse_browser_version_spec(s@),
{
    let v = chars_of(s);
    let len = v.len();
    assert(v@.skip(0) =~= v@);
    let (major, d0) = read_part(&v, 0);
    let major = match major {
        Some(m) => m,
        None => {
            return None;
        },
    };
    let mut minor: u32 = 0;
    let mut patch: u32 = 0;
    if d0 < len {
        let (m, d1) = read_part(&v, d0 + 1);
        minor = match m {
            Some(m) => m,
            None => 0,
        };
        if d1 < len {
            let (p, _) = read_part(&v, d1 + 1);
            patch = match p {
                Some(p) => p,
                None => 0,
            };
        }
    }
    Some((major << 16u32) | (minor << 8u32) | patch)
}

// ---------------------------------------------------------------------
// Targets
// ---------------------------------------------------------------------

/// `acc` with the browser named `key` set to `version`; unknown names
/// leave it unchanged.
pub open spec fn set_browser(acc: BrowserTargets, key: Seq<char>, version: u32) -> BrowserTargets {
    if key == "chrome"@ {
        BrowserTargets { chrome: Some(version), ..acc }
    } else if key == "firefox"@ {
        BrowserTargets { firefox: Some(version), ..acc }
    } else if key == "safari"@ {
        BrowserTargets { safari: Some(version), ..acc }
    } else if key == "edge"@ {
        BrowserTargets { edge: Some(version), ..acc }
    } else if key == "ie"@ {
        BrowserTargets { ie: Some(version), ..acc }
    } else if key == "opera"@ {
        BrowserTargets { opera: Some(version), ..acc }
    } else if key == "samsung"@ {
        BrowserTargets { samsung: Some(version), ..acc }
    } else if key == "android"@ {
        BrowserTargets { android: Some(version), ..acc }
    } else if key == "ios_saf"@ {
        BrowserTargets { ios_saf: Some(version), ..acc }
    } else {
        acc
    }
}

pub open spec fn invalid_version_message(version: Seq<char>, key: Seq<char>) -> Seq<char> {
    "invalid version `"@ + version + "` for browser `"@ + key + "`"@
}

/// The members from `i` on applied to `acc`, in order: string values must
/// be versions (the first that is not is the error), other values are
/// skipped.
pub open spec fn browsers_from(
    members: Seq<(String, JsonValue)>,
    i: int,
    acc: BrowserTargets,
) -> Result<BrowserTargets, Seq<char>>
    decreases members.len() - i,
{
    if i < 0 || i >= members.len() {
        Ok(acc)
    } else {
        match members[i].1 {
            JsonValue::Str(s) => match parse_browser_version_spec(s@) {
                None => Err(invalid_version_message(s@, members[i].0@)),
                Some(p) => browsers_from(members, i + 1, set_browser(acc, members[i].0@, p)),
            },
            _ => browsers_from(members, i + 1, acc),
        }
    }
}

/// The targets an object of version strings asks for; anything but an
/// object is an error naming the value's JSON text.
pub open spec fn browsers_spec(v: JsonValue) -> Result<BrowserTargets, Seq<char>> {
    match v {
        JsonValue::Object(members) => browsers_from(members@, 0, no_browsers()),
        _ => Err(
            match json_text(v) {
                Some(t) => "targets must be an object, got "@ + t,
                None => "targets must be an object, got "@,
            },
        ),
    }
}

fn set_browser_exec(acc: &mut BrowserTargets, key: &str, version: u32)
    ensures
        *final(acc) == set_browser(*old(acc), key@, version),
{
    if str_eq(key, "chrome") {
        acc.chrome = Some(version);
    } else if str_eq(key, "firefox") {
        acc.firefox = Some(version);
    } else if str_eq(key, "safari") {
        acc.safari = Some(version);
    } else if str_eq(key, "edge") {
        acc.edge = Some(version);
    } else if str_eq(key, "ie") {
        acc.ie = Some(version);
    } else if str_eq(key, "opera") {
        acc.opera = Some(version);
    } else if str_eq(key, "samsung") {
        acc.samsung = Some(version);
    } else if str_eq(key, "android") {
        acc.android = Some(version);
    } else if str_eq(key, "ios_saf") {
        acc.ios_saf = Some(version);
    }
}

/// Read browser targets from a JSON object of version strings; see
/// `browsers_spec`.
pub fn browsers_from_json(v: &JsonValue) -> (r: Result<BrowserTargets, String>)
    ensures
        match r {
            Ok(b) => browsers_spec(*v) == Ok::<BrowserTargets, Seq<char>>(b),
            Err(e) => browsers_spec(*v) == Err::<BrowserTargets, Seq<char>>(e@),
        },
{
    match v.as_object() {
        None => {
            let mut msg = String::new();
            append_str(&mut msg, "targets must be an object, got ");
            match v.to_json_text() {
                Some(t) => append_str(&mut msg, t.as_str()),
                None => {},
            }
            Err(msg)
        },
        Some(members) => {
            let mut acc = BrowserTargets::none();
            let mut i: usize = 0;
            while i < members.len()
                invariant
                    i <= members@.len(),
                    *v == JsonValue::Object(*members),
                    browsers_from(members@, i as int, acc) == browsers_from(
                        members@,
                        0,
                        no_browsers(),
                    ),
                decreases members@.len() - i,
            {
                match &members[i].1 {
                    JsonValue::Str(s) => match parse_browser_version(s.as_str()) {
                        None => {
                            let mut msg = String::new();
                            append_str(&mut msg, "invalid version `");
                            append_str(&mut msg, s.as_str());
                            append_str(&mut msg, "` for browser `");
                            append_str(&mut msg, members[i].0.as_str());
                            append_str(&mut msg, "`");
                            return Err(msg);
                        },
                        Some(p) => {
                            set_browser_exec(&mut acc, members[i].0.as_str(), p);
                        },
                    },
                    _ => {},
                }
                i += 1;
            }
            Ok(acc)
        },
    }
}

// ---------------------------------------------------------------------
// The pass
// ---------------------------------------------------------------------

/// The message Lightning CSS gives when it cannot parse `css` (with its
/// default parser options); `None` when it parses.
pub uninterp spec fn lcss_parse_error(css: Seq<char>) -> Option<Seq<char>>;

/// What Lightning CSS prints for the sheet parsed from `css`, minified or
/// not, for the browsers, with or without a source map sink: the printed
/// CSS, or the printer's error message.
pub uninterp spec fn lightning_print(
    css: Seq<char>,
    minify: bool,
    browsers: Option<BrowserTargets>,
    with_map: bool,
) -> Result<Seq<char>, Seq<char>>;

/// The source map JSON (v3, project root `/`) of printing the sheet parsed
/// from `css`, minified or not, for the browsers, with `path` as its
/// source and `content` inlined; or the error message of writing it.
pub uninterp spec fn lightning_map_json(
    css: Seq<char>,
    minify: bool,
    browsers: Option<BrowserTargets>,
    path: Seq<char>,
    content: Option<Seq<char>>,
) -> Result<Seq<char>, Seq<char>>;

pub open spec fn result_view(r: Result<String, String>) -> Result<Seq<char>, Seq<char>> {
    match r {
        Ok(s) => Ok(s@),
        Err(e) => Err(e@),
    }
}

/// `StyleSheet::parse` with default parser options. Claimed: whether it
/// parses, and the error's text when it does not, are `lcss_parse_error`
/// of the text, a function of the text alone. The parsed sheet is opaque.
/// That the parser returns on every text, without panicking, is taken
/// from the crate's documented `Result` interface, not shown here.
#[verifier::external_body]
fn stylesheet_parse<'i>(css: &'i str) -> (r: Result<SheetHandle<'i>, String>)
    ensures
        match r {
            Ok(_) => lcss_parse_error(css@) is None,
            Err(e) => lcss_parse_error(css@) == Some(e@),
        },
{
    match StyleSheet::parse(css, ParserOptions::default()) {
        Ok(sheet) => Ok(SheetHandle { sheet }),
        Err(e) => Err(e.to_string()),
    }
}

/// Parse `css`, keeping the text with the sheet.
fn parse_sheet<'i>(css: &'i str) -> (r: Result<ParsedSheet<'i>, String>)
    ensures
        match r {
            Ok(p) => lcss_parse_error(css@) is None && p.source@ == css@,
            Err(e) => lcss_parse_error(css@) == Some(e@),
        },
{
    match stylesheet_parse(css) {
        Ok(handle) => Ok(ParsedSheet { handle, source: Ghost(css@) }),
        Err(e) => Err(e),
    }
}

/// `Targets::from` the given browsers; `Targets::default()` for none.
/// Nothing is claimed of the value, which only printing reads.
#[verifier::external_body]
fn lightning_targets(targets: Option<BrowserTargets>) -> (r: Targets) {
    match targets {
        Some(b) => Targets::from(Browsers {
            android: b.android, chrome: b.chrome, edge: b.edge, firefox: b.firefox, ie: b.ie,
            ios_saf: b.ios_saf, opera: b.opera, safari: b.safari, samsung: b.samsung,
        }),
        None => Targets::default(),
    }
}

/// The Lightning CSS targets of the browsers, with the browsers kept.
fn targets_for(browsers: Option<BrowserTargets>) -> (r: TargetsFor)
    ensures
        r.browsers@ == browsers,
{
    TargetsFor { targets: lightning_targets(browsers), browsers: Ghost(browsers) }
}

/// `StyleSheet::to_css` with the given minification, targets and
/// optional source-map sink; the error as its text. Claimed: the result
/// is `lightning_print` of the sheet's text, the minification, the
/// targets' browsers and whether a sink is given, which is all printing
/// depends on; the sink stays present or absent. That the printer
/// returns on every sheet, without panicking, is taken from the crate's
/// documented `Result` interface, not shown here.
#[verifier::external_body]
fn stylesheet_print(
    sheet: &ParsedSheet<'_>,
    minify: bool,
    targets: &TargetsFor,
    sink: &mut Option<SourceMap>,
) -> (r: Result<String, String>)
    ensures
        (*final(sink) is Some) == (*old(sink) is Some),
        result_view(r) == lightning_print(sheet.source@, minify, targets.browsers@, *old(sink) is Some),
{
    let options = PrinterOptions {
        minify,
        targets: targets.targets,
        source_map: sink.as_mut(),
        ..PrinterOptions::default()
    };
    match sheet.handle.sheet.to_css(options) {
        Ok(printed) => Ok(printed.code),
        Err(e) => Err(e.to_string()),
    }
}

/// `SourceMap::new` with the given project root.
#[verifier::external_body]
fn source_map_new(project_root: &str) -> (r: SourceMap) {
    SourceMap::new(project_root)
}

/// `SourceMap::add_source`; the index it returns is not used.
#[verifier::external_body]
fn source_map_add_source(map: &mut SourceMap, source: &str) {
    map.add_source(source);
}

/// `SourceMap::set_source_content`; its error (an index out of range) is
/// not used.
#[verifier::external_body]
fn source_map_set_source_content(map: &mut SourceMap, index: usize, content: &str) {
    let _ = map.set_source_content(index, content);
}

/// A sink for `path` with `content` inlined: project root `/`, `path`
/// added as source 0, its content set when given.
fn new_sink(path: &str, content: Option<&str>) -> (r: MapSink)
    ensures
        r.path@ == path@,
        r.content@ == (match content {
            Some(c) => Some(c@),
            None => None,
        }),
        r.printed@ is None,
{
    let mut map = source_map_new("/");
    source_map_add_source(&mut map, path);
    match content {
        Some(c) => source_map_set_source_content(&mut map, 0, c),
        None => {},
    }
    MapSink {
        map,
        path: Ghost(path@),
        content: Ghost(match content {
            Some(c) => Some(c@),
            None => None,
        }),
        printed: Ghost(None),
    }
}

/// `SourceMap::to_json` without a source root; the error as its text.
/// Claimed: for a sink that one printing filled (as its ghost fields
/// record), the result is `lightning_map_json` of that printing and the
/// sink's source.
#[verifier::external_body]
fn source_map_to_json(sink: &mut MapSink) -> (r: Result<String, String>)
    requires
        old(sink).printed@ is Some,
    ensures
        result_view(r) == ({
            let p = old(sink).printed@->Some_0;
            lightning_map_json(p.0, p.1, p.2, old(sink).path@, old(sink).content@)
        }),
{
    match sink.map.to_json(None) {
        Ok(json) => Ok(json),
        Err(e) => Err(e.to_string()),
    }
}

/// Print the sheet, into the sink when one is given; the sink then
/// records the printing. A sink takes one printing only: its map would
/// otherwise hold the mappings of both.
fn print_sheet(sheet: &ParsedSheet<'_>, minify: bool, targets: &TargetsFor, sink: Option<MapSink>) -> (r: (
    Result<String, String>,
    Option<MapSink>,
))
    requires
        sink matches Some(s) ==> s.printed@ is None,
    ensures
        result_view(r.0) == lightning_print(sheet.source@, minify, targets.browsers@, sink is Some),
        match sink {
            Some(s) => r.1 is Some && r.1->Some_0.path@ == s.path@ && r.1->Some_0.content@
                == s.content@ && r.1->Some_0.printed@ == Some((sheet.source@, minify, targets.browsers@)),
            None => r.1 is None,
        },
{
    match sink {
        Some(s) => {
            let MapSink { map, path, content, printed: _ } = s;
            let mut raw = Some(map);
            let printed = stylesheet_print(sheet, minify, targets, &mut raw);
            match raw {
                Some(m) => (
                    printed,
                    Some(
                        MapSink {
                            map: m,
                            path,
                            content,
                            printed: Ghost(Some((sheet.source@, minify, targets.browsers@))),
                        },
                    ),
                ),
                None => (printed, None),
            }
        },
        None => {
            let mut raw: Option<SourceMap> = None;
            let printed = stylesheet_print(sheet, minify, targets, &mut raw);
            (printed, None)
        },
    }
}

/// The targets the options ask for: none when absent or `null`.
pub open spec fn targets_spec(opts: LcssOptions<'_>) -> Result<Option<BrowserTargets>, Seq<char>> {
    match opts.targets {
        Some(v) => if v is Null {
            Ok(None)
        } else {
            match browsers_spec(*v) {
                Ok(b) => Ok(Some(b)),
                Err(e) => Err(e),
            }
        },
        None => Ok(None),
    }
}

pub open spec fn has_prefix(s: Seq<char>, p: Seq<char>) -> bool {
    p.len() <= s.len() && s.take(p.len() as int) == p
}

/// The source path a map names: the given one, or `<galeforcecss>`.
pub open spec fn source_path_spec(opts: LcssOptions<'_>) -> Seq<char> {
    match opts.source_path {
        Some(p) => p@,
        None => "<galeforcecss>"@,
    }
}

pub open spec fn source_content_spec(opts: LcssOptions<'_>) -> Option<Seq<char>> {
    match opts.source_content {
        Some(c) => Some(c@),
        None => None,
    }
}

/// Run the Lightning CSS pass. A parse failure gives
/// `lightningcss parse: <message>`; then unusable targets give their
/// message; then a printer error gives `lightningcss print: <message>`;
/// otherwise the output is the printed CSS (`lightning_print`) and, when a
/// map was asked for, its JSON (`lightning_map_json`), an error there
/// giving `sourcemap json: <message>`.
pub fn transform(css: &str, opts: LcssOptions<'_>) -> (r: Result<LcssOutput, String>)
    ensures
        match lcss_parse_error(css@) {
            Some(pe) => r is Err && r->Err_0@ == "lightningcss parse: "@ + pe,
            None => match targets_spec(opts) {
                Err(te) => r is Err && r->Err_0@ == te,
                Ok(b) => match lightning_print(css@, opts.minify, b, opts.source_map) {
                    Err(pe) => r is Err && r->Err_0@ == "lightningcss print: "@ + pe,
                    Ok(code) => if !opts.source_map {
                        r is Ok && r->Ok_0.css@ == code && r->Ok_0.map is None
                    } else {
                        match lightning_map_json(
                            css@,
                            opts.minify,
                            b,
                            source_path_spec(opts),
                            source_content_spec(opts),
                        ) {
                            Ok(j) => r is Ok && r->Ok_0.css@ == code && r->Ok_0.map is Some
                                && r->Ok_0.map->Some_0@ == j,
                            Err(je) => r is Err && r->Err_0@ == "sourcemap json: "@ + je,
                        }
                    },
                },
            },
        },
{
    let sheet = match parse_sheet(css) {
        Ok(s) => s,
        Err(e) => {
            return Err(concat("lightningcss parse: ", e.as_str()));
        },
    };
    let targets = match opts.targets {
        Some(v) => {
            if v.is_null() {
                None
            } else {
                match browsers_from_json(v) {
                    Ok(b) => Some(b),
                    Err(e) => {
                        return Err(e);
                    },
                }
            }
        },
        None => None,
    };
    assert(targets_spec(opts) == Ok::<Option<BrowserTargets>, Seq<char>>(targets));
    let source_path = match opts.source_path {
        Some(p) => p,
        None => "<galeforcecss>",
    };
    let sink: Option<MapSink> = if opts.source_map {
        Some(new_sink(source_path, opts.source_content))
    } else {
        None
    };
    let t = targets_for(targets);
    let (printed, sink) = print_sheet(&sheet, opts.minify, &t, sink);
    let code = match printed {
        Ok(code) => code,
        Err(e) => {
            return Err(concat("lightningcss print: ", e.as_str()));
        },
    };
    let map = match sink {
        Some(mut sm) => match source_map_to_json(&mut sm) {
            Ok(json) => Some(json),
            Err(e) => {
                return Err(concat("sourcemap json: ", e.as_str()));
            },
        },
        None => None,
    };
    Ok(LcssOutput { css: code, map })
}


/// A packed version gives back its parts when each fits its field:
/// `major` in 16 bits, `minor` and `patch` in 8.
pub proof fn law_version_packing_decodes(major: u32, minor: u32, patch: u32)
    requires
        major < 0x10000,
        minor < 0x100,
        patch < 0x100,
    ensures
        ((major << 16u32) | (minor << 8u32) | patch) >> 16u32 == major,
        (((major << 16u32) | (minor << 8u32) | patch) >> 8u32) & 0xffu32 == minor,
        ((major << 16u32) | (minor << 8u32) | patch) & 0xffu32 == patch,
{
    assert(((major << 16u32) | (minor << 8u32) | patch) >> 16u32 == major) by (bit_vector)
        requires
            major < 0x10000,
            minor < 0x100,
            patch < 0x100,
    ;
    assert((((major << 16u32) | (minor << 8u32) | patch) >> 8u32) & 0xffu32 == minor)
        by (bit_vector)
        requires
            major < 0x10000,
            minor < 0x100,
            patch < 0x100,
    ;
    assert(((major << 16u32) | (minor << 8u32) | patch) & 0xffu32 == patch) by (bit_vector)
        requires
            major < 0x10000,
            minor < 0x100,
            patch < 0x100,
    ;
}

} // verus!
