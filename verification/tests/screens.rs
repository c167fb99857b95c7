use galeforce_compiler::json::JsonValue;
use galeforce_compiler::screens::{default_screens, resolve_screens, Screen};

fn obj(members: Vec<(&str, JsonValue)>) -> JsonValue {
    JsonValue::Object(members.into_iter().map(|(k, v)| (k.to_string(), v)).collect())
}

fn s(text: &str) -> JsonValue {
    JsonValue::Str(text.to_string())
}

#[test]
fn defaults_match_tailwind_3_4_19() {
    let s = default_screens();
    assert_eq!(s.len(), 5);
    assert_eq!(
        s[0],
        Screen {
            name: "sm".into(),
            value: "640px".into(),
            is_raw: false,
        }
    );
    assert_eq!(
        s[4],
        Screen {
            name: "2xl".into(),
            value: "1536px".into(),
            is_raw: false,
        }
    );
}

#[test]
fn theme_screens_replaces_defaults() {
    let cfg = obj(vec![("theme", obj(vec![("screens", obj(vec![("tablet", s("900px"))]))]))]);
    let got = resolve_screens(&cfg);
    assert_eq!(
        got,
        vec![Screen {
            name: "tablet".into(),
            value: "900px".into(),
            is_raw: false,
        }]
    );
}

#[test]
fn theme_extend_screens_merges() {
    let cfg = obj(vec![(
        "theme",
        obj(vec![(
            "extend",
            obj(vec![("screens", obj(vec![("3xl", s("1800px")), ("md", s("800px"))]))]),
        )]),
    )]);
    let got = resolve_screens(&cfg);
    assert!(got.iter().any(|sc| sc.name == "3xl" && sc.value == "1800px"));
    assert!(got.iter().any(|sc| sc.name == "md" && sc.value == "800px"));
    assert!(got.iter().any(|sc| sc.name == "sm"));
}

#[test]
fn no_theme_falls_back_to_defaults() {
    let cfg = obj(vec![]);
    assert_eq!(resolve_screens(&cfg), default_screens());
}

#[test]
fn extend_replaces_in_place_and_appends_new() {
    let cfg = obj(vec![(
        "theme",
        obj(vec![(
            "extend",
            obj(vec![("screens", obj(vec![("3xl", s("1800px")), ("md", s("800px"))]))]),
        )]),
    )]);
    let got = resolve_screens(&cfg);
    let names: Vec<&str> = got.iter().map(|sc| sc.name.as_str()).collect();
    assert_eq!(names, vec!["sm", "md", "lg", "xl", "2xl", "3xl"]);
    assert_eq!(got[1].value, "800px");
}

#[test]
fn raw_and_bounded_screens() {
    let cfg = obj(vec![(
        "theme",
        obj(vec![(
            "screens",
            obj(vec![
                ("tall", obj(vec![("raw", s("(min-height: 800px)"))])),
                ("lo", obj(vec![("min", s("100px"))])),
                ("hi", obj(vec![("max-width", s("900px"))])),
                ("mid", obj(vec![("min-width", s("200px")), ("max", s("300px"))])),
                ("bad", obj(vec![("other", s("1px"))])),
                ("num", JsonValue::Number("3".to_string())),
            ]),
        )]),
    )]);
    let got = resolve_screens(&cfg);
    assert_eq!(
        got,
        vec![
            Screen { name: "tall".into(), value: "(min-height: 800px)".into(), is_raw: true },
            Screen { name: "lo".into(), value: "100px".into(), is_raw: false },
            Screen { name: "hi".into(), value: "(max-width: 900px)".into(), is_raw: true },
            Screen {
                name: "mid".into(),
                value: "(min-width: 200px) and (max-width: 300px)".into(),
                is_raw: true
            },
        ]
    );
}

#[test]
fn non_object_screens_fall_through_to_extend() {
    let cfg = obj(vec![(
        "theme",
        obj(vec![
            ("screens", s("nope")),
            ("extend", obj(vec![("screens", obj(vec![("sm", s("600px"))]))])),
        ]),
    )]);
    let got = resolve_screens(&cfg);
    assert_eq!(got.len(), 5);
    assert_eq!(got[0].value, "600px");
}

#[test]
fn theme_without_screens_gives_defaults() {
    let cfg = obj(vec![("theme", obj(vec![("colors", obj(vec![]))]))]);
    assert_eq!(resolve_screens(&cfg), default_screens());
}
