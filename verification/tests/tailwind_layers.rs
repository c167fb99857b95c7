use galeforce_compiler::directive_calls::Warning;
use galeforce_compiler::json::JsonValue;
use galeforce_compiler::plugins::{PluginDecl, PluginOutput, PluginRule};
use galeforce_compiler::tailwind_layers::{emit_tailwind_layer, LayerSources, UserLayers};

fn sources(preflight_enabled: bool) -> LayerSources {
    LayerSources {
        compiled_utilities: ".c{}".to_string(),
        compiled_components: ".container{}".to_string(),
        user_layers: UserLayers {
            base: "UB".to_string(),
            components: ".card{}".to_string(),
            utilities: ".u { color: red; }".to_string(),
        },
        preflight_enabled,
        candidate_set: vec![],
        base_cascade_vars: "CASCADE\n".to_string(),
        base_preflight: "PREFLIGHT\n".to_string(),
    }
}

fn base_plugin() -> PluginOutput {
    PluginOutput {
        utilities: vec![],
        components: vec![],
        base: vec![PluginRule {
            selector: "body".to_string(),
            declarations: vec![PluginDecl {
                property: "margin".to_string(),
                value: "0".to_string(),
                important: false,
            }],
            at_rules: vec!["@media print".to_string()],
            respect_important: true,
            group_class: None,
        }],
        variants: vec![],
    }
}

fn emit(layer: &str, src: &LayerSources, config: Option<&JsonValue>, plugins: Option<PluginOutput>) -> (String, Vec<Warning>) {
    let mut out = String::new();
    let mut warnings = Vec::new();
    emit_tailwind_layer(layer, src, config, plugins, &mut out, &mut warnings);
    (out, warnings)
}

#[test]
fn utilities_put_the_user_layer_before_the_compiled_rules() {
    let (out, w) = emit("utilities", &sources(true), None, None);
    assert_eq!(out, ".u { color: red; }.c{}");
    assert!(w.is_empty());
    let config = JsonValue::Object(vec![("important".to_string(), JsonValue::Bool(true))]);
    let (out, _) = emit("utilities", &sources(true), Some(&config), None);
    assert_eq!(out, ".u { color: red !important; }.c{}");
}

#[test]
fn base_writes_defaults_preflight_plugin_base_and_user_base() {
    let (out, _) = emit("base", &sources(true), None, Some(base_plugin()));
    assert_eq!(out, "CASCADE\nPREFLIGHT\n@media print { body { margin: 0;  } } UB");
    let (out, _) = emit("base", &sources(false), None, None);
    assert_eq!(out, "CASCADE\nUB");
}

#[test]
fn a_resolved_base_replaces_defaults_and_preflight() {
    let config = JsonValue::Object(vec![("__resolvedBase".to_string(), JsonValue::Str("RB ".to_string()))]);
    let (out, _) = emit("base", &sources(true), Some(&config), None);
    assert_eq!(out, "RB UB");
    let optimized = JsonValue::Object(vec![("experimental".to_string(), JsonValue::Str("all".to_string()))]);
    let (out, _) = emit("base", &sources(true), Some(&optimized), None);
    assert_eq!(out, "PREFLIGHT\nUB");
}

#[test]
fn components_and_unknown_layers() {
    let (out, _) = emit("components", &sources(true), None, None);
    assert_eq!(out, ".container{}.card{}");
    let (out, w) = emit("screens", &sources(true), None, None);
    assert_eq!(out, "");
    assert_eq!(w.len(), 1);
    assert_eq!(w[0].code, "unknown-tailwind-layer");
    assert_eq!(w[0].message, "`@tailwind screens;` is not a recognized layer");
}
