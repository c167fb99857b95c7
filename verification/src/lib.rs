//! Verified core of a Tailwind-compatible CSS compiler: the CSS minifier,
//! the selector AST used to move pseudo-elements, the rule-offset sort keys
//! and variant bits, plugin-rule matching and the rules plugins give,
//! screen resolution and the `container` component, the `important`
//! setting applied to generated rules, the directive passes over user CSS
//! (`@tailwind` layers, `theme()`, `screen()`), the default theme and theme
//! lookups, the `@apply` index of user rules, the `@defaults` pass, and the final merge of
//! adjacent rules with duplicate declarations collapsed.

pub mod text;
pub mod minify;

pub use minify::minify_css;
pub mod selector_ast;
pub mod offsets;
pub mod json;
pub mod screens;
pub mod plugins;
pub mod source_map;
pub mod lcss;
pub mod directives;
pub mod css_blocks;
pub mod theme;
pub mod css_items;
pub mod user_cache;
pub mod element_selector;
pub mod class_subst;
pub mod arbitrary;
pub mod class_form;
pub mod config;
pub mod directive_calls;
pub mod variant_bits;
pub mod variant_names;
pub mod defaults_pass;
pub mod rules;
pub mod container;
pub mod plugin_match;
pub mod tailwind_layers;
pub mod default_theme;
