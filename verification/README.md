# galeforce_compiler

The verified core of a Tailwind CSS v3–compatible compiler, written in Verus.
The functions in `src/` carry `requires`/`ensures` contracts over
mathematical models (`Seq`, `Map`, spec functions), and Verus proves the code
against them.

The library is the part of the compiler that works on CSS, selectors,
sort keys, themes and configuration. The candidate compiler that turns a
class name into rules (the class-name parser, the static and value utility
tables, the variant registry and the colour palette) is not part of it:
those come from other crates, and their results reach this library as
inputs, such as recorded plugin output or the flattened colour table that
`default_theme::build_default_theme` takes.

## Layout

- `src/` – the library, one module per concern:
  - `minify`, `css_items`, `css_blocks`: the passes over emitted CSS
    (comments, whitespace, merging adjacent rules, duplicate declarations,
    `!important` tagging, layer tree-shaking).
  - `selector_ast`, `element_selector`, `class_subst`, `directives`: selector
    parsing and printing, moving pseudo-elements, class substitution for
    `@apply` and plugin rules, compound rewriting.
  - `offsets`, `variant_bits`, `variant_names`: rule sort keys, variant bits
    and the stable final sort.
  - `theme`, `directive_calls`, `screens`, `container`, `config`, `json`:
    `theme()` and `screen()` resolution, screens, the `container`
    component, configuration reading over a plain JSON model.
  - `default_theme`: the default theme tables, each stated exactly, and
    the builder that assembles them around a caller-supplied colour table.
  - `plugins`, `plugin_match`, `rules`, `tailwind_layers`, `defaults_pass`:
    recorded plugin output, the rules it yields, the `important` setting,
    `@tailwind` layers and the `@defaults` pass.
  - `lcss`, `source_map`: the Lightning CSS pass and inline source maps;
    the calls into `lightningcss`, `parcel_sourcemap` and `base64` sit behind
    small trusted wrappers whose contracts name what the crates compute.
- `tests/` – ordinary Rust tests of the library.
- `app/` – the thin unverified edge: JSON conversion with `serde_json` and
  convenience entry points that take JSON configuration.

The laws of the library (cascade order, idempotence of important marking,
tokenizer coverage, selector-list shape and print-back, the minifier's
output shape, pseudo-moving keeping every node, and others) are public
proof functions named `law_*` or `lemma_*` in the modules they concern.
