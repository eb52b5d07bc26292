# mup

Escaped-by-default HTML markup for Rust, with components, children slots and
named fragments, verified with Verus.

## Layout

- `src/` is the verified library.
  - `html`: escaping, name checks, and decimal text.
  - `model`: what a markup means (its html, and its template of html, slots and fragments), and the laws that relate the operations.
  - `markup`: `Markup`.
  - `template`: `TemplateBuilder` and the helpers that generated code calls.
  - `attrs`, `render`: the traits through which values become attributes, classes and markup.
  - `cursor`, `dsl`, `nodes`: reading the markup DSL from tokens into a syntax tree.
  - `emit`: the code that `markup!` expands to, written from that tree as
    tokens: `expand_markup` reads the DSL and writes the block that builds
    the markup (elements, void elements, class and id shorthand, dynamic
    classes, prefixed and literal attribute names, spreads, control flow,
    values with children, `@children`).
  - `component`: the `Render` impls that `component!` writes for a struct
    or an enum, from the item's name, generics and fields.
  - `code_law`: what the written code does. For static markup, the helper
    calls it makes append exactly the markup's html.
- `tests/` exercises the library: scenarios, edge cases, the written code
  token by token, and each law on concrete values.
- `app/` is ordinary Rust around the library:
  - the `markup!` and `component!` macros, as `macro_rules`. A procedural
    macro needs a crate of its own kind, which this project cannot declare,
    so the verified expansion in `emit` and `component` cannot be plugged in
    as the macro here; the `macro_rules` read the same DSL and call the same
    verified `template` helpers, and are not verified themselves. Reading a
    component's Rust item (its attributes, generics and fields) is left to
    them too;
  - entry points that check what the library requires and panic otherwise,
    among them the checks of attribute names before a spread;
  - rendering of floating point values.

Attribute spreads from a `BTreeMap` or a `HashMap` accept every map: each
entry whose name is valid is rendered, in the order in which the map's
iterator gives the entries. Where the key type obeys vstd's model of `Ord`
(for a `BTreeMap`) or of `Hash` with a valid hasher (for a `HashMap`), the
contract says more: the entries rendered are the map's, once each, a
`BTreeMap`'s in ascending key order. vstd gives that model for the integer
types, but not for string keys.
