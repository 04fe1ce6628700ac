# bevy_jsx

React-like declarative UI composition for Bevy ECS. A component is a plain
function from a props struct to a bundle, defined with `jsx_component!`;
trees are composed with `element!`.

The definition macro is the part with logic in it, and that logic is
verified with Verus:

- `src/tokens.rs` — a plain model of token trees (identifiers, punctuation,
  literals, groups, each with an opaque span handle), their mathematical
  view, and their source text.
- `src/syntax.rs` — the grammar of a definition
  `Name(NameProps) { field: Type = default, ... } |binding| body`, as a
  spec function and a parser proved to compute it. Where the grammar refers
  to Rust itself (types, expressions, attributes, identifiers), `syn` is
  asked.
- `src/spread.rs` — the rewriting of `..rest` spreads in the build body, with
  its laws: a body without spreads is left as it is, and no spread is left
  afterwards.
- `src/expand.rs` — the full expansion: the props struct, the hidden partial
  props struct with its defaults and setters (required props as `Option`),
  the unit struct and the component impl, with laws on refused definitions,
  on the props a spread stands for, on required props and on attributes.
- `src/element.rs` — the element tree types.

`app/` holds what the compiler and Bevy need around it: the procedural
macro's entry point (converting compiler tokens to and from the model), the
`Spawnable` trait that spawns trees into a world, and the `element!` macros.
