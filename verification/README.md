# gui_build

Code generation for the components of a declarative GUI, proved with Verus.

A component declares a tree of widgets, its variables, its fluent (localised)
texts and its states. From these the library builds a tree of `Widget`s, each
numbered from a counter in pre-order, with its fluents named after the
component and the widget and with what each state overrides. From the tree it
writes the Rust code that a build script hands on: updating widgets when a
variable changes, re-rendering fluent texts, setting static properties,
declaring handler types, and listing widgets by identifier.

Layout:

- `src/model.rs`: the declarations read (component, widgets, states), a
  widget's builder held as plain values, among them the code it writes to
  update each property.
- `src/fluent.rs`: naming of fluents and the component-level variable update.
- `src/widget.rs`, `src/widget_set.rs`: the widget tree, how it is built and
  the code generated from it, with the specifications of each walk.
- `src/numbering.rs`, `src/traversal.rs`: properties of built trees and walks
  (numbering, distinct identifiers within and across trees, largest
  identifier, coverage, the order of iteration, empty fluent updates).
- `src/code.rs`: string literals, decimals, lexing into `proc_macro2` tokens.
- `src/ids.rs`, `src/error.rs`, `src/flat.rs`: counters, errors, flat maps.
- `app/lib.rs`: process-wide counters, `anyhow` errors and token streams.

Generated code is produced as text with exact specifications; `into_token_stream`
turns it into tokens.

Conventions of this library: a widget's children are keyed by their position
in decimal and reached in generated code as `(parent).key`; a state override's
fluents are named with the state's name among the parts. Widget types, widget
creation and widget-set code come from each widget builder's own code in the
GUI framework and are not generated here.
