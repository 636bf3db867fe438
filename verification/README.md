# js_object_parser

A verified parser for JavaScript and TypeScript object literals over a stream of
lexed tokens, and the static values that JavaScript expressions denote.

- `src/syntax_kind.rs`: the kinds of tokens and nodes.
- `src/events.rs`: the events a parse emits (`Start`, `Token`, `Finish`) and their
  mathematical model: nesting depth, well-nested forests, emitted tokens.
- `src/parser.rs`: the parser state, its view and invariant (the emitted tokens
  stand one for one for the consumed ones), markers, checkpoints and diagnostics.
  This machinery (with the separated member list and its recovery in
  `object.rs`) is written here rather than taken from `biome_parser`: that crate
  hands its rules a parser through traits (`Parser`, `ParseSeparatedList`,
  `SyntaxFeature`) that the rules implement, and a verified crate can neither
  implement an outside trait for its own types nor call through one.
- `src/syntax/object.rs`: object literals, their member list with error recovery,
  and every member kind (properties, shorthands, spreads, methods, getters,
  setters, member names).
- `src/syntax/expr.rs`, `function.rs`, `typescript.rs`, `metavariable.rs`,
  `balanced.rs`: the surrounding rules that object members reach (expressions,
  function bodies and parameters, TypeScript-only syntax, metavariables).
  An expression is bounded by a bracket-balanced run of tokens and parsed into the
  tree of its binary operators (`in`, `instanceof`, relational, additive,
  multiplicative, bitwise) over its operands; a literal, `this` or a name is an
  operand node of its own, and any other operand is a `JS_EXPRESSION` node over
  its tokens (the empty object literal `{}` excepted). Function bodies and parameter lists are bracket-balanced groups in
  which a `yield` outside a generator and an `await` outside an async function
  are reported. Types are runs that end before a `,`, `;`, `=` or a `{` that
  follows a complete type.
- `src/static_value.rs`: static values (`true`, `null`, numbers, strings, ...),
  their text, range and falsiness.
- `app/`: criterion benchmarks of the parser.

Every parse rule states in its contract that it leaves the parser exactly as it
was when it returns `Absent`, and that it appends exactly one well-nested node
otherwise. The spec functions whose names end in `_after` say where a rule leaves
the parser and which diagnostics it has added, and those whose names end in
`_events` the nodes and tokens it has appended; a rule's contract states them on
every input on which the rules it reaches determine them. Object literals nest: the member
list, the members, their names and their values are mutually recursive spec
functions that decrease on the tokens left (`tokens_left`), so an object literal
inside a member name or value is stated as exactly as the outer one.
