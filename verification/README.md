# stick

The front end of the Stick language — syntax tree, parser, semantic
analysis and diagnostics — written in Verus, with its behaviour stated in
contracts and proved.

## Layout

- `src/` — the verified library
  - `token.rs`, `ast.rs`, `errors.rs`, `text.rs`, `literal.rs`: tokens, the
    syntax tree with its spans, error values with their messages, and the
    reading of numeric literals.
  - `parser.rs`: the recursive-descent parser. `grammar.rs` states, as spec
    functions over a parse state, what each parsing method does (error
    recovery included); every method's contract says that it does exactly
    that, and `tree.rs` gives the syntax tree as a mathematical value.
  - `analyzer.rs`: scoped name resolution, type checking and constant
    folding. `semantics.rs` states each analysis step as a function from an
    analysis state to the next one; the methods are proved to follow it.
    Integer constants are folded exactly. Floating-point numbers cannot be
    held in verified code, so a floating-point constant is modelled by its
    precision (written as a literal, or held by an `f64` binding) and by
    its range — whether it is finite and within `f32`'s range — which the
    caller reads for each literal (`Analyzer::float_ranges`; `app/` reads
    them as `f64`). Arithmetic and comparisons on floating-point constants
    are not folded.
  - `decl_analyzer.rs`: the declaration-only analyzer.
  - `diagnostic.rs`: reports rendered with `ariadne`, and the plain-text
    dump of the same reports with their escape sequences stripped. The
    colour codes depend on the process (yansi's colour switch); the
    stripped text is stated for every report whose own texts hold no
    escape character.
  - `laws.rs`: properties that span functions — span joins, the typing
    rules, operator precedence and associativity, statement separators,
    and what every analysis step keeps (open scopes, bindings, diagnostics,
    symbol numbers).
- `tests/` — tests on concrete inputs.
- `app/` — the I/O around the library: the lexer's error callback, the dump
  file, and what parsing and analysis print (parsing runs the library's
  verified top-level step, `Parser::parse_step`, and prints as it goes).
