# boon

A compiler and preview toolkit for Boon modules, written in Verus. The
functions carry contracts that Verus proves. How much each contract
pins down varies: some functions are stated only in part.

Layout:

- `src/syntax/`: the line-based parser. It produces the kept lines, the
  record tree, the `SOURCE` leaves, module calls, text literals, state
  steps, `List/map` bindings and the AST.
- `src/hir/`: lowering of the AST to the HIR. Calls are classified by
  path, and the features and diagnostics are recorded.
- `src/compiler/`: the checks that decide whether a module compiles. This
  covers the source inventory, element bindings and store reads. It also
  builds the app IR and the executable IR.
- `src/stdlib/`: the formula book and the number and geometry calls.
- `src/backend/`: the raster, terminal and browser previews.
- `src/wiring.rs`, `src/codegen.rs`, `src/emissions.rs`: collection wiring
  and code emission.
- `app/`: a thin library around the crate. It computes the HIR digest over
  the HIR's JSON form, steps the runtime clock by a `Duration`, and turns
  compile errors into `anyhow` errors. It has no program, window or file
  I/O.
- `tests/`: the tests, run against the compiled library.
