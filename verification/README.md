# neuramancy

Notes, snippets and knots, and a 3D knowledge space in which they are shown.

- `src/` is the verified library: the graph the knowledge space shows for
  each tier, the optimistic note and knot caches with their commit and
  rollback steps, the knot editor's form, the database transactions that
  create notes and knots, which embeddings must be computed, and the integer
  side of glyphs and layout. Every public function carries a contract that
  Verus proves; the laws that tie functions together are public proof
  functions.
- `app/` is ordinary Rust around it: the floating-point glyph and position
  arithmetic, the JSON forms of the records, the scene snapshot shared with
  the renderer, the operation runner and the server handlers.
- `tests/` runs the library on concrete values.
