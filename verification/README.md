# skia_rs

A 2D graphics library whose logic is verified with Verus: runtime shader
effects (preprocessing, lexing, parsing, checking, interpreting and emitting
shading programs), shaders and filters with their serialized forms, paths with
their measures, shapes and boolean operations, tessellation, glyph caching and
signed distance fields.

- `src/` is the verified library. Floating-point numbers are carried as their
  bit patterns; float arithmetic is handed in as a `FloatUnit`, and contracts
  are formulas over its answers.
- `tests/` runs the library on concrete values.
- `app/` supplies the floating-point arithmetic, the boolean operations of the
  `geo` crate and the loops around a texture atlas.
