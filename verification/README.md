# elworthy

Symbolic SDEs and Bismut-Elworthy-Li Monte Carlo Greeks, with the symbolic
and integer core verified by Verus.

`src/` is the verified library:

- `expr`, `diff`: expression trees over state, time, parameter and Brownian
  variables, and their symbolic derivatives (`diff` returns exactly the
  rule-by-rule derivative; differentiation introduces no new variable).
- `weight`: constant-flow delta weights and binding of the initial state.
- `kernel`, `plan`: the input shape of a kernel, the checks that reject an
  expression, and the straight-line instruction plans a JIT backend emits
  (each plan computes the lowered expression and reads only in-bounds slots).
- `serial`, `hash`, `disk_cache`, `cache`: the binary format with its
  round-trip laws, structural hashing over that format, the on-disk entry
  layout and the in-memory kernel cache.
- `sde`: multi-dimensional systems, their dimension checks and tangent
  (Jacobian) systems, and the chunking, seeding and batching of paths.
- `cpu`, `text`, `render`, `float_bits`: lane selection, decimal and hex
  text, expression rendering, and exact `f64` encodings of integers.

`app/` holds what runs around it: the command line, the Cranelift backends
that emit the plans, the floating-point Monte Carlo drivers and estimators,
file I/O for the disk cache, and the Python bindings.
