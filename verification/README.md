# dala_ir

A typed SSA intermediate representation for BEAM bytecode, with a
set-theoretic type lattice and a set of optimization passes, written in
Verus: the library's functions carry contracts that Verus proves; the few
calls into `indexmap` and std (decimal text, clocks, the text of a
`Duration`) stand behind small trusted wrappers.

## Layout

- `src/type_system.rs`: types, their mathematical model (`KindV`), the
  lattice operations (join, meet, inclusion, difference, exhaustiveness)
  and the laws of the lattice.
- `src/type_normalize.rs`: the canonical form of unions and intersections,
  with the laws that its members are irredundant and sorted.
- `src/type_display.rs`: the text of a type.
- `src/type_system_profiling.rs`: operation counters, traces of types,
  complexity metrics, size estimates and benchmarks.
- `src/instruction.rs`, `src/function.rs`, `src/value.rs`,
  `src/constant.rs`, `src/module.rs`, `src/builder.rs`: the IR itself and
  its construction.
- `src/layout.rs`: stack frame layouts and GC stack maps.
- `src/opt/`: the passes (dead code elimination, CFG simplification,
  constant propagation and folding, common subexpressions, tail calls,
  pattern matching, type inference, escape analysis, native
  specialization, speculation) and the validator.
- `tests/`: executable tests of the library.
- `app/`: `Display` forms of the library's values (their text is computed
  by the library), float constants and the debug-build validation hook.

Spans of time in the profiler are counted in nanoseconds; float constants
are held by the bit pattern of their `f64`.
