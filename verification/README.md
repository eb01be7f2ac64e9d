# adamas_codegen

Back-end helpers of the Adamas compiler, verified with Verus.

- `src/collapse.rs` — the text pass that removes `adamas_dup`/`adamas_drop`
  pairs after inlining; `src/pairing.rs` proves what it may remove.
- `src/llvm.rs` — the LLVM toolchain: tool paths, the version of
  `llvm-as`, the pipeline of stages, the runs it plans and what each run's
  outcome leads to.
- `src/native.rs` — the C compiler: how generated C, an LLVM object and the
  runtime are compiled and linked, in which order, when the runtime is
  stale, and which error each failed step gives.
- `src/emit_c.rs`, `src/emit_llvm.rs` — the parts of the two emitters that
  do not read the IR: names, signatures, vector types, the constructor
  table, the `switch` arms of handler branches, metadata numbering, DWARF nodes, the module frame.
- `src/lower.rs` — the refusals of lowering and their texts.
- `src/layout.rs` — flat layout arithmetic: tags, alignment, fields in a
  row, the layouts of records and of families.
- `src/prim.rs`, `src/repr.rs` — primitive types and run-time
  representations as the emitters read them.
- `src/text.rs`, `src/path.rs` — text and path helpers with their
  specifications.
- `app/` — running the plans: processes, files, environment, and the error
  types with `std::error::Error`.
