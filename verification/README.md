# Code-generation support library, verified with Verus

Pieces of an LLVM-style compiler backend, each with a contract that Verus
proves:

- `leb128`, `wasm::encode`: LEB128 integers; WebAssembly instruction
  emission, function bodies and complete modules (deduplicated type table).
- `lsda`: `.gcc_except_table` call-site tables and the MSVC IP-to-state blob
  (sorted by a verified stable insertion sort).
- `intrinsics`: lowering of `llvm.*` intrinsic calls to machine instructions.
- `riscv`: RV64 register tables, calling convention, the instruction
  selector (IR to machine instructions on virtual registers, with phi copies
  on edges and edge blocks for conditional branches), the instruction encoder
  and the text emitter with branch patching.
- `x86`, `arm`, `tti`: register tables and target cost models.
- `backend`, `thinlto`: merging per-function objects into one, bitcode
  section embedding.
- `ir`, `transforms`: a model of the SSA function layout (blocks, the
  instruction pool, the constant pool and the type table), jump threading,
  tail-call marking and loop-invariant code motion (given the loops and
  predecessor lists of a control-flow analysis) over it.
- `ubsan`, `tsan`, `msan`: sanitizer instrumentation over the same model:
  overflow, division and null-pointer checks (block splitting), `unreachable`
  handlers, ThreadSanitizer read/write and entry/exit probes, MemorySanitizer
  shadow checks and stack poisoning.
- `cli`: the `llvm-compile` command line, decided argument by argument.

`tests/` runs the library on concrete values; `app/` is a small program that
uses it.
