//! Code-generation support for an LLVM-style compiler backend: machine-instruction
//! model, LEB128 and exception-table encoding, target cost models, register tables,
//! RISC-V and WebAssembly encoders, object merging, IR transforms over a model of
//! the SSA function layout, and the driver's command line.

pub mod leb128;
pub mod machine;
pub mod object;
pub mod strings;
pub mod intrinsics;
pub mod lsda;
pub mod tti;
pub mod x86;
pub mod arm;
pub mod riscv;
pub mod wasm;
pub mod backend;
pub mod thinlto;
pub mod ubsan;
pub mod tsan;
pub mod msan;
pub mod validation;
pub mod cli;
pub mod ir;
pub mod transforms;
