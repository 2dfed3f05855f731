//! WebAssembly target: opcode numbers and the binary-format encoder.

pub mod encode;
pub mod instructions;
