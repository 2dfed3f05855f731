//! RISC-V RV64 target: register numbering, opcode numbers, calling convention
//! and the instruction encoder.

pub mod abi;
pub mod encode;
pub mod instructions;
pub mod lower;
pub mod regs;
