//! AArch64 target: register numbering, opcode numbers and the cost model.

pub mod instructions;
pub mod regs;
pub mod tti;
