//! The code-generation backend: its entry point, the standalone driver that
//! merges per-function objects, and the x86-64 shim pipeline.

pub mod codegen_backend;
pub mod driver;
pub mod shim;

use vstd::prelude::*;

verus! {

/// Stable short name of this backend.
pub const BACKEND_NAME: &'static str = "llvm-in-rust";

} // verus!
