//! Backend entry point and instruction-selection backend choice.

use vstd::prelude::*;
use crate::backend::driver::TargetArch;
use crate::strings::{contains, seq_contains};

verus! {

/// The version string reported by the backend entry point.
pub open spec fn entrypoint_text() -> Seq<char> {
    "llvm-in-rust codegen backend v0.1"@
}

/// Return the backend name and version.
pub fn codegen_backend_entrypoint() -> (s: &'static str)
    ensures
        s@ == entrypoint_text(),
{
    "llvm-in-rust codegen backend v0.1"
}

/// The architecture whose instruction selector handles `triple`: AArch64 for
/// triples naming `aarch64` or `arm64`, x86-64 for every other triple.
pub open spec fn backend_arch(triple: Seq<char>) -> TargetArch {
    if seq_contains(triple, "aarch64"@) || seq_contains(triple, "arm64"@) {
        TargetArch::AArch64
    } else {
        TargetArch::X86_64
    }
}

/// One backend instance per compilation session; the instruction-selection
/// backend is chosen lazily from the target triple.
pub struct LlvmInRustBackend {
    /// The selected instruction-selection backend, once chosen.
    pub target_machine: Option<TargetArch>,
}

impl LlvmInRustBackend {
    /// A backend with no target machine selected yet.
    pub fn new() -> (b: Self)
        ensures
            b.target_machine is None,
    {
        LlvmInRustBackend { target_machine: None }
    }

    /// The instruction-selection backend for `triple`.
    pub fn make_backend(triple: &str) -> (arch: TargetArch)
        ensures
            arch == backend_arch(triple@),
    {
        if contains(triple, "aarch64") || contains(triple, "arm64") {
            TargetArch::AArch64
        } else {
            TargetArch::X86_64
        }
    }
}

impl Default for LlvmInRustBackend {
    fn default() -> (b: Self)
        ensures
            b.target_machine is None,
    {
        Self::new()
    }
}

} // verus!
