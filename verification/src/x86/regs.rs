//! x86-64 physical register numbering: general-purpose registers are 0–15
//! (REX encoding order), XMM registers are 16–31.

use vstd::prelude::*;
use crate::machine::PReg;

verus! {

/// `rax`.
pub const RAX: u8 = 0;
/// `rcx`.
pub const RCX: u8 = 1;
/// `rdx`.
pub const RDX: u8 = 2;
/// `rbx`.
pub const RBX: u8 = 3;
/// `rsp`.
pub const RSP: u8 = 4;
/// `rbp`.
pub const RBP: u8 = 5;
/// `rsi`.
pub const RSI: u8 = 6;
/// `rdi`.
pub const RDI: u8 = 7;
/// `r8`.
pub const R8: u8 = 8;
/// `r9`.
pub const R9: u8 = 9;
/// `r10`.
pub const R10: u8 = 10;
/// `r11`.
pub const R11: u8 = 11;
/// `r12`.
pub const R12: u8 = 12;
/// `r13`.
pub const R13: u8 = 13;
/// `r14`.
pub const R14: u8 = 14;
/// `r15`.
pub const R15: u8 = 15;
/// `xmm0`.
pub const XMM0: u8 = 16;
/// `xmm1`.
pub const XMM1: u8 = 17;
/// `xmm2`.
pub const XMM2: u8 = 18;
/// `xmm3`.
pub const XMM3: u8 = 19;
/// `xmm4`.
pub const XMM4: u8 = 20;
/// `xmm5`.
pub const XMM5: u8 = 21;
/// `xmm6`.
pub const XMM6: u8 = 22;
/// `xmm7`.
pub const XMM7: u8 = 23;
/// `xmm8`.
pub const XMM8: u8 = 24;
/// `xmm9`.
pub const XMM9: u8 = 25;
/// `xmm10`.
pub const XMM10: u8 = 26;
/// `xmm11`.
pub const XMM11: u8 = 27;
/// `xmm12`.
pub const XMM12: u8 = 28;
/// `xmm13`.
pub const XMM13: u8 = 29;
/// `xmm14`.
pub const XMM14: u8 = 30;
/// `xmm15`.
pub const XMM15: u8 = 31;

/// Caller-saved registers available for allocation (excludes RSP, RBP and the
/// callee-saved RBX, R12–R15).
pub const ALLOCATABLE: [u8; 9] = [RAX, RCX, RDX, RSI, RDI, R8, R9, R10, R11];

/// Callee-saved registers (System V AMD64).
pub const CALLEE_SAVED: [u8; 6] = [RBX, RBP, R12, R13, R14, R15];

/// Caller-saved XMM registers available for FP allocation (System V AMD64).
pub const FP_ALLOCATABLE: [u8; 8] = [XMM0, XMM1, XMM2, XMM3, XMM4, XMM5, XMM6, XMM7];

/// XMM registers that are callee-saved under the Windows x64 ABI.
pub const FP_CALLEE_SAVED_WIN64: [u8; 8] = [XMM8, XMM9, XMM10, XMM11, XMM12, XMM13, XMM14, XMM15];

/// Is `r` an XMM (floating-point / SIMD) register?
pub fn is_fp_reg(r: PReg) -> (b: bool)
    ensures
        b == (r.0 >= 16),
{
    r.0 >= 16
}

/// The 4-bit XMM number (0–15) used in ModRM/REX encoding.
pub fn xmm_enc(r: PReg) -> (n: u8)
    requires
        r.0 >= 16,
    ensures
        n == r.0 - 16,
{
    r.0 - 16
}

/// Name of XMM register number `n`, or `??` for any other number.
pub open spec fn xmm_name_of(n: u8) -> &'static str {
    match n {
        16 => "xmm0",
        17 => "xmm1",
        18 => "xmm2",
        19 => "xmm3",
        20 => "xmm4",
        21 => "xmm5",
        22 => "xmm6",
        23 => "xmm7",
        24 => "xmm8",
        25 => "xmm9",
        26 => "xmm10",
        27 => "xmm11",
        28 => "xmm12",
        29 => "xmm13",
        30 => "xmm14",
        31 => "xmm15",
        _ => "??",
    }
}

/// Assembler name of an XMM register.
pub fn xmm_name(r: PReg) -> (name: &'static str)
    ensures
        name == xmm_name_of(r.0),
{
    match r.0 {
        16 => "xmm0",
        17 => "xmm1",
        18 => "xmm2",
        19 => "xmm3",
        20 => "xmm4",
        21 => "xmm5",
        22 => "xmm6",
        23 => "xmm7",
        24 => "xmm8",
        25 => "xmm9",
        26 => "xmm10",
        27 => "xmm11",
        28 => "xmm12",
        29 => "xmm13",
        30 => "xmm14",
        31 => "xmm15",
        _ => "??",
    }
}

/// Name of general-purpose register number `n`, or `??` for any other number.
pub open spec fn reg_name_of(n: u8) -> &'static str {
    match n {
        0 => "rax",
        1 => "rcx",
        2 => "rdx",
        3 => "rbx",
        4 => "rsp",
        5 => "rbp",
        6 => "rsi",
        7 => "rdi",
        8 => "r8",
        9 => "r9",
        10 => "r10",
        11 => "r11",
        12 => "r12",
        13 => "r13",
        14 => "r14",
        15 => "r15",
        _ => "??",
    }
}

/// Assembler name of a 64-bit general-purpose register.
pub fn reg_name(r: PReg) -> (name: &'static str)
    ensures
        name == reg_name_of(r.0),
{
    match r.0 {
        0 => "rax",
        1 => "rcx",
        2 => "rdx",
        3 => "rbx",
        4 => "rsp",
        5 => "rbp",
        6 => "rsi",
        7 => "rdi",
        8 => "r8",
        9 => "r9",
        10 => "r10",
        11 => "r11",
        12 => "r12",
        13 => "r13",
        14 => "r14",
        15 => "r15",
        _ => "??",
    }
}

/// Does `r` need a REX prefix bit (R8–R15 and above)?
pub fn is_extended(r: PReg) -> (b: bool)
    ensures
        b == (r.0 >= 8),
{
    r.0 >= 8
}

/// The 3-bit ModRM encoding of `r` (its low three bits).
pub fn reg_enc(r: PReg) -> (n: u8)
    ensures
        n == r.0 % 8,
{
    let x = r.0;
    let n = x & 7;
    assert(x & 7 == x % 8) by (bit_vector);
    n
}

/// A general-purpose register number is recovered from its REX bit
/// (`is_extended`) and its 3-bit ModRM field (`reg_enc`).
pub proof fn lemma_rex_modrm_identify(n: u8)
    requires
        n < 16,
    ensures
        n == (if n >= 8 { 8u8 } else { 0u8 }) + n % 8,
{
}

} // verus!
