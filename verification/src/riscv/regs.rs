//! RISC-V RV64 register numbering: integer registers x0–x31 are 0–31, the
//! F/D floating-point registers f0–f31 are 32–63.

use vstd::prelude::*;
use crate::machine::PReg;

verus! {

/// `x0` (zero).
pub const X0: u8 = 0;
/// `x1` (ra).
pub const X1: u8 = 1;
/// `x2` (sp).
pub const X2: u8 = 2;
/// `x3` (gp).
pub const X3: u8 = 3;
/// `x4` (tp).
pub const X4: u8 = 4;
/// `x5` (t0).
pub const X5: u8 = 5;
/// `x6` (t1).
pub const X6: u8 = 6;
/// `x7` (t2).
pub const X7: u8 = 7;
/// `x8` (s0/fp).
pub const X8: u8 = 8;
/// `x9` (s1).
pub const X9: u8 = 9;
/// `x10` (a0).
pub const X10: u8 = 10;
/// `x11` (a1).
pub const X11: u8 = 11;
/// `x12` (a2).
pub const X12: u8 = 12;
/// `x13` (a3).
pub const X13: u8 = 13;
/// `x14` (a4).
pub const X14: u8 = 14;
/// `x15` (a5).
pub const X15: u8 = 15;
/// `x16` (a6).
pub const X16: u8 = 16;
/// `x17` (a7).
pub const X17: u8 = 17;
/// `x18` (s2).
pub const X18: u8 = 18;
/// `x19` (s3).
pub const X19: u8 = 19;
/// `x20` (s4).
pub const X20: u8 = 20;
/// `x21` (s5).
pub const X21: u8 = 21;
/// `x22` (s6).
pub const X22: u8 = 22;
/// `x23` (s7).
pub const X23: u8 = 23;
/// `x24` (s8).
pub const X24: u8 = 24;
/// `x25` (s9).
pub const X25: u8 = 25;
/// `x26` (s10).
pub const X26: u8 = 26;
/// `x27` (s11).
pub const X27: u8 = 27;
/// `x28` (t3).
pub const X28: u8 = 28;
/// `x29` (t4).
pub const X29: u8 = 29;
/// `x30` (t5).
pub const X30: u8 = 30;
/// `x31` (t6).
pub const X31: u8 = 31;

/// Integer argument registers a0–a7.
pub const ARG_REGS: [u8; 8] = [X10, X11, X12, X13, X14, X15, X16, X17];

/// Integer return register a0.
pub const RET_REG: u8 = X10;

/// Callee-saved integer registers s1–s11.
pub const CALLEE_SAVED: [u8; 11] = [X9, X18, X19, X20, X21, X22, X23, X24, X25, X26, X27];

/// Integer registers available for allocation: a0–a7, t0–t6, s1–s11.
pub const ALLOCATABLE: [u8; 26] = [
    X10, X11, X12, X13, X14, X15, X16, X17, X5, X6, X7, X28, X29, X30, X31, X9, X18, X19, X20, X21,
    X22, X23, X24, X25, X26, X27,
];

/// `f0` (ft0).
pub const F0: u8 = 32;
/// `f1` (ft1).
pub const F1: u8 = 33;
/// `f2` (ft2).
pub const F2: u8 = 34;
/// `f3` (ft3).
pub const F3: u8 = 35;
/// `f4` (ft4).
pub const F4: u8 = 36;
/// `f5` (ft5).
pub const F5: u8 = 37;
/// `f6` (ft6).
pub const F6: u8 = 38;
/// `f7` (ft7).
pub const F7: u8 = 39;
/// `f8` (fs0).
pub const F8: u8 = 40;
/// `f9` (fs1).
pub const F9: u8 = 41;
/// `f10` (fa0).
pub const F10: u8 = 42;
/// `f11` (fa1).
pub const F11: u8 = 43;
/// `f12` (fa2).
pub const F12: u8 = 44;
/// `f13` (fa3).
pub const F13: u8 = 45;
/// `f14` (fa4).
pub const F14: u8 = 46;
/// `f15` (fa5).
pub const F15: u8 = 47;
/// `f16` (fa6).
pub const F16: u8 = 48;
/// `f17` (fa7).
pub const F17: u8 = 49;
/// `f18` (fs2).
pub const F18: u8 = 50;
/// `f19` (fs3).
pub const F19: u8 = 51;
/// `f20` (fs4).
pub const F20: u8 = 52;
/// `f21` (fs5).
pub const F21: u8 = 53;
/// `f22` (fs6).
pub const F22: u8 = 54;
/// `f23` (fs7).
pub const F23: u8 = 55;
/// `f24` (fs8).
pub const F24: u8 = 56;
/// `f25` (fs9).
pub const F25: u8 = 57;
/// `f26` (fs10).
pub const F26: u8 = 58;
/// `f27` (fs11).
pub const F27: u8 = 59;
/// `f28` (ft8).
pub const F28: u8 = 60;
/// `f29` (ft9).
pub const F29: u8 = 61;
/// `f30` (ft10).
pub const F30: u8 = 62;
/// `f31` (ft11).
pub const F31: u8 = 63;

/// FP argument registers fa0–fa7.
pub const FP_ARG_REGS: [u8; 8] = [F10, F11, F12, F13, F14, F15, F16, F17];

/// FP return register fa0.
pub const FP_RET_REG: u8 = F10;

/// Callee-saved FP registers fs0–fs11.
pub const FP_CALLEE_SAVED: [u8; 12] = [F8, F9, F18, F19, F20, F21, F22, F23, F24, F25, F26, F27];

/// FP registers available for allocation: temporaries, arguments, then the
/// callee-saved ones.
pub const FP_ALLOCATABLE: [u8; 32] = [
    F0, F1, F2, F3, F4, F5, F6, F7, F10, F11, F12, F13, F14, F15, F16, F17, F28, F29, F30, F31, F8,
    F9, F18, F19, F20, F21, F22, F23, F24, F25, F26, F27,
];

/// The 5-bit register field of `r` (its low five bits).
pub fn reg_enc(r: PReg) -> (n: u8)
    ensures
        n == r.0 % 32,
{
    let x = r.0;
    assert(x & 0x1F == x % 32) by (bit_vector);
    x & 0x1F
}

/// Is `r` an F/D floating-point register?
pub fn is_fp_reg(r: PReg) -> (b: bool)
    ensures
        b == (r.0 >= 32),
{
    r.0 >= 32
}

/// The 5-bit hardware number of an FP register.
pub fn fp_enc(r: PReg) -> (n: u8)
    requires
        r.0 >= 32,
    ensures
        n == r.0 - 32,
{
    r.0 - 32
}

} // verus!
