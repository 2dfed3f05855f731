//! AArch64 physical register numbering: X0–X30 and XZR are 0–31 (the 5-bit
//! hardware number), the D0–D31 floating-point registers are 32–63.

use vstd::prelude::*;
use crate::machine::PReg;

verus! {

/// `x0`.
pub const X0: u8 = 0;
/// `x1`.
pub const X1: u8 = 1;
/// `x2`.
pub const X2: u8 = 2;
/// `x3`.
pub const X3: u8 = 3;
/// `x4`.
pub const X4: u8 = 4;
/// `x5`.
pub const X5: u8 = 5;
/// `x6`.
pub const X6: u8 = 6;
/// `x7`.
pub const X7: u8 = 7;
/// `x8`.
pub const X8: u8 = 8;
/// `x9`.
pub const X9: u8 = 9;
/// `x10`.
pub const X10: u8 = 10;
/// `x11`.
pub const X11: u8 = 11;
/// `x12`.
pub const X12: u8 = 12;
/// `x13`.
pub const X13: u8 = 13;
/// `x14`.
pub const X14: u8 = 14;
/// `x15`.
pub const X15: u8 = 15;
/// `x16`.
pub const X16: u8 = 16;
/// `x17`.
pub const X17: u8 = 17;
/// `x18`.
pub const X18: u8 = 18;
/// `x19`.
pub const X19: u8 = 19;
/// `x20`.
pub const X20: u8 = 20;
/// `x21`.
pub const X21: u8 = 21;
/// `x22`.
pub const X22: u8 = 22;
/// `x23`.
pub const X23: u8 = 23;
/// `x24`.
pub const X24: u8 = 24;
/// `x25`.
pub const X25: u8 = 25;
/// `x26`.
pub const X26: u8 = 26;
/// `x27`.
pub const X27: u8 = 27;
/// `x28`.
pub const X28: u8 = 28;
/// `x29`.
pub const X29: u8 = 29;
/// `x30`.
pub const X30: u8 = 30;
/// `xzr` (reads as zero, writes are discarded).
pub const XZR: u8 = 31;
/// `d0`.
pub const D0: u8 = 32;
/// `d1`.
pub const D1: u8 = 33;
/// `d2`.
pub const D2: u8 = 34;
/// `d3`.
pub const D3: u8 = 35;
/// `d4`.
pub const D4: u8 = 36;
/// `d5`.
pub const D5: u8 = 37;
/// `d6`.
pub const D6: u8 = 38;
/// `d7`.
pub const D7: u8 = 39;
/// `d8`.
pub const D8: u8 = 40;
/// `d9`.
pub const D9: u8 = 41;
/// `d10`.
pub const D10: u8 = 42;
/// `d11`.
pub const D11: u8 = 43;
/// `d12`.
pub const D12: u8 = 44;
/// `d13`.
pub const D13: u8 = 45;
/// `d14`.
pub const D14: u8 = 46;
/// `d15`.
pub const D15: u8 = 47;
/// `d16`.
pub const D16: u8 = 48;
/// `d17`.
pub const D17: u8 = 49;
/// `d18`.
pub const D18: u8 = 50;
/// `d19`.
pub const D19: u8 = 51;
/// `d20`.
pub const D20: u8 = 52;
/// `d21`.
pub const D21: u8 = 53;
/// `d22`.
pub const D22: u8 = 54;
/// `d23`.
pub const D23: u8 = 55;
/// `d24`.
pub const D24: u8 = 56;
/// `d25`.
pub const D25: u8 = 57;
/// `d26`.
pub const D26: u8 = 58;
/// `d27`.
pub const D27: u8 = 59;
/// `d28`.
pub const D28: u8 = 60;
/// `d29`.
pub const D29: u8 = 61;
/// `d30`.
pub const D30: u8 = 62;
/// `d31`.
pub const D31: u8 = 63;

/// Registers available for allocation: X0–X15 and X19–X28.
pub const ALLOCATABLE: [u8; 26] = [
    X0, X1, X2, X3, X4, X5, X6, X7, X8, X9, X10, X11, X12, X13, X14, X15, X19, X20, X21, X22, X23,
    X24, X25, X26, X27, X28,
];

/// Registers preserved across calls (AAPCS64).
pub const CALLEE_SAVED: [u8; 12] = [X19, X20, X21, X22, X23, X24, X25, X26, X27, X28, X29, X30];

/// Integer argument registers (X0–X7).
pub const ARG_REGS: [u8; 8] = [X0, X1, X2, X3, X4, X5, X6, X7];

/// Integer return register.
pub const RET_REG: u8 = X0;

/// Caller-saved FP registers available for allocation (D0–D7, D16–D23).
pub const FP_ALLOCATABLE: [u8; 16] = [D0, D1, D2, D3, D4, D5, D6, D7, D16, D17, D18, D19, D20, D21, D22, D23];

/// Callee-saved FP registers (D8–D15).
pub const FP_CALLEE_SAVED: [u8; 8] = [D8, D9, D10, D11, D12, D13, D14, D15];

/// FP argument registers (D0–D7).
pub const FP_ARG_REGS: [u8; 8] = [D0, D1, D2, D3, D4, D5, D6, D7];

/// FP return register.
pub const FP_RET_REG: u8 = D0;

/// The 5-bit register field of `r` (its low five bits).
pub fn reg_enc(r: PReg) -> (n: u8)
    ensures
        n == r.0 % 32,
{
    let x = r.0;
    assert(x & 0x1F == x % 32) by (bit_vector);
    x & 0x1F
}

/// Is `r` one of the upper integer registers X16–XZR?
pub fn is_extended(r: PReg) -> (b: bool)
    ensures
        b == (16 <= r.0 < 32),
{
    r.0 >= 16 && r.0 < 32
}

/// Is `r` a floating-point / SIMD D-register?
pub fn is_fp_reg(r: PReg) -> (b: bool)
    ensures
        b == (r.0 >= 32),
{
    r.0 >= 32
}

/// The 5-bit hardware number of a D-register.
pub fn fp_enc(r: PReg) -> (n: u8)
    requires
        r.0 >= 32,
    ensures
        n == r.0 - 32,
{
    r.0 - 32
}

/// Name of integer register number `n`, or `??` for any other number.
pub open spec fn reg_name_of(n: u8) -> &'static str {
    match n {
        0 => "x0",
        1 => "x1",
        2 => "x2",
        3 => "x3",
        4 => "x4",
        5 => "x5",
        6 => "x6",
        7 => "x7",
        8 => "x8",
        9 => "x9",
        10 => "x10",
        11 => "x11",
        12 => "x12",
        13 => "x13",
        14 => "x14",
        15 => "x15",
        16 => "x16",
        17 => "x17",
        18 => "x18",
        19 => "x19",
        20 => "x20",
        21 => "x21",
        22 => "x22",
        23 => "x23",
        24 => "x24",
        25 => "x25",
        26 => "x26",
        27 => "x27",
        28 => "x28",
        29 => "x29",
        30 => "x30",
        31 => "xzr",
        _ => "??",
    }
}

/// Assembler name of an integer register.
pub fn reg_name(r: PReg) -> (name: &'static str)
    ensures
        name == reg_name_of(r.0),
{
    match r.0 {
        0 => "x0",
        1 => "x1",
        2 => "x2",
        3 => "x3",
        4 => "x4",
        5 => "x5",
        6 => "x6",
        7 => "x7",
        8 => "x8",
        9 => "x9",
        10 => "x10",
        11 => "x11",
        12 => "x12",
        13 => "x13",
        14 => "x14",
        15 => "x15",
        16 => "x16",
        17 => "x17",
        18 => "x18",
        19 => "x19",
        20 => "x20",
        21 => "x21",
        22 => "x22",
        23 => "x23",
        24 => "x24",
        25 => "x25",
        26 => "x26",
        27 => "x27",
        28 => "x28",
        29 => "x29",
        30 => "x30",
        31 => "xzr",
        _ => "??",
    }
}

/// For every register (integer 0–31, FP 32–63) the 5-bit field `reg_enc` computes
/// is its hardware number: the number itself for integer registers, `fp_enc` for
/// FP registers.
pub proof fn lemma_register_fields(n: u8)
    requires
        n < 64,
    ensures
        n < 32 ==> n % 32 == n,
        n >= 32 ==> n % 32 == n - 32,
{
}

} // verus!
