//! AArch64 machine opcode numbers.

use vstd::prelude::*;

verus! {

/// `mov xd, xn`.
pub const MOV_RR: u32 = 0x00;
/// `mov xd, #imm`.
pub const MOV_IMM: u32 = 0x01;
/// `movz`/`movk` wide-immediate sequence.
pub const MOV_WIDE: u32 = 0x02;
/// move into a fixed physical register.
pub const MOV_PR: u32 = 0x03;
/// `add`.
pub const ADD_RR: u32 = 0x10;
/// `sub`.
pub const SUB_RR: u32 = 0x11;
/// `mul`.
pub const MUL_RR: u32 = 0x12;
/// `sdiv`.
pub const SDIV_RR: u32 = 0x13;
/// `udiv`.
pub const UDIV_RR: u32 = 0x14;
/// `neg`.
pub const NEG_R: u32 = 0x15;
/// `and`.
pub const AND_RR: u32 = 0x20;
/// `orr`.
pub const ORR_RR: u32 = 0x21;
/// `eor`.
pub const EOR_RR: u32 = 0x22;
/// `lsl`.
pub const LSL_RR: u32 = 0x23;
/// `lsr`.
pub const LSR_RR: u32 = 0x24;
/// `asr`.
pub const ASR_RR: u32 = 0x25;
/// `cmp`.
pub const CMP_RR: u32 = 0x30;
/// `cset`.
pub const CSET: u32 = 0x31;
/// `b`.
pub const B: u32 = 0x40;
/// `b.cond`.
pub const B_COND: u32 = 0x41;
/// `bl`.
pub const BL: u32 = 0x42;
/// `blr`.
pub const BLR: u32 = 0x43;
/// `ret`.
pub const RET: u32 = 0x44;
/// `ldr xt, [fp, #off]` (spill reload).
pub const LDR: u32 = 0x50;
/// `str xt, [fp, #off]` (spill store).
pub const STR: u32 = 0x51;
/// `ldr xt, [xn]`.
pub const LDR_REG: u32 = 0x52;
/// `str xt, [xn]`.
pub const STR_REG: u32 = 0x53;
/// frame-slot load.
pub const LDR_FP: u32 = 0x54;
/// frame-slot store.
pub const STR_FP: u32 = 0x55;
/// `sxtw`.
pub const SXTW: u32 = 0x60;
/// `sxtb`.
pub const SXTB: u32 = 0x61;
/// `sxth`.
pub const SXTH: u32 = 0x62;
/// `nop`.
pub const NOP: u32 = 0x70;
/// inline assembly bytes.
pub const INLINE_ASM: u32 = 0x71;
/// `sub xd, fp, #imm` (frame address).
pub const SUB_FP_IMM: u32 = 0x72;
/// `dmb ish`.
pub const DMB_ISH: u32 = 0x80;
/// `casal`.
pub const CASAL: u32 = 0x81;
/// `ldaddal`.
pub const LDADDAL: u32 = 0x82;
/// `ldclral`.
pub const LDCLRAL: u32 = 0x83;
/// `ldsetal`.
pub const LDSETAL: u32 = 0x84;
/// `ldeoral`.
pub const LDEORAL: u32 = 0x85;
/// `swpal`.
pub const SWPAL: u32 = 0x86;
/// `ldxr`.
pub const LDXR: u32 = 0x87;
/// `stxr`.
pub const STXR: u32 = 0x88;
/// `fadd`.
pub const FADD_RR: u32 = 0xB0;
/// `fsub`.
pub const FSUB_RR: u32 = 0xB1;
/// `fmul`.
pub const FMUL_RR: u32 = 0xB2;
/// `fdiv`.
pub const FDIV_RR: u32 = 0xB3;
/// `fneg`.
pub const FNEG_R: u32 = 0xB4;
/// `fmov`.
pub const FMOV_RR: u32 = 0xB5;
/// `fsqrt`.
pub const FSQRT_R: u32 = 0xB6;
/// `fcmp`.
pub const FCMP_RR: u32 = 0xB7;
/// `fcvtzs`.
pub const FCVTZS_RR: u32 = 0xB8;
/// `scvtf`.
pub const SCVTF_RR: u32 = 0xB9;
/// `ucvtf`.
pub const UCVTF_RR: u32 = 0xBA;
/// `ldr dt, [xn, #off]`.
pub const LDR_FP_SCALAR: u32 = 0xBB;
/// `str dt, [xn, #off]`.
pub const STR_FP_SCALAR: u32 = 0xBC;
/// FP spill reload.
pub const MOVSD_LOAD_MR: u32 = 0xBD;
/// FP spill store.
pub const MOVSD_STORE_RM: u32 = 0xBE;

} // verus!
