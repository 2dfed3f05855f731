//! RISC-V machine opcode constants used by lowering and encoder.

use vstd::prelude::*;

verus! {

/// `nop`
pub const NOP: u32 = 0x00;
/// `mov.rr`
pub const MOV_RR: u32 = 0x01;
/// `mov.imm`
pub const MOV_IMM: u32 = 0x02;
/// `mov.pr`
pub const MOV_PR: u32 = 0x03;

/// `add.rr`
pub const ADD_RR: u32 = 0x10;
/// `sub.rr`
pub const SUB_RR: u32 = 0x11;
/// `mul.rr`
pub const MUL_RR: u32 = 0x12;
/// `div.rr`
pub const DIV_RR: u32 = 0x13;
/// `udiv.rr`
pub const UDIV_RR: u32 = 0x14;
/// `rem.rr`
pub const REM_RR: u32 = 0x15;
/// `urem.rr`
pub const UREM_RR: u32 = 0x16;

/// `and.rr`
pub const AND_RR: u32 = 0x20;
/// `or.rr`
pub const OR_RR: u32 = 0x21;
/// `xor.rr`
pub const XOR_RR: u32 = 0x22;
/// `sll.rr`
pub const SLL_RR: u32 = 0x23;
/// `srl.rr`
pub const SRL_RR: u32 = 0x24;
/// `sra.rr`
pub const SRA_RR: u32 = 0x25;
/// `slt.rr`
pub const SLT_RR: u32 = 0x26;
/// `sltu.rr`
pub const SLTU_RR: u32 = 0x27;

/// `addi`
pub const ADDI: u32 = 0x30;
/// `xori`
pub const XORI: u32 = 0x31;
/// `sltiu`
pub const SLTIU: u32 = 0x32;

/// `lw`
pub const LW: u32 = 0x40;
/// `ld`
pub const LD: u32 = 0x41;
/// `sw`
pub const SW: u32 = 0x42;
/// `sd`
pub const SD: u32 = 0x43;

/// `beq`
pub const BEQ: u32 = 0x50;
/// `bne`
pub const BNE: u32 = 0x51;
/// `blt`
pub const BLT: u32 = 0x52;
/// `bge`
pub const BGE: u32 = 0x53;
/// `bltu`
pub const BLTU: u32 = 0x54;
/// `bgeu`
pub const BGEU: u32 = 0x55;

/// `jal`
pub const JAL: u32 = 0x60;
/// `jalr`
pub const JALR: u32 = 0x61;
/// `ret`
pub const RET: u32 = 0x62;

/// `lui`
pub const LUI: u32 = 0x70;
/// `auipc`
pub const AUIPC: u32 = 0x71;

// ── A-extension atomics ────────────────────────────────────────────────────

/// `fence iorw,iorw` (sequential consistency fence).
pub const FENCE: u32 = 0x80;
/// `lr.w rd, (rs1)` — load-reserved word.
pub const LR_W: u32 = 0x81;
/// `sc.w rd, rs2, (rs1)` — store-conditional word.
pub const SC_W: u32 = 0x82;
/// `amoadd.w rd, rs2, (rs1)`.
pub const AMOADD_W: u32 = 0x83;
/// `amoswap.w rd, rs2, (rs1)`.
pub const AMOSWAP_W: u32 = 0x84;
/// `amoxor.w rd, rs2, (rs1)`.
pub const AMOXOR_W: u32 = 0x85;
/// `amoand.w rd, rs2, (rs1)`.
pub const AMOAND_W: u32 = 0x86;
/// `amoor.w rd, rs2, (rs1)`.
pub const AMOOR_W: u32 = 0x87;
/// `amomin.w rd, rs2, (rs1)`.
pub const AMOMIN_W: u32 = 0x88;
/// `amomax.w rd, rs2, (rs1)`.
pub const AMOMAX_W: u32 = 0x89;
/// `amominu.w rd, rs2, (rs1)`.
pub const AMOMINU_W: u32 = 0x8A;
/// `amomaxu.w rd, rs2, (rs1)`.
pub const AMOMAXU_W: u32 = 0x8B;

// 64-bit (D) variants for RV64.
/// `lr.d rd, (rs1)` — load-reserved doubleword.
pub const LR_D: u32 = 0x8C;
/// `sc.d rd, rs2, (rs1)` — store-conditional doubleword.
pub const SC_D: u32 = 0x8D;
/// `amoadd.d rd, rs2, (rs1)`.
pub const AMOADD_D: u32 = 0x8E;
/// `amoswap.d rd, rs2, (rs1)`.
pub const AMOSWAP_D: u32 = 0x8F;
/// `amoxor.d rd, rs2, (rs1)`.
pub const AMOXOR_D: u32 = 0x90;
/// `amoand.d rd, rs2, (rs1)`.
pub const AMOAND_D: u32 = 0x91;
/// `amoor.d rd, rs2, (rs1)`.
pub const AMOOR_D: u32 = 0x92;

// ── non-promotable alloca frame-slot access ────────────────────────────────
/// `addi rd, s0, -(slot_idx+1)*8`  — materialize a non-promotable alloca address.
/// s0 (x8) is the RISC-V frame pointer. `dst` = VReg, `operands[0]` = `Imm(slot_idx)`.
pub const ADDI_FP_SLOT: u32 = 0xA0;
/// `ld rd, 0(rs1)` — 64-bit load through a register-held pointer (offset 0).
/// `dst` = VReg, `operands[0]` = PReg (pointer register after regalloc).
pub const LD_REG: u32 = 0xA1;
/// `sd rs2, 0(rs1)` — 64-bit store through a register-held pointer (offset 0).
/// No `dst`. `operands[0]` = PReg (pointer), `operands[1]` = PReg (value).
pub const SD_REG: u32 = 0xA2;

// ── F+D extension (scalar FP) ─────────────────────────────────────────────

/// `fadd.d rd, rs1, rs2` — double-precision add (funct7=0x01, funct3=RNE=0x7).
pub const FADD_D: u32 = 0xB0;
/// `fsub.d rd, rs1, rs2` — double-precision subtract (funct7=0x05).
pub const FSUB_D: u32 = 0xB1;
/// `fmul.d rd, rs1, rs2` — double-precision multiply (funct7=0x09).
pub const FMUL_D: u32 = 0xB2;
/// `fdiv.d rd, rs1, rs2` — double-precision divide (funct7=0x0D).
pub const FDIV_D: u32 = 0xB3;
/// `fsqrt.d rd, rs1` — double-precision square root (funct7=0x2D, rs2=0).
pub const FSQRT_D: u32 = 0xB4;
/// `fsgnjn.d rd, rs1, rs2` — negate sign (used for FNeg; funct7=0x21, funct3=0x1, rs2=rs1).
pub const FNEG_D: u32 = 0xB5;
/// `feq.d rd, rs1, rs2` — double FP equal comparison → integer result (funct7=0x51, funct3=0x2).
pub const FCMP_EQ_D: u32 = 0xB6;
/// `flt.d rd, rs1, rs2` — double FP less-than comparison → integer result (funct7=0x51, funct3=0x1).
pub const FCMP_LT_D: u32 = 0xB7;
/// `fle.d rd, rs1, rs2` — double FP less-equal comparison → integer result (funct7=0x51, funct3=0x0).
pub const FCMP_LE_D: u32 = 0xB8;
/// `fcvt.w.d rd, rs1` — double→i32 conversion (funct7=0x61, rs2=0, rounding=RTZ=0x1).
pub const FCVT_W_D: u32 = 0xB9;
/// `fcvt.l.d rd, rs1` — double→i64 conversion (funct7=0x61, rs2=2, rounding=RTZ=0x1).
pub const FCVT_L_D: u32 = 0xBA;
/// `fcvt.d.w rd, rs1` — i32→double conversion (funct7=0x69, rs2=0).
pub const FCVT_D_W: u32 = 0xBB;
/// `fcvt.d.l rd, rs1` — i64→double conversion (funct7=0x69, rs2=2).
pub const FCVT_D_L: u32 = 0xBC;
/// `fld rd, imm(rs1)` — load double from memory (opcode=0x07, funct3=0x3).
pub const FLD: u32 = 0xBD;
/// `fsd rs2, imm(rs1)` — store double to memory (opcode=0x27, funct3=0x3).
pub const FSD: u32 = 0xBE;
/// `fsgnj.d rd, rs1, rs1` — FP register copy via sign-inject (funct7=0x11, funct3=0x0, rs2=rs1).
pub const FMV_D_D: u32 = 0xBF;

// ── F+D spill opcodes (re-use FLD/FSD with frame-slot semantics) ───────────

/// FP spill load from stack slot (same encoding as FLD; semantics: dst = mem[fp + slot*8]).
pub const FP_LOAD_MR: u32 = 0xC0;
/// FP spill store to stack slot (same encoding as FSD; semantics: mem[fp + slot*8] = src).
pub const FP_STORE_RM: u32 = 0xC1;

// ── Single-precision (F extension) ────────────────────────────────────────

/// `fadd.s rd, rs1, rs2` — single-precision add (funct7=0x00).
pub const FADD_S: u32 = 0xD0;
/// `fsub.s rd, rs1, rs2` — single-precision subtract (funct7=0x04).
pub const FSUB_S: u32 = 0xD1;
/// `fmul.s rd, rs1, rs2` — single-precision multiply (funct7=0x08).
pub const FMUL_S: u32 = 0xD2;
/// `fdiv.s rd, rs1, rs2` — single-precision divide (funct7=0x0C).
pub const FDIV_S: u32 = 0xD3;
/// `fsgnjn.s rd, rs1, rs2` — negate sign single (funct7=0x20, funct3=0x1, rs2=rs1).
pub const FNEG_S: u32 = 0xD4;
/// `feq.s rd, rs1, rs2` — single FP equal (funct7=0x50, funct3=0x2).
pub const FCMP_EQ_S: u32 = 0xD5;
/// `flt.s rd, rs1, rs2` — single FP less-than (funct7=0x50, funct3=0x1).
pub const FCMP_LT_S: u32 = 0xD6;
/// `fle.s rd, rs1, rs2` — single FP less-equal (funct7=0x50, funct3=0x0).
pub const FCMP_LE_S: u32 = 0xD7;
/// `fcvt.w.s rd, rs1` — single→i32 (funct7=0x60, rs2=0, rounding=RTZ).
pub const FCVT_W_S: u32 = 0xD8;
/// `fcvt.l.s rd, rs1` — single→i64 (funct7=0x60, rs2=2, rounding=RTZ).
pub const FCVT_L_S: u32 = 0xD9;
/// `fcvt.s.w rd, rs1` — i32→single (funct7=0x68, rs2=0).
pub const FCVT_S_W: u32 = 0xDA;
/// `fcvt.s.l rd, rs1` — i64→single (funct7=0x68, rs2=2).
pub const FCVT_S_L: u32 = 0xDB;
/// `flw rd, imm(rs1)` — load single from memory (opcode=0x07, funct3=0x2).
pub const FLW: u32 = 0xDC;
/// `fsw rs2, imm(rs1)` — store single to memory (opcode=0x27, funct3=0x2).
pub const FSW: u32 = 0xDD;

} // verus!
