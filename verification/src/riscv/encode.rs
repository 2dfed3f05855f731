//! RV64 instruction encoder and `.text` emission.

use vstd::prelude::*;
use crate::lsda::{le32, push_u32_le};
use crate::machine::{BlockView, InstrView, MInstr, MOperand, MachineFunction, OperandView, PReg, VReg};
use crate::object::{DebugLineRow, ObjectFormat, Section};
use crate::riscv::instructions::{
    ADDI, ADDI_FP_SLOT, ADD_RR, AMOADD_D, AMOADD_W, AMOAND_D, AMOAND_W, AMOMAXU_W, AMOMAX_W, AMOMINU_W, AMOMIN_W, AMOOR_D, AMOOR_W, AMOSWAP_D, AMOSWAP_W, AMOXOR_D, AMOXOR_W, AND_RR, AUIPC, BEQ, BGE, BGEU, BLT, BLTU, BNE, DIV_RR, FADD_D, FADD_S, FCMP_EQ_D, FCMP_EQ_S, FCMP_LE_D, FCMP_LE_S, FCMP_LT_D, FCMP_LT_S, FCVT_D_L, FCVT_D_W, FCVT_L_D, FCVT_L_S, FCVT_S_L, FCVT_S_W, FCVT_W_D, FCVT_W_S, FDIV_D, FDIV_S, FENCE, FLD, FLW, FMUL_D, FMUL_S, FMV_D_D, FNEG_D, FNEG_S, FP_LOAD_MR, FP_STORE_RM, FSD, FSQRT_D, FSUB_D, FSUB_S, FSW, JAL, JALR, LD, LD_REG, LR_D, LR_W, LUI, LW, MOV_IMM, MOV_PR, MOV_RR, MUL_RR, NOP, OR_RR, REM_RR, RET, SC_D, SC_W, SD, SD_REG, SLL_RR, SLTIU, SLTU_RR, SLT_RR, SRA_RR, SRL_RR, SUB_RR, SW, UDIV_RR, UREM_RR, XORI, XOR_RR,
};


verus! {

// ── instruction formats ────────────────────────────────────────────────────

/// R-type: `funct7 | rs2 | rs1 | funct3 | rd | opcode`.
pub open spec fn r_word(f7: u32, rs2: u8, rs1: u8, f3: u32, rd: u8, opc: u32) -> u32 {
    (f7 << 25) | ((rs2 as u32) << 20) | ((rs1 as u32) << 15) | (f3 << 12) | ((rd as u32) << 7) | opc
}

/// I-type: `imm[11:0] | rs1 | funct3 | rd | opcode`.
pub open spec fn i_word(imm: i32, rs1: u8, f3: u32, rd: u8, opc: u32) -> u32 {
    (((imm as u32) & 0xFFF) << 20) | ((rs1 as u32) << 15) | (f3 << 12) | ((rd as u32) << 7) | opc
}

/// S-type: `imm[11:5] | rs2 | rs1 | funct3 | imm[4:0] | opcode`.
pub open spec fn s_word(imm: i32, rs2: u8, rs1: u8, f3: u32, opc: u32) -> u32 {
    let i = (imm as u32) & 0xFFF;
    (((i >> 5) & 0x7F) << 25) | ((rs2 as u32) << 20) | ((rs1 as u32) << 15) | (f3 << 12) | ((i & 0x1F) << 7)
        | opc
}

/// B-type: `imm[12] | imm[10:5] | rs2 | rs1 | funct3 | imm[4:1] | imm[11] | opcode`.
pub open spec fn b_word(imm: i32, rs2: u8, rs1: u8, f3: u32, opc: u32) -> u32 {
    let i = (imm as u32) & 0x1FFF;
    (((i >> 12) & 0x1) << 31) | (((i >> 5) & 0x3F) << 25) | ((rs2 as u32) << 20) | ((rs1 as u32) << 15) | (f3
        << 12) | (((i >> 1) & 0xF) << 8) | (((i >> 11) & 0x1) << 7) | opc
}

/// U-type: `imm[31:12] | rd | opcode`.
pub open spec fn u_word(imm: i32, rd: u8, opc: u32) -> u32 {
    ((imm as u32) & 0xFFFFF000) | ((rd as u32) << 7) | opc
}

/// J-type: `imm[20] | imm[10:1] | imm[11] | imm[19:12] | rd | opcode`.
pub open spec fn j_word(imm: i32, rd: u8, opc: u32) -> u32 {
    let i = (imm as u32) & 0x1FFFFF;
    (((i >> 20) & 0x1) << 31) | (((i >> 1) & 0x3FF) << 21) | (((i >> 11) & 0x1) << 20) | (((i >> 12) & 0xFF)
        << 12) | ((rd as u32) << 7) | opc
}

/// A-extension AMO: `funct5 | aq | rl | rs2 | rs1 | funct3 | rd | 0x2F`.
pub open spec fn amo_word(funct5: u32, aq: bool, rl: bool, rs2: u32, rs1: u32, funct3: u32, rd: u32) -> u32 {
    ((funct5 & 0x1F) << 27) | ((if aq { 1u32 } else { 0u32 }) << 26) | ((if rl { 1u32 } else { 0u32 }) << 25) | ((
    rs2 & 0x1F) << 20) | ((rs1 & 0x1F) << 15) | ((funct3 & 0x7) << 12) | ((rd & 0x1F) << 7) | 0x2F
}

/// Encode an R-type instruction.
pub fn enc_r(f7: u32, rs2: u8, rs1: u8, f3: u32, rd: u8, opc: u32) -> (w: u32)
    ensures
        w == r_word(f7, rs2, rs1, f3, rd, opc),
{
    (f7 << 25) | ((rs2 as u32) << 20) | ((rs1 as u32) << 15) | (f3 << 12) | ((rd as u32) << 7) | opc
}

/// Encode an I-type instruction (the immediate is truncated to 12 bits).
pub fn enc_i(imm: i32, rs1: u8, f3: u32, rd: u8, opc: u32) -> (w: u32)
    ensures
        w == i_word(imm, rs1, f3, rd, opc),
{
    let i = (imm as u32) & 0xFFF;
    (i << 20) | ((rs1 as u32) << 15) | (f3 << 12) | ((rd as u32) << 7) | opc
}

/// Encode an S-type instruction (the immediate is truncated to 12 bits).
pub fn enc_s(imm: i32, rs2: u8, rs1: u8, f3: u32, opc: u32) -> (w: u32)
    ensures
        w == s_word(imm, rs2, rs1, f3, opc),
{
    let i = (imm as u32) & 0xFFF;
    let hi = (i >> 5) & 0x7F;
    let lo = i & 0x1F;
    (hi << 25) | ((rs2 as u32) << 20) | ((rs1 as u32) << 15) | (f3 << 12) | (lo << 7) | opc
}

/// Encode a B-type instruction (the byte offset is truncated to 13 bits).
pub fn enc_b(imm: i32, rs2: u8, rs1: u8, f3: u32, opc: u32) -> (w: u32)
    ensures
        w == b_word(imm, rs2, rs1, f3, opc),
{
    let i = (imm as u32) & 0x1FFF;
    let b12 = (i >> 12) & 0x1;
    let b10_5 = (i >> 5) & 0x3F;
    let b4_1 = (i >> 1) & 0xF;
    let b11 = (i >> 11) & 0x1;
    (b12 << 31) | (b10_5 << 25) | ((rs2 as u32) << 20) | ((rs1 as u32) << 15) | (f3 << 12) | (b4_1 << 8) | (b11
        << 7) | opc
}

/// Encode a U-type instruction (the low 12 bits of the immediate are dropped).
pub fn enc_u(imm: i32, rd: u8, opc: u32) -> (w: u32)
    ensures
        w == u_word(imm, rd, opc),
{
    ((imm as u32) & 0xFFFFF000) | ((rd as u32) << 7) | opc
}

/// Encode a J-type instruction (the byte offset is truncated to 21 bits).
pub fn enc_j(imm: i32, rd: u8, opc: u32) -> (w: u32)
    ensures
        w == j_word(imm, rd, opc),
{
    let i = (imm as u32) & 0x1FFFFF;
    let b20 = (i >> 20) & 0x1;
    let b10_1 = (i >> 1) & 0x3FF;
    let b11 = (i >> 11) & 0x1;
    let b19_12 = (i >> 12) & 0xFF;
    (b20 << 31) | (b10_1 << 21) | (b11 << 20) | (b19_12 << 12) | ((rd as u32) << 7) | opc
}

/// Encode an A-extension atomic instruction.
pub fn enc_amo(funct5: u32, aq: bool, rl: bool, rs2: u32, rs1: u32, funct3: u32, rd: u32) -> (w: u32)
    ensures
        w == amo_word(funct5, aq, rl, rs2, rs1, funct3, rd),
{
    ((funct5 & 0x1F) << 27) | ((aq as u32) << 26) | ((rl as u32) << 25) | ((rs2 & 0x1F) << 20) | ((rs1 & 0x1F)
        << 15) | ((funct3 & 0x7) << 12) | ((rd & 0x1F) << 7) | 0x2F
}

// ── opcode tables ──────────────────────────────────────────────────────────

/// Register-register ALU operations: `(funct7, funct3)` under major opcode 0x33.
pub open spec fn alu_rr_table(op: u32) -> Option<(u32, u32)> {
    if op == ADD_RR {
        Some((0x00, 0x0))
    } else if op == SUB_RR {
        Some((0x20, 0x0))
    } else if op == MUL_RR {
        Some((0x01, 0x0))
    } else if op == DIV_RR {
        Some((0x01, 0x4))
    } else if op == UDIV_RR {
        Some((0x01, 0x5))
    } else if op == REM_RR {
        Some((0x01, 0x6))
    } else if op == UREM_RR {
        Some((0x01, 0x7))
    } else if op == AND_RR {
        Some((0x00, 0x7))
    } else if op == OR_RR {
        Some((0x00, 0x6))
    } else if op == XOR_RR {
        Some((0x00, 0x4))
    } else if op == SLL_RR {
        Some((0x00, 0x1))
    } else if op == SRL_RR {
        Some((0x00, 0x5))
    } else if op == SRA_RR {
        Some((0x20, 0x5))
    } else if op == SLT_RR {
        Some((0x00, 0x2))
    } else if op == SLTU_RR {
        Some((0x00, 0x3))
    } else {
        None
    }
}

fn alu_rr_lookup(op: u32) -> (r: Option<(u32, u32)>)
    ensures
        r == alu_rr_table(op),
{
    if op == ADD_RR {
        Some((0x00, 0x0))
    } else if op == SUB_RR {
        Some((0x20, 0x0))
    } else if op == MUL_RR {
        Some((0x01, 0x0))
    } else if op == DIV_RR {
        Some((0x01, 0x4))
    } else if op == UDIV_RR {
        Some((0x01, 0x5))
    } else if op == REM_RR {
        Some((0x01, 0x6))
    } else if op == UREM_RR {
        Some((0x01, 0x7))
    } else if op == AND_RR {
        Some((0x00, 0x7))
    } else if op == OR_RR {
        Some((0x00, 0x6))
    } else if op == XOR_RR {
        Some((0x00, 0x4))
    } else if op == SLL_RR {
        Some((0x00, 0x1))
    } else if op == SRL_RR {
        Some((0x00, 0x5))
    } else if op == SRA_RR {
        Some((0x20, 0x5))
    } else if op == SLT_RR {
        Some((0x00, 0x2))
    } else if op == SLTU_RR {
        Some((0x00, 0x3))
    } else {
        None
    }
}

/// Register-immediate ALU operations: `funct3` under major opcode 0x13.
pub open spec fn alu_imm_table(op: u32) -> Option<u32> {
    if op == ADDI {
        Some(0x0)
    } else if op == XORI {
        Some(0x4)
    } else if op == SLTIU {
        Some(0x3)
    } else {
        None
    }
}

fn alu_imm_lookup(op: u32) -> (r: Option<u32>)
    ensures
        r == alu_imm_table(op),
{
    if op == ADDI {
        Some(0x0)
    } else if op == XORI {
        Some(0x4)
    } else if op == SLTIU {
        Some(0x3)
    } else {
        None
    }
}

/// Integer loads: `funct3` under major opcode 0x03.
pub open spec fn int_load_table(op: u32) -> Option<u32> {
    if op == LW {
        Some(0x2)
    } else if op == LD {
        Some(0x3)
    } else {
        None
    }
}

fn int_load_lookup(op: u32) -> (r: Option<u32>)
    ensures
        r == int_load_table(op),
{
    if op == LW {
        Some(0x2)
    } else if op == LD {
        Some(0x3)
    } else {
        None
    }
}

/// Integer stores: `funct3` under major opcode 0x23.
pub open spec fn int_store_table(op: u32) -> Option<u32> {
    if op == SW {
        Some(0x2)
    } else if op == SD {
        Some(0x3)
    } else {
        None
    }
}

fn int_store_lookup(op: u32) -> (r: Option<u32>)
    ensures
        r == int_store_table(op),
{
    if op == SW {
        Some(0x2)
    } else if op == SD {
        Some(0x3)
    } else {
        None
    }
}

/// Conditional branches: `funct3` under major opcode 0x63.
pub open spec fn branch_table(op: u32) -> Option<u32> {
    if op == BEQ {
        Some(0x0)
    } else if op == BNE {
        Some(0x1)
    } else if op == BLT {
        Some(0x4)
    } else if op == BGE {
        Some(0x5)
    } else if op == BLTU {
        Some(0x6)
    } else if op == BGEU {
        Some(0x7)
    } else {
        None
    }
}

fn branch_lookup(op: u32) -> (r: Option<u32>)
    ensures
        r == branch_table(op),
{
    if op == BEQ {
        Some(0x0)
    } else if op == BNE {
        Some(0x1)
    } else if op == BLT {
        Some(0x4)
    } else if op == BGE {
        Some(0x5)
    } else if op == BLTU {
        Some(0x6)
    } else if op == BGEU {
        Some(0x7)
    } else {
        None
    }
}

/// Atomic memory operations (all `.aqrl`): `(funct5, funct3, reads rs2)`.
pub open spec fn amo_table(op: u32) -> Option<(u32, u32, bool)> {
    if op == LR_W {
        Some((0b00010, 0b010, false))
    } else if op == LR_D {
        Some((0b00010, 0b011, false))
    } else if op == SC_W {
        Some((0b00011, 0b010, true))
    } else if op == SC_D {
        Some((0b00011, 0b011, true))
    } else if op == AMOADD_W {
        Some((0b00000, 0b010, true))
    } else if op == AMOSWAP_W {
        Some((0b00001, 0b010, true))
    } else if op == AMOXOR_W {
        Some((0b00100, 0b010, true))
    } else if op == AMOAND_W {
        Some((0b01100, 0b010, true))
    } else if op == AMOOR_W {
        Some((0b01000, 0b010, true))
    } else if op == AMOMIN_W {
        Some((0b10000, 0b010, true))
    } else if op == AMOMAX_W {
        Some((0b10100, 0b010, true))
    } else if op == AMOMINU_W {
        Some((0b11000, 0b010, true))
    } else if op == AMOMAXU_W {
        Some((0b11100, 0b010, true))
    } else if op == AMOADD_D {
        Some((0b00000, 0b011, true))
    } else if op == AMOSWAP_D {
        Some((0b00001, 0b011, true))
    } else if op == AMOXOR_D {
        Some((0b00100, 0b011, true))
    } else if op == AMOAND_D {
        Some((0b01100, 0b011, true))
    } else if op == AMOOR_D {
        Some((0b01000, 0b011, true))
    } else {
        None
    }
}

fn amo_lookup(op: u32) -> (r: Option<(u32, u32, bool)>)
    ensures
        r == amo_table(op),
{
    if op == LR_W {
        Some((0b00010, 0b010, false))
    } else if op == LR_D {
        Some((0b00010, 0b011, false))
    } else if op == SC_W {
        Some((0b00011, 0b010, true))
    } else if op == SC_D {
        Some((0b00011, 0b011, true))
    } else if op == AMOADD_W {
        Some((0b00000, 0b010, true))
    } else if op == AMOSWAP_W {
        Some((0b00001, 0b010, true))
    } else if op == AMOXOR_W {
        Some((0b00100, 0b010, true))
    } else if op == AMOAND_W {
        Some((0b01100, 0b010, true))
    } else if op == AMOOR_W {
        Some((0b01000, 0b010, true))
    } else if op == AMOMIN_W {
        Some((0b10000, 0b010, true))
    } else if op == AMOMAX_W {
        Some((0b10100, 0b010, true))
    } else if op == AMOMINU_W {
        Some((0b11000, 0b010, true))
    } else if op == AMOMAXU_W {
        Some((0b11100, 0b010, true))
    } else if op == AMOADD_D {
        Some((0b00000, 0b011, true))
    } else if op == AMOSWAP_D {
        Some((0b00001, 0b011, true))
    } else if op == AMOXOR_D {
        Some((0b00100, 0b011, true))
    } else if op == AMOAND_D {
        Some((0b01100, 0b011, true))
    } else if op == AMOOR_D {
        Some((0b01000, 0b011, true))
    } else {
        None
    }
}

/// FP arithmetic with FP operands and result: `funct7` (rounding mode RNE, funct3 7).
pub open spec fn fp_binary_table(op: u32) -> Option<u32> {
    if op == FADD_D {
        Some(0x01)
    } else if op == FSUB_D {
        Some(0x05)
    } else if op == FMUL_D {
        Some(0x09)
    } else if op == FDIV_D {
        Some(0x0D)
    } else if op == FADD_S {
        Some(0x00)
    } else if op == FSUB_S {
        Some(0x04)
    } else if op == FMUL_S {
        Some(0x08)
    } else if op == FDIV_S {
        Some(0x0C)
    } else {
        None
    }
}

fn fp_binary_lookup(op: u32) -> (r: Option<u32>)
    ensures
        r == fp_binary_table(op),
{
    if op == FADD_D {
        Some(0x01)
    } else if op == FSUB_D {
        Some(0x05)
    } else if op == FMUL_D {
        Some(0x09)
    } else if op == FDIV_D {
        Some(0x0D)
    } else if op == FADD_S {
        Some(0x00)
    } else if op == FSUB_S {
        Some(0x04)
    } else if op == FMUL_S {
        Some(0x08)
    } else if op == FDIV_S {
        Some(0x0C)
    } else {
        None
    }
}

/// FP comparisons writing an integer register: `(funct7, funct3)`.
pub open spec fn fp_compare_table(op: u32) -> Option<(u32, u32)> {
    if op == FCMP_EQ_D {
        Some((0x51, 0x2))
    } else if op == FCMP_LT_D {
        Some((0x51, 0x1))
    } else if op == FCMP_LE_D {
        Some((0x51, 0x0))
    } else if op == FCMP_EQ_S {
        Some((0x50, 0x2))
    } else if op == FCMP_LT_S {
        Some((0x50, 0x1))
    } else if op == FCMP_LE_S {
        Some((0x50, 0x0))
    } else {
        None
    }
}

fn fp_compare_lookup(op: u32) -> (r: Option<(u32, u32)>)
    ensures
        r == fp_compare_table(op),
{
    if op == FCMP_EQ_D {
        Some((0x51, 0x2))
    } else if op == FCMP_LT_D {
        Some((0x51, 0x1))
    } else if op == FCMP_LE_D {
        Some((0x51, 0x0))
    } else if op == FCMP_EQ_S {
        Some((0x50, 0x2))
    } else if op == FCMP_LT_S {
        Some((0x50, 0x1))
    } else if op == FCMP_LE_S {
        Some((0x50, 0x0))
    } else {
        None
    }
}

/// Sign-injection idioms `fsgnj[n] rd, rs, rs` (negate, copy): `(funct7, funct3)`.
pub open spec fn fp_sign_inject_table(op: u32) -> Option<(u32, u32)> {
    if op == FNEG_D {
        Some((0x21, 0x1))
    } else if op == FNEG_S {
        Some((0x20, 0x1))
    } else if op == FMV_D_D {
        Some((0x11, 0x0))
    } else {
        None
    }
}

fn fp_sign_inject_lookup(op: u32) -> (r: Option<(u32, u32)>)
    ensures
        r == fp_sign_inject_table(op),
{
    if op == FNEG_D {
        Some((0x21, 0x1))
    } else if op == FNEG_S {
        Some((0x20, 0x1))
    } else if op == FMV_D_D {
        Some((0x11, 0x0))
    } else {
        None
    }
}

/// FP-to-integer conversions (round toward zero): `(funct7, rs2 selector)`.
pub open spec fn fp_to_int_table(op: u32) -> Option<(u32, u8)> {
    if op == FCVT_W_D {
        Some((0x61, 0))
    } else if op == FCVT_L_D {
        Some((0x61, 2))
    } else if op == FCVT_W_S {
        Some((0x60, 0))
    } else if op == FCVT_L_S {
        Some((0x60, 2))
    } else {
        None
    }
}

fn fp_to_int_lookup(op: u32) -> (r: Option<(u32, u8)>)
    ensures
        r == fp_to_int_table(op),
{
    if op == FCVT_W_D {
        Some((0x61, 0))
    } else if op == FCVT_L_D {
        Some((0x61, 2))
    } else if op == FCVT_W_S {
        Some((0x60, 0))
    } else if op == FCVT_L_S {
        Some((0x60, 2))
    } else {
        None
    }
}

/// Integer-to-FP conversions: `(funct7, rs2 selector)`.
pub open spec fn int_to_fp_table(op: u32) -> Option<(u32, u8)> {
    if op == FCVT_D_W {
        Some((0x69, 0))
    } else if op == FCVT_D_L {
        Some((0x69, 2))
    } else if op == FCVT_S_W {
        Some((0x68, 0))
    } else if op == FCVT_S_L {
        Some((0x68, 2))
    } else {
        None
    }
}

fn int_to_fp_lookup(op: u32) -> (r: Option<(u32, u8)>)
    ensures
        r == int_to_fp_table(op),
{
    if op == FCVT_D_W {
        Some((0x69, 0))
    } else if op == FCVT_D_L {
        Some((0x69, 2))
    } else if op == FCVT_S_W {
        Some((0x68, 0))
    } else if op == FCVT_S_L {
        Some((0x68, 2))
    } else {
        None
    }
}

/// FP loads: `funct3` under major opcode 0x07.
pub open spec fn fp_load_table(op: u32) -> Option<u32> {
    if op == FLD {
        Some(0x3)
    } else if op == FLW {
        Some(0x2)
    } else {
        None
    }
}

fn fp_load_lookup(op: u32) -> (r: Option<u32>)
    ensures
        r == fp_load_table(op),
{
    if op == FLD {
        Some(0x3)
    } else if op == FLW {
        Some(0x2)
    } else {
        None
    }
}

/// FP stores: `funct3` under major opcode 0x27.
pub open spec fn fp_store_table(op: u32) -> Option<u32> {
    if op == FSD {
        Some(0x3)
    } else if op == FSW {
        Some(0x2)
    } else {
        None
    }
}

fn fp_store_lookup(op: u32) -> (r: Option<u32>)
    ensures
        r == fp_store_table(op),
{
    if op == FSD {
        Some(0x3)
    } else if op == FSW {
        Some(0x2)
    } else {
        None
    }
}

// ── operands ────────────────────────────────────────────────────────────────

/// Operand `k` of `i`, if present.
pub open spec fn operand_at(i: InstrView, k: int) -> Option<OperandView> {
    if 0 <= k < i.operands.len() {
        Some(i.operands[k])
    } else {
        None
    }
}

/// The 5-bit integer register field named by a register operand.
pub open spec fn int_field_of(op: OperandView) -> Option<u8> {
    match op {
        OperandView::PReg(r) => Some(r.0 % 32),
        OperandView::VReg(v) => Some((v.0 % 32) as u8),
        _ => None,
    }
}

/// Register number `raw` in the FP numbering (32–63) brought back to 0–31.
pub open spec fn fp_field_of_raw(raw: u8) -> u8 {
    if raw >= 32 {
        (raw - 32) as u8
    } else {
        raw
    }
}

/// The FP register field named by a register operand (FP registers are 32–63;
/// an allocated virtual register carries its physical number in its low byte).
pub open spec fn fp_field_of(op: OperandView) -> Option<u8> {
    match op {
        OperandView::PReg(r) => if r.0 >= 32 {
            Some((r.0 - 32) as u8)
        } else {
            Some(r.0 % 32)
        },
        OperandView::VReg(v) => Some(fp_field_of_raw((v.0 % 256) as u8)),
        _ => None,
    }
}

/// Integer register field of operand `k` (0 when absent or not a register).
pub open spec fn int_reg_at(i: InstrView, k: int) -> u8 {
    match operand_at(i, k) {
        Some(o) => match int_field_of(o) {
            Some(r) => r,
            None => 0,
        },
        None => 0,
    }
}

/// FP register field of operand `k` (0 when absent or not a register).
pub open spec fn fp_reg_at(i: InstrView, k: int) -> u8 {
    match operand_at(i, k) {
        Some(o) => match fp_field_of(o) {
            Some(r) => r,
            None => 0,
        },
        None => 0,
    }
}

/// Immediate operand `k`, truncated to 32 bits (0 when absent or not an immediate).
pub open spec fn imm_at(i: InstrView, k: int) -> i32 {
    match operand_at(i, k) {
        Some(OperandView::Imm(v)) => v as i32,
        _ => 0,
    }
}

/// The destination register, or register 0 when there is none.
pub open spec fn dst_or_zero(i: InstrView) -> VReg {
    match i.dst {
        Some(v) => v,
        None => VReg(0),
    }
}

/// Integer field of the destination (0 without a destination).
pub open spec fn dst_int(i: InstrView) -> u8 {
    (dst_or_zero(i).0 % 32) as u8
}

/// FP field of the destination (0 without a destination).
pub open spec fn dst_fp(i: InstrView) -> u8 {
    fp_field_of_raw((dst_or_zero(i).0 % 256) as u8)
}

/// Byte offset `-(slot + 1) * 8` of a frame slot below the frame pointer, when
/// it fits in 32 bits.
pub open spec fn frame_slot_offset(slot: i32) -> Option<i32> {
    let v = -(slot + 1) * 8;
    if slot < i32::MAX && i32::MIN <= v <= i32::MAX {
        Some(v as i32)
    } else {
        None
    }
}

/// Byte offset `slot * 8` of a spill slot, when it fits in 32 bits.
pub open spec fn spill_slot_offset(slot: i32) -> Option<i32> {
    let v = slot * 8;
    if i32::MIN <= v <= i32::MAX {
        Some(v as i32)
    } else {
        None
    }
}

// ── the encoding ────────────────────────────────────────────────────────────

/// The 32-bit RV64 encoding of `i`, or `None` for an opcode this encoder does
/// not know or a frame slot whose byte offset overflows 32 bits.
pub open spec fn rv_encode(i: InstrView) -> Option<u32> {
    let op = i.opcode.0;
    let rd = dst_int(i);
    let rs1 = int_reg_at(i, 0);
    let rs2 = int_reg_at(i, 1);
    if op == NOP {
        Some(0x13)
    } else if op == MOV_RR {
        Some(i_word(0, rs1, 0, rd, 0x13))
    } else if op == MOV_IMM {
        Some(i_word(imm_at(i, 0), 0, 0, rd, 0x13))
    } else if op == MOV_PR {
        Some(i_word(0, rs2, 0, rs1, 0x13))
    } else if alu_rr_table(op) is Some {
        let (f7, f3) = alu_rr_table(op)->0;
        Some(r_word(f7, rs2, rs1, f3, rd, 0x33))
    } else if alu_imm_table(op) is Some {
        Some(i_word(imm_at(i, 1), rs1, alu_imm_table(op)->0, rd, 0x13))
    } else if int_load_table(op) is Some {
        Some(i_word(imm_at(i, 2), rs1, int_load_table(op)->0, rd, 0x03))
    } else if int_store_table(op) is Some {
        Some(s_word(imm_at(i, 2), rs2, rs1, int_store_table(op)->0, 0x23))
    } else if branch_table(op) is Some {
        Some(b_word(imm_at(i, 2), rs2, rs1, branch_table(op)->0, 0x63))
    } else if op == JAL {
        Some(j_word(imm_at(i, 0), rd, 0x6F))
    } else if op == JALR {
        if i.dst is Some {
            Some(i_word(imm_at(i, 1), rs1, 0, rd, 0x67))
        } else {
            Some(i_word(imm_at(i, 2), rs2, 0, rs1, 0x67))
        }
    } else if op == RET {
        Some(i_word(0, 1, 0, 0, 0x67))
    } else if op == LUI {
        Some(u_word(imm_at(i, 0), rd, 0x37))
    } else if op == AUIPC {
        Some(u_word(imm_at(i, 0), rd, 0x17))
    } else if op == FENCE {
        Some(0x0FF0_000F)
    } else if amo_table(op) is Some {
        let (f5, f3, uses_rs2) = amo_table(op)->0;
        Some(amo_word(f5, true, true, if uses_rs2 { rs2 as u32 } else { 0 }, rs1 as u32, f3, rd as u32))
    } else if op == ADDI_FP_SLOT {
        match frame_slot_offset(imm_at(i, 0)) {
            Some(off) => Some(i_word(off, 8, 0, rd, 0x13)),
            None => None,
        }
    } else if op == LD_REG {
        Some(i_word(0, rs1, 0x3, rd, 0x03))
    } else if op == SD_REG {
        Some(s_word(0, rs2, rs1, 0x3, 0x23))
    } else if fp_binary_table(op) is Some {
        Some(r_word(fp_binary_table(op)->0, fp_reg_at(i, 1), fp_reg_at(i, 0), 0x7, dst_fp(i), 0x53))
    } else if op == FSQRT_D {
        Some(r_word(0x2D, 0, fp_reg_at(i, 0), 0x7, dst_fp(i), 0x53))
    } else if fp_sign_inject_table(op) is Some {
        let (f7, f3) = fp_sign_inject_table(op)->0;
        Some(r_word(f7, fp_reg_at(i, 0), fp_reg_at(i, 0), f3, dst_fp(i), 0x53))
    } else if fp_compare_table(op) is Some {
        let (f7, f3) = fp_compare_table(op)->0;
        Some(r_word(f7, fp_reg_at(i, 1), fp_reg_at(i, 0), f3, rd, 0x53))
    } else if fp_to_int_table(op) is Some {
        let (f7, sel) = fp_to_int_table(op)->0;
        Some(r_word(f7, sel, fp_reg_at(i, 0), 0x1, rd, 0x53))
    } else if int_to_fp_table(op) is Some {
        let (f7, sel) = int_to_fp_table(op)->0;
        Some(r_word(f7, sel, rs1, 0x0, dst_fp(i), 0x53))
    } else if fp_load_table(op) is Some {
        Some(i_word(imm_at(i, 1), rs1, fp_load_table(op)->0, dst_fp(i), 0x07))
    } else if fp_store_table(op) is Some {
        Some(s_word(imm_at(i, 2), fp_reg_at(i, 1), rs1, fp_store_table(op)->0, 0x27))
    } else if op == FP_LOAD_MR {
        match spill_slot_offset(imm_at(i, 0)) {
            Some(off) => Some(i_word(off, 8, 0x3, dst_fp(i), 0x07)),
            None => None,
        }
    } else if op == FP_STORE_RM {
        match spill_slot_offset(imm_at(i, 0)) {
            Some(off) => Some(s_word(off, fp_reg_at(i, 1), 8, 0x3, 0x27)),
            None => None,
        }
    } else {
        None
    }
}

/// Integer register field of the destination register `v`.
fn reg_of_dst(v: VReg) -> (r: u8)
    ensures
        r == (v.0 % 32) as u8,
{
    let x = v.0;
    assert((x & 0x1F) as u8 == (x % 32) as u8) by (bit_vector);
    (x & 0x1F) as u8
}

/// Integer register field of a register operand.
fn reg_of_op(op: &MOperand) -> (r: Option<u8>)
    ensures
        r == int_field_of(op@),
{
    match op {
        MOperand::PReg(p) => {
            let x = p.0;
            assert(x & 0x1F == x % 32) by (bit_vector);
            Some(x & 0x1F)
        },
        MOperand::VReg(v) => Some(reg_of_dst(*v)),
        _ => None,
    }
}

fn fp_of_raw(raw: u8) -> (r: u8)
    ensures
        r == fp_field_of_raw(raw),
{
    if raw >= 32 {
        raw - 32
    } else {
        raw
    }
}

/// FP register field of the destination register `v` (its low byte, in the
/// FP numbering).
fn fp_reg_of_dst(v: VReg) -> (r: u8)
    ensures
        r == fp_field_of_raw((v.0 % 256) as u8),
{
    let x = v.0;
    assert((x & 0xFF) as u8 == (x % 256) as u8) by (bit_vector);
    fp_of_raw((x & 0xFF) as u8)
}

/// FP register field of a register operand.
fn fp_reg_of_op(op: &MOperand) -> (r: Option<u8>)
    ensures
        r == fp_field_of(op@),
{
    match op {
        MOperand::PReg(p) => {
            if p.0 >= 32 {
                Some(p.0 - 32)
            } else {
                let x = p.0;
                assert(x & 0x1F == x % 32) by (bit_vector);
                Some(x & 0x1F)
            }
        },
        MOperand::VReg(v) => Some(fp_reg_of_dst(*v)),
        _ => None,
    }
}

/// Immediate of an optional operand, truncated to 32 bits (0 otherwise).
fn imm_of_op(op: Option<&MOperand>) -> (r: i32)
    ensures
        r == (match op {
            Some(MOperand::Imm(v)) => *v as i32,
            _ => 0i32,
        }),
{
    if let Some(MOperand::Imm(v)) = op {
        *v as i32
    } else {
        0
    }
}

fn operand_int_reg(instr: &MInstr, k: usize) -> (r: u8)
    ensures
        r == int_reg_at(instr@, k as int),
{
    if k < instr.operands.len() {
        match reg_of_op(&instr.operands[k]) {
            Some(r) => r,
            None => 0,
        }
    } else {
        0
    }
}

fn operand_fp_reg(instr: &MInstr, k: usize) -> (r: u8)
    ensures
        r == fp_reg_at(instr@, k as int),
{
    if k < instr.operands.len() {
        match fp_reg_of_op(&instr.operands[k]) {
            Some(r) => r,
            None => 0,
        }
    } else {
        0
    }
}

fn operand_imm(instr: &MInstr, k: usize) -> (r: i32)
    ensures
        r == imm_at(instr@, k as int),
{
    if k < instr.operands.len() {
        imm_of_op(Some(&instr.operands[k]))
    } else {
        imm_of_op(None)
    }
}

fn dst_int_reg(instr: &MInstr) -> (r: u8)
    ensures
        r == dst_int(instr@),
{
    match instr.dst {
        Some(v) => reg_of_dst(v),
        None => reg_of_dst(VReg(0)),
    }
}

fn dst_fp_reg(instr: &MInstr) -> (r: u8)
    ensures
        r == dst_fp(instr@),
{
    match instr.dst {
        Some(v) => fp_reg_of_dst(v),
        None => fp_reg_of_dst(VReg(0)),
    }
}

fn frame_slot(slot: i32) -> (r: Option<i32>)
    ensures
        r == frame_slot_offset(slot),
{
    if slot < i32::MAX && slot + 1 >= -268435455 && slot + 1 <= 268435456 {
        Some(-(slot + 1) * 8)
    } else {
        None
    }
}

fn spill_slot(slot: i32) -> (r: Option<i32>)
    ensures
        r == spill_slot_offset(slot),
{
    if slot >= -268435456 && slot <= 268435455 {
        Some(slot * 8)
    } else {
        None
    }
}

/// Encode one machine instruction whose opcode this encoder knows (and whose
/// frame slot, if any, has a byte offset that fits).
pub fn encode_instr(instr: &MInstr) -> (w: u32)
    requires
        rv_encode(instr@) is Some,
    ensures
        Some(w) == rv_encode(instr@),
{
    match try_encode(instr) {
        Some(w) => w,
        None => 0,
    }
}

/// The word for `instr`, or `None` for an opcode this encoder does not know
/// or a frame slot whose byte offset overflows.
fn try_encode(instr: &MInstr) -> (w: Option<u32>)
    ensures
        w == rv_encode(instr@),
{
    let op = instr.opcode.0;
    let rd = dst_int_reg(instr);
    let rs1 = operand_int_reg(instr, 0);
    let rs2 = operand_int_reg(instr, 1);
    if op == NOP {
        Some(0x13)
    } else if op == MOV_RR {
        Some(enc_i(0, rs1, 0x0, rd, 0x13))
    } else if op == MOV_IMM {
        Some(enc_i(operand_imm(instr, 0), 0, 0x0, rd, 0x13))
    } else if op == MOV_PR {
        Some(enc_i(0, rs2, 0x0, rs1, 0x13))
    } else if let Some((f7, f3)) = alu_rr_lookup(op) {
        Some(enc_r(f7, rs2, rs1, f3, rd, 0x33))
    } else if let Some(f3) = alu_imm_lookup(op) {
        Some(enc_i(operand_imm(instr, 1), rs1, f3, rd, 0x13))
    } else if let Some(f3) = int_load_lookup(op) {
        Some(enc_i(operand_imm(instr, 2), rs1, f3, rd, 0x03))
    } else if let Some(f3) = int_store_lookup(op) {
        Some(enc_s(operand_imm(instr, 2), rs2, rs1, f3, 0x23))
    } else if let Some(f3) = branch_lookup(op) {
        Some(enc_b(operand_imm(instr, 2), rs2, rs1, f3, 0x63))
    } else if op == JAL {
        Some(enc_j(operand_imm(instr, 0), rd, 0x6F))
    } else if op == JALR {
        if instr.dst.is_some() {
            Some(enc_i(operand_imm(instr, 1), rs1, 0x0, rd, 0x67))
        } else {
            Some(enc_i(operand_imm(instr, 2), rs2, 0x0, rs1, 0x67))
        }
    } else if op == RET {
        Some(enc_i(0, 1, 0x0, 0, 0x67))
    } else if op == LUI {
        Some(enc_u(operand_imm(instr, 0), rd, 0x37))
    } else if op == AUIPC {
        Some(enc_u(operand_imm(instr, 0), rd, 0x17))
    } else if op == FENCE {
        Some(0x0FF0_000F)
    } else if let Some((f5, f3, uses_rs2)) = amo_lookup(op) {
        let src2: u32 = if uses_rs2 { rs2 as u32 } else { 0 };
        Some(enc_amo(f5, true, true, src2, rs1 as u32, f3, rd as u32))
    } else if op == ADDI_FP_SLOT {
        match frame_slot(operand_imm(instr, 0)) {
            Some(off) => Some(enc_i(off, 8, 0x0, rd, 0x13)),
            None => None,
        }
    } else if op == LD_REG {
        Some(enc_i(0, rs1, 0x3, rd, 0x03))
    } else if op == SD_REG {
        Some(enc_s(0, rs2, rs1, 0x3, 0x23))
    } else if let Some(f7) = fp_binary_lookup(op) {
        Some(enc_r(f7, operand_fp_reg(instr, 1), operand_fp_reg(instr, 0), 0x7, dst_fp_reg(instr), 0x53))
    } else if op == FSQRT_D {
        Some(enc_r(0x2D, 0, operand_fp_reg(instr, 0), 0x7, dst_fp_reg(instr), 0x53))
    } else if let Some((f7, f3)) = fp_sign_inject_lookup(op) {
        let src = operand_fp_reg(instr, 0);
        Some(enc_r(f7, src, src, f3, dst_fp_reg(instr), 0x53))
    } else if let Some((f7, f3)) = fp_compare_lookup(op) {
        Some(enc_r(f7, operand_fp_reg(instr, 1), operand_fp_reg(instr, 0), f3, rd, 0x53))
    } else if let Some((f7, sel)) = fp_to_int_lookup(op) {
        Some(enc_r(f7, sel, operand_fp_reg(instr, 0), 0x1, rd, 0x53))
    } else if let Some((f7, sel)) = int_to_fp_lookup(op) {
        Some(enc_r(f7, sel, rs1, 0x0, dst_fp_reg(instr), 0x53))
    } else if let Some(f3) = fp_load_lookup(op) {
        Some(enc_i(operand_imm(instr, 1), rs1, f3, dst_fp_reg(instr), 0x07))
    } else if let Some(f3) = fp_store_lookup(op) {
        Some(enc_s(operand_imm(instr, 2), operand_fp_reg(instr, 1), rs1, f3, 0x27))
    } else if op == FP_LOAD_MR {
        match spill_slot(operand_imm(instr, 0)) {
            Some(off) => Some(enc_i(off, 8, 0x3, dst_fp_reg(instr), 0x07)),
            None => None,
        }
    } else if op == FP_STORE_RM {
        match spill_slot(operand_imm(instr, 0)) {
            Some(off) => Some(enc_s(off, operand_fp_reg(instr, 1), 8, 0x3, 0x27)),
            None => None,
        }
    } else {
        None
    }
}

// ── emission ────────────────────────────────────────────────────────────────

/// How a control-transfer word is re-encoded once block offsets are known.
#[derive(Clone, Copy, Debug, PartialEq, Eq, Structural)]
pub enum PatchKind {
    /// Conditional branch: 13-bit PC-relative offset.
    Branch13,
    /// `jal`: 21-bit PC-relative offset.
    Jal21,
}

/// Branch target of `i`: a conditional branch whose operand 2, or a `jal` whose
/// operand 0, names a block.
pub open spec fn patch_of(i: InstrView) -> Option<(usize, PatchKind)> {
    if branch_table(i.opcode.0) is Some && operand_at(i, 2) matches Some(OperandView::Block(b)) {
        Some((operand_at(i, 2)->0->Block_0, PatchKind::Branch13))
    } else if i.opcode.0 == JAL && operand_at(i, 0) matches Some(OperandView::Block(b)) {
        Some((operand_at(i, 0)->0->Block_0, PatchKind::Jal21))
    } else {
        None
    }
}

fn patch_from_instr(instr: &MInstr) -> (r: Option<(usize, PatchKind)>)
    ensures
        r == patch_of(instr@),
{
    let op = instr.opcode.0;
    if branch_lookup(op).is_some() && instr.operands.len() > 2 {
        if let MOperand::Block(b) = &instr.operands[2] {
            return Some((*b, PatchKind::Branch13));
        }
    }
    if op == JAL && instr.operands.len() > 0 {
        if let MOperand::Block(b) = &instr.operands[0] {
            return Some((*b, PatchKind::Jal21));
        }
    }
    None
}

/// Byte offset of block `b` in the emitted text: four bytes per instruction of
/// every earlier block (a block index past the end gives the text size).
pub open spec fn block_offset(blocks: Seq<BlockView>, b: int) -> int
    decreases b,
{
    if b <= 0 {
        0
    } else if b > blocks.len() {
        block_offset(blocks, blocks.len() as int)
    } else {
        block_offset(blocks, b - 1) + 4 * blocks[b - 1].instrs.len()
    }
}

/// Size in bytes of the emitted text.
pub open spec fn text_size(blocks: Seq<BlockView>) -> int {
    block_offset(blocks, blocks.len() as int)
}

/// Every instruction of every block has an encoding.
pub open spec fn all_encodable(blocks: Seq<BlockView>) -> bool {
    forall|b: int, j: int| 0 <= b < blocks.len() && 0 <= j < blocks[b].instrs.len() ==> (#[trigger] rv_encode(
        blocks[b].instrs[j])) is Some
}

/// The word emitted for instruction `j` of block `b`: its encoding, with the
/// offset field of a branch or `jal` to a block replaced by the distance to
/// that block.
pub open spec fn final_word(blocks: Seq<BlockView>, b: int, j: int) -> u32 {
    let ins = blocks[b].instrs[j];
    let off = block_offset(blocks, b) + 4 * j;
    let old = rv_encode(ins)->0;
    match patch_of(ins) {
        Some((t, PatchKind::Branch13)) => b_word(
            (block_offset(blocks, t as int) - off) as i32,
            ((old >> 20) & 0x1F) as u8,
            ((old >> 15) & 0x1F) as u8,
            (old >> 12) & 0x7,
            0x63,
        ),
        Some((t, PatchKind::Jal21)) => j_word(
            (block_offset(blocks, t as int) - off) as i32,
            ((old >> 7) & 0x1F) as u8,
            0x6F,
        ),
        None => old,
    }
}

/// Little-endian words of the first `n` instructions of block `b`.
pub open spec fn block_text(blocks: Seq<BlockView>, b: int, n: int) -> Seq<u8>
    decreases n,
{
    if n <= 0 {
        Seq::empty()
    } else {
        block_text(blocks, b, n - 1) + le32(final_word(blocks, b, n - 1))
    }
}

/// Emitted bytes of the first `nb` blocks.
pub open spec fn text_upto(blocks: Seq<BlockView>, nb: int) -> Seq<u8>
    decreases nb,
{
    if nb <= 0 {
        Seq::empty()
    } else {
        text_upto(blocks, nb - 1) + block_text(blocks, nb - 1, blocks[nb - 1].instrs.len() as int)
    }
}

/// Line-table row of instruction `j` of block `b`, if it carries a location.
pub open spec fn row_of(blocks: Seq<BlockView>, b: int, j: int) -> Seq<DebugLineRow> {
    match blocks[b].instrs[j].debug_loc {
        Some(loc) => seq![
            DebugLineRow {
                address: (block_offset(blocks, b) + 4 * j) as u64,
                line: loc.line,
                column: loc.column,
            },
        ],
        None => Seq::empty(),
    }
}

/// Line-table rows of the first `n` instructions of block `b`.
pub open spec fn block_rows(blocks: Seq<BlockView>, b: int, n: int) -> Seq<DebugLineRow>
    decreases n,
{
    if n <= 0 {
        Seq::empty()
    } else {
        block_rows(blocks, b, n - 1) + row_of(blocks, b, n - 1)
    }
}

/// Line-table rows of the first `nb` blocks.
pub open spec fn rows_upto(blocks: Seq<BlockView>, nb: int) -> Seq<DebugLineRow>
    decreases nb,
{
    if nb <= 0 {
        Seq::empty()
    } else {
        rows_upto(blocks, nb - 1) + block_rows(blocks, nb - 1, blocks[nb - 1].instrs.len() as int)
    }
}

proof fn lemma_block_text(blocks: Seq<BlockView>, b: int, n: int)
    requires
        0 <= n,
    ensures
        block_text(blocks, b, n).len() == 4 * n,
        forall|j: int|
            0 <= j < n ==> #[trigger] block_text(blocks, b, n).subrange(4 * j, 4 * j + 4) == le32(final_word(blocks, b, j)),
    decreases n,
{
    if n > 0 {
        lemma_block_text(blocks, b, n - 1);
        let t = block_text(blocks, b, n);
        assert forall|j: int| 0 <= j < n implies #[trigger] t.subrange(4 * j, 4 * j + 4) == le32(final_word(blocks, b, j)) by {
            if j < n - 1 {
                assert(t.subrange(4 * j, 4 * j + 4) =~= block_text(blocks, b, n - 1).subrange(4 * j, 4 * j + 4));
            } else {
                assert(t.subrange(4 * j, 4 * j + 4) =~= le32(final_word(blocks, b, j)));
            }
        }
    }
}

/// Layout of the emitted text: four bytes per instruction, blocks in order,
/// so the first `nb` blocks take `block_offset(blocks, nb)` bytes (four times
/// their instruction count), and the word of instruction `j` of block `b`
/// (its encoding, with a branch or `jal` to block `t` carrying
/// `block_offset(blocks, t)` minus the instruction's own offset) sits at byte
/// `block_offset(blocks, b) + 4 * j`.
pub proof fn lemma_text_layout(blocks: Seq<BlockView>, nb: int)
    requires
        0 <= nb <= blocks.len(),
    ensures
        text_upto(blocks, nb).len() == block_offset(blocks, nb),
        forall|b: int, j: int|
            0 <= b < nb && 0 <= j < blocks[b].instrs.len() ==> #[trigger] text_upto(blocks, nb).subrange(
                block_offset(blocks, b) + 4 * j,
                block_offset(blocks, b) + 4 * j + 4,
            ) == le32(final_word(blocks, b, j)),
    decreases nb,
{
    if nb > 0 {
        lemma_text_layout(blocks, nb - 1);
        let len = blocks[nb - 1].instrs.len() as int;
        lemma_block_text(blocks, nb - 1, len);
        let t = text_upto(blocks, nb);
        let base = block_offset(blocks, nb - 1);
        assert(t == text_upto(blocks, nb - 1) + block_text(blocks, nb - 1, len));
        assert forall|b: int, j: int| 0 <= b < nb && 0 <= j < blocks[b].instrs.len() implies #[trigger] t.subrange(
            block_offset(blocks, b) + 4 * j,
            block_offset(blocks, b) + 4 * j + 4,
        ) == le32(final_word(blocks, b, j)) by {
            if b < nb - 1 {
                lemma_block_offset_mono(blocks, b + 1, nb - 1);
                assert(block_offset(blocks, b + 1) == block_offset(blocks, b) + 4 * blocks[b].instrs.len());
                lemma_block_offset_mono(blocks, 0, b);
                assert(block_offset(blocks, b) + 4 * j + 4 <= text_upto(blocks, nb - 1).len());
                assert(t.subrange(block_offset(blocks, b) + 4 * j, block_offset(blocks, b) + 4 * j + 4) =~= text_upto(
                    blocks,
                    nb - 1,
                ).subrange(block_offset(blocks, b) + 4 * j, block_offset(blocks, b) + 4 * j + 4));
            } else {
                assert(block_text(blocks, nb - 1, len).subrange(4 * j, 4 * j + 4) == le32(final_word(blocks, b, j)));
                assert(t.subrange(base + 4 * j, base + 4 * j + 4) =~= block_text(blocks, nb - 1, len).subrange(4 * j, 4 * j + 4));
            }
        }
    }
}

/// The line-table row that instruction `j` of block `b` gets: its byte
/// offset in the text, its line and its column.
pub open spec fn located_row(blocks: Seq<BlockView>, b: int, j: int) -> DebugLineRow {
    DebugLineRow {
        address: (block_offset(blocks, b) + 4 * j) as u64,
        line: blocks[b].instrs[j].debug_loc->0.line,
        column: blocks[b].instrs[j].debug_loc->0.column,
    }
}

/// `r` is the row of one of the first `n` instructions of block `b` that
/// carries a location.
pub open spec fn row_in_block(blocks: Seq<BlockView>, b: int, n: int, r: DebugLineRow) -> bool {
    exists|j: int| 0 <= j < n && blocks[b].instrs[j].debug_loc is Some && r == #[trigger] located_row(blocks, b, j)
}

/// `r` is the row of an instruction of the first `nb` blocks that carries a
/// location.
pub open spec fn row_of_some_instr(blocks: Seq<BlockView>, nb: int, r: DebugLineRow) -> bool {
    exists|b: int, j: int|
        0 <= b < nb && 0 <= j < blocks[b].instrs.len() && blocks[b].instrs[j].debug_loc is Some && r == #[trigger] located_row(
            blocks,
            b,
            j,
        )
}

proof fn lemma_block_rows(blocks: Seq<BlockView>, b: int, n: int)
    requires
        0 <= n,
    ensures
        forall|j: int|
            0 <= j < n && blocks[b].instrs[j].debug_loc is Some ==> #[trigger] block_rows(blocks, b, n).contains(
                located_row(blocks, b, j),
            ),
        forall|k: int| 0 <= k < block_rows(blocks, b, n).len() ==> row_in_block(blocks, b, n, #[trigger] block_rows(blocks, b, n)[k]),
    decreases n,
{
    if n > 0 {
        lemma_block_rows(blocks, b, n - 1);
        let prev = block_rows(blocks, b, n - 1);
        let r = block_rows(blocks, b, n);
        assert(r == prev + row_of(blocks, b, n - 1));
        assert forall|j: int| 0 <= j < n && blocks[b].instrs[j].debug_loc is Some implies #[trigger] r.contains(
            located_row(blocks, b, j),
        ) by {
            if j < n - 1 {
                assert(prev.contains(located_row(blocks, b, j)));
                let k = choose|k: int| 0 <= k < prev.len() && prev[k] == located_row(blocks, b, j);
                assert(r[k] == prev[k]);
                assert(r.contains(located_row(blocks, b, j)));
            } else {
                assert(row_of(blocks, b, j) == seq![located_row(blocks, b, j)]);
                assert(r[prev.len() as int] == located_row(blocks, b, j));
            }
        }
        assert forall|k: int| 0 <= k < r.len() implies row_in_block(blocks, b, n, #[trigger] r[k]) by {
            if k < prev.len() {
                assert(r[k] == prev[k]);
                assert(row_in_block(blocks, b, n - 1, prev[k]));
                let j = choose|j: int| 0 <= j < n - 1 && blocks[b].instrs[j].debug_loc is Some && prev[k] == #[trigger] located_row(blocks, b, j);
                assert(r[k] == located_row(blocks, b, j));
            } else {
                assert(blocks[b].instrs[n - 1].debug_loc is Some);
                assert(r[k] == located_row(blocks, b, n - 1));
            }
        }
    }
}

/// The line table of the first `nb` blocks has a row for every instruction
/// that carries a source location (its byte offset, line and column), and
/// every row it has is such a row.
pub proof fn lemma_rows_layout(blocks: Seq<BlockView>, nb: int)
    requires
        0 <= nb <= blocks.len(),
    ensures
        forall|b: int, j: int|
            0 <= b < nb && 0 <= j < blocks[b].instrs.len() && blocks[b].instrs[j].debug_loc is Some ==> #[trigger] rows_upto(
                blocks,
                nb,
            ).contains(located_row(blocks, b, j)),
        forall|k: int| 0 <= k < rows_upto(blocks, nb).len() ==> row_of_some_instr(blocks, nb, #[trigger] rows_upto(blocks, nb)[k]),
    decreases nb,
{
    if nb > 0 {
        lemma_rows_layout(blocks, nb - 1);
        let len = blocks[nb - 1].instrs.len() as int;
        lemma_block_rows(blocks, nb - 1, len);
        let prev = rows_upto(blocks, nb - 1);
        let last = block_rows(blocks, nb - 1, len);
        let r = rows_upto(blocks, nb);
        assert(r == prev + last);
        assert forall|b: int, j: int|
            0 <= b < nb && 0 <= j < blocks[b].instrs.len() && blocks[b].instrs[j].debug_loc is Some implies #[trigger] r.contains(
            located_row(blocks, b, j),
        ) by {
            if b < nb - 1 {
                assert(prev.contains(located_row(blocks, b, j)));
                let k = choose|k: int| 0 <= k < prev.len() && prev[k] == located_row(blocks, b, j);
                assert(r[k] == prev[k]);
            } else {
                assert(last.contains(located_row(blocks, b, j)));
                let k = choose|k: int| 0 <= k < last.len() && last[k] == located_row(blocks, b, j);
                assert(r[prev.len() + k] == last[k]);
            }
        }
        assert forall|k: int| 0 <= k < r.len() implies row_of_some_instr(blocks, nb, #[trigger] r[k]) by {
            if k < prev.len() {
                assert(r[k] == prev[k]);
                assert(row_of_some_instr(blocks, nb - 1, prev[k]));
                let (b, j) = choose|b: int, j: int|
                    0 <= b < nb - 1 && 0 <= j < blocks[b].instrs.len() && blocks[b].instrs[j].debug_loc is Some && prev[k]
                        == #[trigger] located_row(blocks, b, j);
                assert(r[k] == located_row(blocks, b, j));
            } else {
                let k2 = k - prev.len();
                assert(r[k] == last[k2]);
                assert(row_in_block(blocks, nb - 1, len, last[k2]));
                let j = choose|j: int| 0 <= j < len && blocks[nb - 1].instrs[j].debug_loc is Some && last[k2] == #[trigger] located_row(blocks, nb - 1, j);
                assert(r[k] == located_row(blocks, nb - 1, j));
            }
        }
    }
}

proof fn lemma_block_offset_mono(blocks: Seq<BlockView>, a: int, b: int)
    requires
        0 <= a <= b,
    ensures
        0 <= block_offset(blocks, a) <= block_offset(blocks, b),
    decreases b,
{
    if b > 0 {
        let m = blocks.len() as int;
        if b > m {
            if a <= m {
                lemma_block_offset_mono(blocks, a, m);
            } else {
                lemma_block_offset_mono(blocks, m, m);
            }
        } else if a < b {
            lemma_block_offset_mono(blocks, a, b - 1);
        } else {
            lemma_block_offset_mono(blocks, b - 1, b - 1);
        }
    }
}

proof fn lemma_block_text_len(blocks: Seq<BlockView>, b: int, n: int)
    requires
        n >= 0,
    ensures
        block_text(blocks, b, n).len() == 4 * n,
    decreases n,
{
    if n > 0 {
        lemma_block_text_len(blocks, b, n - 1);
    }
}

proof fn lemma_text_upto_len(blocks: Seq<BlockView>, nb: int)
    requires
        0 <= nb <= blocks.len(),
    ensures
        text_upto(blocks, nb).len() == block_offset(blocks, nb),
    decreases nb,
{
    if nb > 0 {
        lemma_text_upto_len(blocks, nb - 1);
        lemma_block_text_len(blocks, nb - 1, blocks[nb - 1].instrs.len() as int);
    }
}

/// RISC-V code emitter for an object-file container format.
pub struct RiscVEmitter {
    /// Container format of the emitted object.
    pub format: ObjectFormat,
}

/// ELF machine number of RISC-V (`EM_RISCV`).
pub const EM_RISCV: u16 = 243;

impl RiscVEmitter {
    /// An emitter for `format`.
    pub fn new(format: ObjectFormat) -> (r: RiscVEmitter)
        ensures
            r.format == format,
    {
        RiscVEmitter { format }
    }

    /// The container format.
    pub fn object_format(&self) -> (f: ObjectFormat)
        ensures
            f == self.format,
    {
        self.format
    }

    /// ELF machine number (`EM_RISCV`).
    pub fn elf_machine(&self) -> (m: u16)
        ensures
            m == EM_RISCV,
    {
        EM_RISCV
    }

    /// Encode `mf` into a `.text` section: one little-endian word per
    /// instruction in block order, branches and `jal`s to blocks resolved to
    /// PC-relative offsets, and a line-table row for every instruction that
    /// carries a source location.
    pub fn emit_function(&mut self, mf: &MachineFunction) -> (sec: Section)
        requires
            all_encodable(mf@.blocks),
            text_size(mf@.blocks) <= i64::MAX,
        ensures
            sec@.name == ".text"@,
            sec@.data == text_upto(mf@.blocks, mf@.blocks.len() as int),
            sec@.data.len() == text_size(mf@.blocks),
            sec@.relocs == Seq::<crate::object::Reloc>::empty(),
            sec@.debug_rows == rows_upto(mf@.blocks, mf@.blocks.len() as int),
    {
        let ghost blocks = mf@.blocks;
        let nb = mf.blocks.len();
        let mut offs: Vec<u64> = Vec::new();
        offs.push(0);
        let mut b: usize = 0;
        while b < nb
            invariant
                nb == mf.blocks.len(),
                blocks == mf@.blocks,
                b <= nb,
                text_size(blocks) <= i64::MAX,
                offs@.len() == b + 1,
                forall|k: int| 0 <= k <= b ==> offs@[k] == block_offset(blocks, k),
            decreases nb - b,
        {
            proof {
                lemma_block_offset_mono(blocks, b + 1, nb as int);
                assert(blocks[b as int].instrs.len() == mf.blocks@[b as int].instrs@.len());
                assert(block_offset(blocks, b + 1) == block_offset(blocks, b as int) + 4 * blocks[b as int].instrs.len());
            }
            let next = offs[b] + 4 * (mf.blocks[b].instrs.len() as u64);
            offs.push(next);
            b = b + 1;
            assert(forall|k: int| 0 <= k <= b ==> offs@[k] == block_offset(blocks, k));
        }
        let mut data: Vec<u8> = Vec::new();
        let mut rows: Vec<DebugLineRow> = Vec::new();
        let mut b: usize = 0;
        while b < nb
            invariant
                nb == mf.blocks.len(),
                blocks == mf@.blocks,
                b <= nb,
                all_encodable(blocks),
                text_size(blocks) <= i64::MAX,
                offs@.len() == nb + 1,
                forall|k: int| 0 <= k <= nb ==> offs@[k] == block_offset(blocks, k),
                data@ == text_upto(blocks, b as int),
                rows@ == rows_upto(blocks, b as int),
            decreases nb - b,
        {
            let block = &mf.blocks[b];
            let n = block.instrs.len();
            let mut j: usize = 0;
            proof {
                lemma_block_offset_mono(blocks, b + 1, nb as int);
            }
            while j < n
                invariant
                    nb == mf.blocks.len(),
                    blocks == mf@.blocks,
                    b < nb,
                    block == &mf.blocks@[b as int],
                    n == block.instrs.len(),
                    n == blocks[b as int].instrs.len(),
                    j <= n,
                    all_encodable(blocks),
                    text_size(blocks) <= i64::MAX,
                    block_offset(blocks, b + 1) <= text_size(blocks),
                    offs@.len() == nb + 1,
                    forall|k: int| 0 <= k <= nb ==> offs@[k] == block_offset(blocks, k),
                    data@ == text_upto(blocks, b as int) + block_text(blocks, b as int, j as int),
                    rows@ == rows_upto(blocks, b as int) + block_rows(blocks, b as int, j as int),
                decreases n - j,
            {
                let instr = &block.instrs[j];
                assert(instr@ == blocks[b as int].instrs[j as int]);
                let off: u64 = offs[b] + 4 * (j as u64);
                if let Some(loc) = instr.debug_loc {
                    rows.push(DebugLineRow { address: off, line: loc.line, column: loc.column });
                }
                assert(rows@ == rows_upto(blocks, b as int) + block_rows(blocks, b as int, j + 1)) by {
                    assert(rows_upto(blocks, b as int) + block_rows(blocks, b as int, j + 1) =~= rows_upto(
                        blocks,
                        b as int,
                    ) + block_rows(blocks, b as int, j as int) + row_of(blocks, b as int, j as int));
                }
                assert(rv_encode(blocks[b as int].instrs[j as int]) is Some);
                let old = encode_instr(instr);
                let word = match patch_from_instr(instr) {
                    Some((t, kind)) => {
                        let target_off: u64 = if t < nb {
                            offs[t]
                        } else {
                            offs[nb]
                        };
                        proof {
                            if t < nb {
                                lemma_block_offset_mono(blocks, t as int, nb as int);
                            }
                        }
                        let rel = (target_off as i64) - (off as i64);
                        match kind {
                            PatchKind::Branch13 => {
                                let rs2 = ((old >> 20) & 0x1F) as u8;
                                let rs1 = ((old >> 15) & 0x1F) as u8;
                                let f3 = (old >> 12) & 0x7;
                                enc_b(rel as i32, rs2, rs1, f3, 0x63)
                            },
                            PatchKind::Jal21 => {
                                let rd = ((old >> 7) & 0x1F) as u8;
                                enc_j(rel as i32, rd, 0x6F)
                            },
                        }
                    },
                    None => old,
                };
                assert(word == final_word(blocks, b as int, j as int));
                push_u32_le(&mut data, word);
                j = j + 1;
                assert(data@ =~= text_upto(blocks, b as int) + block_text(blocks, b as int, j as int));
            }
            b = b + 1;
            assert(data@ =~= text_upto(blocks, b as int));
            assert(rows@ =~= rows_upto(blocks, b as int));
        }
        proof {
            lemma_text_upto_len(blocks, nb as int);
        }
        Section { name: ".text".to_owned(), data, relocs: Vec::new(), debug_rows: rows }
    }
}

// ── format laws ────────────────────────────────────────────────────────────

/// Each field of an R-type word is read back from its documented bit position.
pub proof fn lemma_r_fields(f7: u32, rs2: u8, rs1: u8, f3: u32, rd: u8, opc: u32)
    requires
        f7 < 128,
        rs2 < 32,
        rs1 < 32,
        f3 < 8,
        rd < 32,
        opc < 128,
    ensures
        (r_word(f7, rs2, rs1, f3, rd, opc) >> 25) & 0x7F == f7,
        (r_word(f7, rs2, rs1, f3, rd, opc) >> 20) & 0x1F == rs2 as u32,
        (r_word(f7, rs2, rs1, f3, rd, opc) >> 15) & 0x1F == rs1 as u32,
        (r_word(f7, rs2, rs1, f3, rd, opc) >> 12) & 0x7 == f3,
        (r_word(f7, rs2, rs1, f3, rd, opc) >> 7) & 0x1F == rd as u32,
        r_word(f7, rs2, rs1, f3, rd, opc) & 0x7F == opc,
{
    let a = rs2 as u32;
    let b = rs1 as u32;
    let c = rd as u32;
    let w = r_word(f7, rs2, rs1, f3, rd, opc);
    assert(w == (f7 << 25) | (a << 20) | (b << 15) | (f3 << 12) | (c << 7) | opc);
    assert(
        f7 < 128 && a < 32 && b < 32 && f3 < 8 && c < 32 && opc < 128 ==> {
            let w = (f7 << 25) | (a << 20) | (b << 15) | (f3 << 12) | (c << 7) | opc;
            &&& (w >> 25) & 0x7F == f7
            &&& (w >> 20) & 0x1F == a
            &&& (w >> 15) & 0x1F == b
            &&& (w >> 12) & 0x7 == f3
            &&& (w >> 7) & 0x1F == c
            &&& w & 0x7F == opc
        }
    ) by (bit_vector);
}

/// The I-type immediate field holds the low 12 bits of the immediate, and a
/// 12-bit signed immediate is recovered by sign extension.
pub proof fn lemma_i_immediate(imm: i32, rs1: u8, f3: u32, rd: u8, opc: u32)
    requires
        rs1 < 32,
        f3 < 8,
        rd < 32,
        opc < 128,
    ensures
        i_word(imm, rs1, f3, rd, opc) >> 20 == (imm as u32) & 0xFFF,
        -2048 <= imm < 2048 ==> ((i_word(imm, rs1, f3, rd, opc) as i32) >> 20) == imm,
{
    let b = rs1 as u32;
    let c = rd as u32;
    assert(i_word(imm, rs1, f3, rd, opc) == (((imm as u32) & 0xFFF) << 20) | (b << 15) | (f3 << 12) | (c << 7)
        | opc);
    assert(
        b < 32 && f3 < 8 && c < 32 && opc < 128 ==> {
            let w = (((imm as u32) & 0xFFF) << 20) | (b << 15) | (f3 << 12) | (c << 7) | opc;
            &&& w >> 20 == (imm as u32) & 0xFFF
            &&& (-2048 <= imm && imm < 2048) ==> ((w as i32) >> 20) == imm
        }
    ) by (bit_vector);
}

/// The two halves of an S-type immediate reassemble to its low 12 bits.
pub proof fn lemma_s_immediate(imm: i32, rs2: u8, rs1: u8, f3: u32, opc: u32)
    requires
        rs2 < 32,
        rs1 < 32,
        f3 < 8,
        opc < 128,
    ensures
        (((s_word(imm, rs2, rs1, f3, opc) >> 25) << 5) | ((s_word(imm, rs2, rs1, f3, opc) >> 7) & 0x1F)) == (imm
            as u32) & 0xFFF,
{
    let a = rs2 as u32;
    let b = rs1 as u32;
    let x = imm as u32;
    assert(s_word(imm, rs2, rs1, f3, opc) == ((((x & 0xFFF) >> 5) & 0x7F) << 25) | (a << 20) | (b << 15) | (f3
        << 12) | (((x & 0xFFF) & 0x1F) << 7) | opc);
    assert(
        a < 32 && b < 32 && f3 < 8 && opc < 128 ==> {
            let w = ((((x & 0xFFF) >> 5) & 0x7F) << 25) | (a << 20) | (b << 15) | (f3 << 12) | (((x & 0xFFF) & 0x1F)
                << 7) | opc;
            (((w >> 25) << 5) | ((w >> 7) & 0x1F)) == x & 0xFFF
        }
    ) by (bit_vector);
}

/// The scattered B-type immediate bits reassemble to the even 13-bit offset.
pub proof fn lemma_b_immediate(imm: i32, rs2: u8, rs1: u8, f3: u32, opc: u32)
    requires
        rs2 < 32,
        rs1 < 32,
        f3 < 8,
        opc < 128,
    ensures
        ({
            let w = b_word(imm, rs2, rs1, f3, opc);
            (((w >> 31) & 1) << 12) | (((w >> 7) & 1) << 11) | (((w >> 25) & 0x3F) << 5) | (((w >> 8) & 0xF) << 1)
        }) == (imm as u32) & 0x1FFE,
{
    let a = rs2 as u32;
    let b = rs1 as u32;
    let x = imm as u32;
    let i = x & 0x1FFF;
    assert(b_word(imm, rs2, rs1, f3, opc) == (((i >> 12) & 0x1) << 31) | (((i >> 5) & 0x3F) << 25) | (a << 20) | (b
        << 15) | (f3 << 12) | (((i >> 1) & 0xF) << 8) | (((i >> 11) & 0x1) << 7) | opc);
    assert(
        a < 32 && b < 32 && f3 < 8 && opc < 128 && i == x & 0x1FFF ==> {
            let w = (((i >> 12) & 0x1) << 31) | (((i >> 5) & 0x3F) << 25) | (a << 20) | (b << 15) | (f3 << 12) | (((i
                >> 1) & 0xF) << 8) | (((i >> 11) & 0x1) << 7) | opc;
            ((((w >> 31) & 1) << 12) | (((w >> 7) & 1) << 11) | (((w >> 25) & 0x3F) << 5) | (((w >> 8) & 0xF) << 1))
                == x & 0x1FFE
        }
    ) by (bit_vector);
}

/// The scattered J-type immediate bits reassemble to the even 21-bit offset.
pub proof fn lemma_j_immediate(imm: i32, rd: u8, opc: u32)
    requires
        rd < 32,
        opc < 128,
    ensures
        ({
            let w = j_word(imm, rd, opc);
            (((w >> 31) & 1) << 20) | (((w >> 12) & 0xFF) << 12) | (((w >> 20) & 1) << 11) | (((w >> 21) & 0x3FF)
                << 1)
        }) == (imm as u32) & 0x1FFFFE,
        (j_word(imm, rd, opc) >> 7) & 0x1F == rd as u32,
        j_word(imm, rd, opc) & 0x7F == opc,
{
    let c = rd as u32;
    let x = imm as u32;
    let i = x & 0x1FFFFF;
    assert(j_word(imm, rd, opc) == (((i >> 20) & 0x1) << 31) | (((i >> 1) & 0x3FF) << 21) | (((i >> 11) & 0x1) << 20)
        | (((i >> 12) & 0xFF) << 12) | (c << 7) | opc);
    assert(
        c < 32 && opc < 128 && i == x & 0x1FFFFF ==> {
            let w = (((i >> 20) & 0x1) << 31) | (((i >> 1) & 0x3FF) << 21) | (((i >> 11) & 0x1) << 20) | (((i >> 12)
                & 0xFF) << 12) | (c << 7) | opc;
            &&& ((((w >> 31) & 1) << 20) | (((w >> 12) & 0xFF) << 12) | (((w >> 20) & 1) << 11) | (((w >> 21) & 0x3FF)
                << 1)) == x & 0x1FFFFE
            &&& (w >> 7) & 0x1F == c
            &&& w & 0x7F == opc
        }
    ) by (bit_vector);
}

/// The U-type word keeps the upper 20 bits of the immediate.
pub proof fn lemma_u_immediate(imm: i32, rd: u8, opc: u32)
    requires
        rd < 32,
        opc < 128,
    ensures
        u_word(imm, rd, opc) & 0xFFFFF000 == (imm as u32) & 0xFFFFF000,
        (u_word(imm, rd, opc) >> 7) & 0x1F == rd as u32,
        u_word(imm, rd, opc) & 0x7F == opc,
{
    let c = rd as u32;
    let x = imm as u32;
    assert(u_word(imm, rd, opc) == (x & 0xFFFFF000) | (c << 7) | opc);
    assert(
        c < 32 && opc < 128 ==> {
            let w = (x & 0xFFFFF000) | (c << 7) | opc;
            &&& w & 0xFFFFF000 == x & 0xFFFFF000
            &&& (w >> 7) & 0x1F == c
            &&& w & 0x7F == opc
        }
    ) by (bit_vector);
}

/// Every AMO word carries the AMO major opcode 0x2F and its five-bit function code.
pub proof fn lemma_amo_fields(funct5: u32, aq: bool, rl: bool, rs2: u32, rs1: u32, funct3: u32, rd: u32)
    ensures
        amo_word(funct5, aq, rl, rs2, rs1, funct3, rd) & 0x7F == 0x2F,
        amo_word(funct5, aq, rl, rs2, rs1, funct3, rd) >> 27 == funct5 & 0x1F,
{
    let q: u32 = if aq { 1 } else { 0 };
    let l: u32 = if rl { 1 } else { 0 };
    assert(amo_word(funct5, aq, rl, rs2, rs1, funct3, rd) == ((funct5 & 0x1F) << 27) | (q << 26) | (l << 25) | ((rs2
        & 0x1F) << 20) | ((rs1 & 0x1F) << 15) | ((funct3 & 0x7) << 12) | ((rd & 0x1F) << 7) | 0x2F);
    assert(
        q < 2 && l < 2 ==> {
            let w = ((funct5 & 0x1F) << 27) | (q << 26) | (l << 25) | ((rs2 & 0x1F) << 20) | ((rs1 & 0x1F) << 15) | ((
            funct3 & 0x7) << 12) | ((rd & 0x1F) << 7) | 0x2F;
            &&& w & 0x7F == 0x2F
            &&& w >> 27 == funct5 & 0x1F
        }
    ) by (bit_vector);
}

/// An FP arithmetic opcode: add, subtract, multiply or divide, single or double.
pub open spec fn is_fp_arith(op: u32) -> bool {
    op == FADD_S || op == FSUB_S || op == FMUL_S || op == FDIV_S || op == FADD_D || op == FSUB_D || op == FMUL_D
        || op == FDIV_D
}

/// The encoding of FP arithmetic follows the F and D extensions: an OP-FP
/// word (major opcode 0x53) with dynamic rounding (funct3 7), the
/// destination in rd, the first operand in rs1 and the second in rs2, and
/// funct7 0x00/0x01 for fadd, 0x04/0x05 for fsub, 0x08/0x09 for fmul and
/// 0x0C/0x0D for fdiv (single/double).
pub proof fn lemma_fp_arith_encoding(i: InstrView)
    requires
        is_fp_arith(i.opcode.0),
        fp_reg_at(i, 0) < 32,
        fp_reg_at(i, 1) < 32,
        dst_fp(i) < 32,
    ensures
        rv_encode(i) is Some,
        ({
            let w = rv_encode(i)->0;
            let op = i.opcode.0;
            &&& op == FADD_S ==> (w >> 25) & 0x7F == 0x00
            &&& op == FADD_D ==> (w >> 25) & 0x7F == 0x01
            &&& op == FSUB_S ==> (w >> 25) & 0x7F == 0x04
            &&& op == FSUB_D ==> (w >> 25) & 0x7F == 0x05
            &&& op == FMUL_S ==> (w >> 25) & 0x7F == 0x08
            &&& op == FMUL_D ==> (w >> 25) & 0x7F == 0x09
            &&& op == FDIV_S ==> (w >> 25) & 0x7F == 0x0C
            &&& op == FDIV_D ==> (w >> 25) & 0x7F == 0x0D
            &&& (w >> 20) & 0x1F == fp_reg_at(i, 1) as u32
            &&& (w >> 15) & 0x1F == fp_reg_at(i, 0) as u32
            &&& (w >> 12) & 0x7 == 7
            &&& (w >> 7) & 0x1F == dst_fp(i) as u32
            &&& w & 0x7F == 0x53
        }),
{
    let op = i.opcode.0;
    assert(fp_binary_table(op) is Some);
    assert(rv_encode(i) == Some(r_word(fp_binary_table(op)->0, fp_reg_at(i, 1), fp_reg_at(i, 0), 0x7, dst_fp(i), 0x53)));
    assert(fp_binary_table(op)->0 < 128);
    lemma_r_fields(fp_binary_table(op)->0, fp_reg_at(i, 1), fp_reg_at(i, 0), 0x7, dst_fp(i), 0x53);
}

/// No two distinct FP arithmetic operations share an encoding: words for
/// different opcodes differ in funct7.
pub proof fn lemma_fp_arith_distinct(i: InstrView, j: InstrView)
    requires
        is_fp_arith(i.opcode.0),
        is_fp_arith(j.opcode.0),
        i.opcode.0 != j.opcode.0,
        fp_reg_at(i, 0) < 32,
        fp_reg_at(i, 1) < 32,
        dst_fp(i) < 32,
        fp_reg_at(j, 0) < 32,
        fp_reg_at(j, 1) < 32,
        dst_fp(j) < 32,
    ensures
        (rv_encode(i)->0 >> 25) & 0x7F != (rv_encode(j)->0 >> 25) & 0x7F,
{
    lemma_fp_arith_encoding(i);
    lemma_fp_arith_encoding(j);
}

/// The RV64I/M funct7 and funct3 of each integer register-register
/// operation (the major opcode is OP, 0x33).
pub open spec fn isa_alu_funct(op: u32) -> Option<(u32, u32)> {
    if op == ADD_RR {
        Some((0x00, 0x0))
    } else if op == SUB_RR {
        Some((0x20, 0x0))
    } else if op == MUL_RR {
        Some((0x01, 0x0))
    } else if op == DIV_RR {
        Some((0x01, 0x4))
    } else if op == UDIV_RR {
        Some((0x01, 0x5))
    } else if op == REM_RR {
        Some((0x01, 0x6))
    } else if op == UREM_RR {
        Some((0x01, 0x7))
    } else if op == AND_RR {
        Some((0x00, 0x7))
    } else if op == OR_RR {
        Some((0x00, 0x6))
    } else if op == XOR_RR {
        Some((0x00, 0x4))
    } else if op == SLL_RR {
        Some((0x00, 0x1))
    } else if op == SRL_RR {
        Some((0x00, 0x5))
    } else if op == SRA_RR {
        Some((0x20, 0x5))
    } else if op == SLT_RR {
        Some((0x00, 0x2))
    } else if op == SLTU_RR {
        Some((0x00, 0x3))
    } else {
        None
    }
}

/// An integer register-register instruction is encoded as an OP word whose
/// funct7 and funct3 are the ones the ISA assigns to its operation, with the
/// destination in rd and the two operands in rs1 and rs2.
pub proof fn lemma_alu_encoding(i: InstrView)
    requires
        isa_alu_funct(i.opcode.0) is Some,
        int_reg_at(i, 0) < 32,
        int_reg_at(i, 1) < 32,
    ensures
        alu_rr_table(i.opcode.0) == isa_alu_funct(i.opcode.0),
        rv_encode(i) is Some,
        ({
            let w = rv_encode(i)->0;
            let (f7, f3) = isa_alu_funct(i.opcode.0)->0;
            &&& (w >> 25) & 0x7F == f7
            &&& (w >> 12) & 0x7 == f3
            &&& (w >> 20) & 0x1F == int_reg_at(i, 1) as u32
            &&& (w >> 15) & 0x1F == int_reg_at(i, 0) as u32
            &&& (w >> 7) & 0x1F == dst_int(i) as u32
            &&& w & 0x7F == 0x33
        }),
{
    let op = i.opcode.0;
    let (f7, f3) = alu_rr_table(op)->0;
    assert(rv_encode(i) == Some(r_word(f7, int_reg_at(i, 1), int_reg_at(i, 0), f3, dst_int(i), 0x33)));
    lemma_r_fields(f7, int_reg_at(i, 1), int_reg_at(i, 0), f3, dst_int(i), 0x33);
}

proof fn lemma_int_reg_small(i: InstrView, k: int)
    ensures
        int_reg_at(i, k) < 32,
        dst_int(i) < 32,
{
}

/// funct3, rs1 and the major opcode of an I-type word.
proof fn lemma_i_fields(imm: i32, rs1: u8, f3: u32, rd: u8, opc: u32)
    requires
        rs1 < 32,
        f3 < 8,
        rd < 32,
        opc < 128,
    ensures
        (i_word(imm, rs1, f3, rd, opc) >> 12) & 0x7 == f3,
        (i_word(imm, rs1, f3, rd, opc) >> 15) & 0x1F == rs1 as u32,
        (i_word(imm, rs1, f3, rd, opc) >> 7) & 0x1F == rd as u32,
        i_word(imm, rs1, f3, rd, opc) & 0x7F == opc,
{
    let a = rs1 as u32;
    let c = rd as u32;
    let m = imm as u32;
    assert(i_word(imm, rs1, f3, rd, opc) == (((m & 0xFFF) << 20) | (a << 15) | (f3 << 12) | (c << 7) | opc));
    assert(a < 32 && f3 < 8 && c < 32 && opc < 128 ==> {
        let w = ((m & 0xFFF) << 20) | (a << 15) | (f3 << 12) | (c << 7) | opc;
        &&& (w >> 12) & 0x7 == f3
        &&& (w >> 15) & 0x1F == a
        &&& (w >> 7) & 0x1F == c
        &&& w & 0x7F == opc
    }) by (bit_vector);
}

/// funct3, the source registers and the major opcode of an S-type word.
proof fn lemma_s_fields(imm: i32, rs2: u8, rs1: u8, f3: u32, opc: u32)
    requires
        rs2 < 32,
        rs1 < 32,
        f3 < 8,
        opc < 128,
    ensures
        (s_word(imm, rs2, rs1, f3, opc) >> 12) & 0x7 == f3,
        (s_word(imm, rs2, rs1, f3, opc) >> 15) & 0x1F == rs1 as u32,
        (s_word(imm, rs2, rs1, f3, opc) >> 20) & 0x1F == rs2 as u32,
        s_word(imm, rs2, rs1, f3, opc) & 0x7F == opc,
{
    let a = rs2 as u32;
    let b = rs1 as u32;
    let i = (imm as u32) & 0xFFF;
    assert(s_word(imm, rs2, rs1, f3, opc) == ((((i >> 5) & 0x7F) << 25) | (a << 20) | (b << 15) | (f3 << 12) | ((i & 0x1F) << 7) | opc));
    assert(a < 32 && b < 32 && f3 < 8 && opc < 128 ==> {
        let w = (((i >> 5) & 0x7F) << 25) | (a << 20) | (b << 15) | (f3 << 12) | ((i & 0x1F) << 7) | opc;
        &&& (w >> 12) & 0x7 == f3
        &&& (w >> 15) & 0x1F == b
        &&& (w >> 20) & 0x1F == a
        &&& w & 0x7F == opc
    }) by (bit_vector);
}

/// funct3, the source registers and the major opcode of a B-type word.
proof fn lemma_b_fields(imm: i32, rs2: u8, rs1: u8, f3: u32, opc: u32)
    requires
        rs2 < 32,
        rs1 < 32,
        f3 < 8,
        opc < 128,
    ensures
        (b_word(imm, rs2, rs1, f3, opc) >> 12) & 0x7 == f3,
        (b_word(imm, rs2, rs1, f3, opc) >> 15) & 0x1F == rs1 as u32,
        (b_word(imm, rs2, rs1, f3, opc) >> 20) & 0x1F == rs2 as u32,
        b_word(imm, rs2, rs1, f3, opc) & 0x7F == opc,
{
    let a = rs2 as u32;
    let b = rs1 as u32;
    let i = (imm as u32) & 0x1FFF;
    assert(b_word(imm, rs2, rs1, f3, opc) == ((((i >> 12) & 0x1) << 31) | (((i >> 5) & 0x3F) << 25) | (a << 20) | (b << 15) | (f3
        << 12) | (((i >> 1) & 0xF) << 8) | (((i >> 11) & 0x1) << 7) | opc));
    assert(a < 32 && b < 32 && f3 < 8 && opc < 128 ==> {
        let w = (((i >> 12) & 0x1) << 31) | (((i >> 5) & 0x3F) << 25) | (a << 20) | (b << 15) | (f3 << 12) | (((i >> 1)
            & 0xF) << 8) | (((i >> 11) & 0x1) << 7) | opc;
        &&& (w >> 12) & 0x7 == f3
        &&& (w >> 15) & 0x1F == b
        &&& (w >> 20) & 0x1F == a
        &&& w & 0x7F == opc
    }) by (bit_vector);
}

/// funct5, the ordering bits, funct3 and the major opcode of an AMO word.
proof fn lemma_amo_word_fields(f5: u32, rs2: u32, rs1: u32, f3: u32, rd: u32)
    requires
        f5 < 32,
        f3 < 8,
    ensures
        (amo_word(f5, true, true, rs2, rs1, f3, rd) >> 27) & 0x1F == f5,
        (amo_word(f5, true, true, rs2, rs1, f3, rd) >> 25) & 0x3 == 3,
        (amo_word(f5, true, true, rs2, rs1, f3, rd) >> 12) & 0x7 == f3,
        amo_word(f5, true, true, rs2, rs1, f3, rd) & 0x7F == 0x2F,
{
    assert(amo_word(f5, true, true, rs2, rs1, f3, rd) == (((f5 & 0x1F) << 27) | (1u32 << 26) | (1u32 << 25) | ((rs2 & 0x1F) << 20)
        | ((rs1 & 0x1F) << 15) | ((f3 & 0x7) << 12) | ((rd & 0x1F) << 7) | 0x2F));
    assert(f5 < 32 && f3 < 8 ==> {
        let w = ((f5 & 0x1F) << 27) | (1u32 << 26) | (1u32 << 25) | ((rs2 & 0x1F) << 20) | ((rs1 & 0x1F) << 15) | ((f3
            & 0x7) << 12) | ((rd & 0x1F) << 7) | 0x2F;
        &&& (w >> 27) & 0x1F == f5
        &&& (w >> 25) & 0x3 == 3
        &&& (w >> 12) & 0x7 == f3
        &&& w & 0x7F == 0x2F
    }) by (bit_vector);
}

/// Conditional branches are BRANCH words (major opcode 0x63) comparing the
/// first operand (rs1) with the second (rs2), with the funct3 the ISA gives
/// each comparison: beq 0, bne 1, blt 4, bge 5, bltu 6, bgeu 7.
pub proof fn lemma_branch_encoding(i: InstrView)
    requires
        branch_table(i.opcode.0) is Some,
    ensures
        rv_encode(i) is Some,
        ({
            let w = rv_encode(i)->0;
            let op = i.opcode.0;
            &&& op == BEQ ==> (w >> 12) & 0x7 == 0
            &&& op == BNE ==> (w >> 12) & 0x7 == 1
            &&& op == BLT ==> (w >> 12) & 0x7 == 4
            &&& op == BGE ==> (w >> 12) & 0x7 == 5
            &&& op == BLTU ==> (w >> 12) & 0x7 == 6
            &&& op == BGEU ==> (w >> 12) & 0x7 == 7
            &&& (op == BEQ || op == BNE || op == BLT || op == BGE || op == BLTU || op == BGEU)
            &&& (w >> 15) & 0x1F == int_reg_at(i, 0) as u32
            &&& (w >> 20) & 0x1F == int_reg_at(i, 1) as u32
            &&& w & 0x7F == 0x63
        }),
{
    lemma_int_reg_small(i, 0);
    lemma_int_reg_small(i, 1);
    let op = i.opcode.0;
    assert(rv_encode(i) == Some(b_word(imm_at(i, 2), int_reg_at(i, 1), int_reg_at(i, 0), branch_table(op)->0, 0x63)));
    lemma_b_fields(imm_at(i, 2), int_reg_at(i, 1), int_reg_at(i, 0), branch_table(op)->0, 0x63);
}

/// Integer loads are LOAD words (0x03) and stores STORE words (0x23) whose
/// funct3 gives the width: 2 for a word (lw, sw), 3 for a doubleword (ld,
/// sd); a load writes rd from the address in rs1, a store writes rs2 to the
/// address in rs1.
pub proof fn lemma_int_memory_encoding(i: InstrView)
    requires
        int_load_table(i.opcode.0) is Some || int_store_table(i.opcode.0) is Some,
    ensures
        rv_encode(i) is Some,
        ({
            let w = rv_encode(i)->0;
            let op = i.opcode.0;
            &&& (op == LW || op == SW) ==> (w >> 12) & 0x7 == 2
            &&& (op == LD || op == SD) ==> (w >> 12) & 0x7 == 3
            &&& (op == LW || op == LD) ==> w & 0x7F == 0x03 && (w >> 7) & 0x1F == dst_int(i) as u32
            &&& (op == SW || op == SD) ==> w & 0x7F == 0x23 && (w >> 20) & 0x1F == int_reg_at(i, 1) as u32
            &&& (op == LW || op == LD || op == SW || op == SD)
            &&& (w >> 15) & 0x1F == int_reg_at(i, 0) as u32
        }),
{
    lemma_int_reg_small(i, 0);
    lemma_int_reg_small(i, 1);
    let op = i.opcode.0;
    if int_load_table(op) is Some {
        lemma_i_fields(imm_at(i, 2), int_reg_at(i, 0), int_load_table(op)->0, dst_int(i), 0x03);
    } else {
        lemma_s_fields(imm_at(i, 2), int_reg_at(i, 1), int_reg_at(i, 0), int_store_table(op)->0, 0x23);
    }
}

/// Register-immediate operations are OP-IMM words (0x13) with the ISA's
/// funct3: addi 0, sltiu 3, xori 4.
pub proof fn lemma_alu_imm_encoding(i: InstrView)
    requires
        alu_imm_table(i.opcode.0) is Some,
    ensures
        rv_encode(i) is Some,
        ({
            let w = rv_encode(i)->0;
            let op = i.opcode.0;
            &&& op == ADDI ==> (w >> 12) & 0x7 == 0
            &&& op == SLTIU ==> (w >> 12) & 0x7 == 3
            &&& op == XORI ==> (w >> 12) & 0x7 == 4
            &&& (op == ADDI || op == SLTIU || op == XORI)
            &&& (w >> 15) & 0x1F == int_reg_at(i, 0) as u32
            &&& (w >> 7) & 0x1F == dst_int(i) as u32
            &&& w & 0x7F == 0x13
        }),
{
    lemma_int_reg_small(i, 0);
    let op = i.opcode.0;
    lemma_i_fields(imm_at(i, 1), int_reg_at(i, 0), alu_imm_table(op)->0, dst_int(i), 0x13);
}

/// Atomics are AMO words (0x2F) with acquire and release set, funct3 2 for
/// word and 3 for doubleword forms, and the ISA's funct5: lr 0x02, sc 0x03,
/// amoadd 0x00, amoswap 0x01, amoxor 0x04, amoand 0x0C, amoor 0x08, amomin
/// 0x10, amomax 0x14, amominu 0x18, amomaxu 0x1C.
pub proof fn lemma_amo_encoding(i: InstrView)
    requires
        amo_table(i.opcode.0) is Some,
    ensures
        rv_encode(i) is Some,
        ({
            let w = rv_encode(i)->0;
            let op = i.opcode.0;
            let f5 = (w >> 27) & 0x1F;
            let f3 = (w >> 12) & 0x7;
            &&& (op == LR_W || op == LR_D) ==> f5 == 0x02
            &&& (op == SC_W || op == SC_D) ==> f5 == 0x03
            &&& (op == AMOADD_W || op == AMOADD_D) ==> f5 == 0x00
            &&& (op == AMOSWAP_W || op == AMOSWAP_D) ==> f5 == 0x01
            &&& (op == AMOXOR_W || op == AMOXOR_D) ==> f5 == 0x04
            &&& (op == AMOAND_W || op == AMOAND_D) ==> f5 == 0x0C
            &&& (op == AMOOR_W || op == AMOOR_D) ==> f5 == 0x08
            &&& op == AMOMIN_W ==> f5 == 0x10
            &&& op == AMOMAX_W ==> f5 == 0x14
            &&& op == AMOMINU_W ==> f5 == 0x18
            &&& op == AMOMAXU_W ==> f5 == 0x1C
            &&& (op == LR_W || op == SC_W || op == AMOADD_W || op == AMOSWAP_W || op == AMOXOR_W || op == AMOAND_W || op
                == AMOOR_W || op == AMOMIN_W || op == AMOMAX_W || op == AMOMINU_W || op == AMOMAXU_W) ==> f3 == 2
            &&& (op == LR_D || op == SC_D || op == AMOADD_D || op == AMOSWAP_D || op == AMOXOR_D || op == AMOAND_D || op
                == AMOOR_D) ==> f3 == 3
            &&& (w >> 25) & 0x3 == 3
            &&& w & 0x7F == 0x2F
        }),
{
    let op = i.opcode.0;
    let (f5, f3, uses) = amo_table(op)->0;
    lemma_amo_word_fields(f5, if uses { int_reg_at(i, 1) as u32 } else { 0 }, int_reg_at(i, 0) as u32, f3, dst_int(i) as u32);
}

/// The other floating-point instructions follow the F and D extensions:
/// feq/flt/fle are OP-FP words with funct7 0x50 (single) or 0x51 (double)
/// and funct3 2/1/0; negation (sign injection of a register with itself)
/// has funct3 1 and funct7 0x20 (single) or 0x21 (double), and the double
/// register move (fsgnj.d) funct3 0 and funct7 0x11; conversions to integers have funct7 0x60/0x61 and from
/// integers 0x68/0x69, with rs2 0 for a word and 2 for a doubleword integer;
/// flw/fsw have funct3 2 and fld/fsd 3, as LOAD-FP (0x07) and STORE-FP
/// (0x27) words.
pub proof fn lemma_fp_other_encoding(i: InstrView)
    requires
        fp_compare_table(i.opcode.0) is Some || fp_sign_inject_table(i.opcode.0) is Some || fp_to_int_table(i.opcode.0)
            is Some || int_to_fp_table(i.opcode.0) is Some || fp_load_table(i.opcode.0) is Some || fp_store_table(
            i.opcode.0,
        ) is Some,
        fp_reg_at(i, 0) < 32,
        fp_reg_at(i, 1) < 32,
        dst_fp(i) < 32,
    ensures
        rv_encode(i) is Some,
        ({
            let w = rv_encode(i)->0;
            let op = i.opcode.0;
            let f7 = (w >> 25) & 0x7F;
            let f3 = (w >> 12) & 0x7;
            let rs2 = (w >> 20) & 0x1F;
            &&& op == FCMP_EQ_S ==> f7 == 0x50 && f3 == 2
            &&& op == FCMP_LT_S ==> f7 == 0x50 && f3 == 1
            &&& op == FCMP_LE_S ==> f7 == 0x50 && f3 == 0
            &&& op == FCMP_EQ_D ==> f7 == 0x51 && f3 == 2
            &&& op == FCMP_LT_D ==> f7 == 0x51 && f3 == 1
            &&& op == FCMP_LE_D ==> f7 == 0x51 && f3 == 0
            &&& op == FNEG_S ==> f7 == 0x20 && f3 == 1
            &&& op == FNEG_D ==> f7 == 0x21 && f3 == 1
            &&& op == FMV_D_D ==> f7 == 0x11 && f3 == 0
            &&& op == FCVT_W_S ==> f7 == 0x60 && rs2 == 0
            &&& op == FCVT_L_S ==> f7 == 0x60 && rs2 == 2
            &&& op == FCVT_W_D ==> f7 == 0x61 && rs2 == 0
            &&& op == FCVT_L_D ==> f7 == 0x61 && rs2 == 2
            &&& op == FCVT_S_W ==> f7 == 0x68 && rs2 == 0
            &&& op == FCVT_S_L ==> f7 == 0x68 && rs2 == 2
            &&& op == FCVT_D_W ==> f7 == 0x69 && rs2 == 0
            &&& op == FCVT_D_L ==> f7 == 0x69 && rs2 == 2
            &&& op == FLW ==> f3 == 2 && w & 0x7F == 0x07
            &&& op == FLD ==> f3 == 3 && w & 0x7F == 0x07
            &&& op == FSW ==> f3 == 2 && w & 0x7F == 0x27
            &&& op == FSD ==> f3 == 3 && w & 0x7F == 0x27
        }),
{
    lemma_int_reg_small(i, 0);
    let op = i.opcode.0;
    if fp_compare_table(op) is Some {
        let (f7, f3) = fp_compare_table(op)->0;
        assert(rv_encode(i) == Some(r_word(f7, fp_reg_at(i, 1), fp_reg_at(i, 0), f3, dst_int(i), 0x53)));
        lemma_r_fields(f7, fp_reg_at(i, 1), fp_reg_at(i, 0), f3, dst_int(i), 0x53);
    } else if fp_sign_inject_table(op) is Some {
        let (f7, f3) = fp_sign_inject_table(op)->0;
        assert(rv_encode(i) == Some(r_word(f7, fp_reg_at(i, 0), fp_reg_at(i, 0), f3, dst_fp(i), 0x53)));
        lemma_r_fields(f7, fp_reg_at(i, 0), fp_reg_at(i, 0), f3, dst_fp(i), 0x53);
    } else if fp_to_int_table(op) is Some {
        let (f7, sel) = fp_to_int_table(op)->0;
        assert(rv_encode(i) == Some(r_word(f7, sel, fp_reg_at(i, 0), 0x1, dst_int(i), 0x53)));
        lemma_r_fields(f7, sel, fp_reg_at(i, 0), 0x1, dst_int(i), 0x53);
    } else if int_to_fp_table(op) is Some {
        let (f7, sel) = int_to_fp_table(op)->0;
        assert(rv_encode(i) == Some(r_word(f7, sel, int_reg_at(i, 0), 0x0, dst_fp(i), 0x53)));
        lemma_r_fields(f7, sel, int_reg_at(i, 0), 0x0, dst_fp(i), 0x53);
    } else if fp_load_table(op) is Some {
        assert(rv_encode(i) == Some(i_word(imm_at(i, 1), int_reg_at(i, 0), fp_load_table(op)->0, dst_fp(i), 0x07)));
        lemma_i_fields(imm_at(i, 1), int_reg_at(i, 0), fp_load_table(op)->0, dst_fp(i), 0x07);
    } else {
        assert(rv_encode(i) == Some(s_word(imm_at(i, 2), fp_reg_at(i, 1), int_reg_at(i, 0), fp_store_table(op)->0, 0x27)));
        lemma_s_fields(imm_at(i, 2), fp_reg_at(i, 1), int_reg_at(i, 0), fp_store_table(op)->0, 0x27);
    }
}

} // verus!
