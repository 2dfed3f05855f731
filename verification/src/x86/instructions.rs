//! x86_64 machine opcode constants and condition-code values.

use vstd::prelude::*;

verus! {

// ── data movement ──────────────────────────────────────────────────────────
/// `mov dst, src`   (64-bit reg → reg)
pub const MOV_RR: u32 = 0x00;
/// `mov dst, imm64` (64-bit immediate)
pub const MOV_RI: u32 = 0x01;
/// Sign-extend 32-bit source to 64-bit destination (`movsxd`)
pub const MOVSX_32: u32 = 0x02;
/// Sign-extend 8-bit source to 64-bit destination (`movsx`)
pub const MOVSX_8: u32 = 0x03;
/// Zero-extend 8-bit source to 64-bit destination (`movzx`)
pub const MOVZX_8: u32 = 0x04;
/// Sign-extend 16-bit source to 64-bit destination (`movsx`)
pub const MOVSX_16: u32 = 0x06;
/// Move VReg source into a fixed physical register destination.
/// Layout: `operands[0]` = `PReg` (destination, ABI-fixed), `operands[1]` = `VReg`/`PReg` (source).
/// Used by `emit_mov_to_preg`; unlike `MOV_RR` there is no `dst` field so the
/// physical register in `operands[0]` survives register allocation unchanged.
pub const MOV_PR: u32 = 0x05;

// ── integer arithmetic ─────────────────────────────────────────────────────
/// `add rr`
pub const ADD_RR: u32 = 0x10;
/// `add ri`
pub const ADD_RI: u32 = 0x11;
/// `sub rr`
pub const SUB_RR: u32 = 0x12;
/// `sub ri`
pub const SUB_RI: u32 = 0x13;
/// `imul dst, src`  (2-operand: dst *= src)
pub const IMUL_RR: u32 = 0x14;
/// `imul dst, src, imm`  (3-operand)
pub const IMUL_RRI: u32 = 0x15;
/// `idiv src`  (signed: rdx:rax ÷ src → rax=quot, rdx=rem; requires CQO first)
pub const IDIV_R: u32 = 0x16;
/// `neg dst`
pub const NEG_R: u32 = 0x17;
/// `cqo` — sign-extend rax into rdx:rax before idiv
pub const CQO: u32 = 0x18;
/// `div src`  (unsigned: rdx:rax ÷ src → rax=quot, rdx=rem; requires `xor rdx, rdx` first)
pub const DIV_R: u32 = 0x19;

// ── bitwise ────────────────────────────────────────────────────────────────
/// `and rr`
pub const AND_RR: u32 = 0x20;
/// `and ri`
pub const AND_RI: u32 = 0x21;
/// `or rr`
pub const OR_RR: u32 = 0x22;
/// `or ri`
pub const OR_RI: u32 = 0x23;
/// `xor rr`
pub const XOR_RR: u32 = 0x24;
/// `xor ri`
pub const XOR_RI: u32 = 0x25;
/// `not r`
pub const NOT_R: u32 = 0x26;

// ── shifts ─────────────────────────────────────────────────────────────────
/// `shl dst, cl`  (logical left shift by register)
pub const SHL_RR: u32 = 0x30;
/// `shl dst, imm8`
pub const SHL_RI: u32 = 0x31;
/// `shr dst, cl`  (logical right shift by register)
pub const SHR_RR: u32 = 0x32;
/// `shr dst, imm8`
pub const SHR_RI: u32 = 0x33;
/// `sar dst, cl`  (arithmetic right shift by register)
pub const SAR_RR: u32 = 0x34;
/// `sar dst, imm8`
pub const SAR_RI: u32 = 0x35;

// ── comparisons ────────────────────────────────────────────────────────────
/// `cmp rr`
pub const CMP_RR: u32 = 0x40;
/// `cmp ri`
pub const CMP_RI: u32 = 0x41;
/// `test rr`
pub const TEST_RR: u32 = 0x42;
/// `setcc dst`  — condition code stored as `Imm(CC_*)` in first operand.
pub const SETCC: u32 = 0x43;

// ── control flow ───────────────────────────────────────────────────────────
/// `jmp`
pub const JMP: u32 = 0x50;
/// `jcc target`  — condition code stored as `Imm(CC_*)`, target as `Block`.
pub const JCC: u32 = 0x51;
/// `call rel32`
pub const CALL_DIRECT: u32 = 0x52;
/// `call *reg`
pub const CALL_R: u32 = 0x53;
/// `ret`
pub const RET: u32 = 0x54;
/// Unconditional tail-call jump to a register-held callee address.
/// Emitted in place of `CALL_R` when the call is in tail position.
/// Encodes as a `jmp *reg` (FF /4) — no stack frame manipulation.
pub const JMP_TAIL: u32 = 0x55;

// ── stack ──────────────────────────────────────────────────────────────────
/// `push r`
pub const PUSH_R: u32 = 0x60;
/// `pop r`
pub const POP_R: u32 = 0x61;

// ── miscellaneous ──────────────────────────────────────────────────────────
/// `nop`
pub const NOP: u32 = 0x70;
/// Raw inline assembly bytes emitted verbatim after minimal template decoding.
pub const INLINE_ASM: u32 = 0x74;
/// `lea dst, [base + imm]`  — imm stored as `Imm` operand.
pub const LEA_RI: u32 = 0x71;

// ── frame (spill) access ───────────────────────────────────────────────────
/// `mov dst, [rbp + disp]`  — spill reload.  `dst` = VReg, `operands[0]` = `Imm(slot)`.
pub const MOV_LOAD_MR: u32 = 0x72;
/// `mov [rbp + disp], src`  — spill store.  `dst` = None, `operands[0]` = `Imm(slot)`, `operands[1]` = VReg/PReg(src).
pub const MOV_STORE_RM: u32 = 0x73;

// ── SIMD / vector (SSE4.2 baseline for vector lowering) ───────────────────
/// `paddd rr`
pub const PADDD_RR: u32 = 0x80;
/// `psubd rr`
pub const PSUBD_RR: u32 = 0x81;
/// `pmulld rr`
pub const PMULLD_RR: u32 = 0x82;
/// `addps rr`
pub const ADDPS_RR: u32 = 0x83;
/// `mulps rr`
pub const MULPS_RR: u32 = 0x84;
/// `divps rr`
pub const DIVPS_RR: u32 = 0x85;
/// `addpd rr`
pub const ADDPD_RR: u32 = 0x86;
/// `mulpd rr`
pub const MULPD_RR: u32 = 0x87;
/// `movaps rr`
pub const MOVAPS_RR: u32 = 0x88;
/// `movdqu load mr`
pub const MOVDQU_LOAD_MR: u32 = 0x89;
/// `movdqu store rm`
pub const MOVDQU_STORE_RM: u32 = 0x8A;
/// `movaps load mr`
pub const MOVAPS_LOAD_MR: u32 = 0x8B;

// ── non-promotable memory: frame-slot + register-indirect ─────────────────
/// `lea dst, [rbp - (slot+1)*8]` — materialize a non-promotable alloca address.
/// `dst` = VReg, `operands[0]` = `Imm(slot_idx)`.
pub const LEA_FRAME_MR: u32 = 0xA0;
/// `mov dst, [ptr_reg]` — 64-bit load through a register-held pointer.
/// `dst` = VReg, `operands[0]` = PReg/VReg (pointer register).
pub const MOV_LOAD_REG_MR: u32 = 0xA1;
/// `mov [ptr_reg], src` — 64-bit store through a register-held pointer.
/// No `dst`. `operands[0]` = PReg/VReg (pointer), `operands[1]` = PReg/VReg (value).
pub const MOV_STORE_REG_RM: u32 = 0xA2;

// ── atomic memory operations ───────────────────────────────────────────────
/// `mfence` — full memory barrier (0F AE F0).
pub const MFENCE: u32 = 0x90;
/// `lock cmpxchg [ptr], new_val` — compare-and-swap (F0 REX.W 0F B1 /r).
/// operands[0]=ptr_preg, operands[1]=RAX (comparand, pre-loaded), operands[2]=new_val_preg.
pub const LOCK_CMPXCHG_MR: u32 = 0x91;
/// `lock xadd [ptr], val` — atomic exchange-add, 64-bit (F0 REX.W 0F C1 /r).
/// operands[0]=ptr_preg, operands[1]=val_preg; old value returned in val_preg.
pub const LOCK_XADD_MR: u32 = 0x92;
/// `lock xadd [ptr], val` — atomic exchange-add, 32-bit (F0 [REX] 0F C1 /r, no REX.W).
/// operands[0]=ptr_preg, operands[1]=val_preg; old value returned in val_preg.
pub const LOCK_XADD32_MR: u32 = 0x9A;
/// `xchg [ptr], val` — atomic exchange, implicitly LOCK (REX.W 87 /r).
/// operands[0]=ptr_preg, operands[1]=val_preg; old value returned in val_preg.
pub const XCHG_MR: u32 = 0x93;
/// `lock and [ptr], val` — atomic bitwise AND (F0 REX.W 21 /r).
/// operands[0]=ptr_preg, operands[1]=val_preg.
pub const LOCK_AND_MR: u32 = 0x94;
/// `lock or [ptr], val` — atomic bitwise OR (F0 REX.W 09 /r).
/// operands[0]=ptr_preg, operands[1]=val_preg.
pub const LOCK_OR_MR: u32 = 0x95;
/// `lock xor [ptr], val` — atomic bitwise XOR (F0 REX.W 31 /r).
/// operands[0]=ptr_preg, operands[1]=val_preg.
pub const LOCK_XOR_MR: u32 = 0x96;

// ── SSE2 scalar double (prefix 66 0F) ─────────────────────────────────────
/// `addsd dst, src`  (66 0F 58 /r)
pub const ADDSD_RR: u32 = 0xB0;
/// `subsd dst, src`  (66 0F 5C /r)
pub const SUBSD_RR: u32 = 0xB1;
/// `mulsd dst, src`  (66 0F 59 /r)
pub const MULSD_RR: u32 = 0xB2;
/// `divsd dst, src`  (66 0F 5E /r)
pub const DIVSD_RR: u32 = 0xB3;
/// `sqrtsd dst, src` (66 0F 51 /r)
pub const SQRTSD_R: u32 = 0xB4;
/// `ucomisd lhs, rhs` (66 0F 2E /r) — sets ZF/PF/CF; used before Jcc for FP branches.
pub const UCOMISD_RR: u32 = 0xB5;
/// `movsd dst, [rbp+disp]` — FP spill reload.  `dst` = VReg, `operands[0]` = `Imm(slot)`.
pub const MOVSD_LOAD_MR: u32 = 0xB6;
/// `movsd [rbp+disp], src` — FP spill store.  `dst` = None, `operands[0]` = `Imm(slot)`, `operands[1]` = VReg/PReg(src).
pub const MOVSD_STORE_RM: u32 = 0xB7;

// ── SSE2 scalar single (prefix F3 0F) ─────────────────────────────────────
/// `addss dst, src`  (F3 0F 58 /r)
pub const ADDSS_RR: u32 = 0xC0;
/// `subss dst, src`  (F3 0F 5C /r)
pub const SUBSS_RR: u32 = 0xC1;
/// `mulss dst, src`  (F3 0F 59 /r)
pub const MULSS_RR: u32 = 0xC2;
/// `divss dst, src`  (F3 0F 5E /r)
pub const DIVSS_RR: u32 = 0xC3;
/// `sqrtss dst, src` (F3 0F 51 /r)
pub const SQRTSS_R: u32 = 0xC4;
/// `ucomiss lhs, rhs` (0F 2E /r) — sets ZF/PF/CF; used before Jcc for FP branches.
pub const UCOMISS_RR: u32 = 0xC5;
/// `movss dst, [rbp+disp]` — FP spill reload (f32).
pub const MOVSS_LOAD_MR: u32 = 0xC6;
/// `movss [rbp+disp], src` — FP spill store (f32).
pub const MOVSS_STORE_RM: u32 = 0xC7;

// ── FP ↔ integer conversions ───────────────────────────────────────────────
/// `cvttsd2si dst, src`  (F2 0F 2C /r) — f64 → i64, truncate toward zero.
pub const CVTTSD2SI_RR: u32 = 0xD0;
/// `cvtsi2sd dst, src`   (F2 0F 2A /r) — i64 → f64.
pub const CVTSI2SD_RR: u32 = 0xD1;
/// `cvttss2si dst, src`  (F3 0F 2C /r) — f32 → i32, truncate toward zero.
pub const CVTTSS2SI_RR: u32 = 0xD2;
/// `cvtsi2ss dst, src`   (F3 0F 2A /r) — i32/i64 → f32.
pub const CVTSI2SS_RR: u32 = 0xD3;
/// `cvtsd2ss dst, src`   (F2 0F 5A /r) — f64 → f32 (FPTrunc).
pub const CVTSD2SS_RR: u32 = 0xD4;
/// `cvtss2sd dst, src`   (F3 0F 5A /r) — f32 → f64 (FPExt).
pub const CVTSS2SD_RR: u32 = 0xD5;

// ── FP copy ────────────────────────────────────────────────────────────────
/// `movapd dst, src` (66 0F 28 /r) — XMM register copy (f64).
pub const MOVAPD_RR: u32 = 0xD6;
/// `movaps dst, src` (0F 28 /r) — XMM register copy (f32).
pub const MOVAPD_RR_F32: u32 = 0xD7;

// ── condition codes (used as Imm operands with JCC / SETCC) ────────────────
/// `cc eq`
pub const CC_EQ: i64 = 0; // je  / jz
/// `cc ne`
pub const CC_NE: i64 = 1; // jne / jnz
/// `cc lt`
pub const CC_LT: i64 = 2; // jl  (signed)
/// `cc le`
pub const CC_LE: i64 = 3; // jle (signed)
/// `cc gt`
pub const CC_GT: i64 = 4; // jg  (signed)
/// `cc ge`
pub const CC_GE: i64 = 5; // jge (signed)
/// `cc ult`
pub const CC_ULT: i64 = 6; // jb  (unsigned below)
/// `cc ule`
pub const CC_ULE: i64 = 7; // jbe (unsigned below-or-equal)
/// `cc ugt`
pub const CC_UGT: i64 = 8; // ja  (unsigned above)
/// `cc uge`
pub const CC_UGE: i64 = 9; // jae (unsigned above-or-equal)

} // verus!
