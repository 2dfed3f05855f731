use lib::machine::{MInstr, MOpcode, MachineFunction, PReg, VReg};
use lib::object::ObjectFormat;
use lib::riscv::encode::{enc_amo, enc_b, enc_i, enc_j, enc_r, enc_s, enc_u, encode_instr, RiscVEmitter};
use lib::riscv::instructions::{
    ADDI, ADD_RR, AMOADD_D, AMOADD_W, AMOAND_D, AMOAND_W, AMOMAXU_W, AMOMAX_W, AMOMINU_W, AMOMIN_W, AMOOR_D, AMOOR_W, AMOSWAP_D, AMOSWAP_W, AMOXOR_D, AMOXOR_W, AND_RR, AUIPC, BEQ, BGE, BGEU, BLT, BLTU, BNE, DIV_RR, FADD_D, FADD_S, FCMP_EQ_D, FCMP_EQ_S, FCMP_LE_D, FCMP_LE_S, FCMP_LT_D, FCMP_LT_S, FCVT_D_L, FCVT_D_W, FCVT_L_D, FCVT_S_L, FCVT_W_D, FDIV_D, FDIV_S, FENCE, FLD, FMUL_D, FMUL_S, FMV_D_D, FNEG_D, FNEG_S, FSD, FSQRT_D, FSUB_D, FSUB_S, JAL, JALR, LD, LR_D, LR_W, LUI, LW, MOV_IMM, MOV_PR, MOV_RR, MUL_RR, NOP, OR_RR, REM_RR, RET, SC_D, SC_W, SD, SLL_RR, SLTIU, SLTU_RR, SLT_RR, SRA_RR, SRL_RR, SUB_RR, SW, UDIV_RR, UREM_RR, XORI, XOR_RR,
};

fn rr(op: u32) -> MInstr {
    MInstr::new(MOpcode(op))
        .with_dst(VReg(3))
        .with_preg(PReg(1))
        .with_preg(PReg(2))
}

#[test]
fn enc_r_add() {
    assert_eq!(encode_instr(&rr(ADD_RR)), enc_r(0x00, 2, 1, 0, 3, 0x33));
}
#[test]
fn enc_r_sub() {
    assert_eq!(encode_instr(&rr(SUB_RR)), enc_r(0x20, 2, 1, 0, 3, 0x33));
}
#[test]
fn enc_r_mul() {
    assert_eq!(encode_instr(&rr(MUL_RR)), enc_r(0x01, 2, 1, 0, 3, 0x33));
}
#[test]
fn enc_r_div() {
    assert_eq!(encode_instr(&rr(DIV_RR)), enc_r(0x01, 2, 1, 4, 3, 0x33));
}
#[test]
fn enc_r_udiv() {
    assert_eq!(encode_instr(&rr(UDIV_RR)), enc_r(0x01, 2, 1, 5, 3, 0x33));
}
#[test]
fn enc_r_rem() {
    assert_eq!(encode_instr(&rr(REM_RR)), enc_r(0x01, 2, 1, 6, 3, 0x33));
}
#[test]
fn enc_r_urem() {
    assert_eq!(encode_instr(&rr(UREM_RR)), enc_r(0x01, 2, 1, 7, 3, 0x33));
}
#[test]
fn enc_r_and() {
    assert_eq!(encode_instr(&rr(AND_RR)), enc_r(0x00, 2, 1, 7, 3, 0x33));
}
#[test]
fn enc_r_or() {
    assert_eq!(encode_instr(&rr(OR_RR)), enc_r(0x00, 2, 1, 6, 3, 0x33));
}
#[test]
fn enc_r_xor() {
    assert_eq!(encode_instr(&rr(XOR_RR)), enc_r(0x00, 2, 1, 4, 3, 0x33));
}
#[test]
fn enc_r_sll() {
    assert_eq!(encode_instr(&rr(SLL_RR)), enc_r(0x00, 2, 1, 1, 3, 0x33));
}
#[test]
fn enc_r_srl() {
    assert_eq!(encode_instr(&rr(SRL_RR)), enc_r(0x00, 2, 1, 5, 3, 0x33));
}
#[test]
fn enc_r_sra() {
    assert_eq!(encode_instr(&rr(SRA_RR)), enc_r(0x20, 2, 1, 5, 3, 0x33));
}
#[test]
fn enc_r_slt() {
    assert_eq!(encode_instr(&rr(SLT_RR)), enc_r(0x00, 2, 1, 2, 3, 0x33));
}
#[test]
fn enc_r_sltu() {
    assert_eq!(encode_instr(&rr(SLTU_RR)), enc_r(0x00, 2, 1, 3, 3, 0x33));
}

#[test]
fn enc_mov_rr() {
    let mi = MInstr::new(MOpcode(MOV_RR)).with_dst(VReg(3)).with_preg(PReg(1));
    assert_eq!(encode_instr(&mi), enc_i(0, 1, 0, 3, 0x13));
}
#[test]
fn enc_mov_imm() {
    let mi = MInstr::new(MOpcode(MOV_IMM)).with_dst(VReg(3)).with_imm(9);
    assert_eq!(encode_instr(&mi), enc_i(9, 0, 0, 3, 0x13));
}
#[test]
fn enc_mov_pr() {
    let mi = MInstr::new(MOpcode(MOV_PR)).with_preg(PReg(10)).with_preg(PReg(5));
    assert_eq!(encode_instr(&mi), enc_i(0, 5, 0, 10, 0x13));
}

#[test]
fn enc_i_addi() {
    let mi = MInstr::new(MOpcode(ADDI))
        .with_dst(VReg(1))
        .with_preg(PReg(2))
        .with_imm(7);
    assert_eq!(encode_instr(&mi), enc_i(7, 2, 0, 1, 0x13));
}
#[test]
fn enc_i_xori() {
    let mi = MInstr::new(MOpcode(XORI))
        .with_dst(VReg(1))
        .with_preg(PReg(2))
        .with_imm(1);
    assert_eq!(encode_instr(&mi), enc_i(1, 2, 4, 1, 0x13));
}
#[test]
fn enc_i_sltiu() {
    let mi = MInstr::new(MOpcode(SLTIU))
        .with_dst(VReg(1))
        .with_preg(PReg(2))
        .with_imm(1);
    assert_eq!(encode_instr(&mi), enc_i(1, 2, 3, 1, 0x13));
}

#[test]
fn enc_i_lw() {
    let mi = MInstr::new(MOpcode(LW))
        .with_dst(VReg(3))
        .with_preg(PReg(1))
        .with_preg(PReg(0))
        .with_imm(16);
    assert_eq!(encode_instr(&mi), enc_i(16, 1, 2, 3, 0x03));
}
#[test]
fn enc_i_ld() {
    let mi = MInstr::new(MOpcode(LD))
        .with_dst(VReg(3))
        .with_preg(PReg(1))
        .with_preg(PReg(0))
        .with_imm(24);
    assert_eq!(encode_instr(&mi), enc_i(24, 1, 3, 3, 0x03));
}
#[test]
fn enc_s_sw() {
    let mi = MInstr::new(MOpcode(SW))
        .with_preg(PReg(1))
        .with_preg(PReg(2))
        .with_imm(20);
    assert_eq!(encode_instr(&mi), enc_s(20, 2, 1, 2, 0x23));
}
#[test]
fn enc_s_sd() {
    let mi = MInstr::new(MOpcode(SD))
        .with_preg(PReg(1))
        .with_preg(PReg(2))
        .with_imm(28);
    assert_eq!(encode_instr(&mi), enc_s(28, 2, 1, 3, 0x23));
}

#[test]
fn enc_b_beq() {
    let mi = MInstr::new(MOpcode(BEQ))
        .with_preg(PReg(1))
        .with_preg(PReg(2))
        .with_imm(16);
    assert_eq!(encode_instr(&mi), enc_b(16, 2, 1, 0, 0x63));
}
#[test]
fn enc_b_bne() {
    let mi = MInstr::new(MOpcode(BNE))
        .with_preg(PReg(1))
        .with_preg(PReg(2))
        .with_imm(16);
    assert_eq!(encode_instr(&mi), enc_b(16, 2, 1, 1, 0x63));
}
#[test]
fn enc_b_blt() {
    let mi = MInstr::new(MOpcode(BLT))
        .with_preg(PReg(1))
        .with_preg(PReg(2))
        .with_imm(16);
    assert_eq!(encode_instr(&mi), enc_b(16, 2, 1, 4, 0x63));
}
#[test]
fn enc_b_bge() {
    let mi = MInstr::new(MOpcode(BGE))
        .with_preg(PReg(1))
        .with_preg(PReg(2))
        .with_imm(16);
    assert_eq!(encode_instr(&mi), enc_b(16, 2, 1, 5, 0x63));
}
#[test]
fn enc_b_bltu() {
    let mi = MInstr::new(MOpcode(BLTU))
        .with_preg(PReg(1))
        .with_preg(PReg(2))
        .with_imm(16);
    assert_eq!(encode_instr(&mi), enc_b(16, 2, 1, 6, 0x63));
}
#[test]
fn enc_b_bgeu() {
    let mi = MInstr::new(MOpcode(BGEU))
        .with_preg(PReg(1))
        .with_preg(PReg(2))
        .with_imm(16);
    assert_eq!(encode_instr(&mi), enc_b(16, 2, 1, 7, 0x63));
}

#[test]
fn enc_j_jal() {
    let mi = MInstr::new(MOpcode(JAL)).with_dst(VReg(1)).with_imm(32);
    assert_eq!(encode_instr(&mi), enc_j(32, 1, 0x6F));
}
#[test]
fn enc_i_jalr() {
    let mi = MInstr::new(MOpcode(JALR))
        .with_dst(VReg(1))
        .with_preg(PReg(2))
        .with_imm(12);
    assert_eq!(encode_instr(&mi), enc_i(12, 2, 0, 1, 0x67));
}
#[test]
fn enc_ret() {
    assert_eq!(encode_instr(&MInstr::new(MOpcode(RET))), enc_i(0, 1, 0, 0, 0x67));
}

#[test]
fn enc_u_lui() {
    let mi = MInstr::new(MOpcode(LUI)).with_dst(VReg(1)).with_imm(0x12345000);
    assert_eq!(encode_instr(&mi), enc_u(0x12345000, 1, 0x37));
}
#[test]
fn enc_u_auipc() {
    let mi = MInstr::new(MOpcode(AUIPC)).with_dst(VReg(1)).with_imm(0x1000);
    assert_eq!(encode_instr(&mi), enc_u(0x1000, 1, 0x17));
}

#[test]
fn helper_i_sign_wrap() {
    assert_eq!(enc_i(-1, 1, 0, 2, 0x13) >> 20, 0xFFF);
}
#[test]
fn helper_s_splits_imm() {
    assert_eq!((enc_s(0x7F, 2, 1, 0, 0x23) >> 7) & 0x1F, 0x1F);
}
#[test]
fn helper_b_encodes_bit11() {
    assert_eq!((enc_b(0x800, 2, 1, 0, 0x63) >> 7) & 1, 1);
}
#[test]
fn helper_j_encodes_bit20() {
    assert_eq!((enc_j(0x100000, 1, 0x6F) >> 31) & 1, 1);
}
#[test]
fn helper_u_keeps_upper_20() {
    assert_eq!(
        enc_u(0xABCD1000u32 as i32, 1, 0x37) & 0xFFFFF000,
        0xABCD1000
    );
}

#[test]
fn emitter_outputs_words() {
    let mut mf = MachineFunction::new("f".into());
    let b = mf.add_block("entry");
    mf.push(b, rr(ADD_RR));
    mf.push(b, MInstr::new(MOpcode(RET)));
    let mut e = RiscVEmitter::new(ObjectFormat::Elf);
    let sec = e.emit_function(&mf);
    assert_eq!(sec.data.len(), 8);
    assert!(sec.relocs.is_empty());
}

#[test]
fn emitter_branch_patch() {
    let mut mf = MachineFunction::new("f".into());
    let b0 = mf.add_block("b0");
    let b1 = mf.add_block("b1");
    mf.push(b0, MInstr::new(MOpcode(JAL)).with_block(b1));
    mf.push(b1, MInstr::new(MOpcode(RET)));
    let mut e = RiscVEmitter::new(ObjectFormat::Elf);
    let sec = e.emit_function(&mf);
    let w0 = u32::from_le_bytes([sec.data[0], sec.data[1], sec.data[2], sec.data[3]]);
    assert_eq!(w0 & 0x7f, 0x6f);
    assert_ne!(w0 & 0xFFFFF000, 0);
}

#[test]
fn elf_object_has_riscv_machine_type() {
    let mut mf = MachineFunction::new("f".into());
    let b = mf.add_block("entry");
    mf.push(b, MInstr::new(MOpcode(NOP)));
    let mut e = RiscVEmitter::new(ObjectFormat::Elf);
    let sec = e.emit_function(&mf);
    assert_eq!(sec.data.len(), 4);
    assert_eq!(e.elf_machine(), 243, "EM_RISCV");
    assert_eq!(e.object_format(), ObjectFormat::Elf);
}

// ── A-extension encoding tests ─────────────────────────────────────────

#[test]
fn enc_fence_iorw() {
    let mi = MInstr::new(MOpcode(FENCE));
    assert_eq!(encode_instr(&mi), 0x0FF0_000F);
}

#[test]
fn enc_amo_amoadd_w() {
    // amoadd.w.aqrl rd=x1, rs2=x2, (rs1=x3)
    let mi = MInstr::new(MOpcode(AMOADD_W))
        .with_dst(VReg(1))
        .with_preg(PReg(3))
        .with_preg(PReg(2));
    let expected = enc_amo(0b00000, true, true, 2, 3, 0b010, 1);
    assert_eq!(encode_instr(&mi), expected, "amoadd.w encoding mismatch");
}

#[test]
fn enc_amo_lr_w() {
    // lr.w.aqrl rd=x5, (rs1=x1); rs2 must be 0
    let mi = MInstr::new(MOpcode(LR_W)).with_dst(VReg(5)).with_preg(PReg(1));
    let expected = enc_amo(0b00010, true, true, 0, 1, 0b010, 5);
    assert_eq!(encode_instr(&mi), expected);
}

#[test]
fn enc_amo_sc_w() {
    // sc.w.aqrl rd=x1, rs2=x2, (rs1=x3)
    let mi = MInstr::new(MOpcode(SC_W))
        .with_dst(VReg(1))
        .with_preg(PReg(3))
        .with_preg(PReg(2));
    let expected = enc_amo(0b00011, true, true, 2, 3, 0b010, 1);
    assert_eq!(encode_instr(&mi), expected);
}

#[test]
fn enc_amo_amoswap_d() {
    // amoswap.d.aqrl rd=x1, rs2=x3, (rs1=x2) — 64-bit variant
    let mi = MInstr::new(MOpcode(AMOSWAP_D))
        .with_dst(VReg(1))
        .with_preg(PReg(2))
        .with_preg(PReg(3));
    let expected = enc_amo(0b00001, true, true, 3, 2, 0b011, 1);
    assert_eq!(encode_instr(&mi), expected);
}

#[test]
fn enc_amo_amoxor_w() {
    let mi = MInstr::new(MOpcode(AMOXOR_W))
        .with_dst(VReg(2))
        .with_preg(PReg(4))
        .with_preg(PReg(5));
    let expected = enc_amo(0b00100, true, true, 5, 4, 0b010, 2);
    assert_eq!(encode_instr(&mi), expected);
}

#[test]
fn enc_amo_amoand_w() {
    let mi = MInstr::new(MOpcode(AMOAND_W))
        .with_dst(VReg(3))
        .with_preg(PReg(1))
        .with_preg(PReg(2));
    let expected = enc_amo(0b01100, true, true, 2, 1, 0b010, 3);
    assert_eq!(encode_instr(&mi), expected);
}

#[test]
fn enc_amo_amoor_w() {
    let mi = MInstr::new(MOpcode(AMOOR_W))
        .with_dst(VReg(4))
        .with_preg(PReg(5))
        .with_preg(PReg(6));
    let expected = enc_amo(0b01000, true, true, 6, 5, 0b010, 4);
    assert_eq!(encode_instr(&mi), expected);
}

#[test]
fn enc_amo_amomin_w() {
    let mi = MInstr::new(MOpcode(AMOMIN_W))
        .with_dst(VReg(1))
        .with_preg(PReg(2))
        .with_preg(PReg(3));
    let expected = enc_amo(0b10000, true, true, 3, 2, 0b010, 1);
    assert_eq!(encode_instr(&mi), expected);
}

#[test]
fn enc_amo_amomax_w() {
    let mi = MInstr::new(MOpcode(AMOMAX_W))
        .with_dst(VReg(1))
        .with_preg(PReg(2))
        .with_preg(PReg(3));
    let expected = enc_amo(0b10100, true, true, 3, 2, 0b010, 1);
    assert_eq!(encode_instr(&mi), expected);
}

#[test]
fn enc_amo_amominu_w() {
    let mi = MInstr::new(MOpcode(AMOMINU_W))
        .with_dst(VReg(1))
        .with_preg(PReg(2))
        .with_preg(PReg(3));
    let expected = enc_amo(0b11000, true, true, 3, 2, 0b010, 1);
    assert_eq!(encode_instr(&mi), expected);
}

#[test]
fn enc_amo_amomaxu_w() {
    let mi = MInstr::new(MOpcode(AMOMAXU_W))
        .with_dst(VReg(1))
        .with_preg(PReg(2))
        .with_preg(PReg(3));
    let expected = enc_amo(0b11100, true, true, 3, 2, 0b010, 1);
    assert_eq!(encode_instr(&mi), expected);
}

#[test]
fn enc_amo_lr_d() {
    let mi = MInstr::new(MOpcode(LR_D)).with_dst(VReg(5)).with_preg(PReg(1));
    let expected = enc_amo(0b00010, true, true, 0, 1, 0b011, 5);
    assert_eq!(encode_instr(&mi), expected);
}

#[test]
fn enc_amo_sc_d() {
    let mi = MInstr::new(MOpcode(SC_D))
        .with_dst(VReg(1))
        .with_preg(PReg(3))
        .with_preg(PReg(2));
    let expected = enc_amo(0b00011, true, true, 2, 3, 0b011, 1);
    assert_eq!(encode_instr(&mi), expected);
}

#[test]
fn enc_amo_opcode_field() {
    // All AMO instructions must have opcode bits [6:0] = 0x2F
    let opcodes = [
        FENCE, LR_W, SC_W, AMOADD_W, AMOSWAP_W, AMOXOR_W, AMOAND_W, AMOOR_W, AMOMIN_W,
        AMOMAX_W, AMOMINU_W, AMOMAXU_W, LR_D, SC_D, AMOADD_D, AMOSWAP_D, AMOXOR_D, AMOAND_D,
        AMOOR_D,
    ];
    // FENCE is not an AMO instruction; skip it in this check
    let amo_opcodes = &opcodes[1..]; // skip FENCE
    for &op in amo_opcodes {
        let mi = MInstr::new(MOpcode(op))
            .with_dst(VReg(1))
            .with_preg(PReg(2))
            .with_preg(PReg(3));
        let word = encode_instr(&mi);
        assert_eq!(
            word & 0x7F,
            0x2F,
            "opcode 0x{:X} should have AMO opcode 0x2F in bits[6:0], got 0x{:X}",
            op,
            word & 0x7F
        );
    }
}

// ── F+D extension encoding tests ───────────────────────────────────────

/// Build an FP R-type instruction with dst=PReg(fd), rs1=PReg(fs1), rs2=PReg(fs2).
/// FP PRegs are offset by 32: PReg(32+fd), etc.
fn fp_rr(op: u32, fd: u8, fs1: u8, fs2: u8) -> MInstr {
    MInstr::new(MOpcode(op))
        .with_dst(VReg((32 + fd) as u32)) // post-regalloc: VReg holds PReg number
        .with_preg(PReg(32 + fs1))
        .with_preg(PReg(32 + fs2))
}

/// Build a unary FP instruction (one source, one destination).
fn fp_r1(op: u32, fd: u8, fs1: u8) -> MInstr {
    MInstr::new(MOpcode(op))
        .with_dst(VReg((32 + fd) as u32))
        .with_preg(PReg(32 + fs1))
}

#[test]
fn enc_fadd_d_opcode_field() {
    // fadd.d f3, f1, f2: funct7=0x01, funct3=0x7 (RNE), opcode=0x53
    let mi = fp_rr(FADD_D, 3, 1, 2);
    let word = encode_instr(&mi);
    assert_eq!(word & 0x7F, 0x53, "fadd.d opcode must be 0x53");
    assert_eq!((word >> 25) & 0x7F, 0x01, "fadd.d funct7 must be 0x01");
    assert_eq!((word >> 12) & 0x7, 0x7, "fadd.d funct3 must be 0x7 (RNE)");
    assert_eq!(word, enc_r(0x01, 2, 1, 0x7, 3, 0x53));
}

#[test]
fn enc_fsub_d_opcode_field() {
    let mi = fp_rr(FSUB_D, 4, 5, 6);
    let word = encode_instr(&mi);
    assert_eq!(word & 0x7F, 0x53, "fsub.d opcode must be 0x53");
    assert_eq!((word >> 25) & 0x7F, 0x05, "fsub.d funct7 must be 0x05");
    assert_eq!(word, enc_r(0x05, 6, 5, 0x7, 4, 0x53));
}

#[test]
fn enc_fmul_d_opcode_field() {
    let mi = fp_rr(FMUL_D, 0, 1, 2);
    let word = encode_instr(&mi);
    assert_eq!((word >> 25) & 0x7F, 0x09, "fmul.d funct7 must be 0x09");
    assert_eq!(word, enc_r(0x09, 2, 1, 0x7, 0, 0x53));
}

#[test]
fn enc_fdiv_d_opcode_field() {
    let mi = fp_rr(FDIV_D, 0, 1, 2);
    let word = encode_instr(&mi);
    assert_eq!((word >> 25) & 0x7F, 0x0D, "fdiv.d funct7 must be 0x0D");
    assert_eq!(word, enc_r(0x0D, 2, 1, 0x7, 0, 0x53));
}

#[test]
fn enc_fsqrt_d_opcode_field() {
    // fsqrt.d f3, f1: rs2 must be 0
    let mi = fp_r1(FSQRT_D, 3, 1);
    let word = encode_instr(&mi);
    assert_eq!(word & 0x7F, 0x53, "fsqrt.d opcode");
    assert_eq!((word >> 25) & 0x7F, 0x2D, "fsqrt.d funct7 must be 0x2D");
    assert_eq!((word >> 20) & 0x1F, 0, "fsqrt.d rs2 must be 0");
    assert_eq!(word, enc_r(0x2D, 0, 1, 0x7, 3, 0x53));
}

#[test]
fn enc_fneg_d_uses_fsgnjn_encoding() {
    // fneg.d is FSGNJN.D rd, rs, rs: funct7=0x21, funct3=0x1, rs2=rs1
    let mi = MInstr::new(MOpcode(FNEG_D))
        .with_dst(VReg(32 + 0)) // fd=f0
        .with_preg(PReg(32 + 1)) // rs1=f1
        .with_preg(PReg(32 + 1)); // rs2=f1 (same)
    let word = encode_instr(&mi);
    assert_eq!(
        (word >> 25) & 0x7F,
        0x21,
        "fneg.d funct7 must be 0x21 (FSGNJN)"
    );
    assert_eq!((word >> 12) & 0x7, 0x1, "fneg.d funct3 must be 0x1");
    // rs1 == rs2 == 1
    assert_eq!((word >> 15) & 0x1F, 1, "rs1 must be f1");
    assert_eq!((word >> 20) & 0x1F, 1, "rs2 must be f1 (same as rs1)");
}

#[test]
fn enc_feq_d_produces_integer_dest() {
    // feq.d uses integer rd, FP rs1/rs2: funct7=0x51, funct3=0x2
    let mi = MInstr::new(MOpcode(FCMP_EQ_D))
        .with_dst(VReg(3)) // integer rd=x3
        .with_preg(PReg(32 + 0)) // rs1=f0
        .with_preg(PReg(32 + 1)); // rs2=f1
    let word = encode_instr(&mi);
    assert_eq!((word >> 25) & 0x7F, 0x51, "feq.d funct7 must be 0x51");
    assert_eq!((word >> 12) & 0x7, 0x2, "feq.d funct3 must be 0x2");
    assert_eq!((word >> 7) & 0x1F, 3, "feq.d integer rd must be 3");
    assert_eq!(word, enc_r(0x51, 1, 0, 0x2, 3, 0x53));
}

#[test]
fn enc_flt_d_opcode_field() {
    let mi = MInstr::new(MOpcode(FCMP_LT_D))
        .with_dst(VReg(1))
        .with_preg(PReg(32 + 2))
        .with_preg(PReg(32 + 3));
    let word = encode_instr(&mi);
    assert_eq!((word >> 25) & 0x7F, 0x51, "flt.d funct7");
    assert_eq!((word >> 12) & 0x7, 0x1, "flt.d funct3 must be 0x1");
    assert_eq!(word, enc_r(0x51, 3, 2, 0x1, 1, 0x53));
}

#[test]
fn enc_fle_d_opcode_field() {
    let mi = MInstr::new(MOpcode(FCMP_LE_D))
        .with_dst(VReg(1))
        .with_preg(PReg(32 + 4))
        .with_preg(PReg(32 + 5));
    let word = encode_instr(&mi);
    assert_eq!((word >> 12) & 0x7, 0x0, "fle.d funct3 must be 0x0");
    assert_eq!(word, enc_r(0x51, 5, 4, 0x0, 1, 0x53));
}

#[test]
fn enc_fcvt_l_d_funct7_and_rs2() {
    // fcvt.l.d: funct7=0x61, rs2=2 (L), rounding=RTZ=0x1
    let mi = MInstr::new(MOpcode(FCVT_L_D))
        .with_dst(VReg(1)) // integer rd
        .with_preg(PReg(32 + 0)); // fp rs1
    let word = encode_instr(&mi);
    assert_eq!((word >> 25) & 0x7F, 0x61, "fcvt.l.d funct7 must be 0x61");
    assert_eq!((word >> 20) & 0x1F, 2, "fcvt.l.d rs2 must be 2 (L)");
    assert_eq!((word >> 12) & 0x7, 0x1, "fcvt.l.d rounding must be RTZ=0x1");
}

#[test]
fn enc_fcvt_w_d_funct7_and_rs2() {
    // fcvt.w.d: funct7=0x61, rs2=0 (W), rounding=RTZ=0x1
    let mi = MInstr::new(MOpcode(FCVT_W_D))
        .with_dst(VReg(2))
        .with_preg(PReg(32 + 1));
    let word = encode_instr(&mi);
    assert_eq!((word >> 25) & 0x7F, 0x61, "fcvt.w.d funct7");
    assert_eq!((word >> 20) & 0x1F, 0, "fcvt.w.d rs2 must be 0 (W)");
}

#[test]
fn enc_fcvt_d_l_funct7_and_rs2() {
    // fcvt.d.l: funct7=0x69, rs2=2
    let mi = MInstr::new(MOpcode(FCVT_D_L))
        .with_dst(VReg(32 + 0)) // fp rd
        .with_preg(PReg(1)); // int rs1
    let word = encode_instr(&mi);
    assert_eq!((word >> 25) & 0x7F, 0x69, "fcvt.d.l funct7 must be 0x69");
    assert_eq!((word >> 20) & 0x1F, 2, "fcvt.d.l rs2 must be 2 (L)");
    assert_eq!(word & 0x7F, 0x53, "opcode must be 0x53");
}

#[test]
fn enc_fcvt_d_w_funct7_and_rs2() {
    // fcvt.d.w: funct7=0x69, rs2=0
    let mi = MInstr::new(MOpcode(FCVT_D_W))
        .with_dst(VReg(32 + 2))
        .with_preg(PReg(3));
    let word = encode_instr(&mi);
    assert_eq!((word >> 25) & 0x7F, 0x69, "fcvt.d.w funct7 must be 0x69");
    assert_eq!((word >> 20) & 0x1F, 0, "fcvt.d.w rs2 must be 0 (W)");
}

#[test]
fn enc_fmv_d_d_uses_fsgnj_encoding() {
    // fsgnj.d rd, rs, rs: funct7=0x11, funct3=0x0, rs2=rs1
    let mi = MInstr::new(MOpcode(FMV_D_D))
        .with_dst(VReg(32 + 5))
        .with_preg(PReg(32 + 6));
    let word = encode_instr(&mi);
    assert_eq!(
        (word >> 25) & 0x7F,
        0x11,
        "fmv.d funct7 must be 0x11 (FSGNJ)"
    );
    assert_eq!((word >> 12) & 0x7, 0x0, "fmv.d funct3 must be 0x0");
    // Both rs1 and rs2 must be the same source register (f6=6)
    assert_eq!((word >> 15) & 0x1F, 6, "fmv.d rs1 must be f6");
    assert_eq!((word >> 20) & 0x1F, 6, "fmv.d rs2 must be f6 (copy idiom)");
}

#[test]
fn enc_fld_i_type_opcode_and_funct3() {
    // fld f1, 8(x2): opcode=0x07, funct3=0x3
    let mi = MInstr::new(MOpcode(FLD))
        .with_dst(VReg(32 + 1)) // fd=f1
        .with_preg(PReg(2)) // rs1=x2
        .with_imm(8);
    let word = encode_instr(&mi);
    assert_eq!(word & 0x7F, 0x07, "fld opcode must be 0x07");
    assert_eq!((word >> 12) & 0x7, 0x3, "fld funct3 must be 0x3");
    assert_eq!((word >> 20) & 0xFFF, 8, "fld imm must be 8");
    assert_eq!((word >> 7) & 0x1F, 1, "fld rd must be f1=1");
    assert_eq!((word >> 15) & 0x1F, 2, "fld rs1 must be x2");
    assert_eq!(word, enc_i(8, 2, 0x3, 1, 0x07));
}

#[test]
fn enc_fsd_s_type_opcode_and_funct3() {
    // fsd f2, 16(x3): opcode=0x27, funct3=0x3
    let mi = MInstr::new(MOpcode(FSD))
        .with_preg(PReg(3)) // rs1=x3 (base)
        .with_preg(PReg(32 + 2)) // rs2=f2 (source)
        .with_imm(16);
    let word = encode_instr(&mi);
    assert_eq!(word & 0x7F, 0x27, "fsd opcode must be 0x27");
    assert_eq!((word >> 12) & 0x7, 0x3, "fsd funct3 must be 0x3");
    // Verify it matches enc_s
    assert_eq!(word, enc_s(16, 2, 3, 0x3, 0x27));
}

#[test]
fn enc_fp_arith_all_have_opcode_53() {
    // All FP arithmetic instructions must have opcode 0x53.
    let fp_arith_ops = [
        FADD_D, FSUB_D, FMUL_D, FDIV_D, FSQRT_D, FNEG_D, FCMP_EQ_D, FCMP_LT_D, FCMP_LE_D,
        FADD_S, FSUB_S, FMUL_S, FDIV_S, FNEG_S, FCMP_EQ_S, FCMP_LT_S, FCMP_LE_S,
    ];
    for &op in &fp_arith_ops {
        // Build a generic instruction: for compare ops dst is int, for arith dst is fp.
        let mi = if matches!(
            op,
            FCMP_EQ_D | FCMP_LT_D | FCMP_LE_D | FCMP_EQ_S | FCMP_LT_S | FCMP_LE_S
        ) {
            MInstr::new(MOpcode(op))
                .with_dst(VReg(1))
                .with_preg(PReg(32))
                .with_preg(PReg(33))
        } else if matches!(op, FSQRT_D) {
            MInstr::new(MOpcode(op)).with_dst(VReg(32)).with_preg(PReg(33))
        } else if matches!(op, FNEG_D | FNEG_S) {
            MInstr::new(MOpcode(op))
                .with_dst(VReg(32))
                .with_preg(PReg(33))
                .with_preg(PReg(33))
        } else {
            MInstr::new(MOpcode(op))
                .with_dst(VReg(32))
                .with_preg(PReg(33))
                .with_preg(PReg(34))
        };
        let word = encode_instr(&mi);
        assert_eq!(word & 0x7F, 0x53, "FP op {:?} must have opcode 0x53", op);
    }
}

#[test]
fn enc_fadd_s_funct7_is_zero() {
    // fadd.s: funct7=0x00
    let mi = fp_rr(FADD_S, 0, 1, 2);
    let word = encode_instr(&mi);
    assert_eq!((word >> 25) & 0x7F, 0x00, "fadd.s funct7 must be 0x00");
}

#[test]
fn enc_fcvt_s_l_funct7_and_rs2() {
    // fcvt.s.l: funct7=0x68, rs2=2
    let mi = MInstr::new(MOpcode(FCVT_S_L))
        .with_dst(VReg(32 + 0))
        .with_preg(PReg(1));
    let word = encode_instr(&mi);
    assert_eq!((word >> 25) & 0x7F, 0x68, "fcvt.s.l funct7 must be 0x68");
    assert_eq!((word >> 20) & 0x1F, 2, "fcvt.s.l rs2 must be 2");
}
