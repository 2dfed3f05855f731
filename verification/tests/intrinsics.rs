use lib::intrinsics::{is_llvm_intrinsic, lower_intrinsic, OPCODE_LIBCALL, OPCODE_RAW_BYTES};
use lib::machine::{MOpcode, MOperand, MachineFunction};

fn empty_mf() -> MachineFunction {
    let mut mf = MachineFunction::new("test".into());
    mf.add_block("entry");
    mf
}

#[test]
fn recognises_memcpy() {
    assert!(is_llvm_intrinsic("llvm.memcpy.p0.p0.i64"));
}

#[test]
fn recognises_memset() {
    assert!(is_llvm_intrinsic("llvm.memset.p0.i64"));
}

#[test]
fn recognises_memmove() {
    assert!(is_llvm_intrinsic("llvm.memmove.p0.p0.i64"));
}

#[test]
fn recognises_assume() {
    assert!(is_llvm_intrinsic("llvm.assume"));
}

#[test]
fn recognises_trap() {
    assert!(is_llvm_intrinsic("llvm.trap"));
}

#[test]
fn recognises_lifetime() {
    assert!(is_llvm_intrinsic("llvm.lifetime.start.p0"));
    assert!(is_llvm_intrinsic("llvm.lifetime.end.p0"));
}

#[test]
fn rejects_plain_memcpy() {
    assert!(!is_llvm_intrinsic("memcpy"));
}

#[test]
fn rejects_printf() {
    assert!(!is_llvm_intrinsic("printf"));
}

#[test]
fn rejects_empty_string() {
    assert!(!is_llvm_intrinsic(""));
}

#[test]
fn assume_is_nop() {
    let mut mf = empty_mf();
    let handled = lower_intrinsic("llvm.assume", &[], &mut mf, 0);
    assert!(handled);
    assert!(mf.blocks[0].instrs.is_empty(), "assume should emit no instructions");
}

#[test]
fn lifetime_start_is_nop() {
    let mut mf = empty_mf();
    let handled = lower_intrinsic("llvm.lifetime.start.p0", &[], &mut mf, 0);
    assert!(handled);
    assert!(mf.blocks[0].instrs.is_empty());
}

#[test]
fn lifetime_end_is_nop() {
    let mut mf = empty_mf();
    let handled = lower_intrinsic("llvm.lifetime.end.p0", &[], &mut mf, 0);
    assert!(handled);
    assert!(mf.blocks[0].instrs.is_empty());
}

#[test]
fn expect_is_nop() {
    let mut mf = empty_mf();
    let handled = lower_intrinsic("llvm.expect.i1", &[], &mut mf, 0);
    assert!(handled);
    assert!(mf.blocks[0].instrs.is_empty());
}

#[test]
fn trap_emits_ud2() {
    let mut mf = empty_mf();
    let handled = lower_intrinsic("llvm.trap", &[], &mut mf, 0);
    assert!(handled);
    assert_eq!(mf.blocks[0].instrs.len(), 1);
    let instr = &mf.blocks[0].instrs[0];
    assert_eq!(instr.opcode, MOpcode(OPCODE_RAW_BYTES));
    match &instr.operands[0] {
        MOperand::Bytes(b) => assert_eq!(b.as_slice(), &[0x0F, 0x0B]),
        _ => panic!("expected Bytes operand"),
    }
}

#[test]
fn debugtrap_emits_ud2() {
    let mut mf = empty_mf();
    let handled = lower_intrinsic("llvm.debugtrap", &[], &mut mf, 0);
    assert!(handled);
    assert_eq!(mf.blocks[0].instrs.len(), 1);
}

#[test]
fn memcpy_emits_libcall() {
    let mut mf = empty_mf();
    let args = vec![MOperand::Imm(0), MOperand::Imm(1), MOperand::Imm(8)];
    let handled = lower_intrinsic("llvm.memcpy.p0.p0.i64", &args, &mut mf, 0);
    assert!(handled);
    assert_eq!(mf.blocks[0].instrs.len(), 1);
    let instr = &mf.blocks[0].instrs[0];
    assert_eq!(instr.opcode, MOpcode(OPCODE_LIBCALL));
    match &instr.operands[0] {
        MOperand::Bytes(b) => {
            assert!(b.starts_with(b"memcpy"), "callee name must be memcpy");
            assert_eq!(*b.last().unwrap(), 0, "must be null-terminated");
        }
        _ => panic!("first operand must be callee name bytes"),
    }
    assert_eq!(instr.operands.len(), 4, "name + 3 args");
}

#[test]
fn memmove_emits_libcall() {
    let mut mf = empty_mf();
    let handled = lower_intrinsic("llvm.memmove.p0.p0.i64", &[], &mut mf, 0);
    assert!(handled);
    match &mf.blocks[0].instrs[0].operands[0] {
        MOperand::Bytes(b) => assert!(b.starts_with(b"memmove")),
        _ => panic!("expected callee name"),
    }
}

#[test]
fn memset_emits_libcall() {
    let mut mf = empty_mf();
    let handled = lower_intrinsic("llvm.memset.p0.i64", &[], &mut mf, 0);
    assert!(handled);
    match &mf.blocks[0].instrs[0].operands[0] {
        MOperand::Bytes(b) => assert!(b.starts_with(b"memset")),
        _ => panic!("expected callee name"),
    }
}

#[test]
fn unknown_intrinsic_returns_false() {
    let mut mf = empty_mf();
    let handled = lower_intrinsic("llvm.unknown_xyz_42", &[], &mut mf, 0);
    assert!(!handled, "unknown intrinsics must return false");
    assert!(mf.blocks[0].instrs.is_empty(), "no instructions emitted for unknown");
}

#[test]
fn non_intrinsic_returns_false() {
    let mut mf = empty_mf();
    let handled = lower_intrinsic("printf", &[], &mut mf, 0);
    assert!(!handled);
}

#[test]
fn memcpy_libcall_keeps_arguments_in_order() {
    let mut mf = empty_mf();
    let args = vec![MOperand::Imm(7), MOperand::Imm(9)];
    assert!(lower_intrinsic("llvm.memcpy.p0.p0.i64", &args, &mut mf, 0));
    let instr = &mf.blocks[0].instrs[0];
    assert_eq!(instr.operands[0], MOperand::Bytes(b"memcpy\0".to_vec()));
    assert_eq!(instr.operands[1], MOperand::Imm(7));
    assert_eq!(instr.operands[2], MOperand::Imm(9));
    assert!(instr.dst.is_none());
}
