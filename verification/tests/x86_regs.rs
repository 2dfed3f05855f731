use lib::machine::PReg;
use lib::x86::regs::{
    is_extended, is_fp_reg, reg_enc, reg_name, xmm_enc, xmm_name, ALLOCATABLE, CALLEE_SAVED, FP_ALLOCATABLE, R15, R8, R9,
    RAX, RBP, RDI, RSP, XMM0, XMM15, XMM7, XMM8,
};

#[test]
fn allocatable_does_not_contain_rsp_rbp() {
    assert!(!ALLOCATABLE.contains(&RSP));
    assert!(!ALLOCATABLE.contains(&RBP));
}

#[test]
fn allocatable_and_callee_saved_disjoint() {
    for r in &ALLOCATABLE {
        assert!(!CALLEE_SAVED.contains(r), "{} in both sets", reg_name(PReg(*r)));
    }
}

#[test]
fn reg_enc_low3_bits() {
    assert_eq!(reg_enc(PReg(RAX)), 0);
    assert_eq!(reg_enc(PReg(R8)), 0); // R8 = 8 & 7 = 0
    assert_eq!(reg_enc(PReg(R9)), 1);
    assert_eq!(reg_enc(PReg(RDI)), 7);
}

#[test]
fn extended_flag() {
    assert!(!is_extended(PReg(RAX)));
    assert!(!is_extended(PReg(RDI)));
    assert!(is_extended(PReg(R8)));
    assert!(is_extended(PReg(R15)));
}

#[test]
fn fp_allocatable_is_xmm0_through_xmm7() {
    assert_eq!(FP_ALLOCATABLE.len(), 8);
    assert_eq!(FP_ALLOCATABLE[0], XMM0);
    assert_eq!(FP_ALLOCATABLE[7], XMM7);
}

#[test]
fn is_fp_reg_correct() {
    assert!(!is_fp_reg(PReg(RAX)));
    assert!(!is_fp_reg(PReg(R15)));
    assert!(is_fp_reg(PReg(XMM0)));
    assert!(is_fp_reg(PReg(XMM15)));
}

#[test]
fn xmm_enc_0_to_15() {
    assert_eq!(xmm_enc(PReg(XMM0)), 0);
    assert_eq!(xmm_enc(PReg(XMM7)), 7);
    assert_eq!(xmm_enc(PReg(XMM8)), 8);
    assert_eq!(xmm_enc(PReg(XMM15)), 15);
}

#[test]
fn x86_register_names() {
    assert_eq!(reg_name(PReg(RAX)), "rax");
    assert_eq!(reg_name(PReg(R15)), "r15");
    assert_eq!(xmm_name(PReg(XMM8)), "xmm8");
}
