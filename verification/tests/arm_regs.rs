use lib::arm::regs::{
    fp_enc, is_extended, is_fp_reg, reg_enc, reg_name, ALLOCATABLE, ARG_REGS, CALLEE_SAVED, D0, D1, D15, D16, D2,
    D23, D3, D31, D4, D5, D6, D7, FP_ALLOCATABLE, FP_ARG_REGS, FP_CALLEE_SAVED, FP_RET_REG, RET_REG, X0, X1, X19,
    X2, X20, X21, X22, X23, X24, X25, X26, X27, X28, X29, X3, X30, X4, X5, X6, X7, XZR,
};
use lib::machine::PReg;

#[test]
fn allocatable_does_not_contain_x29_x30_xzr() {
    assert!(!ALLOCATABLE.contains(&X29));
    assert!(!ALLOCATABLE.contains(&X30));
    assert!(!ALLOCATABLE.contains(&XZR));
}

#[test]
fn arg_regs_are_x0_through_x7() {
    assert_eq!(ARG_REGS, [X0, X1, X2, X3, X4, X5, X6, X7]);
}

#[test]
fn ret_reg_is_x0() {
    assert_eq!(RET_REG, X0);
}

#[test]
fn reg_enc_low5_bits() {
    assert_eq!(reg_enc(PReg(X0)), 0);
    assert_eq!(reg_enc(PReg(X7)), 7);
    assert_eq!(reg_enc(PReg(XZR)), 31);
    assert_eq!(reg_enc(PReg(XZR)), 31);
}

#[test]
fn allocatable_and_callee_saved_overlap_correctly() {
    for r in &[X19, X20, X21, X22, X23, X24, X25, X26, X27, X28] {
        assert!(ALLOCATABLE.contains(r), "{} missing from ALLOCATABLE", reg_name(PReg(*r)));
        assert!(CALLEE_SAVED.contains(r), "{} missing from CALLEE_SAVED", reg_name(PReg(*r)));
    }
}

#[test]
fn d0_is_preg_32() {
    assert_eq!(PReg(D0), PReg(32));
}

#[test]
fn d31_is_preg_63() {
    assert_eq!(PReg(D31), PReg(63));
}

#[test]
fn is_fp_reg_distinguishes_int_and_fp() {
    assert!(!is_fp_reg(PReg(X0)));
    assert!(!is_fp_reg(PReg(XZR)));
    assert!(is_fp_reg(PReg(D0)));
    assert!(is_fp_reg(PReg(D15)));
    assert!(is_fp_reg(PReg(D31)));
}

#[test]
fn fp_enc_returns_correct_hw_number() {
    assert_eq!(fp_enc(PReg(D0)), 0);
    assert_eq!(fp_enc(PReg(D7)), 7);
    assert_eq!(fp_enc(PReg(D16)), 16);
    assert_eq!(fp_enc(PReg(D31)), 31);
}

#[test]
fn fp_allocatable_contains_caller_saved_only() {
    for r in &FP_CALLEE_SAVED {
        assert!(!FP_ALLOCATABLE.contains(r), "{r:?} is callee-saved but appears in FP_ALLOCATABLE");
    }
    for r in &[D0, D1, D7, D16, D23] {
        assert!(FP_ALLOCATABLE.contains(r), "{r:?} should be in FP_ALLOCATABLE");
    }
}

#[test]
fn fp_arg_regs_are_d0_through_d7() {
    assert_eq!(FP_ARG_REGS, [D0, D1, D2, D3, D4, D5, D6, D7]);
}

#[test]
fn fp_ret_reg_is_d0() {
    assert_eq!(FP_RET_REG, D0);
}

#[test]
fn arm_register_names_and_fields() {
    assert_eq!(reg_name(PReg(X0)), "x0");
    assert_eq!(reg_name(PReg(X29)), "x29");
    assert_eq!(reg_name(PReg(XZR)), "xzr");
    assert_eq!(reg_name(PReg(D5)), "??");
    assert!(is_extended(PReg(X19)));
    assert!(!is_extended(PReg(X7)));
    assert_eq!(reg_enc(PReg(D31)), 31);
}
