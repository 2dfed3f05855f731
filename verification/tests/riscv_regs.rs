use lib::machine::PReg;
use lib::riscv::regs::{
    fp_enc, is_fp_reg, reg_enc, ALLOCATABLE, ARG_REGS, CALLEE_SAVED, F0, F10, F11, F12, F13, F14, F15, F16, F17, F31,
    FP_ALLOCATABLE, FP_ARG_REGS, FP_RET_REG, RET_REG, X0, X1, X10, X11, X12, X13, X14, X15, X16, X17, X2, X3, X31, X4,
    X8,
};

#[test]
fn arg_regs_are_a0_to_a7() {
    assert_eq!(ARG_REGS, [X10, X11, X12, X13, X14, X15, X16, X17]);
}

#[test]
fn ret_reg_is_a0() {
    assert_eq!(RET_REG, X10);
}

#[test]
fn allocatable_excludes_zero_sp_gp_tp_ra_fp() {
    for r in [X0, X1, X2, X3, X4, X8] {
        assert!(!ALLOCATABLE.contains(&r));
    }
}

#[test]
fn callee_saved_subset_in_allocatable() {
    for r in &CALLEE_SAVED {
        assert!(ALLOCATABLE.contains(r));
    }
}

#[test]
fn fp_reg_numbering() {
    assert_eq!(F0, 32);
    assert_eq!(F31, 63);
    assert_eq!(F10, 42);
}

#[test]
fn fp_enc_returns_hardware_number() {
    assert_eq!(fp_enc(PReg(F0)), 0);
    assert_eq!(fp_enc(PReg(F10)), 10);
    assert_eq!(fp_enc(PReg(F31)), 31);
}

#[test]
fn is_fp_reg_distinguishes_int_fp() {
    assert!(!is_fp_reg(PReg(X0)));
    assert!(!is_fp_reg(PReg(X31)));
    assert!(is_fp_reg(PReg(F0)));
    assert!(is_fp_reg(PReg(F31)));
}

#[test]
fn fp_allocatable_contains_fa0() {
    assert!(FP_ALLOCATABLE.contains(&F10));
}

#[test]
fn fp_ret_reg_is_fa0() {
    assert_eq!(FP_RET_REG, F10);
}

#[test]
fn fp_arg_regs_are_fa0_to_fa7() {
    assert_eq!(FP_ARG_REGS, [F10, F11, F12, F13, F14, F15, F16, F17]);
}

#[test]
fn reg_enc_is_low_five_bits() {
    assert_eq!(reg_enc(PReg(X31)), 31);
    assert_eq!(reg_enc(PReg(F10)), 10);
}
