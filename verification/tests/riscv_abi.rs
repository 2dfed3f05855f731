use lib::machine::PReg;
use lib::riscv::abi::{classify_rv64_fp_args, classify_rv64_int_args, ArgLocation, FP_RET, INT_RET};
use lib::riscv::regs::{F10, F11, F12, F13, F14, F15, F16, F17, X10, X11, X12, X13, X14, X15, X16, X17};

#[test]
fn first_eight_go_to_a0_a7() {
    let locs = classify_rv64_int_args(8);
    assert_eq!(locs[0], ArgLocation::Reg(PReg(X10)));
    assert_eq!(locs[1], ArgLocation::Reg(PReg(X11)));
    assert_eq!(locs[2], ArgLocation::Reg(PReg(X12)));
    assert_eq!(locs[3], ArgLocation::Reg(PReg(X13)));
    assert_eq!(locs[4], ArgLocation::Reg(PReg(X14)));
    assert_eq!(locs[5], ArgLocation::Reg(PReg(X15)));
    assert_eq!(locs[6], ArgLocation::Reg(PReg(X16)));
    assert_eq!(locs[7], ArgLocation::Reg(PReg(X17)));
}

#[test]
fn ninth_arg_on_stack_0() {
    let locs = classify_rv64_int_args(9);
    assert_eq!(locs[8], ArgLocation::Stack(0));
}

#[test]
fn tenth_arg_on_stack_8() {
    let locs = classify_rv64_int_args(10);
    assert_eq!(locs[9], ArgLocation::Stack(8));
}

#[test]
fn zero_args_empty() {
    assert!(classify_rv64_int_args(0).is_empty());
}

#[test]
fn fp_first_eight_go_to_fa0_fa7() {
    let locs = classify_rv64_fp_args(8);
    assert_eq!(locs[0], ArgLocation::Reg(PReg(F10)));
    assert_eq!(locs[1], ArgLocation::Reg(PReg(F11)));
    assert_eq!(locs[2], ArgLocation::Reg(PReg(F12)));
    assert_eq!(locs[3], ArgLocation::Reg(PReg(F13)));
    assert_eq!(locs[4], ArgLocation::Reg(PReg(F14)));
    assert_eq!(locs[5], ArgLocation::Reg(PReg(F15)));
    assert_eq!(locs[6], ArgLocation::Reg(PReg(F16)));
    assert_eq!(locs[7], ArgLocation::Reg(PReg(F17)));
}

#[test]
fn fp_ninth_arg_on_stack() {
    let locs = classify_rv64_fp_args(9);
    assert_eq!(locs[8], ArgLocation::Stack(0));
}

#[test]
fn fp_ret_is_fa0() {
    assert_eq!(FP_RET, F10);
}

#[test]
fn abi_stack_slots_are_eight_bytes_apart_and_distinct() {
    assert_eq!(INT_RET, X10);
    let locs = classify_rv64_int_args(12);
    assert_eq!(locs.len(), 12);
    assert_eq!(locs[11], ArgLocation::Stack(24));
    for i in 0..locs.len() {
        for j in (i + 1)..locs.len() {
            assert_ne!(locs[i], locs[j]);
        }
    }
}
