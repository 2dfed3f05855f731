use lib::arm::instructions::{ADD_RR, CASAL, DMB_ISH, FADD_RR, FDIV_RR, MOV_IMM, MOV_RR, MOV_WIDE, MUL_RR, SDIV_RR, SUB_RR, UDIV_RR};
use lib::arm::tti::{AArch64Profile, AArch64Tti};
use lib::machine::MOpcode;
use lib::tti::TargetTransformInfo;

#[test]
fn a55_mul_cost() {
    let tti = AArch64Tti {
        profile: AArch64Profile::CortexA55,
    };
    assert_eq!(tti.instruction_cost(MOpcode(MUL_RR)), 3);
}

#[test]
fn a72_sdiv_cost() {
    let tti = AArch64Tti {
        profile: AArch64Profile::CortexA72,
    };
    assert_eq!(tti.instruction_cost(MOpcode(SDIV_RR)), 10);
}

#[test]
fn a55_sdiv_cheaper_than_a72() {
    let a55 = AArch64Tti {
        profile: AArch64Profile::CortexA55,
    };
    let a72 = AArch64Tti {
        profile: AArch64Profile::CortexA72,
    };
    assert!(a55.instruction_cost(MOpcode(SDIV_RR)) <= a72.instruction_cost(MOpcode(SDIV_RR)));
}

#[test]
fn a55_udiv_cost() {
    let tti = AArch64Tti {
        profile: AArch64Profile::CortexA55,
    };
    assert!(tti.instruction_cost(MOpcode(UDIV_RR)) >= 4);
}

#[test]
fn a72_fp_add_cost() {
    let tti = AArch64Tti {
        profile: AArch64Profile::CortexA72,
    };
    // A72 has higher FP throughput cost than A55 due to longer pipelines
    assert!(tti.instruction_cost(MOpcode(FADD_RR)) >= 1);
}

#[test]
fn a55_fp_div_expensive() {
    let tti = AArch64Tti {
        profile: AArch64Profile::CortexA55,
    };
    assert!(tti.instruction_cost(MOpcode(FDIV_RR)) >= 10);
}

#[test]
fn a72_fp_div_expensive() {
    let tti = AArch64Tti {
        profile: AArch64Profile::CortexA72,
    };
    assert!(tti.instruction_cost(MOpcode(FDIV_RR)) >= 10);
}

#[test]
fn aarch64_vector_factor_f32() {
    let tti = AArch64Tti {
        profile: AArch64Profile::Generic,
    };
    assert_eq!(tti.vector_factor(32), 4);
}

#[test]
fn aarch64_vector_factor_f64() {
    let tti = AArch64Tti {
        profile: AArch64Profile::Generic,
    };
    assert_eq!(tti.vector_factor(64), 2);
}

#[test]
fn aarch64_vector_factor_i16() {
    let tti = AArch64Tti {
        profile: AArch64Profile::Generic,
    };
    assert_eq!(tti.vector_factor(16), 8);
}

#[test]
fn aarch64_unroll_small_body() {
    let tti = AArch64Tti {
        profile: AArch64Profile::Generic,
    };
    assert!(tti.unroll_factor(4, None) >= 2);
    assert_eq!(tti.unroll_factor(4, None), 4);
}

#[test]
fn aarch64_unroll_large_body() {
    let tti = AArch64Tti {
        profile: AArch64Profile::Generic,
    };
    assert_eq!(tti.unroll_factor(32, None), 1);
}

#[test]
fn aarch64_unroll_known_trip_count() {
    let tti = AArch64Tti {
        profile: AArch64Profile::Generic,
    };
    assert_eq!(tti.unroll_factor(4, Some(6)), 6);
}

#[test]
fn aarch64_slp_profitable() {
    let tti = AArch64Tti {
        profile: AArch64Profile::Generic,
    };
    assert!(tti.slp_profitable(4, 5));
    assert!(tti.slp_profitable(2, 10));
    assert!(!tti.slp_profitable(1, 5));
    assert!(!tti.slp_profitable(4, 20));
}

#[test]
fn aarch64_mov_cost_low() {
    let tti = AArch64Tti {
        profile: AArch64Profile::Generic,
    };
    assert_eq!(tti.instruction_cost(MOpcode(MOV_RR)), 1);
    assert_eq!(tti.instruction_cost(MOpcode(MOV_IMM)), 1);
    assert_eq!(tti.instruction_cost(MOpcode(MOV_WIDE)), 1);
}

#[test]
fn aarch64_add_cost_low() {
    let tti = AArch64Tti {
        profile: AArch64Profile::Generic,
    };
    assert_eq!(tti.instruction_cost(MOpcode(ADD_RR)), 1);
    assert_eq!(tti.instruction_cost(MOpcode(SUB_RR)), 1);
}

#[test]
fn aarch64_memory_op_cost_aligned() {
    let tti = AArch64Tti {
        profile: AArch64Profile::Generic,
    };
    assert!(tti.memory_op_cost(false, 8) < tti.memory_op_cost(false, 1));
    assert_eq!(tti.memory_op_cost(true, 8), 1);
}

#[test]
fn aarch64_latency_approx_cost() {
    let tti = AArch64Tti {
        profile: AArch64Profile::CortexA55,
    };
    // Latency should equal cost for AArch64 (approximation)
    assert_eq!(
        tti.instruction_latency(MOpcode(MUL_RR)),
        tti.instruction_cost(MOpcode(MUL_RR))
    );
    assert_eq!(
        tti.instruction_latency(MOpcode(SDIV_RR)),
        tti.instruction_cost(MOpcode(SDIV_RR))
    );
}

#[test]
fn aarch64_atomic_cost_high() {
    let tti = AArch64Tti {
        profile: AArch64Profile::Generic,
    };
    assert!(tti.instruction_cost(MOpcode(CASAL)) >= 10);
    assert!(tti.instruction_cost(MOpcode(DMB_ISH)) >= 5);
}

#[test]
fn aarch64_profile_costs_are_ordered() {
    let a55 = AArch64Tti { profile: AArch64Profile::CortexA55 };
    let generic = AArch64Tti::default();
    let a72 = AArch64Tti { profile: AArch64Profile::CortexA72 };
    for op in [MUL_RR, SDIV_RR, UDIV_RR, FADD_RR, FDIV_RR, CASAL, DMB_ISH, MOV_RR] {
        assert!(a55.instruction_cost(MOpcode(op)) <= generic.instruction_cost(MOpcode(op)));
        assert!(generic.instruction_cost(MOpcode(op)) <= a72.instruction_cost(MOpcode(op)));
    }
}
