use lib::machine::MOpcode;
use lib::tti::TargetTransformInfo;
use lib::x86::instructions::{ADDSD_RR, ADD_RR, DIVSD_RR, IDIV_R, IMUL_RR, LOCK_CMPXCHG_MR, MFENCE, MOV_RR};
use lib::x86::tti::{x86_latency, X86Profile, X86Tti};

#[test]
fn skylake_div_cost_high() {
    let tti = X86Tti {
        profile: X86Profile::Skylake,
    };
    assert!(
        tti.instruction_cost(MOpcode(IDIV_R)) >= 10,
        "IDIV should have high throughput cost"
    );
}

#[test]
fn skylake_mov_cost_low() {
    let tti = X86Tti {
        profile: X86Profile::Skylake,
    };
    assert_eq!(tti.instruction_cost(MOpcode(MOV_RR)), 1);
}

#[test]
fn skylake_add_cost_low() {
    let tti = X86Tti {
        profile: X86Profile::Skylake,
    };
    assert_eq!(tti.instruction_cost(MOpcode(ADD_RR)), 1);
}

#[test]
fn skylake_imul_cost() {
    let tti = X86Tti {
        profile: X86Profile::Skylake,
    };
    assert_eq!(tti.instruction_cost(MOpcode(IMUL_RR)), 3);
}

#[test]
fn skylake_fp_div_high() {
    let tti = X86Tti {
        profile: X86Profile::Skylake,
    };
    assert!(
        tti.instruction_cost(MOpcode(DIVSD_RR)) >= 8,
        "DIVSD should have high throughput cost"
    );
}

#[test]
fn skylake_fp_add_cost() {
    let tti = X86Tti {
        profile: X86Profile::Skylake,
    };
    assert_eq!(tti.instruction_cost(MOpcode(ADDSD_RR)), 1);
}

#[test]
fn skylake_vector_factor_i32() {
    let tti = X86Tti {
        profile: X86Profile::Skylake,
    };
    assert_eq!(tti.vector_factor(32), 8);
}

#[test]
fn skylake_vector_factor_f64() {
    let tti = X86Tti {
        profile: X86Profile::Skylake,
    };
    assert_eq!(tti.vector_factor(64), 4);
}

#[test]
fn skylake_vector_factor_f32() {
    let tti = X86Tti {
        profile: X86Profile::Skylake,
    };
    assert_eq!(tti.vector_factor(32), 8);
}

#[test]
fn zen4_div_cheaper_than_skylake() {
    let skylake = X86Tti {
        profile: X86Profile::Skylake,
    };
    let zen4 = X86Tti {
        profile: X86Profile::Zen4,
    };
    // Zen4 has better integer division throughput.
    assert!(zen4.instruction_cost(MOpcode(IDIV_R)) <= skylake.instruction_cost(MOpcode(IDIV_R)));
}

#[test]
fn zen4_fp_div_cheaper_than_skylake() {
    let skylake = X86Tti {
        profile: X86Profile::Skylake,
    };
    let zen4 = X86Tti {
        profile: X86Profile::Zen4,
    };
    assert!(zen4.instruction_cost(MOpcode(DIVSD_RR)) <= skylake.instruction_cost(MOpcode(DIVSD_RR)));
}

#[test]
fn latency_reuses_schedule_table() {
    let tti = X86Tti {
        profile: X86Profile::Skylake,
    };
    // IMUL latency should be 3
    assert_eq!(tti.instruction_latency(MOpcode(IMUL_RR)), 3);
    // IDIV latency should be 20
    assert_eq!(tti.instruction_latency(MOpcode(IDIV_R)), 20);
}

#[test]
fn memory_op_cost_aligned() {
    let tti = X86Tti {
        profile: X86Profile::Skylake,
    };
    assert_eq!(tti.memory_op_cost(false, 8), 1);
    assert_eq!(tti.memory_op_cost(true, 8), 1);
}

#[test]
fn memory_op_cost_unaligned() {
    let tti = X86Tti {
        profile: X86Profile::Skylake,
    };
    assert!(tti.memory_op_cost(false, 1) >= 2);
}

#[test]
fn unroll_small_body() {
    let tti = X86Tti {
        profile: X86Profile::Skylake,
    };
    assert!(tti.unroll_factor(4, None) >= 2);
}

#[test]
fn unroll_large_body() {
    let tti = X86Tti {
        profile: X86Profile::Skylake,
    };
    assert_eq!(tti.unroll_factor(32, None), 1);
}

#[test]
fn slp_profitable_enough_ops() {
    let tti = X86Tti {
        profile: X86Profile::Skylake,
    };
    assert!(tti.slp_profitable(4, 1));
    assert!(!tti.slp_profitable(1, 1));
}

#[test]
fn slp_not_profitable_expensive_ops() {
    let tti = X86Tti {
        profile: X86Profile::Skylake,
    };
    // Division chains (cost > 8) are not profitable to SLP
    assert!(!tti.slp_profitable(4, 20));
}

#[test]
fn atomic_cost_high() {
    let tti = X86Tti {
        profile: X86Profile::Skylake,
    };
    assert!(tti.instruction_cost(MOpcode(MFENCE)) >= 10);
    assert!(tti.instruction_cost(MOpcode(LOCK_CMPXCHG_MR)) >= 10);
}

#[test]
fn x86_latency_matches_skylake_costs() {
    let tti = X86Tti { profile: X86Profile::Skylake };
    for op in [ADD_RR, IMUL_RR, IDIV_R, DIVSD_RR, MOV_RR] {
        assert_eq!(x86_latency(MOpcode(op)), tti.instruction_latency(MOpcode(op)));
    }
}
