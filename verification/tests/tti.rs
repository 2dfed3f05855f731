use lib::machine::MOpcode;
use lib::tti::{GenericTti, TargetTransformInfo};

#[test]
fn generic_tti_cost_is_one() {
    let tti = GenericTti;
    assert_eq!(tti.instruction_cost(MOpcode(0)), 1);
    assert_eq!(tti.instruction_cost(MOpcode(0xFF)), 1);
}

#[test]
fn generic_tti_latency_is_one() {
    let tti = GenericTti;
    assert_eq!(tti.instruction_latency(MOpcode(0)), 1);
}

#[test]
fn generic_tti_vector_factor_f64() {
    let tti = GenericTti;
    assert_eq!(tti.vector_factor(64), 2);
}

#[test]
fn generic_tti_vector_factor_f32() {
    let tti = GenericTti;
    assert_eq!(tti.vector_factor(32), 4);
}

#[test]
fn generic_tti_vector_factor_other() {
    let tti = GenericTti;
    assert_eq!(tti.vector_factor(8), 1);
    assert_eq!(tti.vector_factor(16), 1);
}

#[test]
fn generic_tti_unroll_small_body() {
    let tti = GenericTti;
    assert!(tti.unroll_factor(4, None) >= 2);
    assert_eq!(tti.unroll_factor(4, None), 4);
}

#[test]
fn generic_tti_unroll_medium_body() {
    let tti = GenericTti;
    assert_eq!(tti.unroll_factor(12, None), 2);
}

#[test]
fn generic_tti_unroll_large_body() {
    let tti = GenericTti;
    assert_eq!(tti.unroll_factor(64, None), 1);
}

#[test]
fn generic_tti_unroll_with_known_trip_count() {
    let tti = GenericTti;
    assert_eq!(tti.unroll_factor(4, Some(6)), 6);
    assert!(tti.unroll_factor(4, Some(100)) <= 4);
}

#[test]
fn generic_tti_slp_profitable() {
    let tti = GenericTti;
    assert!(tti.slp_profitable(4, 1));
    assert!(tti.slp_profitable(2, 1));
    assert!(!tti.slp_profitable(1, 1));
    assert!(!tti.slp_profitable(0, 1));
}

#[test]
fn generic_tti_memory_op_cost() {
    let tti = GenericTti;
    assert_eq!(tti.memory_op_cost(false, 8), 1);
    assert_eq!(tti.memory_op_cost(true, 8), 1);
}

#[test]
fn generic_tti_unroll_boundaries() {
    let tti = GenericTti;
    assert_eq!(tti.unroll_factor(8, None), 4);
    assert_eq!(tti.unroll_factor(9, None), 2);
    assert_eq!(tti.unroll_factor(16, None), 2);
    assert_eq!(tti.unroll_factor(17, None), 1);
    assert_eq!(tti.unroll_factor(100, Some(8)), 8);
    assert_eq!(tti.unroll_factor(100, Some(0)), 0);
    assert_eq!(tti.unroll_factor(100, Some(9)), 1);
}
