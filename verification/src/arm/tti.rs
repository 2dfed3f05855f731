//! AArch64 cost model: Cortex-A55 and Cortex-A72 reciprocal-throughput tables.

use vstd::prelude::*;
use crate::machine::MOpcode;
use crate::tti::{unroll_heuristic, unroll_rule, TargetTransformInfo};
use crate::arm::instructions::{
    CASAL, DMB_ISH, FADD_RR, FCVTZS_RR, FDIV_RR, FMUL_RR, FSQRT_R, FSUB_RR, LDADDAL, LDCLRAL,
    LDEORAL, LDR, LDR_FP, LDR_FP_SCALAR, LDR_REG, LDSETAL, LDXR, MOVSD_LOAD_MR, MOVSD_STORE_RM,
    MUL_RR, SCVTF_RR, SDIV_RR, STR_FP, STR_FP_SCALAR, STXR, SWPAL, UCVTF_RR, UDIV_RR,
};

verus! {

/// AArch64 microarchitecture profile.
#[derive(Clone, Copy, Debug, PartialEq, Eq, Structural)]
pub enum AArch64Profile {
    /// Cortex-A55 (in-order, low power).
    CortexA55,
    /// Cortex-A72 (out-of-order, high performance).
    CortexA72,
    /// Conservative generic fallback.
    Generic,
}

/// AArch64 cost model for a microarchitecture profile.
pub struct AArch64Tti {
    /// Profile whose tables are used.
    pub profile: AArch64Profile,
}

/// Per-profile cost: `a55` on Cortex-A55, `a72` on Cortex-A72, `generic` otherwise.
pub open spec fn by_profile(p: AArch64Profile, a55: u32, a72: u32, generic: u32) -> u32 {
    match p {
        AArch64Profile::CortexA55 => a55,
        AArch64Profile::CortexA72 => a72,
        AArch64Profile::Generic => generic,
    }
}

/// Loads through the frame or a register, and FP scalar loads/stores.
pub open spec fn is_arm_load(op: u32) -> bool {
    op == LDR || op == LDR_REG || op == LDR_FP || op == STR_FP || op == LDR_FP_SCALAR
        || op == STR_FP_SCALAR || op == MOVSD_LOAD_MR || op == MOVSD_STORE_RM
}

/// Atomic read-modify-write operations with acquire-release semantics.
pub open spec fn is_arm_rmw_atomic(op: u32) -> bool {
    op == CASAL || op == LDADDAL || op == LDCLRAL || op == LDSETAL || op == LDEORAL || op == SWPAL
}

/// Reciprocal throughput of opcode number `op` on profile `p`; every opcode not
/// singled out here costs 1.
pub open spec fn arm_cost(p: AArch64Profile, op: u32) -> u32 {
    if op == MUL_RR {
        3
    } else if op == SDIV_RR || op == UDIV_RR {
        by_profile(p, 8, 10, 8)
    } else if is_arm_load(op) {
        by_profile(p, 3, 4, 4)
    } else if op == DMB_ISH {
        10
    } else if is_arm_rmw_atomic(op) {
        20
    } else if op == LDXR || op == STXR {
        5
    } else if op == FADD_RR || op == FSUB_RR {
        by_profile(p, 2, 9, 4)
    } else if op == FMUL_RR {
        by_profile(p, 4, 9, 4)
    } else if op == FDIV_RR || op == FSQRT_R {
        by_profile(p, 14, 32, 14)
    } else if op == FCVTZS_RR || op == SCVTF_RR || op == UCVTF_RR {
        by_profile(p, 4, 9, 4)
    } else {
        1
    }
}

/// NEON (128-bit) vector factor: 8 x i16, 4 x 32-bit, 2 x 64-bit.
pub open spec fn arm_vector_factor(bits: u32) -> u32 {
    if bits == 16 {
        8
    } else if bits == 32 {
        4
    } else if bits == 64 {
        2
    } else {
        1
    }
}

fn pick(p: AArch64Profile, a55: u32, a72: u32, generic: u32) -> (r: u32)
    ensures
        r == by_profile(p, a55, a72, generic),
{
    match p {
        AArch64Profile::CortexA55 => a55,
        AArch64Profile::CortexA72 => a72,
        AArch64Profile::Generic => generic,
    }
}

impl Default for AArch64Tti {
    fn default() -> (r: AArch64Tti)
        ensures
            r.profile == AArch64Profile::Generic,
    {
        AArch64Tti { profile: AArch64Profile::Generic }
    }
}

impl TargetTransformInfo for AArch64Tti {
    fn instruction_cost(&self, opcode: MOpcode) -> (r: u32)
        ensures
            r == arm_cost(self.profile, opcode.0),
    {
        let op = opcode.0;
        let p = self.profile;
        if op == MUL_RR {
            3
        } else if op == SDIV_RR || op == UDIV_RR {
            pick(p, 8, 10, 8)
        } else if op == LDR || op == LDR_REG || op == LDR_FP || op == STR_FP || op == LDR_FP_SCALAR
            || op == STR_FP_SCALAR || op == MOVSD_LOAD_MR || op == MOVSD_STORE_RM {
            pick(p, 3, 4, 4)
        } else if op == DMB_ISH {
            10
        } else if op == CASAL || op == LDADDAL || op == LDCLRAL || op == LDSETAL || op == LDEORAL
            || op == SWPAL {
            20
        } else if op == LDXR || op == STXR {
            5
        } else if op == FADD_RR || op == FSUB_RR {
            pick(p, 2, 9, 4)
        } else if op == FMUL_RR {
            pick(p, 4, 9, 4)
        } else if op == FDIV_RR || op == FSQRT_R {
            pick(p, 14, 32, 14)
        } else if op == FCVTZS_RR || op == SCVTF_RR || op == UCVTF_RR {
            pick(p, 4, 9, 4)
        } else {
            1
        }
    }

    fn instruction_latency(&self, opcode: MOpcode) -> (r: u32)
        ensures
            r == arm_cost(self.profile, opcode.0),
    {
        self.instruction_cost(opcode)
    }

    fn memory_op_cost(&self, is_store: bool, align: u32) -> (r: u32)
        ensures
            r == (if is_store { 1u32 } else if align >= 8 { 4u32 } else { 6u32 }),
    {
        if is_store {
            1
        } else if align >= 8 {
            4
        } else {
            6
        }
    }

    fn vector_factor(&self, scalar_bits: u32) -> (r: u32)
        ensures
            r == arm_vector_factor(scalar_bits),
    {
        if scalar_bits == 16 {
            8
        } else if scalar_bits == 32 {
            4
        } else if scalar_bits == 64 {
            2
        } else {
            1
        }
    }

    fn unroll_factor(&self, body_instrs: usize, trip_count: Option<u64>) -> (r: u32)
        ensures
            r == unroll_rule(body_instrs, trip_count),
    {
        unroll_heuristic(body_instrs, trip_count)
    }

    fn slp_profitable(&self, scalar_count: usize, op_cost: u32) -> (r: bool)
        ensures
            r == (scalar_count >= 2 && op_cost <= 10),
    {
        scalar_count >= 2 && op_cost <= 10
    }
}

/// No opcode costs more on Cortex-A55 than under the generic profile, nor more
/// under the generic profile than on Cortex-A72.
pub proof fn lemma_arm_profile_order(op: u32)
    ensures
        arm_cost(AArch64Profile::CortexA55, op) <= arm_cost(AArch64Profile::Generic, op),
        arm_cost(AArch64Profile::Generic, op) <= arm_cost(AArch64Profile::CortexA72, op),
{
}

/// Where the AArch64 model vectorises, its lanes fill a 128-bit NEON register.
pub proof fn lemma_arm_vector_width(bits: u32)
    ensures
        arm_vector_factor(bits) > 1 ==> arm_vector_factor(bits) * bits == 128,
{
    if bits == 16 {
    } else if bits == 32 {
    } else if bits == 64 {
    }
}

} // verus!
