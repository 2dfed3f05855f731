//! x86-64 cost model: Skylake and Zen 4 reciprocal-throughput tables.

use vstd::prelude::*;
use crate::machine::MOpcode;
use crate::tti::{unroll_heuristic, unroll_rule, TargetTransformInfo};
use crate::x86::instructions::{
    DIV_R, DIVPS_RR, DIVSD_RR, DIVSS_RR, IDIV_R, IMUL_RR, IMUL_RRI, LOCK_AND_MR, LOCK_CMPXCHG_MR,
    LOCK_OR_MR, LOCK_XADD32_MR, LOCK_XADD_MR, LOCK_XOR_MR, MFENCE, PMULLD_RR, SQRTSD_R, SQRTSS_R,
    XCHG_MR,
};

verus! {

/// x86-64 microarchitecture profile.
#[derive(Clone, Copy, Debug, PartialEq, Eq, Structural)]
pub enum X86Profile {
    /// Intel Skylake / Cascade Lake.
    Skylake,
    /// AMD Zen 4.
    Zen4,
    /// Conservative fallback (same costs as Skylake).
    Generic,
}

/// x86-64 cost model for a microarchitecture profile.
pub struct X86Tti {
    /// Profile whose tables are used.
    pub profile: X86Profile,
}

/// Locked read-modify-write operations and fences.
pub open spec fn is_x86_atomic(op: u32) -> bool {
    op == MFENCE || op == LOCK_CMPXCHG_MR || op == LOCK_XADD_MR || op == LOCK_XADD32_MR || op == XCHG_MR
        || op == LOCK_AND_MR || op == LOCK_OR_MR || op == LOCK_XOR_MR
}

/// Floating-point divisions and square roots (scalar and packed single).
pub open spec fn is_x86_fp_div(op: u32) -> bool {
    op == DIVPS_RR || op == DIVSD_RR || op == SQRTSD_R || op == DIVSS_RR || op == SQRTSS_R
}

/// Reciprocal throughput of opcode number `op` on profile `p`; every opcode not
/// singled out here (moves, ALU, shifts, compares, branches, stack, spills,
/// SSE add/multiply, conversions, and unknown opcodes) costs 1.
pub open spec fn x86_cost(p: X86Profile, op: u32) -> u32 {
    if op == IMUL_RR || op == IMUL_RRI {
        3
    } else if op == IDIV_R || op == DIV_R {
        if p == X86Profile::Zen4 { 15 } else { 20 }
    } else if op == PMULLD_RR {
        if p == X86Profile::Zen4 { 3 } else { 5 }
    } else if is_x86_fp_div(op) {
        if p == X86Profile::Zen4 { 8 } else { 10 }
    } else if is_x86_atomic(op) {
        20
    } else {
        1
    }
}

/// Cost of a load with alignment `align`: 1 when aligned to 4 or at least 8
/// bytes, 2 for 2-byte alignment, 4 otherwise.
pub open spec fn x86_load_cost(align: u32) -> u32 {
    if align >= 8 {
        1
    } else if align == 4 {
        1
    } else if align == 2 {
        2
    } else {
        4
    }
}

/// AVX2 (256-bit) vector factor: 16 x i16, 8 x 32-bit, 4 x 64-bit.
pub open spec fn x86_vector_factor(bits: u32) -> u32 {
    if bits == 16 {
        16
    } else if bits == 32 {
        8
    } else if bits == 64 {
        4
    } else {
        1
    }
}

/// Latency of `opcode` for scheduling: the Skylake-profile cost table,
/// which also serves as the latency table (no separate per-opcode latency
/// model is kept).
pub fn x86_latency(opcode: MOpcode) -> (r: u32)
    ensures
        r == x86_cost(X86Profile::Skylake, opcode.0),
{
    let t = X86Tti { profile: X86Profile::Skylake };
    t.cost_of(opcode.0)
}

impl X86Tti {
    fn cost_of(&self, op: u32) -> (r: u32)
        ensures
            r == x86_cost(self.profile, op),
    {
        let zen4 = match self.profile {
            X86Profile::Zen4 => true,
            _ => false,
        };
        if op == IMUL_RR || op == IMUL_RRI {
            3
        } else if op == IDIV_R || op == DIV_R {
            if zen4 { 15 } else { 20 }
        } else if op == PMULLD_RR {
            if zen4 { 3 } else { 5 }
        } else if op == DIVPS_RR || op == DIVSD_RR || op == SQRTSD_R || op == DIVSS_RR || op == SQRTSS_R {
            if zen4 { 8 } else { 10 }
        } else if op == MFENCE || op == LOCK_CMPXCHG_MR || op == LOCK_XADD_MR || op == LOCK_XADD32_MR
            || op == XCHG_MR || op == LOCK_AND_MR || op == LOCK_OR_MR || op == LOCK_XOR_MR {
            20
        } else {
            1
        }
    }
}

impl Default for X86Tti {
    fn default() -> (r: X86Tti)
        ensures
            r.profile == X86Profile::Skylake,
    {
        X86Tti { profile: X86Profile::Skylake }
    }
}

impl TargetTransformInfo for X86Tti {
    fn instruction_cost(&self, opcode: MOpcode) -> (r: u32)
        ensures
            r == x86_cost(self.profile, opcode.0),
    {
        self.cost_of(opcode.0)
    }

    fn instruction_latency(&self, opcode: MOpcode) -> (r: u32)
        ensures
            r == x86_cost(X86Profile::Skylake, opcode.0),
    {
        x86_latency(opcode)
    }

    fn memory_op_cost(&self, is_store: bool, align: u32) -> (r: u32)
        ensures
            r == (if is_store { 1 } else { x86_load_cost(align) }),
    {
        if is_store {
            return 1;
        }
        if align >= 8 {
            1
        } else if align == 4 {
            1
        } else if align == 2 {
            2
        } else {
            4
        }
    }

    fn vector_factor(&self, scalar_bits: u32) -> (r: u32)
        ensures
            r == x86_vector_factor(scalar_bits),
    {
        if scalar_bits == 16 {
            16
        } else if scalar_bits == 32 {
            8
        } else if scalar_bits == 64 {
            4
        } else {
            1
        }
    }

    fn unroll_factor(&self, body_instrs: usize, trip_count: Option<u64>) -> (r: u32)
        ensures
            r == unroll_rule(body_instrs, trip_count),
    {
        unroll_heuristic(body_instrs, trip_count)
    }

    fn slp_profitable(&self, scalar_count: usize, op_cost: u32) -> (r: bool)
        ensures
            r == (scalar_count >= 2 && op_cost <= 8),
    {
        scalar_count >= 2 && op_cost <= 8
    }
}

/// No opcode costs more on Zen 4 than on Skylake, and the generic profile
/// costs exactly what Skylake does.
pub proof fn lemma_x86_profile_order(op: u32)
    ensures
        x86_cost(X86Profile::Zen4, op) <= x86_cost(X86Profile::Skylake, op),
        x86_cost(X86Profile::Generic, op) == x86_cost(X86Profile::Skylake, op),
{
}

/// Where the x86-64 model vectorises, its lanes fill a 256-bit AVX2 register.
pub proof fn lemma_x86_vector_width(bits: u32)
    ensures
        x86_vector_factor(bits) > 1 ==> x86_vector_factor(bits) * bits == 256,
{
    if bits == 16 {
    } else if bits == 32 {
    } else if bits == 64 {
    }
}

} // verus!
