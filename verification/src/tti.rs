//! Target Transform Info: the per-target cost model that target-independent
//! optimisations (vectorisers, unrolling, hoisting) query.
//!
//! Costs are in approximate cycles: reciprocal throughput for
//! `instruction_cost`, read-after-write latency for `instruction_latency`.

use vstd::prelude::*;
use crate::machine::MOpcode;

verus! {

/// Cost model queried by target-independent optimisations.
pub trait TargetTransformInfo {
    /// Reciprocal throughput (lower = faster) of `opcode`.
    fn instruction_cost(&self, opcode: MOpcode) -> u32;

    /// Read-after-write latency in cycles of `opcode`.
    fn instruction_latency(&self, opcode: MOpcode) -> u32;

    /// Cost of a load (`is_store == false`) or store with the given alignment in bytes.
    fn memory_op_cost(&self, is_store: bool, align: u32) -> u32;

    /// Recommended SIMD factor for `scalar_bits`-wide elements (1 = do not vectorise).
    fn vector_factor(&self, scalar_bits: u32) -> u32;

    /// Recommended unroll count for a loop body of `body_instrs` instructions.
    fn unroll_factor(&self, body_instrs: usize, trip_count: Option<u64>) -> u32;

    /// Is SLP-vectorising `scalar_count` operations of cost `op_cost` profitable?
    fn slp_profitable(&self, scalar_count: usize, op_cost: u32) -> bool;
}

/// The unroll heuristic every target uses: a known trip count of at most 8 is
/// unrolled fully; otherwise 4x for bodies of at most 8 instructions, 2x up to
/// 16, and no unrolling beyond.
pub open spec fn unroll_rule(body_instrs: usize, trip_count: Option<u64>) -> u32 {
    match trip_count {
        Some(n) if n <= 8 => n as u32,
        _ => if body_instrs <= 8 {
            4
        } else if body_instrs <= 16 {
            2
        } else {
            1
        },
    }
}

/// Compute `unroll_rule(body_instrs, trip_count)`.
pub fn unroll_heuristic(body_instrs: usize, trip_count: Option<u64>) -> (r: u32)
    ensures
        r == unroll_rule(body_instrs, trip_count),
{
    if let Some(n) = trip_count {
        if n <= 8 {
            return n as u32;
        }
    }
    if body_instrs <= 8 {
        4
    } else if body_instrs <= 16 {
        2
    } else {
        1
    }
}

/// Conservative fallback cost model for targets without one of their own.
pub struct GenericTti;

/// Generic vector factor: 4 lanes of 32 bits or 2 lanes of 64 bits (128-bit vectors).
pub open spec fn generic_vector_factor(bits: u32) -> u32 {
    if bits == 32 {
        4
    } else if bits == 64 {
        2
    } else {
        1
    }
}

impl TargetTransformInfo for GenericTti {
    fn instruction_cost(&self, _opcode: MOpcode) -> (r: u32)
        ensures
            r == 1,
    {
        1
    }

    fn instruction_latency(&self, _opcode: MOpcode) -> (r: u32)
        ensures
            r == 1,
    {
        1
    }

    fn memory_op_cost(&self, _is_store: bool, _align: u32) -> (r: u32)
        ensures
            r == 1,
    {
        1
    }

    fn vector_factor(&self, scalar_bits: u32) -> (r: u32)
        ensures
            r == generic_vector_factor(scalar_bits),
    {
        if scalar_bits == 32 {
            4
        } else if scalar_bits == 64 {
            2
        } else {
            1
        }
    }

    fn unroll_factor(&self, body_instrs: usize, trip_count: Option<u64>) -> (r: u32)
        ensures
            r == unroll_rule(body_instrs, trip_count),
    {
        unroll_heuristic(body_instrs, trip_count)
    }

    fn slp_profitable(&self, scalar_count: usize, _op_cost: u32) -> (r: bool)
        ensures
            r == (scalar_count >= 2),
    {
        scalar_count >= 2
    }
}

/// A loop with a known trip count of at most 8 is unrolled exactly that many
/// times, and any other unroll factor is between 1 and 4.
pub proof fn lemma_unroll_rule(body_instrs: usize, trip_count: Option<u64>)
    ensures
        (trip_count matches Some(n) && n <= 8) ==> unroll_rule(body_instrs, trip_count) == trip_count->0,
        !(trip_count matches Some(n) && n <= 8) ==> 1 <= unroll_rule(body_instrs, trip_count) <= 4,
        !(trip_count matches Some(n) && n <= 8) && body_instrs > 16 ==> unroll_rule(body_instrs, trip_count) == 1,
{
}

/// Where the generic model vectorises, its lanes fill a 128-bit register.
pub proof fn lemma_generic_vector_width(bits: u32)
    ensures
        generic_vector_factor(bits) > 1 ==> generic_vector_factor(bits) * bits == 128,
{
    if bits == 32 {
    } else if bits == 64 {
    }
}

} // verus!
