//! RV64 calling convention: integer arguments in a0–a7 and FP arguments in
//! fa0–fa7, the rest on the stack in 8-byte slots.

use vstd::prelude::*;
use crate::machine::PReg;
use crate::riscv::regs::{ARG_REGS, FP_ARG_REGS, FP_RET_REG, RET_REG};

verus! {

/// Where an argument is passed.
#[derive(Clone, Copy, Debug, PartialEq, Eq, Structural)]
pub enum ArgLocation {
    /// In this register.
    Reg(PReg),
    /// On the stack at this byte offset from the outgoing-argument area.
    Stack(i32),
}

/// Location of argument `i` when the first eight go to registers starting at
/// register number `first_reg` (consecutive numbers) and the rest to 8-byte
/// stack slots.
pub open spec fn arg_location(i: int, first_reg: int) -> ArgLocation {
    if i < 8 {
        ArgLocation::Reg(PReg((first_reg + i) as u8))
    } else {
        ArgLocation::Stack(((i - 8) * 8) as i32)
    }
}

/// Integer return register (a0 = x10).
pub const INT_RET: u8 = RET_REG;

/// FP return register (fa0 = f10).
pub const FP_RET: u8 = FP_RET_REG;

fn classify(n_args: usize, regs: [u8; 8], first_reg: u8) -> (locs: Vec<ArgLocation>)
    requires
        n_args <= usize::MAX / 8,
        forall|k: int| 0 <= k < 8 ==> regs[k] == first_reg + k,
        first_reg <= 200,
    ensures
        locs@.len() == n_args,
        forall|i: int| 0 <= i < n_args ==> locs@[i] == arg_location(i, first_reg as int),
{
    let mut locs: Vec<ArgLocation> = Vec::new();
    let mut i: usize = 0;
    while i < n_args
        invariant
            i <= n_args,
            n_args <= usize::MAX / 8,
            forall|k: int| 0 <= k < 8 ==> regs[k] == first_reg + k,
            first_reg <= 200,
            locs@.len() == i,
            forall|j: int| 0 <= j < i ==> locs@[j] == arg_location(j, first_reg as int),
        decreases n_args - i,
    {
        if i < 8 {
            locs.push(ArgLocation::Reg(PReg(regs[i])));
        } else {
            locs.push(ArgLocation::Stack(((i - 8) * 8) as i32));
        }
        i = i + 1;
    }
    locs
}

/// Locations of `n_args` integer arguments (RV64 integer ABI).
pub fn classify_rv64_int_args(n_args: usize) -> (locs: Vec<ArgLocation>)
    requires
        n_args <= usize::MAX / 8,
    ensures
        locs@.len() == n_args,
        forall|i: int| 0 <= i < n_args ==> locs@[i] == arg_location(i, 10),
{
    classify(n_args, ARG_REGS, 10)
}

/// Locations of `n_args` floating-point arguments (RV64 hardware FP ABI).
pub fn classify_rv64_fp_args(n_args: usize) -> (locs: Vec<ArgLocation>)
    requires
        n_args <= usize::MAX / 8,
    ensures
        locs@.len() == n_args,
        forall|i: int| 0 <= i < n_args ==> locs@[i] == arg_location(i, 42),
{
    classify(n_args, FP_ARG_REGS, 42)
}

/// Stack slots of consecutive arguments are 8 bytes apart and start at 0, and
/// no two arguments share a location.
pub proof fn lemma_arg_locations_distinct(i: int, j: int, first_reg: int)
    requires
        0 <= i < j <= 0x0fff_ffff,
        0 <= first_reg <= 200,
    ensures
        arg_location(i, first_reg) != arg_location(j, first_reg),
        j >= 8 ==> arg_location(j, first_reg) == ArgLocation::Stack(((j - 8) * 8) as i32),
{
}

} // verus!
