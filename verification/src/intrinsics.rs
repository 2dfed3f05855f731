//! Recognition and lowering of LLVM intrinsic calls (`llvm.*`).

use vstd::prelude::*;
use vstd::string::StringSliceAdditionalSpecFns;
use crate::machine::{
    copy_bytes, BlockView, FunctionView, InstrView, MInstr, MOpcode, MOperand, MachineFunction,
    OperandView,
};
use crate::strings::{seq_starts_with, starts_with, str_equal};

verus! {

/// Opcode of a machine instruction whose single `Bytes` operand is emitted verbatim.
pub const OPCODE_RAW_BYTES: u32 = 0xFFFF_FFFE;

/// Opcode of a call to a named library routine; operand 0 is the
/// NUL-terminated callee name, the rest are the call arguments.
pub const OPCODE_LIBCALL: u32 = 0xFFFF_FFFD;

/// Library routine an intrinsic is lowered to.
pub enum LibcallTarget {
    Memcpy,
    Memmove,
    Memset,
}

/// How an intrinsic name is lowered.
pub enum IntrinsicLowering {
    /// A call to a C library routine with the same arguments.
    Libcall(LibcallTarget),
    /// A hint or marker that produces no code.
    Dropped,
    /// An undefined-instruction trap (UD2).
    Trap,
    /// Not recognised; the caller falls back to an ordinary call.
    Unhandled,
}

/// The name of an LLVM intrinsic begins with `llvm.`.
pub open spec fn is_intrinsic_name(name: Seq<char>) -> bool {
    seq_starts_with(name, "llvm."@)
}

/// The lowering chosen for an intrinsic named `name`.
pub open spec fn classify_intrinsic(name: Seq<char>) -> IntrinsicLowering {
    if seq_starts_with(name, "llvm.memcpy"@) {
        IntrinsicLowering::Libcall(LibcallTarget::Memcpy)
    } else if seq_starts_with(name, "llvm.memmove"@) {
        IntrinsicLowering::Libcall(LibcallTarget::Memmove)
    } else if seq_starts_with(name, "llvm.memset"@) {
        IntrinsicLowering::Libcall(LibcallTarget::Memset)
    } else if seq_starts_with(name, "llvm.assume"@) || seq_starts_with(name, "llvm.lifetime.start"@)
        || seq_starts_with(name, "llvm.lifetime.end"@) || seq_starts_with(name, "llvm.expect"@) {
        IntrinsicLowering::Dropped
    } else if name == "llvm.trap"@ || name == "llvm.debugtrap"@ {
        IntrinsicLowering::Trap
    } else {
        IntrinsicLowering::Unhandled
    }
}

/// The C routine name a library-call lowering targets.
pub open spec fn libcall_name(t: LibcallTarget) -> &'static str {
    match t {
        LibcallTarget::Memcpy => "memcpy",
        LibcallTarget::Memmove => "memmove",
        LibcallTarget::Memset => "memset",
    }
}

/// The library-call instruction for callee bytes `name` and arguments `args`.
pub open spec fn libcall_instr(name: Seq<u8>, args: Seq<OperandView>) -> InstrView {
    InstrView {
        opcode: MOpcode(OPCODE_LIBCALL),
        dst: None,
        operands: seq![OperandView::Bytes(name.push(0u8))] + args,
        phys_uses: Seq::empty(),
        clobbers: Seq::empty(),
        debug_loc: None,
    }
}

/// The x86-64 `ud2` trap instruction, carried as raw bytes `0F 0B`.
pub open spec fn ud2_instr() -> InstrView {
    InstrView {
        opcode: MOpcode(OPCODE_RAW_BYTES),
        dst: None,
        operands: seq![OperandView::Bytes(seq![0x0Fu8, 0x0Bu8])],
        phys_uses: Seq::empty(),
        clobbers: Seq::empty(),
        debug_loc: None,
    }
}

/// `mf` after appending `instr` to block `b`.
pub open spec fn with_pushed(mf: FunctionView, b: int, instr: InstrView) -> FunctionView {
    FunctionView {
        blocks: mf.blocks.update(b, BlockView { label: mf.blocks[b].label, instrs: mf.blocks[b].instrs.push(instr) }),
        ..mf
    }
}

/// Does `name` denote an LLVM intrinsic (does it start with `llvm.`)?
pub fn is_llvm_intrinsic(name: &str) -> (r: bool)
    ensures
        r == is_intrinsic_name(name@),
{
    starts_with(name, "llvm.")
}

/// Lower the intrinsic call `name(args)` into block `block` of `mf`.
///
/// Returns `true` when the intrinsic was handled (including ones that produce
/// no code) and `false` when it is not recognised, in which case `mf` is unchanged.
pub fn lower_intrinsic(name: &str, args: &[MOperand], mf: &mut MachineFunction, block: usize) -> (handled: bool)
    requires
        classify_intrinsic(name@) is Libcall || classify_intrinsic(name@) is Trap ==> block < old(mf).blocks.len(),
    ensures
        handled == !(classify_intrinsic(name@) is Unhandled),
        match classify_intrinsic(name@) {
            IntrinsicLowering::Libcall(t) => final(mf)@ == with_pushed(
                old(mf)@,
                block as int,
                libcall_instr(libcall_name(t).spec_bytes(), args@.map_values(|o: MOperand| o@)),
            ),
            IntrinsicLowering::Trap => final(mf)@ == with_pushed(old(mf)@, block as int, ud2_instr()),
            _ => final(mf)@ == old(mf)@,
        },
{
    if starts_with(name, "llvm.memcpy") {
        emit_libcall(mf, block, "memcpy", args);
        return true;
    }
    if starts_with(name, "llvm.memmove") {
        emit_libcall(mf, block, "memmove", args);
        return true;
    }
    if starts_with(name, "llvm.memset") {
        emit_libcall(mf, block, "memset", args);
        return true;
    }
    if starts_with(name, "llvm.assume") || starts_with(name, "llvm.lifetime.start")
        || starts_with(name, "llvm.lifetime.end") || starts_with(name, "llvm.expect") {
        return true;
    }
    if str_equal(name, "llvm.trap") || str_equal(name, "llvm.debugtrap") {
        emit_ud2(mf, block);
        return true;
    }
    false
}

/// Append a call to the C routine `callee` with arguments `args` to block `block`.
fn emit_libcall(mf: &mut MachineFunction, block: usize, callee: &str, args: &[MOperand])
    requires
        block < old(mf).blocks.len(),
    ensures
        final(mf)@ == with_pushed(old(mf)@, block as int, libcall_instr(callee.spec_bytes(), args@.map_values(|o: MOperand| o@))),
{
    let mut instr = MInstr::new(MOpcode(OPCODE_LIBCALL));
    let mut name_bytes = copy_bytes(callee.as_bytes());
    name_bytes.push(0);
    instr = instr.with_operand(MOperand::Bytes(name_bytes));
    let ghost first = instr@.operands;
    let mut i: usize = 0;
    while i < args.len()
        invariant
            i <= args.len(),
            instr@ == libcall_instr(callee.spec_bytes(), args@.subrange(0, i as int).map_values(|o: MOperand| o@)),
        decreases args.len() - i,
    {
        let op = args[i].duplicate();
        instr = instr.with_operand(op);
        i = i + 1;
        assert(args@.subrange(0, i as int).map_values(|o: MOperand| o@) =~= args@.subrange(0, i - 1).map_values(|o: MOperand| o@).push(args@[i - 1]@));
        assert(instr@.operands =~= libcall_instr(callee.spec_bytes(), args@.subrange(0, i as int).map_values(|o: MOperand| o@)).operands);
    }
    assert(args@.subrange(0, args.len() as int) =~= args@);
    mf.push(block, instr);
}

/// Append an x86-64 `ud2` (undefined instruction) to block `block`.
fn emit_ud2(mf: &mut MachineFunction, block: usize)
    requires
        block < old(mf).blocks.len(),
    ensures
        final(mf)@ == with_pushed(old(mf)@, block as int, ud2_instr()),
{
    let instr = MInstr::new(MOpcode(OPCODE_RAW_BYTES));
    let mut bytes: Vec<u8> = Vec::new();
    bytes.push(0x0F);
    bytes.push(0x0B);
    assert(bytes@ =~= seq![0x0Fu8, 0x0Bu8]);
    let instr = instr.with_operand(MOperand::Bytes(bytes));
    assert(instr@.operands =~= ud2_instr().operands);
    mf.push(block, instr);
}

} // verus!
