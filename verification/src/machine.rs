//! Machine-level instruction model shared by the instruction selectors, the
//! intrinsic lowering and the target encoders.

use vstd::prelude::*;

verus! {

/// A target-specific machine opcode number.
#[derive(Clone, Copy, Debug, PartialEq, Eq, Structural)]
pub struct MOpcode(pub u32);

/// A physical register number.
#[derive(Clone, Copy, Debug, PartialEq, Eq, Structural)]
pub struct PReg(pub u8);

/// A virtual register number (after allocation it carries the physical number).
#[derive(Clone, Copy, Debug, PartialEq, Eq, Structural)]
pub struct VReg(pub u32);

/// Source position attached to a machine instruction.
#[derive(Clone, Copy, Debug, PartialEq, Eq, Structural)]
pub struct DebugLoc {
    /// Source line.
    pub line: u32,
    /// Source column.
    pub column: u32,
}

/// An operand of a machine instruction.
#[derive(Clone, Debug, PartialEq, Eq)]
pub enum MOperand {
    /// Immediate value.
    Imm(i64),
    /// Physical register.
    PReg(PReg),
    /// Virtual register.
    VReg(VReg),
    /// Index of a machine basic block (branch target).
    Block(usize),
    /// Raw bytes (callee names, verbatim encodings).
    Bytes(Vec<u8>),
}

/// Mathematical view of an operand.
pub enum OperandView {
    Imm(i64),
    PReg(PReg),
    VReg(VReg),
    Block(usize),
    Bytes(Seq<u8>),
}

impl View for MOperand {
    type V = OperandView;

    open spec fn view(&self) -> OperandView {
        match self {
            MOperand::Imm(v) => OperandView::Imm(*v),
            MOperand::PReg(r) => OperandView::PReg(*r),
            MOperand::VReg(r) => OperandView::VReg(*r),
            MOperand::Block(b) => OperandView::Block(*b),
            MOperand::Bytes(b) => OperandView::Bytes(b@),
        }
    }
}

/// Copy a byte slice into a fresh vector.
pub fn copy_bytes(src: &[u8]) -> (out: Vec<u8>)
    ensures
        out@ == src@,
{
    let mut out: Vec<u8> = Vec::new();
    let mut i: usize = 0;
    while i < src.len()
        invariant
            i <= src.len(),
            out@ == src@.subrange(0, i as int),
        decreases src.len() - i,
    {
        out.push(src[i]);
        i = i + 1;
        assert(out@ =~= src@.subrange(0, i as int));
    }
    assert(out@ =~= src@);
    out
}

/// Append every byte of `src` to `out`.
pub fn append_bytes(out: &mut Vec<u8>, src: &[u8])
    ensures
        final(out)@ == old(out)@ + src@,
{
    let ghost start = out@;
    let mut i: usize = 0;
    while i < src.len()
        invariant
            i <= src.len(),
            start == old(out)@,
            out@ == start + src@.subrange(0, i as int),
        decreases src.len() - i,
    {
        out.push(src[i]);
        i = i + 1;
        assert(out@ =~= start + src@.subrange(0, i as int));
    }
    assert(src@.subrange(0, src@.len() as int) =~= src@);
}

impl MOperand {
    /// An operand equal to `self`.
    pub fn duplicate(&self) -> (r: MOperand)
        ensures
            r@ == self@,
    {
        match self {
            MOperand::Imm(v) => MOperand::Imm(*v),
            MOperand::PReg(r) => MOperand::PReg(*r),
            MOperand::VReg(r) => MOperand::VReg(*r),
            MOperand::Block(b) => MOperand::Block(*b),
            MOperand::Bytes(b) => MOperand::Bytes(copy_bytes(b.as_slice())),
        }
    }
}

/// A machine instruction.
#[derive(Clone, Debug)]
pub struct MInstr {
    /// Opcode.
    pub opcode: MOpcode,
    /// Defined register, if any.
    pub dst: Option<VReg>,
    /// Source operands.
    pub operands: Vec<MOperand>,
    /// Physical registers read implicitly.
    pub phys_uses: Vec<PReg>,
    /// Physical registers the instruction overwrites (a call's clobbers).
    pub clobbers: Vec<PReg>,
    /// Source location, if known.
    pub debug_loc: Option<DebugLoc>,
}

/// Mathematical view of a machine instruction.
pub struct InstrView {
    pub opcode: MOpcode,
    pub dst: Option<VReg>,
    pub operands: Seq<OperandView>,
    pub phys_uses: Seq<PReg>,
    pub clobbers: Seq<PReg>,
    pub debug_loc: Option<DebugLoc>,
}

impl View for MInstr {
    type V = InstrView;

    open spec fn view(&self) -> InstrView {
        InstrView {
            opcode: self.opcode,
            dst: self.dst,
            operands: self.operands@.map_values(|o: MOperand| o@),
            phys_uses: self.phys_uses@,
            clobbers: self.clobbers@,
            debug_loc: self.debug_loc,
        }
    }
}

/// An instruction view with the given opcode and nothing else.
pub open spec fn bare_instr(op: MOpcode) -> InstrView {
    InstrView {
        opcode: op,
        dst: None,
        operands: Seq::empty(),
        phys_uses: Seq::empty(),
        clobbers: Seq::empty(),
        debug_loc: None,
    }
}

impl MInstr {
    /// An instruction with opcode `opcode` and no destination or operands.
    pub fn new(opcode: MOpcode) -> (r: MInstr)
        ensures
            r@ == bare_instr(opcode),
    {
        let r = MInstr {
            opcode,
            dst: None,
            operands: Vec::new(),
            phys_uses: Vec::new(),
            clobbers: Vec::new(),
            debug_loc: None,
        };
        assert(r@.operands =~= Seq::<OperandView>::empty());
        r
    }

    /// Set the destination register.
    pub fn with_dst(self, v: VReg) -> (r: MInstr)
        ensures
            r@ == (InstrView { dst: Some(v), ..self@ }),
    {
        let mut s = self;
        s.dst = Some(v);
        s
    }

    /// Append an operand.
    pub fn with_operand(self, op: MOperand) -> (r: MInstr)
        ensures
            r@ == (InstrView { operands: self@.operands.push(op@), ..self@ }),
    {
        let mut s = self;
        let ghost before = s.operands@;
        s.operands.push(op);
        assert(s.operands@.map_values(|o: MOperand| o@) =~= before.map_values(|o: MOperand| o@).push(op@));
        s
    }

    /// Append a physical-register operand.
    pub fn with_preg(self, r: PReg) -> (out: MInstr)
        ensures
            out@ == (InstrView { operands: self@.operands.push(OperandView::PReg(r)), ..self@ }),
    {
        self.with_operand(MOperand::PReg(r))
    }

    /// Append a virtual-register operand.
    pub fn with_vreg(self, v: VReg) -> (out: MInstr)
        ensures
            out@ == (InstrView { operands: self@.operands.push(OperandView::VReg(v)), ..self@ }),
    {
        self.with_operand(MOperand::VReg(v))
    }

    /// Append an immediate operand.
    pub fn with_imm(self, v: i64) -> (out: MInstr)
        ensures
            out@ == (InstrView { operands: self@.operands.push(OperandView::Imm(v)), ..self@ }),
    {
        self.with_operand(MOperand::Imm(v))
    }

    /// Append a branch-target operand.
    pub fn with_block(self, b: usize) -> (out: MInstr)
        ensures
            out@ == (InstrView { operands: self@.operands.push(OperandView::Block(b)), ..self@ }),
    {
        self.with_operand(MOperand::Block(b))
    }
}

/// A machine basic block.
#[derive(Clone, Debug)]
pub struct MachineBlock {
    /// Block label.
    pub label: String,
    /// Instructions in order.
    pub instrs: Vec<MInstr>,
}

/// Mathematical view of a machine basic block.
pub struct BlockView {
    pub label: Seq<char>,
    pub instrs: Seq<InstrView>,
}

impl View for MachineBlock {
    type V = BlockView;

    open spec fn view(&self) -> BlockView {
        BlockView { label: self.label@, instrs: self.instrs@.map_values(|i: MInstr| i@) }
    }
}

/// A function in machine form: its basic blocks, the virtual registers and
/// frame slots handed out so far, and what register allocation and debug
/// output need to know.
#[derive(Clone, Debug)]
pub struct MachineFunction {
    /// Symbol name.
    pub name: String,
    /// Basic blocks in layout order.
    pub blocks: Vec<MachineBlock>,
    /// Number of the next virtual register to hand out.
    pub next_vreg: u32,
    /// Stack slots, as (size, alignment) in bytes, by slot index.
    pub frame_slots: Vec<(u32, u32)>,
    /// General registers the allocator may use.
    pub allocatable_pregs: Vec<PReg>,
    /// Floating-point registers the allocator may use.
    pub allocatable_fp_pregs: Vec<PReg>,
    /// Registers a callee must preserve.
    pub callee_saved_pregs: Vec<PReg>,
    /// Source file name for debug output.
    pub debug_source: String,
    /// Line of the first instruction that carries a location.
    pub debug_line_start: Option<u32>,
}

/// Mathematical view of a machine function.
pub struct FunctionView {
    pub name: Seq<char>,
    pub blocks: Seq<BlockView>,
    pub next_vreg: u32,
    pub frame_slots: Seq<(u32, u32)>,
    pub allocatable_pregs: Seq<PReg>,
    pub allocatable_fp_pregs: Seq<PReg>,
    pub callee_saved_pregs: Seq<PReg>,
    pub debug_source: Seq<char>,
    pub debug_line_start: Option<u32>,
}

impl View for MachineFunction {
    type V = FunctionView;

    open spec fn view(&self) -> FunctionView {
        FunctionView {
            name: self.name@,
            blocks: self.blocks@.map_values(|b: MachineBlock| b@),
            next_vreg: self.next_vreg,
            frame_slots: self.frame_slots@,
            allocatable_pregs: self.allocatable_pregs@,
            allocatable_fp_pregs: self.allocatable_fp_pregs@,
            callee_saved_pregs: self.callee_saved_pregs@,
            debug_source: self.debug_source@,
            debug_line_start: self.debug_line_start,
        }
    }
}

/// The virtual register after `n`, wrapping at the top of the 32-bit range.
pub open spec fn next_vreg_after(n: u32) -> u32 {
    if n == u32::MAX {
        0
    } else {
        (n + 1) as u32
    }
}

/// A machine function named `name` with nothing in it.
pub open spec fn empty_machine_function(name: Seq<char>) -> FunctionView {
    FunctionView {
        name,
        blocks: Seq::empty(),
        next_vreg: 0,
        frame_slots: Seq::empty(),
        allocatable_pregs: Seq::empty(),
        allocatable_fp_pregs: Seq::empty(),
        callee_saved_pregs: Seq::empty(),
        debug_source: Seq::empty(),
        debug_line_start: None,
    }
}

impl MachineFunction {
    /// A function named `name` with no blocks, no virtual registers, no
    /// frame slots, no register lists and no debug information.
    pub fn new(name: String) -> (r: MachineFunction)
        ensures
            r@ == empty_machine_function(name@),
    {
        let r = MachineFunction {
            name,
            blocks: Vec::new(),
            next_vreg: 0,
            frame_slots: Vec::new(),
            allocatable_pregs: Vec::new(),
            allocatable_fp_pregs: Vec::new(),
            callee_saved_pregs: Vec::new(),
            debug_source: String::new(),
            debug_line_start: None,
        };
        assert(r@.blocks =~= Seq::<BlockView>::empty());
        r
    }

    /// Hand out a new virtual register.
    pub fn fresh_vreg(&mut self) -> (v: VReg)
        ensures
            v == VReg(old(self).next_vreg),
            final(self)@ == (FunctionView { next_vreg: next_vreg_after(old(self).next_vreg), ..old(self)@ }),
    {
        let v = VReg(self.next_vreg);
        self.next_vreg = if self.next_vreg == u32::MAX {
            0
        } else {
            self.next_vreg + 1
        };
        v
    }

    /// Reserve a stack slot of `size` bytes aligned to `align` and return its index.
    pub fn alloc_alloca_slot(&mut self, size: u32, align: u32) -> (idx: usize)
        ensures
            idx == old(self)@.frame_slots.len(),
            final(self)@ == (FunctionView { frame_slots: old(self)@.frame_slots.push((size, align)), ..old(self)@ }),
    {
        let idx = self.frame_slots.len();
        self.frame_slots.push((size, align));
        idx
    }

    /// Append an empty block labelled `label` and return its index.
    pub fn add_block(&mut self, label: &str) -> (idx: usize)
        ensures
            idx == old(self)@.blocks.len(),
            final(self)@ == (FunctionView {
                blocks: old(self)@.blocks.push(BlockView { label: label@, instrs: Seq::empty() }),
                ..old(self)@
            }),
    {
        let idx = self.blocks.len();
        let b = MachineBlock { label: label.to_owned(), instrs: Vec::new() };
        assert(b@.instrs =~= Seq::<InstrView>::empty());
        let ghost before = self.blocks@;
        self.blocks.push(b);
        assert(self.blocks@.map_values(|b: MachineBlock| b@) =~= before.map_values(|b: MachineBlock| b@).push(BlockView { label: label@, instrs: Seq::empty() }));
        idx
    }

    /// Append `instr` to block `block`.
    pub fn push(&mut self, block: usize, instr: MInstr)
        requires
            block < old(self).blocks.len(),
        ensures
            final(self)@ == (FunctionView {
                blocks: old(self)@.blocks.update(
                    block as int,
                    BlockView {
                        label: old(self)@.blocks[block as int].label,
                        instrs: old(self)@.blocks[block as int].instrs.push(instr@),
                    },
                ),
                ..old(self)@
            }),
    {
        let ghost before = self.blocks@;
        let ghost iv = instr@;
        let ghost bi = self.blocks@[block as int];
        self.blocks[block].instrs.push(instr);
        assert(self.blocks@[block as int].instrs@.map_values(|i: MInstr| i@) =~= bi.instrs@.map_values(|i: MInstr| i@).push(iv));
        assert(self.blocks@.map_values(|b: MachineBlock| b@) =~= before.map_values(|b: MachineBlock| b@).update(
            block as int,
            BlockView { label: bi@.label, instrs: bi@.instrs.push(iv) },
        ));
    }
}

} // verus!
