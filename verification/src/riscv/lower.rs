//! RV64 IR -> machine-IR lowering.
//!
//! Every IR value gets a virtual register the first time it is defined or
//! used (a constant is materialised with `mov.imm` where it is first used);
//! each IR instruction becomes a short sequence of RISC-V machine
//! instructions carrying its source location; phi nodes become copies on the
//! incoming edges, and a conditional branch gets one edge block per target.

use vstd::prelude::*;
use crate::intrinsics::with_pushed;
use crate::ir::{
    ids_in_range, BinOp, BlockId, ConstantData, Context, FuncView, Function, InstrId, InstrKind, IntPredicate, KindView, Module,
    RmwOp, TypeData, TypeId, ValueRef,
};
use crate::machine::{
    bare_instr, empty_machine_function, next_vreg_after, BlockView, DebugLoc, FunctionView, InstrView, MInstr, MOpcode,
    MachineFunction, OperandView, PReg, VReg,
};
use crate::riscv::abi::{arg_location, classify_rv64_int_args, ArgLocation, INT_RET};
use crate::riscv::instructions::{
    ADDI_FP_SLOT, ADD_RR, AMOADD_D, AMOADD_W, AMOAND_D, AMOAND_W, AMOMAXU_W, AMOMAX_W, AMOMINU_W, AMOMIN_W, AMOOR_D, AMOOR_W,
    AMOSWAP_D, AMOSWAP_W, AMOXOR_D, AMOXOR_W, AND_RR, BEQ, DIV_RR, FENCE, JAL, JALR, LD_REG, LR_D, LR_W, MOV_IMM, MOV_PR, MOV_RR,
    MUL_RR, NOP, OR_RR, REM_RR, RET, SC_D, SC_W, SD, SD_REG, SLL_RR, SLTIU, SLTU_RR, SLT_RR, SRA_RR, SRL_RR, SUB_RR, UDIV_RR,
    UREM_RR, XORI, XOR_RR,
};
use crate::riscv::encode::{amo_table, isa_alu_funct};
use crate::riscv::regs::{ALLOCATABLE, CALLEE_SAVED, X0};
use vstd::string::StringExecFns;

verus! {

/// `mov preg <- src`.
pub open spec fn mov_to_preg_instr(preg: PReg, src: VReg) -> InstrView {
    InstrView {
        operands: seq![OperandView::PReg(preg), OperandView::VReg(src)],
        ..bare_instr(MOpcode(MOV_PR))
    }
}

/// `mov dst <- preg`, recording the implicit read of `preg`.
pub open spec fn mov_from_preg_instr(dst: VReg, preg: PReg) -> InstrView {
    InstrView {
        dst: Some(dst),
        operands: seq![OperandView::PReg(preg)],
        phys_uses: seq![preg],
        ..bare_instr(MOpcode(MOV_RR))
    }
}

// ── instruction builders, as specs ─────────────────────────────────────────

/// A new machine instruction with opcode `op`.
pub open spec fn mi_new(op: u32) -> InstrView {
    bare_instr(MOpcode(op))
}

/// `i` with destination `v`.
pub open spec fn mi_dst(i: InstrView, v: VReg) -> InstrView {
    InstrView { dst: Some(v), ..i }
}

/// `i` with virtual-register operand `v` appended.
pub open spec fn mi_vreg(i: InstrView, v: VReg) -> InstrView {
    InstrView { operands: i.operands.push(OperandView::VReg(v)), ..i }
}

/// `i` with physical-register operand `r` appended.
pub open spec fn mi_preg(i: InstrView, r: PReg) -> InstrView {
    InstrView { operands: i.operands.push(OperandView::PReg(r)), ..i }
}

/// `i` with immediate operand `x` appended.
pub open spec fn mi_imm(i: InstrView, x: i64) -> InstrView {
    InstrView { operands: i.operands.push(OperandView::Imm(x)), ..i }
}

/// `i` with branch-target operand `b` appended.
pub open spec fn mi_block(i: InstrView, b: usize) -> InstrView {
    InstrView { operands: i.operands.push(OperandView::Block(b)), ..i }
}

/// `op dst, a, b` on virtual registers.
pub open spec fn op3(op: u32, dst: VReg, a: VReg, b: VReg) -> InstrView {
    mi_vreg(mi_vreg(mi_dst(mi_new(op), dst), a), b)
}

/// `op dst, a` on virtual registers.
pub open spec fn op2(op: u32, dst: VReg, a: VReg) -> InstrView {
    mi_vreg(mi_dst(mi_new(op), dst), a)
}

/// `op dst, a, imm`.
pub open spec fn op2i(op: u32, dst: VReg, a: VReg, x: i64) -> InstrView {
    mi_imm(mi_vreg(mi_dst(mi_new(op), dst), a), x)
}

/// `op dst, imm`.
pub open spec fn op1i(op: u32, dst: VReg, x: i64) -> InstrView {
    mi_imm(mi_dst(mi_new(op), dst), x)
}

fn ins3(op: u32, dst: VReg, a: VReg, b: VReg) -> (r: MInstr)
    ensures
        r@ == op3(op, dst, a, b),
{
    MInstr::new(MOpcode(op)).with_dst(dst).with_vreg(a).with_vreg(b)
}

fn ins2(op: u32, dst: VReg, a: VReg) -> (r: MInstr)
    ensures
        r@ == op2(op, dst, a),
{
    MInstr::new(MOpcode(op)).with_dst(dst).with_vreg(a)
}

fn ins2i(op: u32, dst: VReg, a: VReg, x: i64) -> (r: MInstr)
    ensures
        r@ == op2i(op, dst, a, x),
{
    MInstr::new(MOpcode(op)).with_dst(dst).with_vreg(a).with_imm(x)
}

fn ins1i(op: u32, dst: VReg, x: i64) -> (r: MInstr)
    ensures
        r@ == op1i(op, dst, x),
{
    MInstr::new(MOpcode(op)).with_dst(dst).with_imm(x)
}

// ── lowering state ─────────────────────────────────────────────────────────

/// What lowering has built so far: the machine function, the virtual
/// register of each IR value seen (a later entry for a value overrides an
/// earlier one), and the source location of the IR instruction being
/// lowered.
pub struct LowerState {
    pub mf: MachineFunction,
    pub vmap: Vec<(ValueRef, VReg)>,
    pub loc: Option<DebugLoc>,
}

/// Mathematical view of the lowering state.
pub struct LowerView {
    pub mf: FunctionView,
    pub vmap: Seq<(ValueRef, VReg)>,
    pub loc: Option<DebugLoc>,
}

impl View for LowerState {
    type V = LowerView;

    open spec fn view(&self) -> LowerView {
        LowerView { mf: self.mf@, vmap: self.vmap@, loc: self.loc }
    }
}

/// The virtual register of `k`: its last entry in `m`.
pub open spec fn vlookup(m: Seq<(ValueRef, VReg)>, k: ValueRef) -> Option<VReg>
    decreases m.len(),
{
    if m.len() == 0 {
        None
    } else if m.last().0 == k {
        Some(m.last().1)
    } else {
        vlookup(m.drop_last(), k)
    }
}

/// A new virtual register.
pub open spec fn fresh(s: LowerView) -> (LowerView, VReg) {
    (LowerView { mf: FunctionView { next_vreg: next_vreg_after(s.mf.next_vreg), ..s.mf }, ..s }, VReg(s.mf.next_vreg))
}

/// `k` now lives in `v`.
pub open spec fn bind(s: LowerView, k: ValueRef, v: VReg) -> LowerView {
    LowerView { vmap: s.vmap.push((k, v)), ..s }
}

/// `i`, with the current source location, appended to block `b`.
pub open spec fn emit(s: LowerView, b: int, i: InstrView) -> LowerView {
    LowerView { mf: with_pushed(s.mf, b, InstrView { debug_loc: s.loc, ..i }), ..s }
}

/// The immediate a constant is materialised as.
pub open spec fn const_imm(c: ConstantData) -> i64 {
    match c {
        ConstantData::Int { val, .. } => val as i64,
        ConstantData::Float { bits } => bits as i64,
        _ => 0,
    }
}

/// The register of `v`, giving it a new one when it has none; a constant
/// that gets one is loaded into it in block `b`.
pub open spec fn resolve(s: LowerView, consts: Seq<ConstantData>, b: int, v: ValueRef) -> (LowerView, VReg) {
    match vlookup(s.vmap, v) {
        Some(r) => (s, r),
        None => {
            let (s1, r) = fresh(s);
            let s2 = bind(s1, v, r);
            match v {
                ValueRef::Constant(c) => (emit(s2, b, op1i(MOV_IMM, r, const_imm(consts[c.0 as int]))), r),
                _ => (s2, r),
            }
        },
    }
}

/// A new register for the result of instruction `iid`.
pub open spec fn new_dst(s: LowerView, iid: InstrId) -> (LowerView, VReg) {
    let (s1, v) = fresh(s);
    (bind(s1, ValueRef::Instruction(iid), v), v)
}

/// A constant operand names a constant of the pool.
pub open spec fn const_ref_ok(v: ValueRef, nc: nat) -> bool {
    match v {
        ValueRef::Constant(c) => c.0 < nc,
        _ => true,
    }
}

impl LowerState {
    /// A new virtual register.
    pub fn fresh_vreg(&mut self) -> (v: VReg)
        ensures
            (final(self)@, v) == fresh(old(self)@),
    {
        self.mf.fresh_vreg()
    }

    /// Record that `k` lives in `v`.
    pub fn bind(&mut self, k: ValueRef, v: VReg)
        ensures
            final(self)@ == bind(old(self)@, k, v),
    {
        self.vmap.push((k, v));
    }

    /// The register `k` lives in, if any.
    pub fn lookup(&self, k: ValueRef) -> (r: Option<VReg>)
        ensures
            r == vlookup(self@.vmap, k),
    {
        let mut i = self.vmap.len();
        assert(self.vmap@.take(i as int) =~= self.vmap@);
        while i > 0
            invariant
                i <= self.vmap@.len(),
                vlookup(self.vmap@, k) == vlookup(self.vmap@.take(i as int), k),
            decreases i,
        {
            let (key, v) = self.vmap[i - 1];
            assert(self.vmap@.take(i as int).drop_last() =~= self.vmap@.take(i - 1));
            if key == k {
                return Some(v);
            }
            i = i - 1;
        }
        None
    }

    /// Append `instr`, with the current source location, to block `b`.
    pub fn emit(&mut self, b: usize, instr: MInstr)
        requires
            b < old(self)@.mf.blocks.len(),
        ensures
            final(self)@ == emit(old(self)@, b as int, instr@),
    {
        let mut i = instr;
        i.debug_loc = self.loc;
        self.mf.push(b, i);
    }

    /// The register of `v` (see `resolve`).
    pub fn resolve(&mut self, consts: &Vec<ConstantData>, b: usize, v: ValueRef) -> (r: VReg)
        requires
            b < old(self)@.mf.blocks.len(),
            const_ref_ok(v, consts@.len()),
        ensures
            (final(self)@, r) == resolve(old(self)@, consts@, b as int, v),
    {
        match self.lookup(v) {
            Some(r) => r,
            None => {
                let r = self.fresh_vreg();
                self.bind(v, r);
                if let ValueRef::Constant(c) = v {
                    let imm = match consts[c.0 as usize] {
                        ConstantData::Int { val, .. } => val as i64,
                        ConstantData::Float { bits } => bits as i64,
                        _ => 0,
                    };
                    self.emit(b, ins1i(MOV_IMM, r, imm));
                }
                r
            },
        }
    }

    /// A new register for the result of `iid`.
    pub fn new_dst(&mut self, iid: InstrId) -> (v: VReg)
        ensures
            (final(self)@, v) == new_dst(old(self)@, iid),
    {
        let v = self.fresh_vreg();
        self.bind(ValueRef::Instruction(iid), v);
        v
    }
}

/// Append a move of virtual register `src` into physical register `preg`
/// to block `mblock`, with the current source location.
pub fn emit_mov_to_preg(st: &mut LowerState, mblock: usize, preg: PReg, src: VReg)
    requires
        mblock < old(st)@.mf.blocks.len(),
    ensures
        final(st)@ == emit(old(st)@, mblock as int, mov_to_preg_instr(preg, src)),
{
    let mi = MInstr::new(MOpcode(MOV_PR)).with_preg(preg).with_vreg(src);
    assert(mi@.operands =~= seq![OperandView::PReg(preg), OperandView::VReg(src)]);
    st.emit(mblock, mi);
}

/// Append a move of physical register `preg` into virtual register `dst`
/// to block `mblock`, with the current source location.
pub fn emit_mov_from_preg(st: &mut LowerState, mblock: usize, dst: VReg, preg: PReg)
    requires
        mblock < old(st)@.mf.blocks.len(),
    ensures
        final(st)@ == emit(old(st)@, mblock as int, mov_from_preg_instr(dst, preg)),
{
    let mut mi = MInstr::new(MOpcode(MOV_RR)).with_dst(dst).with_preg(preg);
    mi.phys_uses = vec![preg];
    assert(mi@.operands =~= seq![OperandView::PReg(preg)]);
    assert(mi@.phys_uses =~= seq![preg]);
    st.emit(mblock, mi);
}

// ── comparisons ────────────────────────────────────────────────────────────

/// `dst = (lhs pred rhs) ? 1 : 0`, in block `b`.
pub open spec fn compare_to_bool(s: LowerView, pred: IntPredicate, lhs: VReg, rhs: VReg, b: int, dst: VReg) -> LowerView {
    match pred {
        IntPredicate::Eq => {
            let (s1, t) = fresh(s);
            emit(emit(s1, b, op3(XOR_RR, t, lhs, rhs)), b, op2i(SLTIU, dst, t, 1))
        },
        IntPredicate::Ne => {
            let (s1, t) = fresh(s);
            emit(emit(s1, b, op3(XOR_RR, t, lhs, rhs)), b, mi_vreg(mi_preg(mi_dst(mi_new(SLTU_RR), dst), PReg(X0)), t))
        },
        IntPredicate::Slt => emit(s, b, op3(SLT_RR, dst, lhs, rhs)),
        IntPredicate::Sle => {
            let (s1, t) = fresh(s);
            emit(emit(s1, b, op3(SLT_RR, t, rhs, lhs)), b, op2i(XORI, dst, t, 1))
        },
        IntPredicate::Sgt => emit(s, b, op3(SLT_RR, dst, rhs, lhs)),
        IntPredicate::Sge => {
            let (s1, t) = fresh(s);
            emit(emit(s1, b, op3(SLT_RR, t, lhs, rhs)), b, op2i(XORI, dst, t, 1))
        },
        IntPredicate::Ult => emit(s, b, op3(SLTU_RR, dst, lhs, rhs)),
        IntPredicate::Ule => {
            let (s1, t) = fresh(s);
            emit(emit(s1, b, op3(SLTU_RR, t, rhs, lhs)), b, op2i(XORI, dst, t, 1))
        },
        IntPredicate::Ugt => emit(s, b, op3(SLTU_RR, dst, rhs, lhs)),
        IntPredicate::Uge => {
            let (s1, t) = fresh(s);
            emit(emit(s1, b, op3(SLTU_RR, t, lhs, rhs)), b, op2i(XORI, dst, t, 1))
        },
    }
}

/// Lower an integer comparison to a 0/1 value in `dst` (see `compare_to_bool`).
pub fn lower_compare_to_bool(st: &mut LowerState, pred: IntPredicate, lhs: VReg, rhs: VReg, b: usize, dst: VReg)
    requires
        b < old(st)@.mf.blocks.len(),
    ensures
        final(st)@ == compare_to_bool(old(st)@, pred, lhs, rhs, b as int, dst),
{
    match pred {
        IntPredicate::Eq => {
            let t = st.fresh_vreg();
            st.emit(b, ins3(XOR_RR, t, lhs, rhs));
            st.emit(b, ins2i(SLTIU, dst, t, 1));
        },
        IntPredicate::Ne => {
            let t = st.fresh_vreg();
            st.emit(b, ins3(XOR_RR, t, lhs, rhs));
            st.emit(b, MInstr::new(MOpcode(SLTU_RR)).with_dst(dst).with_preg(PReg(X0)).with_vreg(t));
        },
        IntPredicate::Slt => st.emit(b, ins3(SLT_RR, dst, lhs, rhs)),
        IntPredicate::Sle => {
            let t = st.fresh_vreg();
            st.emit(b, ins3(SLT_RR, t, rhs, lhs));
            st.emit(b, ins2i(XORI, dst, t, 1));
        },
        IntPredicate::Sgt => st.emit(b, ins3(SLT_RR, dst, rhs, lhs)),
        IntPredicate::Sge => {
            let t = st.fresh_vreg();
            st.emit(b, ins3(SLT_RR, t, lhs, rhs));
            st.emit(b, ins2i(XORI, dst, t, 1));
        },
        IntPredicate::Ult => st.emit(b, ins3(SLTU_RR, dst, lhs, rhs)),
        IntPredicate::Ule => {
            let t = st.fresh_vreg();
            st.emit(b, ins3(SLTU_RR, t, rhs, lhs));
            st.emit(b, ins2i(XORI, dst, t, 1));
        },
        IntPredicate::Ugt => st.emit(b, ins3(SLTU_RR, dst, rhs, lhs)),
        IntPredicate::Uge => {
            let t = st.fresh_vreg();
            st.emit(b, ins3(SLTU_RR, t, lhs, rhs));
            st.emit(b, ins2i(XORI, dst, t, 1));
        },
    }
}

// ── argument passing ───────────────────────────────────────────────────────

/// The registers of `regs`, as physical registers.
pub open spec fn preg_seq(regs: Seq<u8>) -> Seq<PReg> {
    regs.map_values(|r: u8| PReg(r))
}

/// The registers of `regs`, as physical registers.
pub fn preg_list<const N: usize>(regs: &[u8; N]) -> (r: Vec<PReg>)
    ensures
        r@ == preg_seq(regs@),
{
    let mut out: Vec<PReg> = Vec::new();
    let mut i: usize = 0;
    while i < N
        invariant
            i <= N,
            N == regs@.len(),
            out@ =~= preg_seq(regs@.take(i as int)),
        decreases N - i,
    {
        out.push(PReg(regs[i]));
        assert(regs@.take(i + 1) =~= regs@.take(i as int).push(regs@[i as int]));
        i = i + 1;
    }
    assert(regs@.take(N as int) =~= regs@);
    out
}

/// Resolve the first `n` of `args`, in order, in block `b`.
pub open spec fn resolve_all(s: LowerView, consts: Seq<ConstantData>, b: int, args: Seq<ValueRef>, n: nat) -> LowerView
    decreases n,
{
    if n == 0 {
        s
    } else {
        resolve(resolve_all(s, consts, b, args, (n - 1) as nat), consts, b, args[n - 1]).0
    }
}

/// Every constant operand in `vs` names a constant of the pool.
pub open spec fn consts_ok(vs: Seq<ValueRef>, nc: nat) -> bool {
    forall|i: int| 0 <= i < vs.len() ==> const_ref_ok(#[trigger] vs[i], nc)
}

fn resolve_args(st: &mut LowerState, consts: &Vec<ConstantData>, b: usize, args: &Vec<ValueRef>)
    requires
        b < old(st)@.mf.blocks.len(),
        consts_ok(args@, consts@.len()),
    ensures
        final(st)@ == resolve_all(old(st)@, consts@, b as int, args@, args@.len()),
        final(st)@.mf.blocks.len() == old(st)@.mf.blocks.len(),
{
    let mut i: usize = 0;
    while i < args.len()
        invariant
            i <= args.len(),
            b < st@.mf.blocks.len(),
            st@.mf.blocks.len() == old(st)@.mf.blocks.len(),
            consts_ok(args@, consts@.len()),
            st@ == resolve_all(old(st)@, consts@, b as int, args@, i as nat),
        decreases args.len() - i,
    {
        let _ = st.resolve(consts, b, args[i]);
        i = i + 1;
    }
}

/// The first `n` of `args` passed per the integer calling convention in
/// block `b`: into their argument register, or, when `spill`, stored for a
/// stack slot.
pub open spec fn pass_args(s: LowerView, consts: Seq<ConstantData>, b: int, args: Seq<ValueRef>, n: nat, spill: bool) -> LowerView
    decreases n,
{
    if n == 0 {
        s
    } else {
        let s0 = pass_args(s, consts, b, args, (n - 1) as nat, spill);
        let (s1, src) = resolve(s0, consts, b, args[n - 1]);
        match arg_location(n - 1, 10) {
            ArgLocation::Reg(p) => emit(s1, b, mov_to_preg_instr(p, src)),
            ArgLocation::Stack(_) => if spill {
                emit(s1, b, mi_vreg(mi_new(SD), src))
            } else {
                s1
            },
        }
    }
}

fn lower_pass_args(st: &mut LowerState, consts: &Vec<ConstantData>, b: usize, args: &Vec<ValueRef>, spill: bool)
    requires
        b < old(st)@.mf.blocks.len(),
        consts_ok(args@, consts@.len()),
        args.len() <= usize::MAX / 8,
    ensures
        final(st)@ == pass_args(old(st)@, consts@, b as int, args@, args@.len(), spill),
        final(st)@.mf.blocks.len() == old(st)@.mf.blocks.len(),
{
    let locs = classify_rv64_int_args(args.len());
    let mut i: usize = 0;
    while i < args.len()
        invariant
            i <= args.len(),
            locs@.len() == args.len(),
            forall|j: int| 0 <= j < args.len() ==> locs@[j] == arg_location(j, 10),
            b < st@.mf.blocks.len(),
            st@.mf.blocks.len() == old(st)@.mf.blocks.len(),
            consts_ok(args@, consts@.len()),
            st@ == pass_args(old(st)@, consts@, b as int, args@, i as nat, spill),
        decreases args.len() - i,
    {
        let src = st.resolve(consts, b, args[i]);
        match locs[i] {
            ArgLocation::Reg(p) => emit_mov_to_preg(st, b, p, src),
            ArgLocation::Stack(_) => {
                if spill {
                    st.emit(b, MInstr::new(MOpcode(SD)).with_vreg(src));
                }
            },
        }
        i = i + 1;
    }
}

// ── instructions ───────────────────────────────────────────────────────────

/// Opcode of a two-operand integer operation.
pub open spec fn binop_opcode(op: BinOp) -> u32 {
    match op {
        BinOp::Add => ADD_RR,
        BinOp::Sub => SUB_RR,
        BinOp::Mul => MUL_RR,
        BinOp::SDiv => DIV_RR,
        BinOp::UDiv => UDIV_RR,
        BinOp::SRem => REM_RR,
        BinOp::URem => UREM_RR,
        BinOp::And => AND_RR,
        BinOp::Or => OR_RR,
        BinOp::Xor => XOR_RR,
        BinOp::Shl => SLL_RR,
        BinOp::LShr => SRL_RR,
        BinOp::AShr => SRA_RR,
    }
}

fn binop_code(op: BinOp) -> (r: u32)
    ensures
        r == binop_opcode(op),
{
    match op {
        BinOp::Add => ADD_RR,
        BinOp::Sub => SUB_RR,
        BinOp::Mul => MUL_RR,
        BinOp::SDiv => DIV_RR,
        BinOp::UDiv => UDIV_RR,
        BinOp::SRem => REM_RR,
        BinOp::URem => UREM_RR,
        BinOp::And => AND_RR,
        BinOp::Or => OR_RR,
        BinOp::Xor => XOR_RR,
        BinOp::Shl => SLL_RR,
        BinOp::LShr => SRL_RR,
        BinOp::AShr => SRA_RR,
    }
}

/// Bit width of an integer type; 32 for any other type.
pub open spec fn int_bits(t: TypeData) -> u32 {
    match t {
        TypeData::Integer(bits) => bits,
        _ => 32,
    }
}

/// Opcode of an atomic read-modify-write on a word, or on a doubleword when
/// `wide` (minimum and maximum exist in the word form only; subtraction and
/// operations without an AMO become an add, nand becomes an and).
pub open spec fn rmw_opcode(op: RmwOp, wide: bool) -> u32 {
    match op {
        RmwOp::Add => if wide { AMOADD_D } else { AMOADD_W },
        RmwOp::Xchg => if wide { AMOSWAP_D } else { AMOSWAP_W },
        RmwOp::Xor => if wide { AMOXOR_D } else { AMOXOR_W },
        RmwOp::And => if wide { AMOAND_D } else { AMOAND_W },
        RmwOp::Nand => if wide { AMOAND_D } else { AMOAND_W },
        RmwOp::Or => if wide { AMOOR_D } else { AMOOR_W },
        RmwOp::Sub => if wide { AMOADD_D } else { AMOADD_W },
        RmwOp::Min => AMOMIN_W,
        RmwOp::Max => AMOMAX_W,
        RmwOp::UMin => AMOMINU_W,
        RmwOp::UMax => AMOMAXU_W,
        RmwOp::Other => if wide { AMOADD_D } else { AMOADD_W },
    }
}

fn rmw_code(op: RmwOp, wide: bool) -> (r: u32)
    ensures
        r == rmw_opcode(op, wide),
{
    match op {
        RmwOp::Add => if wide { AMOADD_D } else { AMOADD_W },
        RmwOp::Xchg => if wide { AMOSWAP_D } else { AMOSWAP_W },
        RmwOp::Xor => if wide { AMOXOR_D } else { AMOXOR_W },
        RmwOp::And => if wide { AMOAND_D } else { AMOAND_W },
        RmwOp::Nand => if wide { AMOAND_D } else { AMOAND_W },
        RmwOp::Or => if wide { AMOOR_D } else { AMOOR_W },
        RmwOp::Sub => if wide { AMOADD_D } else { AMOADD_W },
        RmwOp::Min => AMOMIN_W,
        RmwOp::Max => AMOMAX_W,
        RmwOp::UMin => AMOMINU_W,
        RmwOp::UMax => AMOMAXU_W,
        RmwOp::Other => if wide { AMOADD_D } else { AMOADD_W },
    }
}

/// Size in bytes of a stack slot for a value of type `t`: whole bytes of an
/// integer, 4 and 8 for the float types, 8 for a pointer, and 0 for the
/// types the table does not describe (void and aggregates).
pub open spec fn slot_bytes(t: TypeData) -> u32 {
    match t {
        TypeData::Integer(bits) => ((bits as int + 7) / 8) as u32,
        TypeData::Float => 4,
        TypeData::Double => 8,
        TypeData::Pointer => 8,
        TypeData::Other => 0,
    }
}

fn slot_size(t: TypeData) -> (r: u32)
    ensures
        r == slot_bytes(t),
{
    match t {
        TypeData::Integer(bits) => ((bits as u64 + 7) / 8) as u32,
        TypeData::Float => 4,
        TypeData::Double => 8,
        TypeData::Pointer => 8,
        TypeData::Other => 0,
    }
}

/// Does `callee` name a profiling-counter intrinsic?
pub open spec fn is_instrprof(consts: Seq<ConstantData>, callee: ValueRef) -> bool {
    match callee {
        ValueRef::Constant(c) => consts[c.0 as int] is InstrProfRef,
        _ => false,
    }
}

/// An indirect call through `cv` that links into `ra` and clobbers every
/// allocatable register.
pub open spec fn call_instr(cv: VReg) -> InstrView {
    InstrView { clobbers: preg_seq(ALLOCATABLE@), ..mi_imm(mi_vreg(mi_preg(mi_new(JALR), PReg(1)), cv), 0) }
}

/// Lowering of a call: a profiling intrinsic resolves its arguments and
/// becomes a `nop`; any other call passes its arguments, calls through the
/// callee's register and takes its result from the return register.
pub open spec fn call_lowered(s: LowerView, consts: Seq<ConstantData>, b: int, iid: InstrId, callee: ValueRef, args: Seq<ValueRef>) -> LowerView {
    if is_instrprof(consts, callee) {
        emit(resolve_all(s, consts, b, args, args.len()), b, mi_new(NOP))
    } else {
        let s1 = pass_args(s, consts, b, args, args.len(), true);
        let (s2, cv) = resolve(s1, consts, b, callee);
        let s3 = emit(s2, b, call_instr(cv));
        let (s4, d) = new_dst(s3, iid);
        emit(s4, b, mov_from_preg_instr(d, PReg(INT_RET)))
    }
}

/// Lowering of `select`: `dst = then * cond + else * (cond ^ 1)`.
pub open spec fn select_lowered(s: LowerView, consts: Seq<ConstantData>, b: int, iid: InstrId, cond: ValueRef, tv: ValueRef, fv: ValueRef) -> LowerView {
    let (s1, d) = new_dst(s, iid);
    let (s2, c) = resolve(s1, consts, b, cond);
    let (s3, t) = resolve(s2, consts, b, tv);
    let (s4, f) = resolve(s3, consts, b, fv);
    let (s5, notc) = fresh(s4);
    let s6 = emit(s5, b, op2i(XORI, notc, c, 1));
    let (s7, tpart) = fresh(s6);
    let (s8, fpart) = fresh(s7);
    let s9 = emit(s8, b, op3(MUL_RR, tpart, t, c));
    let s10 = emit(s9, b, op3(MUL_RR, fpart, f, notc));
    emit(s10, b, op3(ADD_RR, d, tpart, fpart))
}

/// Lowering of compare-and-exchange: load-reserved of the old value,
/// store-conditional of the new one (word or doubleword by the width of the
/// compared type), and the old value as the result.
pub open spec fn cas_lowered(
    s: LowerView,
    consts: Seq<ConstantData>,
    types: Seq<TypeData>,
    b: int,
    iid: InstrId,
    ptr: ValueRef,
    expected: ValueRef,
    new_val: ValueRef,
    val_ty: TypeId,
) -> LowerView {
    let wide = int_bits(types[val_ty.0 as int]) == 64;
    let (s1, p) = resolve(s, consts, b, ptr);
    let (s2, _e) = resolve(s1, consts, b, expected);
    let (s3, n) = resolve(s2, consts, b, new_val);
    let (s4, old_v) = fresh(s3);
    let s5 = emit(s4, b, op2(if wide { LR_D } else { LR_W }, old_v, p));
    let (s6, status) = fresh(s5);
    let s7 = emit(s6, b, op3(if wide { SC_D } else { SC_W }, status, p, n));
    let (s8, d) = new_dst(s7, iid);
    emit(s8, b, op2(MOV_RR, d, old_v))
}

/// Lowering of an atomic read-modify-write to one AMO instruction.
pub open spec fn rmw_lowered(
    s: LowerView,
    consts: Seq<ConstantData>,
    types: Seq<TypeData>,
    b: int,
    iid: InstrId,
    op: RmwOp,
    ptr: ValueRef,
    val: ValueRef,
    ty: TypeId,
) -> LowerView {
    let (s1, p) = resolve(s, consts, b, ptr);
    let (s2, v) = resolve(s1, consts, b, val);
    let (s3, d) = new_dst(s2, iid);
    emit(s3, b, op3(rmw_opcode(op, int_bits(types[ty.0 as int]) == 64), d, p, v))
}

/// Lowering of `alloca`: a new frame slot and its address.
pub open spec fn alloca_lowered(s: LowerView, types: Seq<TypeData>, b: int, iid: InstrId, ty: TypeId, align: Option<u32>) -> LowerView {
    let (s1, d) = new_dst(s, iid);
    let idx = s1.mf.frame_slots.len();
    let al: u32 = match align {
        Some(a) => a,
        None => 8,
    };
    let s2 = LowerView {
        mf: FunctionView { frame_slots: s1.mf.frame_slots.push((slot_bytes(types[ty.0 as int]), al)), ..s1.mf },
        ..s1
    };
    emit(s2, b, op1i(ADDI_FP_SLOT, d, idx as i64))
}

/// `dst = op(v)` for a value `v` moved or converted into a new register.
pub open spec fn unary_lowered(s: LowerView, consts: Seq<ConstantData>, b: int, iid: InstrId, op: u32, v: ValueRef) -> LowerView {
    let (s1, d) = new_dst(s, iid);
    let (s2, r) = resolve(s1, consts, b, v);
    emit(s2, b, op2(op, d, r))
}

/// What lowering IR instruction `iid` of kind `k` into block `b` does to the state.
pub open spec fn lower_kind(s: LowerView, consts: Seq<ConstantData>, types: Seq<TypeData>, b: int, iid: InstrId, k: KindView) -> LowerView {
    match k {
        KindView::Binary { op, lhs, rhs, .. } => {
            let (s1, d) = new_dst(s, iid);
            let (s2, l) = resolve(s1, consts, b, lhs);
            let (s3, r) = resolve(s2, consts, b, rhs);
            emit(s3, b, op3(binop_opcode(op), d, l, r))
        },
        KindView::ICmp { pred, lhs, rhs } => {
            let (s1, d) = new_dst(s, iid);
            let (s2, l) = resolve(s1, consts, b, lhs);
            let (s3, r) = resolve(s2, consts, b, rhs);
            compare_to_bool(s3, pred, l, r, b, d)
        },
        KindView::FloatOp { .. } => {
            let (s1, d) = new_dst(s, iid);
            emit(s1, b, op1i(MOV_IMM, d, 0))
        },
        KindView::Aggregate { .. } => {
            let (s1, d) = new_dst(s, iid);
            emit(s1, b, op1i(MOV_IMM, d, 0))
        },
        KindView::LandingPad => {
            let (s1, d) = new_dst(s, iid);
            emit(s1, b, op1i(MOV_IMM, d, 0))
        },
        KindView::Select { cond, then_val, else_val } => select_lowered(s, consts, b, iid, cond, then_val, else_val),
        KindView::Cast { val } => unary_lowered(s, consts, b, iid, MOV_RR, val),
        KindView::PtrToInt { val } => unary_lowered(s, consts, b, iid, MOV_RR, val),
        KindView::GetElementPtr { ptr } => unary_lowered(s, consts, b, iid, MOV_RR, ptr),
        KindView::Load { ptr, .. } => unary_lowered(s, consts, b, iid, LD_REG, ptr),
        KindView::Store { val, ptr, .. } => {
            let (s1, src) = resolve(s, consts, b, val);
            let (s2, p) = resolve(s1, consts, b, ptr);
            emit(s2, b, mi_vreg(mi_vreg(mi_new(SD_REG), p), src))
        },
        KindView::Call { callee, args, .. } => call_lowered(s, consts, b, iid, callee, args),
        KindView::InlineAsm { args, has_result } => {
            let s1 = emit(resolve_all(s, consts, b, args, args.len()), b, mi_new(NOP));
            if has_result {
                let (s2, d) = new_dst(s1, iid);
                emit(s2, b, op1i(MOV_IMM, d, 0))
            } else {
                s1
            }
        },
        KindView::Fence => emit(s, b, mi_new(FENCE)),
        KindView::CompareExchange { ptr, expected, new_val, val_ty } => cas_lowered(
            s,
            consts,
            types,
            b,
            iid,
            ptr,
            expected,
            new_val,
            val_ty,
        ),
        KindView::AtomicRmw { op, ptr, val, ty } => rmw_lowered(s, consts, types, b, iid, op, ptr, val, ty),
        KindView::Alloca { ty, align } => alloca_lowered(s, types, b, iid, ty, align),
        _ => s,
    }
}

/// Every incoming value of a phi that is a constant names a constant of the pool.
pub open spec fn incoming_ok(incoming: Seq<(ValueRef, BlockId)>, nc: nat) -> bool {
    forall|i: int| 0 <= i < incoming.len() ==> const_ref_ok(#[trigger] incoming[i].0, nc)
}

/// Every case value of a `switch` that is a constant names a constant of
/// the pool, and every case target is among `nb` blocks.
pub open spec fn cases_ok(cases: Seq<(ValueRef, BlockId)>, nc: nat, nb: nat) -> bool {
    forall|i: int| 0 <= i < cases.len() ==> const_ref_ok(#[trigger] cases[i].0, nc) && cases[i].1.0 < nb
}

/// The operands and types of `k` are in their tables, its branch targets
/// are among `nb` blocks, and its argument lists fit the calling convention.
pub open spec fn kind_ok(k: KindView, nc: nat, nt: nat, nb: nat) -> bool {
    match k {
        KindView::Binary { lhs, rhs, .. } => const_ref_ok(lhs, nc) && const_ref_ok(rhs, nc),
        KindView::ICmp { lhs, rhs, .. } => const_ref_ok(lhs, nc) && const_ref_ok(rhs, nc),
        KindView::Select { cond, then_val, else_val } => const_ref_ok(cond, nc) && const_ref_ok(then_val, nc)
            && const_ref_ok(else_val, nc),
        KindView::Cast { val } => const_ref_ok(val, nc),
        KindView::PtrToInt { val } => const_ref_ok(val, nc),
        KindView::GetElementPtr { ptr } => const_ref_ok(ptr, nc),
        KindView::Load { ptr, .. } => const_ref_ok(ptr, nc),
        KindView::Store { val, ptr, .. } => const_ref_ok(val, nc) && const_ref_ok(ptr, nc),
        KindView::Call { callee, args, .. } => const_ref_ok(callee, nc) && consts_ok(args, nc) && args.len()
            <= usize::MAX / 8,
        KindView::InlineAsm { args, .. } => consts_ok(args, nc),
        KindView::CompareExchange { ptr, expected, new_val, val_ty } => const_ref_ok(ptr, nc) && const_ref_ok(
            expected,
            nc,
        ) && const_ref_ok(new_val, nc) && val_ty.0 < nt,
        KindView::AtomicRmw { ptr, val, ty, .. } => const_ref_ok(ptr, nc) && const_ref_ok(val, nc) && ty.0 < nt,
        KindView::Alloca { ty, .. } => ty.0 < nt,
        KindView::Phi { incoming, .. } => incoming_ok(incoming, nc),
        KindView::Ret { val } => match val {
            Some(v) => const_ref_ok(v, nc),
            None => true,
        },
        KindView::Br { dest } => dest.0 < nb,
        KindView::CondBr { cond, then_dest, else_dest } => const_ref_ok(cond, nc) && then_dest.0 < nb && else_dest.0 < nb,
        KindView::Invoke { callee, args, normal_dest, .. } => const_ref_ok(callee, nc) && consts_ok(args, nc) && args.len()
            <= usize::MAX / 8 && normal_dest.0 < nb,
        KindView::Switch { val, default, cases } => const_ref_ok(val, nc) && default.0 < nb && cases_ok(cases, nc, nb),
        _ => true,
    }
}

fn lower_call(st: &mut LowerState, consts: &Vec<ConstantData>, b: usize, iid: InstrId, callee: ValueRef, args: &Vec<ValueRef>)
    requires
        b < old(st)@.mf.blocks.len(),
        const_ref_ok(callee, consts@.len()),
        consts_ok(args@, consts@.len()),
        args.len() <= usize::MAX / 8,
    ensures
        final(st)@ == call_lowered(old(st)@, consts@, b as int, iid, callee, args@),
        final(st)@.mf.blocks.len() == old(st)@.mf.blocks.len(),
{
    let prof = match callee {
        ValueRef::Constant(c) => match consts[c.0 as usize] {
            ConstantData::InstrProfRef => true,
            _ => false,
        },
        _ => false,
    };
    if prof {
        resolve_args(st, consts, b, args);
        st.emit(b, MInstr::new(MOpcode(NOP)));
    } else {
        lower_pass_args(st, consts, b, args, true);
        let cv = st.resolve(consts, b, callee);
        let mut call = MInstr::new(MOpcode(JALR)).with_preg(PReg(1)).with_vreg(cv).with_imm(0);
        call.clobbers = preg_list(&ALLOCATABLE);
        st.emit(b, call);
        let d = st.new_dst(iid);
        emit_mov_from_preg(st, b, d, PReg(INT_RET));
    }
}

fn lower_select(st: &mut LowerState, consts: &Vec<ConstantData>, b: usize, iid: InstrId, cond: ValueRef, tv: ValueRef, fv: ValueRef)
    requires
        b < old(st)@.mf.blocks.len(),
        const_ref_ok(cond, consts@.len()),
        const_ref_ok(tv, consts@.len()),
        const_ref_ok(fv, consts@.len()),
    ensures
        final(st)@ == select_lowered(old(st)@, consts@, b as int, iid, cond, tv, fv),
        final(st)@.mf.blocks.len() == old(st)@.mf.blocks.len(),
{
    let d = st.new_dst(iid);
    let c = st.resolve(consts, b, cond);
    let t = st.resolve(consts, b, tv);
    let f = st.resolve(consts, b, fv);
    let notc = st.fresh_vreg();
    st.emit(b, ins2i(XORI, notc, c, 1));
    let tpart = st.fresh_vreg();
    let fpart = st.fresh_vreg();
    st.emit(b, ins3(MUL_RR, tpart, t, c));
    st.emit(b, ins3(MUL_RR, fpart, f, notc));
    st.emit(b, ins3(ADD_RR, d, tpart, fpart));
}

fn lower_cas(
    st: &mut LowerState,
    ctx: &Context,
    b: usize,
    iid: InstrId,
    ptr: ValueRef,
    expected: ValueRef,
    new_val: ValueRef,
    val_ty: TypeId,
)
    requires
        b < old(st)@.mf.blocks.len(),
        const_ref_ok(ptr, ctx.constants@.len()),
        const_ref_ok(expected, ctx.constants@.len()),
        const_ref_ok(new_val, ctx.constants@.len()),
        val_ty.0 < ctx.types@.len(),
    ensures
        final(st)@ == cas_lowered(old(st)@, ctx.constants@, ctx.types@, b as int, iid, ptr, expected, new_val, val_ty),
        final(st)@.mf.blocks.len() == old(st)@.mf.blocks.len(),
{
    let bits = match ctx.types[val_ty.0 as usize] {
        TypeData::Integer(n) => n,
        _ => 32,
    };
    let wide = bits == 64;
    let p = st.resolve(&ctx.constants, b, ptr);
    let _e = st.resolve(&ctx.constants, b, expected);
    let n = st.resolve(&ctx.constants, b, new_val);
    let old_v = st.fresh_vreg();
    st.emit(b, ins2(if wide { LR_D } else { LR_W }, old_v, p));
    let status = st.fresh_vreg();
    st.emit(b, ins3(if wide { SC_D } else { SC_W }, status, p, n));
    let d = st.new_dst(iid);
    st.emit(b, ins2(MOV_RR, d, old_v));
}

fn lower_rmw(st: &mut LowerState, ctx: &Context, b: usize, iid: InstrId, op: RmwOp, ptr: ValueRef, val: ValueRef, ty: TypeId)
    requires
        b < old(st)@.mf.blocks.len(),
        const_ref_ok(ptr, ctx.constants@.len()),
        const_ref_ok(val, ctx.constants@.len()),
        ty.0 < ctx.types@.len(),
    ensures
        final(st)@ == rmw_lowered(old(st)@, ctx.constants@, ctx.types@, b as int, iid, op, ptr, val, ty),
        final(st)@.mf.blocks.len() == old(st)@.mf.blocks.len(),
{
    let p = st.resolve(&ctx.constants, b, ptr);
    let v = st.resolve(&ctx.constants, b, val);
    let bits = match ctx.types[ty.0 as usize] {
        TypeData::Integer(n) => n,
        _ => 32,
    };
    let code = rmw_code(op, bits == 64);
    let d = st.new_dst(iid);
    st.emit(b, ins3(code, d, p, v));
}

fn lower_alloca(st: &mut LowerState, ctx: &Context, b: usize, iid: InstrId, ty: TypeId, align: Option<u32>)
    requires
        b < old(st)@.mf.blocks.len(),
        ty.0 < ctx.types@.len(),
    ensures
        final(st)@ == alloca_lowered(old(st)@, ctx.types@, b as int, iid, ty, align),
        final(st)@.mf.blocks.len() == old(st)@.mf.blocks.len(),
{
    let d = st.new_dst(iid);
    let size = slot_size(ctx.types[ty.0 as usize]);
    let al: u32 = match align {
        Some(a) => a,
        None => 8,
    };
    let idx = st.mf.alloc_alloca_slot(size, al);
    st.emit(b, ins1i(ADDI_FP_SLOT, d, idx as i64));
}

fn lower_unary(st: &mut LowerState, consts: &Vec<ConstantData>, b: usize, iid: InstrId, op: u32, v: ValueRef)
    requires
        b < old(st)@.mf.blocks.len(),
        const_ref_ok(v, consts@.len()),
    ensures
        final(st)@ == unary_lowered(old(st)@, consts@, b as int, iid, op, v),
        final(st)@.mf.blocks.len() == old(st)@.mf.blocks.len(),
{
    let d = st.new_dst(iid);
    let r = st.resolve(consts, b, v);
    st.emit(b, ins2(op, d, r));
}

/// Lower IR instruction `iid` of `func` into block `b` (see `lower_kind`).
pub fn lower_instr(st: &mut LowerState, ctx: &Context, func: &Function, b: usize, iid: InstrId)
    requires
        b < old(st)@.mf.blocks.len(),
        (iid.0 as int) < func@.instrs.len(),
        kind_ok(func@.instrs[iid.0 as int], ctx.constants@.len(), ctx.types@.len(), func@.blocks.len()),
    ensures
        final(st)@ == lower_kind(old(st)@, ctx.constants@, ctx.types@, b as int, iid, func@.instrs[iid.0 as int]),
        final(st)@.mf.blocks.len() == old(st)@.mf.blocks.len(),
{
    let consts = &ctx.constants;
    match &func.instructions[iid.0 as usize] {
        InstrKind::Binary { op, lhs, rhs, .. } => {
            let d = st.new_dst(iid);
            let l = st.resolve(consts, b, *lhs);
            let r = st.resolve(consts, b, *rhs);
            st.emit(b, ins3(binop_code(*op), d, l, r));
        },
        InstrKind::ICmp { pred, lhs, rhs } => {
            let d = st.new_dst(iid);
            let l = st.resolve(consts, b, *lhs);
            let r = st.resolve(consts, b, *rhs);
            lower_compare_to_bool(st, *pred, l, r, b, d);
        },
        InstrKind::FloatOp { .. } | InstrKind::Aggregate { .. } | InstrKind::LandingPad => {
            let d = st.new_dst(iid);
            st.emit(b, ins1i(MOV_IMM, d, 0));
        },
        InstrKind::Select { cond, then_val, else_val } => lower_select(st, consts, b, iid, *cond, *then_val, *else_val),
        InstrKind::Cast { val } => lower_unary(st, consts, b, iid, MOV_RR, *val),
        InstrKind::PtrToInt { val } => lower_unary(st, consts, b, iid, MOV_RR, *val),
        InstrKind::GetElementPtr { ptr } => lower_unary(st, consts, b, iid, MOV_RR, *ptr),
        InstrKind::Load { ptr, .. } => lower_unary(st, consts, b, iid, LD_REG, *ptr),
        InstrKind::Store { val, ptr, .. } => {
            let src = st.resolve(consts, b, *val);
            let p = st.resolve(consts, b, *ptr);
            st.emit(b, MInstr::new(MOpcode(SD_REG)).with_vreg(p).with_vreg(src));
        },
        InstrKind::Call { callee, args, .. } => lower_call(st, consts, b, iid, *callee, args),
        InstrKind::InlineAsm { args, has_result } => {
            resolve_args(st, consts, b, args);
            st.emit(b, MInstr::new(MOpcode(NOP)));
            if *has_result {
                let d = st.new_dst(iid);
                st.emit(b, ins1i(MOV_IMM, d, 0));
            }
        },
        InstrKind::Fence => st.emit(b, MInstr::new(MOpcode(FENCE))),
        InstrKind::CompareExchange { ptr, expected, new_val, val_ty } => lower_cas(
            st,
            ctx,
            b,
            iid,
            *ptr,
            *expected,
            *new_val,
            *val_ty,
        ),
        InstrKind::AtomicRmw { op, ptr, val, ty } => lower_rmw(st, ctx, b, iid, *op, *ptr, *val, *ty),
        InstrKind::Alloca { ty, align } => lower_alloca(st, ctx, b, iid, *ty, *align),
        _ => {},
    }
}

// ── control flow ───────────────────────────────────────────────────────────

/// The value a phi takes from block `src`: its first incoming entry from
/// `src` at position `i` or later.
pub open spec fn incoming_from(inc: Seq<(ValueRef, BlockId)>, src: BlockId, i: int) -> Option<ValueRef>
    decreases inc.len() - i,
{
    if i < 0 || i >= inc.len() {
        None
    } else if inc[i].1 == src {
        Some(inc[i].0)
    } else {
        incoming_from(inc, src, i + 1)
    }
}

fn find_incoming(inc: &Vec<(ValueRef, BlockId)>, src: BlockId) -> (r: Option<usize>)
    ensures
        match r {
            Some(i) => i < inc@.len() && incoming_from(inc@, src, 0) == Some(inc@[i as int].0),
            None => incoming_from(inc@, src, 0) is None,
        },
{
    let mut i: usize = 0;
    while i < inc.len()
        invariant
            i <= inc@.len(),
            incoming_from(inc@, src, 0) == incoming_from(inc@, src, i as int),
        decreases inc.len() - i,
    {
        if inc[i].1 == src {
            return Some(i);
        }
        i = i + 1;
    }
    None
}

/// The copies into the phis among the first `n` body instructions of IR
/// block `dest` of the values they take from IR block `src`, emitted into
/// machine block `to`; a phi without a register gets none.
pub open spec fn phi_copies(
    s: LowerView,
    f: FuncView,
    consts: Seq<ConstantData>,
    src: int,
    to: int,
    dest: BlockId,
    n: nat,
) -> LowerView
    decreases n,
{
    if n == 0 {
        s
    } else {
        let s0 = phi_copies(s, f, consts, src, to, dest, (n - 1) as nat);
        let iid = f.blocks[dest.0 as int].body[n - 1];
        match f.instrs[iid.0 as int] {
            KindView::Phi { incoming, .. } => match incoming_from(incoming, BlockId(src as u32), 0) {
                Some(v) => match vlookup(s0.vmap, ValueRef::Instruction(iid)) {
                    Some(pv) => {
                        let (s1, r) = resolve(s0, consts, to, v);
                        emit(s1, to, op2(MOV_RR, pv, r))
                    },
                    None => s0,
                },
                None => s0,
            },
            _ => s0,
        }
    }
}

/// The phi copies for the edge from IR block `src` to IR block `dest`,
/// emitted into machine block `to`.
pub open spec fn edge_copies(s: LowerView, f: FuncView, consts: Seq<ConstantData>, src: int, to: int, dest: BlockId) -> LowerView {
    phi_copies(s, f, consts, src, to, dest, f.blocks[dest.0 as int].body.len())
}

/// Every listed instruction id is in the pool, every listed instruction has
/// its operands, types and targets in range, and the parameters fit the
/// calling convention.
pub open spec fn lowerable(f: FuncView, nc: nat, nt: nat) -> bool {
    &&& ids_in_range(f)
    &&& forall|b: int, k: int|
        0 <= b < f.blocks.len() && 0 <= k < f.blocks[b].body.len() ==> kind_ok(
            f.instrs[(#[trigger] f.blocks[b].body[k]).0 as int],
            nc,
            nt,
            f.blocks.len(),
        )
    &&& forall|b: int|
        0 <= b < f.blocks.len() ==> match #[trigger] f.blocks[b].terminator {
            Some(t) => kind_ok(f.instrs[t.0 as int], nc, nt, f.blocks.len()),
            None => true,
        }
    &&& f.num_args <= usize::MAX / 8
}

fn lower_edge_copies(st: &mut LowerState, ctx: &Context, func: &Function, src: usize, to: usize, dest: BlockId)
    requires
        to < old(st)@.mf.blocks.len(),
        (dest.0 as int) < func@.blocks.len(),
        lowerable(func@, ctx.constants@.len(), ctx.types@.len()),
    ensures
        final(st)@ == edge_copies(old(st)@, func@, ctx.constants@, src as int, to as int, dest),
        final(st)@.mf.blocks.len() == old(st)@.mf.blocks.len(),
{
    let consts = &ctx.constants;
    let d = dest.0 as usize;
    let ghost fv = func@;
    assert(fv.blocks[d as int] == func.blocks@[d as int]@);
    let n = func.blocks[d].body.len();
    let mut k: usize = 0;
    while k < n
        invariant
            fv == func@,
            d == dest.0,
            d < fv.blocks.len(),
            n == fv.blocks[d as int].body.len(),
            fv.blocks[d as int].body == func.blocks@[d as int].body@,
            lowerable(fv, consts@.len(), ctx.types@.len()),
            k <= n,
            to < st@.mf.blocks.len(),
            st@.mf.blocks.len() == old(st)@.mf.blocks.len(),
            st@ == phi_copies(old(st)@, fv, consts@, src as int, to as int, dest, k as nat),
        decreases n - k,
    {
        let iid = func.blocks[d].body[k];
        assert(iid == fv.blocks[d as int].body[k as int]);
        assert(kind_ok(fv.instrs[iid.0 as int], consts@.len(), ctx.types@.len(), fv.blocks.len()));
        assert(fv.instrs[iid.0 as int] == func.instructions@[iid.0 as int]@);
        match &func.instructions[iid.0 as usize] {
            InstrKind::Phi { ty, incoming } => {
                assert(fv.instrs[iid.0 as int] == KindView::Phi { ty: *ty, incoming: incoming@ });
                match find_incoming(incoming, BlockId(src as u32)) {
                    Some(i) => {
                        let v = incoming[i].0;
                        assert(const_ref_ok(incoming@[i as int].0, consts@.len()));
                        match st.lookup(ValueRef::Instruction(iid)) {
                            Some(pv) => {
                                let r = st.resolve(consts, to, v);
                                st.emit(to, ins2(MOV_RR, pv, r));
                            },
                            None => {},
                        }
                    },
                    None => {},
                }
            },
            _ => {},
        }
        k = k + 1;
    }
}

/// A new, empty machine block labelled `label`, placed after the others.
pub open spec fn add_mblock(s: LowerView, label: Seq<char>) -> LowerView {
    LowerView { mf: FunctionView { blocks: s.mf.blocks.push(BlockView { label, instrs: Seq::empty() }), ..s.mf }, ..s }
}

/// `jal` to machine block `t`, in block `b`.
pub open spec fn jump(s: LowerView, b: int, t: usize) -> LowerView {
    emit(s, b, mi_block(mi_new(JAL), t))
}

/// The first `n` cases of a `switch` on the value in `v`: each compares
/// against its case value and branches to its block after that block's phi
/// copies.
pub open spec fn switch_cases(
    s: LowerView,
    f: FuncView,
    consts: Seq<ConstantData>,
    b: int,
    v: VReg,
    cases: Seq<(ValueRef, BlockId)>,
    n: nat,
) -> LowerView
    decreases n,
{
    if n == 0 {
        s
    } else {
        let s0 = switch_cases(s, f, consts, b, v, cases, (n - 1) as nat);
        let (s1, cv) = resolve(s0, consts, b, cases[n - 1].0);
        let s2 = edge_copies(s1, f, consts, b, b, cases[n - 1].1);
        emit(s2, b, mi_block(mi_vreg(mi_vreg(mi_new(BEQ), v), cv), cases[n - 1].1.0 as usize))
    }
}

/// An indirect call through `cv` that clobbers every allocatable register
/// (the call of an `invoke`).
pub open spec fn invoke_instr(cv: VReg) -> InstrView {
    InstrView { clobbers: preg_seq(ALLOCATABLE@), ..mi_vreg(mi_new(JALR), cv) }
}

/// What lowering terminator `tid` of kind `k`, ending IR block `b`, into
/// machine block `b` does to the state.  A conditional branch gets two edge
/// blocks, labelled after block `b`, that hold the phi copies of each edge.
pub open spec fn lower_term(s: LowerView, f: FuncView, consts: Seq<ConstantData>, b: int, tid: InstrId, k: KindView) -> LowerView {
    match k {
        KindView::Ret { val } => match val {
            Some(rv) => {
                let (s1, src) = resolve(s, consts, b, rv);
                emit(emit(s1, b, mov_to_preg_instr(PReg(INT_RET), src)), b, mi_new(RET))
            },
            None => emit(s, b, mi_new(RET)),
        },
        KindView::Br { dest } => jump(edge_copies(s, f, consts, b, b, dest), b, dest.0 as usize),
        KindView::CondBr { cond, then_dest, else_dest } => {
            let (s1, c) = resolve(s, consts, b, cond);
            let label = s1.mf.blocks[b].label;
            let te = s1.mf.blocks.len() as int;
            let s2 = add_mblock(s1, label + ".then_edge"@);
            let ee = te + 1;
            let s3 = add_mblock(s2, label + ".else_edge"@);
            let s4 = jump(edge_copies(s3, f, consts, b, te, then_dest), te, then_dest.0 as usize);
            let s5 = jump(edge_copies(s4, f, consts, b, ee, else_dest), ee, else_dest.0 as usize);
            let s6 = emit(s5, b, mi_block(mi_preg(mi_vreg(mi_new(BEQ), c), PReg(X0)), ee as usize));
            jump(s6, b, te as usize)
        },
        KindView::Invoke { callee, args, normal_dest, has_result } => {
            let s1 = pass_args(s, consts, b, args, args.len(), false);
            let (s2, cv) = resolve(s1, consts, b, callee);
            let s3 = emit(s2, b, invoke_instr(cv));
            let s4 = if has_result {
                let (s5, d) = new_dst(s3, tid);
                emit(s5, b, mov_from_preg_instr(d, PReg(INT_RET)))
            } else {
                s3
            };
            jump(edge_copies(s4, f, consts, b, b, normal_dest), b, normal_dest.0 as usize)
        },
        KindView::Switch { val, default, cases } => {
            let (s1, v) = resolve(s, consts, b, val);
            let s2 = switch_cases(s1, f, consts, b, v, cases, cases.len());
            jump(edge_copies(s2, f, consts, b, b, default), b, default.0 as usize)
        },
        KindView::Unreachable => emit(s, b, mi_new(NOP)),
        _ => s,
    }
}

fn ins_jump(t: usize) -> (r: MInstr)
    ensures
        r@ == mi_block(mi_new(JAL), t),
{
    MInstr::new(MOpcode(JAL)).with_block(t)
}

fn add_edge_block(st: &mut LowerState, b: usize, suffix: &str) -> (idx: usize)
    requires
        b < old(st)@.mf.blocks.len(),
    ensures
        idx == old(st)@.mf.blocks.len(),
        final(st)@ == add_mblock(old(st)@, old(st)@.mf.blocks[b as int].label + suffix@),
{
    let mut label = st.mf.blocks[b].label.clone();
    assert(label@ == st@.mf.blocks[b as int].label);
    label.append(suffix);
    st.mf.add_block(label.as_str())
}

fn lower_switch_cases(
    st: &mut LowerState,
    ctx: &Context,
    func: &Function,
    b: usize,
    v: VReg,
    cases: &Vec<(ValueRef, BlockId)>,
)
    requires
        b < old(st)@.mf.blocks.len(),
        lowerable(func@, ctx.constants@.len(), ctx.types@.len()),
        cases_ok(cases@, ctx.constants@.len(), func@.blocks.len()),
    ensures
        final(st)@ == switch_cases(old(st)@, func@, ctx.constants@, b as int, v, cases@, cases@.len()),
        final(st)@.mf.blocks.len() == old(st)@.mf.blocks.len(),
{
    let mut i: usize = 0;
    while i < cases.len()
        invariant
            i <= cases@.len(),
            b < st@.mf.blocks.len(),
            st@.mf.blocks.len() == old(st)@.mf.blocks.len(),
            lowerable(func@, ctx.constants@.len(), ctx.types@.len()),
            cases_ok(cases@, ctx.constants@.len(), func@.blocks.len()),
            st@ == switch_cases(old(st)@, func@, ctx.constants@, b as int, v, cases@, i as nat),
        decreases cases.len() - i,
    {
        let (cval, cdest) = cases[i];
        assert(const_ref_ok(cases@[i as int].0, ctx.constants@.len()));
        let cv = st.resolve(&ctx.constants, b, cval);
        lower_edge_copies(st, ctx, func, b, b, cdest);
        st.emit(b, MInstr::new(MOpcode(BEQ)).with_vreg(v).with_vreg(cv).with_block(cdest.0 as usize));
        i = i + 1;
    }
}

/// Lower terminator `tid` of IR block `b` into machine block `b` (see `lower_term`).
pub fn lower_terminator(st: &mut LowerState, ctx: &Context, func: &Function, b: usize, tid: InstrId)
    requires
        b < old(st)@.mf.blocks.len(),
        (tid.0 as int) < func@.instrs.len(),
        kind_ok(func@.instrs[tid.0 as int], ctx.constants@.len(), ctx.types@.len(), func@.blocks.len()),
        lowerable(func@, ctx.constants@.len(), ctx.types@.len()),
    ensures
        final(st)@ == lower_term(old(st)@, func@, ctx.constants@, b as int, tid, func@.instrs[tid.0 as int]),
        final(st)@.mf.blocks.len() >= old(st)@.mf.blocks.len(),
{
    let consts = &ctx.constants;
    match &func.instructions[tid.0 as usize] {
        InstrKind::Ret { val } => {
            match val {
                Some(rv) => {
                    let src = st.resolve(consts, b, *rv);
                    emit_mov_to_preg(st, b, PReg(INT_RET), src);
                },
                None => {},
            }
            st.emit(b, MInstr::new(MOpcode(RET)));
        },
        InstrKind::Br { dest } => {
            lower_edge_copies(st, ctx, func, b, b, *dest);
            st.emit(b, ins_jump(dest.0 as usize));
        },
        InstrKind::CondBr { cond, then_dest, else_dest } => {
            let c = st.resolve(consts, b, *cond);
            let te = add_edge_block(st, b, ".then_edge");
            let ee = add_edge_block(st, b, ".else_edge");
            lower_edge_copies(st, ctx, func, b, te, *then_dest);
            st.emit(te, ins_jump(then_dest.0 as usize));
            lower_edge_copies(st, ctx, func, b, ee, *else_dest);
            st.emit(ee, ins_jump(else_dest.0 as usize));
            st.emit(b, MInstr::new(MOpcode(BEQ)).with_vreg(c).with_preg(PReg(X0)).with_block(ee));
            st.emit(b, ins_jump(te));
        },
        InstrKind::Invoke { callee, args, normal_dest, has_result } => {
            lower_pass_args(st, consts, b, args, false);
            let cv = st.resolve(consts, b, *callee);
            let mut call = MInstr::new(MOpcode(JALR)).with_vreg(cv);
            call.clobbers = preg_list(&ALLOCATABLE);
            st.emit(b, call);
            if *has_result {
                let d = st.new_dst(tid);
                emit_mov_from_preg(st, b, d, PReg(INT_RET));
            }
            lower_edge_copies(st, ctx, func, b, b, *normal_dest);
            st.emit(b, ins_jump(normal_dest.0 as usize));
        },
        InstrKind::Switch { val, default, cases } => {
            let v = st.resolve(consts, b, *val);
            lower_switch_cases(st, ctx, func, b, v, cases);
            lower_edge_copies(st, ctx, func, b, b, *default);
            st.emit(b, ins_jump(default.0 as usize));
        },
        InstrKind::Unreachable => st.emit(b, MInstr::new(MOpcode(NOP))),
        _ => {},
    }
}

// ── whole functions ────────────────────────────────────────────────────────

/// Label of machine block `bi`: the function's name for the entry block,
/// `function.block` for the others.
pub open spec fn block_label(f: FuncView, bi: int) -> Seq<char> {
    if bi == 0 {
        f.name
    } else {
        f.name + "."@ + f.blocks[bi].name
    }
}

/// One empty, labelled machine block for each of the first `n` IR blocks.
pub open spec fn labelled_blocks(f: FuncView, n: nat) -> Seq<BlockView> {
    Seq::new(n, |i: int| BlockView { label: block_label(f, i), instrs: Seq::empty() })
}

/// The machine function lowering starts from: no blocks, the allocatable and
/// callee-saved general registers, no floating-point registers, and the
/// source file name.
pub open spec fn lowering_start(f: FuncView, source: Seq<char>) -> FunctionView {
    FunctionView {
        allocatable_pregs: preg_seq(ALLOCATABLE@),
        callee_saved_pregs: preg_seq(CALLEE_SAVED@),
        debug_source: source,
        ..empty_machine_function(f.name)
    }
}

/// Each phi among the first `n` body instructions of block `bi` gets a register.
pub open spec fn phi_regs_block(s: LowerView, f: FuncView, bi: int, n: nat) -> LowerView
    decreases n,
{
    if n == 0 {
        s
    } else {
        let s0 = phi_regs_block(s, f, bi, (n - 1) as nat);
        let iid = f.blocks[bi].body[n - 1];
        if f.instrs[iid.0 as int] is Phi {
            new_dst(s0, iid).0
        } else {
            s0
        }
    }
}

/// Each phi of the first `n` blocks gets a register, block by block.
pub open spec fn phi_regs(s: LowerView, f: FuncView, n: nat) -> LowerView
    decreases n,
{
    if n == 0 {
        s
    } else {
        let s0 = phi_regs(s, f, (n - 1) as nat);
        phi_regs_block(s0, f, n - 1, f.blocks[n - 1].body.len())
    }
}

/// Each of the first `n` parameters gets a register, copied in the entry
/// block from its argument register, or set to its stack offset when it is
/// passed on the stack.
pub open spec fn arg_regs(s: LowerView, n: nat) -> LowerView
    decreases n,
{
    if n == 0 {
        s
    } else {
        let s0 = arg_regs(s, (n - 1) as nat);
        let (s1, v) = fresh(s0);
        let s2 = bind(s1, ValueRef::Argument((n - 1) as u32), v);
        match arg_location(n - 1, 10) {
            ArgLocation::Reg(p) => emit(s2, 0, mov_from_preg_instr(v, p)),
            ArgLocation::Stack(off) => emit(s2, 0, op1i(MOV_IMM, v, off as i64)),
        }
    }
}

/// Source location of instruction `iid`.
pub open spec fn loc_of(f: FuncView, iid: InstrId) -> Option<DebugLoc> {
    if (iid.0 as int) < f.debug_locs.len() {
        f.debug_locs[iid.0 as int]
    } else {
        None
    }
}

/// The state before lowering instruction `iid`: its location is current,
/// and it gives the function's first line when none is known yet.
pub open spec fn at_instr(s: LowerView, f: FuncView, iid: InstrId) -> LowerView {
    let loc = loc_of(f, iid);
    LowerView {
        loc,
        mf: FunctionView {
            debug_line_start: match s.mf.debug_line_start {
                Some(l) => Some(l),
                None => match loc {
                    Some(d) => Some(d.line),
                    None => None,
                },
            },
            ..s.mf
        },
        ..s
    }
}

/// The first `n` body instructions of block `bi` lowered in order.
pub open spec fn lower_body(s: LowerView, f: FuncView, consts: Seq<ConstantData>, types: Seq<TypeData>, bi: int, n: nat) -> LowerView
    decreases n,
{
    if n == 0 {
        s
    } else {
        let s0 = lower_body(s, f, consts, types, bi, (n - 1) as nat);
        let iid = f.blocks[bi].body[n - 1];
        lower_kind(at_instr(s0, f, iid), consts, types, bi, iid, f.instrs[iid.0 as int])
    }
}

/// Block `bi` lowered: its body, then its terminator.
pub open spec fn lower_block(s: LowerView, f: FuncView, consts: Seq<ConstantData>, types: Seq<TypeData>, bi: int) -> LowerView {
    let s1 = lower_body(s, f, consts, types, bi, f.blocks[bi].body.len());
    match f.blocks[bi].terminator {
        Some(t) => lower_term(at_instr(s1, f, t), f, consts, bi, t, f.instrs[t.0 as int]),
        None => s1,
    }
}

/// The first `n` blocks lowered in layout order.
pub open spec fn lower_blocks(s: LowerView, f: FuncView, consts: Seq<ConstantData>, types: Seq<TypeData>, n: nat) -> LowerView
    decreases n,
{
    if n == 0 {
        s
    } else {
        lower_block(lower_blocks(s, f, consts, types, (n - 1) as nat), f, consts, types, n - 1)
    }
}

/// The RV64 machine function of `f`, given the constant pool, the type
/// table and the module's source file name: a declaration or a function
/// without blocks gets no blocks; otherwise every IR block becomes the
/// machine block of the same index, phis and parameters get their registers
/// first, and the blocks are lowered in order.
pub open spec fn rv_lowered(consts: Seq<ConstantData>, types: Seq<TypeData>, source: Seq<char>, f: FuncView) -> FunctionView {
    let mf0 = lowering_start(f, source);
    if f.is_declaration || f.blocks.len() == 0 {
        mf0
    } else {
        let s0 = LowerView {
            mf: FunctionView { blocks: labelled_blocks(f, f.blocks.len()), ..mf0 },
            vmap: Seq::empty(),
            loc: None,
        };
        let s1 = arg_regs(phi_regs(s0, f, f.blocks.len()), f.num_args as nat);
        lower_blocks(s1, f, consts, types, f.blocks.len()).mf
    }
}

fn set_location(st: &mut LowerState, func: &Function, iid: InstrId)
    ensures
        final(st)@ == at_instr(old(st)@, func@, iid),
{
    let loc = if (iid.0 as usize) < func.debug_locs.len() {
        func.debug_locs[iid.0 as usize]
    } else {
        None
    };
    st.loc = loc;
    if st.mf.debug_line_start.is_none() {
        st.mf.debug_line_start = match loc {
            Some(d) => Some(d.line),
            None => None,
        };
    }
}

/// The RISC-V (RV64) instruction selector.
#[derive(Clone, Copy, Debug, Default)]
pub struct RiscVBackend;

impl RiscVBackend {
    /// Lower `func` of `module` to RV64 machine instructions on virtual
    /// registers (see `rv_lowered`).
    pub fn lower_function(&mut self, ctx: &Context, module: &Module, func: &Function) -> (mf: MachineFunction)
        requires
            lowerable(func@, ctx.constants@.len(), ctx.types@.len()),
        ensures
            mf@ == rv_lowered(ctx.constants@, ctx.types@, module.source_filename@, func@),
    {
        let ghost fv = func@;
        let ghost consts = ctx.constants@;
        let ghost types = ctx.types@;
        let mut mf = MachineFunction::new(func.name.clone());
        mf.allocatable_pregs = preg_list(&ALLOCATABLE);
        mf.allocatable_fp_pregs = Vec::new();
        mf.callee_saved_pregs = preg_list(&CALLEE_SAVED);
        mf.debug_source = module.source_filename.clone();
        let ghost mf0 = lowering_start(fv, module.source_filename@);
        assert(mf@ =~= mf0);
        if func.is_declaration || func.blocks.len() == 0 {
            return mf;
        }
        let nb = func.blocks.len();
        assert(labelled_blocks(fv, 0) =~= Seq::<BlockView>::empty());
        let mut bi: usize = 0;
        while bi < nb
            invariant
                fv == func@,
                nb == fv.blocks.len(),
                bi <= nb,
                mf@ == (FunctionView { blocks: labelled_blocks(fv, bi as nat), ..mf0 }),
            decreases nb - bi,
        {
            assert(fv.blocks[bi as int].name == func.blocks@[bi as int].name@);
            if bi == 0 {
                mf.add_block(func.name.as_str());
            } else {
                let mut label = func.name.clone();
                label.append(".");
                label.append(func.blocks[bi].name.as_str());
                mf.add_block(label.as_str());
            }
            assert(labelled_blocks(fv, (bi + 1) as nat) =~= labelled_blocks(fv, bi as nat).push(
                BlockView { label: block_label(fv, bi as int), instrs: Seq::empty() },
            ));
            bi = bi + 1;
        }
        let mut st = LowerState { mf, vmap: Vec::new(), loc: None };
        let ghost s0 = st@;
        assert(s0 == (LowerView {
            mf: FunctionView { blocks: labelled_blocks(fv, fv.blocks.len()), ..mf0 },
            vmap: Seq::empty(),
            loc: None,
        }));
        // registers for the phis, which may be read before they are defined
        let mut bi: usize = 0;
        while bi < nb
            invariant
                fv == func@,
                nb == fv.blocks.len(),
                bi <= nb,
                ids_in_range(fv),
                st@.mf.blocks.len() == nb,
                st@ == phi_regs(s0, fv, bi as nat),
            decreases nb - bi,
        {
            let ghost sb = st@;
            assert(fv.blocks[bi as int].body == func.blocks@[bi as int].body@);
            let n = func.blocks[bi].body.len();
            let mut k: usize = 0;
            while k < n
                invariant
                    fv == func@,
                    bi < nb,
                    nb == fv.blocks.len(),
                    n == fv.blocks[bi as int].body.len(),
                    fv.blocks[bi as int].body == func.blocks@[bi as int].body@,
                    ids_in_range(fv),
                    k <= n,
                    st@.mf.blocks.len() == nb,
                    st@ == phi_regs_block(sb, fv, bi as int, k as nat),
                decreases n - k,
            {
                let iid = func.blocks[bi].body[k];
                assert(iid == fv.blocks[bi as int].body[k as int]);
                assert((iid.0 as int) < fv.instrs.len());
                assert(fv.instrs[iid.0 as int] == func.instructions@[iid.0 as int]@);
                if let InstrKind::Phi { .. } = &func.instructions[iid.0 as usize] {
                    let _ = st.new_dst(iid);
                }
                k = k + 1;
            }
            bi = bi + 1;
        }
        // parameters
        let nargs = func.num_args;
        let locs = classify_rv64_int_args(nargs);
        let ghost s1 = st@;
        let mut i: usize = 0;
        while i < nargs
            invariant
                fv == func@,
                nargs == fv.num_args,
                nb == fv.blocks.len(),
                0 < nb,
                i <= nargs,
                locs@.len() == nargs,
                forall|j: int| 0 <= j < nargs ==> locs@[j] == arg_location(j, 10),
                st@.mf.blocks.len() == nb,
                st@ == arg_regs(s1, i as nat),
            decreases nargs - i,
        {
            let v = st.fresh_vreg();
            st.bind(ValueRef::Argument(i as u32), v);
            match locs[i] {
                ArgLocation::Reg(p) => emit_mov_from_preg(&mut st, 0, v, p),
                ArgLocation::Stack(off) => st.emit(0, ins1i(MOV_IMM, v, off as i64)),
            }
            i = i + 1;
        }
        // the blocks, in order
        let ghost s2 = st@;
        let mut bi: usize = 0;
        while bi < nb
            invariant
                fv == func@,
                consts == ctx.constants@,
                types == ctx.types@,
                nb == fv.blocks.len(),
                bi <= nb,
                lowerable(fv, consts.len(), types.len()),
                st@.mf.blocks.len() >= nb,
                st@ == lower_blocks(s2, fv, consts, types, bi as nat),
            decreases nb - bi,
        {
            let ghost sb = st@;
            assert(fv.blocks[bi as int].body == func.blocks@[bi as int].body@);
            assert(fv.blocks[bi as int].terminator == func.blocks@[bi as int].terminator);
            let n = func.blocks[bi].body.len();
            let mut k: usize = 0;
            while k < n
                invariant
                    fv == func@,
                    consts == ctx.constants@,
                    types == ctx.types@,
                    bi < nb,
                    nb == fv.blocks.len(),
                    n == fv.blocks[bi as int].body.len(),
                    fv.blocks[bi as int].body == func.blocks@[bi as int].body@,
                    lowerable(fv, consts.len(), types.len()),
                    k <= n,
                    st@.mf.blocks.len() >= nb,
                    st@ == lower_body(sb, fv, consts, types, bi as int, k as nat),
                decreases n - k,
            {
                let iid = func.blocks[bi].body[k];
                assert(iid == fv.blocks[bi as int].body[k as int]);
                set_location(&mut st, func, iid);
                lower_instr(&mut st, ctx, func, bi, iid);
                k = k + 1;
            }
            match func.blocks[bi].terminator {
                Some(t) => {
                    set_location(&mut st, func, t);
                    lower_terminator(&mut st, ctx, func, bi, t);
                },
                None => {},
            }
            bi = bi + 1;
        }
        st.mf
    }
}

// ── block layout ───────────────────────────────────────────────────────────

/// `b` has the name and source file of `a`, and at least its blocks, with
/// the same labels.
pub open spec fn labels_kept(a: FunctionView, b: FunctionView) -> bool {
    &&& b.name == a.name
    &&& b.debug_source == a.debug_source
    &&& a.blocks.len() <= b.blocks.len()
    &&& forall|i: int| 0 <= i < a.blocks.len() ==> (#[trigger] b.blocks[i]).label == a.blocks[i].label
}

proof fn lemma_labels_trans(a: FunctionView, b: FunctionView, c: FunctionView)
    requires
        labels_kept(a, b),
        labels_kept(b, c),
    ensures
        labels_kept(a, c),
{
    assert forall|i: int| 0 <= i < a.blocks.len() implies (#[trigger] c.blocks[i]).label == a.blocks[i].label by {
        assert(c.blocks[i].label == b.blocks[i].label);
    }
}

proof fn lemma_emit_labels(s: LowerView, b: int, i: InstrView)
    requires
        0 <= b < s.mf.blocks.len(),
    ensures
        labels_kept(s.mf, emit(s, b, i).mf),
        emit(s, b, i).mf.blocks.len() == s.mf.blocks.len(),
{
}

proof fn lemma_resolve_labels(s: LowerView, consts: Seq<ConstantData>, b: int, v: ValueRef)
    requires
        0 <= b < s.mf.blocks.len(),
    ensures
        labels_kept(s.mf, resolve(s, consts, b, v).0.mf),
        resolve(s, consts, b, v).0.mf.blocks.len() == s.mf.blocks.len(),
{
}

proof fn lemma_resolve_all_labels(s: LowerView, consts: Seq<ConstantData>, b: int, args: Seq<ValueRef>, n: nat)
    requires
        0 <= b < s.mf.blocks.len(),
    ensures
        labels_kept(s.mf, resolve_all(s, consts, b, args, n).mf),
        resolve_all(s, consts, b, args, n).mf.blocks.len() == s.mf.blocks.len(),
    decreases n,
{
    if n > 0 {
        lemma_resolve_all_labels(s, consts, b, args, (n - 1) as nat);
        let s0 = resolve_all(s, consts, b, args, (n - 1) as nat);
        lemma_resolve_labels(s0, consts, b, args[n - 1]);
        lemma_labels_trans(s.mf, s0.mf, resolve(s0, consts, b, args[n - 1]).0.mf);
    }
}

proof fn lemma_pass_args_labels(s: LowerView, consts: Seq<ConstantData>, b: int, args: Seq<ValueRef>, n: nat, spill: bool)
    requires
        0 <= b < s.mf.blocks.len(),
    ensures
        labels_kept(s.mf, pass_args(s, consts, b, args, n, spill).mf),
        pass_args(s, consts, b, args, n, spill).mf.blocks.len() == s.mf.blocks.len(),
    decreases n,
{
    if n > 0 {
        lemma_pass_args_labels(s, consts, b, args, (n - 1) as nat, spill);
        let s0 = pass_args(s, consts, b, args, (n - 1) as nat, spill);
        lemma_resolve_labels(s0, consts, b, args[n - 1]);
        let (s1, src) = resolve(s0, consts, b, args[n - 1]);
        lemma_labels_trans(s.mf, s0.mf, s1.mf);
        lemma_emit_labels(s1, b, mov_to_preg_instr(PReg(0), src));
        let t = pass_args(s, consts, b, args, n, spill);
        lemma_labels_trans(s1.mf, s1.mf, t.mf);
        assert(labels_kept(s1.mf, t.mf));
        lemma_labels_trans(s.mf, s1.mf, t.mf);
    }
}

proof fn lemma_compare_labels(s: LowerView, pred: IntPredicate, lhs: VReg, rhs: VReg, b: int, dst: VReg)
    requires
        0 <= b < s.mf.blocks.len(),
    ensures
        labels_kept(s.mf, compare_to_bool(s, pred, lhs, rhs, b, dst).mf),
        compare_to_bool(s, pred, lhs, rhs, b, dst).mf.blocks.len() == s.mf.blocks.len(),
{
}

proof fn lemma_select_labels(s: LowerView, consts: Seq<ConstantData>, b: int, iid: InstrId, cond: ValueRef, tv: ValueRef, fv: ValueRef)
    requires
        0 <= b < s.mf.blocks.len(),
    ensures
        labels_kept(s.mf, select_lowered(s, consts, b, iid, cond, tv, fv).mf),
        select_lowered(s, consts, b, iid, cond, tv, fv).mf.blocks.len() == s.mf.blocks.len(),
{
}

proof fn lemma_cas_labels(
    s: LowerView,
    consts: Seq<ConstantData>,
    types: Seq<TypeData>,
    b: int,
    iid: InstrId,
    ptr: ValueRef,
    expected: ValueRef,
    new_val: ValueRef,
    val_ty: TypeId,
)
    requires
        0 <= b < s.mf.blocks.len(),
    ensures
        labels_kept(s.mf, cas_lowered(s, consts, types, b, iid, ptr, expected, new_val, val_ty).mf),
        cas_lowered(s, consts, types, b, iid, ptr, expected, new_val, val_ty).mf.blocks.len() == s.mf.blocks.len(),
{
}

proof fn lemma_call_labels(s: LowerView, consts: Seq<ConstantData>, b: int, iid: InstrId, callee: ValueRef, args: Seq<ValueRef>)
    requires
        0 <= b < s.mf.blocks.len(),
    ensures
        labels_kept(s.mf, call_lowered(s, consts, b, iid, callee, args).mf),
        call_lowered(s, consts, b, iid, callee, args).mf.blocks.len() == s.mf.blocks.len(),
{
    lemma_resolve_all_labels(s, consts, b, args, args.len());
    lemma_pass_args_labels(s, consts, b, args, args.len(), true);
    let s1 = pass_args(s, consts, b, args, args.len(), true);
    lemma_resolve_labels(s1, consts, b, callee);
    lemma_labels_trans(s.mf, s1.mf, resolve(s1, consts, b, callee).0.mf);
}

#[verifier::spinoff_prover]
#[verifier::rlimit(60)]
proof fn lemma_kind_labels(s: LowerView, consts: Seq<ConstantData>, types: Seq<TypeData>, b: int, iid: InstrId, k: KindView)
    requires
        0 <= b < s.mf.blocks.len(),
    ensures
        labels_kept(s.mf, lower_kind(s, consts, types, b, iid, k).mf),
        lower_kind(s, consts, types, b, iid, k).mf.blocks.len() == s.mf.blocks.len(),
{
    match k {
        KindView::ICmp { pred, lhs, rhs } => {
            let (s1, d) = new_dst(s, iid);
            let (s2, l) = resolve(s1, consts, b, lhs);
            let (s3, r) = resolve(s2, consts, b, rhs);
            lemma_compare_labels(s3, pred, l, r, b, d);
        },
        KindView::Select { cond, then_val, else_val } => lemma_select_labels(s, consts, b, iid, cond, then_val, else_val),
        KindView::Call { callee, args, .. } => lemma_call_labels(s, consts, b, iid, callee, args),
        KindView::InlineAsm { args, .. } => {
            lemma_resolve_all_labels(s, consts, b, args, args.len());
        },
        KindView::CompareExchange { ptr, expected, new_val, val_ty } => lemma_cas_labels(
            s,
            consts,
            types,
            b,
            iid,
            ptr,
            expected,
            new_val,
            val_ty,
        ),
        _ => {},
    }
}

proof fn lemma_phi_copies_labels(s: LowerView, f: FuncView, consts: Seq<ConstantData>, src: int, to: int, dest: BlockId, n: nat)
    requires
        0 <= to < s.mf.blocks.len(),
    ensures
        labels_kept(s.mf, phi_copies(s, f, consts, src, to, dest, n).mf),
        phi_copies(s, f, consts, src, to, dest, n).mf.blocks.len() == s.mf.blocks.len(),
    decreases n,
{
    if n > 0 {
        lemma_phi_copies_labels(s, f, consts, src, to, dest, (n - 1) as nat);
        let s0 = phi_copies(s, f, consts, src, to, dest, (n - 1) as nat);
        let t = phi_copies(s, f, consts, src, to, dest, n);
        assert(labels_kept(s0.mf, t.mf));
        lemma_labels_trans(s.mf, s0.mf, t.mf);
    }
}

proof fn lemma_switch_labels(
    s: LowerView,
    f: FuncView,
    consts: Seq<ConstantData>,
    b: int,
    v: VReg,
    cases: Seq<(ValueRef, BlockId)>,
    n: nat,
)
    requires
        0 <= b < s.mf.blocks.len(),
    ensures
        labels_kept(s.mf, switch_cases(s, f, consts, b, v, cases, n).mf),
        switch_cases(s, f, consts, b, v, cases, n).mf.blocks.len() == s.mf.blocks.len(),
    decreases n,
{
    if n > 0 {
        lemma_switch_labels(s, f, consts, b, v, cases, (n - 1) as nat);
        let s0 = switch_cases(s, f, consts, b, v, cases, (n - 1) as nat);
        let (s1, cv) = resolve(s0, consts, b, cases[n - 1].0);
        lemma_resolve_labels(s0, consts, b, cases[n - 1].0);
        lemma_phi_copies_labels(s1, f, consts, b, b, cases[n - 1].1, f.blocks[cases[n - 1].1.0 as int].body.len());
        let s2 = edge_copies(s1, f, consts, b, b, cases[n - 1].1);
        lemma_labels_trans(s.mf, s0.mf, s1.mf);
        lemma_labels_trans(s.mf, s1.mf, s2.mf);
        lemma_emit_labels(s2, b, mi_new(BEQ));
        let t = switch_cases(s, f, consts, b, v, cases, n);
        assert(labels_kept(s2.mf, t.mf));
        lemma_labels_trans(s.mf, s2.mf, t.mf);
    }
}

proof fn lemma_term_labels(s: LowerView, f: FuncView, consts: Seq<ConstantData>, b: int, tid: InstrId, k: KindView)
    requires
        0 <= b < s.mf.blocks.len(),
    ensures
        labels_kept(s.mf, lower_term(s, f, consts, b, tid, k).mf),
{
    let t = lower_term(s, f, consts, b, tid, k);
    match k {
        KindView::Br { dest } => {
            lemma_phi_copies_labels(s, f, consts, b, b, dest, f.blocks[dest.0 as int].body.len());
            let s1 = edge_copies(s, f, consts, b, b, dest);
            assert(labels_kept(s1.mf, t.mf));
            lemma_labels_trans(s.mf, s1.mf, t.mf);
        },
        KindView::CondBr { cond, then_dest, else_dest } => {
            lemma_resolve_labels(s, consts, b, cond);
            let (s1, c) = resolve(s, consts, b, cond);
            let label = s1.mf.blocks[b].label;
            let te = s1.mf.blocks.len() as int;
            let s2 = add_mblock(s1, label + ".then_edge"@);
            let ee = te + 1;
            let s3 = add_mblock(s2, label + ".else_edge"@);
            assert(labels_kept(s1.mf, s3.mf));
            lemma_labels_trans(s.mf, s1.mf, s3.mf);
            lemma_phi_copies_labels(s3, f, consts, b, te, then_dest, f.blocks[then_dest.0 as int].body.len());
            let s3a = edge_copies(s3, f, consts, b, te, then_dest);
            let s4 = jump(s3a, te, then_dest.0 as usize);
            assert(labels_kept(s3a.mf, s4.mf));
            lemma_labels_trans(s.mf, s3.mf, s3a.mf);
            lemma_labels_trans(s.mf, s3a.mf, s4.mf);
            lemma_phi_copies_labels(s4, f, consts, b, ee, else_dest, f.blocks[else_dest.0 as int].body.len());
            let s4a = edge_copies(s4, f, consts, b, ee, else_dest);
            let s5 = jump(s4a, ee, else_dest.0 as usize);
            assert(labels_kept(s4a.mf, s5.mf));
            lemma_labels_trans(s.mf, s4.mf, s4a.mf);
            lemma_labels_trans(s.mf, s4a.mf, s5.mf);
            assert(labels_kept(s5.mf, t.mf));
            lemma_labels_trans(s.mf, s5.mf, t.mf);
        },
        KindView::Invoke { callee, args, normal_dest, has_result } => {
            lemma_pass_args_labels(s, consts, b, args, args.len(), false);
            let s1 = pass_args(s, consts, b, args, args.len(), false);
            lemma_resolve_labels(s1, consts, b, callee);
            let (s2, cv) = resolve(s1, consts, b, callee);
            lemma_labels_trans(s.mf, s1.mf, s2.mf);
            let s3 = emit(s2, b, invoke_instr(cv));
            lemma_labels_trans(s.mf, s2.mf, s3.mf);
            let s4 = if has_result {
                let (s5, d) = new_dst(s3, tid);
                emit(s5, b, mov_from_preg_instr(d, PReg(INT_RET)))
            } else {
                s3
            };
            assert(labels_kept(s3.mf, s4.mf));
            lemma_labels_trans(s.mf, s3.mf, s4.mf);
            lemma_phi_copies_labels(s4, f, consts, b, b, normal_dest, f.blocks[normal_dest.0 as int].body.len());
            let s4a = edge_copies(s4, f, consts, b, b, normal_dest);
            lemma_labels_trans(s.mf, s4.mf, s4a.mf);
            assert(labels_kept(s4a.mf, t.mf));
            lemma_labels_trans(s.mf, s4a.mf, t.mf);
        },
        KindView::Switch { val, default, cases } => {
            lemma_resolve_labels(s, consts, b, val);
            let (s1, v) = resolve(s, consts, b, val);
            lemma_switch_labels(s1, f, consts, b, v, cases, cases.len());
            let s2 = switch_cases(s1, f, consts, b, v, cases, cases.len());
            lemma_labels_trans(s.mf, s1.mf, s2.mf);
            lemma_phi_copies_labels(s2, f, consts, b, b, default, f.blocks[default.0 as int].body.len());
            let s2a = edge_copies(s2, f, consts, b, b, default);
            lemma_labels_trans(s.mf, s2.mf, s2a.mf);
            assert(labels_kept(s2a.mf, t.mf));
            lemma_labels_trans(s.mf, s2a.mf, t.mf);
        },
        KindView::Ret { val } => {
            match val {
                Some(rv) => {
                    lemma_resolve_labels(s, consts, b, rv);
                    let s1 = resolve(s, consts, b, rv).0;
                    assert(labels_kept(s1.mf, t.mf));
                    lemma_labels_trans(s.mf, s1.mf, t.mf);
                },
                None => {},
            }
        },
        _ => {},
    }
}

proof fn lemma_body_labels(s: LowerView, f: FuncView, consts: Seq<ConstantData>, types: Seq<TypeData>, bi: int, n: nat)
    requires
        0 <= bi < s.mf.blocks.len(),
    ensures
        labels_kept(s.mf, lower_body(s, f, consts, types, bi, n).mf),
    decreases n,
{
    if n > 0 {
        lemma_body_labels(s, f, consts, types, bi, (n - 1) as nat);
        let s0 = lower_body(s, f, consts, types, bi, (n - 1) as nat);
        let iid = f.blocks[bi].body[n - 1];
        let a = at_instr(s0, f, iid);
        assert(labels_kept(s0.mf, a.mf));
        lemma_kind_labels(a, consts, types, bi, iid, f.instrs[iid.0 as int]);
        lemma_labels_trans(s.mf, s0.mf, a.mf);
        lemma_labels_trans(s.mf, a.mf, lower_body(s, f, consts, types, bi, n).mf);
    }
}

proof fn lemma_blocks_labels(s: LowerView, f: FuncView, consts: Seq<ConstantData>, types: Seq<TypeData>, n: nat)
    requires
        n <= s.mf.blocks.len(),
    ensures
        labels_kept(s.mf, lower_blocks(s, f, consts, types, n).mf),
    decreases n,
{
    if n > 0 {
        lemma_blocks_labels(s, f, consts, types, (n - 1) as nat);
        let s0 = lower_blocks(s, f, consts, types, (n - 1) as nat);
        let bi = n - 1;
        lemma_body_labels(s0, f, consts, types, bi, f.blocks[bi].body.len());
        let s1 = lower_body(s0, f, consts, types, bi, f.blocks[bi].body.len());
        lemma_labels_trans(s.mf, s0.mf, s1.mf);
        match f.blocks[bi].terminator {
            Some(t) => {
                let a = at_instr(s1, f, t);
                assert(labels_kept(s1.mf, a.mf));
                lemma_term_labels(a, f, consts, bi, t, f.instrs[t.0 as int]);
                lemma_labels_trans(s.mf, s1.mf, a.mf);
                lemma_labels_trans(s.mf, a.mf, lower_blocks(s, f, consts, types, n).mf);
            },
            None => {},
        }
    }
}

proof fn lemma_phi_regs_blocks(s: LowerView, f: FuncView, n: nat)
    ensures
        phi_regs(s, f, n).mf.blocks == s.mf.blocks,
        phi_regs(s, f, n).mf.name == s.mf.name,
        phi_regs(s, f, n).mf.debug_source == s.mf.debug_source,
    decreases n,
{
    if n > 0 {
        lemma_phi_regs_blocks(s, f, (n - 1) as nat);
        lemma_phi_regs_block_blocks(phi_regs(s, f, (n - 1) as nat), f, n - 1, f.blocks[n - 1].body.len());
    }
}

proof fn lemma_phi_regs_block_blocks(s: LowerView, f: FuncView, bi: int, n: nat)
    ensures
        phi_regs_block(s, f, bi, n).mf.blocks == s.mf.blocks,
        phi_regs_block(s, f, bi, n).mf.name == s.mf.name,
        phi_regs_block(s, f, bi, n).mf.debug_source == s.mf.debug_source,
    decreases n,
{
    if n > 0 {
        lemma_phi_regs_block_blocks(s, f, bi, (n - 1) as nat);
    }
}

proof fn lemma_arg_regs_labels(s: LowerView, n: nat)
    requires
        0 < s.mf.blocks.len(),
    ensures
        labels_kept(s.mf, arg_regs(s, n).mf),
        arg_regs(s, n).mf.blocks.len() == s.mf.blocks.len(),
    decreases n,
{
    if n > 0 {
        lemma_arg_regs_labels(s, (n - 1) as nat);
        let s0 = arg_regs(s, (n - 1) as nat);
        assert(labels_kept(s0.mf, arg_regs(s, n).mf));
        lemma_labels_trans(s.mf, s0.mf, arg_regs(s, n).mf);
    }
}

/// Lowering keeps the layout of the IR function: a declaration, or a
/// function without blocks, gets no machine blocks; otherwise machine block
/// `i` is IR block `i`, labelled with the function's name for the entry and
/// `function.block` for the others, and any further blocks (the edge blocks
/// of conditional branches) come after them.  The machine function keeps
/// the function's name and the module's source file name.
pub proof fn lemma_block_layout(consts: Seq<ConstantData>, types: Seq<TypeData>, source: Seq<char>, f: FuncView)
    ensures
        rv_lowered(consts, types, source, f).name == f.name,
        rv_lowered(consts, types, source, f).debug_source == source,
        (f.is_declaration || f.blocks.len() == 0) ==> rv_lowered(consts, types, source, f).blocks.len() == 0,
        !(f.is_declaration || f.blocks.len() == 0) ==> {
            &&& rv_lowered(consts, types, source, f).blocks.len() >= f.blocks.len()
            &&& forall|i: int|
                0 <= i < f.blocks.len() ==> (#[trigger] rv_lowered(consts, types, source, f).blocks[i]).label == block_label(f, i)
        },
{
    if !(f.is_declaration || f.blocks.len() == 0) {
        let mf0 = lowering_start(f, source);
        let s0 = LowerView { mf: FunctionView { blocks: labelled_blocks(f, f.blocks.len()), ..mf0 }, vmap: Seq::empty(), loc: None };
        lemma_phi_regs_blocks(s0, f, f.blocks.len());
        let s1 = phi_regs(s0, f, f.blocks.len());
        lemma_arg_regs_labels(s1, f.num_args as nat);
        let s2 = arg_regs(s1, f.num_args as nat);
        lemma_blocks_labels(s2, f, consts, types, f.blocks.len());
        let s3 = lower_blocks(s2, f, consts, types, f.blocks.len());
        lemma_labels_trans(s1.mf, s2.mf, s3.mf);
        assert forall|i: int| 0 <= i < f.blocks.len() implies (#[trigger] s3.mf.blocks[i]).label == block_label(f, i) by {
            assert(s1.mf.blocks[i] == labelled_blocks(f, f.blocks.len())[i]);
        }
    }
}

// ── instruction selection laws ─────────────────────────────────────────────

/// The ISA's funct7 and funct3 for the RV64 register-register instruction
/// that computes each IR operation on 64-bit values: add, sub, mul, div
/// (signed), divu, rem (signed), remu, and, or, xor, sll, srl (logical), sra
/// (arithmetic).
pub open spec fn isa_funct_of(op: BinOp) -> (u32, u32) {
    match op {
        BinOp::Add => (0x00, 0x0),
        BinOp::Sub => (0x20, 0x0),
        BinOp::Mul => (0x01, 0x0),
        BinOp::SDiv => (0x01, 0x4),
        BinOp::UDiv => (0x01, 0x5),
        BinOp::SRem => (0x01, 0x6),
        BinOp::URem => (0x01, 0x7),
        BinOp::And => (0x00, 0x7),
        BinOp::Or => (0x00, 0x6),
        BinOp::Xor => (0x00, 0x4),
        BinOp::Shl => (0x00, 0x1),
        BinOp::LShr => (0x00, 0x5),
        BinOp::AShr => (0x20, 0x5),
    }
}

proof fn lemma_vlookup_push(m: Seq<(ValueRef, VReg)>, e: (ValueRef, VReg), k: ValueRef)
    ensures
        vlookup(m.push(e), k) == if e.0 == k {
            Some(e.1)
        } else {
            vlookup(m, k)
        },
{
    assert(m.push(e).drop_last() =~= m);
}

proof fn lemma_resolve_binds(s: LowerView, consts: Seq<ConstantData>, b: int, v: ValueRef)
    ensures
        vlookup(resolve(s, consts, b, v).0.vmap, v) == Some(resolve(s, consts, b, v).1),
        forall|k: ValueRef| #[trigger] vlookup(resolve(s, consts, b, v).0.vmap, k) == if k == v {
            Some(resolve(s, consts, b, v).1)
        } else {
            vlookup(s.vmap, k)
        } || vlookup(s.vmap, v) is Some,
        vlookup(s.vmap, v) is Some ==> resolve(s, consts, b, v).0.vmap == s.vmap,
{
    if vlookup(s.vmap, v) is None {
        let (s1, r) = fresh(s);
        assert forall|k: ValueRef| #[trigger] vlookup(s1.vmap.push((v, r)), k) == if k == v { Some(r) } else { vlookup(s.vmap, k) } by {
            lemma_vlookup_push(s1.vmap, (v, r), k);
        }
        lemma_vlookup_push(s1.vmap, (v, r), v);
    }
}

/// Instruction selection for `dst = lhs op rhs`: exactly one instruction is
/// added at the end of block `b` (after any constant loads), its opcode is
/// encoded as the ISA instruction that computes `op` (so signed division and
/// remainder become div and rem, unsigned ones divu and remu, and `ashr`
/// becomes sra), it writes the register now holding the result, and it
/// reads the registers holding `lhs` and `rhs`, in that order.
pub proof fn lemma_binary_selection(
    s: LowerView,
    consts: Seq<ConstantData>,
    types: Seq<TypeData>,
    b: int,
    iid: InstrId,
    op: BinOp,
    ty: TypeId,
    lhs: ValueRef,
    rhs: ValueRef,
    nsw: bool,
)
    requires
        0 <= b < s.mf.blocks.len(),
        lhs != ValueRef::Instruction(iid),
        rhs != ValueRef::Instruction(iid),
    ensures
        ({
            let t = lower_kind(s, consts, types, b, iid, KindView::Binary { op, ty, lhs, rhs, nsw });
            let mi = t.mf.blocks[b].instrs.last();
            &&& t.mf.blocks[b].instrs.len() > 0
            &&& isa_alu_funct(mi.opcode.0) == Some(isa_funct_of(op))
            &&& mi.dst == vlookup(t.vmap, ValueRef::Instruction(iid))
            &&& vlookup(t.vmap, lhs) is Some
            &&& vlookup(t.vmap, rhs) is Some
            &&& mi.operands == seq![OperandView::VReg(vlookup(t.vmap, lhs)->0), OperandView::VReg(vlookup(t.vmap, rhs)->0)]
        }),
{
    let (s1, d) = new_dst(s, iid);
    let (sf, dd) = fresh(s);
    lemma_vlookup_push(sf.vmap, (ValueRef::Instruction(iid), dd), ValueRef::Instruction(iid));
    lemma_vlookup_push(sf.vmap, (ValueRef::Instruction(iid), dd), lhs);
    lemma_resolve_binds(s1, consts, b, lhs);
    let (s2, l) = resolve(s1, consts, b, lhs);
    lemma_resolve_binds(s2, consts, b, rhs);
    let (s3, r) = resolve(s2, consts, b, rhs);
    assert(vlookup(s3.vmap, ValueRef::Instruction(iid)) == Some(d));
    assert(vlookup(s3.vmap, lhs) == Some(l));
    assert(vlookup(s3.vmap, rhs) == Some(r));
    let t = lower_kind(s, consts, types, b, iid, KindView::Binary { op, ty, lhs, rhs, nsw });
    assert(t == emit(s3, b, op3(binop_opcode(op), d, l, r)));
    assert(op3(binop_opcode(op), d, l, r).operands =~= seq![OperandView::VReg(l), OperandView::VReg(r)]);
}

/// The AMO funct5 and funct3 of the instruction selected for an atomic
/// read-modify-write: amoadd (0x00) for add, and also for sub and the
/// operations without an AMO; amoswap (0x01) for xchg; amoxor (0x04);
/// amoand (0x0C) for and and nand; amoor (0x08); amomin (0x10), amomax
/// (0x14), amominu (0x18), amomaxu (0x1C); the doubleword form (funct3 3)
/// exactly for a 64-bit value, except that minimum and maximum always use
/// the word form (funct3 2).
pub proof fn lemma_rmw_selection(op: RmwOp, wide: bool)
    ensures
        amo_table(rmw_opcode(op, wide)) is Some,
        ({
            let e = amo_table(rmw_opcode(op, wide))->0;
            let minmax = op is Min || op is Max || op is UMin || op is UMax;
            &&& (op is Add || op is Sub || op is Other) ==> e.0 == 0x00
            &&& op is Xchg ==> e.0 == 0x01
            &&& op is Xor ==> e.0 == 0x04
            &&& (op is And || op is Nand) ==> e.0 == 0x0C
            &&& op is Or ==> e.0 == 0x08
            &&& op is Min ==> e.0 == 0x10
            &&& op is Max ==> e.0 == 0x14
            &&& op is UMin ==> e.0 == 0x18
            &&& op is UMax ==> e.0 == 0x1C
            &&& e.1 == if wide && !minmax { 3u32 } else { 2u32 }
            &&& e.2
        }),
{
}

/// Lowering an atomic read-modify-write appends one AMO instruction whose
/// operation follows `lemma_rmw_selection`, in its doubleword form exactly
/// when the value type is the 64-bit integer; it writes the result's new
/// register from the pointer and value registers.
pub proof fn lemma_rmw_lowering(
    s: LowerView,
    consts: Seq<ConstantData>,
    types: Seq<TypeData>,
    b: int,
    iid: InstrId,
    op: RmwOp,
    ptr: ValueRef,
    val: ValueRef,
    ty: TypeId,
)
    requires
        0 <= b < s.mf.blocks.len(),
    ensures
        ({
            let t = lower_kind(s, consts, types, b, iid, KindView::AtomicRmw { op, ptr, val, ty });
            let mi = t.mf.blocks[b].instrs.last();
            let wide = types[ty.0 as int] == TypeData::Integer(64);
            &&& t.mf.blocks[b].instrs.len() > 0
            &&& mi.opcode.0 == rmw_opcode(op, wide)
            &&& mi.dst == vlookup(t.vmap, ValueRef::Instruction(iid))
            &&& mi.operands.len() == 2
        }),
{
    let (s1, p) = resolve(s, consts, b, ptr);
    let (s2, v) = resolve(s1, consts, b, val);
    let (sf, d) = fresh(s2);
    lemma_vlookup_push(sf.vmap, (ValueRef::Instruction(iid), d), ValueRef::Instruction(iid));
    assert(int_bits(types[ty.0 as int]) == 64 <==> types[ty.0 as int] == TypeData::Integer(64));
}

/// Lowering compare-and-exchange appends load-reserved of the old value,
/// store-conditional of the new value and a copy of the old value into the
/// result, all in the doubleword form exactly when the compared type is
/// the 64-bit integer.
pub proof fn lemma_cas_lowering(
    s: LowerView,
    consts: Seq<ConstantData>,
    types: Seq<TypeData>,
    b: int,
    iid: InstrId,
    ptr: ValueRef,
    expected: ValueRef,
    new_val: ValueRef,
    val_ty: TypeId,
)
    requires
        0 <= b < s.mf.blocks.len(),
    ensures
        ({
            let t = lower_kind(s, consts, types, b, iid, KindView::CompareExchange { ptr, expected, new_val, val_ty });
            let ins = t.mf.blocks[b].instrs;
            let n = ins.len();
            let f3: u32 = if types[val_ty.0 as int] == TypeData::Integer(64) { 3 } else { 2 };
            &&& n >= 3
            &&& amo_table(ins[n - 3].opcode.0) == Some((0x02u32, f3, false))
            &&& amo_table(ins[n - 2].opcode.0) == Some((0x03u32, f3, true))
            &&& ins[n - 1].opcode.0 == MOV_RR
            &&& ins[n - 3].dst is Some
            &&& ins[n - 1].operands == seq![OperandView::VReg(ins[n - 3].dst->0)]
            &&& ins[n - 1].dst == vlookup(t.vmap, ValueRef::Instruction(iid))
        }),
{
    let (s1, p) = resolve(s, consts, b, ptr);
    let (s2, _e) = resolve(s1, consts, b, expected);
    let (s3, nv) = resolve(s2, consts, b, new_val);
    let (s4, old_v) = fresh(s3);
    let wide = int_bits(types[val_ty.0 as int]) == 64;
    let s5 = emit(s4, b, op2(if wide { LR_D } else { LR_W }, old_v, p));
    let (s6, status) = fresh(s5);
    let s7 = emit(s6, b, op3(if wide { SC_D } else { SC_W }, status, p, nv));
    let (sf, d) = fresh(s7);
    lemma_vlookup_push(sf.vmap, (ValueRef::Instruction(iid), d), ValueRef::Instruction(iid));
    assert(op2(MOV_RR, d, old_v).operands =~= seq![OperandView::VReg(old_v)]);
}

// ── what a comparison sequence computes ────────────────────────────────────

/// Does the integer comparison `pred` hold of the 64-bit values `x` and `y`
/// (the signed predicates read them as two's complement)?
pub open spec fn predicate_holds(pred: IntPredicate, x: u64, y: u64) -> bool {
    match pred {
        IntPredicate::Eq => x == y,
        IntPredicate::Ne => x != y,
        IntPredicate::Slt => (x as i64) < (y as i64),
        IntPredicate::Sle => (x as i64) <= (y as i64),
        IntPredicate::Sgt => (x as i64) > (y as i64),
        IntPredicate::Sge => (x as i64) >= (y as i64),
        IntPredicate::Ult => x < y,
        IntPredicate::Ule => x <= y,
        IntPredicate::Ugt => x > y,
        IntPredicate::Uge => x >= y,
    }
}

/// The value of an operand given the virtual registers' values: the zero
/// register reads 0, another physical register an unknown value, an
/// immediate its two's complement bits.
pub open spec fn operand_value(o: OperandView, regs: Map<u32, u64>) -> u64 {
    match o {
        OperandView::VReg(v) => regs[v.0],
        OperandView::PReg(p) => if p.0 == 0 {
            0
        } else {
            arbitrary()
        },
        OperandView::Imm(x) => x as u64,
        _ => arbitrary(),
    }
}

/// What the RV64 set-less-than and exclusive-or instructions compute from
/// their two operands: slt compares as signed, sltu and sltiu as unsigned,
/// xor and xori give the bitwise exclusive or; any other instruction an
/// unknown value.
pub open spec fn compare_step(op: u32, a: u64, b: u64) -> u64 {
    if op == SLT_RR {
        if (a as i64) < (b as i64) {
            1
        } else {
            0
        }
    } else if op == SLTU_RR || op == SLTIU {
        if a < b {
            1
        } else {
            0
        }
    } else if op == XOR_RR || op == XORI {
        a ^ b
    } else {
        arbitrary()
    }
}

/// The virtual registers' values after running `instrs` in order.
pub open spec fn run_compare(instrs: Seq<InstrView>, regs: Map<u32, u64>) -> Map<u32, u64>
    decreases instrs.len(),
{
    if instrs.len() == 0 {
        regs
    } else {
        let r = run_compare(instrs.drop_last(), regs);
        let i = instrs.last();
        match i.dst {
            Some(d) => r.insert(
                d.0,
                compare_step(i.opcode.0, operand_value(i.operands[0], r), operand_value(i.operands[1], r)),
            ),
            None => r,
        }
    }
}

proof fn lemma_xor_bits(x: u64, y: u64)
    ensures
        (x ^ y < 1) == (x == y),
        (x ^ y > 0) == (x != y),
        (0u64 ^ 1u64) == 1,
        (1u64 ^ 1u64) == 0,
{
    assert((x ^ y < 1) == (x == y)) by (bit_vector);
    assert((x ^ y > 0) == (x != y)) by (bit_vector);
    assert((0u64 ^ 1u64) == 1) by (bit_vector);
    assert((1u64 ^ 1u64) == 0) by (bit_vector);
}

/// The instructions a comparison is lowered to compute it: run on any
/// values `x` of `lhs` and `y` of `rhs`, they leave 1 in `dst` when the
/// predicate holds of `x` and `y` and 0 when it does not (the temporary
/// they may use is a new register, distinct from the operands and `dst`).
pub proof fn lemma_compare_semantics(s: LowerView, pred: IntPredicate, lhs: VReg, rhs: VReg, b: int, dst: VReg, x: u64, y: u64)
    requires
        0 <= b < s.mf.blocks.len(),
        lhs.0 != s.mf.next_vreg,
        rhs.0 != s.mf.next_vreg,
        dst.0 != s.mf.next_vreg,
        lhs != rhs || x == y,
    ensures
        ({
            let t = compare_to_bool(s, pred, lhs, rhs, b, dst);
            let added = t.mf.blocks[b].instrs.subrange(s.mf.blocks[b].instrs.len() as int, t.mf.blocks[b].instrs.len() as int);
            let regs = Map::<u32, u64>::empty().insert(lhs.0, x).insert(rhs.0, y);
            run_compare(added, regs)[dst.0] == if predicate_holds(pred, x, y) {
                1u64
            } else {
                0u64
            }
        }),
{
    broadcast use vstd::map::group_map_axioms;
    lemma_xor_bits(x, y);
    lemma_xor_bits(y, x);
    let regs = Map::<u32, u64>::empty().insert(lhs.0, x).insert(rhs.0, y);
    if lhs.0 == rhs.0 {
        assert(lhs == rhs);
    }
    assert(regs[lhs.0] == x);
    assert(regs[rhs.0] == y);
    let n0 = s.mf.blocks[b].instrs.len() as int;
    let t = compare_to_bool(s, pred, lhs, rhs, b, dst);
    let added = t.mf.blocks[b].instrs.subrange(n0, t.mf.blocks[b].instrs.len() as int);
    let tv = VReg(s.mf.next_vreg);
    match pred {
        IntPredicate::Slt | IntPredicate::Sgt | IntPredicate::Ult | IntPredicate::Ugt => {
            assert(added.len() == 1);
            assert(added.drop_last() =~= Seq::<InstrView>::empty());
            assert(run_compare(added.drop_last(), regs) == regs);
        },
        _ => {
            assert(added.len() == 2);
            assert(added.drop_last().drop_last() =~= Seq::<InstrView>::empty());
            assert(added.drop_last().last() == added[0]);
            assert(run_compare(added.drop_last().drop_last(), regs) == regs);
            assert(added[0].dst == Some(tv));
            let r1 = run_compare(added.drop_last(), regs);
            assert(r1 == regs.insert(tv.0, compare_step(added[0].opcode.0, operand_value(added[0].operands[0], regs), operand_value(added[0].operands[1], regs))));
            assert(r1[lhs.0] == x);
            assert(r1[rhs.0] == y);
        },
    }
}

} // verus!
