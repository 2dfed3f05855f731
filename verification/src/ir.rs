//! A compact model of the SSA intermediate representation that the IR
//! transforms and the instruction selector read and rewrite: functions made
//! of basic blocks that list instruction ids, an instruction pool, and a
//! constant pool.

use vstd::prelude::*;
use crate::machine::DebugLoc;

verus! {

/// Index of a basic block in its function.
#[derive(Clone, Copy, Debug, PartialEq, Eq, Structural)]
pub struct BlockId(pub u32);

/// Index of an instruction in its function's instruction pool.
#[derive(Clone, Copy, Debug, PartialEq, Eq, Structural)]
pub struct InstrId(pub u32);

/// Index of a constant in the context's constant pool.
#[derive(Clone, Copy, Debug, PartialEq, Eq, Structural)]
pub struct ConstId(pub u32);

/// Index of a global (function or variable) in the module.
#[derive(Clone, Copy, Debug, PartialEq, Eq, Structural)]
pub struct GlobalId(pub u32);

/// An SSA value.
#[derive(Clone, Copy, Debug, PartialEq, Eq, Structural)]
pub enum ValueRef {
    /// The result of an instruction.
    Instruction(InstrId),
    /// A function argument.
    Argument(u32),
    /// A constant.
    Constant(ConstId),
    /// A global.
    Global(GlobalId),
}

/// Index of a type in the context's type table.
#[derive(Clone, Copy, Debug, PartialEq, Eq, Structural)]
pub struct TypeId(pub u32);

/// A constant of the constant pool.
#[derive(Clone, Copy, Debug, PartialEq, Eq, Structural)]
pub enum ConstantData {
    /// An integer constant of type `ty`, by its bits.
    Int { ty: TypeId, val: u64 },
    /// The null pointer.
    Null,
    /// A floating-point constant, by its bits.
    Float { bits: u64 },
    /// A reference to a profiling-counter intrinsic (`llvm.instrprof.*`).
    InstrProfRef,
    /// Any other constant.
    Other,
}

/// The operation of an atomic read-modify-write.
#[derive(Clone, Copy, Debug, PartialEq, Eq, Structural)]
pub enum RmwOp {
    Xchg,
    Add,
    Sub,
    And,
    Nand,
    Or,
    Xor,
    Max,
    Min,
    UMax,
    UMin,
    /// Any other operation.
    Other,
}

/// A two-operand integer operation.
#[derive(Clone, Copy, Debug, PartialEq, Eq, Structural)]
pub enum BinOp {
    Add,
    Sub,
    Mul,
    SDiv,
    UDiv,
    SRem,
    URem,
    And,
    Or,
    Xor,
    Shl,
    LShr,
    AShr,
}

/// Predicate of an integer comparison.
#[derive(Clone, Copy, Debug, PartialEq, Eq, Structural)]
pub enum IntPredicate {
    Eq,
    Ne,
    Ugt,
    Uge,
    Ult,
    Ule,
    Sgt,
    Sge,
    Slt,
    Sle,
}

/// Tail-call marking of a call instruction.
#[derive(Clone, Copy, Debug, PartialEq, Eq, Structural)]
pub enum TailCallKind {
    /// No marking.
    Unmarked,
    /// `tail`: the call may be emitted as a tail call.
    Tail,
    /// `musttail`: the call must be emitted as a tail call.
    MustTail,
    /// `notail`: the call must not be emitted as a tail call.
    NoTail,
}

/// What an instruction does, as far as the transforms look at it.
#[derive(Clone, Debug)]
pub enum InstrKind {
    /// Unconditional branch.
    Br { dest: BlockId },
    /// Conditional branch.
    CondBr { cond: ValueRef, then_dest: BlockId, else_dest: BlockId },
    /// SSA phi: one value per predecessor block.
    Phi { ty: u32, incoming: Vec<(ValueRef, BlockId)> },
    /// Return, with a value or `void`.
    Ret { val: Option<ValueRef> },
    /// Call.
    Call { tail: TailCallKind, callee: ValueRef, args: Vec<ValueRef> },
    /// Control never reaches this point.
    Unreachable,
    /// Integer arithmetic of type `ty`; `nsw` promises no signed wrap.
    Binary { op: BinOp, ty: TypeId, lhs: ValueRef, rhs: ValueRef, nsw: bool },
    /// Integer comparison, giving an `i1`.
    ICmp { pred: IntPredicate, lhs: ValueRef, rhs: ValueRef },
    /// Load of a value of type `ty` from `ptr`.
    Load { ty: TypeId, ptr: ValueRef },
    /// Store of `val`, a value of type `ty`, to `ptr`.
    Store { val: ValueRef, ptr: ValueRef, ty: TypeId },
    /// The address `val` as a 64-bit integer.
    PtrToInt { val: ValueRef },
    /// Stack slot for a value of type `ty`, with an optional alignment; its
    /// address is never null.
    Alloca { ty: TypeId, align: Option<u32> },
    /// `then_val` when `cond` holds, else `else_val`.
    Select { cond: ValueRef, then_val: ValueRef, else_val: ValueRef },
    /// Any other conversion of `val` (extension, truncation, bit,
    /// address-space or integer/pointer/float conversion, `freeze`).
    Cast { val: ValueRef },
    /// Address arithmetic on `ptr`.
    GetElementPtr { ptr: ValueRef },
    /// Floating-point arithmetic (`arith`) or comparison on `operands`;
    /// `reorderable` when it carries the `reassoc` or `fast` flag.
    FloatOp { operands: Vec<ValueRef>, arith: bool, reorderable: bool },
    /// Aggregate member access (`value_op`: extractvalue, insertvalue) or
    /// vector element access on `operands`.
    Aggregate { operands: Vec<ValueRef>, value_op: bool },
    /// Exception landing pad.
    LandingPad,
    /// Inline assembly on `args`, producing a value when `has_result`.
    InlineAsm { args: Vec<ValueRef>, has_result: bool },
    /// Memory fence.
    Fence,
    /// Compare-and-exchange at `ptr` of values of type `val_ty`.
    CompareExchange { ptr: ValueRef, expected: ValueRef, new_val: ValueRef, val_ty: TypeId },
    /// Atomic read-modify-write at `ptr` of a value of type `ty`.
    AtomicRmw { op: RmwOp, ptr: ValueRef, val: ValueRef, ty: TypeId },
    /// Call that continues at `normal_dest` (terminator), producing a value
    /// when `has_result`.
    Invoke { callee: ValueRef, args: Vec<ValueRef>, normal_dest: BlockId, has_result: bool },
    /// Multi-way branch on `val` (terminator).
    Switch { val: ValueRef, default: BlockId, cases: Vec<(ValueRef, BlockId)> },
    /// Any other instruction.
    Other,
}

/// Mathematical view of an instruction.
pub enum KindView {
    Br { dest: BlockId },
    CondBr { cond: ValueRef, then_dest: BlockId, else_dest: BlockId },
    Phi { ty: u32, incoming: Seq<(ValueRef, BlockId)> },
    Ret { val: Option<ValueRef> },
    Call { tail: TailCallKind, callee: ValueRef, args: Seq<ValueRef> },
    Unreachable,
    Binary { op: BinOp, ty: TypeId, lhs: ValueRef, rhs: ValueRef, nsw: bool },
    ICmp { pred: IntPredicate, lhs: ValueRef, rhs: ValueRef },
    Load { ty: TypeId, ptr: ValueRef },
    Store { val: ValueRef, ptr: ValueRef, ty: TypeId },
    PtrToInt { val: ValueRef },
    Alloca { ty: TypeId, align: Option<u32> },
    Select { cond: ValueRef, then_val: ValueRef, else_val: ValueRef },
    Cast { val: ValueRef },
    GetElementPtr { ptr: ValueRef },
    FloatOp { operands: Seq<ValueRef>, arith: bool, reorderable: bool },
    Aggregate { operands: Seq<ValueRef>, value_op: bool },
    LandingPad,
    InlineAsm { args: Seq<ValueRef>, has_result: bool },
    Fence,
    CompareExchange { ptr: ValueRef, expected: ValueRef, new_val: ValueRef, val_ty: TypeId },
    AtomicRmw { op: RmwOp, ptr: ValueRef, val: ValueRef, ty: TypeId },
    Invoke { callee: ValueRef, args: Seq<ValueRef>, normal_dest: BlockId, has_result: bool },
    Switch { val: ValueRef, default: BlockId, cases: Seq<(ValueRef, BlockId)> },
    Other,
}

impl View for InstrKind {
    type V = KindView;

    open spec fn view(&self) -> KindView {
        match self {
            InstrKind::Br { dest } => KindView::Br { dest: *dest },
            InstrKind::CondBr { cond, then_dest, else_dest } => KindView::CondBr {
                cond: *cond,
                then_dest: *then_dest,
                else_dest: *else_dest,
            },
            InstrKind::Phi { ty, incoming } => KindView::Phi { ty: *ty, incoming: incoming@ },
            InstrKind::Ret { val } => KindView::Ret { val: *val },
            InstrKind::Call { tail, callee, args } => KindView::Call { tail: *tail, callee: *callee, args: args@ },
            InstrKind::Unreachable => KindView::Unreachable,
            InstrKind::Binary { op, ty, lhs, rhs, nsw } => KindView::Binary {
                op: *op,
                ty: *ty,
                lhs: *lhs,
                rhs: *rhs,
                nsw: *nsw,
            },
            InstrKind::ICmp { pred, lhs, rhs } => KindView::ICmp { pred: *pred, lhs: *lhs, rhs: *rhs },
            InstrKind::Load { ty, ptr } => KindView::Load { ty: *ty, ptr: *ptr },
            InstrKind::Store { val, ptr, ty } => KindView::Store { val: *val, ptr: *ptr, ty: *ty },
            InstrKind::PtrToInt { val } => KindView::PtrToInt { val: *val },
            InstrKind::Alloca { ty, align } => KindView::Alloca { ty: *ty, align: *align },
            InstrKind::Select { cond, then_val, else_val } => KindView::Select {
                cond: *cond,
                then_val: *then_val,
                else_val: *else_val,
            },
            InstrKind::Cast { val } => KindView::Cast { val: *val },
            InstrKind::GetElementPtr { ptr } => KindView::GetElementPtr { ptr: *ptr },
            InstrKind::FloatOp { operands, arith, reorderable } => KindView::FloatOp {
                operands: operands@,
                arith: *arith,
                reorderable: *reorderable,
            },
            InstrKind::Aggregate { operands, value_op } => KindView::Aggregate { operands: operands@, value_op: *value_op },
            InstrKind::LandingPad => KindView::LandingPad,
            InstrKind::InlineAsm { args, has_result } => KindView::InlineAsm { args: args@, has_result: *has_result },
            InstrKind::Fence => KindView::Fence,
            InstrKind::CompareExchange { ptr, expected, new_val, val_ty } => KindView::CompareExchange {
                ptr: *ptr,
                expected: *expected,
                new_val: *new_val,
                val_ty: *val_ty,
            },
            InstrKind::AtomicRmw { op, ptr, val, ty } => KindView::AtomicRmw { op: *op, ptr: *ptr, val: *val, ty: *ty },
            InstrKind::Invoke { callee, args, normal_dest, has_result } => KindView::Invoke {
                callee: *callee,
                args: args@,
                normal_dest: *normal_dest,
                has_result: *has_result,
            },
            InstrKind::Switch { val, default, cases } => KindView::Switch { val: *val, default: *default, cases: cases@ },
            InstrKind::Other => KindView::Other,
        }
    }
}

/// A basic block: body instructions in order, then an optional terminator.
#[derive(Clone, Debug)]
pub struct BasicBlock {
    /// Label.
    pub name: String,
    /// Non-terminator instructions, in order.
    pub body: Vec<InstrId>,
    /// The terminator, once the block is complete.
    pub terminator: Option<InstrId>,
}

/// Mathematical view of a basic block.
pub struct BlockView {
    pub name: Seq<char>,
    pub body: Seq<InstrId>,
    pub terminator: Option<InstrId>,
}

impl View for BasicBlock {
    type V = BlockView;

    open spec fn view(&self) -> BlockView {
        BlockView { name: self.name@, body: self.body@, terminator: self.terminator }
    }
}

/// A function: blocks in layout order and the pool of their instructions.
#[derive(Clone, Debug)]
pub struct Function {
    /// Symbol name.
    pub name: String,
    /// Basic blocks; the first is the entry.
    pub blocks: Vec<BasicBlock>,
    /// Instruction pool, indexed by `InstrId`.
    pub instructions: Vec<InstrKind>,
    /// Declared here, defined elsewhere (no body).
    pub is_declaration: bool,
    /// Number of parameters.
    pub num_args: usize,
    /// Source location of each instruction, indexed by `InstrId` (an id past
    /// the end has none).
    pub debug_locs: Vec<Option<DebugLoc>>,
}

/// Mathematical view of a function.
pub struct FuncView {
    pub name: Seq<char>,
    pub blocks: Seq<BlockView>,
    pub instrs: Seq<KindView>,
    pub is_declaration: bool,
    pub num_args: usize,
    pub debug_locs: Seq<Option<DebugLoc>>,
}

impl View for Function {
    type V = FuncView;

    open spec fn view(&self) -> FuncView {
        FuncView {
            name: self.name@,
            blocks: self.blocks@.map_values(|b: BasicBlock| b@),
            instrs: self.instructions@.map_values(|k: InstrKind| k@),
            is_declaration: self.is_declaration,
            num_args: self.num_args,
            debug_locs: self.debug_locs@,
        }
    }
}

/// Every instruction id that a block lists names an instruction of the pool.
pub open spec fn ids_in_range(f: FuncView) -> bool {
    forall|b: int|
        0 <= b < f.blocks.len() ==> {
            &&& (forall|k: int| 0 <= k < (#[trigger] f.blocks[b]).body.len() ==> f.blocks[b].body[k].0 < f.instrs.len())
            &&& (f.blocks[b].terminator matches Some(t) ==> t.0 < f.instrs.len())
        }
}

/// What a type is, as far as the transforms look at it.
#[derive(Clone, Copy, Debug, PartialEq, Eq, Structural)]
pub enum TypeData {
    /// An integer type of the given bit width.
    Integer(u32),
    /// The 32-bit floating-point type.
    Float,
    /// The 64-bit floating-point type.
    Double,
    /// The pointer type.
    Pointer,
    /// Any other type.
    Other,
}

/// The context: the type table and the constant pool shared by the functions
/// of a module.
pub struct Context {
    /// Types, indexed by `TypeId`.
    pub types: Vec<TypeData>,
    /// The 64-bit integer type.
    pub i64_ty: TypeId,
    /// Constants, indexed by `ConstId`.
    pub constants: Vec<ConstantData>,
}

impl Context {
    /// Add the integer constant `val` of type `ty` and return its id.
    pub fn const_int(&mut self, ty: TypeId, val: u64) -> (c: ConstId)
        requires
            old(self).constants.len() < u32::MAX,
        ensures
            c.0 == old(self).constants@.len(),
            final(self).constants@ == old(self).constants@.push(ConstantData::Int { ty, val }),
            final(self).types@ == old(self).types@,
            final(self).i64_ty == old(self).i64_ty,
    {
        let c = ConstId(self.constants.len() as u32);
        self.constants.push(ConstantData::Int { ty, val });
        c
    }

    /// Add the null pointer constant and return its id.
    pub fn const_null(&mut self) -> (c: ConstId)
        requires
            old(self).constants.len() < u32::MAX,
        ensures
            c.0 == old(self).constants@.len(),
            final(self).constants@ == old(self).constants@.push(ConstantData::Null),
            final(self).types@ == old(self).types@,
            final(self).i64_ty == old(self).i64_ty,
    {
        let c = ConstId(self.constants.len() as u32);
        self.constants.push(ConstantData::Null);
        c
    }
}

/// A module: its functions, indexed by `GlobalId`.
pub struct Module {
    /// Functions, declarations included.
    pub functions: Vec<Function>,
    /// Name of the source file the module was compiled from.
    pub source_filename: String,
}

impl View for Module {
    type V = Seq<FuncView>;

    open spec fn view(&self) -> Seq<FuncView> {
        self.functions@.map_values(|f: Function| f@)
    }
}

/// `f` with instruction `i` replaced by `k`.
pub open spec fn with_instr(f: FuncView, i: int, k: KindView) -> FuncView {
    FuncView { instrs: f.instrs.update(i, k), ..f }
}

impl Function {
    /// Replace instruction `id` with `kind`.
    pub fn set_instr(&mut self, id: InstrId, kind: InstrKind)
        requires
            (id.0 as int) < old(self).instructions.len(),
        ensures
            final(self)@ == with_instr(old(self)@, id.0 as int, kind@),
    {
        let ghost before = self.instructions@;
        self.instructions.set(id.0 as usize, kind);
        proof {
            assert(self.instructions@.map_values(|k: InstrKind| k@) =~= before.map_values(|k: InstrKind| k@).update(
                id.0 as int,
                kind@,
            ));
            assert(self.blocks@.map_values(|b: BasicBlock| b@) =~= old(self).blocks@.map_values(|b: BasicBlock| b@));
        }
    }

    /// Add `kind` to the instruction pool and return its id.
    pub fn alloc_instr(&mut self, kind: InstrKind) -> (id: InstrId)
        requires
            old(self).instructions.len() < u32::MAX,
        ensures
            id.0 == old(self)@.instrs.len(),
            final(self)@ == (FuncView { instrs: old(self)@.instrs.push(kind@), ..old(self)@ }),
    {
        let id = InstrId(self.instructions.len() as u32);
        let ghost before = self.instructions@;
        self.instructions.push(kind);
        proof {
            assert(self.instructions@.map_values(|k: InstrKind| k@) =~= before.map_values(|k: InstrKind| k@).push(kind@));
            assert(self.blocks@.map_values(|b: BasicBlock| b@) =~= old(self).blocks@.map_values(|b: BasicBlock| b@));
        }
        id
    }

    /// Append instruction `id` to the body of block `b`.
    pub fn push_body(&mut self, b: usize, id: InstrId)
        requires
            b < old(self).blocks.len(),
        ensures
            final(self)@ == (FuncView {
                blocks: old(self)@.blocks.update(
                    b as int,
                    BlockView { body: old(self)@.blocks[b as int].body.push(id), ..old(self)@.blocks[b as int] },
                ),
                ..old(self)@
            }),
    {
        let ghost before = self.blocks@;
        self.blocks[b].body.push(id);
        proof {
            assert(self.blocks@.map_values(|x: BasicBlock| x@) =~= before.map_values(|x: BasicBlock| x@).update(
                b as int,
                BlockView { body: before[b as int]@.body.push(id), ..before[b as int]@ },
            ));
            assert(self.instructions@.map_values(|k: InstrKind| k@) =~= old(self).instructions@.map_values(|k: InstrKind| k@));
        }
    }

    /// Insert instruction `id` into the body of block `b` at position `pos`.
    pub fn insert_body(&mut self, b: usize, pos: usize, id: InstrId)
        requires
            b < old(self).blocks.len(),
            pos <= old(self)@.blocks[b as int].body.len(),
        ensures
            final(self)@ == (FuncView {
                blocks: old(self)@.blocks.update(
                    b as int,
                    BlockView { body: old(self)@.blocks[b as int].body.insert(pos as int, id), ..old(self)@.blocks[b as int] },
                ),
                ..old(self)@
            }),
    {
        let ghost before = self.blocks@;
        assert(self@.blocks[b as int] == self.blocks@[b as int]@);
        self.blocks[b].body.insert(pos, id);
        proof {
            assert(self.blocks@.map_values(|x: BasicBlock| x@) =~= before.map_values(|x: BasicBlock| x@).update(
                b as int,
                BlockView { body: before[b as int]@.body.insert(pos as int, id), ..before[b as int]@ },
            ));
            assert(self.instructions@.map_values(|k: InstrKind| k@) =~= old(self).instructions@.map_values(|k: InstrKind| k@));
        }
    }

    /// Cut block `b` before body position `pos`: the block keeps the body
    /// before `pos` and loses its terminator; the rest of the body and the
    /// old terminator are returned.
    pub fn split_off(&mut self, b: usize, pos: usize) -> (r: (Vec<InstrId>, Option<InstrId>))
        requires
            b < old(self).blocks.len(),
            pos <= old(self)@.blocks[b as int].body.len(),
        ensures
            r.0@ == old(self)@.blocks[b as int].body.skip(pos as int),
            r.1 == old(self)@.blocks[b as int].terminator,
            final(self)@ == (FuncView {
                blocks: old(self)@.blocks.update(
                    b as int,
                    BlockView {
                        body: old(self)@.blocks[b as int].body.take(pos as int),
                        terminator: None,
                        ..old(self)@.blocks[b as int]
                    },
                ),
                ..old(self)@
            }),
    {
        let ghost before = self.blocks@;
        assert(self@.blocks[b as int] == self.blocks@[b as int]@);
        let body_len = self.blocks[b].body.len();
        let mut head: Vec<InstrId> = Vec::new();
        let mut tail: Vec<InstrId> = Vec::new();
        let mut k: usize = 0;
        while k < body_len
            invariant
                body_len == self.blocks@[b as int].body@.len(),
                b < self.blocks@.len(),
                pos <= body_len,
                self.blocks@ == before,
                k <= body_len,
                head@ == self.blocks@[b as int].body@.take(if k < pos { k as int } else { pos as int }),
                tail@ == (if k <= pos { Seq::<InstrId>::empty() } else { self.blocks@[b as int].body@.subrange(pos as int, k as int) }),
            decreases body_len - k,
        {
            let id = self.blocks[b].body[k];
            if k < pos {
                head.push(id);
                assert(self.blocks@[b as int].body@.take(k + 1) =~= self.blocks@[b as int].body@.take(k as int).push(id));
            } else {
                tail.push(id);
                assert(self.blocks@[b as int].body@.subrange(pos as int, k + 1) =~= (if k <= pos { Seq::<InstrId>::empty() } else { self.blocks@[b as int].body@.subrange(pos as int, k as int) }).push(id));
            }
            k = k + 1;
        }
        assert(tail@ =~= before[b as int].body@.skip(pos as int));
        let term = self.blocks[b].terminator;
        self.blocks[b].body = head;
        self.blocks[b].terminator = None;
        proof {
            assert(self.blocks@.map_values(|x: BasicBlock| x@) =~= before.map_values(|x: BasicBlock| x@).update(
                b as int,
                BlockView { body: before[b as int]@.body.take(pos as int), terminator: None, ..before[b as int]@ },
            ));
            assert(self.instructions@.map_values(|k: InstrKind| k@) =~= old(self).instructions@.map_values(|k: InstrKind| k@));
        }
        (tail, term)
    }

    /// Give block `b` the terminator `t`.
    pub fn set_terminator(&mut self, b: usize, t: InstrId)
        requires
            b < old(self).blocks.len(),
        ensures
            final(self)@ == (FuncView {
                blocks: old(self)@.blocks.update(b as int, BlockView { terminator: Some(t), ..old(self)@.blocks[b as int] }),
                ..old(self)@
            }),
    {
        let ghost before = self.blocks@;
        self.blocks[b].terminator = Some(t);
        proof {
            assert(self.blocks@.map_values(|x: BasicBlock| x@) =~= before.map_values(|x: BasicBlock| x@).update(
                b as int,
                BlockView { terminator: Some(t), ..before[b as int]@ },
            ));
            assert(self.instructions@.map_values(|k: InstrKind| k@) =~= old(self).instructions@.map_values(|k: InstrKind| k@));
        }
    }

    /// Append a block and return its index.
    pub fn add_block(&mut self, block: BasicBlock) -> (id: usize)
        ensures
            id == old(self)@.blocks.len(),
            final(self)@ == (FuncView { blocks: old(self)@.blocks.push(block@), ..old(self)@ }),
    {
        let id = self.blocks.len();
        let ghost before = self.blocks@;
        let ghost bv = block@;
        self.blocks.push(block);
        proof {
            assert(self.blocks@.map_values(|x: BasicBlock| x@) =~= before.map_values(|x: BasicBlock| x@).push(bv));
            assert(self.instructions@.map_values(|k: InstrKind| k@) =~= old(self).instructions@.map_values(|k: InstrKind| k@));
        }
        id
    }
}

} // verus!
