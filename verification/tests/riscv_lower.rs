use lib::ir::{BasicBlock, BinOp, BlockId, ConstId, ConstantData, Context, Function, InstrId, InstrKind, IntPredicate, Module, RmwOp, TailCallKind, TypeData, TypeId, ValueRef};
use lib::machine::{DebugLoc, MInstr, MOpcode, MOperand, MachineFunction, PReg, VReg};
use lib::riscv::instructions::{
    ADDI_FP_SLOT, ADD_RR, AMOADD_D, AMOADD_W, AMOSWAP_W, BEQ, FENCE, JAL, JALR, LR_W, MOV_IMM, MOV_PR, MOV_RR, NOP, RET, SC_W, SLT_RR,
};
use lib::riscv::lower::RiscVBackend;

const I1: TypeId = TypeId(0);
const I32: TypeId = TypeId(1);
const I64: TypeId = TypeId(2);
const PTR: TypeId = TypeId(3);

fn context(constants: Vec<ConstantData>) -> Context {
    Context {
        types: vec![TypeData::Integer(1), TypeData::Integer(32), TypeData::Integer(64), TypeData::Pointer],
        i64_ty: I64,
        constants,
    }
}

fn arg(i: u32) -> ValueRef {
    ValueRef::Argument(i)
}

fn inst(i: u32) -> ValueRef {
    ValueRef::Instruction(InstrId(i))
}

/// A function with `num_args` parameters whose instructions are `instrs`
/// (ids by position) and whose blocks list `(name, body, terminator)`.
fn function(num_args: usize, instrs: Vec<InstrKind>, blocks: Vec<(&str, Vec<u32>, Option<u32>)>) -> Function {
    Function {
        name: "f".to_string(),
        blocks: blocks
            .into_iter()
            .map(|(n, body, t)| BasicBlock {
                name: n.to_string(),
                body: body.into_iter().map(InstrId).collect(),
                terminator: t.map(InstrId),
            })
            .collect(),
        instructions: instrs,
        is_declaration: false,
        num_args,
        debug_locs: Vec::new(),
    }
}

fn lower(ctx: &Context, f: &Function) -> MachineFunction {
    let module = Module { functions: vec![f.clone()], source_filename: "m.ll".to_string() };
    let mut be = RiscVBackend;
    be.lower_function(ctx, &module, f)
}

fn all_instrs(mf: &MachineFunction) -> Vec<&MInstr> {
    mf.blocks.iter().flat_map(|b| b.instrs.iter()).collect()
}

fn has(mf: &MachineFunction, op: u32) -> bool {
    all_instrs(mf).iter().any(|i| i.opcode == MOpcode(op))
}

fn count(mf: &MachineFunction, op: u32) -> usize {
    all_instrs(mf).iter().filter(|i| i.opcode == MOpcode(op)).count()
}

/// `define <ty> @f(ptr %p, <ty> %v) { %r = atomicrmw <op> ptr %p, <ty> %v; ret %r }`
fn atomicrmw(op: RmwOp, ty: TypeId) -> Function {
    function(
        2,
        vec![InstrKind::AtomicRmw { op, ptr: arg(0), val: arg(1), ty }, InstrKind::Ret { val: Some(inst(0)) }],
        vec![("entry", vec![0], Some(1))],
    )
}

fn fence_function() -> Function {
    function(0, vec![InstrKind::Fence, InstrKind::Ret { val: None }], vec![("entry", vec![0], Some(1))])
}

#[test]
fn lower_declaration_is_empty() {
    let ctx = context(Vec::new());
    let f = Function {
        name: "decl".to_string(),
        blocks: Vec::new(),
        instructions: Vec::new(),
        is_declaration: true,
        num_args: 0,
        debug_locs: Vec::new(),
    };
    let mf = lower(&ctx, &f);
    assert!(mf.blocks.is_empty());
}

#[test]
fn lower_add_ret_generates_instructions() {
    let ctx = context(Vec::new());
    let f = function(
        2,
        vec![
            InstrKind::Binary { op: BinOp::Add, ty: I64, lhs: arg(0), rhs: arg(1), nsw: false },
            InstrKind::Ret { val: Some(inst(0)) },
        ],
        vec![("entry", vec![0], Some(1))],
    );
    let mf = lower(&ctx, &f);
    assert_eq!(mf.blocks.len(), 1);
    assert!(mf.blocks[0].instrs.iter().any(|mi| mi.opcode == MOpcode(ADD_RR)));
    assert!(mf.blocks[0].instrs.iter().any(|mi| mi.opcode == MOpcode(RET)));
}

#[test]
fn lower_icmp_and_condbr() {
    let ctx = context(vec![
        ConstantData::Int { ty: I64, val: 0 },
        ConstantData::Int { ty: I64, val: 1 },
        ConstantData::Int { ty: I64, val: 0 },
    ]);
    let f = function(
        1,
        vec![
            InstrKind::ICmp { pred: IntPredicate::Sgt, lhs: arg(0), rhs: ValueRef::Constant(ConstId(0)) },
            InstrKind::CondBr { cond: inst(0), then_dest: BlockId(1), else_dest: BlockId(2) },
            InstrKind::Ret { val: Some(ValueRef::Constant(ConstId(1))) },
            InstrKind::Ret { val: Some(ValueRef::Constant(ConstId(2))) },
        ],
        vec![("entry", vec![0], Some(1)), ("then", vec![], Some(2)), ("else", vec![], Some(3))],
    );
    let mf = lower(&ctx, &f);
    assert!(has(&mf, SLT_RR));
    assert!(has(&mf, BEQ));
    assert!(has(&mf, JAL));
}

#[test]
fn riscv_fence_emits_fence_opcode() {
    let mf = lower(&context(Vec::new()), &fence_function());
    assert!(has(&mf, FENCE), "expected FENCE opcode in lowered fence");
}

#[test]
fn riscv_atomicrmw_add_emits_amoadd_w() {
    let mf = lower(&context(Vec::new()), &atomicrmw(RmwOp::Add, I32));
    assert!(has(&mf, AMOADD_W), "expected AMOADD_W in lowered atomicrmw add i32");
}

#[test]
fn riscv_atomicrmw_add_i64_emits_amoadd_d() {
    let mf = lower(&context(Vec::new()), &atomicrmw(RmwOp::Add, I64));
    assert!(has(&mf, AMOADD_D), "expected AMOADD_D in lowered atomicrmw add i64");
}

#[test]
fn riscv_atomicrmw_xchg_emits_amoswap_w() {
    let mf = lower(&context(Vec::new()), &atomicrmw(RmwOp::Xchg, I32));
    assert!(has(&mf, AMOSWAP_W), "expected AMOSWAP_W in lowered atomicrmw xchg i32");
}

#[test]
fn riscv_cmpxchg_emits_lr_sc() {
    // %r = cmpxchg ptr %p, i32 %cmp, i32 %new; %v = extractvalue %r, 0; ret %v
    let f = function(
        3,
        vec![
            InstrKind::CompareExchange { ptr: arg(0), expected: arg(1), new_val: arg(2), val_ty: I32 },
            InstrKind::Aggregate { operands: vec![inst(0)], value_op: true },
            InstrKind::Ret { val: Some(inst(1)) },
        ],
        vec![("entry", vec![0, 1], Some(2))],
    );
    let mf = lower(&context(Vec::new()), &f);
    assert!(has(&mf, LR_W), "expected LR_W in lowered cmpxchg");
    assert!(has(&mf, SC_W), "expected SC_W in lowered cmpxchg");
}

#[test]
fn riscv_fence_no_nop_emitted() {
    let mf = lower(&context(Vec::new()), &fence_function());
    assert_eq!(count(&mf, NOP), 0, "fence should not emit any NOP instructions");
}

// ── exact shapes ───────────────────────────────────────────────────────────

fn ops(mi: &MInstr) -> Vec<MOperand> {
    mi.operands.clone()
}

#[test]
fn add_ret_layout_is_exact() {
    let ctx = context(Vec::new());
    let f = function(
        2,
        vec![
            InstrKind::Binary { op: BinOp::Add, ty: I64, lhs: arg(0), rhs: arg(1), nsw: false },
            InstrKind::Ret { val: Some(inst(0)) },
        ],
        vec![("entry", vec![0], Some(1))],
    );
    let mf = lower(&ctx, &f);
    assert_eq!(mf.name, "f");
    assert_eq!(mf.debug_source, "m.ll");
    assert_eq!(mf.blocks[0].label, "f");
    let b = &mf.blocks[0].instrs;
    assert_eq!(b.len(), 5);
    // parameters come from a0 and a1
    assert_eq!(b[0].opcode, MOpcode(MOV_RR));
    assert_eq!(b[0].dst, Some(VReg(0)));
    assert_eq!(ops(&b[0]), vec![MOperand::PReg(PReg(10))]);
    assert_eq!(b[0].phys_uses, vec![PReg(10)]);
    assert_eq!(b[1].dst, Some(VReg(1)));
    assert_eq!(ops(&b[1]), vec![MOperand::PReg(PReg(11))]);
    // the sum gets the next register
    assert_eq!(b[2].opcode, MOpcode(ADD_RR));
    assert_eq!(b[2].dst, Some(VReg(2)));
    assert_eq!(ops(&b[2]), vec![MOperand::VReg(VReg(0)), MOperand::VReg(VReg(1))]);
    // and is returned in a0
    assert_eq!(b[3].opcode, MOpcode(MOV_PR));
    assert_eq!(ops(&b[3]), vec![MOperand::PReg(PReg(10)), MOperand::VReg(VReg(2))]);
    assert_eq!(b[4].opcode, MOpcode(RET));
    assert_eq!(mf.next_vreg, 3);
    assert_eq!(mf.allocatable_pregs.len(), 26);
    assert_eq!(mf.callee_saved_pregs.len(), 11);
    assert!(mf.allocatable_fp_pregs.is_empty());
}

#[test]
fn condbr_gets_edge_blocks() {
    let ctx = context(vec![ConstantData::Int { ty: I64, val: 7 }]);
    let f = function(
        1,
        vec![
            InstrKind::ICmp { pred: IntPredicate::Slt, lhs: arg(0), rhs: ValueRef::Constant(ConstId(0)) },
            InstrKind::CondBr { cond: inst(0), then_dest: BlockId(1), else_dest: BlockId(2) },
            InstrKind::Ret { val: None },
            InstrKind::Ret { val: None },
        ],
        vec![("entry", vec![0], Some(1)), ("then", vec![], Some(2)), ("else", vec![], Some(3))],
    );
    let mf = lower(&ctx, &f);
    let labels: Vec<&str> = mf.blocks.iter().map(|b| b.label.as_str()).collect();
    assert_eq!(labels, vec!["f", "f.then", "f.else", "f.then_edge", "f.else_edge"]);
    let entry = &mf.blocks[0].instrs;
    // x from a0; c = new reg; the constant 7 is loaded where it is first used
    assert_eq!(entry[1].opcode, MOpcode(MOV_IMM));
    assert_eq!(ops(&entry[1]), vec![MOperand::Imm(7)]);
    assert_eq!(entry[2].opcode, MOpcode(SLT_RR));
    let n = entry.len();
    assert_eq!(entry[n - 2].opcode, MOpcode(BEQ));
    assert_eq!(ops(&entry[n - 2]), vec![MOperand::VReg(VReg(1)), MOperand::PReg(PReg(0)), MOperand::Block(4)]);
    assert_eq!(entry[n - 1].opcode, MOpcode(JAL));
    assert_eq!(ops(&entry[n - 1]), vec![MOperand::Block(3)]);
    assert_eq!(ops(&mf.blocks[3].instrs[0]), vec![MOperand::Block(1)]);
    assert_eq!(ops(&mf.blocks[4].instrs[0]), vec![MOperand::Block(2)]);
}

#[test]
fn phi_gets_copies_on_each_edge() {
    // entry: br loop; loop: %i = phi [0, entry], [%n, loop]; %n = add %i, 1; br loop
    let ctx = context(vec![ConstantData::Int { ty: I64, val: 0 }, ConstantData::Int { ty: I64, val: 1 }]);
    let f = function(
        0,
        vec![
            InstrKind::Br { dest: BlockId(1) },
            InstrKind::Phi {
                ty: 0,
                incoming: vec![(ValueRef::Constant(ConstId(0)), BlockId(0)), (inst(2), BlockId(1))],
            },
            InstrKind::Binary { op: BinOp::Add, ty: I64, lhs: inst(1), rhs: ValueRef::Constant(ConstId(1)), nsw: false },
            InstrKind::Br { dest: BlockId(1) },
        ],
        vec![("entry", vec![], Some(0)), ("loop", vec![1, 2], Some(3))],
    );
    let mf = lower(&ctx, &f);
    // the phi owns v0; the entry edge loads 0 and copies it into v0
    let entry = &mf.blocks[0].instrs;
    assert_eq!(entry.len(), 3);
    assert_eq!(entry[0].opcode, MOpcode(MOV_IMM));
    assert_eq!(entry[1].opcode, MOpcode(MOV_RR));
    assert_eq!(entry[1].dst, Some(VReg(0)));
    assert_eq!(ops(&entry[2]), vec![MOperand::Block(1)]);
    // the back edge copies %n into v0 before jumping back
    let body = &mf.blocks[1].instrs;
    let n = body.len();
    assert_eq!(body[n - 2].opcode, MOpcode(MOV_RR));
    assert_eq!(body[n - 2].dst, Some(VReg(0)));
    assert_eq!(body[n - 1].opcode, MOpcode(JAL));
}

#[test]
fn call_passes_arguments_and_clobbers() {
    let ctx = context(vec![ConstantData::Other]);
    let f = function(
        1,
        vec![
            InstrKind::Call { tail: TailCallKind::Unmarked, callee: ValueRef::Constant(ConstId(0)), args: vec![arg(0)] },
            InstrKind::Ret { val: Some(inst(0)) },
        ],
        vec![("entry", vec![0], Some(1))],
    );
    let mf = lower(&ctx, &f);
    let b = &mf.blocks[0].instrs;
    assert_eq!(b[1].opcode, MOpcode(MOV_PR));
    assert_eq!(ops(&b[1]), vec![MOperand::PReg(PReg(10)), MOperand::VReg(VReg(0))]);
    let call = b.iter().find(|i| i.opcode == MOpcode(JALR)).unwrap();
    assert_eq!(call.operands[0], MOperand::PReg(PReg(1)));
    assert_eq!(call.clobbers.len(), 26);
    // the result is taken from a0
    let after = b.iter().position(|i| i.opcode == MOpcode(JALR)).unwrap() + 1;
    assert_eq!(ops(&b[after]), vec![MOperand::PReg(PReg(10))]);
    assert_eq!(b[after].phys_uses, vec![PReg(10)]);
}

#[test]
fn profiling_intrinsic_becomes_nop() {
    let ctx = context(vec![ConstantData::InstrProfRef]);
    let f = function(
        1,
        vec![
            InstrKind::Call { tail: TailCallKind::Unmarked, callee: ValueRef::Constant(ConstId(0)), args: vec![arg(0)] },
            InstrKind::Ret { val: None },
        ],
        vec![("entry", vec![0], Some(1))],
    );
    let mf = lower(&ctx, &f);
    assert!(!has(&mf, JALR));
    assert_eq!(count(&mf, NOP), 1);
}

#[test]
fn alloca_reserves_a_frame_slot() {
    let f = function(
        0,
        vec![
            InstrKind::Alloca { ty: I32, align: None },
            InstrKind::Alloca { ty: PTR, align: Some(16) },
            InstrKind::Ret { val: None },
        ],
        vec![("entry", vec![0, 1], Some(2))],
    );
    let mf = lower(&context(Vec::new()), &f);
    assert_eq!(mf.frame_slots, vec![(4, 8), (8, 16)]);
    let b = &mf.blocks[0].instrs;
    assert_eq!(b[0].opcode, MOpcode(ADDI_FP_SLOT));
    assert_eq!(ops(&b[0]), vec![MOperand::Imm(0)]);
    assert_eq!(ops(&b[1]), vec![MOperand::Imm(1)]);
}

#[test]
fn stack_argument_holds_its_offset() {
    let ctx = context(Vec::new());
    let f = function(9, vec![InstrKind::Ret { val: Some(arg(8)) }], vec![("entry", vec![], Some(0))]);
    let mf = lower(&ctx, &f);
    let b = &mf.blocks[0].instrs;
    assert_eq!(b[8].opcode, MOpcode(MOV_IMM));
    assert_eq!(ops(&b[8]), vec![MOperand::Imm(0)]);
    assert_eq!(ops(&b[9]), vec![MOperand::PReg(PReg(10)), MOperand::VReg(VReg(8))]);
}

#[test]
fn debug_locations_follow_instructions() {
    let ctx = context(Vec::new());
    let mut f = function(
        0,
        vec![InstrKind::Fence, InstrKind::Ret { val: None }],
        vec![("entry", vec![0], Some(1))],
    );
    f.debug_locs = vec![None, Some(DebugLoc { line: 12, column: 3 })];
    let mf = lower(&ctx, &f);
    let b = &mf.blocks[0].instrs;
    assert_eq!(b[0].debug_loc, None);
    assert_eq!(b[1].debug_loc, Some(DebugLoc { line: 12, column: 3 }));
    assert_eq!(mf.debug_line_start, Some(12));
}

#[test]
fn unreachable_becomes_nop_and_i1_is_word_sized() {
    let f = function(
        2,
        vec![InstrKind::AtomicRmw { op: RmwOp::Add, ptr: arg(0), val: arg(1), ty: I1 }, InstrKind::Unreachable],
        vec![("entry", vec![0], Some(1))],
    );
    let mf = lower(&context(Vec::new()), &f);
    assert!(has(&mf, AMOADD_W));
    assert_eq!(count(&mf, NOP), 1);
}

#[test]
fn select_is_arithmetic_on_the_condition() {
    let f = function(
        3,
        vec![
            InstrKind::Select { cond: arg(0), then_val: arg(1), else_val: arg(2) },
            InstrKind::Ret { val: Some(inst(0)) },
        ],
        vec![("entry", vec![0], Some(1))],
    );
    let mf = lower(&context(Vec::new()), &f);
    let b = &mf.blocks[0].instrs;
    let ops_of = |i: usize| (b[i].opcode, b[i].dst, ops(&b[i]));
    assert_eq!(ops_of(3), (MOpcode(lib::riscv::instructions::XORI), Some(VReg(4)), vec![MOperand::VReg(VReg(0)), MOperand::Imm(1)]));
    assert_eq!(ops_of(4), (MOpcode(lib::riscv::instructions::MUL_RR), Some(VReg(5)), vec![MOperand::VReg(VReg(1)), MOperand::VReg(VReg(0))]));
    assert_eq!(ops_of(5), (MOpcode(lib::riscv::instructions::MUL_RR), Some(VReg(6)), vec![MOperand::VReg(VReg(2)), MOperand::VReg(VReg(4))]));
    assert_eq!(ops_of(6), (MOpcode(ADD_RR), Some(VReg(3)), vec![MOperand::VReg(VReg(5)), MOperand::VReg(VReg(6))]));
}

#[test]
fn switch_compares_each_case_then_jumps_to_default() {
    let ctx = context(vec![ConstantData::Int { ty: I64, val: 5 }]);
    let f = function(
        1,
        vec![
            InstrKind::Switch { val: arg(0), default: BlockId(2), cases: vec![(ValueRef::Constant(ConstId(0)), BlockId(1))] },
            InstrKind::Ret { val: None },
            InstrKind::Ret { val: None },
        ],
        vec![("entry", vec![], Some(0)), ("one", vec![], Some(1)), ("other", vec![], Some(2))],
    );
    let mf = lower(&ctx, &f);
    let b = &mf.blocks[0].instrs;
    assert_eq!(b.len(), 4);
    assert_eq!(b[1].opcode, MOpcode(MOV_IMM));
    assert_eq!(ops(&b[1]), vec![MOperand::Imm(5)]);
    assert_eq!(b[2].opcode, MOpcode(BEQ));
    assert_eq!(ops(&b[2]), vec![MOperand::VReg(VReg(0)), MOperand::VReg(VReg(1)), MOperand::Block(1)]);
    assert_eq!(b[3].opcode, MOpcode(JAL));
    assert_eq!(ops(&b[3]), vec![MOperand::Block(2)]);
}

#[test]
fn invoke_calls_and_continues_at_its_normal_destination() {
    let f = function(
        1,
        vec![
            InstrKind::Invoke { callee: ValueRef::Global(lib::ir::GlobalId(0)), args: vec![arg(0)], normal_dest: BlockId(1), has_result: true },
            InstrKind::Ret { val: Some(inst(0)) },
        ],
        vec![("entry", vec![], Some(0)), ("cont", vec![], Some(1))],
    );
    let mf = lower(&context(Vec::new()), &f);
    let b = &mf.blocks[0].instrs;
    assert_eq!(b.len(), 5);
    assert_eq!(b[1].opcode, MOpcode(MOV_PR));
    assert_eq!(b[2].opcode, MOpcode(JALR));
    assert_eq!(ops(&b[2]), vec![MOperand::VReg(VReg(1))]);
    assert_eq!(b[2].clobbers.len(), 26);
    assert_eq!(b[3].dst, Some(VReg(2)));
    assert_eq!(ops(&b[3]), vec![MOperand::PReg(PReg(10))]);
    assert_eq!(ops(&b[4]), vec![MOperand::Block(1)]);
    let cont = &mf.blocks[1].instrs;
    assert_eq!(ops(&cont[0]), vec![MOperand::PReg(PReg(10)), MOperand::VReg(VReg(2))]);
}
