use lib::ir::{
    Module,
    BasicBlock, BinOp, BlockId, ConstId, ConstantData, Context, Function, GlobalId, InstrId, InstrKind, IntPredicate, TailCallKind,
    TypeId, ValueRef,
};
use lib::ubsan::{instrument_div_by_zero, instrument_int_overflow, instrument_null_ptr, instrument_unreachable, UbsanModulePass, UbsanPass, PLACEHOLDER_BASE};

const I32: TypeId = TypeId(3);

/// `f` with one entry block holding `body` (in order) and then `term`.
fn one_block(body: Vec<InstrKind>, term: InstrKind) -> Function {
    let mut f = Function { name: "f".to_string(), blocks: Vec::new(), instructions: Vec::new(), is_declaration: false, num_args: 0, debug_locs: Vec::new() };
    let mut ids = Vec::new();
    for k in body {
        f.instructions.push(k);
        ids.push(InstrId((f.instructions.len() - 1) as u32));
    }
    f.instructions.push(term);
    let t = InstrId((f.instructions.len() - 1) as u32);
    f.blocks.push(BasicBlock { name: "entry".to_string(), body: ids, terminator: Some(t) });
    f
}

/// Calls in block bodies whose callee is the placeholder of handler `index`.
fn count_calls_to(f: &Function, index: u32) -> usize {
    f.blocks
        .iter()
        .flat_map(|bb| bb.body.iter())
        .filter(|&&iid| {
            matches!(&f.instructions[iid.0 as usize],
                InstrKind::Call { callee: ValueRef::Global(GlobalId(g)), .. } if *g == (PLACEHOLDER_BASE | index))
        })
        .count()
}

fn binary(op: BinOp, nsw: bool) -> InstrKind {
    InstrKind::Binary { op, ty: I32, lhs: ValueRef::Argument(0), rhs: ValueRef::Argument(1), nsw }
}

fn ret_of(id: u32) -> InstrKind {
    InstrKind::Ret { val: Some(ValueRef::Instruction(InstrId(id))) }
}

#[test]
fn ubsan_add_without_nsw_gets_check() {
    let mut f = one_block(vec![binary(BinOp::Add, false)], ret_of(0));
    assert!(instrument_int_overflow(&mut f));
    let count = count_calls_to(&f, 0);
    assert!(count >= 1, "__ubsan_handle_add_overflow should be inserted for non-nsw add, got {count}");
}

#[test]
fn ubsan_add_with_nsw_no_check() {
    let mut f = one_block(vec![binary(BinOp::Add, true)], ret_of(0));
    assert!(!instrument_int_overflow(&mut f));
    let count = count_calls_to(&f, 0);
    assert_eq!(count, 0, "nsw add must NOT get overflow check, got {count}");
}

#[test]
fn ubsan_overflow_call_goes_right_before_the_arithmetic() {
    let mut f = one_block(vec![binary(BinOp::Sub, false), binary(BinOp::Mul, false), binary(BinOp::Xor, false)], ret_of(2));
    assert!(instrument_int_overflow(&mut f));
    // The mul site is handled first, so its call gets the lower new id.
    assert_eq!(f.blocks[0].body, vec![InstrId(5), InstrId(0), InstrId(4), InstrId(1), InstrId(2)]);
    assert_eq!(count_calls_to(&f, 1), 1);
    assert_eq!(count_calls_to(&f, 2), 1);
    match &f.instructions[4] {
        InstrKind::Call { tail, callee, args } => {
            assert_eq!(*tail, TailCallKind::Unmarked);
            assert_eq!(*callee, ValueRef::Global(GlobalId(PLACEHOLDER_BASE | 2)));
            assert!(args.is_empty());
        },
        other => panic!("expected call, got {other:?}"),
    }
}

#[test]
fn ubsan_div_gets_zero_check() {
    let mut f = one_block(vec![binary(BinOp::SDiv, false)], ret_of(0));
    let mut ctx = Context { types: Vec::new(), i64_ty: TypeId(0), constants: Vec::new() };
    assert!(instrument_div_by_zero(&mut ctx, &mut f));
    let count = count_calls_to(&f, 4);
    assert!(count >= 1, "__ubsan_handle_divrem_overflow should be inserted for sdiv, got {count}");
}

#[test]
fn ubsan_rem_gets_zero_check() {
    let mut f = one_block(vec![binary(BinOp::SRem, false)], ret_of(0));
    let mut ctx = Context { types: Vec::new(), i64_ty: TypeId(0), constants: Vec::new() };
    assert!(instrument_div_by_zero(&mut ctx, &mut f));
    let count = count_calls_to(&f, 4);
    assert!(count >= 1, "__ubsan_handle_divrem_overflow should be inserted for srem, got {count}");
}

#[test]
fn ubsan_div_split_layout() {
    // entry: %0 = add; %1 = udiv a, b; ret %1
    let mut f = one_block(vec![binary(BinOp::Add, true), binary(BinOp::UDiv, false)], ret_of(1));
    let mut ctx = Context { types: Vec::new(), i64_ty: TypeId(0), constants: vec![ConstantData::Other] };
    assert!(instrument_div_by_zero(&mut ctx, &mut f));
    assert_eq!(ctx.constants, vec![ConstantData::Other, ConstantData::Int { ty: I32, val: 0 }]);
    assert_eq!(f.blocks.len(), 3);
    // The checked block keeps the add, then compares and branches.
    assert_eq!(f.blocks[0].body, vec![InstrId(0), InstrId(3)]);
    assert_eq!(f.blocks[0].terminator, Some(InstrId(4)));
    match &f.instructions[3] {
        InstrKind::ICmp { pred, lhs, rhs } => {
            assert_eq!(*pred, IntPredicate::Eq);
            assert_eq!(*lhs, ValueRef::Argument(1));
            assert_eq!(*rhs, ValueRef::Constant(ConstId(1)));
        },
        other => panic!("expected icmp, got {other:?}"),
    }
    match &f.instructions[4] {
        InstrKind::CondBr { cond, then_dest, else_dest } => {
            assert_eq!(*cond, ValueRef::Instruction(InstrId(3)));
            assert_eq!(*then_dest, BlockId(2));
            assert_eq!(*else_dest, BlockId(1));
        },
        other => panic!("expected condbr, got {other:?}"),
    }
    // The continuation holds the division and the old terminator.
    assert_eq!(f.blocks[1].name, "div.ok");
    assert_eq!(f.blocks[1].body, vec![InstrId(1)]);
    assert_eq!(f.blocks[1].terminator, Some(InstrId(2)));
    // The handler block calls the handler and branches to the continuation.
    assert_eq!(f.blocks[2].name, "div.zero");
    assert_eq!(f.blocks[2].body, vec![InstrId(5)]);
    assert_eq!(f.blocks[2].terminator, Some(InstrId(6)));
    assert_eq!(count_calls_to(&f, 4), 1);
    match &f.instructions[6] {
        InstrKind::Br { dest } => assert_eq!(*dest, BlockId(1)),
        other => panic!("expected br, got {other:?}"),
    }
}

#[test]
fn ubsan_two_divs_in_one_block_both_checked() {
    let mut f = one_block(vec![binary(BinOp::SDiv, false), binary(BinOp::URem, false)], ret_of(1));
    let mut ctx = Context { types: Vec::new(), i64_ty: TypeId(0), constants: Vec::new() };
    assert!(instrument_div_by_zero(&mut ctx, &mut f));
    assert_eq!(f.blocks.len(), 5);
    assert_eq!(ctx.constants.len(), 2);
    assert_eq!(count_calls_to(&f, 4), 2);
    // The later division is split off first, the earlier one after it.
    assert_eq!(f.blocks[1].body, vec![InstrId(1)]);
    assert_eq!(f.blocks[3].body, vec![InstrId(0), InstrId(3)]);
    let mut plain = one_block(vec![binary(BinOp::Mul, false)], ret_of(0));
    let mut ctx2 = Context { types: Vec::new(), i64_ty: TypeId(0), constants: Vec::new() };
    assert!(!instrument_div_by_zero(&mut ctx2, &mut plain));
    assert_eq!(plain.blocks.len(), 1);
    assert!(ctx2.constants.is_empty());
}

#[test]
fn ubsan_load_null_check_inserted() {
    let mut f = one_block(vec![InstrKind::Load { ty: I32, ptr: ValueRef::Argument(0) }], ret_of(0));
    let mut ctx = Context { types: Vec::new(), i64_ty: TypeId(0), constants: Vec::new() };
    assert!(instrument_null_ptr(&mut ctx, &mut f));
    let count = count_calls_to(&f, 3);
    assert!(count >= 1, "__ubsan_handle_null_ptr_deref should be inserted for load from arg ptr, got {count}");
    assert_eq!(ctx.constants, vec![ConstantData::Null]);
    assert_eq!(f.blocks[1].name, "null.ok");
    assert_eq!(f.blocks[2].name, "null.deref");
}

#[test]
fn ubsan_store_null_check_inserted() {
    let mut f = one_block(
        vec![InstrKind::Store { val: ValueRef::Argument(0), ptr: ValueRef::Argument(1), ty: I32 }],
        InstrKind::Ret { val: None },
    );
    let mut ctx = Context { types: Vec::new(), i64_ty: TypeId(0), constants: Vec::new() };
    assert!(instrument_null_ptr(&mut ctx, &mut f));
    let count = count_calls_to(&f, 3);
    assert!(count >= 1, "__ubsan_handle_null_ptr_deref should be inserted for store to arg ptr, got {count}");
}

#[test]
fn ubsan_alloca_no_null_check() {
    let mut f = one_block(
        vec![InstrKind::Alloca { ty: I32, align: None }, InstrKind::Load { ty: I32, ptr: ValueRef::Instruction(InstrId(0)) }],
        InstrKind::Ret { val: None },
    );
    let mut ctx = Context { types: Vec::new(), i64_ty: TypeId(0), constants: Vec::new() };
    assert!(!instrument_null_ptr(&mut ctx, &mut f));
    let count = count_calls_to(&f, 3);
    assert_eq!(count, 0, "loads from alloca must NOT get null check, got {count}");
}

#[test]
fn ubsan_global_no_null_check() {
    let mut f = one_block(vec![InstrKind::Load { ty: I32, ptr: ValueRef::Global(GlobalId(0)) }], ret_of(0));
    let mut ctx = Context { types: Vec::new(), i64_ty: TypeId(0), constants: Vec::new() };
    assert!(!instrument_null_ptr(&mut ctx, &mut f));
    let count = count_calls_to(&f, 3);
    assert_eq!(count, 0, "loads from globals must NOT get null check, got {count}");
    assert!(ctx.constants.is_empty());
}

#[test]
fn ubsan_unreachable_replaced_with_handler() {
    let mut f = one_block(vec![], InstrKind::Unreachable);
    assert!(instrument_unreachable(&mut f));
    let count = count_calls_to(&f, 5);
    assert!(count >= 1, "__ubsan_handle_builtin_unreachable should be inserted, got {count}");
    let still_unreachable = match f.blocks[0].terminator {
        Some(t) => matches!(f.instructions[t.0 as usize], InstrKind::Unreachable),
        None => false,
    };
    assert!(still_unreachable, "unreachable terminator must still be present after instrumentation");
}

#[test]
fn ubsan_pass_runs_every_check() {
    // %0 = add a, b; %1 = sdiv %0, b; %2 = load ptr a; ret %1
    let mut f = one_block(
        vec![
            binary(BinOp::Add, false),
            InstrKind::Binary { op: BinOp::SDiv, ty: I32, lhs: ValueRef::Instruction(InstrId(0)), rhs: ValueRef::Argument(1), nsw: false },
            InstrKind::Load { ty: I32, ptr: ValueRef::Argument(0) },
        ],
        ret_of(1),
    );
    let mut ctx = Context { types: Vec::new(), i64_ty: TypeId(0), constants: Vec::new() };
    let mut pass = UbsanPass;
    assert_eq!(pass.name(), "ubsan");
    assert!(pass.run_on_function(&mut ctx, &mut f));
    assert_eq!(count_calls_to(&f, 0), 1);
    assert_eq!(count_calls_to(&f, 4), 1);
    assert_eq!(count_calls_to(&f, 3), 1);
    assert_eq!(ctx.constants, vec![ConstantData::Int { ty: I32, val: 0 }, ConstantData::Null]);
    // entry, div.ok, div.zero, null.ok, null.deref
    assert_eq!(f.blocks.len(), 5);
    let mut decl = Function { name: "g".to_string(), blocks: Vec::new(), instructions: Vec::new(), is_declaration: true, num_args: 0, debug_locs: Vec::new() };
    assert!(!pass.run_on_function(&mut ctx, &mut decl));
}

#[test]
fn ubsan_declares_runtime_fns() {
    let f = one_block(vec![binary(BinOp::Add, false)], ret_of(0));
    let mut module = Module { functions: vec![f], source_filename: String::new() };
    let mut ctx = Context { types: Vec::new(), i64_ty: TypeId(0), constants: Vec::new() };
    let mut pass = UbsanModulePass;
    assert_eq!(pass.name(), "ubsan-module");
    pass.run_on_module(&mut ctx, &mut module);
    for name in &[
        "__ubsan_handle_add_overflow",
        "__ubsan_handle_sub_overflow",
        "__ubsan_handle_mul_overflow",
        "__ubsan_handle_null_ptr_deref",
        "__ubsan_handle_divrem_overflow",
        "__ubsan_handle_builtin_unreachable",
    ] {
        assert!(module.functions.iter().any(|g| g.name == *name), "{name} must be declared");
    }
}

#[test]
fn ubsan_module_pass_resolves_handler_calls() {
    let f = one_block(vec![binary(BinOp::Add, false)], ret_of(0));
    let already = Function {
        name: "__ubsan_handle_add_overflow".to_string(),
        blocks: Vec::new(),
        instructions: Vec::new(),
        is_declaration: true,
        num_args: 0,
        debug_locs: Vec::new(),
    };
    let mut module = Module { functions: vec![f, already], source_filename: String::new() };
    let mut ctx = Context { types: Vec::new(), i64_ty: TypeId(0), constants: Vec::new() };
    let mut pass = UbsanModulePass;
    assert!(pass.run_on_module(&mut ctx, &mut module));
    // one existing declaration plus five new ones, in table order
    assert_eq!(module.functions.len(), 7);
    assert_eq!(module.functions[2].name, "__ubsan_handle_sub_overflow");
    assert_eq!(module.functions[6].name, "__ubsan_handle_builtin_unreachable");
    let f = &module.functions[0];
    match &f.instructions[f.blocks[0].body[0].0 as usize] {
        InstrKind::Call { callee, .. } => assert_eq!(*callee, ValueRef::Global(GlobalId(1))),
        other => panic!("expected call, got {other:?}"),
    }
    let mut second = UbsanModulePass;
    let mut plain = Module { functions: vec![one_block(vec![binary(BinOp::Add, true)], ret_of(0))], source_filename: String::new() };
    assert!(!second.run_on_module(&mut ctx, &mut plain));
}
