use lib::ir::{BasicBlock, BinOp, BlockId, ConstId, Function, InstrId, InstrKind, IntPredicate, TailCallKind, TypeId, ValueRef};
use lib::transforms::licm::{Licm, LoopDesc};

const I32: TypeId = TypeId(1);

fn arg(i: u32) -> ValueRef {
    ValueRef::Argument(i)
}

fn inst(i: u32) -> ValueRef {
    ValueRef::Instruction(InstrId(i))
}

fn cst(i: u32) -> ValueRef {
    ValueRef::Constant(ConstId(i))
}

fn add(lhs: ValueRef, rhs: ValueRef) -> InstrKind {
    InstrKind::Binary { op: BinOp::Add, ty: I32, lhs, rhs, nsw: false }
}

fn function(num_args: usize, instrs: Vec<InstrKind>, blocks: Vec<(&str, Vec<u32>, u32)>) -> Function {
    Function {
        name: "f".to_string(),
        blocks: blocks
            .into_iter()
            .map(|(n, body, t)| BasicBlock { name: n.to_string(), body: body.into_iter().map(InstrId).collect(), terminator: Some(InstrId(t)) })
            .collect(),
        instructions: instrs,
        is_declaration: false,
        num_args,
        debug_locs: Vec::new(),
    }
}

fn body_len(func: &Function, bid: BlockId) -> usize {
    func.blocks[bid.0 as usize].body.len()
}

fn blocks(ids: &[u32]) -> Vec<BlockId> {
    ids.iter().map(|&b| BlockId(b)).collect()
}

fn preds(lists: &[&[u32]]) -> Vec<Vec<BlockId>> {
    lists.iter().map(|l| blocks(l)).collect()
}

/// entry(0) -> header(1) -> body(2) -> header; header -> exit(3).
/// body holds %inv = add %a, %bv (id 3) and %i_next = add %i, 1 (id 4);
/// `extra` instructions go to the end of body.
fn simple_loop(extra: Vec<InstrKind>) -> (Function, Vec<LoopDesc>, Vec<Vec<BlockId>>) {
    let mut instrs = vec![
        InstrKind::Br { dest: BlockId(1) },
        InstrKind::Phi { ty: 0, incoming: vec![(cst(0), BlockId(0)), (inst(4), BlockId(2))] },
        InstrKind::ICmp { pred: IntPredicate::Slt, lhs: inst(1), rhs: arg(0) },
        add(arg(1), arg(2)),
        add(inst(1), cst(1)),
        InstrKind::CondBr { cond: inst(2), then_dest: BlockId(2), else_dest: BlockId(3) },
        InstrKind::Br { dest: BlockId(1) },
        InstrKind::Ret { val: Some(cst(0)) },
    ];
    let mut body = vec![3, 4];
    for k in extra {
        instrs.push(k);
        body.push((instrs.len() - 1) as u32);
    }
    let f = function(3, instrs, vec![("entry", vec![], 0), ("header", vec![1, 2], 5), ("body", body, 6), ("exit", vec![], 7)]);
    let loops = vec![LoopDesc { header: BlockId(1), body: blocks(&[1, 2]) }];
    (f, loops, preds(&[&[], &[0, 2], &[1], &[1]]))
}

fn run(f: &mut Function, loops: &Vec<LoopDesc>, p: &Vec<Vec<BlockId>>, strictfp: bool) -> bool {
    let mut pass = Licm;
    pass.run_on_function(f, loops, p, strictfp)
}

#[test]
fn licm_hoists_invariant_add() {
    let (mut func, loops, p) = simple_loop(Vec::new());
    let body = BlockId(2);
    assert_eq!(body_len(&func, body), 2, "before LICM: body should have 2 instrs");
    let changed = run(&mut func, &loops, &p, false);
    assert!(changed, "LICM must report a change");
    assert!(!func.blocks[body.0 as usize].body.contains(&InstrId(3)), "%inv must be hoisted out of loop body");
    assert!(func.blocks[body.0 as usize].body.contains(&InstrId(4)), "%i_next must stay in loop body");
}

#[test]
fn licm_does_not_hoist_variant() {
    let (mut func, loops, p) = simple_loop(Vec::new());
    run(&mut func, &loops, &p, false);
    let body = BlockId(2);
    assert!(func.blocks[body.0 as usize].body.contains(&InstrId(4)), "loop-variant %i_next must not be hoisted");
}

#[test]
fn licm_does_not_hoist_store() {
    // body stores 1 to %slot = alloca (id 9), which entry holds.
    let (mut func, loops, p) = simple_loop(vec![InstrKind::Store { val: cst(1), ptr: inst(9), ty: I32 }]);
    func.instructions.push(InstrKind::Alloca { ty: I32, align: None });
    func.blocks[0].body.push(InstrId(9));
    let store_id = InstrId(8);
    assert!(matches!(func.instructions[8], InstrKind::Store { .. }));
    let body = BlockId(2);
    run(&mut func, &loops, &p, false);
    assert!(func.blocks[body.0 as usize].body.contains(&store_id), "Store must not be hoisted out of loop body");
}

#[test]
fn licm_does_not_hoist_call() {
    let call = InstrKind::Call { tail: TailCallKind::Unmarked, callee: ValueRef::Global(lib::ir::GlobalId(0)), args: vec![cst(1)] };
    let (mut func, loops, p) = simple_loop(vec![call]);
    let call_id = InstrId(8);
    let body = BlockId(2);
    run(&mut func, &loops, &p, false);
    assert!(func.blocks[body.0 as usize].body.contains(&call_id), "Call must not be hoisted out of loop body");
}

#[test]
fn licm_moves_not_copies_instructions() {
    let (mut func, loops, p) = simple_loop(Vec::new());
    let total_before: usize = func.blocks.iter().map(|bb| bb.body.len()).sum();
    let changed = run(&mut func, &loops, &p, false);
    assert!(changed);
    let total_after: usize = func.blocks.iter().map(|bb| bb.body.len()).sum();
    assert_eq!(total_before, total_after, "LICM should move (not copy) instructions — total body count unchanged");
}

#[test]
fn licm_nested_loops_hoist_to_correct_preheader() {
    // entry(0) outer_header(1) outer_body(2) inner_header(3) inner_body(4) outer_exit(5) exit(6)
    let instrs = vec![
        InstrKind::Br { dest: BlockId(1) },                                                  // 0 entry
        InstrKind::Phi { ty: 0, incoming: vec![(cst(0), BlockId(0)), (inst(11), BlockId(5))] }, // 1 %oi
        InstrKind::ICmp { pred: IntPredicate::Slt, lhs: inst(1), rhs: arg(0) },             // 2 %ocmp
        InstrKind::CondBr { cond: inst(2), then_dest: BlockId(2), else_dest: BlockId(6) },  // 3
        add(arg(1), arg(2)),                                                                 // 4 %outer_inv
        InstrKind::Br { dest: BlockId(3) },                                                  // 5
        InstrKind::Phi { ty: 0, incoming: vec![(cst(0), BlockId(2)), (inst(10), BlockId(4))] }, // 6 %ii
        InstrKind::ICmp { pred: IntPredicate::Slt, lhs: inst(6), rhs: arg(0) },             // 7 %icmp
        InstrKind::CondBr { cond: inst(7), then_dest: BlockId(4), else_dest: BlockId(5) },  // 8
        add(arg(3), arg(4)),                                                                 // 9 %inner_inv
        add(inst(6), cst(1)),                                                                // 10 %ii_next
        add(inst(1), cst(1)),                                                                // 11 %oi_next
        InstrKind::Br { dest: BlockId(3) },                                                  // 12
        InstrKind::Br { dest: BlockId(1) },                                                  // 13
        InstrKind::Ret { val: Some(cst(0)) },                                                // 14
    ];
    let mut func = function(
        5,
        instrs,
        vec![
            ("entry", vec![], 0),
            ("outer_header", vec![1, 2], 3),
            ("outer_body", vec![4], 5),
            ("inner_header", vec![6, 7], 8),
            ("inner_body", vec![9, 10], 12),
            ("outer_exit", vec![11], 13),
            ("exit", vec![], 14),
        ],
    );
    let loops = vec![
        LoopDesc { header: BlockId(1), body: blocks(&[1, 2, 3, 4, 5]) },
        LoopDesc { header: BlockId(3), body: blocks(&[3, 4]) },
    ];
    let p = preds(&[&[], &[0, 5], &[1], &[2, 4], &[3], &[3], &[1]]);
    let outer_body = BlockId(2);
    let inner_body = BlockId(4);
    assert_eq!(body_len(&func, outer_body), 1, "outer_body: 1 instr before LICM");
    assert_eq!(body_len(&func, inner_body), 2, "inner_body: 2 instrs before LICM");
    let changed = run(&mut func, &loops, &p, false);
    assert!(changed, "LICM should make changes on nested loops");
    assert!(!func.blocks[inner_body.0 as usize].body.contains(&InstrId(9)), "%inner_inv must be hoisted out of inner_body");
    assert!(!func.blocks[outer_body.0 as usize].body.contains(&InstrId(4)), "%outer_inv must be hoisted out of outer_body");
    // both end up in the entry block, the outer loop's preheader, in program order
    assert_eq!(func.blocks[0].body, vec![InstrId(4), InstrId(9)]);
}

// ── beyond the scenarios above ─────────────────────────────────────────────

#[test]
fn hoisted_instructions_land_in_the_preheader_in_order() {
    let (mut func, loops, p) = simple_loop(Vec::new());
    run(&mut func, &loops, &p, false);
    assert_eq!(func.blocks[0].body, vec![InstrId(3)]);
    assert_eq!(func.blocks[2].body, vec![InstrId(4)]);
    assert_eq!(func.blocks.len(), 4);
}

#[test]
fn chains_of_invariants_move_over_several_rounds() {
    // %w = add %inv, %a depends on %inv, defined in the loop until round one moves it
    let (mut func, loops, p) = simple_loop(vec![add(inst(3), arg(1))]);
    assert!(run(&mut func, &loops, &p, false));
    assert_eq!(func.blocks[0].body, vec![InstrId(3), InstrId(8)]);
    assert_eq!(func.blocks[2].body, vec![InstrId(4)]);
}

#[test]
fn a_preheader_is_created_for_two_outside_predecessors() {
    // entry(0) condbr -> header(1) or side(4); side -> header; loop header(1)/body(2); exit(3)
    let (mut func, loops, _) = simple_loop(Vec::new());
    func.instructions[0] = InstrKind::CondBr { cond: arg(0), then_dest: BlockId(1), else_dest: BlockId(4) };
    func.instructions.push(InstrKind::Br { dest: BlockId(1) }); // 8
    func.blocks.push(BasicBlock { name: "side".to_string(), body: Vec::new(), terminator: Some(InstrId(8)) });
    func.instructions[1] = InstrKind::Phi {
        ty: 0,
        incoming: vec![(cst(0), BlockId(0)), (cst(1), BlockId(4)), (inst(4), BlockId(2))],
    };
    let p = preds(&[&[], &[0, 4, 2], &[1], &[1], &[0]]);
    assert!(run(&mut func, &loops, &p, false));
    assert_eq!(func.blocks.len(), 6);
    let pre = &func.blocks[5];
    assert_eq!(pre.name, "header.preheader");
    assert_eq!(pre.body, vec![InstrId(3)]);
    assert!(matches!(func.instructions[pre.terminator.unwrap().0 as usize], InstrKind::Br { dest: BlockId(1) }));
    assert!(matches!(func.instructions[0], InstrKind::CondBr { then_dest: BlockId(5), else_dest: BlockId(4), .. }));
    assert!(matches!(func.instructions[8], InstrKind::Br { dest: BlockId(5) }));
    match &func.instructions[1] {
        InstrKind::Phi { incoming, .. } => {
            assert_eq!(incoming, &vec![(cst(0), BlockId(5)), (cst(1), BlockId(5)), (inst(4), BlockId(2))]);
        },
        _ => panic!("phi expected"),
    }
}

#[test]
fn strict_floating_point_keeps_float_arithmetic() {
    let fop = InstrKind::FloatOp { operands: vec![arg(1), arg(2)], arith: true, reorderable: true };
    let (mut func, loops, p) = simple_loop(vec![fop]);
    run(&mut func, &loops, &p, true);
    assert!(func.blocks[2].body.contains(&InstrId(8)));
    let fop = InstrKind::FloatOp { operands: vec![arg(1), arg(2)], arith: true, reorderable: true };
    let (mut func, loops, p) = simple_loop(vec![fop]);
    run(&mut func, &loops, &p, false);
    assert!(!func.blocks[2].body.contains(&InstrId(8)));
    let fop = InstrKind::FloatOp { operands: vec![arg(1), arg(2)], arith: true, reorderable: false };
    let (mut func, loops, p) = simple_loop(vec![fop]);
    run(&mut func, &loops, &p, false);
    assert!(func.blocks[2].body.contains(&InstrId(8)));
}

#[test]
fn no_loops_means_no_change() {
    let (mut func, _, p) = simple_loop(Vec::new());
    let before = func.blocks.clone();
    assert!(!run(&mut func, &Vec::new(), &p, false));
    assert_eq!(before.len(), func.blocks.len());
    assert_eq!(func.blocks[2].body, vec![InstrId(3), InstrId(4)]);
}

#[test]
fn pass_name_is_licm() {
    assert_eq!(Licm.name(), "licm");
}
