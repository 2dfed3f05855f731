use lib::ir::{
    BasicBlock, BlockId, ConstId, TypeId, ConstantData, Context, Function, GlobalId, InstrId, InstrKind, Module, TailCallKind,
    ValueRef,
};
use lib::transforms::jump_threading::JumpThreading;
use lib::transforms::tailcall::TailCallOpt;
use lib::ubsan::{instrument_unreachable, PLACEHOLDER_BASE};

/// A small function builder: blocks are named, instructions appended to the
/// current block.
struct Builder {
    func: Function,
    ctx: Context,
    cur: usize,
}

impl Builder {
    fn new(name: &str) -> Self {
        Builder {
            func: Function { name: name.to_string(), blocks: Vec::new(), instructions: Vec::new(), is_declaration: false, num_args: 0, debug_locs: Vec::new() },
            ctx: Context { types: Vec::new(), i64_ty: TypeId(0), constants: Vec::new() },
            cur: 0,
        }
    }
    fn add_block(&mut self, name: &str) -> BlockId {
        self.func.blocks.push(BasicBlock { name: name.to_string(), body: Vec::new(), terminator: None });
        BlockId((self.func.blocks.len() - 1) as u32)
    }
    fn position_at_end(&mut self, b: BlockId) {
        self.cur = b.0 as usize;
    }
    fn const_int(&mut self, val: u64) -> ValueRef {
        self.ctx.constants.push(ConstantData::Int { ty: TypeId(1), val });
        ValueRef::Constant(ConstId((self.ctx.constants.len() - 1) as u32))
    }
    fn push(&mut self, kind: InstrKind) -> InstrId {
        self.func.instructions.push(kind);
        InstrId((self.func.instructions.len() - 1) as u32)
    }
    fn body(&mut self, kind: InstrKind) -> ValueRef {
        let id = self.push(kind);
        self.func.blocks[self.cur].body.push(id);
        ValueRef::Instruction(id)
    }
    fn term(&mut self, kind: InstrKind) -> InstrId {
        let id = self.push(kind);
        self.func.blocks[self.cur].terminator = Some(id);
        id
    }
    fn term_of(&self, b: BlockId) -> &InstrKind {
        let t = self.func.blocks[b.0 as usize].terminator.expect("terminator");
        &self.func.instructions[t.0 as usize]
    }
}

fn run_jt(b: &mut Builder) -> bool {
    let mut pass = JumpThreading;
    pass.run_on_function(&mut b.ctx, &mut b.func)
}

#[test]
fn folds_const_condbr_to_unconditional_branch() {
    let mut b = Builder::new("main");
    let entry = b.add_block("entry");
    let then_b = b.add_block("then");
    let else_b = b.add_block("else");
    b.position_at_end(entry);
    let c1 = b.const_int(1);
    b.term(InstrKind::CondBr { cond: c1, then_dest: then_b, else_dest: else_b });
    b.position_at_end(then_b);
    b.term(InstrKind::Ret { val: None });
    b.position_at_end(else_b);
    b.term(InstrKind::Ret { val: None });
    assert!(run_jt(&mut b));
    match b.term_of(entry) {
        InstrKind::Br { dest } => assert_eq!(*dest, then_b),
        other => panic!("expected Br after threading, got {other:?}"),
    }
}

#[test]
fn leaves_non_constant_condbr_unchanged() {
    let mut b = Builder::new("main");
    let entry = b.add_block("entry");
    let then_b = b.add_block("then");
    let else_b = b.add_block("else");
    b.position_at_end(entry);
    b.term(InstrKind::CondBr { cond: ValueRef::Argument(0), then_dest: then_b, else_dest: else_b });
    b.position_at_end(then_b);
    b.term(InstrKind::Ret { val: None });
    b.position_at_end(else_b);
    b.term(InstrKind::Ret { val: None });
    assert!(!run_jt(&mut b));
}

#[test]
fn phi_threading_true_branch() {
    let mut b = Builder::new("f");
    let pred_true = b.add_block("pred_true");
    let pred_false = b.add_block("pred_false");
    let join = b.add_block("join");
    let then_b = b.add_block("then");
    let else_b = b.add_block("else");
    b.position_at_end(pred_true);
    b.term(InstrKind::Br { dest: join });
    b.position_at_end(pred_false);
    b.term(InstrKind::Br { dest: join });
    b.position_at_end(join);
    let c_true = b.const_int(1);
    let c_false = b.const_int(0);
    let phi = b.body(InstrKind::Phi { ty: 1, incoming: vec![(c_true, pred_true), (c_false, pred_false)] });
    b.term(InstrKind::CondBr { cond: phi, then_dest: then_b, else_dest: else_b });
    b.position_at_end(then_b);
    b.term(InstrKind::Ret { val: None });
    b.position_at_end(else_b);
    b.term(InstrKind::Ret { val: None });
    assert!(run_jt(&mut b));
    match b.term_of(pred_true) {
        InstrKind::Br { dest } => assert_eq!(*dest, then_b, "pred_true should go to then"),
        other => panic!("expected Br, got {other:?}"),
    }
    match b.term_of(pred_false) {
        InstrKind::Br { dest } => assert_eq!(*dest, else_b, "pred_false should go to else"),
        other => panic!("expected Br, got {other:?}"),
    }
}

#[test]
fn phi_threading_false_branch() {
    let mut b = Builder::new("g");
    let pred_true = b.add_block("pred_true");
    let join = b.add_block("join");
    let then_b = b.add_block("then");
    let else_b = b.add_block("else");
    b.position_at_end(pred_true);
    b.term(InstrKind::Br { dest: join });
    b.position_at_end(join);
    let c_false = b.const_int(0);
    let phi = b.body(InstrKind::Phi { ty: 1, incoming: vec![(c_false, pred_true)] });
    b.term(InstrKind::CondBr { cond: phi, then_dest: then_b, else_dest: else_b });
    b.position_at_end(then_b);
    b.term(InstrKind::Ret { val: None });
    b.position_at_end(else_b);
    b.term(InstrKind::Ret { val: None });
    assert!(run_jt(&mut b));
    match b.term_of(pred_true) {
        InstrKind::Br { dest } => assert_eq!(*dest, else_b, "false phi: pred_true should go to else"),
        other => panic!("expected Br, got {other:?}"),
    }
}

#[test]
fn empty_block_bypass() {
    let mut b = Builder::new("h");
    let entry = b.add_block("entry");
    let empty = b.add_block("empty");
    let real_then = b.add_block("real_then");
    let else_b = b.add_block("else");
    b.position_at_end(entry);
    b.term(InstrKind::CondBr { cond: ValueRef::Argument(0), then_dest: empty, else_dest: else_b });
    b.position_at_end(empty);
    b.term(InstrKind::Br { dest: real_then });
    b.position_at_end(real_then);
    b.term(InstrKind::Ret { val: None });
    b.position_at_end(else_b);
    b.term(InstrKind::Ret { val: None });
    assert!(run_jt(&mut b));
    match b.term_of(entry) {
        InstrKind::CondBr { then_dest, .. } => assert_eq!(*then_dest, real_then, "should bypass empty block"),
        other => panic!("expected CondBr, got {other:?}"),
    }
}

#[test]
fn leaves_nontrivial_phi_alone() {
    let mut b = Builder::new("k");
    let pred_a = b.add_block("pred_a");
    let pred_b = b.add_block("pred_b");
    let join = b.add_block("join");
    let then_b = b.add_block("then");
    let else_b = b.add_block("else");
    b.position_at_end(pred_a);
    b.term(InstrKind::Br { dest: join });
    b.position_at_end(pred_b);
    b.term(InstrKind::Br { dest: join });
    b.position_at_end(join);
    let phi =
        b.body(InstrKind::Phi { ty: 1, incoming: vec![(ValueRef::Argument(0), pred_a), (ValueRef::Argument(1), pred_b)] });
    b.term(InstrKind::CondBr { cond: phi, then_dest: then_b, else_dest: else_b });
    b.position_at_end(then_b);
    b.term(InstrKind::Ret { val: None });
    b.position_at_end(else_b);
    b.term(InstrKind::Ret { val: None });
    assert!(!run_jt(&mut b));
}

#[test]
fn empty_block_bypass_preserves_loop_header_phi_incoming() {
    // fib(n): entry -> (base_case | loop_init); loop_init is empty and
    // branches to loop_body, whose two phis take a value from loop_init.
    let mut b = Builder::new("fib");
    let entry = b.add_block("entry");
    let base_case = b.add_block("base_case");
    let loop_init = b.add_block("loop_init");
    let loop_body = b.add_block("loop_body");
    let loop_exit = b.add_block("loop_exit");
    b.position_at_end(entry);
    let cmp = b.body(InstrKind::Other);
    b.term(InstrKind::CondBr { cond: cmp, then_dest: base_case, else_dest: loop_init });
    b.position_at_end(base_case);
    b.term(InstrKind::Ret { val: Some(ValueRef::Argument(0)) });
    b.position_at_end(loop_init);
    b.term(InstrKind::Br { dest: loop_body });
    b.position_at_end(loop_body);
    let zero = b.const_int(0);
    let one = b.const_int(1);
    let a = b.body(InstrKind::Phi { ty: 32, incoming: vec![(zero, loop_init)] });
    let bb = b.body(InstrKind::Phi { ty: 32, incoming: vec![(one, loop_init)] });
    let next = b.body(InstrKind::Other);
    let cond = b.body(InstrKind::Other);
    // back edges
    if let ValueRef::Instruction(id) = a {
        b.func.instructions[id.0 as usize] = InstrKind::Phi { ty: 32, incoming: vec![(zero, loop_init), (bb, loop_body)] };
    }
    if let ValueRef::Instruction(id) = bb {
        b.func.instructions[id.0 as usize] =
            InstrKind::Phi { ty: 32, incoming: vec![(one, loop_init), (next, loop_body)] };
    }
    b.term(InstrKind::CondBr { cond, then_dest: loop_body, else_dest: loop_exit });
    b.position_at_end(loop_exit);
    b.term(InstrKind::Ret { val: Some(next) });
    run_jt(&mut b);
    match b.term_of(entry) {
        InstrKind::CondBr { else_dest, .. } => assert_eq!(*else_dest, loop_body),
        other => panic!("expected CondBr, got {other:?}"),
    }
    let mut checked = 0;
    for &iid in &b.func.blocks[loop_body.0 as usize].body {
        if let InstrKind::Phi { incoming, .. } = &b.func.instructions[iid.0 as usize] {
            assert!(incoming.len() >= 2, "loop phi lost an incoming entry: {incoming:?}");
            assert!(incoming.iter().any(|(_, p)| *p == entry || *p == loop_init), "loop phi has no preheader edge");
            assert!(incoming.iter().any(|(_, p)| *p == entry), "the bypassing predecessor must be listed");
            checked += 1;
        }
    }
    assert_eq!(checked, 2, "expected two loop-header phis");
}

#[test]
fn bypass_follows_chains_of_empty_blocks() {
    let mut b = Builder::new("chain");
    let entry = b.add_block("entry");
    let e1 = b.add_block("e1");
    let e2 = b.add_block("e2");
    let target = b.add_block("target");
    b.position_at_end(entry);
    b.term(InstrKind::CondBr { cond: ValueRef::Argument(0), then_dest: e1, else_dest: target });
    b.position_at_end(e1);
    b.term(InstrKind::Br { dest: e2 });
    b.position_at_end(e2);
    b.term(InstrKind::Br { dest: target });
    b.position_at_end(target);
    b.term(InstrKind::Ret { val: None });
    assert!(run_jt(&mut b));
    match b.term_of(entry) {
        InstrKind::CondBr { then_dest, else_dest, .. } => {
            assert_eq!(*then_dest, target);
            assert_eq!(*else_dest, target);
        },
        other => panic!("expected CondBr, got {other:?}"),
    }
    let mut again = JumpThreading;
    assert!(!again.run_on_function(&mut b.ctx, &mut b.func), "a second run finds nothing to do");
    assert_eq!(JumpThreading.name(), "jump-threading");
}

fn call_module(callee_name: &str, caller_name: &str, tail: TailCallKind, ret_value: bool, extra: bool) -> (Module, InstrId) {
    let callee = Function {
        name: callee_name.to_string(),
        blocks: Vec::new(),
        instructions: Vec::new(),
        is_declaration: true,
        num_args: 0,
        debug_locs: Vec::new(),
    };
    let mut instructions = vec![InstrKind::Call { tail, callee: ValueRef::Global(GlobalId(0)), args: vec![ValueRef::Argument(0)] }];
    let mut body = vec![InstrId(0)];
    if extra {
        instructions.push(InstrKind::Other);
        body.push(InstrId(1));
    }
    let ret = if ret_value { Some(ValueRef::Instruction(InstrId(0))) } else { None };
    instructions.push(InstrKind::Ret { val: ret });
    let term = InstrId((instructions.len() - 1) as u32);
    let caller = Function {
        name: caller_name.to_string(),
        blocks: vec![BasicBlock { name: "entry".to_string(), body, terminator: Some(term) }],
        instructions,
        is_declaration: false,
        num_args: 0,
        debug_locs: Vec::new(),
    };
    (Module { functions: vec![callee, caller], source_filename: String::new() }, InstrId(0))
}

fn tail_of(f: &Function, id: InstrId) -> TailCallKind {
    match &f.instructions[id.0 as usize] {
        InstrKind::Call { tail, .. } => *tail,
        other => panic!("expected call, got {other:?}"),
    }
}

#[test]
fn marks_tail_position_call() {
    let (mut m, call_id) = call_module("callee", "main", TailCallKind::Unmarked, true, false);
    let mut ctx = Context { types: Vec::new(), i64_ty: TypeId(0), constants: Vec::new() };
    let mut pass = TailCallOpt;
    assert!(pass.run_on_function(&mut ctx, &mut m.functions[1]));
    assert_eq!(tail_of(&m.functions[1], call_id), TailCallKind::Tail);
}

#[test]
fn tail_call_not_marked_non_tail() {
    let (mut m, call_id) = call_module("callee", "f", TailCallKind::Unmarked, true, true);
    let mut ctx = Context { types: Vec::new(), i64_ty: TypeId(0), constants: Vec::new() };
    let mut pass = TailCallOpt;
    assert!(!pass.run_on_function(&mut ctx, &mut m.functions[1]));
    assert_eq!(tail_of(&m.functions[1], call_id), TailCallKind::Unmarked);
}

#[test]
fn self_recursive_tail_marked_musttail() {
    let (mut m, call_id) = call_module("fact", "fact", TailCallKind::Unmarked, true, false);
    m.functions.remove(0);
    m.functions[0].instructions[0] =
        InstrKind::Call { tail: TailCallKind::Unmarked, callee: ValueRef::Global(GlobalId(0)), args: vec![] };
    let mut ctx = Context { types: Vec::new(), i64_ty: TypeId(0), constants: Vec::new() };
    let mut pass = TailCallOpt;
    assert!(pass.run_on_module(&mut ctx, &mut m));
    assert_eq!(tail_of(&m.functions[0], call_id), TailCallKind::MustTail, "self-recursive call should be MustTail");
}

#[test]
fn notail_attribute_preserved() {
    let (mut m, call_id) = call_module("callee", "f", TailCallKind::NoTail, true, false);
    let mut ctx = Context { types: Vec::new(), i64_ty: TypeId(0), constants: Vec::new() };
    let mut pass = TailCallOpt;
    assert!(!pass.run_on_module(&mut ctx, &mut m));
    assert_eq!(tail_of(&m.functions[1], call_id), TailCallKind::NoTail, "NoTail must be preserved");
}

#[test]
fn void_tail_call_marked() {
    let (mut m, call_id) = call_module("sink", "wrapper", TailCallKind::Unmarked, false, false);
    let mut ctx = Context { types: Vec::new(), i64_ty: TypeId(0), constants: Vec::new() };
    let mut pass = TailCallOpt;
    assert!(pass.run_on_module(&mut ctx, &mut m));
    assert_eq!(tail_of(&m.functions[1], call_id), TailCallKind::Tail, "void tail call should be marked Tail");
    assert_eq!(pass.name(), "tailcall-opt");
}

#[test]
fn ret_of_other_value_is_not_a_tail_call() {
    let (mut m, call_id) = call_module("callee", "f", TailCallKind::Unmarked, true, false);
    m.functions[1].instructions[1] = InstrKind::Ret { val: Some(ValueRef::Argument(0)) };
    let mut ctx = Context { types: Vec::new(), i64_ty: TypeId(0), constants: Vec::new() };
    let mut pass = TailCallOpt;
    assert!(!pass.run_on_module(&mut ctx, &mut m));
    assert_eq!(tail_of(&m.functions[1], call_id), TailCallKind::Unmarked);
}

#[test]
fn ubsan_unreachable_gets_handler_call() {
    let mut b = Builder::new("f");
    let entry = b.add_block("entry");
    let dead = b.add_block("dead");
    let other = b.add_block("other");
    b.position_at_end(entry);
    b.term(InstrKind::CondBr { cond: ValueRef::Argument(0), then_dest: dead, else_dest: other });
    b.position_at_end(dead);
    b.body(InstrKind::Other);
    let dead_term = b.term(InstrKind::Unreachable);
    b.position_at_end(other);
    b.term(InstrKind::Unreachable);
    let before = b.func.instructions.len();
    assert!(instrument_unreachable(&mut b.func));
    assert_eq!(b.func.instructions.len(), before + 2);
    assert_eq!(b.func.blocks[dead.0 as usize].body.len(), 2);
    assert_eq!(b.func.blocks[dead.0 as usize].body[1], InstrId(before as u32));
    assert_eq!(b.func.blocks[other.0 as usize].body, vec![InstrId(before as u32 + 1)]);
    assert_eq!(b.func.blocks[dead.0 as usize].terminator, Some(dead_term), "the unreachable terminator stays");
    match &b.func.instructions[before] {
        InstrKind::Call { tail, callee, args } => {
            assert_eq!(*tail, TailCallKind::Unmarked);
            assert_eq!(*callee, ValueRef::Global(GlobalId(PLACEHOLDER_BASE | 5)));
            assert!(args.is_empty());
        },
        other => panic!("expected call, got {other:?}"),
    }
    let mut plain = Builder::new("g");
    let e = plain.add_block("entry");
    plain.position_at_end(e);
    plain.term(InstrKind::Ret { val: None });
    assert!(!instrument_unreachable(&mut plain.func));
    assert!(plain.func.blocks[0].body.is_empty());
}

#[test]
fn tail_marking_twice_changes_nothing() {
    let (mut m, call_id) = call_module("callee", "main", TailCallKind::Unmarked, true, false);
    let mut ctx = Context { types: Vec::new(), i64_ty: TypeId(0), constants: Vec::new() };
    let mut pass = TailCallOpt;
    assert!(pass.run_on_module(&mut ctx, &mut m));
    let first = tail_of(&m.functions[1], call_id);
    assert!(!pass.run_on_module(&mut ctx, &mut m));
    assert_eq!(tail_of(&m.functions[1], call_id), first);
}
