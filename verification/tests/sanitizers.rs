use lib::ir::{BasicBlock, Context, Function, GlobalId, InstrId, InstrKind, Module, TypeData, TypeId, ValueRef};
use lib::msan;
use lib::tsan;

const I8: TypeId = TypeId(0);
const I32: TypeId = TypeId(1);
const I64: TypeId = TypeId(2);
const PTR: TypeId = TypeId(3);

const TSAN_FNS: [&str; 11] = [
    "__tsan_init",
    "__tsan_func_entry",
    "__tsan_func_exit",
    "__tsan_read1",
    "__tsan_read2",
    "__tsan_read4",
    "__tsan_read8",
    "__tsan_write1",
    "__tsan_write2",
    "__tsan_write4",
    "__tsan_write8",
];

const MSAN_FNS: [&str; 11] = [
    "__msan_init",
    "__msan_warning_noreturn",
    "__msan_poison_stack",
    "__msan_check_shadow1",
    "__msan_check_shadow2",
    "__msan_check_shadow4",
    "__msan_check_shadow8",
    "__msan_store_shadow1",
    "__msan_store_shadow2",
    "__msan_store_shadow4",
    "__msan_store_shadow8",
];

fn context() -> Context {
    Context {
        types: vec![TypeData::Integer(8), TypeData::Integer(32), TypeData::Integer(64), TypeData::Pointer],
        i64_ty: I64,
        constants: Vec::new(),
    }
}

fn declaration(name: &str) -> Function {
    Function { name: name.to_string(), blocks: Vec::new(), instructions: Vec::new(), is_declaration: true, num_args: 0, debug_locs: Vec::new() }
}

/// Module whose function 0 is `f`, one entry block holding `body` then
/// `term`, followed by declarations of `runtime`.
fn module_with(body: Vec<InstrKind>, term: InstrKind, runtime: &[&str]) -> Module {
    let mut f = Function { name: "f".to_string(), blocks: Vec::new(), instructions: Vec::new(), is_declaration: false, num_args: 0, debug_locs: Vec::new() };
    let mut ids = Vec::new();
    for k in body {
        f.instructions.push(k);
        ids.push(InstrId((f.instructions.len() - 1) as u32));
    }
    f.instructions.push(term);
    let t = InstrId((f.instructions.len() - 1) as u32);
    f.blocks.push(BasicBlock { name: "entry".to_string(), body: ids, terminator: Some(t) });
    let mut functions = vec![f];
    for name in runtime {
        functions.push(declaration(name));
    }
    Module { functions, source_filename: String::new() }
}

fn count_calls_to(module: &Module, fi: usize, name: &str) -> usize {
    let target = match module.functions.iter().position(|f| f.name == name) {
        Some(i) => i as u32,
        None => return 0,
    };
    let f = &module.functions[fi];
    f.blocks
        .iter()
        .flat_map(|bb| bb.body.iter())
        .filter(|&&iid| {
            matches!(&f.instructions[iid.0 as usize],
                InstrKind::Call { callee: ValueRef::Global(GlobalId(g)), .. } if *g == target)
        })
        .count()
}

fn run_tsan(ctx: &mut Context, module: &mut Module) -> bool {
    let mut pass = tsan::TsanPass;
    pass.run_on_module(ctx, module)
}

fn run_msan(ctx: &mut Context, module: &mut Module) -> bool {
    let mut pass = msan::MsanPass;
    pass.run_on_module(ctx, module)
}

fn function_id(module: &Module, name: &str) -> Option<usize> {
    module.functions.iter().position(|f| f.name == name)
}

fn load(ty: TypeId, ptr: ValueRef) -> InstrKind {
    InstrKind::Load { ty, ptr }
}

fn ret_of(id: u32) -> InstrKind {
    InstrKind::Ret { val: Some(ValueRef::Instruction(InstrId(id))) }
}

#[test]
fn tsan_inserts_read_before_load() {
    let mut ctx = context();
    let mut module = module_with(vec![load(I64, ValueRef::Argument(0))], ret_of(0), &TSAN_FNS);
    run_tsan(&mut ctx, &mut module);
    let count = count_calls_to(&module, 0, "__tsan_read8");
    assert!(count >= 1, "__tsan_read8 should be called at least once, got {count}");
}

#[test]
fn tsan_inserts_write_before_store() {
    let mut ctx = context();
    let store = InstrKind::Store { val: ValueRef::Argument(0), ptr: ValueRef::Argument(1), ty: I64 };
    let mut module = module_with(vec![store], InstrKind::Ret { val: None }, &TSAN_FNS);
    run_tsan(&mut ctx, &mut module);
    let count = count_calls_to(&module, 0, "__tsan_write8");
    assert!(count >= 1, "__tsan_write8 should be called at least once, got {count}");
}

#[test]
fn tsan_skips_alloca_pointer() {
    let mut ctx = context();
    let mut module = module_with(
        vec![InstrKind::Alloca { ty: I32, align: None }, load(I32, ValueRef::Instruction(InstrId(0)))],
        InstrKind::Ret { val: None },
        &TSAN_FNS,
    );
    let before_instr_count = module.functions[0].instructions.len();
    run_tsan(&mut ctx, &mut module);
    let read_count = count_calls_to(&module, 0, "__tsan_read4");
    let read1_count = count_calls_to(&module, 0, "__tsan_read1");
    let read8_count = count_calls_to(&module, 0, "__tsan_read8");
    assert_eq!(read_count + read1_count + read8_count, 0, "alloca-derived load must not be instrumented");
    let after_instr_count = module.functions[0].instructions.len();
    assert!(after_instr_count > before_instr_count, "func_entry/exit hooks should still be inserted");
}

#[test]
fn tsan_inserts_func_entry_exit() {
    let mut ctx = context();
    let mut module = module_with(vec![load(I64, ValueRef::Argument(0))], ret_of(0), &TSAN_FNS);
    run_tsan(&mut ctx, &mut module);
    let entry_count = count_calls_to(&module, 0, "__tsan_func_entry");
    let exit_count = count_calls_to(&module, 0, "__tsan_func_exit");
    assert!(entry_count >= 1, "__tsan_func_entry must be inserted");
    assert!(exit_count >= 1, "__tsan_func_exit must be inserted before ret");
}

#[test]
fn tsan_byte_width_i8() {
    let mut ctx = context();
    let mut module = module_with(vec![load(I8, ValueRef::Argument(0))], ret_of(0), &TSAN_FNS);
    run_tsan(&mut ctx, &mut module);
    let count = count_calls_to(&module, 0, "__tsan_read1");
    assert!(count >= 1, "i8 load should use __tsan_read1, got {count}");
}

#[test]
fn tsan_byte_width_i32() {
    let mut ctx = context();
    let mut module = module_with(vec![load(I32, ValueRef::Argument(0))], ret_of(0), &TSAN_FNS);
    run_tsan(&mut ctx, &mut module);
    let count = count_calls_to(&module, 0, "__tsan_read4");
    assert!(count >= 1, "i32 load should use __tsan_read4, got {count}");
}

#[test]
fn tsan_probe_layout() {
    // entry: %0 = load i64, %1 = ptr arg; ret %0
    let mut ctx = context();
    let mut module = module_with(vec![load(I64, ValueRef::Argument(0))], ret_of(0), &TSAN_FNS);
    assert!(run_tsan(&mut ctx, &mut module));
    let f = &module.functions[0];
    // entry call (id 2), ptrtoint (4), read8 call (5), the load, exit call (3)
    assert_eq!(f.blocks[0].body, vec![InstrId(2), InstrId(4), InstrId(5), InstrId(0), InstrId(3)]);
    assert!(matches!(f.instructions[4], InstrKind::PtrToInt { val: ValueRef::Argument(0) }));
    match &f.instructions[5] {
        InstrKind::Call { callee, args, .. } => {
            assert_eq!(*callee, ValueRef::Global(GlobalId(7)));
            assert_eq!(*args, vec![ValueRef::Instruction(InstrId(4))]);
        },
        other => panic!("expected call, got {other:?}"),
    }
    assert_eq!(ctx.constants.len(), 1);
}

#[test]
fn tsan_without_runtime_declarations_changes_nothing() {
    let mut ctx = context();
    let mut module = module_with(vec![load(I64, ValueRef::Argument(0))], ret_of(0), &[]);
    assert!(!tsan::instrument_function(&mut ctx, &mut module, 0));
    assert_eq!(module.functions[0].instructions.len(), 2);
    assert_eq!(module.functions[0].blocks[0].body, vec![InstrId(0)]);
}

#[test]
fn tsan_alloca_ids_are_entry_allocas() {
    let module = module_with(
        vec![InstrKind::Alloca { ty: I32, align: None }, load(I32, ValueRef::Argument(0)), InstrKind::Alloca { ty: I64, align: None }],
        InstrKind::Ret { val: None },
        &[],
    );
    assert_eq!(tsan::collect_alloca_vrefs(&module.functions[0]), vec![InstrId(0), InstrId(2)]);
}

#[test]
fn msan_load_gets_check() {
    let mut ctx = context();
    let mut module = module_with(vec![load(I64, ValueRef::Argument(0))], ret_of(0), &MSAN_FNS);
    run_msan(&mut ctx, &mut module);
    let count = count_calls_to(&module, 0, "__msan_check_shadow8");
    assert!(count >= 1, "__msan_check_shadow8 should be inserted for i64 load, got {count}");
}

#[test]
fn msan_store_gets_mark() {
    let mut ctx = context();
    let store = InstrKind::Store { val: ValueRef::Argument(1), ptr: ValueRef::Argument(0), ty: I32 };
    let mut module = module_with(vec![store], InstrKind::Ret { val: None }, &MSAN_FNS);
    run_msan(&mut ctx, &mut module);
    let count = count_calls_to(&module, 0, "__msan_store_shadow4");
    assert!(count >= 1, "__msan_store_shadow4 should be inserted for i32 store, got {count}");
}

#[test]
fn msan_alloca_gets_poison() {
    let mut ctx = context();
    let mut module = module_with(vec![InstrKind::Alloca { ty: I64, align: None }], InstrKind::Ret { val: None }, &MSAN_FNS);
    run_msan(&mut ctx, &mut module);
    let count = count_calls_to(&module, 0, "__msan_poison_stack");
    assert!(count >= 1, "__msan_poison_stack should be inserted after alloca, got {count}");
    // alloca, ptrtoint, poison call; the size 8 is the constant argument
    assert_eq!(module.functions[0].blocks[0].body, vec![InstrId(0), InstrId(2), InstrId(3)]);
    assert_eq!(ctx.constants, vec![lib::ir::ConstantData::Int { ty: I64, val: 8 }]);
}

#[test]
fn msan_byte_width_i8_load() {
    let mut ctx = context();
    let mut module = module_with(vec![load(I8, ValueRef::Argument(0))], ret_of(0), &MSAN_FNS);
    run_msan(&mut ctx, &mut module);
    let count = count_calls_to(&module, 0, "__msan_check_shadow1");
    assert!(count >= 1, "i8 load should use __msan_check_shadow1, got {count}");
}

#[test]
fn msan_byte_width_i32_store() {
    let mut ctx = context();
    let store = InstrKind::Store { val: ValueRef::Argument(1), ptr: ValueRef::Argument(0), ty: I32 };
    let mut module = module_with(vec![store], InstrKind::Ret { val: None }, &MSAN_FNS);
    run_msan(&mut ctx, &mut module);
    let count = count_calls_to(&module, 0, "__msan_store_shadow4");
    assert!(count >= 1, "i32 store should use __msan_store_shadow4, got {count}");
}

#[test]
fn msan_load_after_store_no_double_check() {
    let mut ctx = context();
    let store = InstrKind::Store { val: ValueRef::Argument(1), ptr: ValueRef::Argument(0), ty: I32 };
    let mut module = module_with(vec![store, load(I32, ValueRef::Argument(0))], ret_of(1), &MSAN_FNS);
    run_msan(&mut ctx, &mut module);
    let store_count = count_calls_to(&module, 0, "__msan_store_shadow4");
    let load_count = count_calls_to(&module, 0, "__msan_check_shadow4");
    assert!(store_count >= 1, "store should get shadow mark, got {store_count}");
    assert!(load_count >= 1, "load should get shadow check, got {load_count}");
    // mark before the store, check after the load
    let body = &module.functions[0].blocks[0].body;
    assert_eq!(body.len(), 6);
    assert_eq!(body[2], InstrId(0));
    assert_eq!(body[3], InstrId(1));
}

#[test]
fn msan_store_of_constant_counts_four_bytes() {
    let mut ctx = context();
    ctx.constants.push(lib::ir::ConstantData::Int { ty: I8, val: 1 });
    let store =
        InstrKind::Store { val: ValueRef::Constant(lib::ir::ConstId(0)), ptr: ValueRef::Argument(0), ty: I8 };
    let mut module = module_with(vec![store], InstrKind::Ret { val: None }, &MSAN_FNS);
    run_msan(&mut ctx, &mut module);
    assert_eq!(count_calls_to(&module, 0, "__msan_store_shadow4"), 1);
    assert_eq!(count_calls_to(&module, 0, "__msan_store_shadow1"), 0);
}

#[test]
fn tsan_steps_one_by_one_match_the_function_pass() {
    let body = vec![load(I32, ValueRef::Argument(0)), InstrKind::Store { val: ValueRef::Argument(1), ptr: ValueRef::Argument(0), ty: I8 }];
    let mut ctx = context();
    let mut module = module_with(body.clone(), ret_of(0), &TSAN_FNS);
    let allocas = tsan::collect_alloca_vrefs(&module.functions[0]);
    assert!(tsan::insert_func_entry(&mut ctx, &mut module, 0));
    assert!(tsan::insert_func_exits(&mut module, 0));
    assert!(tsan::instrument_memory_accesses(&ctx, &mut module, 0, &allocas));
    let mut ctx2 = context();
    let mut module2 = module_with(body, ret_of(0), &TSAN_FNS);
    assert!(run_tsan(&mut ctx2, &mut module2));
    assert_eq!(module.functions[0].blocks[0].body, module2.functions[0].blocks[0].body);
    assert_eq!(count_calls_to(&module2, 0, "__tsan_read4"), 1);
    assert_eq!(count_calls_to(&module2, 0, "__tsan_write1"), 1);
}

#[test]
fn tsan_declares_runtime_fns() {
    let mut ctx = context();
    let mut module = module_with(vec![load(I64, ValueRef::Argument(0))], ret_of(0), &[]);
    let mut pass = tsan::TsanPass;
    assert_eq!(pass.name(), "tsan");
    assert!(pass.run_on_module(&mut ctx, &mut module));
    for name in &TSAN_FNS {
        assert!(function_id(&module, name).is_some(), "{name} must be declared");
    }
}

#[test]
fn tsan_module_ctor_present() {
    let mut ctx = context();
    let mut module = module_with(vec![load(I64, ValueRef::Argument(0))], ret_of(0), &[]);
    run_tsan(&mut ctx, &mut module);
    assert!(function_id(&module, "__tsan_module_ctor").is_some(), "__tsan_module_ctor must be added");
    let ctor_fid = function_id(&module, "__tsan_module_ctor").unwrap();
    let init_count = count_calls_to(&module, ctor_fid, "__tsan_init");
    assert!(init_count >= 1, "__tsan_module_ctor must call __tsan_init");
    // the constructor itself is not instrumented
    assert_eq!(module.functions[ctor_fid].instructions.len(), 2);
}

#[test]
fn msan_declares_runtime_fns() {
    let mut ctx = context();
    let mut module = module_with(vec![load(I64, ValueRef::Argument(0))], ret_of(0), &[]);
    let mut pass = msan::MsanPass;
    assert_eq!(pass.name(), "msan");
    pass.run_on_module(&mut ctx, &mut module);
    for name in &MSAN_FNS {
        assert!(function_id(&module, name).is_some(), "{name} must be declared");
    }
}

#[test]
fn msan_module_ctor_present() {
    let mut ctx = context();
    let mut module = module_with(vec![load(I64, ValueRef::Argument(0))], ret_of(0), &[]);
    run_msan(&mut ctx, &mut module);
    let ctor_fid = function_id(&module, "__msan_module_ctor").expect("__msan_module_ctor must be added");
    let init_count = count_calls_to(&module, ctor_fid, "__msan_init");
    assert!(init_count >= 1, "__msan_module_ctor must call __msan_init");
}
