use lib::ir::{Function, GlobalId, InstrKind, TailCallKind, ValueRef};
use lib::cli::{parse_compile_args, parse_limit_arg, parse_limit_value, parse_usize, usage, ParseLimits};
use lib::backend::driver::OptLevel;
use lib::machine::{MOpcode, MOperand, MachineFunction, PReg, VReg};
use lib::object::{ObjectFile, ObjectFormat, Section};
use lib::riscv::instructions::{MOV_PR, MOV_RR};
use lib::riscv::lower::{emit_mov_from_preg, emit_mov_to_preg, LowerState};
use lib::thinlto::{embed_bitcode, section_names};
use lib::ubsan::{apply_resolution_table, placeholder_callee, resolve_placeholder, ubsan_fn_index, PLACEHOLDER_BASE};
use lib::validation::{add, direction_label, mul_sub, Direction};

fn empty_obj(format: ObjectFormat) -> ObjectFile {
    ObjectFile { format, elf_machine: 0, coff_machine: 0, sections: Vec::new(), symbols: Vec::new() }
}

fn args(list: &[&str]) -> Vec<String> {
    list.iter().map(|s| s.to_string()).collect()
}

#[test]
fn lto_section_names_by_format() {
    assert_eq!(section_names(ObjectFormat::Elf), (".llvmbc", ".llvmcmd"));
    assert_eq!(section_names(ObjectFormat::Coff), (".llvmbc", ".llvmcmd"));
    assert_eq!(section_names(ObjectFormat::MachO), ("__LLVM,__bitcode", "__LLVM,__cmdline"));
}

#[test]
fn embed_bitcode_appends_both_sections() {
    let mut obj = empty_obj(ObjectFormat::Elf);
    embed_bitcode(&mut obj, vec![0x4C, 0x52], "--opt-level=2").unwrap();
    assert_eq!(obj.sections.len(), 2);
    assert_eq!(obj.sections[0].name, ".llvmbc");
    assert_eq!(obj.sections[0].data, vec![0x4C, 0x52]);
    assert_eq!(obj.sections[1].name, ".llvmcmd");
    assert_eq!(obj.sections[1].data, b"--opt-level=2".to_vec());
    let mut macho = empty_obj(ObjectFormat::MachO);
    embed_bitcode(&mut macho, vec![1], "").unwrap();
    assert_eq!(macho.sections[0].name, "__LLVM,__bitcode");
    assert_eq!(macho.sections[1].name, "__LLVM,__cmdline");
    assert!(macho.sections[1].data.is_empty());
}

#[test]
fn embed_bitcode_keeps_existing_text_first() {
    let mut obj = empty_obj(ObjectFormat::Elf);
    let text = Section { name: ".text".to_string(), data: vec![0x13, 0, 0, 0], relocs: Vec::new(), debug_rows: Vec::new() };
    obj.sections.push(text.clone());
    embed_bitcode(&mut obj, vec![0x42, 0x43, 0xC0, 0xDE], "-O2").unwrap();
    assert_eq!(obj.sections.len(), 3);
    assert_eq!(obj.sections[0].name, ".text");
    assert_eq!(obj.sections[0].data, text.data);
    assert!(obj.sections[0].relocs.is_empty());
    assert_eq!(obj.sections[1].name, ".llvmbc");
    assert_eq!(obj.sections[1].data, vec![0x42, 0x43, 0xC0, 0xDE]);
    assert_eq!(obj.sections[2].name, ".llvmcmd");
    assert_eq!(obj.sections[2].data, b"-O2".to_vec());
}

#[test]
fn embed_bitcode_into_coff_object() {
    let mut obj = empty_obj(ObjectFormat::Coff);
    embed_bitcode(&mut obj, vec![7, 8, 9], "--target=x86_64-pc-windows-msvc").unwrap();
    assert_eq!(obj.format, ObjectFormat::Coff);
    assert_eq!(obj.sections.len(), 2);
    assert_eq!(obj.sections[0].name, ".llvmbc");
    assert_eq!(obj.sections[0].data, vec![7, 8, 9]);
    assert_eq!(obj.sections[1].name, ".llvmcmd");
    assert_eq!(obj.sections[1].data, b"--target=x86_64-pc-windows-msvc".to_vec());
}

#[test]
fn embed_bitcode_rejects_empty_bitcode() {
    let mut obj = empty_obj(ObjectFormat::Coff);
    let err = embed_bitcode(&mut obj, Vec::new(), "x").unwrap_err();
    assert_eq!(err, "embed_bitcode: write_bitcode produced empty output");
    assert!(obj.sections.is_empty());
}

#[test]
fn ubsan_runtime_indices() {
    assert_eq!(ubsan_fn_index("__ubsan_handle_add_overflow"), Some(0));
    assert_eq!(ubsan_fn_index("__ubsan_handle_divrem_overflow"), Some(4));
    assert_eq!(ubsan_fn_index("__ubsan_handle_builtin_unreachable"), Some(5));
    assert_eq!(ubsan_fn_index("__ubsan_handle_shift_out_of_bounds"), None);
    assert_eq!(placeholder_callee("__ubsan_handle_null_ptr_deref"), Some(0xFFFF_0003));
    assert_eq!(placeholder_callee("printf"), None);
}

#[test]
fn ubsan_placeholders_resolve_through_table() {
    let mut table = [None; 8];
    table[1] = Some(17);
    assert_eq!(resolve_placeholder(PLACEHOLDER_BASE | 1, &table), 17);
    assert_eq!(resolve_placeholder(PLACEHOLDER_BASE | 2, &table), PLACEHOLDER_BASE | 2);
    assert_eq!(resolve_placeholder(PLACEHOLDER_BASE | 9, &table), PLACEHOLDER_BASE | 9);
    assert_eq!(resolve_placeholder(5, &table), 5);
    let call = |g: u32| InstrKind::Call {
        tail: TailCallKind::Unmarked,
        callee: ValueRef::Global(GlobalId(g)),
        args: vec![ValueRef::Argument(0)],
    };
    let mut f = Function {
        name: "f".to_string(),
        blocks: Vec::new(),
        instructions: vec![call(PLACEHOLDER_BASE | 1), call(3), call(PLACEHOLDER_BASE), InstrKind::Unreachable],
        is_declaration: false,
        num_args: 0,
        debug_locs: Vec::new(),
    };
    apply_resolution_table(&mut f, &table);
    let callees: Vec<u32> = f
        .instructions
        .iter()
        .filter_map(|k| match k {
            InstrKind::Call { callee: ValueRef::Global(GlobalId(g)), .. } => Some(*g),
            _ => None,
        })
        .collect();
    assert_eq!(callees, vec![17, 3, PLACEHOLDER_BASE]);
    assert!(matches!(f.instructions[3], InstrKind::Unreachable));
    match &f.instructions[0] {
        InstrKind::Call { args, tail, .. } => {
            assert_eq!(*args, vec![ValueRef::Argument(0)]);
            assert_eq!(*tail, TailCallKind::Unmarked);
        },
        other => panic!("expected call, got {other:?}"),
    }
}

#[test]
fn validation_program_values() {
    assert_eq!(add(3, 4), 7);
    assert_eq!(mul_sub(5, 6, 7), 23);
    assert_eq!(direction_label(Direction::North), "north");
    assert_eq!(direction_label(Direction::South), "south");
    assert_eq!(direction_label(Direction::East), "east");
    assert_eq!(direction_label(Direction::West), "west");
}

#[test]
fn riscv_register_moves() {
    let mut mf = MachineFunction::new("f".to_string());
    mf.add_block("entry");
    let mut st = LowerState { mf, vmap: Vec::new(), loc: None };
    emit_mov_to_preg(&mut st, 0, PReg(10), VReg(3));
    emit_mov_from_preg(&mut st, 0, VReg(4), PReg(10));
    let mf = st.mf;
    let to = &mf.blocks[0].instrs[0];
    assert_eq!(to.opcode, MOpcode(MOV_PR));
    assert_eq!(to.operands, vec![MOperand::PReg(PReg(10)), MOperand::VReg(VReg(3))]);
    let from = &mf.blocks[0].instrs[1];
    assert_eq!(from.opcode, MOpcode(MOV_RR));
    assert_eq!(from.dst, Some(VReg(4)));
    assert_eq!(from.operands, vec![MOperand::PReg(PReg(10))]);
    assert_eq!(from.phys_uses, vec![PReg(10)]);
}

#[test]
fn decimal_limits() {
    assert_eq!(parse_usize("42"), Some(42));
    assert_eq!(parse_usize("+7"), Some(7));
    assert_eq!(parse_usize("007"), Some(7));
    assert_eq!(parse_usize("+"), None);
    assert_eq!(parse_usize(""), None);
    assert_eq!(parse_usize("-1"), None);
    assert_eq!(parse_usize("1x"), None);
    assert_eq!(parse_usize(" 1"), None);
    assert_eq!(parse_usize("99999999999999999999999"), None);
    assert_eq!(parse_usize(&usize::MAX.to_string()), Some(usize::MAX));
    assert_eq!(parse_limit_value("12", "--max-functions"), Ok(12));
    assert_eq!(parse_limit_value("0", "--max-functions"), Err("--max-functions must be greater than zero".to_string()));
    assert_eq!(parse_limit_value("abc", "--max-type-depth"), Err("--max-type-depth requires a positive integer".to_string()));
    assert_eq!(parse_limit_arg(None, "--max-input-bytes"), Err("--max-input-bytes requires an argument".to_string()));
    assert_eq!(parse_limit_arg(Some("5"), "--max-input-bytes"), Ok(5));
}

#[test]
fn command_line_full_request() {
    let (warnings, r) = parse_compile_args(&args(&[
        "foo.ll",
        "-o",
        "foo.o",
        "-O1",
        "--target",
        "arm",
        "--max-functions",
        "5",
        "--max-type-depth=9",
        "-fancy",
    ]));
    assert_eq!(
        warnings,
        vec![
            "warning: only x86_64 target is supported; ignoring --target arm".to_string(),
            "warning: unknown flag -fancy, ignoring".to_string()
        ]
    );
    let c = r.unwrap();
    assert_eq!(c.input, "foo.ll");
    assert_eq!(c.output, "foo.o");
    assert_eq!(c.opt_level, OptLevel::O1);
    assert!(!c.production_limits);
    assert_eq!(c.limits.max_functions, Some(5));
    assert_eq!(c.limits.max_type_depth, Some(9));
    assert_eq!(c.limits.max_source_bytes, None);
}

#[test]
fn command_line_defaults_and_resets() {
    let (w, r) = parse_compile_args(&args(&["--max-functions", "3", "--production-parse-limits", "a.ll", "-o", "a.o"]));
    assert!(w.is_empty());
    let c = r.unwrap();
    assert_eq!(c.opt_level, OptLevel::O2);
    assert!(c.production_limits);
    assert_eq!(c.limits, ParseLimits::unlimited());
    let (_, r) = parse_compile_args(&args(&["a.ll", "-o", "a.o", "-O", "3", "--target", "x86_64"]));
    assert_eq!(r.unwrap().opt_level, OptLevel::O3);
}

#[test]
fn command_line_errors() {
    assert_eq!(parse_compile_args(&args(&[])).1.err(), Some(usage()));
    assert_eq!(
        parse_compile_args(&args(&["a.ll"])).1.err(),
        Some("output path required (-o <output.o>)".to_string())
    );
    assert_eq!(parse_compile_args(&args(&["a.ll", "-o"])).1.err(), Some("-o requires an argument".to_string()));
    assert_eq!(
        parse_compile_args(&args(&["a.ll", "b.ll", "-o", "x"])).1.err(),
        Some("multiple input files not supported".to_string())
    );
    assert_eq!(
        parse_compile_args(&args(&["a.ll", "-O9", "-o", "x"])).1.err(),
        Some("unknown optimization level: 9".to_string())
    );
    assert_eq!(
        parse_compile_args(&args(&["a.ll", "--max-blocks-per-function=0"])).1.err(),
        Some("--max-blocks-per-function must be greater than zero".to_string())
    );
    assert_eq!(
        parse_compile_args(&args(&["--max-constant-depth"])).1.err(),
        Some("--max-constant-depth requires an argument".to_string())
    );
    let (w, r) = parse_compile_args(&args(&["-x", "--target"]));
    assert_eq!(w, vec!["warning: unknown flag -x, ignoring".to_string()]);
    assert_eq!(r.err(), Some("--target requires an argument".to_string()));
}
