use lib::backend::codegen_backend::{codegen_backend_entrypoint, LlvmInRustBackend};
use lib::backend::driver::{codegen_module, merge_text_sections, CodegenOptions, OptLevel, TargetArch};
use lib::backend::shim::emit_module_to_bytes;
use lib::backend::BACKEND_NAME;
use lib::object::{ObjectFile, ObjectFormat, Reloc, RelocKind, Section, Symbol};

#[test]
fn entrypoint_returns_version_string() {
    let s = codegen_backend_entrypoint();
    assert!(s.contains("llvm-in-rust"), "entrypoint string must mention 'llvm-in-rust', got: {s:?}");
}

#[test]
fn backend_name_constant_is_stable() {
    assert_eq!(BACKEND_NAME, "llvm-in-rust");
}

#[test]
fn shim_backend_name_is_stable() {
    assert_eq!(BACKEND_NAME, "llvm-in-rust");
}

#[test]
fn entrypoint_exact_text() {
    assert_eq!(codegen_backend_entrypoint(), "llvm-in-rust codegen backend v0.1");
}

#[test]
fn make_backend_picks_arch_from_triple() {
    assert_eq!(LlvmInRustBackend::make_backend("aarch64-unknown-linux-gnu"), TargetArch::AArch64);
    assert_eq!(LlvmInRustBackend::make_backend("arm64-apple-darwin"), TargetArch::AArch64);
    assert_eq!(LlvmInRustBackend::make_backend("x86_64-unknown-linux-gnu"), TargetArch::X86_64);
    assert_eq!(LlvmInRustBackend::make_backend("riscv64gc-unknown-linux-gnu"), TargetArch::X86_64);
    assert!(LlvmInRustBackend::new().target_machine.is_none());
    assert!(LlvmInRustBackend::default().target_machine.is_none());
}

#[test]
fn options_levels_and_format() {
    let d = CodegenOptions::default();
    assert_eq!(d.target, TargetArch::X86_64);
    assert_eq!(d.opt_level, 0);
    let levels: Vec<OptLevel> =
        (0..6).map(|l| CodegenOptions { target: TargetArch::AArch64, opt_level: l }.pipeline_level()).collect();
    assert_eq!(levels, vec![OptLevel::O0, OptLevel::O1, OptLevel::O2, OptLevel::O3, OptLevel::O3, OptLevel::O3]);
    assert_eq!(d.object_format(), ObjectFormat::Elf);
    assert_eq!(OptLevel::parse("2"), Some(OptLevel::O2));
    assert_eq!(OptLevel::parse("0"), Some(OptLevel::O0));
    assert_eq!(OptLevel::parse("4"), None);
    assert_eq!(OptLevel::parse("02"), None);
    assert_eq!(OptLevel::parse(""), None);
}

fn sym(name: &str, offset: u64, undefined: bool) -> Symbol {
    Symbol { name: name.to_string(), section: 0, offset, size: 4, global: true, undefined }
}

fn func_obj(name: &str, code: Vec<u8>, relocs: Vec<Reloc>, syms: Vec<Symbol>) -> ObjectFile {
    ObjectFile {
        format: ObjectFormat::Elf,
        elf_machine: 62,
        coff_machine: 0,
        sections: vec![
            Section { name: ".data".to_string(), data: vec![9, 9], relocs: vec![], debug_rows: vec![] },
            Section { name: name.to_string(), data: code, relocs, debug_rows: vec![] },
        ],
        symbols: syms,
    }
}

#[test]
fn merge_rebases_offsets_and_symbol_indices() {
    let a = func_obj(".text", vec![1, 2, 3], vec![], vec![sym("square", 0, false)]);
    let b = func_obj(
        "__text",
        vec![4, 5],
        vec![Reloc { offset: 1, symbol: 1, kind: RelocKind::PcRel32, addend: -4 }],
        vec![sym("main", 0, false), sym("square", 0, true)],
    );
    let (text, symbols, relocs, any_code) = merge_text_sections(&[a, b]);
    assert!(any_code);
    assert_eq!(text, vec![1, 2, 3, 4, 5]);
    assert_eq!(symbols.len(), 3);
    assert_eq!(symbols[1].name, "main");
    assert_eq!(symbols[1].offset, 3);
    assert_eq!(symbols[2].offset, 0, "undefined symbols keep their offset");
    assert_eq!(relocs, vec![Reloc { offset: 4, symbol: 2, kind: RelocKind::PcRel32, addend: -4 }]);
}

#[test]
fn codegen_module_builds_single_text_section() {
    let a = func_obj(".text", vec![0xC3], vec![], vec![sym("ret42", 0, false)]);
    let opts = CodegenOptions { target: TargetArch::AArch64, opt_level: 2 };
    let obj = codegen_module(&[a], &opts).expect("codegen must succeed for trivial function");
    assert_eq!(obj.format, ObjectFormat::Elf);
    assert_eq!(obj.elf_machine, 183);
    assert_eq!(obj.coff_machine, 0);
    assert_eq!(obj.sections.len(), 1);
    assert_eq!(obj.sections[0].name, ".text");
    assert_eq!(obj.sections[0].data, vec![0xC3]);
    let x86 = codegen_module(&[func_obj(".text", vec![1], vec![], vec![])], &CodegenOptions::default()).unwrap();
    assert_eq!(x86.elf_machine, 62);
}

#[test]
fn codegen_module_without_code_is_an_error() {
    let decl = ObjectFile {
        format: ObjectFormat::Elf,
        elf_machine: 62,
        coff_machine: 0,
        sections: vec![],
        symbols: vec![sym("printf", 0, true)],
    };
    let err = codegen_module(&[decl], &CodegenOptions::default()).unwrap_err();
    assert_eq!(err, "codegen_module: module has no non-declaration functions");
    assert!(codegen_module(&[], &CodegenOptions::default()).is_err());
}

#[test]
fn shim_merge_formats_and_errors() {
    let coff = emit_module_to_bytes(&[func_obj(".text", vec![0x90], vec![], vec![])], ObjectFormat::Coff).unwrap();
    assert_eq!(coff.coff_machine, 0x8664);
    assert_eq!(coff.elf_machine, 0);
    assert_eq!(coff.sections[0].name, ".text");
    let macho = emit_module_to_bytes(&[func_obj(".text", vec![0x90], vec![], vec![])], ObjectFormat::MachO).unwrap();
    assert_eq!(macho.sections[0].name, "__text");
    assert_eq!(macho.elf_machine, 0);
    let elf = emit_module_to_bytes(&[func_obj(".text", vec![0x90], vec![], vec![])], ObjectFormat::Elf).unwrap();
    assert_eq!(elf.elf_machine, 62);
    let empty = emit_module_to_bytes(&[func_obj(".text", vec![], vec![], vec![])], ObjectFormat::Elf);
    assert_eq!(empty.unwrap_err(), "no code emitted \u{2014} module has no non-declaration functions");
}
