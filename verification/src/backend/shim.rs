//! x86-64 shim pipeline: the merge step a rustc code-generation backend runs
//! for each compilation unit.

use vstd::prelude::*;
use crate::backend::driver::{build_merged_object, merge_fits, merge_text_sections, merge_view, merged_object};
use crate::object::{ObjectFile, ObjectFormat};

verus! {

/// Name of the code section in a container format.
pub open spec fn text_section_name(fmt: ObjectFormat) -> Seq<char> {
    if fmt == ObjectFormat::MachO {
        "__text"@
    } else {
        ".text"@
    }
}

/// The message of the error returned when no code was emitted.
pub open spec fn no_code_emitted_message() -> Seq<char> {
    "no code emitted \u{2014} module has no non-declaration functions"@
}

/// Merge the x86-64 objects emitted for a module's defined functions into one
/// object in container format `fmt`, with a single code section: ELF machine
/// 62 for ELF, COFF machine 0x8664 for COFF.
///
/// Returns `Err` when the merged code is empty.
pub fn emit_module_to_bytes(function_objects: &[ObjectFile], fmt: ObjectFormat) -> (r: Result<ObjectFile, String>)
    requires
        merge_fits(function_objects@.map_values(|o: ObjectFile| o@)),
    ensures
        ({
            let m = merge_view(function_objects@.map_values(|o: ObjectFile| o@));
            match r {
                Ok(o) => m.text.len() > 0 && o@ == merged_object(
                    fmt,
                    if fmt == ObjectFormat::Elf { 62u16 } else { 0u16 },
                    if fmt == ObjectFormat::Coff { 0x8664u16 } else { 0u16 },
                    text_section_name(fmt),
                    m,
                ),
                Err(e) => m.text.len() == 0 && e@ == no_code_emitted_message(),
            }
        }),
{
    let text_name = if fmt == ObjectFormat::MachO {
        "__text"
    } else {
        ".text"
    };
    let (text, symbols, relocs, _any_code) = merge_text_sections(function_objects);
    if text.len() == 0 {
        return Err("no code emitted \u{2014} module has no non-declaration functions".to_string());
    }
    let elf_machine: u16 = if fmt == ObjectFormat::Elf {
        62
    } else {
        0
    };
    let coff_machine: u16 = if fmt == ObjectFormat::Coff {
        0x8664
    } else {
        0
    };
    let merged = build_merged_object(fmt, elf_machine, coff_machine, text_name, text, symbols, relocs);
    proof {
        let m = merge_view(function_objects@.map_values(|o: ObjectFile| o@));
        assert(merged@.sections =~= merged_object(fmt, elf_machine, coff_machine, text_section_name(fmt), m).sections);
    }
    Ok(merged)
}

} // verus!
