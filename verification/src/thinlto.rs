//! ThinLTO bitcode section embedding.
//!
//! Linkers that support ThinLTO expect the module bitcode in a dedicated
//! section, next to a section holding the command line:
//!
//! | Format     | Bitcode section    | Command-line section |
//! |------------|--------------------|----------------------|
//! | ELF / COFF | `.llvmbc`          | `.llvmcmd`           |
//! | Mach-O     | `__LLVM,__bitcode` | `__LLVM,__cmdline`   |

use vstd::prelude::*;
use vstd::string::StringSliceAdditionalSpecFns;
use crate::machine::copy_bytes;
use crate::object::{ObjectFile, ObjectFormat, Section, SectionView};

verus! {

/// Bitcode and command-line section names for a container format.
pub open spec fn lto_section_names(fmt: ObjectFormat) -> (Seq<char>, Seq<char>) {
    match fmt {
        ObjectFormat::MachO => ("__LLVM,__bitcode"@, "__LLVM,__cmdline"@),
        _ => (".llvmbc"@, ".llvmcmd"@),
    }
}

/// The `(bitcode_section_name, cmdline_section_name)` pair for `fmt`.
pub fn section_names(fmt: ObjectFormat) -> (r: (&'static str, &'static str))
    ensures
        (r.0@, r.1@) == lto_section_names(fmt),
{
    match fmt {
        ObjectFormat::MachO => ("__LLVM,__bitcode", "__LLVM,__cmdline"),
        ObjectFormat::Elf | ObjectFormat::Coff => (".llvmbc", ".llvmcmd"),
    }
}

/// A section with the given name and contents and no relocations or line rows.
pub open spec fn plain_section(name: Seq<char>, data: Seq<u8>) -> SectionView {
    SectionView { name, data, relocs: Seq::empty(), debug_rows: Seq::empty() }
}

/// The message of the error returned for empty bitcode.
pub open spec fn empty_bitcode_message() -> Seq<char> {
    "embed_bitcode: write_bitcode produced empty output"@
}

/// Append the bitcode section holding `bitcode` and the command-line section
/// holding the UTF-8 bytes of `cmdline` to `obj`, named after its format.
/// Existing sections are kept.
///
/// Returns `Err`, leaving `obj` unchanged, when `bitcode` is empty.
pub fn embed_bitcode(obj: &mut ObjectFile, bitcode: Vec<u8>, cmdline: &str) -> (r: Result<(), String>)
    ensures
        r is Err <==> bitcode@.len() == 0,
        r matches Err(e) ==> e@ == empty_bitcode_message() && final(obj)@ == old(obj)@,
        r is Ok ==> final(obj)@ == (crate::object::ObjectView {
            sections: old(obj)@.sections.push(plain_section(lto_section_names(old(obj).format).0, bitcode@)).push(
                plain_section(lto_section_names(old(obj).format).1, cmdline.spec_bytes()),
            ),
            ..old(obj)@
        }),
{
    if bitcode.len() == 0 {
        return Err("embed_bitcode: write_bitcode produced empty output".to_string());
    }
    let (bc_name, cmd_name) = section_names(obj.format);
    let ghost before = obj.sections@;
    let bc = Section { name: bc_name.to_string(), data: bitcode, relocs: Vec::new(), debug_rows: Vec::new() };
    obj.sections.push(bc);
    let cmd = Section {
        name: cmd_name.to_string(),
        data: copy_bytes(cmdline.as_bytes()),
        relocs: Vec::new(),
        debug_rows: Vec::new(),
    };
    obj.sections.push(cmd);
    proof {
        assert(bc@ == plain_section(lto_section_names(old(obj).format).0, bitcode@));
        assert(obj.sections@.map_values(|s: Section| s@) =~= before.map_values(|s: Section| s@).push(bc@).push(cmd@));
    }
    Ok(())
}

} // verus!
