//! Object-file model: sections, relocations, symbols and containers.

use vstd::prelude::*;

verus! {

/// Object-file container format.
#[derive(Clone, Copy, Debug, PartialEq, Eq, Structural)]
pub enum ObjectFormat {
    /// ELF (Linux and most Unix systems).
    Elf,
    /// Mach-O (Apple platforms).
    MachO,
    /// COFF / PE (Windows).
    Coff,
}

/// Kind of a relocation.
#[derive(Clone, Copy, Debug, PartialEq, Eq, Structural)]
pub enum RelocKind {
    /// 64-bit absolute address.
    Abs64,
    /// 32-bit PC-relative displacement.
    PcRel32,
}

/// A relocation inside a section.
#[derive(Clone, Copy, Debug, PartialEq, Eq, Structural)]
pub struct Reloc {
    /// Byte offset within the section.
    pub offset: u64,
    /// Index of the target symbol.
    pub symbol: usize,
    /// Relocation kind.
    pub kind: RelocKind,
    /// Constant added to the symbol address.
    pub addend: i64,
}

/// One row of the line table: machine address to source position.
#[derive(Clone, Copy, Debug, PartialEq, Eq, Structural)]
pub struct DebugLineRow {
    /// Byte offset within the section.
    pub address: u64,
    /// Source line.
    pub line: u32,
    /// Source column.
    pub column: u32,
}

/// A named section of an object file.
#[derive(Clone, Debug)]
pub struct Section {
    /// Section name.
    pub name: String,
    /// Section contents.
    pub data: Vec<u8>,
    /// Relocations applied to `data`.
    pub relocs: Vec<Reloc>,
    /// Line-table rows for code in `data`.
    pub debug_rows: Vec<DebugLineRow>,
}

/// Mathematical view of a section.
pub struct SectionView {
    pub name: Seq<char>,
    pub data: Seq<u8>,
    pub relocs: Seq<Reloc>,
    pub debug_rows: Seq<DebugLineRow>,
}

impl View for Section {
    type V = SectionView;

    open spec fn view(&self) -> SectionView {
        SectionView { name: self.name@, data: self.data@, relocs: self.relocs@, debug_rows: self.debug_rows@ }
    }
}

/// A symbol of an object file.
#[derive(Clone, Debug)]
pub struct Symbol {
    /// Symbol name.
    pub name: String,
    /// Index of the defining section.
    pub section: usize,
    /// Byte offset within the section.
    pub offset: u64,
    /// Size in bytes.
    pub size: u64,
    /// Visible outside the object.
    pub global: bool,
    /// Referenced but not defined here.
    pub undefined: bool,
}

/// Mathematical view of a symbol.
pub struct SymbolView {
    pub name: Seq<char>,
    pub section: usize,
    pub offset: u64,
    pub size: u64,
    pub global: bool,
    pub undefined: bool,
}

impl View for Symbol {
    type V = SymbolView;

    open spec fn view(&self) -> SymbolView {
        SymbolView {
            name: self.name@,
            section: self.section,
            offset: self.offset,
            size: self.size,
            global: self.global,
            undefined: self.undefined,
        }
    }
}

/// An object file before serialisation.
#[derive(Clone, Debug)]
pub struct ObjectFile {
    /// Container format.
    pub format: ObjectFormat,
    /// ELF `e_machine` value.
    pub elf_machine: u16,
    /// COFF machine value.
    pub coff_machine: u16,
    /// Sections in order.
    pub sections: Vec<Section>,
    /// Symbols in order.
    pub symbols: Vec<Symbol>,
}

/// Mathematical view of an object file.
pub struct ObjectView {
    pub format: ObjectFormat,
    pub elf_machine: u16,
    pub coff_machine: u16,
    pub sections: Seq<SectionView>,
    pub symbols: Seq<SymbolView>,
}

impl View for ObjectFile {
    type V = ObjectView;

    open spec fn view(&self) -> ObjectView {
        ObjectView {
            format: self.format,
            elf_machine: self.elf_machine,
            coff_machine: self.coff_machine,
            sections: self.sections@.map_values(|s: Section| s@),
            symbols: self.symbols@.map_values(|s: Symbol| s@),
        }
    }
}

} // verus!
