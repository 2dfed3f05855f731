//! Standalone code-generation driver: option handling and the merging of
//! per-function object files into one object with a single text section.

use vstd::prelude::*;
use crate::object::{ObjectFile, ObjectFormat, ObjectView, Reloc, Section, SectionView, Symbol, SymbolView};
use crate::strings::str_equal;
use vstd::string::StrSliceExecFns;

verus! {

/// Target architecture for code generation.
#[derive(Clone, Copy, Debug, PartialEq, Eq, Structural)]
pub enum TargetArch {
    /// 64-bit x86 (AMD64 / Intel 64).
    X86_64,
    /// 64-bit ARM (AArch64 / ARM64).
    AArch64,
}

/// Optimisation pipeline level.
#[derive(Clone, Copy, Debug, PartialEq, Eq, Structural)]
pub enum OptLevel {
    /// No optimisation.
    O0,
    /// Basic optimisation.
    O1,
    /// Standard optimisation.
    O2,
    /// Aggressive optimisation.
    O3,
}

/// The pipeline level a level name denotes: `0` to `3`.
pub open spec fn opt_level_named(s: Seq<char>) -> Option<OptLevel> {
    if s == seq!['0'] {
        Some(OptLevel::O0)
    } else if s == seq!['1'] {
        Some(OptLevel::O1)
    } else if s == seq!['2'] {
        Some(OptLevel::O2)
    } else if s == seq!['3'] {
        Some(OptLevel::O3)
    } else {
        None
    }
}

impl OptLevel {
    /// The level named by `s` (`0` to `3`), if any.
    pub fn parse(s: &str) -> (r: Option<OptLevel>)
        ensures
            r == opt_level_named(s@),
    {
        if s.unicode_len() != 1 {
            proof {
                assert(s@.len() != 1);
                assert(seq!['0'].len() == 1);
            }
            return None;
        }
        let c = s.get_char(0);
        proof {
            assert(s@ =~= seq![c]);
        }
        if c == '0' {
            Some(OptLevel::O0)
        } else if c == '1' {
            Some(OptLevel::O1)
        } else if c == '2' {
            Some(OptLevel::O2)
        } else if c == '3' {
            Some(OptLevel::O3)
        } else {
            proof {
                assert(seq![c] != seq!['0']) by { assert(seq!['0'][0] == '0'); }
                assert(seq![c] != seq!['1']) by { assert(seq!['1'][0] == '1'); }
                assert(seq![c] != seq!['2']) by { assert(seq!['2'][0] == '2'); }
                assert(seq![c] != seq!['3']) by { assert(seq!['3'][0] == '3'); }
            }
            None
        }
    }
}

/// Options controlling the code-generation pipeline.
#[derive(Clone, Copy, Debug)]
pub struct CodegenOptions {
    /// Target instruction-set architecture.
    pub target: TargetArch,
    /// Optimisation level: 0 = none, 1 = basic, 2 = standard, 3 and above = aggressive.
    pub opt_level: u32,
}

impl Default for CodegenOptions {
    fn default() -> (o: Self)
        ensures
            o.target == TargetArch::X86_64,
            o.opt_level == 0,
    {
        CodegenOptions { target: TargetArch::X86_64, opt_level: 0 }
    }
}

/// The pipeline level for a numeric optimisation level.
pub open spec fn level_of(opt_level: u32) -> OptLevel {
    if opt_level == 0 {
        OptLevel::O0
    } else if opt_level == 1 {
        OptLevel::O1
    } else if opt_level == 2 {
        OptLevel::O2
    } else {
        OptLevel::O3
    }
}

/// The ELF machine number of a target.
pub open spec fn elf_machine_of(target: TargetArch) -> u16 {
    match target {
        TargetArch::X86_64 => 62u16,
        TargetArch::AArch64 => 183u16,
    }
}

impl CodegenOptions {
    /// The optimisation pipeline level for `opt_level`.
    pub fn pipeline_level(&self) -> (l: OptLevel)
        ensures
            l == level_of(self.opt_level),
    {
        match self.opt_level {
            0 => OptLevel::O0,
            1 => OptLevel::O1,
            2 => OptLevel::O2,
            _ => OptLevel::O3,
        }
    }

    /// The object format of the driver's output: ELF for every target.
    pub fn object_format(&self) -> (f: ObjectFormat)
        ensures
            f == ObjectFormat::Elf,
    {
        ObjectFormat::Elf
    }
}

// ── merging per-function objects ───────────────────────────────────────────

/// A section name that marks machine code.
pub open spec fn is_text_name(n: Seq<char>) -> bool {
    n == ".text"@ || n == "__text"@
}

/// Index of the first code section, if any.
pub open spec fn text_index(s: Seq<SectionView>) -> Option<int>
    decreases s.len(),
{
    if s.len() == 0 {
        None
    } else {
        match text_index(s.drop_last()) {
            Some(i) => Some(i),
            None => if is_text_name(s.last().name) {
                Some(s.len() - 1)
            } else {
                None
            },
        }
    }
}

/// A symbol moved `off` bytes further into the merged text; undefined symbols
/// stay as they are.
pub open spec fn shift_symbol(s: SymbolView, off: nat) -> SymbolView {
    if s.undefined {
        s
    } else {
        SymbolView {
            name: s.name,
            section: s.section,
            offset: (s.offset + off) as u64,
            size: s.size,
            global: s.global,
            undefined: s.undefined,
        }
    }
}

/// A relocation moved `off` bytes further, its symbol index moved by `base`.
pub open spec fn rebase_reloc(r: Reloc, base: nat, off: nat) -> Reloc {
    Reloc { offset: (r.offset + off) as u64, symbol: (r.symbol + base) as usize, kind: r.kind, addend: r.addend }
}

/// The result of merging: concatenated code, all symbols, rebased relocations,
/// and whether any object had a code section.
pub struct MergedView {
    pub text: Seq<u8>,
    pub symbols: Seq<SymbolView>,
    pub relocs: Seq<Reloc>,
    pub any_code: bool,
}

/// Merge objects in order: each object's first code section is appended to the
/// text, its relocations are moved by the text already merged and their symbol
/// indices by the symbols already merged; all its symbols follow, the defined
/// ones moved by the text merged before this object.
pub open spec fn merge_view(objs: Seq<ObjectView>) -> MergedView
    decreases objs.len(),
{
    if objs.len() == 0 {
        MergedView { text: Seq::empty(), symbols: Seq::empty(), relocs: Seq::empty(), any_code: false }
    } else {
        let m = merge_view(objs.drop_last());
        let o = objs.last();
        let off = m.text.len();
        let base = m.symbols.len();
        let syms = m.symbols + o.symbols.map_values(|s: SymbolView| shift_symbol(s, off));
        match text_index(o.sections) {
            Some(k) => MergedView {
                text: m.text + o.sections[k].data,
                symbols: syms,
                relocs: m.relocs + o.sections[k].relocs.map_values(|r: Reloc| rebase_reloc(r, base, off)),
                any_code: true,
            },
            None => MergedView { text: m.text, symbols: syms, relocs: m.relocs, any_code: m.any_code },
        }
    }
}

/// Moving the `i`-th object's symbols and relocations stays within the
/// integer widths of their fields.
pub open spec fn object_fits(objs: Seq<ObjectView>, i: int) -> bool {
    let m = merge_view(objs.take(i));
    let o = objs[i];
    &&& forall|j: int| 0 <= j < o.symbols.len() ==> !(#[trigger] o.symbols[j]).undefined ==> o.symbols[j].offset + m.text.len() <= u64::MAX
    &&& match text_index(o.sections) {
        Some(k) => forall|j: int|
            0 <= j < o.sections[k].relocs.len() ==> (#[trigger] o.sections[k].relocs[j]).offset + m.text.len() <= u64::MAX
                && o.sections[k].relocs[j].symbol + m.symbols.len() <= usize::MAX,
        None => true,
    }
}

/// Merging never overflows an offset or a symbol index.
pub open spec fn merge_fits(objs: Seq<ObjectView>) -> bool {
    forall|i: int| 0 <= i < objs.len() ==> #[trigger] object_fits(objs, i)
}

proof fn lemma_text_index_prefix(s: Seq<SectionView>, n: int)
    requires
        0 <= n <= s.len(),
        text_index(s.take(n)) is Some,
    ensures
        text_index(s) == text_index(s.take(n)),
    decreases s.len() - n,
{
    if n < s.len() {
        assert(s.take(n + 1).drop_last() =~= s.take(n));
        lemma_text_index_prefix(s, n + 1);
    } else {
        assert(s.take(n) =~= s);
    }
}

proof fn lemma_text_index_none(s: Seq<SectionView>)
    requires
        forall|j: int| 0 <= j < s.len() ==> !is_text_name(#[trigger] s[j].name),
    ensures
        text_index(s) is None,
    decreases s.len(),
{
    if s.len() > 0 {
        lemma_text_index_none(s.drop_last());
    }
}

/// Index of the first section of `sections` named `.text` or `__text`.
fn find_text_section(sections: &Vec<Section>) -> (r: Option<usize>)
    ensures
        r matches Some(k) ==> k < sections@.len(),
        match r {
            Some(k) => text_index(sections@.map_values(|s: Section| s@)) == Some(k as int),
            None => text_index(sections@.map_values(|s: Section| s@)) is None,
        },
{
    let ghost sv = sections@.map_values(|s: Section| s@);
    let mut j: usize = 0;
    while j < sections.len()
        invariant
            j <= sections@.len(),
            sv == sections@.map_values(|s: Section| s@),
            forall|k: int| 0 <= k < j ==> !is_text_name(#[trigger] sv[k].name),
        decreases sections@.len() - j,
    {
        let name = sections[j].name.as_str();
        if str_equal(name, ".text") || str_equal(name, "__text") {
            proof {
                assert(is_text_name(sv[j as int].name));
                lemma_text_index_none(sv.take(j as int));
                assert(sv.take(j + 1).drop_last() =~= sv.take(j as int));
                lemma_text_index_prefix(sv, j + 1);
            }
            return Some(j);
        }
        j = j + 1;
    }
    proof {
        lemma_text_index_none(sv);
    }
    None
}

/// Concatenate the first code section of every object, rebasing relocations
/// and symbols as `merge_view` describes.
pub fn merge_text_sections(objs: &[ObjectFile]) -> (r: (Vec<u8>, Vec<Symbol>, Vec<Reloc>, bool))
    requires
        merge_fits(objs@.map_values(|o: ObjectFile| o@)),
    ensures
        r.0@ == merge_view(objs@.map_values(|o: ObjectFile| o@)).text,
        r.1@.map_values(|s: Symbol| s@) == merge_view(objs@.map_values(|o: ObjectFile| o@)).symbols,
        r.2@ == merge_view(objs@.map_values(|o: ObjectFile| o@)).relocs,
        r.3 == merge_view(objs@.map_values(|o: ObjectFile| o@)).any_code,
{
    let ghost ov = objs@.map_values(|o: ObjectFile| o@);
    let mut text: Vec<u8> = Vec::new();
    let mut symbols: Vec<Symbol> = Vec::new();
    let mut relocs: Vec<Reloc> = Vec::new();
    let mut any_code = false;
    let mut i: usize = 0;
    while i < objs.len()
        invariant
            i <= objs@.len(),
            ov == objs@.map_values(|o: ObjectFile| o@),
            merge_fits(ov),
            text@ == merge_view(ov.take(i as int)).text,
            symbols@.map_values(|s: Symbol| s@) == merge_view(ov.take(i as int)).symbols,
            relocs@ == merge_view(ov.take(i as int)).relocs,
            any_code == merge_view(ov.take(i as int)).any_code,
        decreases objs@.len() - i,
    {
        let obj = &objs[i];
        let ghost o = ov[i as int];
        let ghost m = merge_view(ov.take(i as int));
        proof {
            assert(ov.take(i + 1).drop_last() =~= ov.take(i as int));
            assert(ov.take(i + 1).last() == o);
            assert(object_fits(ov, i as int));
        }
        let text_off = text.len();
        let sym_base = symbols.len();
        let ghost syms_before = symbols@.map_values(|s: Symbol| s@);
        match find_text_section(&obj.sections) {
            Some(k) => {
                let sec = &obj.sections[k];
                let ghost sv = o.sections[k as int];
                let ghost relocs_before = relocs@;
                let mut j: usize = 0;
                while j < sec.relocs.len()
                    invariant
                        j <= sec.relocs@.len(),
                        sv.relocs == sec.relocs@,
                        text_off == m.text.len(),
                        sym_base == m.symbols.len(),
                        forall|q: int|
                            0 <= q < sv.relocs.len() ==> (#[trigger] sv.relocs[q]).offset + m.text.len() <= u64::MAX
                                && sv.relocs[q].symbol + m.symbols.len() <= usize::MAX,
                        relocs@ == relocs_before + sv.relocs.take(j as int).map_values(
                            |r: Reloc| rebase_reloc(r, sym_base as nat, text_off as nat),
                        ),
                    decreases sec.relocs@.len() - j,
                {
                    let r = sec.relocs[j];
                    let moved = Reloc {
                        offset: r.offset + text_off as u64,
                        symbol: r.symbol + sym_base,
                        kind: r.kind,
                        addend: r.addend,
                    };
                    relocs.push(moved);
                    proof {
                        assert(sv.relocs.take(j + 1).map_values(|r: Reloc| rebase_reloc(r, sym_base as nat, text_off as nat))
                            =~= sv.relocs.take(j as int).map_values(
                            |r: Reloc| rebase_reloc(r, sym_base as nat, text_off as nat),
                        ).push(rebase_reloc(r, sym_base as nat, text_off as nat)));
                    }
                    j = j + 1;
                }
                assert(sv.relocs.take(j as int) =~= sv.relocs);
                let mut b: usize = 0;
                let ghost text_before = text@;
                while b < sec.data.len()
                    invariant
                        b <= sec.data@.len(),
                        text@ == text_before + sec.data@.take(b as int),
                    decreases sec.data@.len() - b,
                {
                    text.push(sec.data[b]);
                    assert(sec.data@.take(b + 1) =~= sec.data@.take(b as int).push(sec.data@[b as int]));
                    b = b + 1;
                }
                assert(sec.data@.take(b as int) =~= sec.data@);
                any_code = true;
            },
            None => {},
        }
        let mut j: usize = 0;
        while j < obj.symbols.len()
            invariant
                j <= obj.symbols@.len(),
                o.symbols == obj.symbols@.map_values(|s: Symbol| s@),
                text_off == m.text.len(),
                forall|q: int|
                    0 <= q < o.symbols.len() ==> !(#[trigger] o.symbols[q]).undefined ==> o.symbols[q].offset
                        + m.text.len() <= u64::MAX,
                symbols@.map_values(|s: Symbol| s@) == syms_before + o.symbols.take(j as int).map_values(
                    |s: SymbolView| shift_symbol(s, text_off as nat),
                ),
            decreases obj.symbols@.len() - j,
        {
            let s = &obj.symbols[j];
            proof {
                assert(o.symbols[j as int] == s@);
            }
            let offset = if s.undefined {
                s.offset
            } else {
                s.offset + text_off as u64
            };
            let moved = Symbol {
                name: s.name.clone(),
                section: s.section,
                offset,
                size: s.size,
                global: s.global,
                undefined: s.undefined,
            };
            let ghost before = symbols@;
            symbols.push(moved);
            proof {
                assert(o.symbols[j as int] == s@);
                assert(symbols@.map_values(|s: Symbol| s@) =~= before.map_values(|s: Symbol| s@).push(moved@));
                assert(o.symbols.take(j + 1).map_values(|s: SymbolView| shift_symbol(s, text_off as nat))
                    =~= o.symbols.take(j as int).map_values(|s: SymbolView| shift_symbol(s, text_off as nat)).push(
                    shift_symbol(o.symbols[j as int], text_off as nat),
                ));
            }
            j = j + 1;
        }
        assert(o.symbols.take(j as int) =~= o.symbols);
        i = i + 1;
    }
    assert(ov.take(i as int) =~= ov);
    (text, symbols, relocs, any_code)
}

proof fn lemma_merge_prefix(objs: Seq<ObjectView>, a: int, b: int)
    requires
        0 <= a <= b <= objs.len(),
    ensures
        merge_view(objs.take(b)).text.take(merge_view(objs.take(a)).text.len() as int) == merge_view(objs.take(a)).text,
        merge_view(objs.take(b)).symbols.take(merge_view(objs.take(a)).symbols.len() as int) == merge_view(
            objs.take(a),
        ).symbols,
        merge_view(objs.take(b)).relocs.take(merge_view(objs.take(a)).relocs.len() as int) == merge_view(
            objs.take(a),
        ).relocs,
        merge_view(objs.take(a)).text.len() <= merge_view(objs.take(b)).text.len(),
        merge_view(objs.take(a)).symbols.len() <= merge_view(objs.take(b)).symbols.len(),
        merge_view(objs.take(a)).relocs.len() <= merge_view(objs.take(b)).relocs.len(),
    decreases b - a,
{
    if a < b {
        lemma_merge_prefix(objs, a, b - 1);
        assert(objs.take(b).drop_last() =~= objs.take(b - 1));
        let m0 = merge_view(objs.take(a));
        let m1 = merge_view(objs.take(b - 1));
        let m2 = merge_view(objs.take(b));
        assert(m2.text.take(m1.text.len() as int) =~= m1.text);
        assert(m2.symbols.take(m1.symbols.len() as int) =~= m1.symbols);
        assert(m2.relocs.take(m1.relocs.len() as int) =~= m1.relocs);
        assert(m2.text.take(m0.text.len() as int) =~= m1.text.take(m0.text.len() as int));
        assert(m2.symbols.take(m0.symbols.len() as int) =~= m1.symbols.take(m0.symbols.len() as int));
        assert(m2.relocs.take(m0.relocs.len() as int) =~= m1.relocs.take(m0.relocs.len() as int));
    } else {
        let m0 = merge_view(objs.take(a));
        assert(m0.text.take(m0.text.len() as int) =~= m0.text);
        assert(m0.symbols.take(m0.symbols.len() as int) =~= m0.symbols);
        assert(m0.relocs.take(m0.relocs.len() as int) =~= m0.relocs);
    }
}

/// Merging keeps every object's code and relocations consistent: the code of
/// object `i`'s first code section lands right after the code merged before
/// it, and each of its relocations that names one of its own symbols names,
/// in the merged object, the moved copy of that symbol, at the moved offset.
pub proof fn lemma_merged_relocs_resolve(objs: Seq<ObjectView>, i: int, q: int)
    requires
        0 <= i < objs.len(),
        object_fits(objs, i),
        text_index(objs[i].sections) is Some,
        0 <= q < objs[i].sections[text_index(objs[i].sections)->0].relocs.len(),
        objs[i].sections[text_index(objs[i].sections)->0].relocs[q].symbol < objs[i].symbols.len(),
    ensures
        ({
            let k = text_index(objs[i].sections)->0;
            let r = objs[i].sections[k].relocs[q];
            let before = merge_view(objs.take(i));
            let full = merge_view(objs);
            let moved = full.relocs[before.relocs.len() + q];
            &&& full.text.subrange(
                before.text.len() as int,
                (before.text.len() + objs[i].sections[k].data.len()) as int,
            ) == objs[i].sections[k].data
            &&& moved.offset == r.offset + before.text.len()
            &&& moved.symbol < full.symbols.len()
            &&& full.symbols[moved.symbol as int] == shift_symbol(objs[i].symbols[r.symbol as int], before.text.len())
        }),
{
    let k = text_index(objs[i].sections)->0;
    let o = objs[i];
    let r = o.sections[k].relocs[q];
    let before = merge_view(objs.take(i));
    let after = merge_view(objs.take(i + 1));
    assert(objs.take(i + 1).drop_last() =~= objs.take(i));
    assert(objs.take(i + 1).last() == o);
    lemma_merge_prefix(objs, i + 1, objs.len() as int);
    assert(objs.take(objs.len() as int) =~= objs);
    let full = merge_view(objs);
    assert(after.relocs[before.relocs.len() + q] == rebase_reloc(r, before.symbols.len(), before.text.len()));
    assert(full.relocs[before.relocs.len() + q] == after.relocs[before.relocs.len() + q]) by {
        assert(full.relocs.take(after.relocs.len() as int)[before.relocs.len() + q] == after.relocs[before.relocs.len() + q]);
    }
    assert(after.symbols[before.symbols.len() + r.symbol] == shift_symbol(o.symbols[r.symbol as int], before.text.len()));
    assert(full.symbols[before.symbols.len() + r.symbol] == after.symbols[before.symbols.len() + r.symbol]) by {
        assert(full.symbols.take(after.symbols.len() as int)[before.symbols.len() + r.symbol] == after.symbols[before.symbols.len()
            + r.symbol]);
    }
    assert(full.text.subrange(before.text.len() as int, (before.text.len() + o.sections[k].data.len()) as int) =~= o.sections[k].data) by {
        assert forall|x: int| 0 <= x < o.sections[k].data.len() implies full.text[before.text.len() + x] == o.sections[k].data[x] by {
            assert(full.text.take(after.text.len() as int)[before.text.len() + x] == after.text[before.text.len() + x]);
        }
    }
}

/// The single-section object holding merged code.
pub open spec fn merged_object(format: ObjectFormat, elf_machine: u16, coff_machine: u16, text_name: Seq<char>, m: MergedView) -> ObjectView {
    ObjectView {
        format,
        elf_machine,
        coff_machine,
        sections: seq![SectionView { name: text_name, data: m.text, relocs: m.relocs, debug_rows: Seq::empty() }],
        symbols: m.symbols,
    }
}

/// Build the merged object from its parts.
pub fn build_merged_object(
    format: ObjectFormat,
    elf_machine: u16,
    coff_machine: u16,
    text_name: &str,
    text: Vec<u8>,
    symbols: Vec<Symbol>,
    relocs: Vec<Reloc>,
) -> (o: ObjectFile)
    ensures
        o.format == format,
        o.elf_machine == elf_machine,
        o.coff_machine == coff_machine,
        o.sections@.len() == 1,
        o.sections@[0]@.name == text_name@,
        o.sections@[0]@.data == text@,
        o.sections@[0]@.relocs == relocs@,
        o.sections@[0]@.debug_rows == Seq::<crate::object::DebugLineRow>::empty(),
        o.symbols@ == symbols@,
{
    let mut sections: Vec<Section> = Vec::new();
    sections.push(Section { name: text_name.to_string(), data: text, relocs, debug_rows: Vec::new() });
    ObjectFile { format, elf_machine, coff_machine, sections, symbols }
}

/// The message of the error returned when no object has code.
pub open spec fn no_code_message() -> Seq<char> {
    "codegen_module: module has no non-declaration functions"@
}

/// Merge the objects emitted for a module's defined functions, in order, into
/// one ELF object for `opts.target` with a single `.text` section.
///
/// Returns `Err` when no object has a code section.
pub fn codegen_module(function_objects: &[ObjectFile], opts: &CodegenOptions) -> (r: Result<ObjectFile, String>)
    requires
        merge_fits(function_objects@.map_values(|o: ObjectFile| o@)),
    ensures
        ({
            let m = merge_view(function_objects@.map_values(|o: ObjectFile| o@));
            match r {
                Ok(o) => m.any_code && o@ == merged_object(
                    ObjectFormat::Elf,
                    elf_machine_of(opts.target),
                    0,
                    ".text"@,
                    m,
                ),
                Err(e) => !m.any_code && e@ == no_code_message(),
            }
        }),
{
    let fmt = opts.object_format();
    let text_name = if fmt == ObjectFormat::MachO {
        "__text"
    } else {
        ".text"
    };
    let (text, symbols, relocs, any_code) = merge_text_sections(function_objects);
    if !any_code {
        return Err("codegen_module: module has no non-declaration functions".to_string());
    }
    let elf_machine: u16 = match opts.target {
        TargetArch::X86_64 => 62,
        TargetArch::AArch64 => 183,
    };
    let merged = build_merged_object(fmt, elf_machine, 0, text_name, text, symbols, relocs);
    proof {
        let m = merge_view(function_objects@.map_values(|o: ObjectFile| o@));
        assert(merged@.sections =~= merged_object(fmt, elf_machine, 0, ".text"@, m).sections);
    }
    Ok(merged)
}

} // verus!
