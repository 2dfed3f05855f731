//! WebAssembly binary-format encoder: LEB128 immediates, instruction emission,
//! function bodies and complete modules.

use vstd::prelude::*;
use vstd::string::StringSliceAdditionalSpecFns;
use vstd::utf8::encode_utf8;
use crate::leb128::{sleb128, uleb128, write_sleb128, write_uleb128};
use crate::machine::append_bytes;
use crate::wasm::instructions::{
    BLOCKTYPE_VOID, WASM_BLOCK, WASM_BR, WASM_BR_IF, WASM_CALL, WASM_ELSE, WASM_END, WASM_I32_CONST,
    WASM_I64_CONST, WASM_IF, WASM_LOCAL_GET, WASM_LOCAL_SET, WASM_LOOP, WASM_RETURN,
};

verus! {

/// Append the unsigned LEB128 encoding of `v`.
pub fn leb128_u(buf: &mut Vec<u8>, v: u64)
    ensures
        final(buf)@ == old(buf)@ + uleb128(v as nat),
{
    write_uleb128(buf, v);
}

/// Append the signed LEB128 encoding of `v`.
pub fn leb128_s(buf: &mut Vec<u8>, v: i64)
    ensures
        final(buf)@ == old(buf)@ + sleb128(v as int),
{
    write_sleb128(buf, v);
}

/// Section id of the type section.
pub const SECTION_TYPE: u8 = 0x01;

/// Section id of the function section.
pub const SECTION_FUNCTION: u8 = 0x03;

/// Section id of the export section.
pub const SECTION_EXPORT: u8 = 0x07;

/// Section id of the code section.
pub const SECTION_CODE: u8 = 0x0A;

/// A section: its id, the content length as ULEB128, the content.
pub open spec fn section_bytes(id: u8, content: Seq<u8>) -> Seq<u8> {
    seq![id] + uleb128(content.len()) + content
}

/// Append a section with id `id` and content `content`.
pub fn write_section(out: &mut Vec<u8>, id: u8, content: &[u8])
    ensures
        final(out)@ == old(out)@ + section_bytes(id, content@),
{
    out.push(id);
    leb128_u(out, content.len() as u64);
    append_bytes(out, content);
    assert(final(out)@ =~= old(out)@ + section_bytes(id, content@)) by {
        assert(out@ =~= old(out)@ + section_bytes(id, content@));
    }
}

// ── instruction emission ───────────────────────────────────────────────────

/// Append opcode byte `opcode`, followed by `imm` as signed LEB128 if present.
pub fn emit_opcode(code: &mut Vec<u8>, opcode: u32, imm: Option<i64>)
    requires
        opcode <= 0xFF,
    ensures
        final(code)@ == old(code)@ + seq![opcode as u8] + (match imm {
            Some(v) => sleb128(v as int),
            None => Seq::<u8>::empty(),
        }),
{
    code.push(opcode as u8);
    if let Some(v) = imm {
        leb128_s(code, v);
    }
    assert(final(code)@ =~= old(code)@ + seq![opcode as u8] + (match imm {
        Some(v) => sleb128(v as int),
        None => Seq::<u8>::empty(),
    })) by {
        assert(code@ =~= old(code)@ + seq![opcode as u8] + (match imm {
            Some(v) => sleb128(v as int),
            None => Seq::<u8>::empty(),
        }));
    }
}

/// Append an opcode byte followed by an unsigned LEB128 index.
fn emit_indexed(code: &mut Vec<u8>, opcode: u8, idx: u32)
    ensures
        final(code)@ == old(code)@ + seq![opcode] + uleb128(idx as nat),
{
    code.push(opcode);
    leb128_u(code, idx as u64);
    assert(final(code)@ =~= old(code)@ + seq![opcode] + uleb128(idx as nat)) by {
        assert(code@ =~= old(code)@ + seq![opcode] + uleb128(idx as nat));
    }
}

/// Append `local.get idx`.
pub fn emit_local_get(code: &mut Vec<u8>, local_idx: u32)
    ensures
        final(code)@ == old(code)@ + seq![WASM_LOCAL_GET as u8] + uleb128(local_idx as nat),
{
    emit_indexed(code, WASM_LOCAL_GET as u8, local_idx);
}

/// Append `local.set idx`.
pub fn emit_local_set(code: &mut Vec<u8>, local_idx: u32)
    ensures
        final(code)@ == old(code)@ + seq![WASM_LOCAL_SET as u8] + uleb128(local_idx as nat),
{
    emit_indexed(code, WASM_LOCAL_SET as u8, local_idx);
}

/// Append `i64.const v` (when `is_i64`) or `i32.const v`.
pub fn emit_const(code: &mut Vec<u8>, is_i64: bool, v: i64)
    ensures
        final(code)@ == old(code)@ + seq![if is_i64 { WASM_I64_CONST as u8 } else { WASM_I32_CONST as u8 }]
            + sleb128(v as int),
{
    if is_i64 {
        code.push(WASM_I64_CONST as u8);
    } else {
        code.push(WASM_I32_CONST as u8);
    }
    leb128_s(code, v);
    assert(final(code)@ =~= old(code)@ + seq![if is_i64 { WASM_I64_CONST as u8 } else { WASM_I32_CONST as u8 }]
        + sleb128(v as int)) by {
        assert(code@ =~= old(code)@ + seq![if is_i64 { WASM_I64_CONST as u8 } else { WASM_I32_CONST as u8 }]
            + sleb128(v as int));
    }
}

/// Append `br depth`.
pub fn emit_br(code: &mut Vec<u8>, depth: u32)
    ensures
        final(code)@ == old(code)@ + seq![WASM_BR as u8] + uleb128(depth as nat),
{
    emit_indexed(code, WASM_BR as u8, depth);
}

/// Append `br_if depth`.
pub fn emit_br_if(code: &mut Vec<u8>, depth: u32)
    ensures
        final(code)@ == old(code)@ + seq![WASM_BR_IF as u8] + uleb128(depth as nat),
{
    emit_indexed(code, WASM_BR_IF as u8, depth);
}

/// Append a structured-control opcode with the empty block type.
fn emit_void_block(code: &mut Vec<u8>, opcode: u8)
    ensures
        final(code)@ == old(code)@ + seq![opcode, BLOCKTYPE_VOID],
{
    code.push(opcode);
    code.push(BLOCKTYPE_VOID);
    assert(final(code)@ =~= old(code)@ + seq![opcode, BLOCKTYPE_VOID]) by {
        assert(code@ =~= old(code)@ + seq![opcode, BLOCKTYPE_VOID]);
    }
}

/// Append `block` (no result).
pub fn emit_block(code: &mut Vec<u8>)
    ensures
        final(code)@ == old(code)@ + seq![WASM_BLOCK as u8, BLOCKTYPE_VOID],
{
    emit_void_block(code, WASM_BLOCK as u8);
}

/// Append `loop` (no result).
pub fn emit_loop(code: &mut Vec<u8>)
    ensures
        final(code)@ == old(code)@ + seq![WASM_LOOP as u8, BLOCKTYPE_VOID],
{
    emit_void_block(code, WASM_LOOP as u8);
}

/// Append `if` (no result).
pub fn emit_if(code: &mut Vec<u8>)
    ensures
        final(code)@ == old(code)@ + seq![WASM_IF as u8, BLOCKTYPE_VOID],
{
    emit_void_block(code, WASM_IF as u8);
}

/// Append `else`.
pub fn emit_else(code: &mut Vec<u8>)
    ensures
        final(code)@ == old(code)@.push(WASM_ELSE as u8),
{
    code.push(WASM_ELSE as u8);
}

/// Append `end`.
pub fn emit_end(code: &mut Vec<u8>)
    ensures
        final(code)@ == old(code)@.push(WASM_END as u8),
{
    code.push(WASM_END as u8);
}

/// Append `return`.
pub fn emit_return(code: &mut Vec<u8>)
    ensures
        final(code)@ == old(code)@.push(WASM_RETURN as u8),
{
    code.push(WASM_RETURN as u8);
}

/// Append `call func_idx`.
pub fn emit_call(code: &mut Vec<u8>, func_idx: u32)
    ensures
        final(code)@ == old(code)@ + seq![WASM_CALL as u8] + uleb128(func_idx as nat),
{
    emit_indexed(code, WASM_CALL as u8, func_idx);
}

// ── function types and bodies ──────────────────────────────────────────────

/// A `functype`: 0x60, the parameter count and value types, the result count
/// and value types.
pub open spec fn functype_bytes(params: Seq<u8>, results: Seq<u8>) -> Seq<u8> {
    seq![0x60u8] + uleb128(params.len()) + params + uleb128(results.len()) + results
}

/// Append the `functype` of a function with the given parameter and result value types.
pub fn encode_functype(buf: &mut Vec<u8>, params: &[u8], results: &[u8])
    ensures
        final(buf)@ == old(buf)@ + functype_bytes(params@, results@),
{
    buf.push(0x60);
    leb128_u(buf, params.len() as u64);
    append_bytes(buf, params);
    leb128_u(buf, results.len() as u64);
    append_bytes(buf, results);
    assert(final(buf)@ =~= old(buf)@ + functype_bytes(params@, results@)) by {
        assert(buf@ =~= old(buf)@ + functype_bytes(params@, results@));
    }
}

/// A lowered WebAssembly function.
pub struct WasmFunction {
    /// Exported name.
    pub name: String,
    /// Index of the source function in the module's function list.
    pub func_idx: usize,
    /// Value type of each local beyond the parameters.
    pub local_types: Vec<u8>,
    /// Encoded instructions (without the final `end`).
    pub code: Vec<u8>,
}

/// Run-length grouping of local value types: `(count, valtype)` for each
/// maximal run of equal types, in order.
pub open spec fn local_groups(s: Seq<u8>) -> Seq<(u32, u8)>
    decreases s.len(),
{
    if s.len() == 0 {
        Seq::empty()
    } else {
        let g = local_groups(s.drop_last());
        if g.len() > 0 && g.last().1 == s.last() {
            g.update(g.len() - 1, ((g.last().0 + 1) as u32, s.last()))
        } else {
            g.push((1u32, s.last()))
        }
    }
}

/// Encoded local declarations: each group as its count (ULEB128) and type byte.
pub open spec fn groups_bytes(g: Seq<(u32, u8)>) -> Seq<u8>
    decreases g.len(),
{
    if g.len() == 0 {
        Seq::empty()
    } else {
        groups_bytes(g.drop_last()) + uleb128(g.last().0 as nat) + seq![g.last().1]
    }
}

/// A function body before its length prefix: the local declarations, the
/// code, and `end` (0x0B).
pub open spec fn body_content(local_types: Seq<u8>, code: Seq<u8>) -> Seq<u8> {
    uleb128(local_groups(local_types).len()) + groups_bytes(local_groups(local_types)) + code + seq![0x0Bu8]
}

/// An encoded function body: the length of the content as ULEB128, then the content.
pub open spec fn function_body_bytes(local_types: Seq<u8>, code: Seq<u8>) -> Seq<u8> {
    uleb128(body_content(local_types, code).len()) + body_content(local_types, code)
}

/// The type expanded from a run-length group list.
pub open spec fn expand_groups(g: Seq<(u32, u8)>) -> Seq<u8>
    decreases g.len(),
{
    if g.len() == 0 {
        Seq::empty()
    } else {
        expand_groups(g.drop_last()) + Seq::new(g.last().0 as nat, |_i: int| g.last().1)
    }
}

/// Length of the run of equal types at the end of `s`.
pub open spec fn trailing_run(s: Seq<u8>) -> nat
    decreases s.len(),
{
    if s.len() == 0 {
        0
    } else if s.len() == 1 || s[s.len() - 2] != s.last() {
        1
    } else {
        trailing_run(s.drop_last()) + 1
    }
}

/// No run of equal types in `s` is longer than a `u32` count can hold.
pub open spec fn runs_fit(s: Seq<u8>) -> bool {
    forall|k: int| 1 <= k <= s.len() ==> #[trigger] trailing_run(s.take(k)) <= u32::MAX
}

/// Decoding the local declarations gives back the locals: the groups expand to
/// exactly the list of local types, every group is non-empty, and adjacent
/// groups have different types.
pub proof fn lemma_local_groups(s: Seq<u8>)
    requires
        runs_fit(s),
    ensures
        expand_groups(local_groups(s)) == s,
        forall|k: int| 0 <= k < local_groups(s).len() ==> (#[trigger] local_groups(s)[k]).0 >= 1,
        forall|k: int| 0 < k < local_groups(s).len() ==> (#[trigger] local_groups(s)[k]).1 != local_groups(s)[k - 1].1,
        local_groups(s).len() <= s.len(),
        s.len() > 0 ==> local_groups(s).len() > 0 && local_groups(s).last() == (trailing_run(s) as u32, s.last()),
    decreases s.len(),
{
    if s.len() > 0 {
        let t = s.drop_last();
        assert forall|k: int| 1 <= k <= t.len() implies #[trigger] trailing_run(t.take(k)) <= u32::MAX by {
            assert(t.take(k) =~= s.take(k));
        }
        lemma_local_groups(t);
        let g = local_groups(t);
        assert(s =~= t.push(s.last()));
        assert(s.take(s.len() as int) =~= s);
        assert(trailing_run(s) <= u32::MAX);
        if g.len() > 0 && g.last().1 == s.last() {
            let n = g.last().0;
            assert(t.len() > 0);
            assert(trailing_run(s) == trailing_run(t) + 1);
            let h = g.update(g.len() - 1, ((n + 1) as u32, s.last()));
            assert(h.drop_last() =~= g.drop_last());
            assert(expand_groups(g) == expand_groups(g.drop_last()) + Seq::new(n as nat, |_i: int| g.last().1));
            assert(Seq::new((n + 1) as nat, |_i: int| s.last()) =~= Seq::new(n as nat, |_i: int| g.last().1).push(
                s.last(),
            ));
            assert(expand_groups(h) =~= expand_groups(g).push(s.last()));
        } else {
            assert(trailing_run(s) == 1);
            let h = g.push((1u32, s.last()));
            assert(h.drop_last() =~= g);
            assert(Seq::new(1nat, |_i: int| s.last()) =~= seq![s.last()]);
            assert(expand_groups(h) =~= expand_groups(g).push(s.last()));
        }
    }
}

/// Encode a function body: local declarations (runs of equal types grouped),
/// the instructions, `end`, all prefixed with the byte length.
pub fn encode_function_body(wf: &WasmFunction) -> (out: Vec<u8>)
    requires
        runs_fit(wf.local_types@),
    ensures
        out@ == function_body_bytes(wf.local_types@, wf.code@),
{
    let mut body: Vec<u8> = Vec::new();
    let local_count = wf.local_types.len();
    if local_count == 0 {
        leb128_u(&mut body, 0);
        assert(local_groups(wf.local_types@) =~= Seq::<(u32, u8)>::empty());
    } else {
        let mut groups: Vec<(u32, u8)> = Vec::new();
        let mut i: usize = 0;
        while i < local_count
            invariant
                local_count == wf.local_types@.len(),
                runs_fit(wf.local_types@),
                i <= local_count,
                groups@ == local_groups(wf.local_types@.subrange(0, i as int)),
            decreases local_count - i,
        {
            let vt = wf.local_types[i];
            proof {
                let pre = wf.local_types@.subrange(0, i as int);
                assert forall|k: int| 1 <= k <= pre.len() implies #[trigger] trailing_run(pre.take(k)) <= u32::MAX by {
                    assert(pre.take(k) =~= wf.local_types@.take(k));
                }
                lemma_local_groups(pre);
                let next = wf.local_types@.subrange(0, i + 1);
                assert(next.drop_last() =~= pre);
                assert(next =~= wf.local_types@.take(i + 1));
                assert(trailing_run(next) <= u32::MAX);
                if i > 0 && pre.last() == vt {
                    assert(trailing_run(next) == trailing_run(pre) + 1);
                }
            }
            let glen = groups.len();
            if glen > 0 && groups[glen - 1].1 == vt {
                let (c, t) = groups[glen - 1];
                groups.set(glen - 1, (c + 1, t));
            } else {
                groups.push((1, vt));
            }
            i = i + 1;
        }
        assert(wf.local_types@.subrange(0, i as int) =~= wf.local_types@);
        leb128_u(&mut body, groups.len() as u64);
        let ghost prefix = body@;
        let mut k: usize = 0;
        while k < groups.len()
            invariant
                k <= groups.len(),
                body@ == prefix + groups_bytes(groups@.subrange(0, k as int)),
            decreases groups.len() - k,
        {
            let (count, vt) = groups[k];
            leb128_u(&mut body, count as u64);
            body.push(vt);
            k = k + 1;
            assert(groups@.subrange(0, k as int).drop_last() =~= groups@.subrange(0, k - 1));
            assert(body@ =~= prefix + groups_bytes(groups@.subrange(0, k as int)));
        }
        assert(groups@.subrange(0, k as int) =~= groups@);
    }
    append_bytes(&mut body, wf.code.as_slice());
    body.push(0x0B);
    assert(body@ =~= body_content(wf.local_types@, wf.code@));
    let mut out: Vec<u8> = Vec::new();
    leb128_u(&mut out, body.len() as u64);
    append_bytes(&mut out, body.as_slice());
    assert(out@ =~= function_body_bytes(wf.local_types@, wf.code@));
    out
}

// ── module assembly ────────────────────────────────────────────────────────

/// The WebAssembly signature of a source function: parameter and result value types.
pub struct FuncType {
    /// Value type of each parameter that has a WebAssembly representation.
    pub params: Vec<u8>,
    /// Value type of the result, if the function returns one.
    pub results: Vec<u8>,
}

/// Concatenation of a list of byte strings, in order.
pub open spec fn join_bytes(parts: Seq<Seq<u8>>) -> Seq<u8>
    decreases parts.len(),
{
    if parts.len() == 0 {
        Seq::empty()
    } else {
        join_bytes(parts.drop_last()) + parts.last()
    }
}

/// The encoded `functype` of the `i`-th lowered function.
pub open spec fn functype_entry(sigs: Seq<FuncType>, fs: Seq<WasmFunction>, i: int) -> Seq<u8> {
    functype_bytes(sigs[fs[i].func_idx as int].params@, sigs[fs[i].func_idx as int].results@)
}

/// The encoded `functype` of every lowered function, in order.
pub open spec fn functype_entries(sigs: Seq<FuncType>, fs: Seq<WasmFunction>) -> Seq<Seq<u8>> {
    Seq::new(fs.len(), |i: int| functype_entry(sigs, fs, i))
}

/// The distinct entries of `es`, each at the place of its first occurrence.
pub open spec fn distinct_entries(es: Seq<Seq<u8>>) -> Seq<Seq<u8>>
    decreases es.len(),
{
    if es.len() == 0 {
        Seq::empty()
    } else {
        let d = distinct_entries(es.drop_last());
        if d.contains(es.last()) {
            d
        } else {
            d.push(es.last())
        }
    }
}

/// The position of the first occurrence of `e` in `d` (meaningful when `d` contains `e`).
pub open spec fn first_index_of(d: Seq<Seq<u8>>, e: Seq<u8>) -> nat
    decreases d.len(),
{
    if d.len() == 0 {
        0
    } else if d.drop_last().contains(e) {
        first_index_of(d.drop_last(), e)
    } else {
        (d.len() - 1) as nat
    }
}

/// The type index of the `i`-th function: where its signature stands in the
/// deduplicated type table.
pub open spec fn type_index(es: Seq<Seq<u8>>, i: int) -> nat {
    first_index_of(distinct_entries(es), es[i])
}

/// The eight-byte module header: magic `\0asm` and version 1.
pub open spec fn wasm_header() -> Seq<u8> {
    seq![0x00u8, 0x61u8, 0x73u8, 0x6Du8, 0x01u8, 0x00u8, 0x00u8, 0x00u8]
}

/// Content of the type section.
pub open spec fn type_section(es: Seq<Seq<u8>>) -> Seq<u8> {
    uleb128(distinct_entries(es).len()) + join_bytes(distinct_entries(es))
}

/// Content of the function section: the count, then each function's type index.
pub open spec fn function_section(es: Seq<Seq<u8>>) -> Seq<u8> {
    uleb128(es.len()) + join_bytes(Seq::new(es.len(), |i: int| uleb128(type_index(es, i))))
}

/// One export entry: the name's length and UTF-8 bytes, kind 0 (function), the index.
pub open spec fn export_entry(name: Seq<char>, index: nat) -> Seq<u8> {
    uleb128(encode_utf8(name).len()) + encode_utf8(name) + seq![0x00u8] + uleb128(index)
}

/// Content of the export section: every function exported under its name.
pub open spec fn export_section(fs: Seq<WasmFunction>) -> Seq<u8> {
    uleb128(fs.len()) + join_bytes(Seq::new(fs.len(), |i: int| export_entry(fs[i].name@, i as nat)))
}

/// Content of the code section: the count, then every encoded body.
pub open spec fn code_section(fs: Seq<WasmFunction>) -> Seq<u8> {
    uleb128(fs.len()) + join_bytes(
        Seq::new(fs.len(), |i: int| function_body_bytes(fs[i].local_types@, fs[i].code@)),
    )
}

/// A complete module: the header and, when there is at least one function,
/// the type, function, export and code sections in that order.
pub open spec fn module_bytes(sigs: Seq<FuncType>, fs: Seq<WasmFunction>) -> Seq<u8> {
    let es = functype_entries(sigs, fs);
    if fs.len() == 0 {
        wasm_header()
    } else {
        wasm_header() + section_bytes(SECTION_TYPE, type_section(es)) + section_bytes(
            SECTION_FUNCTION,
            function_section(es),
        ) + section_bytes(SECTION_EXPORT, export_section(fs)) + section_bytes(
            SECTION_CODE,
            code_section(fs),
        )
    }
}

proof fn lemma_join_push(parts: Seq<Seq<u8>>, x: Seq<u8>)
    ensures
        join_bytes(parts.push(x)) == join_bytes(parts) + x,
{
    assert(parts.push(x).drop_last() =~= parts);
}

proof fn lemma_first_index_push(d: Seq<Seq<u8>>, x: Seq<u8>, e: Seq<u8>)
    requires
        d.contains(e),
    ensures
        first_index_of(d.push(x), e) == first_index_of(d, e),
{
    assert(d.push(x).drop_last() =~= d);
}

proof fn lemma_first_index_at(d: Seq<Seq<u8>>, e: Seq<u8>, k: int)
    requires
        0 <= k < d.len(),
        d[k] == e,
        forall|j: int| 0 <= j < k ==> d[j] != e,
    ensures
        first_index_of(d, e) == k,
    decreases d.len(),
{
    if d.drop_last().contains(e) {
        let j = choose|j: int| 0 <= j < d.len() - 1 && d.drop_last()[j] == e;
        assert(d[j] == e);
        assert(k < d.len() - 1);
        lemma_first_index_at(d.drop_last(), e, k);
    } else {
        if k < d.len() - 1 {
            assert(d.drop_last()[k] == e);
        }
    }
}

proof fn lemma_distinct_contains(es: Seq<Seq<u8>>)
    ensures
        forall|i: int| 0 <= i < es.len() ==> distinct_entries(es).contains(#[trigger] es[i]),
        distinct_entries(es).len() <= es.len(),
    decreases es.len(),
{
    if es.len() > 0 {
        let t = es.drop_last();
        lemma_distinct_contains(t);
        let d = distinct_entries(t);
        assert forall|i: int| 0 <= i < es.len() implies distinct_entries(es).contains(#[trigger] es[i]) by {
            if i < es.len() - 1 {
                assert(t[i] == es[i]);
                assert(d.contains(t[i]));
                let j = choose|j: int| 0 <= j < d.len() && d[j] == t[i];
                if !d.contains(es.last()) {
                    assert(d.push(es.last())[j] == es[i]);
                }
            } else {
                if !d.contains(es.last()) {
                    assert(d.push(es.last())[d.len() as int] == es[i]);
                }
            }
        }
    }
}

/// Deduplication loses nothing and keeps nothing twice: the type table holds
/// no entry twice, and the type index of every function points at an entry
/// equal to that function's signature.
pub proof fn lemma_type_index_sound(es: Seq<Seq<u8>>)
    ensures
        forall|a: int, b: int|
            0 <= a < b < distinct_entries(es).len() ==> distinct_entries(es)[a] != distinct_entries(es)[b],
        forall|i: int|
            0 <= i < es.len() ==> type_index(es, i) < distinct_entries(es).len() && distinct_entries(es)[type_index(
                es,
                i,
            ) as int] == es[i],
    decreases es.len(),
{
    lemma_distinct_contains(es);
    if es.len() > 0 {
        let t = es.drop_last();
        lemma_type_index_sound(t);
        let d = distinct_entries(t);
        if !d.contains(es.last()) {
            let d2 = d.push(es.last());
            assert forall|a: int, b: int| 0 <= a < b < d2.len() implies d2[a] != d2[b] by {
                if b == d.len() {
                    if d2[a] == d2[b] {
                        assert(d[a] == es.last());
                    }
                }
            }
        }
    }
    assert forall|i: int| 0 <= i < es.len() implies type_index(es, i) < distinct_entries(es).len()
        && distinct_entries(es)[type_index(es, i) as int] == es[i] by {
        lemma_first_index_bounds(distinct_entries(es), es[i]);
    }
}

proof fn lemma_first_index_bounds(d: Seq<Seq<u8>>, e: Seq<u8>)
    requires
        d.contains(e),
    ensures
        first_index_of(d, e) < d.len(),
        d[first_index_of(d, e) as int] == e,
    decreases d.len(),
{
    if d.drop_last().contains(e) {
        lemma_first_index_bounds(d.drop_last(), e);
    } else {
        let j = choose|j: int| 0 <= j < d.len() && d[j] == e;
        if j < d.len() - 1 {
            assert(d.drop_last()[j] == e);
        }
    }
}

/// Whether two byte strings are equal.
fn bytes_equal(a: &[u8], b: &[u8]) -> (r: bool)
    ensures
        r == (a@ == b@),
{
    if a.len() != b.len() {
        return false;
    }
    let mut i: usize = 0;
    while i < a.len()
        invariant
            a@.len() == b@.len(),
            i <= a.len(),
            forall|j: int| 0 <= j < i ==> a@[j] == b@[j],
        decreases a.len() - i,
    {
        if a[i] != b[i] {
            return false;
        }
        i = i + 1;
    }
    assert(a@ =~= b@);
    true
}

/// Assemble a complete WebAssembly module from lowered functions. The
/// signature of each function is `sigs[func_idx]`; equal signatures share one
/// entry of the type table, which keeps the order of first use. Every
/// function is exported under its name, with its position as index.
pub fn assemble_module(sigs: &[FuncType], wasm_functions: &[WasmFunction]) -> (out: Vec<u8>)
    requires
        forall|i: int| 0 <= i < wasm_functions@.len() ==> (#[trigger] wasm_functions@[i]).func_idx < sigs@.len(),
        forall|i: int| 0 <= i < wasm_functions@.len() ==> runs_fit((#[trigger] wasm_functions@[i]).local_types@),
        wasm_functions@.len() <= u32::MAX,
    ensures
        out@ == module_bytes(sigs@, wasm_functions@),
{
    let ghost fs = wasm_functions@;
    let ghost es = functype_entries(sigs@, fs);
    let mut out: Vec<u8> = Vec::new();
    out.push(0x00);
    out.push(0x61);
    out.push(0x73);
    out.push(0x6D);
    out.push(0x01);
    out.push(0x00);
    out.push(0x00);
    out.push(0x00);
    assert(out@ =~= wasm_header());
    let n = wasm_functions.len();
    if n == 0 {
        return out;
    }
    // Deduplicated type table and each function's index into it.

    let mut type_entries: Vec<Vec<u8>> = Vec::new();
    let mut type_indices: Vec<u32> = Vec::new();
    let mut i: usize = 0;
    while i < n
        invariant
            n == fs.len(),
            n <= u32::MAX,
            fs == wasm_functions@,
            es == functype_entries(sigs@, fs),
            forall|k: int| 0 <= k < fs.len() ==> (#[trigger] fs[k]).func_idx < sigs@.len(),
            i <= n,
            type_entries@.len() == distinct_entries(es.subrange(0, i as int)).len(),
            forall|k: int|
                0 <= k < type_entries@.len() ==> (#[trigger] type_entries@[k])@ == distinct_entries(
                    es.subrange(0, i as int),
                )[k],
            type_indices@.len() == i,
            forall|k: int|
                0 <= k < i ==> (#[trigger] type_indices@[k]) as nat == first_index_of(
                    distinct_entries(es.subrange(0, i as int)),
                    es[k],
                ),
        decreases n - i,
    {
        let wf = &wasm_functions[i];
        let sig = &sigs[wf.func_idx];
        let mut entry: Vec<u8> = Vec::new();
        encode_functype(&mut entry, sig.params.as_slice(), sig.results.as_slice());
        assert(entry@ =~= es[i as int]);
        let ghost prev = es.subrange(0, i as int);
        let ghost d = distinct_entries(prev);
        proof {
            lemma_distinct_contains(prev);
            lemma_distinct_contains(es.subrange(0, i + 1));
            assert(d.len() <= i);
            assert(es.subrange(0, i + 1).drop_last() =~= prev);
            assert(es.subrange(0, i + 1).last() == es[i as int]);
        }
        let mut pos: usize = 0;
        let mut found = false;
        while pos < type_entries.len()
            invariant_except_break
                forall|j: int| 0 <= j < pos ==> (#[trigger] type_entries@[j])@ != entry@,
                !found,
            invariant
                pos <= type_entries@.len(),
                type_entries@.len() == d.len(),
                forall|k: int| 0 <= k < type_entries@.len() ==> (#[trigger] type_entries@[k])@ == d[k],
            ensures
                found ==> (pos < type_entries@.len() && type_entries@[pos as int]@ == entry@ && forall|j: int|
                    0 <= j < pos ==> (#[trigger] type_entries@[j])@ != entry@),
                !found ==> forall|j: int| 0 <= j < type_entries@.len() ==> (#[trigger] type_entries@[j])@ != entry@,
            decreases type_entries@.len() - pos,
        {
            if bytes_equal(type_entries[pos].as_slice(), entry.as_slice()) {
                found = true;
                break;
            }
            pos = pos + 1;
        }
        let ghost d2 = distinct_entries(es.subrange(0, i + 1));
        if found {
            proof {
                assert(d.contains(entry@)) by {
                    assert(d[pos as int] == entry@);
                }
                assert(d2 == d);
                assert forall|j: int| 0 <= j < pos implies d[j] != entry@ by {
                    assert(type_entries@[j]@ == d[j]);
                }
                lemma_first_index_at(d, entry@, pos as int);
            }
            type_indices.push(pos as u32);
        } else {
            proof {
                assert(!d.contains(entry@)) by {
                    if d.contains(entry@) {
                        let j = choose|j: int| 0 <= j < d.len() && d[j] == entry@;
                        assert(type_entries@[j]@ == d[j]);
                    }
                }
                assert(d2 == d.push(entry@));
                lemma_first_index_at(d2, entry@, d.len() as int);
                assert forall|k: int| 0 <= k < i implies first_index_of(d2, es[k]) == first_index_of(d, es[k]) by {
                    assert(prev[k] == es[k]);
                    lemma_first_index_push(d, entry@, es[k]);
                }
            }
            let new_pos = type_entries.len();
            type_entries.push(entry);
            type_indices.push(new_pos as u32);
        }
        proof {
            assert forall|k: int| 0 <= k < i + 1 implies (#[trigger] type_indices@[k]) as nat == first_index_of(
                d2,
                es[k],
            ) by {
                if k == i {
                    assert(es[k] == entry@);
                }
            }
        }
        i = i + 1;
    }
    assert(es.subrange(0, n as int) =~= es);
    let ghost d = distinct_entries(es);
    proof {
        lemma_distinct_contains(es);
    }
    // Type section.

    let mut type_sec: Vec<u8> = Vec::new();
    leb128_u(&mut type_sec, type_entries.len() as u64);
    let ghost prefix = type_sec@;
    let mut k: usize = 0;
    while k < type_entries.len()
        invariant
            k <= type_entries@.len(),
            type_entries@.len() == d.len(),
            forall|j: int| 0 <= j < type_entries@.len() ==> (#[trigger] type_entries@[j])@ == d[j],
            type_sec@ == prefix + join_bytes(d.subrange(0, k as int)),
        decreases type_entries@.len() - k,
    {
        append_bytes(&mut type_sec, type_entries[k].as_slice());
        proof {
            lemma_join_push(d.subrange(0, k as int), d[k as int]);
            assert(d.subrange(0, k + 1) =~= d.subrange(0, k as int).push(d[k as int]));
        }
        k = k + 1;
    }
    assert(d.subrange(0, k as int) =~= d);
    assert(type_sec@ =~= type_section(es));
    write_section(&mut out, SECTION_TYPE, type_sec.as_slice());
    // Function section.

    let mut func_sec: Vec<u8> = Vec::new();
    leb128_u(&mut func_sec, n as u64);
    let ghost fprefix = func_sec@;
    let ghost idx_parts = Seq::new(es.len(), |j: int| uleb128(type_index(es, j)));
    let mut k: usize = 0;
    while k < n
        invariant
            n == es.len(),
            k <= n,
            type_indices@.len() == n,
            forall|j: int| 0 <= j < n ==> (#[trigger] type_indices@[j]) as nat == type_index(es, j),
            idx_parts == Seq::new(es.len(), |j: int| uleb128(type_index(es, j))),
            func_sec@ == fprefix + join_bytes(idx_parts.subrange(0, k as int)),
        decreases n - k,
    {
        leb128_u(&mut func_sec, type_indices[k] as u64);
        proof {
            lemma_join_push(idx_parts.subrange(0, k as int), idx_parts[k as int]);
            assert(idx_parts.subrange(0, k + 1) =~= idx_parts.subrange(0, k as int).push(idx_parts[k as int]));
        }
        k = k + 1;
    }
    assert(idx_parts.subrange(0, n as int) =~= idx_parts);
    assert(func_sec@ =~= function_section(es));
    write_section(&mut out, SECTION_FUNCTION, func_sec.as_slice());
    // Export section.

    let mut exp_sec: Vec<u8> = Vec::new();
    leb128_u(&mut exp_sec, n as u64);
    let ghost eprefix = exp_sec@;
    let ghost exp_parts = Seq::new(fs.len(), |j: int| export_entry(fs[j].name@, j as nat));
    let mut k: usize = 0;
    while k < n
        invariant
            n == fs.len(),
            fs == wasm_functions@,
            k <= n,
            exp_parts == Seq::new(fs.len(), |j: int| export_entry(fs[j].name@, j as nat)),
            exp_sec@ == eprefix + join_bytes(exp_parts.subrange(0, k as int)),
        decreases n - k,
    {
        let name_bytes = wasm_functions[k].name.as_str().as_bytes();
        leb128_u(&mut exp_sec, name_bytes.len() as u64);
        append_bytes(&mut exp_sec, name_bytes);
        exp_sec.push(0x00);
        leb128_u(&mut exp_sec, k as u64);
        proof {
            lemma_join_push(exp_parts.subrange(0, k as int), exp_parts[k as int]);
            assert(exp_parts.subrange(0, k + 1) =~= exp_parts.subrange(0, k as int).push(exp_parts[k as int]));
        }
        k = k + 1;
    }
    assert(exp_parts.subrange(0, n as int) =~= exp_parts);
    assert(exp_sec@ =~= export_section(fs));
    write_section(&mut out, SECTION_EXPORT, exp_sec.as_slice());
    // Code section.

    let mut code_sec: Vec<u8> = Vec::new();
    leb128_u(&mut code_sec, n as u64);
    let ghost cprefix = code_sec@;
    let ghost code_parts = Seq::new(fs.len(), |j: int| function_body_bytes(fs[j].local_types@, fs[j].code@));
    let mut k: usize = 0;
    while k < n
        invariant
            n == fs.len(),
            fs == wasm_functions@,
            forall|j: int| 0 <= j < fs.len() ==> runs_fit((#[trigger] fs[j]).local_types@),
            k <= n,
            code_parts == Seq::new(fs.len(), |j: int| function_body_bytes(fs[j].local_types@, fs[j].code@)),
            code_sec@ == cprefix + join_bytes(code_parts.subrange(0, k as int)),
        decreases n - k,
    {
        let body = encode_function_body(&wasm_functions[k]);
        append_bytes(&mut code_sec, body.as_slice());
        proof {
            lemma_join_push(code_parts.subrange(0, k as int), code_parts[k as int]);
            assert(code_parts.subrange(0, k + 1) =~= code_parts.subrange(0, k as int).push(code_parts[k as int]));
        }
        k = k + 1;
    }
    assert(code_parts.subrange(0, n as int) =~= code_parts);
    assert(code_sec@ =~= code_section(fs));
    write_section(&mut out, SECTION_CODE, code_sec.as_slice());
    assert(out@ =~= module_bytes(sigs@, wasm_functions@));
    out
}

} // verus!
