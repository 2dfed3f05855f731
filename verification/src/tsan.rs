//! ThreadSanitizer instrumentation.
//!
//! The pass declares the TSan runtime functions, adds `__tsan_module_ctor`
//! calling `__tsan_init`, and instruments every defined function:
//! `__tsan_func_entry(0)` first in the entry block, `__tsan_func_exit()`
//! before every `ret`, and before every load and store whose pointer is not
//! the address of an entry-block `alloca`, a call of `__tsan_read{N}` /
//! `__tsan_write{N}` on the pointer (as a 64-bit integer), `N` being the
//! access width in bytes (1, 2, 4 or 8; any other width uses 4). Runtime
//! functions are called by their index in the module.

use vstd::prelude::*;
use crate::ir::{
    ids_in_range, BlockView, ConstId, ConstantData, FuncView, Function, GlobalId, InstrId, InstrKind, KindView, Module, TailCallKind, TypeData,
    TypeId, ValueRef, Context,
};
use crate::strings::str_equal;
use crate::ubsan::{declaration_view, declare_if_missing};
use crate::transforms::tailcall::module_names;

verus! {

// ── access widths ───────────────────────────────────────────────────────────

/// Width in bytes of a value of type `ty`: the bit width rounded up to bytes
/// for an integer, 4 for `float`, 8 for `double` and pointers, and 4 for any
/// other type.
pub open spec fn size_or_four(types: Seq<TypeData>, ty: TypeId) -> u64 {
    match types[ty.0 as int] {
        TypeData::Integer(bits) => ((bits as int + 7) / 8) as u64,
        TypeData::Float => 4,
        TypeData::Double => 8,
        TypeData::Pointer => 8,
        TypeData::Other => 4,
    }
}

/// Byte width of type `ty`, `None` for a type without one.
pub fn type_size_bytes(ctx: &Context, ty: TypeId) -> (r: Option<u64>)
    requires
        (ty.0 as int) < ctx.types@.len(),
    ensures
        match r {
            Some(b) => b == size_or_four(ctx.types@, ty),
            None => ctx.types@[ty.0 as int] == TypeData::Other && size_or_four(ctx.types@, ty) == 4,
        },
{
    match ctx.types[ty.0 as usize] {
        TypeData::Integer(bits) => Some(((bits as u64) + 7) / 8),
        TypeData::Float => Some(4),
        TypeData::Double => Some(8),
        TypeData::Pointer => Some(8),
        TypeData::Other => None,
    }
}

/// The type of every load, and of every store of an instruction's or an
/// argument's value, is in the type table.
pub open spec fn access_types_known(f: FuncView, ntypes: nat) -> bool {
    forall|i: int|
        0 <= i < f.instrs.len() ==> match #[trigger] f.instrs[i] {
            KindView::Load { ty, .. } => ty.0 < ntypes,
            KindView::Store { val, ty, .. } => (val is Instruction || val is Argument) ==> ty.0 < ntypes,
            _ => true,
        }
}

/// Whether `k` is a load, its width in bytes, and its pointer, when `k` is a
/// load or a store. A store of a constant or a global counts as 4 bytes wide.
pub open spec fn access_of(types: Seq<TypeData>, k: KindView) -> Option<(bool, u64, ValueRef)> {
    match k {
        KindView::Load { ty, ptr } => Some((true, size_or_four(types, ty), ptr)),
        KindView::Store { val, ptr, ty } => Some(
            (false, if val is Instruction || val is Argument { size_or_four(types, ty) } else { 4 }, ptr),
        ),
        _ => None,
    }
}

/// A memory access: block, body position, whether it is a load, its width in
/// bytes, and its pointer.
pub type MemSite = (usize, usize, bool, u64, ValueRef);

/// Accesses among the first `m` body positions of block `b`.
pub open spec fn mem_sites_in_block(f: FuncView, types: Seq<TypeData>, b: int, m: int) -> Seq<MemSite>
    decreases m,
{
    if m <= 0 {
        Seq::empty()
    } else {
        let prev = mem_sites_in_block(f, types, b, m - 1);
        match access_of(types, f.instrs[f.blocks[b].body[m - 1].0 as int]) {
            Some((l, w, p)) => prev.push((b as usize, (m - 1) as usize, l, w, p)),
            None => prev,
        }
    }
}

/// Accesses of the first `n` blocks, in block then position order.
pub open spec fn mem_sites_upto(f: FuncView, types: Seq<TypeData>, n: int) -> Seq<MemSite>
    decreases n,
{
    if n <= 0 {
        Seq::empty()
    } else {
        mem_sites_upto(f, types, n - 1) + mem_sites_in_block(f, types, n - 1, f.blocks[n - 1].body.len() as int)
    }
}

/// Every load and store of `f`, in block then position order.
pub open spec fn mem_sites(f: FuncView, types: Seq<TypeData>) -> Seq<MemSite> {
    mem_sites_upto(f, types, f.blocks.len() as int)
}

/// Site `x` comes before site `y` in block then position order.
pub open spec fn mem_site_before(x: MemSite, y: MemSite) -> bool {
    x.0 < y.0 || (x.0 == y.0 && x.1 < y.1)
}

/// Collect the loads and stores of `func`, in block then position order.
pub fn collect_mem_accesses(ctx: &Context, func: &Function) -> (sites: Vec<MemSite>)
    requires
        ids_in_range(func@),
        access_types_known(func@, ctx.types@.len()),
    ensures
        sites@ == mem_sites(func@, ctx.types@),
        forall|j: int, k: int| 0 <= j < k < sites@.len() ==> mem_site_before(#[trigger] sites@[j], #[trigger] sites@[k]),
        forall|j: int|
            0 <= j < sites@.len() ==> (#[trigger] sites@[j]).0 < func@.blocks.len() && sites@[j].1 < func@.blocks[sites@[j].0 as int].body.len(),
{
    let mut sites: Vec<MemSite> = Vec::new();
    let n = func.blocks.len();
    let mut bi: usize = 0;
    while bi < n
        invariant
            n == func@.blocks.len(),
            ids_in_range(func@),
            access_types_known(func@, ctx.types@.len()),
            bi <= n,
            sites@ == mem_sites_upto(func@, ctx.types@, bi as int),
            forall|j: int, k: int| 0 <= j < k < sites@.len() ==> mem_site_before(#[trigger] sites@[j], #[trigger] sites@[k]),
            forall|j: int|
                0 <= j < sites@.len() ==> (#[trigger] sites@[j]).0 < bi && sites@[j].1 < func@.blocks[sites@[j].0 as int].body.len(),
        decreases n - bi,
    {
        assert(func@.blocks[bi as int] == func.blocks@[bi as int]@);
        let m = func.blocks[bi].body.len();
        let ghost start = sites@;
        let mut pos: usize = 0;
        while pos < m
            invariant
                n == func@.blocks.len(),
                ids_in_range(func@),
                access_types_known(func@, ctx.types@.len()),
                bi < n,
                m == func@.blocks[bi as int].body.len(),
                pos <= m,
                start == mem_sites_upto(func@, ctx.types@, bi as int),
                sites@ == start + mem_sites_in_block(func@, ctx.types@, bi as int, pos as int),
                forall|j: int, k: int| 0 <= j < k < sites@.len() ==> mem_site_before(#[trigger] sites@[j], #[trigger] sites@[k]),
                forall|j: int|
                    0 <= j < sites@.len() ==> ((#[trigger] sites@[j]).0 < bi || (sites@[j].0 == bi && sites@[j].1 < pos))
                        && sites@[j].1 < func@.blocks[sites@[j].0 as int].body.len(),
            decreases m - pos,
        {
            let iid = func.blocks[bi].body[pos];
            assert(func@.blocks[bi as int].body[pos as int] == iid);
            assert((iid.0 as int) < func@.instrs.len());
            assert(func@.instrs[iid.0 as int] == func.instructions@[iid.0 as int]@);
            let acc: Option<(bool, u64, ValueRef)> = match &func.instructions[iid.0 as usize] {
                InstrKind::Load { ty, ptr } => {
                    let bytes = match type_size_bytes(ctx, *ty) {
                        Some(b) => b,
                        None => 4,
                    };
                    Some((true, bytes, *ptr))
                },
                InstrKind::Store { val, ptr, ty } => {
                    let typed = match val {
                        ValueRef::Instruction(_) => true,
                        ValueRef::Argument(_) => true,
                        _ => false,
                    };
                    let bytes = if typed {
                        match type_size_bytes(ctx, *ty) {
                            Some(b) => b,
                            None => 4,
                        }
                    } else {
                        4
                    };
                    Some((false, bytes, *ptr))
                },
                _ => None,
            };
            assert(acc == access_of(ctx.types@, func@.instrs[iid.0 as int]));
            if let Some((l, w, p)) = acc {
                sites.push((bi, pos, l, w, p));
                assert(sites@ =~= start + mem_sites_in_block(func@, ctx.types@, bi as int, pos + 1));
            } else {
                assert(sites@ =~= start + mem_sites_in_block(func@, ctx.types@, bi as int, pos + 1));
            }
            pos = pos + 1;
        }
        assert(sites@ =~= mem_sites_upto(func@, ctx.types@, bi + 1));
        bi = bi + 1;
    }
    sites
}

/// Appending instructions that are neither loads nor stores keeps the access
/// types known.
pub proof fn lemma_access_types_push(f: FuncView, g: FuncView, ntypes: nat)
    requires
        access_types_known(f, ntypes),
        f.instrs.len() <= g.instrs.len(),
        forall|i: int| 0 <= i < f.instrs.len() ==> g.instrs[i] == f.instrs[i],
        forall|i: int| f.instrs.len() <= i < g.instrs.len() ==> (#[trigger] g.instrs[i]) is Call || g.instrs[i] is PtrToInt,
    ensures
        access_types_known(g, ntypes),
{
    assert forall|i: int| 0 <= i < g.instrs.len() implies match #[trigger] g.instrs[i] {
        KindView::Load { ty, .. } => ty.0 < ntypes,
        KindView::Store { val, ty, .. } => (val is Instruction || val is Argument) ==> ty.0 < ntypes,
        _ => true,
    } by {
        if i < f.instrs.len() {
            assert(g.instrs[i] == f.instrs[i]);
        }
    }
}

// ── runtime lookup ─────────────────────────────────────────────────────────

/// Index of the first of `names[i..]` equal to `name`.
pub open spec fn first_named(names: Seq<Seq<char>>, name: Seq<char>, i: int) -> Option<int>
    decreases names.len() - i,
{
    if i < 0 || i >= names.len() {
        None
    } else if names[i] == name {
        Some(i)
    } else {
        first_named(names, name, i + 1)
    }
}

pub(crate) proof fn lemma_first_named_range(names: Seq<Seq<char>>, name: Seq<char>, i: int)
    ensures
        first_named(names, name, i) matches Some(j) ==> i <= j < names.len() && names[j] == name,
    decreases names.len() - i,
{
    if 0 <= i < names.len() && names[i] != name {
        lemma_first_named_range(names, name, i + 1);
    }
}

/// Index of the first function of `module` named `name`.
pub fn get_function_id(module: &Module, name: &str) -> (r: Option<usize>)
    ensures
        match first_named(module_names(module@), name@, 0) {
            Some(i) => r == Some(i as usize) && 0 <= i < module@.len(),
            None => r is None,
        },
{
    proof {
        lemma_first_named_range(module_names(module@), name@, 0);
    }
    let n = module.functions.len();
    let mut i: usize = 0;
    while i < n
        invariant
            n == module@.len(),
            i <= n,
            first_named(module_names(module@), name@, 0) == first_named(module_names(module@), name@, i as int),
        decreases n - i,
    {
        assert(module_names(module@)[i as int] == module.functions@[i as int].name@);
        if str_equal(module.functions[i].name.as_str(), name) {
            return Some(i);
        }
        i = i + 1;
    }
    None
}

/// `f` with `ptrtoint ptr` inserted at body position `p` of block `b`, and
/// right after it a call of global `g` on its result.
pub open spec fn with_probe(f: FuncView, b: int, p: int, ptr: ValueRef, g: u32) -> FuncView {
    let n = f.instrs.len();
    FuncView {
        instrs: f.instrs.push(KindView::PtrToInt { val: ptr }).push(
            KindView::Call {
                tail: TailCallKind::Unmarked,
                callee: ValueRef::Global(GlobalId(g)),
                args: seq![ValueRef::Instruction(InstrId(n as u32))],
            },
        ),
        blocks: f.blocks.update(
            b,
            BlockView { body: f.blocks[b].body.insert(p, InstrId(n as u32)).insert(p + 1, InstrId((n + 1) as u32)), ..f.blocks[b] },
        ),
        ..f
    }
}

/// Insert a probe (see `with_probe`).
pub fn insert_probe(func: &mut Function, b: usize, p: usize, ptr: ValueRef, g: u32)
    requires
        b < old(func)@.blocks.len(),
        p <= old(func)@.blocks[b as int].body.len(),
        old(func)@.instrs.len() + 2 < u32::MAX,
    ensures
        final(func)@ == with_probe(old(func)@, b as int, p as int, ptr, g),
{
    let ghost f0 = func@;
    assert(func.instructions@.len() == func@.instrs.len());
    let int_id = func.alloc_instr(InstrKind::PtrToInt { val: ptr });
    let mut args: Vec<ValueRef> = Vec::new();
    args.push(ValueRef::Instruction(int_id));
    let call_kind = InstrKind::Call { tail: TailCallKind::Unmarked, callee: ValueRef::Global(GlobalId(g)), args };
    assert(call_kind@ == KindView::Call {
        tail: TailCallKind::Unmarked,
        callee: ValueRef::Global(GlobalId(g)),
        args: seq![ValueRef::Instruction(int_id)],
    }) by {
        assert(call_kind@->Call_args =~= seq![ValueRef::Instruction(int_id)]);
    }
    assert(func.instructions@.len() == func@.instrs.len());
    let call_id = func.alloc_instr(call_kind);
    assert(func.blocks@.len() == func@.blocks.len());
    func.insert_body(b, p, int_id);
    assert(func.blocks@.len() == func@.blocks.len());
    assert(func@.blocks[b as int] == func.blocks@[b as int]@);
    let len_now = func.blocks[b].body.len();
    assert(p < len_now);
    func.insert_body(b, p + 1, call_id);
    proof {
        let w = with_probe(f0, b as int, p as int, ptr, g);
        assert(func@.instrs =~= w.instrs);
        assert(func@.blocks =~= w.blocks);
    }
}

// ── TSan ───────────────────────────────────────────────────────────────────

/// Name of the TSan runtime function for a load (`read`) or store (`write`)
/// of `bytes` bytes.
pub open spec fn tsan_runtime(is_load: bool, bytes: u64) -> Seq<char> {
    if is_load {
        if bytes == 1 {
            "__tsan_read1"@
        } else if bytes == 2 {
            "__tsan_read2"@
        } else if bytes == 8 {
            "__tsan_read8"@
        } else {
            "__tsan_read4"@
        }
    } else {
        if bytes == 1 {
            "__tsan_write1"@
        } else if bytes == 2 {
            "__tsan_write2"@
        } else if bytes == 8 {
            "__tsan_write8"@
        } else {
            "__tsan_write4"@
        }
    }
}

fn tsan_runtime_name(is_load: bool, bytes: u64) -> (r: &'static str)
    ensures
        r@ == tsan_runtime(is_load, bytes),
{
    if is_load {
        if bytes == 1 {
            "__tsan_read1"
        } else if bytes == 2 {
            "__tsan_read2"
        } else if bytes == 8 {
            "__tsan_read8"
        } else {
            "__tsan_read4"
        }
    } else {
        if bytes == 1 {
            "__tsan_write1"
        } else if bytes == 2 {
            "__tsan_write2"
        } else if bytes == 8 {
            "__tsan_write8"
        } else {
            "__tsan_write4"
        }
    }
}

/// `ptr` is the address of one of the listed `alloca`s (thread-local).
pub open spec fn alloca_derived(ptr: ValueRef, allocas: Seq<InstrId>) -> bool {
    match ptr {
        ValueRef::Instruction(i) => allocas.contains(i),
        _ => false,
    }
}

/// The global a TSan probe for `s` calls: none when its pointer is
/// alloca-derived or the module declares no runtime function of that name.
pub open spec fn tsan_callee(names: Seq<Seq<char>>, allocas: Seq<InstrId>, s: MemSite) -> Option<int> {
    if alloca_derived(s.4, allocas) {
        None
    } else {
        first_named(names, tsan_runtime(s.2, s.3), 0)
    }
}

/// Apply the TSan probes for `s[k - 1]`, ..., `s[0]`: each inserts
/// `ptrtoint` and the call right before the access.
pub open spec fn tsan_apply(f: FuncView, names: Seq<Seq<char>>, allocas: Seq<InstrId>, s: Seq<MemSite>, k: int) -> FuncView
    decreases k,
{
    if k <= 0 {
        f
    } else {
        let site = s[k - 1];
        let f1 = match tsan_callee(names, allocas, site) {
            Some(g) => with_probe(f, site.0 as int, site.1 as int, site.4, g as u32),
            None => f,
        };
        tsan_apply(f1, names, allocas, s, k - 1)
    }
}

/// Function `fid` of module `m` after TSan load/store instrumentation.
pub open spec fn tsan_instrumented(m: Seq<FuncView>, fid: int, types: Seq<TypeData>, allocas: Seq<InstrId>) -> FuncView {
    let s = mem_sites(m[fid], types);
    tsan_apply(m[fid], module_names(m), allocas, s, s.len() as int)
}

/// Whether TSan instrumentation of function `fid` inserts any probe.
pub open spec fn tsan_changes(m: Seq<FuncView>, fid: int, types: Seq<TypeData>, allocas: Seq<InstrId>) -> bool {
    let s = mem_sites(m[fid], types);
    exists|k: int| 0 <= k < s.len() && #[trigger] tsan_callee(module_names(m), allocas, s[k]) is Some
}

fn contains_id(ids: &Vec<InstrId>, id: InstrId) -> (r: bool)
    ensures
        r == ids@.contains(id),
{
    let mut i: usize = 0;
    while i < ids.len()
        invariant
            i <= ids@.len(),
            forall|j: int| 0 <= j < i ==> ids@[j] != id,
        decreases ids@.len() - i,
    {
        if ids[i] == id {
            assert(ids@[i as int] == id);
            return true;
        }
        i = i + 1;
    }
    false
}

/// Insert a TSan read or write probe right before every load and store of
/// function `fid` whose pointer is not one of `alloca_ids` and whose runtime
/// function the module declares. Returns whether any probe was inserted.
pub fn instrument_memory_accesses(ctx: &Context, module: &mut Module, fid: usize, alloca_ids: &Vec<InstrId>) -> (changed: bool)
    requires
        fid < old(module)@.len(),
        old(module)@.len() < u32::MAX,
        ids_in_range(old(module)@[fid as int]),
        access_types_known(old(module)@[fid as int], ctx.types@.len()),
        old(module)@[fid as int].instrs.len() + 2 * mem_sites(old(module)@[fid as int], ctx.types@).len() + 2 < u32::MAX,
    ensures
        final(module)@ == old(module)@.update(fid as int, tsan_instrumented(old(module)@, fid as int, ctx.types@, alloca_ids@)),
        changed == tsan_changes(old(module)@, fid as int, ctx.types@, alloca_ids@),
{
    let ghost m0 = module@;
    let ghost names = module_names(m0);
    assert(module@[fid as int] == module.functions@[fid as int]@);
    let sites = collect_mem_accesses(ctx, &module.functions[fid]);
    let total = sites.len();
    let ghost s = sites@;
    let mut any = false;
    let mut i: usize = total;
    while i > 0
        invariant
            i <= total,
            total == s.len(),
            s == sites@,
            s == mem_sites(m0[fid as int], ctx.types@),
            fid < m0.len(),
            m0.len() < u32::MAX,
            module@.len() == m0.len(),
            forall|j: int| 0 <= j < m0.len() && j != fid ==> #[trigger] module@[j] == m0[j],
            module@[fid as int].name == m0[fid as int].name,
            names == module_names(m0),
            tsan_apply(m0[fid as int], names, alloca_ids@, s, total as int) == tsan_apply(module@[fid as int], names, alloca_ids@, s, i as int),
            module@[fid as int].instrs.len() + 2 * i + 2 < u32::MAX,
            forall|j: int, k: int| 0 <= j < k < s.len() ==> mem_site_before(#[trigger] s[j], #[trigger] s[k]),
            forall|j: int|
                0 <= j < i ==> (#[trigger] s[j]).0 < module@[fid as int].blocks.len() && s[j].1 < module@[fid as int].blocks[s[j].0 as int].body.len(),
            any == (exists|k: int| i <= k < total && #[trigger] tsan_callee(names, alloca_ids@, s[k]) is Some),
        decreases i,
    {
        let (b, p, is_load, bytes, ptr) = sites[i - 1];
        assert(s[i - 1] == (b, p, is_load, bytes, ptr));
        let skip = match ptr {
            ValueRef::Instruction(id) => contains_id(alloca_ids, id),
            _ => false,
        };
        let ghost cur = module@[fid as int];
        assert(module_names(module@) =~= names) by {
            assert forall|j: int| 0 <= j < m0.len() implies module_names(module@)[j] == names[j] by {
                if j != fid {
                    assert(module@[j] == m0[j]);
                }
            }
        }
        let callee = if skip {
            None
        } else {
            get_function_id(module, tsan_runtime_name(is_load, bytes))
        };
        assert(callee matches Some(g) ==> tsan_callee(names, alloca_ids@, s[i - 1]) == Some(g as int));
        assert(callee is None ==> tsan_callee(names, alloca_ids@, s[i - 1]) is None);
        if let Some(g) = callee {
            assert(module@[fid as int] == module.functions@[fid as int]@);
            assert(module@[fid as int].blocks[b as int] == module.functions@[fid as int].blocks@[b as int]@);
            let blen = module.functions[fid].blocks[b].body.len();
            let ghost before = module.functions@;
            let ghost mv = module@;
            insert_probe(&mut module.functions[fid], b, p, ptr, g as u32);
            proof {
                assert forall|j: int| 0 <= j < m0.len() && j != fid implies #[trigger] module@[j] == m0[j] by {
                    assert(module.functions@[j] == before[j]);
                    assert(module@[j] == module.functions@[j]@);
                    assert(mv[j] == before[j]@);
                    assert(mv[j] == m0[j]);
                }
                assert(module@[fid as int] == module.functions@[fid as int]@);
            }
            any = true;
        }
        proof {
            assert forall|j: int| 0 <= j < i - 1 implies (#[trigger] s[j]).0 < module@[fid as int].blocks.len()
                && s[j].1 < module@[fid as int].blocks[s[j].0 as int].body.len() by {
                assert(mem_site_before(s[j], s[i - 1]));
            }
        }
        i = i - 1;
    }
    proof {
        assert(module@ =~= m0.update(fid as int, tsan_instrumented(m0, fid as int, ctx.types@, alloca_ids@)));
    }
    any
}

// ── entry allocas, function entry and exit ─────────────────────────────────

/// The `alloca`s listed in the first `k` body positions of the entry block.
pub open spec fn entry_allocas_upto(f: FuncView, k: int) -> Seq<InstrId>
    decreases k,
{
    if k <= 0 {
        Seq::empty()
    } else {
        let prev = entry_allocas_upto(f, k - 1);
        let id = f.blocks[0].body[k - 1];
        if f.instrs[id.0 as int] is Alloca {
            prev.push(id)
        } else {
            prev
        }
    }
}

/// The `alloca`s of the entry block, in order (none without blocks).
pub open spec fn entry_allocas(f: FuncView) -> Seq<InstrId> {
    if f.blocks.len() == 0 {
        Seq::empty()
    } else {
        entry_allocas_upto(f, f.blocks[0].body.len() as int)
    }
}

/// The `alloca`s of the entry block of `func`: their addresses are
/// thread-local and need no probe.
pub fn collect_alloca_vrefs(func: &Function) -> (ids: Vec<InstrId>)
    requires
        ids_in_range(func@),
    ensures
        ids@ == entry_allocas(func@),
{
    let mut ids: Vec<InstrId> = Vec::new();
    if func.blocks.len() == 0 {
        return ids;
    }
    assert(func@.blocks[0] == func.blocks@[0]@);
    let m = func.blocks[0].body.len();
    let mut k: usize = 0;
    while k < m
        invariant
            ids_in_range(func@),
            func@.blocks.len() > 0,
            m == func@.blocks[0].body.len(),
            k <= m,
            ids@ == entry_allocas_upto(func@, k as int),
        decreases m - k,
    {
        let iid = func.blocks[0].body[k];
        assert(func@.blocks[0].body[k as int] == iid);
        assert((iid.0 as int) < func@.instrs.len());
        assert(func@.instrs[iid.0 as int] == func.instructions@[iid.0 as int]@);
        let is_alloca = match &func.instructions[iid.0 as usize] {
            InstrKind::Alloca { .. } => true,
            _ => false,
        };
        if is_alloca {
            ids.push(iid);
        }
        k = k + 1;
    }
    ids
}

/// Function `fid` of `m` after the entry probe, and the constant pool: when
/// the module declares `__tsan_func_entry`, the constant 0 of type `i64` is
/// added and, if the function has blocks, a call of it on that constant goes
/// first in the entry block.
pub open spec fn with_func_entry(m: Seq<FuncView>, fid: int, c: Seq<ConstantData>, i64_ty: TypeId) -> (FuncView, Seq<ConstantData>) {
    let f = m[fid];
    match first_named(module_names(m), "__tsan_func_entry"@, 0) {
        None => (f, c),
        Some(g) => {
            let c1 = c.push(ConstantData::Int { ty: i64_ty, val: 0 });
            if f.blocks.len() == 0 {
                (f, c1)
            } else {
                let n = f.instrs.len();
                (
                    FuncView {
                        instrs: f.instrs.push(
                            KindView::Call {
                                tail: TailCallKind::Unmarked,
                                callee: ValueRef::Global(GlobalId(g as u32)),
                                args: seq![ValueRef::Constant(ConstId(c.len() as u32))],
                            },
                        ),
                        blocks: f.blocks.update(0, BlockView { body: f.blocks[0].body.insert(0, InstrId(n as u32)), ..f.blocks[0] }),
                        ..f
                    },
                    c1,
                )
            }
        },
    }
}

/// Insert `__tsan_func_entry(0)` at the start of the entry block of function
/// `fid`. Returns whether it was inserted.
pub fn insert_func_entry(ctx: &mut Context, module: &mut Module, fid: usize) -> (changed: bool)
    requires
        fid < old(module)@.len(),
        old(module)@.len() < u32::MAX,
        old(module)@[fid as int].instrs.len() + 1 < u32::MAX,
        old(ctx).constants@.len() + 1 < u32::MAX,
    ensures
        final(module)@ == old(module)@.update(
            fid as int,
            with_func_entry(old(module)@, fid as int, old(ctx).constants@, old(ctx).i64_ty).0,
        ),
        final(ctx).constants@ == with_func_entry(old(module)@, fid as int, old(ctx).constants@, old(ctx).i64_ty).1,
        final(ctx).types@ == old(ctx).types@,
        final(ctx).i64_ty == old(ctx).i64_ty,
        changed == (first_named(module_names(old(module)@), "__tsan_func_entry"@, 0) is Some && old(module)@[fid as int].blocks.len() > 0),
        ids_in_range(old(module)@[fid as int]) ==> ids_in_range(final(module)@[fid as int]),
        forall|n: nat| access_types_known(old(module)@[fid as int], n) ==> access_types_known(#[trigger] final(module)@[fid as int], n),
{
    let ghost m0 = module@;
    let ghost c0 = ctx.constants@;
    let entry_fid = match get_function_id(module, "__tsan_func_entry") {
        Some(id) => id,
        None => return false,
    };
    let i64_ty = ctx.i64_ty;
    let null_arg = ctx.const_int(i64_ty, 0);
    assert(module@[fid as int] == module.functions@[fid as int]@);
    if module.functions[fid].blocks.len() == 0 {
        assert(module@ =~= m0.update(fid as int, with_func_entry(m0, fid as int, c0, i64_ty).0));
        return false;
    }
    let mut args: Vec<ValueRef> = Vec::new();
    args.push(ValueRef::Constant(null_arg));
    let call_kind = InstrKind::Call {
        tail: TailCallKind::Unmarked,
        callee: ValueRef::Global(GlobalId(entry_fid as u32)),
        args,
    };
    assert(call_kind@->Call_args =~= seq![ValueRef::Constant(null_arg)]);
    let ghost before = module.functions@;
    let ghost mv = module@;
    assert(module.functions@[fid as int].instructions@.len() == m0[fid as int].instrs.len());
    let call_id = module.functions[fid].alloc_instr(call_kind);
    assert(module.functions@[fid as int].blocks@.len() == m0[fid as int].blocks.len());
    module.functions[fid].insert_body(0, 0, call_id);
    proof {
        assert forall|j: int| 0 <= j < m0.len() && j != fid implies #[trigger] module@[j] == m0[j] by {
            assert(module.functions@[j] == before[j]);
            assert(module@[j] == module.functions@[j]@);
            assert(mv[j] == before[j]@);
        }
        assert(module@[fid as int] == module.functions@[fid as int]@);
        let w = with_func_entry(m0, fid as int, c0, i64_ty).0;
        assert(module@[fid as int].instrs =~= w.instrs);
        assert(module@[fid as int].blocks =~= w.blocks);
        assert(module@ =~= m0.update(fid as int, w));
        let f0 = m0[fid as int];
        if ids_in_range(f0) {
            assert forall|c: int| 0 <= c < w.blocks.len() implies {
                &&& (forall|k: int| 0 <= k < (#[trigger] w.blocks[c]).body.len() ==> w.blocks[c].body[k].0 < w.instrs.len())
                &&& (w.blocks[c].terminator matches Some(t) ==> t.0 < w.instrs.len())
            } by {
                if c == 0 {
                    assert forall|k: int| 0 <= k < w.blocks[c].body.len() implies w.blocks[c].body[k].0 < w.instrs.len() by {
                        if k > 0 {
                            assert(w.blocks[c].body[k] == f0.blocks[c].body[k - 1]);
                        }
                    }
                } else {
                    assert(w.blocks[c] == f0.blocks[c]);
                }
            }
        }
        assert forall|n: nat| access_types_known(f0, n) implies access_types_known(#[trigger] module@[fid as int], n) by {
            lemma_access_types_push(f0, w, n);
        }
    }
    true
}

/// Block `b` of `f` ends in `ret`.
pub open spec fn ends_ret(f: FuncView, b: int) -> bool {
    match f.blocks[b].terminator {
        Some(t) => f.instrs[t.0 as int] is Ret,
        None => false,
    }
}

/// How many of the first `n` blocks end in `ret`.
pub open spec fn ret_count(f: FuncView, n: int) -> nat
    decreases n,
{
    if n <= 0 {
        0
    } else {
        ret_count(f, n - 1) + if ends_ret(f, n - 1) { 1nat } else { 0nat }
    }
}

/// A call of global `g` with no arguments and no tail marking.
pub open spec fn plain_call(g: u32) -> KindView {
    KindView::Call { tail: TailCallKind::Unmarked, callee: ValueRef::Global(GlobalId(g)), args: Seq::empty() }
}

/// `f` with a call of global `g` appended to the body of every block that
/// ends in `ret`, the calls added to the pool in block order.
pub open spec fn with_exit_calls(f: FuncView, g: u32) -> FuncView {
    FuncView {
        instrs: f.instrs + Seq::new(ret_count(f, f.blocks.len() as int), |_i: int| plain_call(g)),
        blocks: Seq::new(
            f.blocks.len(),
            |b: int|
                if ends_ret(f, b) {
                    BlockView { body: f.blocks[b].body.push(InstrId((f.instrs.len() + ret_count(f, b)) as u32)), ..f.blocks[b] }
                } else {
                    f.blocks[b]
                },
        ),
        ..f
    }
}

proof fn lemma_ret_count_mono(f: FuncView, a: int, b: int)
    requires
        0 <= a <= b,
    ensures
        ret_count(f, a) <= ret_count(f, b),
        ret_count(f, b) <= ret_count(f, a) + (b - a),
    decreases b - a,
{
    if a < b {
        lemma_ret_count_mono(f, a, b - 1);
    }
}

proof fn lemma_exit_calls_keep(f: FuncView, g: u32, ntypes: nat)
    requires
        ids_in_range(f),
    ensures
        ids_in_range(with_exit_calls(f, g)),
        access_types_known(f, ntypes) ==> access_types_known(with_exit_calls(f, g), ntypes),
{
    let w = with_exit_calls(f, g);
    let n = f.blocks.len() as int;
    lemma_ret_count_mono(f, 0, n);
    assert forall|c: int| 0 <= c < w.blocks.len() implies {
        &&& (forall|k: int| 0 <= k < (#[trigger] w.blocks[c]).body.len() ==> w.blocks[c].body[k].0 < w.instrs.len())
        &&& (w.blocks[c].terminator matches Some(t) ==> t.0 < w.instrs.len())
    } by {
        if ends_ret(f, c) {
            lemma_ret_count_mono(f, c + 1, n);
            assert forall|k: int| 0 <= k < w.blocks[c].body.len() implies w.blocks[c].body[k].0 < w.instrs.len() by {
                if k < f.blocks[c].body.len() {
                    assert(w.blocks[c].body[k] == f.blocks[c].body[k]);
                }
            }
        }
    }
    if access_types_known(f, ntypes) {
        lemma_access_types_push(f, w, ntypes);
    }
}

fn add_exit_calls(func: &mut Function, g: u32) -> (changed: bool)
    requires
        ids_in_range(old(func)@),
        old(func)@.instrs.len() + old(func)@.blocks.len() < u32::MAX,
    ensures
        changed == (ret_count(old(func)@, old(func)@.blocks.len() as int) > 0),
        changed ==> final(func)@ == with_exit_calls(old(func)@, g),
        !changed ==> final(func)@ == old(func)@,
{
    let ghost f0 = func@;
    let n = func.blocks.len();
    let mut targets: Vec<usize> = Vec::new();
    let mut b: usize = 0;
    while b < n
        invariant
            n == f0.blocks.len(),
            func@ == f0,
            ids_in_range(f0),
            b <= n,
            targets@.len() == ret_count(f0, b as int),
            forall|k: int| 0 <= k < targets@.len() ==> (#[trigger] targets@[k]) < b && ends_ret(f0, targets@[k] as int)
                && ret_count(f0, targets@[k] as int) == k,
        decreases n - b,
    {
        assert(f0.blocks[b as int] == func.blocks@[b as int]@);
        let is_ret = match func.blocks[b].terminator {
            Some(tid) => {
                assert(f0.instrs[tid.0 as int] == func.instructions@[tid.0 as int]@);
                match &func.instructions[tid.0 as usize] {
                    InstrKind::Ret { .. } => true,
                    _ => false,
                }
            },
            None => false,
        };
        if is_ret {
            targets.push(b);
        }
        b = b + 1;
    }
    if targets.len() == 0 {
        return false;
    }
    let m = targets.len();
    let mut j: usize = 0;
    while j < m
        invariant
            n == f0.blocks.len(),
            m == targets@.len(),
            m == ret_count(f0, n as int),
            f0.instrs.len() + n < u32::MAX,
            forall|k: int| 0 <= k < m ==> (#[trigger] targets@[k]) < n && ends_ret(f0, targets@[k] as int)
                && ret_count(f0, targets@[k] as int) == k,
            j <= m,
            func@.name == f0.name,
            func@.is_declaration == f0.is_declaration,
            func@.num_args == f0.num_args,
            func@.debug_locs == f0.debug_locs,
            func@.instrs == f0.instrs + Seq::new(j as nat, |_i: int| plain_call(g)),
            func@.blocks.len() == n,
            forall|b: int|
                0 <= b < n ==> #[trigger] func@.blocks[b] == (if ends_ret(f0, b) && ret_count(f0, b) < j {
                    BlockView { body: f0.blocks[b].body.push(InstrId((f0.instrs.len() + ret_count(f0, b)) as u32)), ..f0.blocks[b] }
                } else {
                    f0.blocks[b]
                }),
        decreases m - j,
    {
        let bi = targets[j];
        proof {
            lemma_ret_count_mono(f0, 0, n as int);
            assert(func.instructions@.len() == func@.instrs.len());
        }
        let call = InstrKind::Call { tail: TailCallKind::Unmarked, callee: ValueRef::Global(GlobalId(g)), args: Vec::new() };
        assert(call@ == plain_call(g)) by {
            assert(call@->Call_args =~= Seq::<ValueRef>::empty());
        }
        let call_iid = func.alloc_instr(call);
        assert(func.blocks@.len() == func@.blocks.len());
        func.push_body(bi, call_iid);
        proof {
            assert(func@.instrs =~= f0.instrs + Seq::new((j + 1) as nat, |_i: int| plain_call(g)));
            assert forall|b: int| 0 <= b < n implies #[trigger] func@.blocks[b] == (if ends_ret(f0, b) && ret_count(f0, b) < j + 1 {
                BlockView { body: f0.blocks[b].body.push(InstrId((f0.instrs.len() + ret_count(f0, b)) as u32)), ..f0.blocks[b] }
            } else {
                f0.blocks[b]
            }) by {
                if b == bi {
                    assert(ret_count(f0, b) == j);
                } else if ends_ret(f0, b) && ret_count(f0, b) == j {
                    if b < bi {
                        lemma_ret_count_mono(f0, b + 1, bi as int);
                    } else {
                        lemma_ret_count_mono(f0, bi + 1, b);
                    }
                }
            }
        }
        j = j + 1;
    }
    proof {
        assert(func@.blocks =~= with_exit_calls(f0, g).blocks) by {
            assert forall|b: int| 0 <= b < n implies #[trigger] func@.blocks[b] == with_exit_calls(f0, g).blocks[b] by {
                if ends_ret(f0, b) {
                    lemma_ret_count_mono(f0, b + 1, n as int);
                }
            }
        }
        assert(func@.instrs =~= with_exit_calls(f0, g).instrs);
    }
    true
}

/// Function `fid` of `m` after the exit probes: when the module declares
/// `__tsan_func_exit`, a call of it is appended to every block ending in `ret`.
pub open spec fn with_func_exits(m: Seq<FuncView>, fid: int) -> FuncView {
    match first_named(module_names(m), "__tsan_func_exit"@, 0) {
        Some(g) => if ret_count(m[fid], m[fid].blocks.len() as int) > 0 {
            with_exit_calls(m[fid], g as u32)
        } else {
            m[fid]
        },
        None => m[fid],
    }
}

/// Insert `__tsan_func_exit()` right before every `ret` of function `fid`.
/// Returns whether any was inserted.
pub fn insert_func_exits(module: &mut Module, fid: usize) -> (changed: bool)
    requires
        fid < old(module)@.len(),
        old(module)@.len() < u32::MAX,
        ids_in_range(old(module)@[fid as int]),
        old(module)@[fid as int].instrs.len() + old(module)@[fid as int].blocks.len() < u32::MAX,
    ensures
        final(module)@ == old(module)@.update(fid as int, with_func_exits(old(module)@, fid as int)),
        changed == (first_named(module_names(old(module)@), "__tsan_func_exit"@, 0) is Some && ret_count(
            old(module)@[fid as int],
            old(module)@[fid as int].blocks.len() as int,
        ) > 0),
        ids_in_range(final(module)@[fid as int]),
        forall|n: nat| access_types_known(old(module)@[fid as int], n) ==> access_types_known(#[trigger] final(module)@[fid as int], n),
{
    let ghost m0 = module@;
    let exit_fid = match get_function_id(module, "__tsan_func_exit") {
        Some(id) => id,
        None => {
            assert(module@ =~= m0.update(fid as int, with_func_exits(m0, fid as int)));
            return false;
        },
    };
    proof {
        assert forall|n: nat| access_types_known(m0[fid as int], n) implies access_types_known(
            #[trigger] with_exit_calls(m0[fid as int], exit_fid as u32),
            n,
        ) by {
            lemma_exit_calls_keep(m0[fid as int], exit_fid as u32, n);
        }
        lemma_exit_calls_keep(m0[fid as int], exit_fid as u32, 0);
    }
    let ghost before = module.functions@;
    let ghost mv = module@;
    assert(module@[fid as int] == module.functions@[fid as int]@);
    let changed = add_exit_calls(&mut module.functions[fid], exit_fid as u32);
    proof {
        assert forall|j: int| 0 <= j < m0.len() && j != fid implies #[trigger] module@[j] == m0[j] by {
            assert(module.functions@[j] == before[j]);
            assert(module@[j] == module.functions@[j]@);
            assert(mv[j] == before[j]@);
        }
        assert(module@[fid as int] == module.functions@[fid as int]@);
        assert(module@ =~= m0.update(fid as int, with_func_exits(m0, fid as int)));
    }
    changed
}

// ── the per-function pass ──────────────────────────────────────────────────

/// The module and constant pool after each TSan step on function `fid`: the
/// entry probe, the exit probes, then the load/store probes, which skip the
/// entry-block `alloca`s of the function as it was before.
pub open spec fn tsan_steps(m: Seq<FuncView>, fid: int, c: Seq<ConstantData>, types: Seq<TypeData>, i64_ty: TypeId) -> (
    Seq<FuncView>,
    Seq<ConstantData>,
    Seq<FuncView>,
    Seq<FuncView>,
) {
    let (f1, c1) = with_func_entry(m, fid, c, i64_ty);
    let m1 = m.update(fid, f1);
    let m2 = m1.update(fid, with_func_exits(m1, fid));
    let m3 = m2.update(fid, tsan_instrumented(m2, fid, types, entry_allocas(m[fid])));
    (m1, c1, m2, m3)
}

/// Whether any TSan step on function `fid` changes it.
pub open spec fn tsan_function_changes(m: Seq<FuncView>, fid: int, c: Seq<ConstantData>, types: Seq<TypeData>, i64_ty: TypeId) -> bool {
    let (m1, c1, m2, m3) = tsan_steps(m, fid, c, types, i64_ty);
    (first_named(module_names(m), "__tsan_func_entry"@, 0) is Some && m[fid].blocks.len() > 0) || (first_named(
        module_names(m1),
        "__tsan_func_exit"@,
        0,
    ) is Some && ret_count(m1[fid], m1[fid].blocks.len() as int) > 0) || tsan_changes(m2, fid, types, entry_allocas(m[fid]))
}

/// The ids the TSan steps on function `fid` hand out fit in 32 bits.
pub open spec fn tsan_ids_fit(m: Seq<FuncView>, fid: int, c: Seq<ConstantData>, types: Seq<TypeData>, i64_ty: TypeId) -> bool {
    let (m1, c1, m2, m3) = tsan_steps(m, fid, c, types, i64_ty);
    &&& m.len() < u32::MAX
    &&& m[fid].instrs.len() + 1 < u32::MAX
    &&& c.len() + 1 < u32::MAX
    &&& m1[fid].instrs.len() + m1[fid].blocks.len() < u32::MAX
    &&& m2[fid].instrs.len() + 2 * mem_sites(m2[fid], types).len() + 2 < u32::MAX
}

/// TSan instrumentation of function `fid`: entry probe, exit probes, then
/// load/store probes. Returns whether anything changed.
pub fn instrument_function(ctx: &mut Context, module: &mut Module, fid: usize) -> (changed: bool)
    requires
        fid < old(module)@.len(),
        ids_in_range(old(module)@[fid as int]),
        access_types_known(old(module)@[fid as int], old(ctx).types@.len()),
        tsan_ids_fit(old(module)@, fid as int, old(ctx).constants@, old(ctx).types@, old(ctx).i64_ty),
    ensures
        final(module)@ == tsan_steps(old(module)@, fid as int, old(ctx).constants@, old(ctx).types@, old(ctx).i64_ty).3,
        final(ctx).constants@ == tsan_steps(old(module)@, fid as int, old(ctx).constants@, old(ctx).types@, old(ctx).i64_ty).1,
        changed == tsan_function_changes(old(module)@, fid as int, old(ctx).constants@, old(ctx).types@, old(ctx).i64_ty),
        final(ctx).types@ == old(ctx).types@,
        final(ctx).i64_ty == old(ctx).i64_ty,
{
    assert(module@[fid as int] == module.functions@[fid as int]@);
    let alloca_vrefs = collect_alloca_vrefs(&module.functions[fid]);
    let a = insert_func_entry(ctx, module, fid);
    let b = insert_func_exits(module, fid);
    let c = instrument_memory_accesses(ctx, module, fid, &alloca_vrefs);
    a || b || c
}

// ── the module pass ────────────────────────────────────────────────────────

/// Names of the TSan runtime functions, in declaration order.
pub open spec fn tsan_runtime_names() -> Seq<Seq<char>> {
    seq![
        "__tsan_init"@,
        "__tsan_func_entry"@,
        "__tsan_func_exit"@,
        "__tsan_read1"@,
        "__tsan_read2"@,
        "__tsan_read4"@,
        "__tsan_read8"@,
        "__tsan_write1"@,
        "__tsan_write2"@,
        "__tsan_write4"@,
        "__tsan_write8"@,
    ]
}

/// `m` after declaring, in order, those of the first `k` of `names` that it
/// does not have yet.
pub open spec fn declared_from(m: Seq<FuncView>, names: Seq<Seq<char>>, k: int) -> Seq<FuncView>
    decreases k,
{
    if k <= 0 {
        m
    } else {
        let d = declared_from(m, names, k - 1);
        if first_named(module_names(d), names[k - 1], 0) is Some {
            d
        } else {
            d.push(declaration_view(names[k - 1]))
        }
    }
}

pub proof fn lemma_declared_from_shape(m: Seq<FuncView>, names: Seq<Seq<char>>, k: int)
    requires
        0 <= k,
    ensures
        m.len() <= declared_from(m, names, k).len() <= m.len() + k,
        forall|i: int| 0 <= i < m.len() ==> #[trigger] declared_from(m, names, k)[i] == m[i],
        forall|i: int|
            m.len() <= i < declared_from(m, names, k).len() ==> (#[trigger] declared_from(m, names, k)[i]).is_declaration
                && declared_from(m, names, k)[i].blocks.len() == 0 && declared_from(m, names, k)[i].instrs.len() == 0,
    decreases k,
{
    if k > 0 {
        lemma_declared_from_shape(m, names, k - 1);
    }
}

proof fn lemma_tsan_runtime_names()
    ensures
        tsan_runtime_names().len() == 11,
        tsan_runtime_names()[0] == "__tsan_init"@,
        tsan_runtime_names()[1] == "__tsan_func_entry"@,
        tsan_runtime_names()[2] == "__tsan_func_exit"@,
        tsan_runtime_names()[3] == "__tsan_read1"@,
        tsan_runtime_names()[4] == "__tsan_read2"@,
        tsan_runtime_names()[5] == "__tsan_read4"@,
        tsan_runtime_names()[6] == "__tsan_read8"@,
        tsan_runtime_names()[7] == "__tsan_write1"@,
        tsan_runtime_names()[8] == "__tsan_write2"@,
        tsan_runtime_names()[9] == "__tsan_write4"@,
        tsan_runtime_names()[10] == "__tsan_write8"@,
{
}

/// Declare every TSan runtime function that `module` lacks, in order.
pub fn ensure_declarations(module: &mut Module)
    ensures
        final(module)@ == declared_from(old(module)@, tsan_runtime_names(), 11),
{
    let ghost m0 = module@;
    let ghost names = tsan_runtime_names();
    proof {
        lemma_tsan_runtime_names();
    }
    assert(declared_from(m0, names, 0) == m0);
    declare_if_missing(module, "__tsan_init");
    assert(module@ == declared_from(m0, names, 1));
    declare_if_missing(module, "__tsan_func_entry");
    assert(module@ == declared_from(m0, names, 2));
    declare_if_missing(module, "__tsan_func_exit");
    assert(module@ == declared_from(m0, names, 3));
    declare_if_missing(module, "__tsan_read1");
    assert(module@ == declared_from(m0, names, 4));
    declare_if_missing(module, "__tsan_read2");
    assert(module@ == declared_from(m0, names, 5));
    declare_if_missing(module, "__tsan_read4");
    assert(module@ == declared_from(m0, names, 6));
    declare_if_missing(module, "__tsan_read8");
    assert(module@ == declared_from(m0, names, 7));
    declare_if_missing(module, "__tsan_write1");
    assert(module@ == declared_from(m0, names, 8));
    declare_if_missing(module, "__tsan_write2");
    assert(module@ == declared_from(m0, names, 9));
    declare_if_missing(module, "__tsan_write4");
    assert(module@ == declared_from(m0, names, 10));
    declare_if_missing(module, "__tsan_write8");
    assert(module@ == declared_from(m0, names, 11));
}

/// The module constructor `name`: one block that calls global `g` with no
/// arguments and returns.
pub open spec fn ctor_view(name: Seq<char>, g: u32) -> FuncView {
    FuncView {
        name,
        blocks: seq![BlockView { name: "entry"@, body: seq![InstrId(0)], terminator: Some(InstrId(1)) }],
        instrs: seq![
            KindView::Call { tail: TailCallKind::Unmarked, callee: ValueRef::Global(GlobalId(g)), args: Seq::empty() },
            KindView::Ret { val: None },
        ],
        is_declaration: false,
        num_args: 0,
        debug_locs: Seq::empty(),
    }
}

/// `m` with the constructor `ctor` calling the function `init` appended,
/// unless `m` already has a function named `ctor` or none named `init`.
pub open spec fn with_ctor(m: Seq<FuncView>, ctor: Seq<char>, init: Seq<char>) -> Seq<FuncView> {
    if first_named(module_names(m), ctor, 0) is Some {
        m
    } else {
        match first_named(module_names(m), init, 0) {
            Some(g) => m.push(ctor_view(ctor, g as u32)),
            None => m,
        }
    }
}

/// Append the constructor `ctor` that calls `init` (see `with_ctor`).
pub(crate) fn add_module_ctor(module: &mut Module, ctor: &str, init: &str)
    requires
        old(module)@.len() < u32::MAX,
    ensures
        final(module)@ == with_ctor(old(module)@, ctor@, init@),
{
    if get_function_id(module, ctor).is_some() {
        return;
    }
    let init_fid = match get_function_id(module, init) {
        Some(id) => id,
        None => return,
    };
    let mut f = Function {
        name: ctor.to_string(),
        blocks: Vec::new(),
        instructions: Vec::new(),
        is_declaration: false,
        num_args: 0,
        debug_locs: Vec::new(),
    };
    let call_kind = InstrKind::Call { tail: TailCallKind::Unmarked, callee: ValueRef::Global(GlobalId(init_fid as u32)), args: Vec::new() };
    assert(call_kind@->Call_args =~= Seq::<ValueRef>::empty());
    f.instructions.push(call_kind);
    f.instructions.push(InstrKind::Ret { val: None });
    let mut body: Vec<InstrId> = Vec::new();
    body.push(InstrId(0));
    f.blocks.push(crate::ir::BasicBlock { name: "entry".to_string(), body, terminator: Some(InstrId(1)) });
    assert(f@ == ctor_view(ctor@, init_fid as u32)) by {
        assert(f@.instrs =~= ctor_view(ctor@, init_fid as u32).instrs);
        assert(body@ =~= seq![InstrId(0)]);
        assert(f@.blocks =~= ctor_view(ctor@, init_fid as u32).blocks);
        assert(f@.debug_locs =~= Seq::<Option<crate::machine::DebugLoc>>::empty());
    }
    let ghost before = module.functions@;
    module.functions.push(f);
    assert(module@ =~= old(module)@.push(ctor_view(ctor@, init_fid as u32))) by {
        assert(module.functions@ == before.push(f));
    }
}

/// The TSan pass leaves declarations and its own constructor alone.
pub open spec fn tsan_skips(f: FuncView) -> bool {
    f.is_declaration || f.name == "__tsan_module_ctor"@
}

/// The module and constant pool after the per-function steps ran over the
/// first `i` functions, in order.
pub open spec fn tsan_fold(m: Seq<FuncView>, c: Seq<ConstantData>, types: Seq<TypeData>, i64_ty: TypeId, i: int) -> (
    Seq<FuncView>,
    Seq<ConstantData>,
)
    decreases i,
{
    if i <= 0 {
        (m, c)
    } else {
        let (mm, cc) = tsan_fold(m, c, types, i64_ty, i - 1);
        if tsan_skips(m[i - 1]) {
            (mm, cc)
        } else {
            let (m1, c1, m2, m3) = tsan_steps(mm, i - 1, cc, types, i64_ty);
            (m3, c1)
        }
    }
}

proof fn lemma_tsan_fold_shape(m: Seq<FuncView>, c: Seq<ConstantData>, types: Seq<TypeData>, i64_ty: TypeId, i: int)
    requires
        0 <= i <= m.len(),
    ensures
        tsan_fold(m, c, types, i64_ty, i).0.len() == m.len(),
        forall|j: int| i <= j < m.len() ==> #[trigger] tsan_fold(m, c, types, i64_ty, i).0[j] == m[j],
    decreases i,
{
    if i > 0 {
        lemma_tsan_fold_shape(m, c, types, i64_ty, i - 1);
    }
}

/// The module after declarations and the constructor.
pub open spec fn tsan_prepared(m: Seq<FuncView>) -> Seq<FuncView> {
    with_ctor(declared_from(m, tsan_runtime_names(), 11), "__tsan_module_ctor"@, "__tsan_init"@)
}

/// The ids handed out while instrumenting each function fit in 32 bits.
pub open spec fn tsan_module_fits(m: Seq<FuncView>, c: Seq<ConstantData>, types: Seq<TypeData>, i64_ty: TypeId) -> bool {
    let m1 = tsan_prepared(m);
    forall|i: int|
        0 <= i < m1.len() && !tsan_skips(m1[i]) ==> #[trigger] tsan_ids_fit(
            tsan_fold(m1, c, types, i64_ty, i).0,
            i,
            tsan_fold(m1, c, types, i64_ty, i).1,
            types,
            i64_ty,
        )
}

/// Whether the pass instruments anything.
pub open spec fn tsan_module_changes(m: Seq<FuncView>, c: Seq<ConstantData>, types: Seq<TypeData>, i64_ty: TypeId) -> bool {
    let m1 = tsan_prepared(m);
    exists|i: int|
        0 <= i < m1.len() && !tsan_skips(m1[i]) && #[trigger] tsan_function_changes(
            tsan_fold(m1, c, types, i64_ty, i).0,
            i,
            tsan_fold(m1, c, types, i64_ty, i).1,
            types,
            i64_ty,
        )
}

/// The ThreadSanitizer pass.
#[derive(Clone, Copy, Debug, Default)]
pub struct TsanPass;

impl TsanPass {
    /// The pass name.
    pub fn name(&self) -> (s: &'static str)
        ensures
            s@ == "tsan"@,
    {
        "tsan"
    }

    /// Declare the runtime functions, add `__tsan_module_ctor` calling
    /// `__tsan_init`, then instrument every function that is not a
    /// declaration nor that constructor. Returns whether any function changed.
    #[verifier::rlimit(60)]
    pub fn run_on_module(&mut self, ctx: &mut Context, module: &mut Module) -> (changed: bool)
        requires
            old(module)@.len() + 12 < u32::MAX,
            forall|i: int| 0 <= i < old(module)@.len() ==> ids_in_range(#[trigger] old(module)@[i]),
            forall|i: int| 0 <= i < old(module)@.len() ==> access_types_known(#[trigger] old(module)@[i], old(ctx).types@.len()),
            tsan_module_fits(old(module)@, old(ctx).constants@, old(ctx).types@, old(ctx).i64_ty),
        ensures
            final(module)@ == tsan_fold(
                tsan_prepared(old(module)@),
                old(ctx).constants@,
                old(ctx).types@,
                old(ctx).i64_ty,
                tsan_prepared(old(module)@).len() as int,
            ).0,
            final(ctx).constants@ == tsan_fold(
                tsan_prepared(old(module)@),
                old(ctx).constants@,
                old(ctx).types@,
                old(ctx).i64_ty,
                tsan_prepared(old(module)@).len() as int,
            ).1,
            changed == tsan_module_changes(old(module)@, old(ctx).constants@, old(ctx).types@, old(ctx).i64_ty),
    {
        let ghost m0 = module@;
        let ghost c0 = ctx.constants@;
        let ghost types = ctx.types@;
        let ghost i64_ty = ctx.i64_ty;
        ensure_declarations(module);
        proof {
            lemma_declared_from_shape(m0, tsan_runtime_names(), 11);
        }
        let ghost md = module@;
        add_module_ctor(module, "__tsan_module_ctor", "__tsan_init");
        let ghost m1 = module@;
        assert(m1 == tsan_prepared(m0));
        let n = module.functions.len();
        let mut changed = false;
        let mut fi: usize = 0;
        while fi < n
            invariant
                n == m1.len(),
                m1 == tsan_prepared(m0),
                md == declared_from(m0, tsan_runtime_names(), 11),
                m1 == with_ctor(md, "__tsan_module_ctor"@, "__tsan_init"@),
                m0.len() <= md.len() <= m0.len() + 11,
                forall|i: int| 0 <= i < m0.len() ==> #[trigger] md[i] == m0[i],
                forall|i: int| m0.len() <= i < md.len() ==> (#[trigger] md[i]).is_declaration && md[i].blocks.len() == 0 && md[i].instrs.len() == 0,
                forall|i: int| 0 <= i < m0.len() ==> ids_in_range(#[trigger] m0[i]),
                forall|i: int| 0 <= i < m0.len() ==> access_types_known(#[trigger] m0[i], types.len()),
                tsan_module_fits(m0, c0, types, i64_ty),
                ctx.types@ == types,
                ctx.i64_ty == i64_ty,
                fi <= n,
                module@ == tsan_fold(m1, c0, types, i64_ty, fi as int).0,
                ctx.constants@ == tsan_fold(m1, c0, types, i64_ty, fi as int).1,
                changed == (exists|j: int|
                    0 <= j < fi && !tsan_skips(m1[j]) && #[trigger] tsan_function_changes(
                        tsan_fold(m1, c0, types, i64_ty, j).0,
                        j,
                        tsan_fold(m1, c0, types, i64_ty, j).1,
                        types,
                        i64_ty,
                    )),
            decreases n - fi,
        {
            proof {
                lemma_tsan_fold_shape(m1, c0, types, i64_ty, fi as int);
            }
            assert(module@[fi as int] == module.functions@[fi as int]@);
            assert(module@[fi as int] == m1[fi as int]);
            let skip = module.functions[fi].is_declaration || str_equal(module.functions[fi].name.as_str(), "__tsan_module_ctor");
            assert(skip == tsan_skips(m1[fi as int]));
            if !skip {
                proof {
                    if fi < md.len() {
                        assert(m1[fi as int] == md[fi as int]);
                        if fi < m0.len() {
                            assert(md[fi as int] == m0[fi as int]);
                        }
                    } else {
                        assert(m1[fi as int].name == "__tsan_module_ctor"@);
                    }
                    assert(ids_in_range(m1[fi as int]));
                    assert(access_types_known(m1[fi as int], types.len()));
                }
                let ch = instrument_function(ctx, module, fi);
                changed = changed || ch;
            }
            proof {
                if changed {
                    if exists|j: int|
                        0 <= j < fi && !tsan_skips(m1[j]) && #[trigger] tsan_function_changes(
                            tsan_fold(m1, c0, types, i64_ty, j).0,
                            j,
                            tsan_fold(m1, c0, types, i64_ty, j).1,
                            types,
                            i64_ty,
                        ) {
                        let w = choose|j: int|
                            0 <= j < fi && !tsan_skips(m1[j]) && #[trigger] tsan_function_changes(
                                tsan_fold(m1, c0, types, i64_ty, j).0,
                                j,
                                tsan_fold(m1, c0, types, i64_ty, j).1,
                                types,
                                i64_ty,
                            );
                        assert(0 <= w < fi + 1);
                    }
                }
                if exists|j: int|
                    0 <= j < fi + 1 && !tsan_skips(m1[j]) && #[trigger] tsan_function_changes(
                        tsan_fold(m1, c0, types, i64_ty, j).0,
                        j,
                        tsan_fold(m1, c0, types, i64_ty, j).1,
                        types,
                        i64_ty,
                    ) {
                    let w = choose|j: int|
                        0 <= j < fi + 1 && !tsan_skips(m1[j]) && #[trigger] tsan_function_changes(
                            tsan_fold(m1, c0, types, i64_ty, j).0,
                            j,
                            tsan_fold(m1, c0, types, i64_ty, j).1,
                            types,
                            i64_ty,
                        );
                    if w < fi {
                        assert(exists|j: int|
                            0 <= j < fi && !tsan_skips(m1[j]) && #[trigger] tsan_function_changes(
                                tsan_fold(m1, c0, types, i64_ty, j).0,
                                j,
                                tsan_fold(m1, c0, types, i64_ty, j).1,
                                types,
                                i64_ty,
                            ));
                    }
                }
            }
            fi = fi + 1;
        }
        changed
    }
}

/// The ThreadSanitizer routine for an access: a read probe for a load and a write probe for a store, whose name ends in the access size in bytes
/// (1, 2, 4 or 8; an access of any other size is handled as a 4-byte one).
pub proof fn lemma_tsan_runtime_routine(is_load: bool, bytes: u64)
    ensures
        ({
            let name = tsan_runtime(is_load, bytes);
            let prefix = if is_load {
                "__tsan_read"@
            } else {
                "__tsan_write"@
            };
            let size: int = if bytes == 1 || bytes == 2 || bytes == 8 {
                bytes as int
            } else {
                4
            };
            &&& name.len() == prefix.len() + 1
            &&& name.subrange(0, prefix.len() as int) == prefix
            &&& name.last() as int == '0' as int + size
        }),
{
    reveal_strlit("__tsan_read1");
    reveal_strlit("__tsan_read2");
    reveal_strlit("__tsan_read4");
    reveal_strlit("__tsan_read8");
    reveal_strlit("__tsan_write1");
    reveal_strlit("__tsan_write2");
    reveal_strlit("__tsan_write4");
    reveal_strlit("__tsan_write8");
    reveal_strlit("__tsan_read");
    reveal_strlit("__tsan_write");
    assert(("__tsan_read1"@).subrange(0, 11) =~= "__tsan_read"@);
    assert(("__tsan_read2"@).subrange(0, 11) =~= "__tsan_read"@);
    assert(("__tsan_read4"@).subrange(0, 11) =~= "__tsan_read"@);
    assert(("__tsan_read8"@).subrange(0, 11) =~= "__tsan_read"@);
    assert(("__tsan_write1"@).subrange(0, 12) =~= "__tsan_write"@);
    assert(("__tsan_write2"@).subrange(0, 12) =~= "__tsan_write"@);
    assert(("__tsan_write4"@).subrange(0, 12) =~= "__tsan_write"@);
    assert(("__tsan_write8"@).subrange(0, 12) =~= "__tsan_write"@);
}

/// The width in bytes of a value of a type: 1, 2, 4 and 8 for the 8-, 16-,
/// 32- and 64-bit integers, 4 for `float`, 8 for `double` and pointers.
pub open spec fn known_width(t: TypeData) -> Option<u64> {
    match t {
        TypeData::Integer(8) => Some(1),
        TypeData::Integer(16) => Some(2),
        TypeData::Integer(32) => Some(4),
        TypeData::Integer(64) => Some(8),
        TypeData::Float => Some(4),
        TypeData::Double => Some(8),
        TypeData::Pointer => Some(8),
        _ => None,
    }
}

/// What the sanitizers record of an instruction: a load is a read and a
/// store a write, of the pointer they use, as wide as the accessed type (for
/// a store of an instruction's or an argument's value); nothing else is an
/// access.
pub proof fn lemma_access_of(types: Seq<TypeData>, k: KindView)
    ensures
        match k {
            KindView::Load { ty, ptr } => match access_of(types, k) {
                Some((is_load, width, p)) => is_load && p == ptr && (known_width(types[ty.0 as int]) matches Some(w)
                    ==> width == w),
                None => false,
            },
            KindView::Store { val, ptr, ty } => match access_of(types, k) {
                Some((is_load, width, p)) => !is_load && p == ptr && ((val is Instruction || val is Argument) ==> (
                known_width(types[ty.0 as int]) matches Some(w) ==> width == w)),
                None => false,
            },
            _ => access_of(types, k) is None,
        },
{
}

} // verus!
