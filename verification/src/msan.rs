//! MemorySanitizer instrumentation.
//!
//! The pass declares the MSan runtime functions, adds `__msan_module_ctor`
//! calling `__msan_init`, and instruments every defined function: right
//! after every `alloca` a call of `__msan_poison_stack` on its address and
//! size, right after every load of `N` bytes a call of
//! `__msan_check_shadow{N}` on the pointer (as a 64-bit integer), and right
//! before every store of `N` bytes a call of `__msan_store_shadow{N}`; `N` is
//! 1, 2, 4 or 8, and any other width uses 4.

use vstd::prelude::*;
use crate::ir::{
    ids_in_range, BlockView, ConstId, ConstantData, Context, FuncView, Function, GlobalId, InstrId, InstrKind, KindView, Module,
    TailCallKind, TypeData, TypeId, ValueRef,
};
use crate::strings::str_equal;
use crate::transforms::tailcall::module_names;
use crate::ubsan::declare_if_missing;
use crate::tsan::{
    access_types_known, collect_mem_accesses, first_named, get_function_id, insert_probe, mem_site_before, mem_sites,
    add_module_ctor, declared_from, lemma_access_types_push, lemma_declared_from_shape, size_or_four, type_size_bytes, with_ctor,
    with_probe, MemSite,
};

verus! {

/// Name of the MSan runtime function for a load (shadow check) or a store
/// (shadow mark) of `bytes` bytes.
pub open spec fn msan_runtime(is_load: bool, bytes: u64) -> Seq<char> {
    if is_load {
        if bytes == 1 {
            "__msan_check_shadow1"@
        } else if bytes == 2 {
            "__msan_check_shadow2"@
        } else if bytes == 8 {
            "__msan_check_shadow8"@
        } else {
            "__msan_check_shadow4"@
        }
    } else {
        if bytes == 1 {
            "__msan_store_shadow1"@
        } else if bytes == 2 {
            "__msan_store_shadow2"@
        } else if bytes == 8 {
            "__msan_store_shadow8"@
        } else {
            "__msan_store_shadow4"@
        }
    }
}

fn msan_runtime_name(is_load: bool, bytes: u64) -> (r: &'static str)
    ensures
        r@ == msan_runtime(is_load, bytes),
{
    if is_load {
        if bytes == 1 {
            "__msan_check_shadow1"
        } else if bytes == 2 {
            "__msan_check_shadow2"
        } else if bytes == 8 {
            "__msan_check_shadow8"
        } else {
            "__msan_check_shadow4"
        }
    } else {
        if bytes == 1 {
            "__msan_store_shadow1"
        } else if bytes == 2 {
            "__msan_store_shadow2"
        } else if bytes == 8 {
            "__msan_store_shadow8"
        } else {
            "__msan_store_shadow4"
        }
    }
}

/// Apply the MSan probes for `s[k - 1]`, ..., `s[0]`: after a load, the
/// `ptrtoint` and the shadow check follow it; before a store, the
/// `ptrtoint` and the shadow mark precede it. A site whose runtime function
/// the module does not declare is left alone.
pub open spec fn msan_apply(f: FuncView, names: Seq<Seq<char>>, s: Seq<MemSite>, k: int) -> FuncView
    decreases k,
{
    if k <= 0 {
        f
    } else {
        let site = s[k - 1];
        let p = site.1 as int;
        let f1 = match first_named(names, msan_runtime(site.2, site.3), 0) {
            Some(g) => if site.2 {
                with_probe(f, site.0 as int, p + 1, site.4, g as u32)
            } else {
                with_probe(f, site.0 as int, p, site.4, g as u32)
            },
            None => f,
        };
        msan_apply(f1, names, s, k - 1)
    }
}

/// Function `fid` of module `m` after MSan load/store instrumentation.
pub open spec fn msan_instrumented(m: Seq<FuncView>, fid: int, types: Seq<TypeData>) -> FuncView {
    let s = mem_sites(m[fid], types);
    msan_apply(m[fid], module_names(m), s, s.len() as int)
}

/// Whether MSan instrumentation of function `fid` inserts any probe.
pub open spec fn msan_changes(m: Seq<FuncView>, fid: int, types: Seq<TypeData>) -> bool {
    let s = mem_sites(m[fid], types);
    exists|k: int| 0 <= k < s.len() && #[trigger] first_named(module_names(m), msan_runtime(s[k].2, s[k].3), 0) is Some
}

/// Check the shadow after every load and mark it before every store of
/// function `fid`, for each access whose runtime function the module
/// declares. Returns whether any probe was inserted.
pub fn instrument_memory_accesses(ctx: &Context, module: &mut Module, fid: usize) -> (changed: bool)
    requires
        fid < old(module)@.len(),
        old(module)@.len() < u32::MAX,
        ids_in_range(old(module)@[fid as int]),
        access_types_known(old(module)@[fid as int], ctx.types@.len()),
        old(module)@[fid as int].instrs.len() + 2 * mem_sites(old(module)@[fid as int], ctx.types@).len() + 2 < u32::MAX,
    ensures
        final(module)@ == old(module)@.update(fid as int, msan_instrumented(old(module)@, fid as int, ctx.types@)),
        changed == msan_changes(old(module)@, fid as int, ctx.types@),
{
    let ghost m0 = module@;
    let ghost names = module_names(m0);
    assert(module@[fid as int] == module.functions@[fid as int]@);
    let sites = collect_mem_accesses(ctx, &module.functions[fid]);
    let total = sites.len();
    let ghost s = sites@;
    let mut any = false;
    let mut i: usize = total;
    while i > 0
        invariant
            i <= total,
            total == s.len(),
            s == sites@,
            s == mem_sites(m0[fid as int], ctx.types@),
            fid < m0.len(),
            m0.len() < u32::MAX,
            module@.len() == m0.len(),
            forall|j: int| 0 <= j < m0.len() && j != fid ==> #[trigger] module@[j] == m0[j],
            module@[fid as int].name == m0[fid as int].name,
            names == module_names(m0),
            msan_apply(m0[fid as int], names, s, total as int) == msan_apply(module@[fid as int], names, s, i as int),
            module@[fid as int].instrs.len() + 2 * i + 2 < u32::MAX,
            forall|j: int, k: int| 0 <= j < k < s.len() ==> mem_site_before(#[trigger] s[j], #[trigger] s[k]),
            forall|j: int|
                0 <= j < i ==> (#[trigger] s[j]).0 < module@[fid as int].blocks.len() && s[j].1 < module@[fid as int].blocks[s[j].0 as int].body.len(),
            any == (exists|k: int| i <= k < total && #[trigger] first_named(names, msan_runtime(s[k].2, s[k].3), 0) is Some),
        decreases i,
    {
        let (b, p, is_load, bytes, ptr) = sites[i - 1];
        assert(s[i - 1] == (b, p, is_load, bytes, ptr));
        assert(module_names(module@) =~= names) by {
            assert forall|j: int| 0 <= j < m0.len() implies module_names(module@)[j] == names[j] by {
                if j != fid {
                    assert(module@[j] == m0[j]);
                }
            }
        }
        let callee = get_function_id(module, msan_runtime_name(is_load, bytes));
        if let Some(g) = callee {
            assert(module@[fid as int] == module.functions@[fid as int]@);
            assert(module@[fid as int].blocks[b as int] == module.functions@[fid as int].blocks@[b as int]@);
            let blen = module.functions[fid].blocks[b].body.len();
            let ghost before = module.functions@;
            let ghost mv = module@;
            if is_load {
                insert_probe(&mut module.functions[fid], b, p + 1, ptr, g as u32);
            } else {
                insert_probe(&mut module.functions[fid], b, p, ptr, g as u32);
            }
            proof {
                assert forall|j: int| 0 <= j < m0.len() && j != fid implies #[trigger] module@[j] == m0[j] by {
                    assert(module.functions@[j] == before[j]);
                    assert(module@[j] == module.functions@[j]@);
                    assert(mv[j] == before[j]@);
                    assert(mv[j] == m0[j]);
                }
                assert(module@[fid as int] == module.functions@[fid as int]@);
            }
            any = true;
        }
        proof {
            assert forall|j: int| 0 <= j < i - 1 implies (#[trigger] s[j]).0 < module@[fid as int].blocks.len()
                && s[j].1 < module@[fid as int].blocks[s[j].0 as int].body.len() by {
                assert(mem_site_before(s[j], s[i - 1]));
            }
        }
        i = i - 1;
    }
    proof {
        assert(module@ =~= m0.update(fid as int, msan_instrumented(m0, fid as int, ctx.types@)));
    }
    any
}

// ── stack poisoning ────────────────────────────────────────────────────────

/// The type of every listed `alloca` is in the type table.
pub open spec fn alloca_types_known(f: FuncView, ntypes: nat) -> bool {
    forall|i: int|
        0 <= i < f.instrs.len() ==> match #[trigger] f.instrs[i] {
            KindView::Alloca { ty, .. } => ty.0 < ntypes,
            _ => true,
        }
}

/// An `alloca` site: block, body position, the `alloca`, and the size in
/// bytes of the allocated type (4 when it has none).
pub type AllocaSite = (usize, usize, InstrId, u64);

/// `alloca` sites among the first `m` body positions of block `b`.
pub open spec fn alloca_sites_in_block(f: FuncView, types: Seq<TypeData>, b: int, m: int) -> Seq<AllocaSite>
    decreases m,
{
    if m <= 0 {
        Seq::empty()
    } else {
        let prev = alloca_sites_in_block(f, types, b, m - 1);
        let id = f.blocks[b].body[m - 1];
        match f.instrs[id.0 as int] {
            KindView::Alloca { ty, .. } => prev.push((b as usize, (m - 1) as usize, id, size_or_four(types, ty))),
            _ => prev,
        }
    }
}

/// `alloca` sites of the first `n` blocks, in block then position order.
pub open spec fn alloca_sites_upto(f: FuncView, types: Seq<TypeData>, n: int) -> Seq<AllocaSite>
    decreases n,
{
    if n <= 0 {
        Seq::empty()
    } else {
        alloca_sites_upto(f, types, n - 1) + alloca_sites_in_block(f, types, n - 1, f.blocks[n - 1].body.len() as int)
    }
}

/// Every `alloca` of `f`, in block then position order.
pub open spec fn alloca_sites(f: FuncView, types: Seq<TypeData>) -> Seq<AllocaSite> {
    alloca_sites_upto(f, types, f.blocks.len() as int)
}

/// Alloca-site `x` comes before `y` in block then position order.
pub open spec fn alloca_site_before(x: AllocaSite, y: AllocaSite) -> bool {
    x.0 < y.0 || (x.0 == y.0 && x.1 < y.1)
}

/// `f` with, right after body position `p` of block `b`, `ptrtoint` of
/// `alloca` `a` and a call of global `g` on it and constant `c`.
pub open spec fn with_poison(f: FuncView, b: int, p: int, a: InstrId, c: ConstId, g: u32) -> FuncView {
    let n = f.instrs.len();
    FuncView {
        instrs: f.instrs.push(KindView::PtrToInt { val: ValueRef::Instruction(a) }).push(
            KindView::Call {
                tail: TailCallKind::Unmarked,
                callee: ValueRef::Global(GlobalId(g)),
                args: seq![ValueRef::Instruction(InstrId(n as u32)), ValueRef::Constant(c)],
            },
        ),
        blocks: f.blocks.update(
            b,
            BlockView { body: f.blocks[b].body.insert(p + 1, InstrId(n as u32)).insert(p + 2, InstrId((n + 1) as u32)), ..f.blocks[b] },
        ),
        ..f
    }
}

/// Apply the poisoning for `s[k - 1]`, ..., `s[0]`: each adds the `i64`
/// constant holding the size to the pool and inserts the probe after the
/// `alloca`.
pub open spec fn poison_apply(
    f: FuncView,
    c: Seq<ConstantData>,
    s: Seq<AllocaSite>,
    k: int,
    g: u32,
    i64_ty: TypeId,
) -> (FuncView, Seq<ConstantData>)
    decreases k,
{
    if k <= 0 {
        (f, c)
    } else {
        let site = s[k - 1];
        poison_apply(
            with_poison(f, site.0 as int, site.1 as int, site.2, ConstId(c.len() as u32), g),
            c.push(ConstantData::Int { ty: i64_ty, val: site.3 }),
            s,
            k - 1,
            g,
            i64_ty,
        )
    }
}

/// Function `fid` of `m` and the constant pool after stack poisoning: with
/// `__msan_poison_stack` declared and at least one `alloca`, every `alloca`
/// is followed by the call; otherwise nothing changes.
pub open spec fn allocas_poisoned(m: Seq<FuncView>, fid: int, c: Seq<ConstantData>, types: Seq<TypeData>, i64_ty: TypeId) -> (
    FuncView,
    Seq<ConstantData>,
) {
    let s = alloca_sites(m[fid], types);
    match first_named(module_names(m), "__msan_poison_stack"@, 0) {
        Some(g) => poison_apply(m[fid], c, s, s.len() as int, g as u32, i64_ty),
        None => (m[fid], c),
    }
}

fn collect_allocas(ctx: &Context, func: &Function) -> (sites: Vec<AllocaSite>)
    requires
        ids_in_range(func@),
        alloca_types_known(func@, ctx.types@.len()),
    ensures
        sites@ == alloca_sites(func@, ctx.types@),
        forall|j: int, k: int| 0 <= j < k < sites@.len() ==> alloca_site_before(#[trigger] sites@[j], #[trigger] sites@[k]),
        forall|j: int|
            0 <= j < sites@.len() ==> (#[trigger] sites@[j]).0 < func@.blocks.len() && sites@[j].1 < func@.blocks[sites@[j].0 as int].body.len(),
{
    let mut sites: Vec<AllocaSite> = Vec::new();
    let n = func.blocks.len();
    let mut bi: usize = 0;
    while bi < n
        invariant
            n == func@.blocks.len(),
            ids_in_range(func@),
            alloca_types_known(func@, ctx.types@.len()),
            bi <= n,
            sites@ == alloca_sites_upto(func@, ctx.types@, bi as int),
            forall|j: int, k: int| 0 <= j < k < sites@.len() ==> alloca_site_before(#[trigger] sites@[j], #[trigger] sites@[k]),
            forall|j: int|
                0 <= j < sites@.len() ==> (#[trigger] sites@[j]).0 < bi && sites@[j].1 < func@.blocks[sites@[j].0 as int].body.len(),
        decreases n - bi,
    {
        assert(func@.blocks[bi as int] == func.blocks@[bi as int]@);
        let m = func.blocks[bi].body.len();
        let ghost start = sites@;
        let mut pos: usize = 0;
        while pos < m
            invariant
                n == func@.blocks.len(),
                ids_in_range(func@),
                alloca_types_known(func@, ctx.types@.len()),
                bi < n,
                m == func@.blocks[bi as int].body.len(),
                pos <= m,
                start == alloca_sites_upto(func@, ctx.types@, bi as int),
                sites@ == start + alloca_sites_in_block(func@, ctx.types@, bi as int, pos as int),
                forall|j: int, k: int| 0 <= j < k < sites@.len() ==> alloca_site_before(#[trigger] sites@[j], #[trigger] sites@[k]),
                forall|j: int|
                    0 <= j < sites@.len() ==> ((#[trigger] sites@[j]).0 < bi || (sites@[j].0 == bi && sites@[j].1 < pos))
                        && sites@[j].1 < func@.blocks[sites@[j].0 as int].body.len(),
            decreases m - pos,
        {
            let iid = func.blocks[bi].body[pos];
            assert(func@.blocks[bi as int].body[pos as int] == iid);
            assert((iid.0 as int) < func@.instrs.len());
            assert(func@.instrs[iid.0 as int] == func.instructions@[iid.0 as int]@);
            if let InstrKind::Alloca { ty, .. } = &func.instructions[iid.0 as usize] {
                let size = match type_size_bytes(ctx, *ty) {
                    Some(b) => b,
                    None => 4,
                };
                sites.push((bi, pos, iid, size));
                assert(sites@ =~= start + alloca_sites_in_block(func@, ctx.types@, bi as int, pos + 1));
            } else {
                assert(sites@ =~= start + alloca_sites_in_block(func@, ctx.types@, bi as int, pos + 1));
            }
            pos = pos + 1;
        }
        assert(sites@ =~= alloca_sites_upto(func@, ctx.types@, bi + 1));
        bi = bi + 1;
    }
    sites
}

proof fn lemma_poison_keeps(f: FuncView, b: int, p: int, a: InstrId, c: ConstId, g: u32, ntypes: nat)
    requires
        ids_in_range(f),
        0 <= b < f.blocks.len(),
        0 <= p < f.blocks[b].body.len(),
    ensures
        ids_in_range(with_poison(f, b, p, a, c, g)),
        access_types_known(f, ntypes) ==> access_types_known(with_poison(f, b, p, a, c, g), ntypes),
{
    let w = with_poison(f, b, p, a, c, g);
    let n = f.instrs.len();
    let body1 = f.blocks[b].body.insert(p + 1, InstrId(n as u32));
    assert forall|cb: int| 0 <= cb < w.blocks.len() implies {
        &&& (forall|k: int| 0 <= k < (#[trigger] w.blocks[cb]).body.len() ==> w.blocks[cb].body[k].0 < w.instrs.len())
        &&& (w.blocks[cb].terminator matches Some(t) ==> t.0 < w.instrs.len())
    } by {
        if cb == b {
            assert forall|k: int| 0 <= k < body1.len() implies body1[k].0 < w.instrs.len() by {
                if k < p + 1 {
                    assert(body1[k] == f.blocks[b].body[k]);
                } else if k > p + 1 {
                    assert(body1[k] == f.blocks[b].body[k - 1]);
                }
            }
            assert forall|k: int| 0 <= k < w.blocks[cb].body.len() implies w.blocks[cb].body[k].0 < w.instrs.len() by {
                if k < p + 2 {
                    assert(w.blocks[cb].body[k] == body1[k]);
                } else if k > p + 2 {
                    assert(w.blocks[cb].body[k] == body1[k - 1]);
                }
            }
        } else {
            assert(w.blocks[cb] == f.blocks[cb]);
        }
    }
    if access_types_known(f, ntypes) {
        lemma_access_types_push(f, w, ntypes);
    }
}

fn insert_poison(func: &mut Function, b: usize, p: usize, a: InstrId, c: ConstId, g: u32)
    requires
        b < old(func)@.blocks.len(),
        p < old(func)@.blocks[b as int].body.len(),
        old(func)@.instrs.len() + 2 < u32::MAX,
    ensures
        final(func)@ == with_poison(old(func)@, b as int, p as int, a, c, g),
{
    let ghost f0 = func@;
    assert(func@.blocks[b as int] == func.blocks@[b as int]@);
    let len0 = func.blocks[b].body.len();
    assert(p < len0);
    assert(func.instructions@.len() == func@.instrs.len());
    let int_id = func.alloc_instr(InstrKind::PtrToInt { val: ValueRef::Instruction(a) });
    let mut args: Vec<ValueRef> = Vec::new();
    args.push(ValueRef::Instruction(int_id));
    args.push(ValueRef::Constant(c));
    let call_kind = InstrKind::Call { tail: TailCallKind::Unmarked, callee: ValueRef::Global(GlobalId(g)), args };
    assert(call_kind@->Call_args =~= seq![ValueRef::Instruction(int_id), ValueRef::Constant(c)]);
    assert(func.instructions@.len() == func@.instrs.len());
    let call_id = func.alloc_instr(call_kind);
    assert(func.blocks@.len() == func@.blocks.len());
    func.insert_body(b, p + 1, int_id);
    assert(func.blocks@.len() == func@.blocks.len());
    assert(func@.blocks[b as int] == func.blocks@[b as int]@);
    let len_now = func.blocks[b].body.len();
    assert(p + 1 < len_now);
    func.insert_body(b, p + 2, call_id);
    proof {
        let w = with_poison(f0, b as int, p as int, a, c, g);
        assert(func@.instrs =~= w.instrs);
        assert(func@.blocks =~= w.blocks);
    }
}

/// Right after every `alloca` of function `fid`, call
/// `__msan_poison_stack(address, size)`, the size in bytes of the allocated
/// type as an `i64` constant. Returns whether any call was inserted.
pub fn instrument_allocas(ctx: &mut Context, module: &mut Module, fid: usize) -> (changed: bool)
    requires
        fid < old(module)@.len(),
        old(module)@.len() < u32::MAX,
        ids_in_range(old(module)@[fid as int]),
        alloca_types_known(old(module)@[fid as int], old(ctx).types@.len()),
        old(module)@[fid as int].instrs.len() + 2 * alloca_sites(old(module)@[fid as int], old(ctx).types@).len() + 2 < u32::MAX,
        old(ctx).constants@.len() + alloca_sites(old(module)@[fid as int], old(ctx).types@).len() < u32::MAX,
    ensures
        final(module)@ == old(module)@.update(
            fid as int,
            allocas_poisoned(old(module)@, fid as int, old(ctx).constants@, old(ctx).types@, old(ctx).i64_ty).0,
        ),
        final(ctx).constants@ == allocas_poisoned(old(module)@, fid as int, old(ctx).constants@, old(ctx).types@, old(ctx).i64_ty).1,
        final(ctx).types@ == old(ctx).types@,
        final(ctx).i64_ty == old(ctx).i64_ty,
        changed == (first_named(module_names(old(module)@), "__msan_poison_stack"@, 0) is Some && alloca_sites(
            old(module)@[fid as int],
            old(ctx).types@,
        ).len() > 0),
        ids_in_range(final(module)@[fid as int]),
        access_types_known(old(module)@[fid as int], old(ctx).types@.len()) ==> access_types_known(
            final(module)@[fid as int],
            old(ctx).types@.len(),
        ),
{
    let ghost m0 = module@;
    let ghost c0 = ctx.constants@;
    let ghost types = ctx.types@;
    let poison_fid = match get_function_id(module, "__msan_poison_stack") {
        Some(id) => id,
        None => {
            assert(module@ =~= m0.update(fid as int, m0[fid as int]));
            return false;
        },
    };
    assert(module@[fid as int] == module.functions@[fid as int]@);
    let sites = collect_allocas(ctx, &module.functions[fid]);
    if sites.len() == 0 {
        assert(module@ =~= m0.update(fid as int, m0[fid as int]));
        return false;
    }
    let g = poison_fid as u32;
    let i64_ty = ctx.i64_ty;
    let total = sites.len();
    let ghost s = sites@;
    let mut i: usize = total;
    while i > 0
        invariant
            i <= total,
            total == s.len(),
            s == sites@,
            s == alloca_sites(m0[fid as int], types),
            fid < m0.len(),
            module@.len() == m0.len(),
            forall|j: int| 0 <= j < m0.len() && j != fid ==> #[trigger] module@[j] == m0[j],
            ctx.types@ == types,
            ctx.i64_ty == i64_ty,
            ids_in_range(module@[fid as int]),
            access_types_known(m0[fid as int], types.len()) ==> access_types_known(module@[fid as int], types.len()),
            poison_apply(m0[fid as int], c0, s, total as int, g, i64_ty) == poison_apply(
                module@[fid as int],
                ctx.constants@,
                s,
                i as int,
                g,
                i64_ty,
            ),
            module@[fid as int].instrs.len() + 2 * i + 2 < u32::MAX,
            ctx.constants@.len() + i < u32::MAX,
            forall|j: int, k: int| 0 <= j < k < s.len() ==> alloca_site_before(#[trigger] s[j], #[trigger] s[k]),
            forall|j: int|
                0 <= j < i ==> (#[trigger] s[j]).0 < module@[fid as int].blocks.len() && s[j].1 < module@[fid as int].blocks[s[j].0 as int].body.len(),
        decreases i,
    {
        let (b, p, a, size) = sites[i - 1];
        assert(s[i - 1] == (b, p, a, size));
        let c = ctx.const_int(i64_ty, size);
        let ghost before = module.functions@;
        let ghost mv = module@;
        assert(module@[fid as int] == module.functions@[fid as int]@);
        insert_poison(&mut module.functions[fid], b, p, a, c, g);
        proof {
            lemma_poison_keeps(mv[fid as int], b as int, p as int, a, c, g, types.len());
            assert forall|j: int| 0 <= j < m0.len() && j != fid implies #[trigger] module@[j] == m0[j] by {
                assert(module.functions@[j] == before[j]);
                assert(module@[j] == module.functions@[j]@);
                assert(mv[j] == before[j]@);
            }
            assert(module@[fid as int] == module.functions@[fid as int]@);
            assert forall|j: int| 0 <= j < i - 1 implies (#[trigger] s[j]).0 < module@[fid as int].blocks.len()
                && s[j].1 < module@[fid as int].blocks[s[j].0 as int].body.len() by {
                assert(alloca_site_before(s[j], s[i - 1]));
            }
        }
        i = i - 1;
    }
    proof {
        assert(module@ =~= m0.update(fid as int, allocas_poisoned(m0, fid as int, c0, types, i64_ty).0));
    }
    true
}

// ── the per-function pass ──────────────────────────────────────────────────

/// The module and constant pool after each MSan step on function `fid`:
/// stack poisoning, then the load/store probes.
pub open spec fn msan_steps(m: Seq<FuncView>, fid: int, c: Seq<ConstantData>, types: Seq<TypeData>, i64_ty: TypeId) -> (
    Seq<FuncView>,
    Seq<ConstantData>,
    Seq<FuncView>,
) {
    let (f1, c1) = allocas_poisoned(m, fid, c, types, i64_ty);
    let m1 = m.update(fid, f1);
    (m1, c1, m1.update(fid, msan_instrumented(m1, fid, types)))
}

/// The ids the MSan steps on function `fid` hand out fit in 32 bits.
pub open spec fn msan_ids_fit(m: Seq<FuncView>, fid: int, c: Seq<ConstantData>, types: Seq<TypeData>, i64_ty: TypeId) -> bool {
    let (m1, c1, m2) = msan_steps(m, fid, c, types, i64_ty);
    &&& m.len() < u32::MAX
    &&& m[fid].instrs.len() + 2 * alloca_sites(m[fid], types).len() + 2 < u32::MAX
    &&& c.len() + alloca_sites(m[fid], types).len() < u32::MAX
    &&& m1[fid].instrs.len() + 2 * mem_sites(m1[fid], types).len() + 2 < u32::MAX
}

/// MSan instrumentation of function `fid`: stack poisoning, then shadow
/// checks and marks. Returns whether anything changed.
pub fn instrument_function(ctx: &mut Context, module: &mut Module, fid: usize) -> (changed: bool)
    requires
        fid < old(module)@.len(),
        ids_in_range(old(module)@[fid as int]),
        alloca_types_known(old(module)@[fid as int], old(ctx).types@.len()),
        access_types_known(old(module)@[fid as int], old(ctx).types@.len()),
        msan_ids_fit(old(module)@, fid as int, old(ctx).constants@, old(ctx).types@, old(ctx).i64_ty),
    ensures
        final(module)@ == msan_steps(old(module)@, fid as int, old(ctx).constants@, old(ctx).types@, old(ctx).i64_ty).2,
        final(ctx).constants@ == msan_steps(old(module)@, fid as int, old(ctx).constants@, old(ctx).types@, old(ctx).i64_ty).1,
        changed == ((first_named(module_names(old(module)@), "__msan_poison_stack"@, 0) is Some && alloca_sites(
            old(module)@[fid as int],
            old(ctx).types@,
        ).len() > 0) || msan_changes(
            msan_steps(old(module)@, fid as int, old(ctx).constants@, old(ctx).types@, old(ctx).i64_ty).0,
            fid as int,
            old(ctx).types@,
        )),
        final(ctx).types@ == old(ctx).types@,
        final(ctx).i64_ty == old(ctx).i64_ty,
{
    let a = instrument_allocas(ctx, module, fid);
    let b = instrument_memory_accesses(ctx, module, fid);
    a || b
}

// ── the module pass ────────────────────────────────────────────────────────

/// Names of the MSan runtime functions, in declaration order.
pub open spec fn msan_runtime_names() -> Seq<Seq<char>> {
    seq![
        "__msan_init"@,
        "__msan_warning_noreturn"@,
        "__msan_poison_stack"@,
        "__msan_check_shadow1"@,
        "__msan_check_shadow2"@,
        "__msan_check_shadow4"@,
        "__msan_check_shadow8"@,
        "__msan_store_shadow1"@,
        "__msan_store_shadow2"@,
        "__msan_store_shadow4"@,
        "__msan_store_shadow8"@,
    ]
}

proof fn lemma_msan_runtime_names()
    ensures
        msan_runtime_names().len() == 11,
        msan_runtime_names()[0] == "__msan_init"@,
        msan_runtime_names()[1] == "__msan_warning_noreturn"@,
        msan_runtime_names()[2] == "__msan_poison_stack"@,
        msan_runtime_names()[3] == "__msan_check_shadow1"@,
        msan_runtime_names()[4] == "__msan_check_shadow2"@,
        msan_runtime_names()[5] == "__msan_check_shadow4"@,
        msan_runtime_names()[6] == "__msan_check_shadow8"@,
        msan_runtime_names()[7] == "__msan_store_shadow1"@,
        msan_runtime_names()[8] == "__msan_store_shadow2"@,
        msan_runtime_names()[9] == "__msan_store_shadow4"@,
        msan_runtime_names()[10] == "__msan_store_shadow8"@,
{
}

/// Declare every MSan runtime function that `module` lacks, in order.
pub fn ensure_declarations(module: &mut Module)
    ensures
        final(module)@ == declared_from(old(module)@, msan_runtime_names(), 11),
{
    let ghost m0 = module@;
    let ghost names = msan_runtime_names();
    proof {
        lemma_msan_runtime_names();
    }
    assert(declared_from(m0, names, 0) == m0);
    declare_if_missing(module, "__msan_init");
    assert(module@ == declared_from(m0, names, 1));
    declare_if_missing(module, "__msan_warning_noreturn");
    assert(module@ == declared_from(m0, names, 2));
    declare_if_missing(module, "__msan_poison_stack");
    assert(module@ == declared_from(m0, names, 3));
    declare_if_missing(module, "__msan_check_shadow1");
    assert(module@ == declared_from(m0, names, 4));
    declare_if_missing(module, "__msan_check_shadow2");
    assert(module@ == declared_from(m0, names, 5));
    declare_if_missing(module, "__msan_check_shadow4");
    assert(module@ == declared_from(m0, names, 6));
    declare_if_missing(module, "__msan_check_shadow8");
    assert(module@ == declared_from(m0, names, 7));
    declare_if_missing(module, "__msan_store_shadow1");
    assert(module@ == declared_from(m0, names, 8));
    declare_if_missing(module, "__msan_store_shadow2");
    assert(module@ == declared_from(m0, names, 9));
    declare_if_missing(module, "__msan_store_shadow4");
    assert(module@ == declared_from(m0, names, 10));
    declare_if_missing(module, "__msan_store_shadow8");
    assert(module@ == declared_from(m0, names, 11));
}

/// The MSan pass leaves declarations and its own constructor alone.
pub open spec fn msan_skips(f: FuncView) -> bool {
    f.is_declaration || f.name == "__msan_module_ctor"@
}

/// The module and constant pool after the per-function steps ran over the
/// first `i` functions, in order.
pub open spec fn msan_fold(m: Seq<FuncView>, c: Seq<ConstantData>, types: Seq<TypeData>, i64_ty: TypeId, i: int) -> (
    Seq<FuncView>,
    Seq<ConstantData>,
)
    decreases i,
{
    if i <= 0 {
        (m, c)
    } else {
        let (mm, cc) = msan_fold(m, c, types, i64_ty, i - 1);
        if msan_skips(m[i - 1]) {
            (mm, cc)
        } else {
            let (m1, c1, m2) = msan_steps(mm, i - 1, cc, types, i64_ty);
            (m2, c1)
        }
    }
}

proof fn lemma_msan_fold_shape(m: Seq<FuncView>, c: Seq<ConstantData>, types: Seq<TypeData>, i64_ty: TypeId, i: int)
    requires
        0 <= i <= m.len(),
    ensures
        msan_fold(m, c, types, i64_ty, i).0.len() == m.len(),
        forall|j: int| i <= j < m.len() ==> #[trigger] msan_fold(m, c, types, i64_ty, i).0[j] == m[j],
    decreases i,
{
    if i > 0 {
        lemma_msan_fold_shape(m, c, types, i64_ty, i - 1);
    }
}

/// The module after declarations and the constructor.
pub open spec fn msan_prepared(m: Seq<FuncView>) -> Seq<FuncView> {
    with_ctor(declared_from(m, msan_runtime_names(), 11), "__msan_module_ctor"@, "__msan_init"@)
}

/// Whether the per-function steps on function `fid` change it.
pub open spec fn msan_function_changes(m: Seq<FuncView>, fid: int, c: Seq<ConstantData>, types: Seq<TypeData>, i64_ty: TypeId) -> bool {
    (first_named(module_names(m), "__msan_poison_stack"@, 0) is Some && alloca_sites(m[fid], types).len() > 0) || msan_changes(
        msan_steps(m, fid, c, types, i64_ty).0,
        fid,
        types,
    )
}

/// The ids handed out while instrumenting each function fit in 32 bits.
pub open spec fn msan_module_fits(m: Seq<FuncView>, c: Seq<ConstantData>, types: Seq<TypeData>, i64_ty: TypeId) -> bool {
    let m1 = msan_prepared(m);
    forall|i: int|
        0 <= i < m1.len() && !msan_skips(m1[i]) ==> #[trigger] msan_ids_fit(
            msan_fold(m1, c, types, i64_ty, i).0,
            i,
            msan_fold(m1, c, types, i64_ty, i).1,
            types,
            i64_ty,
        )
}

/// Whether the pass instruments anything.
pub open spec fn msan_module_changes(m: Seq<FuncView>, c: Seq<ConstantData>, types: Seq<TypeData>, i64_ty: TypeId) -> bool {
    let m1 = msan_prepared(m);
    exists|i: int|
        0 <= i < m1.len() && !msan_skips(m1[i]) && #[trigger] msan_function_changes(
            msan_fold(m1, c, types, i64_ty, i).0,
            i,
            msan_fold(m1, c, types, i64_ty, i).1,
            types,
            i64_ty,
        )
}

/// The MemorySanitizer pass.
#[derive(Clone, Copy, Debug, Default)]
pub struct MsanPass;

impl MsanPass {
    /// The pass name.
    pub fn name(&self) -> (s: &'static str)
        ensures
            s@ == "msan"@,
    {
        "msan"
    }

    /// Declare the runtime functions, add `__msan_module_ctor` calling
    /// `__msan_init`, then instrument every function that is not a
    /// declaration nor that constructor. Returns whether any function changed.
    #[verifier::rlimit(60)]
    pub fn run_on_module(&mut self, ctx: &mut Context, module: &mut Module) -> (changed: bool)
        requires
            old(module)@.len() + 12 < u32::MAX,
            forall|i: int| 0 <= i < old(module)@.len() ==> ids_in_range(#[trigger] old(module)@[i]),
            forall|i: int| 0 <= i < old(module)@.len() ==> access_types_known(#[trigger] old(module)@[i], old(ctx).types@.len()),
            forall|i: int| 0 <= i < old(module)@.len() ==> alloca_types_known(#[trigger] old(module)@[i], old(ctx).types@.len()),
            msan_module_fits(old(module)@, old(ctx).constants@, old(ctx).types@, old(ctx).i64_ty),
        ensures
            final(module)@ == msan_fold(
                msan_prepared(old(module)@),
                old(ctx).constants@,
                old(ctx).types@,
                old(ctx).i64_ty,
                msan_prepared(old(module)@).len() as int,
            ).0,
            final(ctx).constants@ == msan_fold(
                msan_prepared(old(module)@),
                old(ctx).constants@,
                old(ctx).types@,
                old(ctx).i64_ty,
                msan_prepared(old(module)@).len() as int,
            ).1,
            changed == msan_module_changes(old(module)@, old(ctx).constants@, old(ctx).types@, old(ctx).i64_ty),
    {
        let ghost m0 = module@;
        let ghost c0 = ctx.constants@;
        let ghost types = ctx.types@;
        let ghost i64_ty = ctx.i64_ty;
        ensure_declarations(module);
        proof {
            lemma_declared_from_shape(m0, msan_runtime_names(), 11);
        }
        let ghost md = module@;
        add_module_ctor(module, "__msan_module_ctor", "__msan_init");
        let ghost m1 = module@;
        assert(m1 == msan_prepared(m0));
        let n = module.functions.len();
        let mut changed = false;
        let mut fi: usize = 0;
        while fi < n
            invariant
                n == m1.len(),
                m1 == msan_prepared(m0),
                md == declared_from(m0, msan_runtime_names(), 11),
                m1 == with_ctor(md, "__msan_module_ctor"@, "__msan_init"@),
                m0.len() <= md.len() <= m0.len() + 11,
                forall|i: int| 0 <= i < m0.len() ==> #[trigger] md[i] == m0[i],
                forall|i: int| m0.len() <= i < md.len() ==> (#[trigger] md[i]).is_declaration && md[i].blocks.len() == 0 && md[i].instrs.len() == 0,
                forall|i: int| 0 <= i < m0.len() ==> ids_in_range(#[trigger] m0[i]),
                forall|i: int| 0 <= i < m0.len() ==> access_types_known(#[trigger] m0[i], types.len()),
                forall|i: int| 0 <= i < m0.len() ==> alloca_types_known(#[trigger] m0[i], types.len()),
                msan_module_fits(m0, c0, types, i64_ty),
                ctx.types@ == types,
                ctx.i64_ty == i64_ty,
                fi <= n,
                module@ == msan_fold(m1, c0, types, i64_ty, fi as int).0,
                ctx.constants@ == msan_fold(m1, c0, types, i64_ty, fi as int).1,
                changed == (exists|j: int|
                    0 <= j < fi && !msan_skips(m1[j]) && #[trigger] msan_function_changes(
                        msan_fold(m1, c0, types, i64_ty, j).0,
                        j,
                        msan_fold(m1, c0, types, i64_ty, j).1,
                        types,
                        i64_ty,
                    )),
            decreases n - fi,
        {
            proof {
                lemma_msan_fold_shape(m1, c0, types, i64_ty, fi as int);
            }
            assert(module@[fi as int] == module.functions@[fi as int]@);
            assert(module@[fi as int] == m1[fi as int]);
            let skip = module.functions[fi].is_declaration || str_equal(module.functions[fi].name.as_str(), "__msan_module_ctor");
            assert(skip == msan_skips(m1[fi as int]));
            if !skip {
                proof {
                    if fi < md.len() {
                        assert(m1[fi as int] == md[fi as int]);
                        if fi < m0.len() {
                            assert(md[fi as int] == m0[fi as int]);
                        }
                    } else {
                        assert(m1[fi as int].name == "__msan_module_ctor"@);
                    }
                    assert(ids_in_range(m1[fi as int]));
                    assert(access_types_known(m1[fi as int], types.len()));
                    assert(alloca_types_known(m1[fi as int], types.len()));
                }
                let ghost st = msan_fold(m1, c0, types, i64_ty, fi as int);
                let ch = instrument_function(ctx, module, fi);
                assert(ch == msan_function_changes(st.0, fi as int, st.1, types, i64_ty));
                changed = changed || ch;
            }
            proof {
                if changed {
                    if exists|j: int|
                        0 <= j < fi && !msan_skips(m1[j]) && #[trigger] msan_function_changes(
                            msan_fold(m1, c0, types, i64_ty, j).0,
                            j,
                            msan_fold(m1, c0, types, i64_ty, j).1,
                            types,
                            i64_ty,
                        ) {
                        let w = choose|j: int|
                            0 <= j < fi && !msan_skips(m1[j]) && #[trigger] msan_function_changes(
                                msan_fold(m1, c0, types, i64_ty, j).0,
                                j,
                                msan_fold(m1, c0, types, i64_ty, j).1,
                                types,
                                i64_ty,
                            );
                        assert(0 <= w < fi + 1);
                    }
                }
                if exists|j: int|
                    0 <= j < fi + 1 && !msan_skips(m1[j]) && #[trigger] msan_function_changes(
                        msan_fold(m1, c0, types, i64_ty, j).0,
                        j,
                        msan_fold(m1, c0, types, i64_ty, j).1,
                        types,
                        i64_ty,
                    ) {
                    let w = choose|j: int|
                        0 <= j < fi + 1 && !msan_skips(m1[j]) && #[trigger] msan_function_changes(
                            msan_fold(m1, c0, types, i64_ty, j).0,
                            j,
                            msan_fold(m1, c0, types, i64_ty, j).1,
                            types,
                            i64_ty,
                        );
                    if w < fi {
                        assert(exists|j: int|
                            0 <= j < fi && !msan_skips(m1[j]) && #[trigger] msan_function_changes(
                                msan_fold(m1, c0, types, i64_ty, j).0,
                                j,
                                msan_fold(m1, c0, types, i64_ty, j).1,
                                types,
                                i64_ty,
                            ));
                    }
                }
            }
            fi = fi + 1;
        }
        changed
    }
}

/// The MemorySanitizer routine for an access: a shadow check for a load and a shadow store for a store, whose name ends in the access size in bytes
/// (1, 2, 4 or 8; an access of any other size is handled as a 4-byte one).
pub proof fn lemma_msan_runtime_routine(is_load: bool, bytes: u64)
    ensures
        ({
            let name = msan_runtime(is_load, bytes);
            let prefix = if is_load {
                "__msan_check_shadow"@
            } else {
                "__msan_store_shadow"@
            };
            let size: int = if bytes == 1 || bytes == 2 || bytes == 8 {
                bytes as int
            } else {
                4
            };
            &&& name.len() == prefix.len() + 1
            &&& name.subrange(0, prefix.len() as int) == prefix
            &&& name.last() as int == '0' as int + size
        }),
{
    reveal_strlit("__msan_check_shadow1");
    reveal_strlit("__msan_check_shadow2");
    reveal_strlit("__msan_check_shadow4");
    reveal_strlit("__msan_check_shadow8");
    reveal_strlit("__msan_store_shadow1");
    reveal_strlit("__msan_store_shadow2");
    reveal_strlit("__msan_store_shadow4");
    reveal_strlit("__msan_store_shadow8");
    reveal_strlit("__msan_check_shadow");
    reveal_strlit("__msan_store_shadow");
    assert(("__msan_check_shadow1"@).subrange(0, 19) =~= "__msan_check_shadow"@);
    assert(("__msan_check_shadow2"@).subrange(0, 19) =~= "__msan_check_shadow"@);
    assert(("__msan_check_shadow4"@).subrange(0, 19) =~= "__msan_check_shadow"@);
    assert(("__msan_check_shadow8"@).subrange(0, 19) =~= "__msan_check_shadow"@);
    assert(("__msan_store_shadow1"@).subrange(0, 19) =~= "__msan_store_shadow"@);
    assert(("__msan_store_shadow2"@).subrange(0, 19) =~= "__msan_store_shadow"@);
    assert(("__msan_store_shadow4"@).subrange(0, 19) =~= "__msan_store_shadow"@);
    assert(("__msan_store_shadow8"@).subrange(0, 19) =~= "__msan_store_shadow"@);
}

} // verus!
