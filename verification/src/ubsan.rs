//! UndefinedBehaviorSanitizer runtime table and placeholder callee encoding.
//!
//! Per-function instrumentation cannot see the module, so a call to a runtime
//! handler is first emitted with a placeholder global id
//! `PLACEHOLDER_BASE | index`; the module pass later replaces each placeholder
//! with the id of the real declaration.

use vstd::prelude::*;
use crate::ir::{
    ids_in_range, BasicBlock, BinOp, BlockId, BlockView, ConstId, ConstantData, Context, FuncView, Function, GlobalId, InstrId,
    InstrKind, IntPredicate, KindView, Module, TailCallKind, TypeId, ValueRef,
};
use crate::machine::DebugLoc;
use crate::strings::{seq_starts_with, starts_with, str_equal};
use crate::transforms::tailcall::module_names;
use crate::tsan::{first_named, get_function_id, lemma_first_named_range};

verus! {

/// Names of the UBSan runtime handlers, in table order.
pub open spec fn ubsan_runtime_names() -> Seq<Seq<char>> {
    seq![
        "__ubsan_handle_add_overflow"@,
        "__ubsan_handle_sub_overflow"@,
        "__ubsan_handle_mul_overflow"@,
        "__ubsan_handle_null_ptr_deref"@,
        "__ubsan_handle_divrem_overflow"@,
        "__ubsan_handle_builtin_unreachable"@,
    ]
}

/// First position of `name` in the runtime table, if present.
pub open spec fn runtime_index(name: Seq<char>) -> Option<u32> {
    if name == ubsan_runtime_names()[0] {
        Some(0u32)
    } else if name == ubsan_runtime_names()[1] {
        Some(1u32)
    } else if name == ubsan_runtime_names()[2] {
        Some(2u32)
    } else if name == ubsan_runtime_names()[3] {
        Some(3u32)
    } else if name == ubsan_runtime_names()[4] {
        Some(4u32)
    } else if name == ubsan_runtime_names()[5] {
        Some(5u32)
    } else {
        None
    }
}

/// Index of `name` in the runtime table.
pub fn ubsan_fn_index(name: &str) -> (r: Option<u32>)
    ensures
        r == runtime_index(name@),
{
    if str_equal(name, "__ubsan_handle_add_overflow") {
        Some(0)
    } else if str_equal(name, "__ubsan_handle_sub_overflow") {
        Some(1)
    } else if str_equal(name, "__ubsan_handle_mul_overflow") {
        Some(2)
    } else if str_equal(name, "__ubsan_handle_null_ptr_deref") {
        Some(3)
    } else if str_equal(name, "__ubsan_handle_divrem_overflow") {
        Some(4)
    } else if str_equal(name, "__ubsan_handle_builtin_unreachable") {
        Some(5)
    } else {
        None
    }
}

/// First placeholder global id; placeholders are `PLACEHOLDER_BASE | index`.
pub const PLACEHOLDER_BASE: u32 = 0xFFFF_0000;

/// The placeholder global id for runtime handler `name`, if it is one.
pub fn placeholder_callee(name: &str) -> (r: Option<u32>)
    ensures
        r == (match runtime_index(name@) {
            Some(i) => Some((PLACEHOLDER_BASE + i) as u32),
            None => None,
        }),
{
    match ubsan_fn_index(name) {
        Some(i) => {
            assert(PLACEHOLDER_BASE | i == PLACEHOLDER_BASE + i) by (bit_vector)
                requires
                    i < 6,
            ;
            Some(PLACEHOLDER_BASE | i)
        },
        None => None,
    }
}

/// The global id a callee refers to once placeholders are resolved through
/// `table` (handler index to declared id): a placeholder whose index has an
/// entry becomes that entry; every other id stays.
pub open spec fn resolved_id(gid: u32, table: Seq<Option<u32>>) -> u32 {
    if gid >= PLACEHOLDER_BASE && gid - PLACEHOLDER_BASE < table.len() {
        match table[gid - PLACEHOLDER_BASE] {
            Some(decl) => decl,
            None => gid,
        }
    } else {
        gid
    }
}

/// Resolve one callee global id through the table of declared handlers.
pub fn resolve_placeholder(gid: u32, table: &[Option<u32>; 8]) -> (r: u32)
    ensures
        r == resolved_id(gid, table@),
{
    if gid >= PLACEHOLDER_BASE {
        let fn_idx = (gid - PLACEHOLDER_BASE) as usize;
        if fn_idx < table.len() {
            if let Some(real_gid) = table[fn_idx] {
                return real_gid;
            }
        }
    }
    gid
}

/// Instruction `k` with a direct callee resolved through `table` (see
/// `resolved_id`); every other instruction is kept.
pub open spec fn resolve_kind(k: KindView, table: Seq<Option<u32>>) -> KindView {
    match k {
        KindView::Call { tail, callee: ValueRef::Global(GlobalId(g)), args } => KindView::Call {
            tail,
            callee: ValueRef::Global(GlobalId(resolved_id(g, table))),
            args,
        },
        _ => k,
    }
}

/// `f` with the direct callee of every call resolved through `table`.
pub open spec fn resolved_calls(f: FuncView, table: Seq<Option<u32>>) -> FuncView {
    FuncView { instrs: Seq::new(f.instrs.len(), |i: int| resolve_kind(f.instrs[i], table)), ..f }
}

/// Resolve the placeholder callees of `func` through the table of declared
/// handlers, in place.
pub fn apply_resolution_table(func: &mut Function, table: &[Option<u32>; 8])
    requires
        old(func)@.instrs.len() <= u32::MAX,
    ensures
        final(func)@ == resolved_calls(old(func)@, table@),
{
    let ghost f0 = func@;
    let n = func.instructions.len();
    let mut i: usize = 0;
    while i < n
        invariant
            n == f0.instrs.len(),
            n <= u32::MAX,
            i <= n,
            func@.name == f0.name,
            func@.blocks == f0.blocks,
            func@.is_declaration == f0.is_declaration,
            func@.num_args == f0.num_args,
            func@.debug_locs == f0.debug_locs,
            func@.instrs.len() == n,
            forall|j: int| 0 <= j < i ==> #[trigger] func@.instrs[j] == resolve_kind(f0.instrs[j], table@),
            forall|j: int| i <= j < n ==> #[trigger] func@.instrs[j] == f0.instrs[j],
        decreases n - i,
    {
        assert(func@.instrs[i as int] == func.instructions@[i as int]@);
        let replacement: Option<InstrKind> = match &func.instructions[i] {
            InstrKind::Call { tail, callee: ValueRef::Global(GlobalId(g)), args } => {
                let r = resolve_placeholder(*g, table);
                Some(
                    InstrKind::Call {
                        tail: *tail,
                        callee: ValueRef::Global(GlobalId(r)),
                        args: crate::transforms::tailcall::copy_values(args),
                    },
                )
            },
            _ => None,
        };
        match replacement {
            Some(k) => {
                assert(k@ == resolve_kind(f0.instrs[i as int], table@));
                let ghost before = func@;
                func.set_instr(InstrId(i as u32), k);
                assert(func@.instrs == before.instrs.update(i as int, k@));
            },
            None => {
                assert(f0.instrs[i as int] == resolve_kind(f0.instrs[i as int], table@));
            },
        }
        i = i + 1;
    }
    assert(func@.instrs =~= resolved_calls(f0, table@).instrs);
}

/// A placeholder callee emitted for a runtime handler resolves to the
/// declaration that the table lists for that handler, and stays a
/// placeholder when the table lists none.
pub proof fn lemma_placeholder_resolves(name: Seq<char>, table: Seq<Option<u32>>)
    requires
        runtime_index(name) is Some,
        table.len() == 8,
    ensures
        resolved_id((PLACEHOLDER_BASE + runtime_index(name)->0) as u32, table) == match table[runtime_index(name)->0 as int] {
            Some(decl) => decl,
            None => (PLACEHOLDER_BASE + runtime_index(name)->0) as u32,
        },
{
}

// ── `unreachable` instrumentation ──────────────────────────────────────────

/// Block `b` of `f` ends in `unreachable`.
pub open spec fn ends_unreachable(f: FuncView, b: int) -> bool {
    match f.blocks[b].terminator {
        Some(t) => f.instrs[t.0 as int] is Unreachable,
        None => false,
    }
}

/// How many of the first `n` blocks end in `unreachable`.
pub open spec fn unreachable_count(f: FuncView, n: int) -> nat
    decreases n,
{
    if n <= 0 {
        0
    } else {
        unreachable_count(f, n - 1) + if ends_unreachable(f, n - 1) { 1nat } else { 0nat }
    }
}

/// The handler call inserted before an `unreachable`: the placeholder of
/// `__ubsan_handle_builtin_unreachable`, no arguments, no tail marking.
pub open spec fn unreachable_handler_call() -> KindView {
    KindView::Call {
        tail: TailCallKind::Unmarked,
        callee: ValueRef::Global(GlobalId((PLACEHOLDER_BASE + 5) as u32)),
        args: Seq::empty(),
    }
}

/// `f` after instrumenting `unreachable`: one handler call per block ending in
/// `unreachable`, added to the instruction pool in block order and appended
/// to that block's body; the terminators stay.
pub open spec fn with_unreachable_handlers(f: FuncView) -> FuncView {
    FuncView {
        instrs: f.instrs + Seq::new(unreachable_count(f, f.blocks.len() as int), |_i: int| unreachable_handler_call()),
        blocks: Seq::new(
            f.blocks.len(),
            |b: int|
                if ends_unreachable(f, b) {
                    BlockView {
                        body: f.blocks[b].body.push(InstrId((f.instrs.len() + unreachable_count(f, b)) as u32)),
                        ..f.blocks[b]
                    }
                } else {
                    f.blocks[b]
                },
        ),
        ..f
    }
}

proof fn lemma_unreachable_count_mono(f: FuncView, a: int, b: int)
    requires
        0 <= a <= b,
    ensures
        unreachable_count(f, a) <= unreachable_count(f, b),
        unreachable_count(f, b) <= unreachable_count(f, a) + (b - a),
    decreases b - a,
{
    if a < b {
        lemma_unreachable_count_mono(f, a, b - 1);
    }
}

proof fn lemma_unreachable_handler_index()
    ensures
        runtime_index("__ubsan_handle_builtin_unreachable"@) == Some(5u32),
{
    reveal_strlit("__ubsan_handle_builtin_unreachable");
    reveal_strlit("__ubsan_handle_add_overflow");
    reveal_strlit("__ubsan_handle_sub_overflow");
    reveal_strlit("__ubsan_handle_mul_overflow");
    reveal_strlit("__ubsan_handle_null_ptr_deref");
    reveal_strlit("__ubsan_handle_divrem_overflow");
    assert("__ubsan_handle_builtin_unreachable"@.len() == 34);
    assert("__ubsan_handle_add_overflow"@.len() == 27);
    assert("__ubsan_handle_sub_overflow"@.len() == 27);
    assert("__ubsan_handle_mul_overflow"@.len() == 27);
    assert("__ubsan_handle_null_ptr_deref"@.len() == 29);
    assert("__ubsan_handle_divrem_overflow"@.len() == 30);
}

/// Add a call of the `unreachable` handler before every `unreachable`
/// terminator. Returns whether any block ends in `unreachable`.
pub fn instrument_unreachable(func: &mut Function) -> (changed: bool)
    requires
        ids_in_range(old(func)@),
        old(func)@.instrs.len() + old(func)@.blocks.len() < u32::MAX,
    ensures
        final(func)@ == with_unreachable_handlers(old(func)@),
        ids_in_range(final(func)@),
        changed == (unreachable_count(old(func)@, old(func)@.blocks.len() as int) > 0),
{
    let ghost f0 = func@;
    let n = func.blocks.len();
    let callee = match placeholder_callee("__ubsan_handle_builtin_unreachable") {
        Some(c) => c,
        None => {
            proof {
                lemma_unreachable_handler_index();
            }
            return false;
        },
    };
    proof {
        lemma_unreachable_handler_index();
        assert(callee == PLACEHOLDER_BASE + 5);
    }
    // Blocks ending in `unreachable`, in order.

    let mut targets: Vec<usize> = Vec::new();
    let mut b: usize = 0;
    while b < n
        invariant
            n == f0.blocks.len(),
            func@ == f0,
            ids_in_range(f0),
            b <= n,
            targets@.len() == unreachable_count(f0, b as int),
            forall|k: int| 0 <= k < targets@.len() ==> (#[trigger] targets@[k]) < b && ends_unreachable(f0, targets@[k] as int)
                && unreachable_count(f0, targets@[k] as int) == k,
        decreases n - b,
    {
        assert(f0.blocks[b as int] == func.blocks@[b as int]@);
        let is_unreachable = match func.blocks[b].terminator {
            Some(tid) => {
                assert(f0.instrs[tid.0 as int] == func.instructions@[tid.0 as int]@);
                match &func.instructions[tid.0 as usize] {
                    InstrKind::Unreachable => true,
                    _ => false,
                }
            },
            None => false,
        };
        if is_unreachable {
            targets.push(b);
        }
        b = b + 1;
    }
    if targets.len() == 0 {
        proof {
            lemma_unreachable_handlers_ids(f0);
            assert(func@.instrs =~= with_unreachable_handlers(f0).instrs);
            assert(func@.blocks =~= with_unreachable_handlers(f0).blocks) by {
                assert forall|k: int| 0 <= k < f0.blocks.len() implies !ends_unreachable(f0, k) by {
                    if ends_unreachable(f0, k) {
                        lemma_unreachable_count_mono(f0, k + 1, n as int);
                        assert(unreachable_count(f0, k + 1) >= 1);
                    }
                }
            }
        }
        return false;
    }
    let m = targets.len();
    let mut j: usize = 0;
    while j < m
        invariant
            n == f0.blocks.len(),
            m == targets@.len(),
            m == unreachable_count(f0, n as int),
            f0.instrs.len() + n < u32::MAX,
            forall|k: int| 0 <= k < m ==> (#[trigger] targets@[k]) < n && ends_unreachable(f0, targets@[k] as int)
                && unreachable_count(f0, targets@[k] as int) == k,
            j <= m,
            callee == PLACEHOLDER_BASE + 5,
            func@.name == f0.name,
            func@.is_declaration == f0.is_declaration,
            func@.num_args == f0.num_args,
            func@.debug_locs == f0.debug_locs,
            func@.instrs == f0.instrs + Seq::new(j as nat, |_i: int| unreachable_handler_call()),
            func@.blocks.len() == n,
            forall|b: int|
                0 <= b < n ==> #[trigger] func@.blocks[b] == (if ends_unreachable(f0, b) && unreachable_count(f0, b) < j {
                    BlockView { body: f0.blocks[b].body.push(InstrId((f0.instrs.len() + unreachable_count(f0, b)) as u32)), ..f0.blocks[b] }
                } else {
                    f0.blocks[b]
                }),
        decreases m - j,
    {
        let bi = targets[j];
        proof {
            lemma_unreachable_count_mono(f0, 0, n as int);
            assert(func.instructions@.len() == func@.instrs.len());
            assert(func@.instrs.len() == f0.instrs.len() + j);
        }
        let call = InstrKind::Call {
            tail: TailCallKind::Unmarked,
            callee: ValueRef::Global(GlobalId(callee)),
            args: Vec::new(),
        };
        assert(call@ == unreachable_handler_call()) by {
            assert(call@->Call_args =~= Seq::<ValueRef>::empty());
        }
        let call_iid = func.alloc_instr(call);
        func.push_body(bi, call_iid);
        proof {
            assert(func@.instrs =~= f0.instrs + Seq::new((j + 1) as nat, |_i: int| unreachable_handler_call()));
            assert forall|b: int| 0 <= b < n implies #[trigger] func@.blocks[b] == (if ends_unreachable(f0, b)
                && unreachable_count(f0, b) < j + 1 {
                BlockView { body: f0.blocks[b].body.push(InstrId((f0.instrs.len() + unreachable_count(f0, b)) as u32)), ..f0.blocks[b] }
            } else {
                f0.blocks[b]
            }) by {
                if b == bi {
                    assert(unreachable_count(f0, b) == j);
                } else if ends_unreachable(f0, b) && unreachable_count(f0, b) == j {
                    // two different blocks cannot have the same rank
                    if b < bi {
                        lemma_unreachable_count_mono(f0, b + 1, bi as int);
                    } else {
                        lemma_unreachable_count_mono(f0, bi + 1, b);
                    }
                }
            }
        }
        j = j + 1;
    }
    proof {
        assert(func@.blocks =~= with_unreachable_handlers(f0).blocks) by {
            assert forall|b: int| 0 <= b < n implies #[trigger] func@.blocks[b] == with_unreachable_handlers(f0).blocks[b] by {
                if ends_unreachable(f0, b) {
                    lemma_unreachable_count_mono(f0, b + 1, n as int);
                }
            }
        }
        lemma_unreachable_handlers_ids(f0);
    }
    true
}

proof fn lemma_unreachable_handlers_ids(f: FuncView)
    requires
        ids_in_range(f),
    ensures
        ids_in_range(with_unreachable_handlers(f)),
{
    let g = with_unreachable_handlers(f);
    let n = f.blocks.len() as int;
    lemma_unreachable_count_mono(f, 0, n);
    assert forall|c: int| 0 <= c < g.blocks.len() implies {
        &&& (forall|k: int| 0 <= k < (#[trigger] g.blocks[c]).body.len() ==> g.blocks[c].body[k].0 < g.instrs.len())
        &&& (g.blocks[c].terminator matches Some(t) ==> t.0 < g.instrs.len())
    } by {
        if ends_unreachable(f, c) {
            lemma_unreachable_count_mono(f, c + 1, n);
            assert forall|k: int| 0 <= k < g.blocks[c].body.len() implies g.blocks[c].body[k].0 < g.instrs.len() by {
                if k < f.blocks[c].body.len() {
                    assert(g.blocks[c].body[k] == f.blocks[c].body[k]);
                }
            }
        }
    }
}

// ── guarded splits (division and null checks) ──────────────────────────────

/// A check site: block, body position of the checked instruction, the value
/// tested against the constant, and the type of that constant.
pub type CheckSite = (usize, usize, ValueRef, TypeId);

/// `f` with block `b` split before body position `p` around a check that
/// `v` equals constant `zc`. Block `b` keeps the body before `p`, then
/// `icmp eq v, zc` and `condbr` to a new handler block (on equal) or a new
/// continuation block. The continuation block, appended first and labelled
/// `ok_name`, takes the rest of the body and the old terminator; the handler
/// block, appended after it and labelled `bad_name`, calls global `handler`
/// with no arguments and branches to the continuation. The four new
/// instructions are added to the pool in the order cmp, condbr, call, br.
pub open spec fn guard_split(
    f: FuncView,
    b: int,
    p: int,
    v: ValueRef,
    zc: ConstId,
    handler: u32,
    ok_name: Seq<char>,
    bad_name: Seq<char>,
) -> FuncView {
    let n = f.instrs.len();
    let ok = BlockId(f.blocks.len() as u32);
    let bad = BlockId((f.blocks.len() + 1) as u32);
    let blk = f.blocks[b];
    FuncView {
        instrs: f.instrs.push(KindView::ICmp { pred: IntPredicate::Eq, lhs: v, rhs: ValueRef::Constant(zc) }).push(
            KindView::CondBr { cond: ValueRef::Instruction(InstrId(n as u32)), then_dest: bad, else_dest: ok },
        ).push(
            KindView::Call { tail: TailCallKind::Unmarked, callee: ValueRef::Global(GlobalId(handler)), args: Seq::empty() },
        ).push(KindView::Br { dest: ok }),
        blocks: f.blocks.update(
            b,
            BlockView { body: blk.body.take(p).push(InstrId(n as u32)), terminator: Some(InstrId((n + 1) as u32)), ..blk },
        ).push(BlockView { name: ok_name, body: blk.body.skip(p), terminator: blk.terminator }).push(
            BlockView { name: bad_name, body: seq![InstrId((n + 2) as u32)], terminator: Some(InstrId((n + 3) as u32)) },
        ),
        ..f
    }
}

proof fn lemma_guard_split_ids(
    f: FuncView,
    b: int,
    p: int,
    v: ValueRef,
    zc: ConstId,
    handler: u32,
    ok_name: Seq<char>,
    bad_name: Seq<char>,
)
    requires
        ids_in_range(f),
        0 <= b < f.blocks.len(),
        0 <= p <= f.blocks[b].body.len(),
    ensures
        ids_in_range(guard_split(f, b, p, v, zc, handler, ok_name, bad_name)),
{
    let g = guard_split(f, b, p, v, zc, handler, ok_name, bad_name);
    let n = f.instrs.len();
    let blk = f.blocks[b];
    assert forall|c: int| 0 <= c < g.blocks.len() implies {
        &&& (forall|k: int| 0 <= k < (#[trigger] g.blocks[c]).body.len() ==> g.blocks[c].body[k].0 < g.instrs.len())
        &&& (g.blocks[c].terminator matches Some(t) ==> t.0 < g.instrs.len())
    } by {
        if c == b {
            assert forall|k: int| 0 <= k < g.blocks[c].body.len() implies g.blocks[c].body[k].0 < g.instrs.len() by {
                if k < p {
                    assert(g.blocks[c].body[k] == blk.body[k]);
                }
            }
        } else if c == f.blocks.len() {
            assert forall|k: int| 0 <= k < g.blocks[c].body.len() implies g.blocks[c].body[k].0 < g.instrs.len() by {
                assert(g.blocks[c].body[k] == blk.body[p + k]);
            }
        } else if c < f.blocks.len() {
            assert(g.blocks[c] == f.blocks[c]);
        }
    }
}

/// Split block `b` before position `p` around a check of `v` against
/// constant `zc` (see `guard_split`).
fn insert_guard(
    func: &mut Function,
    b: usize,
    p: usize,
    v: ValueRef,
    zc: ConstId,
    handler: u32,
    ok_name: String,
    bad_name: String,
)
    requires
        b < old(func)@.blocks.len(),
        p <= old(func)@.blocks[b as int].body.len(),
        old(func)@.instrs.len() + 4 < u32::MAX,
        old(func)@.blocks.len() + 2 < u32::MAX,
    ensures
        final(func)@ == guard_split(old(func)@, b as int, p as int, v, zc, handler, ok_name@, bad_name@),
{
    let ghost f0 = func@;
    let (ok_body, ok_term) = func.split_off(b, p);
    assert(func.blocks@.len() == func@.blocks.len());
    let ok_idx = func.blocks.len() as u32;
    let bad_idx = ok_idx + 1;
    assert(func.instructions@.len() == f0.instrs.len());
    let test_id = func.alloc_instr(InstrKind::ICmp { pred: IntPredicate::Eq, lhs: v, rhs: ValueRef::Constant(zc) });
    assert(func.blocks@.len() == func@.blocks.len());
    func.push_body(b, test_id);
    assert(func.instructions@.len() == func@.instrs.len());
    let br = func.alloc_instr(
        InstrKind::CondBr { cond: ValueRef::Instruction(test_id), then_dest: BlockId(bad_idx), else_dest: BlockId(ok_idx) },
    );
    assert(func.blocks@.len() == func@.blocks.len());
    func.set_terminator(b, br);
    assert(func.instructions@.len() == func@.instrs.len());
    let call_kind = InstrKind::Call { tail: TailCallKind::Unmarked, callee: ValueRef::Global(GlobalId(handler)), args: Vec::new() };
    assert(call_kind@ == KindView::Call {
        tail: TailCallKind::Unmarked,
        callee: ValueRef::Global(GlobalId(handler)),
        args: Seq::empty(),
    }) by {
        assert(call_kind@->Call_args =~= Seq::<ValueRef>::empty());
    }
    let call = func.alloc_instr(call_kind);
    assert(func.instructions@.len() == func@.instrs.len());
    let jmp = func.alloc_instr(InstrKind::Br { dest: BlockId(ok_idx) });
    func.add_block(BasicBlock { name: ok_name, body: ok_body, terminator: ok_term });
    let mut bad_body: Vec<InstrId> = Vec::new();
    bad_body.push(call);
    func.add_block(BasicBlock { name: bad_name, body: bad_body, terminator: Some(jmp) });
    proof {
        let g = guard_split(f0, b as int, p as int, v, zc, handler, ok_name@, bad_name@);
        assert(bad_body@ =~= seq![call]);
        assert(func@.instrs =~= g.instrs);
        assert(func@.blocks =~= g.blocks);
    }
}

/// The divisor and its type, when `k` is a signed or unsigned division or
/// remainder.
pub open spec fn div_divisor(k: KindView) -> Option<(ValueRef, TypeId)> {
    match k {
        KindView::Binary { op, ty, rhs, .. } => if op == BinOp::SDiv || op == BinOp::UDiv || op == BinOp::SRem || op
            == BinOp::URem {
            Some((rhs, ty))
        } else {
            None
        },
        _ => None,
    }
}

/// Division sites among the first `m` body positions of block `b`, in order.
pub open spec fn div_sites_in_block(f: FuncView, b: int, m: int) -> Seq<CheckSite>
    decreases m,
{
    if m <= 0 {
        Seq::empty()
    } else {
        let prev = div_sites_in_block(f, b, m - 1);
        match div_divisor(f.instrs[f.blocks[b].body[m - 1].0 as int]) {
            Some((v, t)) => prev.push((b as usize, (m - 1) as usize, v, t)),
            None => prev,
        }
    }
}

/// Division sites of the first `n` blocks, in block then position order.
pub open spec fn div_sites_upto(f: FuncView, n: int) -> Seq<CheckSite>
    decreases n,
{
    if n <= 0 {
        Seq::empty()
    } else {
        div_sites_upto(f, n - 1) + div_sites_in_block(f, n - 1, f.blocks[n - 1].body.len() as int)
    }
}

/// Every signed or unsigned division or remainder of `f`, in block then
/// position order.
pub open spec fn div_sites(f: FuncView) -> Seq<CheckSite> {
    div_sites_upto(f, f.blocks.len() as int)
}

/// Apply the division checks for `s[k - 1]`, then `s[k - 2]`, ..., `s[0]`:
/// each adds the zero constant of the divisor's type to the pool and splits
/// the site's block around `icmp eq divisor, 0`.
pub open spec fn div_apply(f: FuncView, c: Seq<ConstantData>, s: Seq<CheckSite>, k: int) -> (FuncView, Seq<ConstantData>)
    decreases k,
{
    if k <= 0 {
        (f, c)
    } else {
        let site = s[k - 1];
        let f1 = guard_split(
            f,
            site.0 as int,
            site.1 as int,
            site.2,
            ConstId(c.len() as u32),
            (PLACEHOLDER_BASE + 4) as u32,
            "div.ok"@,
            "div.zero"@,
        );
        div_apply(f1, c.push(ConstantData::Int { ty: site.3, val: 0 }), s, k - 1)
    }
}

/// `f` and the constant pool after division-by-zero instrumentation: the
/// sites are checked from the last to the first, so the positions of the
/// sites not yet checked stay valid.
pub open spec fn div_checked(f: FuncView, c: Seq<ConstantData>) -> (FuncView, Seq<ConstantData>) {
    div_apply(f, c, div_sites(f), div_sites(f).len() as int)
}

/// Site `x` comes before site `y` in block then position order.
pub open spec fn site_before(x: CheckSite, y: CheckSite) -> bool {
    x.0 < y.0 || (x.0 == y.0 && x.1 < y.1)
}

proof fn lemma_div_handler_index()
    ensures
        runtime_index("__ubsan_handle_divrem_overflow"@) == Some(4u32),
{
    reveal_strlit("__ubsan_handle_builtin_unreachable");
    reveal_strlit("__ubsan_handle_add_overflow");
    reveal_strlit("__ubsan_handle_sub_overflow");
    reveal_strlit("__ubsan_handle_mul_overflow");
    reveal_strlit("__ubsan_handle_null_ptr_deref");
    reveal_strlit("__ubsan_handle_divrem_overflow");
    assert("__ubsan_handle_add_overflow"@.len() == 27);
    assert("__ubsan_handle_sub_overflow"@.len() == 27);
    assert("__ubsan_handle_mul_overflow"@.len() == 27);
    assert("__ubsan_handle_null_ptr_deref"@.len() == 29);
    assert("__ubsan_handle_divrem_overflow"@.len() == 30);
}

/// Collect the division sites of `func`, in block then position order.
fn collect_div_sites(func: &Function) -> (sites: Vec<CheckSite>)
    requires
        ids_in_range(func@),
    ensures
        sites@ == div_sites(func@),
        forall|j: int, k: int| 0 <= j < k < sites@.len() ==> site_before(#[trigger] sites@[j], #[trigger] sites@[k]),
        forall|j: int|
            0 <= j < sites@.len() ==> (#[trigger] sites@[j]).0 < func@.blocks.len() && sites@[j].1 < func@.blocks[sites@[j].0 as int].body.len(),
{
    let mut sites: Vec<CheckSite> = Vec::new();
    let n = func.blocks.len();
    let mut bi: usize = 0;
    while bi < n
        invariant
            n == func@.blocks.len(),
            ids_in_range(func@),
            bi <= n,
            sites@ == div_sites_upto(func@, bi as int),
            forall|j: int, k: int| 0 <= j < k < sites@.len() ==> site_before(#[trigger] sites@[j], #[trigger] sites@[k]),
            forall|j: int|
                0 <= j < sites@.len() ==> (#[trigger] sites@[j]).0 < bi && sites@[j].1 < func@.blocks[sites@[j].0 as int].body.len(),
        decreases n - bi,
    {
        assert(func@.blocks[bi as int] == func.blocks@[bi as int]@);
        let m = func.blocks[bi].body.len();
        let ghost start = sites@;
        let mut pos: usize = 0;
        while pos < m
            invariant
                n == func@.blocks.len(),
                ids_in_range(func@),
                bi < n,
                m == func@.blocks[bi as int].body.len(),
                pos <= m,
                start == div_sites_upto(func@, bi as int),
                sites@ == start + div_sites_in_block(func@, bi as int, pos as int),
                forall|j: int, k: int| 0 <= j < k < sites@.len() ==> site_before(#[trigger] sites@[j], #[trigger] sites@[k]),
                forall|j: int|
                    0 <= j < sites@.len() ==> ((#[trigger] sites@[j]).0 < bi || (sites@[j].0 == bi && sites@[j].1 < pos))
                        && sites@[j].1 < func@.blocks[sites@[j].0 as int].body.len(),
            decreases m - pos,
        {
            let iid = func.blocks[bi].body[pos];
            assert(func@.blocks[bi as int].body[pos as int] == iid);
            assert((iid.0 as int) < func@.instrs.len());
            assert(func@.instrs[iid.0 as int] == func.instructions@[iid.0 as int]@);
            let site: Option<(ValueRef, TypeId)> = match &func.instructions[iid.0 as usize] {
                InstrKind::Binary { op, ty, rhs, .. } => {
                    match op {
                        BinOp::SDiv | BinOp::UDiv | BinOp::SRem | BinOp::URem => Some((*rhs, *ty)),
                        _ => None,
                    }
                },
                _ => None,
            };
            assert(site == div_divisor(func@.instrs[iid.0 as int]));
            if let Some((v, t)) = site {
                sites.push((bi, pos, v, t));
                assert(sites@ =~= start + div_sites_in_block(func@, bi as int, pos + 1));
            } else {
                assert(sites@ =~= start + div_sites_in_block(func@, bi as int, pos + 1));
            }
            pos = pos + 1;
        }
        assert(sites@ =~= div_sites_upto(func@, bi + 1));
        bi = bi + 1;
    }
    sites
}

/// Guard every signed or unsigned division or remainder with a check that
/// the divisor is not zero; on zero the divrem handler is called before the
/// division runs. Returns whether `func` has any such instruction.
pub fn instrument_div_by_zero(ctx: &mut Context, func: &mut Function) -> (changed: bool)
    requires
        ids_in_range(old(func)@),
        old(func)@.instrs.len() + 4 * div_sites(old(func)@).len() + 4 < u32::MAX,
        old(func)@.blocks.len() + 2 * div_sites(old(func)@).len() + 2 < u32::MAX,
        old(ctx).constants@.len() + div_sites(old(func)@).len() < u32::MAX,
    ensures
        (final(func)@, final(ctx).constants@) == div_checked(old(func)@, old(ctx).constants@),
        ids_in_range(final(func)@),
        final(ctx).types@ == old(ctx).types@,
        final(ctx).i64_ty == old(ctx).i64_ty,
        changed == (div_sites(old(func)@).len() > 0),
{
    let ghost f0 = func@;
    let ghost c0 = ctx.constants@;
    let sites = collect_div_sites(func);
    if sites.len() == 0 {
        return false;
    }
    let callee = match placeholder_callee("__ubsan_handle_divrem_overflow") {
        Some(c) => c,
        None => {
            proof {
                lemma_div_handler_index();
            }
            return false;
        },
    };
    proof {
        lemma_div_handler_index();
    }
    let total = sites.len();
    let mut i: usize = total;
    while i > 0
        invariant
            i <= total,
            total == sites@.len(),
            sites@ == div_sites(f0),
            callee == PLACEHOLDER_BASE + 4,
            ids_in_range(func@),
            ctx.types@ == old(ctx).types@,
            ctx.i64_ty == old(ctx).i64_ty,
            div_apply(f0, c0, sites@, total as int) == div_apply(func@, ctx.constants@, sites@, i as int),
            func@.instrs.len() + 4 * i + 4 < u32::MAX,
            func@.blocks.len() + 2 * i + 2 < u32::MAX,
            ctx.constants@.len() + i < u32::MAX,
            forall|j: int, k: int| 0 <= j < k < sites@.len() ==> site_before(#[trigger] sites@[j], #[trigger] sites@[k]),
            forall|j: int|
                0 <= j < i ==> (#[trigger] sites@[j]).0 < func@.blocks.len() && sites@[j].1 <= func@.blocks[sites@[j].0 as int].body.len(),
        decreases i,
    {
        let (b, p, v, t) = sites[i - 1];
        assert(sites@[i - 1] == (b, p, v, t));
        let ghost fb = func@;
        let zc = ctx.const_int(t, 0);
        insert_guard(func, b, p, v, zc, callee, "div.ok".to_string(), "div.zero".to_string());
        proof {
            lemma_guard_split_ids(fb, b as int, p as int, v, zc, callee, "div.ok"@, "div.zero"@);
            assert forall|j: int| 0 <= j < i - 1 implies (#[trigger] sites@[j]).0 < func@.blocks.len()
                && sites@[j].1 <= func@.blocks[sites@[j].0 as int].body.len() by {
                assert(site_before(sites@[j], sites@[i - 1]));
            }
        }
        i = i - 1;
    }
    proof {
        assert(func@ == div_apply(func@, ctx.constants@, sites@, 0).0);
    }
    true
}

// ── null-pointer checks ────────────────────────────────────────────────────

/// Instruction `i` of `f` is an `alloca` that some block lists.
pub open spec fn alloca_listed(f: FuncView, i: int) -> bool {
    exists|b: int, k: int|
        0 <= b < f.blocks.len() && 0 <= k < f.blocks[b].body.len() && (#[trigger] f.blocks[b].body[k]).0 == i
            && f.instrs[i] is Alloca
}

/// `v` is known not to be null: the address of a listed `alloca`, or a global.
pub open spec fn provably_non_null(f: FuncView, v: ValueRef) -> bool {
    match v {
        ValueRef::Instruction(id) => alloca_listed(f, id.0 as int),
        ValueRef::Global(_) => true,
        _ => false,
    }
}

/// The pointer that `k` reads or writes through, when `k` is a load or a
/// store whose pointer is not known to be non-null.
pub open spec fn unproven_pointer(f: FuncView, k: KindView) -> Option<ValueRef> {
    match k {
        KindView::Load { ptr, .. } => if provably_non_null(f, ptr) {
            None
        } else {
            Some(ptr)
        },
        KindView::Store { ptr, .. } => if provably_non_null(f, ptr) {
            None
        } else {
            Some(ptr)
        },
        _ => None,
    }
}

/// A null-check site: block, body position of the access, and its pointer.
pub type NullSite = (usize, usize, ValueRef);

/// Null-check sites among the first `m` body positions of block `b`.
pub open spec fn null_sites_in_block(f: FuncView, b: int, m: int) -> Seq<NullSite>
    decreases m,
{
    if m <= 0 {
        Seq::empty()
    } else {
        let prev = null_sites_in_block(f, b, m - 1);
        match unproven_pointer(f, f.instrs[f.blocks[b].body[m - 1].0 as int]) {
            Some(v) => prev.push((b as usize, (m - 1) as usize, v)),
            None => prev,
        }
    }
}

/// Null-check sites of the first `n` blocks, in block then position order.
pub open spec fn null_sites_upto(f: FuncView, n: int) -> Seq<NullSite>
    decreases n,
{
    if n <= 0 {
        Seq::empty()
    } else {
        null_sites_upto(f, n - 1) + null_sites_in_block(f, n - 1, f.blocks[n - 1].body.len() as int)
    }
}

/// Every load and store of `f` through a pointer not known to be non-null,
/// in block then position order.
pub open spec fn null_sites(f: FuncView) -> Seq<NullSite> {
    null_sites_upto(f, f.blocks.len() as int)
}

/// Apply the null checks for `s[k - 1]`, ..., `s[0]`, each comparing the
/// pointer with constant `zc`.
pub open spec fn null_apply(f: FuncView, s: Seq<NullSite>, k: int, zc: ConstId) -> FuncView
    decreases k,
{
    if k <= 0 {
        f
    } else {
        let site = s[k - 1];
        null_apply(
            guard_split(f, site.0 as int, site.1 as int, site.2, zc, (PLACEHOLDER_BASE + 3) as u32, "null.ok"@, "null.deref"@),
            s,
            k - 1,
            zc,
        )
    }
}

/// `f` and the constant pool after null-pointer instrumentation: with no
/// site nothing changes; otherwise one null constant is added to the pool
/// and every site, from the last to the first, is split around
/// `icmp eq ptr, null`.
pub open spec fn null_checked(f: FuncView, c: Seq<ConstantData>) -> (FuncView, Seq<ConstantData>) {
    let s = null_sites(f);
    if s.len() == 0 {
        (f, c)
    } else {
        (null_apply(f, s, s.len() as int, ConstId(c.len() as u32)), c.push(ConstantData::Null))
    }
}

/// Null-site `x` comes before `y` in block then position order.
pub open spec fn null_site_before(x: NullSite, y: NullSite) -> bool {
    x.0 < y.0 || (x.0 == y.0 && x.1 < y.1)
}

proof fn lemma_null_handler_index()
    ensures
        runtime_index("__ubsan_handle_null_ptr_deref"@) == Some(3u32),
{
    reveal_strlit("__ubsan_handle_add_overflow");
    reveal_strlit("__ubsan_handle_sub_overflow");
    reveal_strlit("__ubsan_handle_mul_overflow");
    reveal_strlit("__ubsan_handle_null_ptr_deref");
    assert("__ubsan_handle_add_overflow"@.len() == 27);
    assert("__ubsan_handle_sub_overflow"@.len() == 27);
    assert("__ubsan_handle_mul_overflow"@.len() == 27);
    assert("__ubsan_handle_null_ptr_deref"@.len() == 29);
}

/// For each instruction id, whether it is an `alloca` listed in a block.
fn alloca_flags(func: &Function) -> (flags: Vec<bool>)
    requires
        ids_in_range(func@),
    ensures
        flags@.len() == func@.instrs.len(),
        forall|i: int| 0 <= i < flags@.len() ==> (#[trigger] flags@[i] <==> alloca_listed(func@, i)),
{
    let ghost f = func@;
    let ni = func.instructions.len();
    let mut flags: Vec<bool> = Vec::new();
    let mut i: usize = 0;
    while i < ni
        invariant
            ni == f.instrs.len(),
            i <= ni,
            flags@.len() == i,
            forall|j: int| 0 <= j < i ==> !(#[trigger] flags@[j]),
        decreases ni - i,
    {
        flags.push(false);
        i = i + 1;
    }
    let n = func.blocks.len();
    let mut bi: usize = 0;
    while bi < n
        invariant
            f == func@,
            ids_in_range(f),
            n == f.blocks.len(),
            bi <= n,
            flags@.len() == f.instrs.len(),
            forall|j: int|
                0 <= j < flags@.len() ==> (#[trigger] flags@[j] <==> exists|b2: int, k2: int|
                    0 <= b2 < bi && 0 <= k2 < f.blocks[b2].body.len() && (#[trigger] f.blocks[b2].body[k2]).0 == j
                        && f.instrs[j] is Alloca),
        decreases n - bi,
    {
        assert(f.blocks[bi as int] == func.blocks@[bi as int]@);
        let m = func.blocks[bi].body.len();
        let mut pos: usize = 0;
        while pos < m
            invariant
                f == func@,
                ids_in_range(f),
                n == f.blocks.len(),
                bi < n,
                m == f.blocks[bi as int].body.len(),
                pos <= m,
                flags@.len() == f.instrs.len(),
                forall|j: int|
                    0 <= j < flags@.len() ==> (#[trigger] flags@[j] <==> exists|b2: int, k2: int|
                        0 <= b2 <= bi && 0 <= k2 < f.blocks[b2].body.len() && (b2 < bi || k2 < pos)
                            && (#[trigger] f.blocks[b2].body[k2]).0 == j && f.instrs[j] is Alloca),
            decreases m - pos,
        {
            let iid = func.blocks[bi].body[pos];
            assert(f.blocks[bi as int].body[pos as int] == iid);
            assert((iid.0 as int) < f.instrs.len());
            assert(f.instrs[iid.0 as int] == func.instructions@[iid.0 as int]@);
            let is_alloca = match &func.instructions[iid.0 as usize] {
                InstrKind::Alloca { .. } => true,
                _ => false,
            };
            let ghost old_flags = flags@;
            if is_alloca {
                flags.set(iid.0 as usize, true);
            }
            proof {
                assert forall|j: int| 0 <= j < flags@.len() implies (#[trigger] flags@[j] <==> exists|b2: int, k2: int|
                    0 <= b2 <= bi && 0 <= k2 < f.blocks[b2].body.len() && (b2 < bi || k2 < pos + 1)
                        && (#[trigger] f.blocks[b2].body[k2]).0 == j && f.instrs[j] is Alloca) by {
                    if j == iid.0 as int && is_alloca {
                        assert(f.blocks[bi as int].body[pos as int].0 == j);
                    } else if flags@[j] {
                        assert(old_flags[j]);
                        let (b2, k2) = choose|b2: int, k2: int|
                            0 <= b2 <= bi && 0 <= k2 < f.blocks[b2].body.len() && (b2 < bi || k2 < pos)
                                && (#[trigger] f.blocks[b2].body[k2]).0 == j && f.instrs[j] is Alloca;
                        assert(f.blocks[b2].body[k2].0 == j);
                    } else {
                        assert(!old_flags[j]);
                        if exists|b2: int, k2: int|
                            0 <= b2 <= bi && 0 <= k2 < f.blocks[b2].body.len() && (b2 < bi || k2 < pos + 1)
                                && (#[trigger] f.blocks[b2].body[k2]).0 == j && f.instrs[j] is Alloca {
                            let (b2, k2) = choose|b2: int, k2: int|
                                0 <= b2 <= bi && 0 <= k2 < f.blocks[b2].body.len() && (b2 < bi || k2 < pos + 1)
                                    && (#[trigger] f.blocks[b2].body[k2]).0 == j && f.instrs[j] is Alloca;
                            if b2 < bi || k2 < pos {
                                assert(f.blocks[b2].body[k2].0 == j);
                            } else {
                                assert(k2 == pos);
                            }
                        }
                    }
                }
            }
            pos = pos + 1;
        }
        bi = bi + 1;
    }
    flags
}

/// Collect the null-check sites of `func`, in block then position order.
fn collect_null_sites(func: &Function, flags: &Vec<bool>) -> (sites: Vec<NullSite>)
    requires
        ids_in_range(func@),
        flags@.len() == func@.instrs.len(),
        forall|i: int| 0 <= i < flags@.len() ==> (#[trigger] flags@[i] <==> alloca_listed(func@, i)),
    ensures
        sites@ == null_sites(func@),
        forall|j: int, k: int| 0 <= j < k < sites@.len() ==> null_site_before(#[trigger] sites@[j], #[trigger] sites@[k]),
        forall|j: int|
            0 <= j < sites@.len() ==> (#[trigger] sites@[j]).0 < func@.blocks.len() && sites@[j].1 < func@.blocks[sites@[j].0 as int].body.len(),
{
    let mut sites: Vec<NullSite> = Vec::new();
    let n = func.blocks.len();
    let mut bi: usize = 0;
    while bi < n
        invariant
            n == func@.blocks.len(),
            ids_in_range(func@),
            flags@.len() == func@.instrs.len(),
            forall|i: int| 0 <= i < flags@.len() ==> (#[trigger] flags@[i] <==> alloca_listed(func@, i)),
            bi <= n,
            sites@ == null_sites_upto(func@, bi as int),
            forall|j: int, k: int| 0 <= j < k < sites@.len() ==> null_site_before(#[trigger] sites@[j], #[trigger] sites@[k]),
            forall|j: int|
                0 <= j < sites@.len() ==> (#[trigger] sites@[j]).0 < bi && sites@[j].1 < func@.blocks[sites@[j].0 as int].body.len(),
        decreases n - bi,
    {
        assert(func@.blocks[bi as int] == func.blocks@[bi as int]@);
        let m = func.blocks[bi].body.len();
        let ghost start = sites@;
        let mut pos: usize = 0;
        while pos < m
            invariant
                n == func@.blocks.len(),
                ids_in_range(func@),
                flags@.len() == func@.instrs.len(),
                forall|i: int| 0 <= i < flags@.len() ==> (#[trigger] flags@[i] <==> alloca_listed(func@, i)),
                bi < n,
                m == func@.blocks[bi as int].body.len(),
                pos <= m,
                start == null_sites_upto(func@, bi as int),
                sites@ == start + null_sites_in_block(func@, bi as int, pos as int),
                forall|j: int, k: int| 0 <= j < k < sites@.len() ==> null_site_before(#[trigger] sites@[j], #[trigger] sites@[k]),
                forall|j: int|
                    0 <= j < sites@.len() ==> ((#[trigger] sites@[j]).0 < bi || (sites@[j].0 == bi && sites@[j].1 < pos))
                        && sites@[j].1 < func@.blocks[sites@[j].0 as int].body.len(),
            decreases m - pos,
        {
            let iid = func.blocks[bi].body[pos];
            assert(func@.blocks[bi as int].body[pos as int] == iid);
            assert((iid.0 as int) < func@.instrs.len());
            assert(func@.instrs[iid.0 as int] == func.instructions@[iid.0 as int]@);
            let ptr: Option<ValueRef> = match &func.instructions[iid.0 as usize] {
                InstrKind::Load { ptr, .. } => Some(*ptr),
                InstrKind::Store { ptr, .. } => Some(*ptr),
                _ => None,
            };
            let site: Option<ValueRef> = match ptr {
                Some(v) => {
                    let non_null = match v {
                        ValueRef::Instruction(id) => (id.0 as usize) < flags.len() && flags[id.0 as usize],
                        ValueRef::Global(_) => true,
                        _ => false,
                    };
                    proof {
                        if let ValueRef::Instruction(id) = v {
                            if (id.0 as int) >= flags@.len() && alloca_listed(func@, id.0 as int) {
                                let (b2, k2) = choose|b2: int, k2: int|
                                    0 <= b2 < func@.blocks.len() && 0 <= k2 < func@.blocks[b2].body.len()
                                        && (#[trigger] func@.blocks[b2].body[k2]).0 == id.0 as int && func@.instrs[id.0 as int] is Alloca;
                                assert(func@.blocks[b2].body[k2].0 < func@.instrs.len());
                            }
                        }
                    }
                    if non_null {
                        None
                    } else {
                        Some(v)
                    }
                },
                None => None,
            };
            assert(site == unproven_pointer(func@, func@.instrs[iid.0 as int]));
            if let Some(v) = site {
                sites.push((bi, pos, v));
                assert(sites@ =~= start + null_sites_in_block(func@, bi as int, pos + 1));
            } else {
                assert(sites@ =~= start + null_sites_in_block(func@, bi as int, pos + 1));
            }
            pos = pos + 1;
        }
        assert(sites@ =~= null_sites_upto(func@, bi + 1));
        bi = bi + 1;
    }
    sites
}

/// Guard every load and store whose pointer is not known to be non-null
/// (the address of an `alloca` or a global) with a null check; on null the
/// null-dereference handler is called before the access. Returns whether
/// `func` has any such access.
pub fn instrument_null_ptr(ctx: &mut Context, func: &mut Function) -> (changed: bool)
    requires
        ids_in_range(old(func)@),
        old(func)@.instrs.len() + 4 * null_sites(old(func)@).len() + 4 < u32::MAX,
        old(func)@.blocks.len() + 2 * null_sites(old(func)@).len() + 2 < u32::MAX,
        old(ctx).constants@.len() + 1 < u32::MAX,
    ensures
        (final(func)@, final(ctx).constants@) == null_checked(old(func)@, old(ctx).constants@),
        ids_in_range(final(func)@),
        final(ctx).types@ == old(ctx).types@,
        final(ctx).i64_ty == old(ctx).i64_ty,
        changed == (null_sites(old(func)@).len() > 0),
{
    let ghost f0 = func@;
    let ghost c0 = ctx.constants@;
    let flags = alloca_flags(func);
    let sites = collect_null_sites(func, &flags);
    if sites.len() == 0 {
        return false;
    }
    let null_c = ctx.const_null();
    let callee = match placeholder_callee("__ubsan_handle_null_ptr_deref") {
        Some(c) => c,
        None => {
            proof {
                lemma_null_handler_index();
            }
            return false;
        },
    };
    proof {
        lemma_null_handler_index();
    }
    let total = sites.len();
    let mut i: usize = total;
    while i > 0
        invariant
            i <= total,
            total == sites@.len(),
            sites@ == null_sites(f0),
            callee == PLACEHOLDER_BASE + 3,
            null_c == ConstId(c0.len() as u32),
            ids_in_range(func@),
            null_apply(f0, sites@, total as int, null_c) == null_apply(func@, sites@, i as int, null_c),
            func@.instrs.len() + 4 * i + 4 < u32::MAX,
            func@.blocks.len() + 2 * i + 2 < u32::MAX,
            forall|j: int, k: int| 0 <= j < k < sites@.len() ==> null_site_before(#[trigger] sites@[j], #[trigger] sites@[k]),
            forall|j: int|
                0 <= j < i ==> (#[trigger] sites@[j]).0 < func@.blocks.len() && sites@[j].1 <= func@.blocks[sites@[j].0 as int].body.len(),
        decreases i,
    {
        let (b, p, v) = sites[i - 1];
        assert(sites@[i - 1] == (b, p, v));
        let ghost fb = func@;
        insert_guard(func, b, p, v, null_c, callee, "null.ok".to_string(), "null.deref".to_string());
        proof {
            lemma_guard_split_ids(fb, b as int, p as int, v, null_c, callee, "null.ok"@, "null.deref"@);
            assert forall|j: int| 0 <= j < i - 1 implies (#[trigger] sites@[j]).0 < func@.blocks.len()
                && sites@[j].1 <= func@.blocks[sites@[j].0 as int].body.len() by {
                assert(null_site_before(sites@[j], sites@[i - 1]));
            }
        }
        i = i - 1;
    }
    true
}

// ── signed overflow checks ─────────────────────────────────────────────────

/// The runtime table index of the overflow handler for `k`, when `k` is an
/// add, sub or mul without the `nsw` flag.
pub open spec fn overflow_handler(k: KindView) -> Option<u32> {
    match k {
        KindView::Binary { op, nsw, .. } => if nsw {
            None
        } else if op == BinOp::Add {
            Some(0u32)
        } else if op == BinOp::Sub {
            Some(1u32)
        } else if op == BinOp::Mul {
            Some(2u32)
        } else {
            None
        },
        _ => None,
    }
}

/// An overflow-check site: block, body position, handler index.
pub type OverflowSite = (usize, usize, u32);

/// Overflow sites among the first `m` body positions of block `b`.
pub open spec fn overflow_sites_in_block(f: FuncView, b: int, m: int) -> Seq<OverflowSite>
    decreases m,
{
    if m <= 0 {
        Seq::empty()
    } else {
        let prev = overflow_sites_in_block(f, b, m - 1);
        match overflow_handler(f.instrs[f.blocks[b].body[m - 1].0 as int]) {
            Some(h) => prev.push((b as usize, (m - 1) as usize, h)),
            None => prev,
        }
    }
}

/// Overflow sites of the first `n` blocks, in block then position order.
pub open spec fn overflow_sites_upto(f: FuncView, n: int) -> Seq<OverflowSite>
    decreases n,
{
    if n <= 0 {
        Seq::empty()
    } else {
        overflow_sites_upto(f, n - 1) + overflow_sites_in_block(f, n - 1, f.blocks[n - 1].body.len() as int)
    }
}

/// Every add, sub and mul of `f` without `nsw`, in block then position order.
pub open spec fn overflow_sites(f: FuncView) -> Seq<OverflowSite> {
    overflow_sites_upto(f, f.blocks.len() as int)
}

/// The handler call for runtime table index `h`.
pub open spec fn handler_call(h: u32) -> KindView {
    KindView::Call {
        tail: TailCallKind::Unmarked,
        callee: ValueRef::Global(GlobalId((PLACEHOLDER_BASE + h) as u32)),
        args: Seq::empty(),
    }
}

/// Apply the overflow checks for `s[k - 1]`, ..., `s[0]`: each adds the
/// handler call to the pool and inserts it into the body right before the
/// arithmetic instruction.
pub open spec fn overflow_apply(f: FuncView, s: Seq<OverflowSite>, k: int) -> FuncView
    decreases k,
{
    if k <= 0 {
        f
    } else {
        let site = s[k - 1];
        let b = site.0 as int;
        let f1 = FuncView {
            instrs: f.instrs.push(handler_call(site.2)),
            blocks: f.blocks.update(
                b,
                BlockView { body: f.blocks[b].body.insert(site.1 as int, InstrId(f.instrs.len() as u32)), ..f.blocks[b] },
            ),
            ..f
        };
        overflow_apply(f1, s, k - 1)
    }
}

/// `f` after signed-overflow instrumentation.
pub open spec fn overflow_checked(f: FuncView) -> FuncView {
    overflow_apply(f, overflow_sites(f), overflow_sites(f).len() as int)
}

/// Overflow-site `x` comes before `y` in block then position order.
pub open spec fn overflow_site_before(x: OverflowSite, y: OverflowSite) -> bool {
    x.0 < y.0 || (x.0 == y.0 && x.1 < y.1)
}

proof fn lemma_overflow_handler_indices()
    ensures
        runtime_index("__ubsan_handle_add_overflow"@) == Some(0u32),
        runtime_index("__ubsan_handle_sub_overflow"@) == Some(1u32),
        runtime_index("__ubsan_handle_mul_overflow"@) == Some(2u32),
{
    reveal_strlit("__ubsan_handle_add_overflow");
    reveal_strlit("__ubsan_handle_sub_overflow");
    reveal_strlit("__ubsan_handle_mul_overflow");
    assert("__ubsan_handle_add_overflow"@.len() == 27);
    assert("__ubsan_handle_sub_overflow"@.len() == 27);
    assert("__ubsan_handle_mul_overflow"@.len() == 27);
    assert("__ubsan_handle_add_overflow"@[15] != "__ubsan_handle_sub_overflow"@[15]);
    assert("__ubsan_handle_add_overflow"@[15] != "__ubsan_handle_mul_overflow"@[15]);
    assert("__ubsan_handle_sub_overflow"@[15] != "__ubsan_handle_mul_overflow"@[15]);
}

/// Collect the overflow sites of `func`, in block then position order.
fn collect_overflow_sites(func: &Function) -> (sites: Vec<OverflowSite>)
    requires
        ids_in_range(func@),
    ensures
        sites@ == overflow_sites(func@),
        forall|j: int, k: int| 0 <= j < k < sites@.len() ==> overflow_site_before(#[trigger] sites@[j], #[trigger] sites@[k]),
        forall|j: int|
            0 <= j < sites@.len() ==> (#[trigger] sites@[j]).0 < func@.blocks.len() && sites@[j].1 < func@.blocks[sites@[j].0 as int].body.len()
                && sites@[j].2 < 3,
{
    let mut sites: Vec<OverflowSite> = Vec::new();
    let n = func.blocks.len();
    let mut bi: usize = 0;
    while bi < n
        invariant
            n == func@.blocks.len(),
            ids_in_range(func@),
            bi <= n,
            sites@ == overflow_sites_upto(func@, bi as int),
            forall|j: int, k: int| 0 <= j < k < sites@.len() ==> overflow_site_before(#[trigger] sites@[j], #[trigger] sites@[k]),
            forall|j: int|
                0 <= j < sites@.len() ==> (#[trigger] sites@[j]).0 < bi && sites@[j].1 < func@.blocks[sites@[j].0 as int].body.len()
                    && sites@[j].2 < 3,
        decreases n - bi,
    {
        assert(func@.blocks[bi as int] == func.blocks@[bi as int]@);
        let m = func.blocks[bi].body.len();
        let ghost start = sites@;
        let mut pos: usize = 0;
        while pos < m
            invariant
                n == func@.blocks.len(),
                ids_in_range(func@),
                bi < n,
                m == func@.blocks[bi as int].body.len(),
                pos <= m,
                start == overflow_sites_upto(func@, bi as int),
                sites@ == start + overflow_sites_in_block(func@, bi as int, pos as int),
                forall|j: int, k: int| 0 <= j < k < sites@.len() ==> overflow_site_before(#[trigger] sites@[j], #[trigger] sites@[k]),
                forall|j: int|
                    0 <= j < sites@.len() ==> ((#[trigger] sites@[j]).0 < bi || (sites@[j].0 == bi && sites@[j].1 < pos))
                        && sites@[j].1 < func@.blocks[sites@[j].0 as int].body.len() && sites@[j].2 < 3,
            decreases m - pos,
        {
            let iid = func.blocks[bi].body[pos];
            assert(func@.blocks[bi as int].body[pos as int] == iid);
            assert((iid.0 as int) < func@.instrs.len());
            assert(func@.instrs[iid.0 as int] == func.instructions@[iid.0 as int]@);
            let handler: Option<u32> = match &func.instructions[iid.0 as usize] {
                InstrKind::Binary { op, nsw, .. } => {
                    if *nsw {
                        None
                    } else {
                        match op {
                            BinOp::Add => Some(0u32),
                            BinOp::Sub => Some(1u32),
                            BinOp::Mul => Some(2u32),
                            _ => None,
                        }
                    }
                },
                _ => None,
            };
            assert(handler == overflow_handler(func@.instrs[iid.0 as int]));
            if let Some(h) = handler {
                sites.push((bi, pos, h));
                assert(sites@ =~= start + overflow_sites_in_block(func@, bi as int, pos + 1));
            } else {
                assert(sites@ =~= start + overflow_sites_in_block(func@, bi as int, pos + 1));
            }
            pos = pos + 1;
        }
        assert(sites@ =~= overflow_sites_upto(func@, bi + 1));
        bi = bi + 1;
    }
    sites
}

/// Insert a call of the matching overflow handler right before every add,
/// sub and mul that lacks the `nsw` flag. Returns whether `func` has any.
pub fn instrument_int_overflow(func: &mut Function) -> (changed: bool)
    requires
        ids_in_range(old(func)@),
        old(func)@.instrs.len() + overflow_sites(old(func)@).len() < u32::MAX,
    ensures
        final(func)@ == overflow_checked(old(func)@),
        ids_in_range(final(func)@),
        changed == (overflow_sites(old(func)@).len() > 0),
{
    let ghost f0 = func@;
    let sites = collect_overflow_sites(func);
    if sites.len() == 0 {
        return false;
    }
    proof {
        lemma_overflow_handler_indices();
    }
    let total = sites.len();
    let mut i: usize = total;
    while i > 0
        invariant
            i <= total,
            total == sites@.len(),
            sites@ == overflow_sites(f0),
            overflow_apply(f0, sites@, total as int) == overflow_apply(func@, sites@, i as int),
            ids_in_range(func@),
            func@.instrs.len() + i < u32::MAX,
            forall|j: int, k: int| 0 <= j < k < sites@.len() ==> overflow_site_before(#[trigger] sites@[j], #[trigger] sites@[k]),
            forall|j: int|
                0 <= j < i ==> (#[trigger] sites@[j]).0 < func@.blocks.len() && sites@[j].1 <= func@.blocks[sites@[j].0 as int].body.len()
                    && sites@[j].2 < 3,
        decreases i,
    {
        let (b, p, h) = sites[i - 1];
        assert(sites@[i - 1] == (b, p, h));
        let name = if h == 0 {
            "__ubsan_handle_add_overflow"
        } else if h == 1 {
            "__ubsan_handle_sub_overflow"
        } else {
            "__ubsan_handle_mul_overflow"
        };
        proof {
            lemma_overflow_handler_indices();
        }
        let callee = match placeholder_callee(name) {
            Some(c) => c,
            None => {
                i = i - 1;
                continue;
            },
        };
        assert(callee == PLACEHOLDER_BASE + h);
        let call_kind = InstrKind::Call { tail: TailCallKind::Unmarked, callee: ValueRef::Global(GlobalId(callee)), args: Vec::new() };
        assert(call_kind@ == handler_call(h)) by {
            assert(call_kind@->Call_args =~= Seq::<ValueRef>::empty());
        }
        assert(func.instructions@.len() == func@.instrs.len());
        let ghost fb = func@;
        let call_iid = func.alloc_instr(call_kind);
        assert(func.blocks@.len() == func@.blocks.len());
        func.insert_body(b, p, call_iid);
        proof {
            assert forall|c: int| 0 <= c < func@.blocks.len() implies {
                &&& (forall|k: int| 0 <= k < (#[trigger] func@.blocks[c]).body.len() ==> func@.blocks[c].body[k].0 < func@.instrs.len())
                &&& (func@.blocks[c].terminator matches Some(t) ==> t.0 < func@.instrs.len())
            } by {
                if c == b {
                    assert forall|k: int| 0 <= k < func@.blocks[c].body.len() implies func@.blocks[c].body[k].0 < func@.instrs.len() by {
                        if k < p {
                            assert(func@.blocks[c].body[k] == fb.blocks[c].body[k]);
                        } else if k > p {
                            assert(func@.blocks[c].body[k] == fb.blocks[c].body[k - 1]);
                        }
                    }
                    assert(func@.blocks[c].terminator == fb.blocks[c].terminator);
                } else {
                    assert(func@.blocks[c] == fb.blocks[c]);
                }
            }
            assert forall|j: int| 0 <= j < i - 1 implies (#[trigger] sites@[j]).0 < func@.blocks.len()
                && sites@[j].1 <= func@.blocks[sites@[j].0 as int].body.len() && sites@[j].2 < 3 by {
                assert(overflow_site_before(sites@[j], sites@[i - 1]));
            }
        }
        i = i - 1;
    }
    true
}

// ── the function pass ──────────────────────────────────────────────────────

/// The function after each UBSan step in turn: overflow checks, division
/// checks, null checks, `unreachable` handlers.
pub open spec fn ubsan_steps(f: FuncView, c: Seq<ConstantData>) -> (FuncView, FuncView, Seq<ConstantData>, FuncView, Seq<ConstantData>) {
    let f1 = overflow_checked(f);
    let (f2, c2) = div_checked(f1, c);
    let (f3, c3) = null_checked(f2, c2);
    (f1, f2, c2, f3, c3)
}

/// `f` and the constant pool after the UBSan function pass; a declaration or
/// a function without blocks is left as it is.
pub open spec fn ubsan_function(f: FuncView, c: Seq<ConstantData>) -> (FuncView, Seq<ConstantData>) {
    if f.is_declaration || f.blocks.len() == 0 {
        (f, c)
    } else {
        let (f1, f2, c2, f3, c3) = ubsan_steps(f, c);
        (with_unreachable_handlers(f3), c3)
    }
}

/// Whether the UBSan function pass changes `f`.
pub open spec fn ubsan_changes(f: FuncView, c: Seq<ConstantData>) -> bool {
    let (f1, f2, c2, f3, c3) = ubsan_steps(f, c);
    !f.is_declaration && f.blocks.len() > 0 && (overflow_sites(f).len() > 0 || div_sites(f1).len() > 0
        || null_sites(f2).len() > 0 || unreachable_count(f3, f3.blocks.len() as int) > 0)
}

/// The instruction, block and constant ids that the UBSan steps hand out fit
/// in 32 bits.
pub open spec fn ubsan_ids_fit(f: FuncView, c: Seq<ConstantData>) -> bool {
    let (f1, f2, c2, f3, c3) = ubsan_steps(f, c);
    &&& f.instrs.len() + overflow_sites(f).len() < u32::MAX
    &&& f1.instrs.len() + 4 * div_sites(f1).len() + 4 < u32::MAX
    &&& f1.blocks.len() + 2 * div_sites(f1).len() + 2 < u32::MAX
    &&& c.len() + div_sites(f1).len() < u32::MAX
    &&& f2.instrs.len() + 4 * null_sites(f2).len() + 4 < u32::MAX
    &&& f2.blocks.len() + 2 * null_sites(f2).len() + 2 < u32::MAX
    &&& c2.len() + 1 < u32::MAX
    &&& f3.instrs.len() + f3.blocks.len() < u32::MAX
}

/// The UBSan function pass.
#[derive(Clone, Copy, Debug, Default)]
pub struct UbsanPass;

impl UbsanPass {
    /// The pass name.
    pub fn name(&self) -> (s: &'static str)
        ensures
            s@ == "ubsan"@,
    {
        "ubsan"
    }

    /// Instrument `func`: signed overflow, division by zero, null pointer
    /// dereference and `unreachable`, in that order. Returns whether anything
    /// changed.
    pub fn run_on_function(&mut self, ctx: &mut Context, func: &mut Function) -> (changed: bool)
        requires
            ids_in_range(old(func)@),
            ubsan_ids_fit(old(func)@, old(ctx).constants@),
        ensures
            (final(func)@, final(ctx).constants@) == ubsan_function(old(func)@, old(ctx).constants@),
            changed == ubsan_changes(old(func)@, old(ctx).constants@),
    {
        if func.is_declaration || func.blocks.len() == 0 {
            return false;
        }
        let mut changed = false;
        let a = instrument_int_overflow(func);
        changed = changed || a;
        let b = instrument_div_by_zero(ctx, func);
        changed = changed || b;
        let c = instrument_null_ptr(ctx, func);
        changed = changed || c;
        let d = instrument_unreachable(func);
        changed = changed || d;
        changed
    }
}

// ── the module pass ────────────────────────────────────────────────────────

/// A declaration of the function `name`.
pub open spec fn declaration_view(name: Seq<char>) -> FuncView {
    FuncView { name, blocks: Seq::empty(), instrs: Seq::empty(), is_declaration: true, num_args: 0, debug_locs: Seq::empty() }
}

/// `m` after declaring, in table order, those of the first `k` runtime
/// handlers that it does not have yet.
pub open spec fn declared_upto(m: Seq<FuncView>, k: int) -> Seq<FuncView>
    decreases k,
{
    if k <= 0 {
        m
    } else {
        let d = declared_upto(m, k - 1);
        if first_named(module_names(d), ubsan_runtime_names()[k - 1], 0) is Some {
            d
        } else {
            d.push(declaration_view(ubsan_runtime_names()[k - 1]))
        }
    }
}

/// `m` with every runtime handler declared.
pub open spec fn ubsan_declared(m: Seq<FuncView>) -> Seq<FuncView> {
    declared_upto(m, 6)
}

proof fn lemma_declared_shape(m: Seq<FuncView>, k: int)
    requires
        0 <= k <= 6,
    ensures
        m.len() <= declared_upto(m, k).len() <= m.len() + k,
        forall|i: int| 0 <= i < m.len() ==> #[trigger] declared_upto(m, k)[i] == m[i],
        forall|i: int|
            m.len() <= i < declared_upto(m, k).len() ==> (#[trigger] declared_upto(m, k)[i]).is_declaration
                && declared_upto(m, k)[i].blocks.len() == 0,
    decreases k,
{
    if k > 0 {
        lemma_declared_shape(m, k - 1);
    }
}

pub(crate) fn declare_if_missing(module: &mut Module, name: &str)
    ensures
        final(module)@ == if first_named(module_names(old(module)@), name@, 0) is Some {
            old(module)@
        } else {
            old(module)@.push(declaration_view(name@))
        },
{
    if get_function_id(module, name).is_none() {
        let decl = Function {
            name: name.to_string(),
            blocks: Vec::new(),
            instructions: Vec::new(),
            is_declaration: true,
            num_args: 0,
            debug_locs: Vec::new(),
        };
        assert(decl@ == declaration_view(name@)) by {
            assert(decl@.debug_locs =~= Seq::<Option<DebugLoc>>::empty());
            assert(decl@.blocks =~= Seq::<BlockView>::empty());
            assert(decl@.instrs =~= Seq::<KindView>::empty());
        }
        let ghost before = module.functions@;
        module.functions.push(decl);
        assert(module@ =~= old(module)@.push(declaration_view(name@))) by {
            assert(module.functions@ == before.push(decl));
        }
    }
}

proof fn lemma_runtime_names()
    ensures
        ubsan_runtime_names().len() == 6,
        ubsan_runtime_names()[0] == "__ubsan_handle_add_overflow"@,
        ubsan_runtime_names()[1] == "__ubsan_handle_sub_overflow"@,
        ubsan_runtime_names()[2] == "__ubsan_handle_mul_overflow"@,
        ubsan_runtime_names()[3] == "__ubsan_handle_null_ptr_deref"@,
        ubsan_runtime_names()[4] == "__ubsan_handle_divrem_overflow"@,
        ubsan_runtime_names()[5] == "__ubsan_handle_builtin_unreachable"@,
{
}

/// Declare every UBSan runtime handler that `module` lacks, in table order.
pub fn ensure_declarations(module: &mut Module)
    ensures
        final(module)@ == ubsan_declared(old(module)@),
{
    let ghost m0 = module@;
    proof {
        lemma_runtime_names();
    }
    assert(declared_upto(m0, 0) == m0);
    declare_if_missing(module, "__ubsan_handle_add_overflow");
    assert(module@ == declared_upto(m0, 1));
    declare_if_missing(module, "__ubsan_handle_sub_overflow");
    assert(module@ == declared_upto(m0, 2));
    declare_if_missing(module, "__ubsan_handle_mul_overflow");
    assert(module@ == declared_upto(m0, 3));
    declare_if_missing(module, "__ubsan_handle_null_ptr_deref");
    assert(module@ == declared_upto(m0, 4));
    declare_if_missing(module, "__ubsan_handle_divrem_overflow");
    assert(module@ == declared_upto(m0, 5));
    declare_if_missing(module, "__ubsan_handle_builtin_unreachable");
    assert(module@ == declared_upto(m0, 6));
}

/// The module pass leaves declarations and the runtime's own functions alone.
pub open spec fn ubsan_skips(f: FuncView) -> bool {
    f.is_declaration || seq_starts_with(f.name, "__ubsan"@)
}

/// `m` and the constant pool after the function pass ran over the first `i`
/// functions, in order.
pub open spec fn ubsan_fold(m: Seq<FuncView>, c: Seq<ConstantData>, i: int) -> (Seq<FuncView>, Seq<ConstantData>)
    decreases i,
{
    if i <= 0 {
        (m, c)
    } else {
        let (mm, cc) = ubsan_fold(m, c, i - 1);
        if ubsan_skips(m[i - 1]) {
            (mm, cc)
        } else {
            let (f, c2) = ubsan_function(m[i - 1], cc);
            (mm.update(i - 1, f), c2)
        }
    }
}

proof fn lemma_ubsan_fold_shape(m: Seq<FuncView>, c: Seq<ConstantData>, i: int)
    requires
        0 <= i <= m.len(),
    ensures
        ubsan_fold(m, c, i).0.len() == m.len(),
        forall|j: int| i <= j < m.len() ==> #[trigger] ubsan_fold(m, c, i).0[j] == m[j],
        forall|j: int|
            0 <= j < i ==> #[trigger] ubsan_fold(m, c, i).0[j] == if ubsan_skips(m[j]) {
                m[j]
            } else {
                ubsan_function(m[j], ubsan_fold(m, c, j).1).0
            },
    decreases i,
{
    if i > 0 {
        lemma_ubsan_fold_shape(m, c, i - 1);
    }
}

/// The handler table the module pass resolves placeholders with: for each
/// runtime handler, the index of its first declaration in `m`.
pub open spec fn resolution_table(m: Seq<FuncView>) -> Seq<Option<u32>> {
    Seq::new(
        8,
        |i: int|
            if i < 6 {
                match first_named(module_names(m), ubsan_runtime_names()[i], 0) {
                    Some(j) => Some(j as u32),
                    None => None,
                }
            } else {
                None
            },
    )
}

/// The module after the UBSan module pass, and the constant pool: handlers
/// declared, every function that is not skipped instrumented in order, then
/// the placeholder callees of every defined function resolved.
pub open spec fn ubsan_module(m: Seq<FuncView>, c: Seq<ConstantData>) -> (Seq<FuncView>, Seq<ConstantData>) {
    let m1 = ubsan_declared(m);
    let (m2, c2) = ubsan_fold(m1, c, m1.len() as int);
    let table = resolution_table(m2);
    (Seq::new(m2.len(), |i: int| if m2[i].is_declaration { m2[i] } else { resolved_calls(m2[i], table) }), c2)
}

/// Whether the module pass instruments anything.
pub open spec fn ubsan_module_changes(m: Seq<FuncView>, c: Seq<ConstantData>) -> bool {
    let m1 = ubsan_declared(m);
    exists|i: int| 0 <= i < m1.len() && !ubsan_skips(m1[i]) && #[trigger] ubsan_changes(m1[i], ubsan_fold(m1, c, i).1)
}

/// The ids handed out while instrumenting each function fit in 32 bits.
pub open spec fn ubsan_module_fits(m: Seq<FuncView>, c: Seq<ConstantData>) -> bool {
    let m1 = ubsan_declared(m);
    forall|i: int| 0 <= i < m1.len() && !ubsan_skips(m1[i]) ==> #[trigger] ubsan_ids_fit(m1[i], ubsan_fold(m1, c, i).1)
}

proof fn lemma_ubsan_function_len(f: FuncView, c: Seq<ConstantData>)
    requires
        ubsan_ids_fit(f, c),
        f.instrs.len() <= u32::MAX,
    ensures
        ubsan_function(f, c).0.instrs.len() <= u32::MAX,
{
    if !(f.is_declaration || f.blocks.len() == 0) {
        let (f1, f2, c2, f3, c3) = ubsan_steps(f, c);
        lemma_unreachable_count_mono(f3, 0, f3.blocks.len() as int);
    }
}

/// The UBSan module pass.
#[derive(Clone, Copy, Debug, Default)]
pub struct UbsanModulePass;

impl UbsanModulePass {
    /// The pass name.
    pub fn name(&self) -> (s: &'static str)
        ensures
            s@ == "ubsan-module"@,
    {
        "ubsan-module"
    }

    /// Declare the runtime handlers, instrument every function that is not
    /// a declaration nor one of the runtime's own (`__ubsan*`), then resolve
    /// the placeholder callees to the declarations. Returns whether any
    /// function was instrumented.
    #[verifier::rlimit(60)]
    pub fn run_on_module(&mut self, ctx: &mut Context, module: &mut Module) -> (changed: bool)
        requires
            old(module)@.len() + 6 < u32::MAX,
            forall|i: int| 0 <= i < old(module)@.len() ==> ids_in_range(#[trigger] old(module)@[i]),
            forall|i: int| 0 <= i < old(module)@.len() ==> (#[trigger] old(module)@[i]).instrs.len() <= u32::MAX,
            ubsan_module_fits(old(module)@, old(ctx).constants@),
        ensures
            (final(module)@, final(ctx).constants@) == ubsan_module(old(module)@, old(ctx).constants@),
            changed == ubsan_module_changes(old(module)@, old(ctx).constants@),
    {
        let ghost m0 = module@;
        let ghost c0 = ctx.constants@;
        ensure_declarations(module);
        let ghost m1 = module@;
        proof {
            lemma_declared_shape(m0, 6);
        }
        let n = module.functions.len();
        let mut changed = false;
        let mut fi: usize = 0;
        while fi < n
            invariant
                n == m1.len(),
                m1 == ubsan_declared(m0),
                m0.len() <= m1.len() <= m0.len() + 6,
                forall|i: int| 0 <= i < m0.len() ==> #[trigger] m1[i] == m0[i],
                forall|i: int| m0.len() <= i < m1.len() ==> (#[trigger] m1[i]).is_declaration && m1[i].blocks.len() == 0,
                forall|i: int| 0 <= i < m0.len() ==> ids_in_range(#[trigger] m0[i]),
                ubsan_module_fits(m0, c0),
                fi <= n,
                module@ == ubsan_fold(m1, c0, fi as int).0,
                ctx.constants@ == ubsan_fold(m1, c0, fi as int).1,
                changed == (exists|j: int| 0 <= j < fi && !ubsan_skips(m1[j]) && #[trigger] ubsan_changes(m1[j], ubsan_fold(m1, c0, j).1)),
            decreases n - fi,
        {
            proof {
                lemma_ubsan_fold_shape(m1, c0, fi as int);
            }
            assert(module@[fi as int] == module.functions@[fi as int]@);
            assert(module@[fi as int] == m1[fi as int]);
            let skip = module.functions[fi].is_declaration || starts_with(module.functions[fi].name.as_str(), "__ubsan");
            assert(skip == ubsan_skips(m1[fi as int]));
            if !skip {
                let ghost before = module.functions@;
                let ghost mv = module@;
                proof {
                    if fi < m0.len() {
                        assert(ids_in_range(m0[fi as int]));
                    }
                    assert(ubsan_ids_fit(m1[fi as int], ubsan_fold(m1, c0, fi as int).1));
                }
                let mut pass = UbsanPass;
                let ch = pass.run_on_function(ctx, &mut module.functions[fi]);
                proof {
                    assert forall|j: int| 0 <= j < n && j != fi implies #[trigger] module@[j] == mv[j] by {
                        assert(module.functions@[j] == before[j]);
                        assert(module@[j] == module.functions@[j]@);
                        assert(mv[j] == before[j]@);
                    }
                    assert(module@[fi as int] == module.functions@[fi as int]@);
                    assert(module@ =~= ubsan_fold(m1, c0, fi + 1).0);
                }
                changed = changed || ch;
            }
            proof {
                if changed {
                    if exists|j: int| 0 <= j < fi && !ubsan_skips(m1[j]) && #[trigger] ubsan_changes(m1[j], ubsan_fold(m1, c0, j).1) {
                        let w = choose|j: int| 0 <= j < fi && !ubsan_skips(m1[j]) && #[trigger] ubsan_changes(m1[j], ubsan_fold(m1, c0, j).1);
                        assert(0 <= w < fi + 1);
                    }
                }
                if exists|j: int| 0 <= j < fi + 1 && !ubsan_skips(m1[j]) && #[trigger] ubsan_changes(m1[j], ubsan_fold(m1, c0, j).1) {
                    let w = choose|j: int| 0 <= j < fi + 1 && !ubsan_skips(m1[j]) && #[trigger] ubsan_changes(m1[j], ubsan_fold(m1, c0, j).1);
                    if w < fi {
                        assert(exists|j: int| 0 <= j < fi && !ubsan_skips(m1[j]) && #[trigger] ubsan_changes(m1[j], ubsan_fold(m1, c0, j).1));
                    }
                }
            }
            fi = fi + 1;
        }
        let ghost m2 = module@;
        proof {
            lemma_ubsan_fold_shape(m1, c0, n as int);
        }
        let t0 = match get_function_id(module, "__ubsan_handle_add_overflow") {
            Some(i) => Some(i as u32),
            None => None,
        };
        let t1 = match get_function_id(module, "__ubsan_handle_sub_overflow") {
            Some(i) => Some(i as u32),
            None => None,
        };
        let t2 = match get_function_id(module, "__ubsan_handle_mul_overflow") {
            Some(i) => Some(i as u32),
            None => None,
        };
        let t3 = match get_function_id(module, "__ubsan_handle_null_ptr_deref") {
            Some(i) => Some(i as u32),
            None => None,
        };
        let t4 = match get_function_id(module, "__ubsan_handle_divrem_overflow") {
            Some(i) => Some(i as u32),
            None => None,
        };
        let t5 = match get_function_id(module, "__ubsan_handle_builtin_unreachable") {
            Some(i) => Some(i as u32),
            None => None,
        };
        let table: [Option<u32>; 8] = [t0, t1, t2, t3, t4, t5, None, None];
        proof {
            lemma_runtime_names();
        }
        assert(table@ =~= resolution_table(m2));
        let mut fi: usize = 0;
        while fi < n
            invariant
                n == m2.len(),
                n == m1.len(),
                m0.len() <= m1.len(),
                forall|i: int| 0 <= i < m0.len() ==> #[trigger] m1[i] == m0[i],
                forall|i: int| m0.len() <= i < m1.len() ==> (#[trigger] m1[i]).is_declaration && m1[i].blocks.len() == 0,
                forall|i: int| 0 <= i < m0.len() ==> (#[trigger] m0[i]).instrs.len() <= u32::MAX,
                ubsan_module_fits(m0, c0),
                m1 == ubsan_declared(m0),
                m2 == ubsan_fold(m1, c0, n as int).0,
                forall|j: int|
                    0 <= j < n ==> #[trigger] m2[j] == if ubsan_skips(m1[j]) {
                        m1[j]
                    } else {
                        ubsan_function(m1[j], ubsan_fold(m1, c0, j).1).0
                    },
                table@ == resolution_table(m2),
                fi <= n,
                module@.len() == n,
                forall|j: int| 0 <= j < fi ==> #[trigger] module@[j] == (if m2[j].is_declaration {
                    m2[j]
                } else {
                    resolved_calls(m2[j], table@)
                }),
                forall|j: int| fi <= j < n ==> #[trigger] module@[j] == m2[j],
            decreases n - fi,
        {
            assert(module@[fi as int] == module.functions@[fi as int]@);
            if !module.functions[fi].is_declaration {
                proof {
                    let j = fi as int;
                    assert(m2[j] == if ubsan_skips(m1[j]) { m1[j] } else { ubsan_function(m1[j], ubsan_fold(m1, c0, j).1).0 });
                    if j < m0.len() {
                        assert(m1[j] == m0[j]);
                    }
                    assert(m1[j].instrs.len() <= u32::MAX);
                    if !ubsan_skips(m1[j]) {
                        assert(ubsan_ids_fit(m1[j], ubsan_fold(m1, c0, j).1));
                        lemma_ubsan_function_len(m1[j], ubsan_fold(m1, c0, j).1);
                    }
                }
                let ghost before = module.functions@;
                let ghost mv = module@;
                apply_resolution_table(&mut module.functions[fi], &table);
                proof {
                    assert forall|j: int| 0 <= j < n && j != fi implies #[trigger] module@[j] == mv[j] by {
                        assert(module.functions@[j] == before[j]);
                        assert(module@[j] == module.functions@[j]@);
                        assert(mv[j] == before[j]@);
                    }
                    assert(module@[fi as int] == module.functions@[fi as int]@);
                }
            }
            fi = fi + 1;
        }
        proof {
            assert(module@ =~= ubsan_module(m0, c0).0);
        }
        changed
    }
}

proof fn lemma_declared_has(m: Seq<FuncView>, k: int, upto: int)
    requires
        0 <= k < upto <= 6,
    ensures
        exists|j: int| 0 <= j < declared_upto(m, upto).len() && (#[trigger] declared_upto(m, upto)[j]).name == ubsan_runtime_names()[k],
    decreases upto,
{
    let d = declared_upto(m, upto - 1);
    if k < upto - 1 {
        lemma_declared_has(m, k, upto - 1);
        let j = choose|j: int| 0 <= j < d.len() && (#[trigger] d[j]).name == ubsan_runtime_names()[k];
        if first_named(module_names(d), ubsan_runtime_names()[upto - 1], 0) is None {
            assert(d.push(declaration_view(ubsan_runtime_names()[upto - 1]))[j] == d[j]);
        }
        assert(declared_upto(m, upto)[j].name == ubsan_runtime_names()[k]);
    } else {
        lemma_first_named_range(module_names(d), ubsan_runtime_names()[k], 0);
        match first_named(module_names(d), ubsan_runtime_names()[k], 0) {
            Some(j) => {
                assert(module_names(d)[j] == d[j].name);
                assert(declared_upto(m, upto)[j].name == ubsan_runtime_names()[k]);
            },
            None => {
                let e = d.push(declaration_view(ubsan_runtime_names()[k]));
                assert(declared_upto(m, upto) == e);
                assert(declared_upto(m, upto)[d.len() as int].name == ubsan_runtime_names()[k]);
            },
        }
    }
}

/// After the module pass every runtime handler is there: for each of the
/// six `__ubsan_handle_*` names some function of the module has it, as a
/// declaration unless the module defined one of that name itself.
pub proof fn lemma_ubsan_declares_handlers(m: Seq<FuncView>, c: Seq<ConstantData>, k: int)
    requires
        0 <= k < 6,
    ensures
        exists|j: int| 0 <= j < ubsan_module(m, c).0.len() && (#[trigger] ubsan_module(m, c).0[j]).name == ubsan_runtime_names()[k],
{
    lemma_runtime_names();
    lemma_declared_has(m, k, 6);
    let m1 = ubsan_declared(m);
    let j = choose|j: int| 0 <= j < m1.len() && (#[trigger] m1[j]).name == ubsan_runtime_names()[k];
    lemma_ubsan_fold_shape(m1, c, m1.len() as int);
    let m2 = ubsan_fold(m1, c, m1.len() as int).0;
    reveal_strlit("__ubsan");
    reveal_strlit("__ubsan_handle_add_overflow");
    reveal_strlit("__ubsan_handle_sub_overflow");
    reveal_strlit("__ubsan_handle_mul_overflow");
    reveal_strlit("__ubsan_handle_null_ptr_deref");
    reveal_strlit("__ubsan_handle_divrem_overflow");
    reveal_strlit("__ubsan_handle_builtin_unreachable");
    assert(seq_starts_with(m1[j].name, "__ubsan"@)) by {
        assert(m1[j].name.subrange(0, 7) =~= "__ubsan"@);
    }
    assert(ubsan_skips(m1[j]));
    assert(m2[j] == m1[j]);
    assert(ubsan_module(m, c).0[j].name == m1[j].name);
}

} // verus!
