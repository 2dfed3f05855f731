//! Jump threading.
//!
//! Three transformations are applied in one run:
//!
//! 1. Constant-condition folding: `condbr true, %then, %else` becomes
//!    `br %then` (and `br %else` for `false`).
//! 2. Phi-based threading: when a `condbr` condition is a phi of the same
//!    block, every predecessor that supplies a constant is redirected past the
//!    join block straight to the successor that constant selects.
//! 3. Empty-block bypass: a `condbr` target that has no body and ends in an
//!    unconditional `br` is replaced by that branch's target, repeatedly
//!    until nothing changes; phis of the new target get an entry for the
//!    bypassing predecessor carrying the value that came through the empty block.

use vstd::prelude::*;
use crate::ir::{
    ids_in_range, with_instr, BasicBlock, BlockId, ConstantData, Context, FuncView, Function, InstrId, InstrKind,
    KindView, ValueRef,
};

verus! {

// ── well-formedness ─────────────────────────────────────────────────────────

/// A constant operand names a constant of the pool.
pub open spec fn const_ok(v: ValueRef, nc: nat) -> bool {
    match v {
        ValueRef::Constant(c) => c.0 < nc,
        _ => true,
    }
}

/// The block and constant references of an instruction are in range.
pub open spec fn kind_refs_ok(k: KindView, nb: nat, nc: nat) -> bool {
    match k {
        KindView::Br { dest } => dest.0 < nb,
        KindView::CondBr { cond, then_dest, else_dest } => then_dest.0 < nb && else_dest.0 < nb && const_ok(cond, nc),
        KindView::Phi { ty: _, incoming } => forall|j: int|
            0 <= j < incoming.len() ==> (#[trigger] incoming[j]).1.0 < nb && const_ok(incoming[j].0, nc),
        _ => true,
    }
}

/// A function whose every reference is in range, with block indices that fit a `BlockId`.
pub open spec fn jt_wf(f: FuncView, nc: nat) -> bool {
    &&& ids_in_range(f)
    &&& f.blocks.len() <= u32::MAX
    &&& forall|i: int| 0 <= i < f.instrs.len() ==> kind_refs_ok(#[trigger] f.instrs[i], f.blocks.len(), nc)
}

// ── pass 1: constant-condition folding ─────────────────────────────────────

/// The truth value of `v` when it is an integer constant (non-zero is true).
pub open spec fn const_bool(consts: Seq<ConstantData>, v: ValueRef) -> Option<bool> {
    match v {
        ValueRef::Constant(c) => match consts[c.0 as int] {
            ConstantData::Int { ty: _, val } => Some(val != 0),
            _ => None,
        },
        _ => None,
    }
}

/// The unconditional branch a constant-condition `condbr` folds to.
pub open spec fn folded_branch(consts: Seq<ConstantData>, k: KindView) -> Option<KindView> {
    match k {
        KindView::CondBr { cond, then_dest, else_dest } => match const_bool(consts, cond) {
            Some(true) => Some(KindView::Br { dest: then_dest }),
            Some(false) => Some(KindView::Br { dest: else_dest }),
            None => None,
        },
        _ => None,
    }
}

/// Pass 1 over the first `n` blocks: the function and whether it changed.
pub open spec fn fold_pass(f: FuncView, consts: Seq<ConstantData>, n: int) -> (FuncView, bool)
    decreases n,
{
    if n <= 0 {
        (f, false)
    } else {
        let (g, c) = fold_pass(f, consts, n - 1);
        match g.blocks[n - 1].terminator {
            Some(t) => match folded_branch(consts, g.instrs[t.0 as int]) {
                Some(k) => (with_instr(g, t.0 as int, k), true),
                None => (g, c),
            },
            None => (g, c),
        }
    }
}

/// Replacing an instruction with one whose references are in range keeps the
/// function well-formed and its blocks unchanged.
proof fn lemma_with_instr_wf(g: FuncView, i: int, k: KindView, nc: nat)
    requires
        jt_wf(g, nc),
        0 <= i < g.instrs.len(),
        kind_refs_ok(k, g.blocks.len(), nc),
    ensures
        jt_wf(with_instr(g, i, k), nc),
        with_instr(g, i, k).blocks == g.blocks,
        with_instr(g, i, k).instrs.len() == g.instrs.len(),
{
    let h = with_instr(g, i, k);
    assert forall|j: int| 0 <= j < h.instrs.len() implies kind_refs_ok(#[trigger] h.instrs[j], h.blocks.len(), nc) by {
        if j != i {
            assert(h.instrs[j] == g.instrs[j]);
        }
    }
}

proof fn lemma_fold_pass_wf(f: FuncView, consts: Seq<ConstantData>, n: int)
    requires
        jt_wf(f, consts.len()),
        0 <= n <= f.blocks.len(),
    ensures
        jt_wf(fold_pass(f, consts, n).0, consts.len()),
        fold_pass(f, consts, n).0.blocks == f.blocks,
        fold_pass(f, consts, n).0.instrs.len() == f.instrs.len(),
        fold_pass(f, consts, n).0.name == f.name,
        fold_pass(f, consts, n).0.is_declaration == f.is_declaration,
    decreases n,
{
    if n > 0 {
        lemma_fold_pass_wf(f, consts, n - 1);
        let (g, c) = fold_pass(f, consts, n - 1);
        match g.blocks[n - 1].terminator {
            Some(t) => {
                assert(t.0 < g.instrs.len());
                let k0 = g.instrs[t.0 as int];
                assert(kind_refs_ok(k0, g.blocks.len(), consts.len()));
                match folded_branch(consts, k0) {
                    Some(k) => {
                        lemma_with_instr_wf(g, t.0 as int, k, consts.len());
                    },
                    None => {},
                }
            },
            None => {},
        }
    }
}

/// The truth value of `v` when it is an integer constant.
fn const_bool_like(ctx: &Context, v: ValueRef) -> (r: Option<bool>)
    requires
        const_ok(v, ctx.constants@.len()),
    ensures
        r == const_bool(ctx.constants@, v),
{
    match v {
        ValueRef::Constant(cid) => match ctx.constants[cid.0 as usize] {
            ConstantData::Int { ty: _, val } => Some(val != 0),
            _ => None,
        },
        _ => None,
    }
}

/// Pass 1: fold every block-ending `condbr` on a constant into a `br`.
fn fold_constant_branches(ctx: &Context, func: &mut Function) -> (changed: bool)
    requires
        jt_wf(old(func)@, ctx.constants@.len()),
    ensures
        (final(func)@, changed) == fold_pass(old(func)@, ctx.constants@, old(func)@.blocks.len() as int),
{
    let ghost f0 = func@;
    let ghost consts = ctx.constants@;
    let mut changed = false;
    let n = func.blocks.len();
    let mut bidx: usize = 0;
    while bidx < n
        invariant
            n == f0.blocks.len(),
            consts == ctx.constants@,
            jt_wf(f0, consts.len()),
            bidx <= n,
            (func@, changed) == fold_pass(f0, consts, bidx as int),
        decreases n - bidx,
    {
        proof {
            lemma_fold_pass_wf(f0, consts, bidx as int);
            assert(func@.blocks[bidx as int] == func.blocks@[bidx as int]@);
        }
        let term = func.blocks[bidx].terminator;
        match term {
            Some(tid) => {
                proof {
                    assert(tid.0 < func@.instrs.len());
                    assert(func@.instrs[tid.0 as int] == func.instructions@[tid.0 as int]@);
                    assert(kind_refs_ok(func@.instrs[tid.0 as int], func@.blocks.len(), consts.len()));
                }
                let replacement = match &func.instructions[tid.0 as usize] {
                    InstrKind::CondBr { cond, then_dest, else_dest } => match const_bool_like(ctx, *cond) {
                        Some(true) => Some(InstrKind::Br { dest: *then_dest }),
                        Some(false) => Some(InstrKind::Br { dest: *else_dest }),
                        None => None,
                    },
                    _ => None,
                };
                match replacement {
                    Some(kind) => {
                        func.set_instr(tid, kind);
                        changed = true;
                    },
                    None => {},
                }
            },
            None => {},
        }
        bidx = bidx + 1;
    }
    changed
}

// ── pass 2: phi-based threading ─────────────────────────────────────────────

/// The terminator `k` of a predecessor with its edges to `join` redirected to
/// `target`, if that changes it.
pub open spec fn patched_branch(k: KindView, join: BlockId, target: BlockId) -> Option<KindView> {
    match k {
        KindView::Br { dest } => if dest == join {
            Some(KindView::Br { dest: target })
        } else {
            None
        },
        KindView::CondBr { cond, then_dest, else_dest } => {
            let t = if then_dest == join { target } else { then_dest };
            let e = if else_dest == join { target } else { else_dest };
            if t != then_dest || e != else_dest {
                Some(KindView::CondBr { cond, then_dest: t, else_dest: e })
            } else {
                None
            }
        },
        _ => None,
    }
}

/// Thread the first `j` incoming edges of a phi that decides the `condbr`
/// ending block `join`.
pub open spec fn thread_edges(
    g: FuncView,
    consts: Seq<ConstantData>,
    incoming: Seq<(ValueRef, BlockId)>,
    j: int,
    join: BlockId,
    then_dest: BlockId,
    else_dest: BlockId,
) -> (FuncView, bool)
    decreases j,
{
    if j <= 0 {
        (g, false)
    } else {
        let (h, c) = thread_edges(g, consts, incoming, j - 1, join, then_dest, else_dest);
        let (val, src) = incoming[j - 1];
        match const_bool(consts, val) {
            None => (h, c),
            Some(taken) => {
                let target = if taken { then_dest } else { else_dest };
                match h.blocks[src.0 as int].terminator {
                    None => (h, c),
                    Some(st) => match patched_branch(h.instrs[st.0 as int], join, target) {
                        Some(k) => (with_instr(h, st.0 as int, k), true),
                        None => (h, c),
                    },
                }
            },
        }
    }
}

/// Pass 2 for block `b`.
pub open spec fn thread_block(g: FuncView, consts: Seq<ConstantData>, b: int) -> (FuncView, bool) {
    match g.blocks[b].terminator {
        None => (g, false),
        Some(t) => match g.instrs[t.0 as int] {
            KindView::CondBr { cond, then_dest, else_dest } => match cond {
                ValueRef::Instruction(p) => if g.blocks[b].body.contains(p) {
                    match g.instrs[p.0 as int] {
                        KindView::Phi { ty: _, incoming } => thread_edges(
                            g,
                            consts,
                            incoming,
                            incoming.len() as int,
                            BlockId(b as u32),
                            then_dest,
                            else_dest,
                        ),
                        _ => (g, false),
                    }
                } else {
                    (g, false)
                },
                _ => (g, false),
            },
            _ => (g, false),
        },
    }
}

/// Pass 2 over the first `n` blocks.
pub open spec fn thread_pass(f: FuncView, consts: Seq<ConstantData>, n: int) -> (FuncView, bool)
    decreases n,
{
    if n <= 0 {
        (f, false)
    } else {
        let (g, c) = thread_pass(f, consts, n - 1);
        let (h, d) = thread_block(g, consts, n - 1);
        (h, c || d)
    }
}

proof fn lemma_thread_edges_wf(
    g: FuncView,
    consts: Seq<ConstantData>,
    incoming: Seq<(ValueRef, BlockId)>,
    j: int,
    join: BlockId,
    then_dest: BlockId,
    else_dest: BlockId,
)
    requires
        jt_wf(g, consts.len()),
        0 <= j <= incoming.len(),
        forall|q: int|
            0 <= q < incoming.len() ==> (#[trigger] incoming[q]).1.0 < g.blocks.len() && const_ok(incoming[q].0, consts.len()),
        then_dest.0 < g.blocks.len(),
        else_dest.0 < g.blocks.len(),
    ensures
        jt_wf(thread_edges(g, consts, incoming, j, join, then_dest, else_dest).0, consts.len()),
        thread_edges(g, consts, incoming, j, join, then_dest, else_dest).0.blocks == g.blocks,
        thread_edges(g, consts, incoming, j, join, then_dest, else_dest).0.instrs.len() == g.instrs.len(),
    decreases j,
{
    if j > 0 {
        lemma_thread_edges_wf(g, consts, incoming, j - 1, join, then_dest, else_dest);
        let (h, c) = thread_edges(g, consts, incoming, j - 1, join, then_dest, else_dest);
        let (val, src) = incoming[j - 1];
        match const_bool(consts, val) {
            None => {},
            Some(taken) => {
                let target = if taken { then_dest } else { else_dest };
                match h.blocks[src.0 as int].terminator {
                    None => {},
                    Some(st) => {
                        assert(st.0 < h.instrs.len());
                        assert(kind_refs_ok(h.instrs[st.0 as int], h.blocks.len(), consts.len()));
                        match patched_branch(h.instrs[st.0 as int], join, target) {
                            Some(k) => lemma_with_instr_wf(h, st.0 as int, k, consts.len()),
                            None => {},
                        }
                    },
                }
            },
        }
    }
}

proof fn lemma_thread_block_wf(g: FuncView, consts: Seq<ConstantData>, b: int)
    requires
        jt_wf(g, consts.len()),
        0 <= b < g.blocks.len(),
    ensures
        jt_wf(thread_block(g, consts, b).0, consts.len()),
        thread_block(g, consts, b).0.blocks == g.blocks,
        thread_block(g, consts, b).0.instrs.len() == g.instrs.len(),
{
    match g.blocks[b].terminator {
        None => {},
        Some(t) => {
            assert(t.0 < g.instrs.len());
            assert(kind_refs_ok(g.instrs[t.0 as int], g.blocks.len(), consts.len()));
            match g.instrs[t.0 as int] {
                KindView::CondBr { cond, then_dest, else_dest } => match cond {
                    ValueRef::Instruction(p) => if g.blocks[b].body.contains(p) {
                        let k = choose|k: int| 0 <= k < g.blocks[b].body.len() && g.blocks[b].body[k] == p;
                        assert(p.0 < g.instrs.len());
                        assert(kind_refs_ok(g.instrs[p.0 as int], g.blocks.len(), consts.len()));
                        match g.instrs[p.0 as int] {
                            KindView::Phi { ty: _, incoming } => {
                                lemma_thread_edges_wf(
                                    g,
                                    consts,
                                    incoming,
                                    incoming.len() as int,
                                    BlockId(b as u32),
                                    then_dest,
                                    else_dest,
                                );
                            },
                            _ => {},
                        }
                    },
                    _ => {},
                },
                _ => {},
            }
        },
    }
}

proof fn lemma_thread_pass_wf(f: FuncView, consts: Seq<ConstantData>, n: int)
    requires
        jt_wf(f, consts.len()),
        0 <= n <= f.blocks.len(),
    ensures
        jt_wf(thread_pass(f, consts, n).0, consts.len()),
        thread_pass(f, consts, n).0.blocks == f.blocks,
        thread_pass(f, consts, n).0.instrs.len() == f.instrs.len(),
    decreases n,
{
    if n > 0 {
        lemma_thread_pass_wf(f, consts, n - 1);
        lemma_thread_block_wf(thread_pass(f, consts, n - 1).0, consts, n - 1);
    }
}

fn copy_incoming(v: &Vec<(ValueRef, BlockId)>) -> (r: Vec<(ValueRef, BlockId)>)
    ensures
        r@ == v@,
{
    let mut r: Vec<(ValueRef, BlockId)> = Vec::new();
    let mut i: usize = 0;
    while i < v.len()
        invariant
            i <= v@.len(),
            r@ == v@.take(i as int),
        decreases v@.len() - i,
    {
        let (a, b) = v[i];
        r.push((a, b));
        assert(v@.take(i + 1) =~= v@.take(i as int).push(v@[i as int]));
        i = i + 1;
    }
    assert(v@.take(i as int) =~= v@);
    r
}

fn body_contains(block: &BasicBlock, id: InstrId) -> (r: bool)
    ensures
        r == block@.body.contains(id),
{
    let mut k: usize = 0;
    while k < block.body.len()
        invariant
            k <= block.body@.len(),
            forall|q: int| 0 <= q < k ==> block.body@[q] != id,
        decreases block.body@.len() - k,
    {
        if block.body[k] == id {
            assert(block@.body[k as int] == id);
            return true;
        }
        k = k + 1;
    }
    false
}

/// Pass 2 for block `bidx`.
fn thread_block_exec(ctx: &Context, func: &mut Function, bidx: usize) -> (changed: bool)
    requires
        jt_wf(old(func)@, ctx.constants@.len()),
        bidx < old(func)@.blocks.len(),
    ensures
        (final(func)@, changed) == thread_block(old(func)@, ctx.constants@, bidx as int),
{
    let ghost g = func@;
    let ghost consts = ctx.constants@;
    assert(g.blocks[bidx as int] == func.blocks@[bidx as int]@);
    let tid = match func.blocks[bidx].terminator {
        Some(t) => t,
        None => return false,
    };
    proof {
        assert(tid.0 < g.instrs.len());
        assert(g.instrs[tid.0 as int] == func.instructions@[tid.0 as int]@);
        assert(kind_refs_ok(g.instrs[tid.0 as int], g.blocks.len(), consts.len()));
    }
    let (cond, then_dest, else_dest) = match &func.instructions[tid.0 as usize] {
        InstrKind::CondBr { cond, then_dest, else_dest } => (*cond, *then_dest, *else_dest),
        _ => return false,
    };
    let phi_iid = match cond {
        ValueRef::Instruction(iid) => iid,
        _ => return false,
    };
    if !body_contains(&func.blocks[bidx], phi_iid) {
        return false;
    }
    proof {
        let k = choose|k: int| 0 <= k < g.blocks[bidx as int].body.len() && g.blocks[bidx as int].body[k] == phi_iid;
        assert(phi_iid.0 < g.instrs.len());
        assert(g.instrs[phi_iid.0 as int] == func.instructions@[phi_iid.0 as int]@);
        assert(kind_refs_ok(g.instrs[phi_iid.0 as int], g.blocks.len(), consts.len()));
    }
    let incoming = match &func.instructions[phi_iid.0 as usize] {
        InstrKind::Phi { ty: _, incoming } => copy_incoming(incoming),
        _ => return false,
    };
    let join_bid = BlockId(bidx as u32);
    let ghost inc = incoming@;
    let mut changed = false;
    let mut j: usize = 0;
    while j < incoming.len()
        invariant
            j <= inc.len(),
            inc == incoming@,
            consts == ctx.constants@,
            jt_wf(g, consts.len()),
            forall|q: int|
                0 <= q < inc.len() ==> (#[trigger] inc[q]).1.0 < g.blocks.len() && const_ok(inc[q].0, consts.len()),
            then_dest.0 < g.blocks.len(),
            else_dest.0 < g.blocks.len(),
            (func@, changed) == thread_edges(g, consts, inc, j as int, join_bid, then_dest, else_dest),
        decreases inc.len() - j,
    {
        proof {
            lemma_thread_edges_wf(g, consts, inc, j as int, join_bid, then_dest, else_dest);
        }
        let (val, src_bid) = incoming[j];
        assert(inc[j as int] == (val, src_bid));
        match const_bool_like(ctx, val) {
            None => {},
            Some(taken) => {
                let new_target = if taken {
                    then_dest
                } else {
                    else_dest
                };
                let src_idx = src_bid.0 as usize;
                proof {
                    assert(func@.blocks[src_idx as int] == func.blocks@[src_idx as int]@);
                }
                match func.blocks[src_idx].terminator {
                    None => {},
                    Some(src_tid) => {
                        proof {
                            assert(src_tid.0 < func@.instrs.len());
                            assert(func@.instrs[src_tid.0 as int] == func.instructions@[src_tid.0 as int]@);
                        }
                        let patched = match &func.instructions[src_tid.0 as usize] {
                            InstrKind::Br { dest } => {
                                if *dest == join_bid {
                                    Some(InstrKind::Br { dest: new_target })
                                } else {
                                    None
                                }
                            },
                            InstrKind::CondBr { cond, then_dest: td, else_dest: ed } => {
                                let new_td = if *td == join_bid {
                                    new_target
                                } else {
                                    *td
                                };
                                let new_ed = if *ed == join_bid {
                                    new_target
                                } else {
                                    *ed
                                };
                                if new_td != *td || new_ed != *ed {
                                    Some(InstrKind::CondBr { cond: *cond, then_dest: new_td, else_dest: new_ed })
                                } else {
                                    None
                                }
                            },
                            _ => None,
                        };
                        match patched {
                            Some(kind) => {
                                func.set_instr(src_tid, kind);
                                changed = true;
                            },
                            None => {},
                        }
                    },
                }
            },
        }
        j = j + 1;
    }
    changed
}

/// Pass 2: thread predecessors that feed a constant into a branch-deciding phi.
fn thread_phi_branches(ctx: &Context, func: &mut Function) -> (changed: bool)
    requires
        jt_wf(old(func)@, ctx.constants@.len()),
    ensures
        (final(func)@, changed) == thread_pass(old(func)@, ctx.constants@, old(func)@.blocks.len() as int),
{
    let ghost f0 = func@;
    let ghost consts = ctx.constants@;
    let mut changed = false;
    let n = func.blocks.len();
    let mut bidx: usize = 0;
    while bidx < n
        invariant
            n == f0.blocks.len(),
            consts == ctx.constants@,
            jt_wf(f0, consts.len()),
            bidx <= n,
            (func@, changed) == thread_pass(f0, consts, bidx as int),
        decreases n - bidx,
    {
        proof {
            lemma_thread_pass_wf(f0, consts, bidx as int);
        }
        let c = thread_block_exec(ctx, func, bidx);
        changed = changed || c;
        bidx = bidx + 1;
    }
    changed
}

// ── pass 3: empty-block bypass ─────────────────────────────────────────────

/// Where a branch to `d` goes instead: the target of `d`'s unconditional
/// branch when `d` has no body instruction, else `d` itself.
pub open spec fn bypass_target(g: FuncView, d: BlockId) -> BlockId {
    let blk = g.blocks[d.0 as int];
    if blk.body.len() != 0 {
        d
    } else {
        match blk.terminator {
            None => d,
            Some(t) => match g.instrs[t.0 as int] {
                KindView::Br { dest } => dest,
                _ => d,
            },
        }
    }
}

/// The value that `incoming` attributes to block `b` (its last entry for `b`).
pub open spec fn last_value_from(incoming: Seq<(ValueRef, BlockId)>, b: BlockId) -> Option<ValueRef>
    decreases incoming.len(),
{
    if incoming.len() == 0 {
        None
    } else if incoming.last().1 == b {
        Some(incoming.last().0)
    } else {
        last_value_from(incoming.drop_last(), b)
    }
}

/// Whether `incoming` has an entry for block `b`.
pub open spec fn has_edge_from(incoming: Seq<(ValueRef, BlockId)>, b: BlockId) -> bool {
    exists|j: int| 0 <= j < incoming.len() && (#[trigger] incoming[j]).1 == b
}

/// Phi `k` with an entry for `new_pred` carrying the value that came from
/// `empty`, when it has one for `empty` and none for `new_pred`.
pub open spec fn phi_with_bypass_edge(k: KindView, empty: BlockId, new_pred: BlockId) -> Option<KindView> {
    match k {
        KindView::Phi { ty, incoming } => match last_value_from(incoming, empty) {
            Some(v) => if !has_edge_from(incoming, new_pred) {
                Some(KindView::Phi { ty, incoming: incoming.push((v, new_pred)) })
            } else {
                None
            },
            None => None,
        },
        _ => None,
    }
}

/// The phis among the first `j` instructions of `body` given their bypass entry.
pub open spec fn add_bypass_edges(g: FuncView, body: Seq<InstrId>, j: int, empty: BlockId, new_pred: BlockId) -> FuncView
    decreases j,
{
    if j <= 0 {
        g
    } else {
        let h = add_bypass_edges(g, body, j - 1, empty, new_pred);
        let iid = body[j - 1];
        match phi_with_bypass_edge(h.instrs[iid.0 as int], empty, new_pred) {
            Some(k) => with_instr(h, iid.0 as int, k),
            None => h,
        }
    }
}

/// `g` after block `succ`'s phis received the entries for a bypass of `empty` by `new_pred`.
pub open spec fn with_bypass_edges(g: FuncView, empty: BlockId, succ: BlockId, new_pred: BlockId) -> FuncView {
    add_bypass_edges(g, g.blocks[succ.0 as int].body, g.blocks[succ.0 as int].body.len() as int, empty, new_pred)
}

/// Pass 3 for block `b`: bypass empty targets of its `condbr`.
pub open spec fn bypass_block(g: FuncView, b: int) -> (FuncView, bool) {
    match g.blocks[b].terminator {
        None => (g, false),
        Some(t) => match g.instrs[t.0 as int] {
            KindView::CondBr { cond, then_dest, else_dest } => {
                let nt = bypass_target(g, then_dest);
                let ne = bypass_target(g, else_dest);
                if nt != then_dest || ne != else_dest {
                    let g1 = if nt != then_dest {
                        with_bypass_edges(g, then_dest, nt, BlockId(b as u32))
                    } else {
                        g
                    };
                    let g2 = if ne != else_dest {
                        with_bypass_edges(g1, else_dest, ne, BlockId(b as u32))
                    } else {
                        g1
                    };
                    (with_instr(g2, t.0 as int, KindView::CondBr { cond, then_dest: nt, else_dest: ne }), true)
                } else {
                    (g, false)
                }
            },
            _ => (g, false),
        },
    }
}

/// One sweep of pass 3 over the first `n` blocks.
pub open spec fn sweep(g: FuncView, n: int) -> (FuncView, bool)
    decreases n,
{
    if n <= 0 {
        (g, false)
    } else {
        let (h, c) = sweep(g, n - 1);
        let (k, d) = bypass_block(h, n - 1);
        (k, c || d)
    }
}

/// `k` sweeps over all blocks.
pub open spec fn sweeps(g: FuncView, k: nat) -> FuncView
    decreases k,
{
    if k == 0 {
        g
    } else {
        let h = sweeps(g, (k - 1) as nat);
        sweep(h, h.blocks.len() as int).0
    }
}

/// Following bypass targets from `d` reaches, within `fuel` steps, a block
/// that is not bypassed.
pub open spec fn reaches_kept_block(g: FuncView, d: BlockId, fuel: nat) -> bool
    decreases fuel,
{
    bypass_target(g, d) == d || (fuel > 0 && reaches_kept_block(g, bypass_target(g, d), (fuel - 1) as nat))
}

/// Number of bypass steps from `d` to a kept block, looking at most `fuel` steps.
pub open spec fn bypass_steps(g: FuncView, d: BlockId, fuel: nat) -> nat
    decreases fuel,
{
    if bypass_target(g, d) == d || fuel == 0 {
        0
    } else {
        1 + bypass_steps(g, bypass_target(g, d), (fuel - 1) as nat)
    }
}

/// Every `condbr` that ends a block has targets whose bypass chains end (the
/// chains of empty blocks it would follow contain no cycle).
pub open spec fn bypass_chains_end(g: FuncView) -> bool {
    forall|b: int|
        0 <= b < g.blocks.len() ==> match (#[trigger] g.blocks[b]).terminator {
            Some(t) => match g.instrs[t.0 as int] {
                KindView::CondBr { cond: _, then_dest, else_dest } => reaches_kept_block(
                    g,
                    then_dest,
                    g.blocks.len() as nat,
                ) && reaches_kept_block(g, else_dest, g.blocks.len() as nat),
                _ => true,
            },
            None => true,
        }
}

/// Unconditional branches are the same in `g` and `f` and no new one appeared.
pub open spec fn same_branches(g: FuncView, f: FuncView) -> bool {
    &&& g.blocks == f.blocks
    &&& g.instrs.len() == f.instrs.len()
    &&& forall|i: int|
        0 <= i < g.instrs.len() ==> ((#[trigger] g.instrs[i]) is Br <==> f.instrs[i] is Br) && (f.instrs[i] is Br
            ==> g.instrs[i] == f.instrs[i])
}

/// Pass-3 weight of an instruction: the bypass steps left for a `condbr`'s targets.
pub open spec fn branch_weight(f: FuncView, k: KindView) -> nat {
    match k {
        KindView::CondBr { cond: _, then_dest, else_dest } => bypass_steps(f, then_dest, f.blocks.len() as nat)
            + bypass_steps(f, else_dest, f.blocks.len() as nat),
        _ => 0,
    }
}

/// Total pass-3 weight of the first `j` instructions.
pub open spec fn weight_sum(f: FuncView, instrs: Seq<KindView>, j: int) -> nat
    decreases j,
{
    if j <= 0 {
        0
    } else {
        weight_sum(f, instrs, j - 1) + branch_weight(f, instrs[j - 1])
    }
}

proof fn lemma_weight_update(f: FuncView, instrs: Seq<KindView>, i: int, k: KindView, j: int)
    requires
        0 <= i < instrs.len(),
        0 <= j <= instrs.len(),
    ensures
        weight_sum(f, instrs.update(i, k), j) + (if i < j { branch_weight(f, instrs[i]) } else { 0 }) == weight_sum(
            f,
            instrs,
            j,
        ) + (if i < j { branch_weight(f, k) } else { 0 }),
    decreases j,
{
    if j > 0 {
        lemma_weight_update(f, instrs, i, k, j - 1);
    }
}

proof fn lemma_bypass_target_same(g: FuncView, f: FuncView, d: BlockId)
    requires
        same_branches(g, f),
        ids_in_range(f),
        d.0 < f.blocks.len(),
    ensures
        bypass_target(g, d) == bypass_target(f, d),
{
    let blk = f.blocks[d.0 as int];
    if blk.body.len() == 0 {
        match blk.terminator {
            Some(t) => {
                assert(t.0 < f.instrs.len());
                assert((g.instrs[t.0 as int] is Br) <==> (f.instrs[t.0 as int] is Br));
            },
            None => {},
        }
    }
}

proof fn lemma_reaches_more_fuel(f: FuncView, d: BlockId, a: nat, b: nat)
    requires
        reaches_kept_block(f, d, a),
        a <= b,
    ensures
        reaches_kept_block(f, d, b),
        bypass_steps(f, d, a) == bypass_steps(f, d, b),
    decreases a,
{
    if bypass_target(f, d) != d {
        lemma_reaches_more_fuel(f, bypass_target(f, d), (a - 1) as nat, (b - 1) as nat);
    }
}

/// One bypass step from a bypassed block keeps the chain ending and uses one step.
proof fn lemma_bypass_step(f: FuncView, d: BlockId)
    requires
        reaches_kept_block(f, d, f.blocks.len() as nat),
        bypass_target(f, d) != d,
    ensures
        reaches_kept_block(f, bypass_target(f, d), f.blocks.len() as nat),
        bypass_steps(f, bypass_target(f, d), f.blocks.len() as nat) + 1 == bypass_steps(f, d, f.blocks.len() as nat),
{
    let n = f.blocks.len() as nat;
    lemma_reaches_more_fuel(f, bypass_target(f, d), (n - 1) as nat, n);
}

/// Every block-ending `condbr` of `g` has targets whose bypass chains in `f` end.
pub open spec fn chains_end_in(g: FuncView, f: FuncView) -> bool {
    forall|b: int|
        0 <= b < g.blocks.len() ==> match (#[trigger] g.blocks[b]).terminator {
            Some(t) => match g.instrs[t.0 as int] {
                KindView::CondBr { cond: _, then_dest, else_dest } => reaches_kept_block(
                    f,
                    then_dest,
                    f.blocks.len() as nat,
                ) && reaches_kept_block(f, else_dest, f.blocks.len() as nat),
                _ => true,
            },
            None => true,
        }
}

/// What pass 3 keeps true of the function `g` it works on, which started as `f`.
pub open spec fn bypass_inv(g: FuncView, f: FuncView, nc: nat) -> bool {
    &&& jt_wf(g, nc)
    &&& jt_wf(f, nc)
    &&& same_branches(g, f)
    &&& chains_end_in(g, f)
}

proof fn lemma_last_value_from(incoming: Seq<(ValueRef, BlockId)>, b: BlockId)
    ensures
        last_value_from(incoming, b) matches Some(v) ==> exists|j: int|
            0 <= j < incoming.len() && (#[trigger] incoming[j]) == (v, b),
    decreases incoming.len(),
{
    if incoming.len() > 0 && incoming.last().1 != b {
        lemma_last_value_from(incoming.drop_last(), b);
        if let Some(v) = last_value_from(incoming, b) {
            let j = choose|j: int| 0 <= j < incoming.drop_last().len() && (#[trigger] incoming.drop_last()[j]) == (v, b);
            assert(incoming[j] == (v, b));
        }
    } else if incoming.len() > 0 {
        assert(incoming[incoming.len() - 1] == (incoming.last().0, b));
    }
}

/// Replacing a phi by a phi with in-range references keeps the pass-3 invariant and the weight.
proof fn lemma_phi_update(g: FuncView, f: FuncView, nc: nat, i: int, k: KindView)
    requires
        bypass_inv(g, f, nc),
        0 <= i < g.instrs.len(),
        g.instrs[i] is Phi,
        k is Phi,
        kind_refs_ok(k, g.blocks.len(), nc),
    ensures
        bypass_inv(with_instr(g, i, k), f, nc),
        with_instr(g, i, k).blocks == g.blocks,
        weight_sum(f, with_instr(g, i, k).instrs, g.instrs.len() as int) == weight_sum(f, g.instrs, g.instrs.len() as int),
        forall|q: int| 0 <= q < g.instrs.len() && !(g.instrs[q] is Phi) ==> #[trigger] with_instr(g, i, k).instrs[q] == g.instrs[q],
{
    let h = with_instr(g, i, k);
    lemma_with_instr_wf(g, i, k, nc);
    lemma_weight_update(f, g.instrs, i, k, g.instrs.len() as int);
    assert(same_branches(h, f)) by {
        assert forall|q: int| 0 <= q < h.instrs.len() implies ((#[trigger] h.instrs[q]) is Br <==> f.instrs[q] is Br) && (
        f.instrs[q] is Br ==> h.instrs[q] == f.instrs[q]) by {
            if q != i {
                assert(h.instrs[q] == g.instrs[q]);
            } else {
                assert(!(g.instrs[q] is Br));
            }
        }
    }
    assert(chains_end_in(h, f)) by {
        assert forall|b: int| 0 <= b < h.blocks.len() implies match (#[trigger] h.blocks[b]).terminator {
            Some(t) => match h.instrs[t.0 as int] {
                KindView::CondBr { cond: _, then_dest, else_dest } => reaches_kept_block(
                    f,
                    then_dest,
                    f.blocks.len() as nat,
                ) && reaches_kept_block(f, else_dest, f.blocks.len() as nat),
                _ => true,
            },
            None => true,
        } by {
            assert(h.blocks[b] == g.blocks[b]);
            match g.blocks[b].terminator {
                Some(t) => {
                    if t.0 != i {
                        assert(h.instrs[t.0 as int] == g.instrs[t.0 as int]);
                    }
                },
                None => {},
            }
        }
    }
}

proof fn lemma_add_bypass_edges(g: FuncView, f: FuncView, nc: nat, body: Seq<InstrId>, j: int, empty: BlockId, new_pred: BlockId)
    requires
        bypass_inv(g, f, nc),
        0 <= j <= body.len(),
        forall|q: int| 0 <= q < body.len() ==> (#[trigger] body[q]).0 < g.instrs.len(),
        new_pred.0 < g.blocks.len(),
    ensures
        bypass_inv(add_bypass_edges(g, body, j, empty, new_pred), f, nc),
        add_bypass_edges(g, body, j, empty, new_pred).blocks == g.blocks,
        weight_sum(f, add_bypass_edges(g, body, j, empty, new_pred).instrs, g.instrs.len() as int) == weight_sum(
            f,
            g.instrs,
            g.instrs.len() as int,
        ),
        forall|q: int|
            0 <= q < g.instrs.len() && !(g.instrs[q] is Phi) ==> #[trigger] add_bypass_edges(g, body, j, empty, new_pred).instrs[q]
                == g.instrs[q],
    decreases j,
{
    if j > 0 {
        lemma_add_bypass_edges(g, f, nc, body, j - 1, empty, new_pred);
        let h = add_bypass_edges(g, body, j - 1, empty, new_pred);
        let iid = body[j - 1];
        assert(iid.0 < h.instrs.len());
        match phi_with_bypass_edge(h.instrs[iid.0 as int], empty, new_pred) {
            Some(k) => {
                let ty = h.instrs[iid.0 as int]->Phi_ty;
                let incoming = h.instrs[iid.0 as int]->Phi_incoming;
                let v = last_value_from(incoming, empty)->0;
                lemma_last_value_from(incoming, empty);
                assert(kind_refs_ok(h.instrs[iid.0 as int], h.blocks.len(), nc));
                let w = choose|w: int| 0 <= w < incoming.len() && (#[trigger] incoming[w]) == (v, empty);
                assert(const_ok(incoming[w].0, nc));
                let inc2 = incoming.push((v, new_pred));
                assert(k == KindView::Phi { ty, incoming: inc2 });
                assert forall|q: int| 0 <= q < inc2.len() implies (#[trigger] inc2[q]).1.0 < h.blocks.len() && const_ok(
                    inc2[q].0,
                    nc,
                ) by {
                    if q < incoming.len() {
                        assert(inc2[q] == incoming[q]);
                    }
                }
                assert(kind_refs_ok(k, h.blocks.len(), nc));
                lemma_phi_update(h, f, nc, iid.0 as int, k);
                assert forall|q: int| 0 <= q < g.instrs.len() && !(g.instrs[q] is Phi) implies #[trigger] add_bypass_edges(
                    g,
                    body,
                    j,
                    empty,
                    new_pred,
                ).instrs[q] == g.instrs[q] by {
                    assert(h.instrs[q] == g.instrs[q]);
                }
            },
            None => {},
        }
    }
}

proof fn lemma_condbr_update(g: FuncView, f: FuncView, nc: nat, t: int, k: KindView)
    requires
        bypass_inv(g, f, nc),
        0 <= t < g.instrs.len(),
        g.instrs[t] is CondBr,
        k is CondBr,
        kind_refs_ok(k, g.blocks.len(), nc),
        reaches_kept_block(f, k->then_dest, f.blocks.len() as nat),
        reaches_kept_block(f, k->else_dest, f.blocks.len() as nat),
    ensures
        bypass_inv(with_instr(g, t, k), f, nc),
        with_instr(g, t, k).blocks == g.blocks,
{
    let h = with_instr(g, t, k);
    lemma_with_instr_wf(g, t, k, nc);
    assert(same_branches(h, f)) by {
        assert forall|q: int| 0 <= q < h.instrs.len() implies ((#[trigger] h.instrs[q]) is Br <==> f.instrs[q] is Br) && (
        f.instrs[q] is Br ==> h.instrs[q] == f.instrs[q]) by {
            if q != t {
                assert(h.instrs[q] == g.instrs[q]);
            } else {
                assert(!(g.instrs[q] is Br));
            }
        }
    }
    assert(chains_end_in(h, f)) by {
        assert forall|b: int| 0 <= b < h.blocks.len() implies match (#[trigger] h.blocks[b]).terminator {
            Some(u) => match h.instrs[u.0 as int] {
                KindView::CondBr { cond: _, then_dest, else_dest } => reaches_kept_block(
                    f,
                    then_dest,
                    f.blocks.len() as nat,
                ) && reaches_kept_block(f, else_dest, f.blocks.len() as nat),
                _ => true,
            },
            None => true,
        } by {
            assert(h.blocks[b] == g.blocks[b]);
            match g.blocks[b].terminator {
                Some(u) => {
                    if u.0 != t {
                        assert(h.instrs[u.0 as int] == g.instrs[u.0 as int]);
                    }
                },
                None => {},
            }
        }
    }
}

proof fn lemma_bypass_block(g: FuncView, f: FuncView, nc: nat, b: int)
    requires
        bypass_inv(g, f, nc),
        0 <= b < g.blocks.len(),
    ensures
        bypass_inv(bypass_block(g, b).0, f, nc),
        bypass_block(g, b).0.blocks == g.blocks,
        bypass_block(g, b).1 ==> weight_sum(f, bypass_block(g, b).0.instrs, g.instrs.len() as int) < weight_sum(
            f,
            g.instrs,
            g.instrs.len() as int,
        ),
        !bypass_block(g, b).1 ==> bypass_block(g, b).0 == g,
{
    let n = g.blocks.len();
    match g.blocks[b].terminator {
        None => {},
        Some(t) => {
            assert(t.0 < g.instrs.len());
            match g.instrs[t.0 as int] {
                KindView::CondBr { cond, then_dest, else_dest } => {
                    assert(kind_refs_ok(g.instrs[t.0 as int], n, nc));
                    assert(chains_end_in(g, f));
                    assert(reaches_kept_block(f, then_dest, f.blocks.len() as nat) && reaches_kept_block(
                        f,
                        else_dest,
                        f.blocks.len() as nat,
                    )) by {
                        assert(g.blocks[b] == g.blocks[b]);
                    }
                    lemma_bypass_target_same(g, f, then_dest);
                    lemma_bypass_target_same(g, f, else_dest);
                    let nt = bypass_target(g, then_dest);
                    let ne = bypass_target(g, else_dest);
                    assert(nt.0 < n) by {
                        let blk = f.blocks[then_dest.0 as int];
                        if blk.body.len() == 0 {
                            if let Some(u) = blk.terminator {
                                assert(u.0 < f.instrs.len());
                                assert(kind_refs_ok(f.instrs[u.0 as int], n, nc));
                            }
                        }
                    }
                    assert(ne.0 < n) by {
                        let blk = f.blocks[else_dest.0 as int];
                        if blk.body.len() == 0 {
                            if let Some(u) = blk.terminator {
                                assert(u.0 < f.instrs.len());
                                assert(kind_refs_ok(f.instrs[u.0 as int], n, nc));
                            }
                        }
                    }
                    if nt != then_dest || ne != else_dest {
                        let pred = BlockId(b as u32);
                        let g1 = if nt != then_dest {
                            with_bypass_edges(g, then_dest, nt, pred)
                        } else {
                            g
                        };
                        if nt != then_dest {
                            assert forall|q: int| 0 <= q < g.blocks[nt.0 as int].body.len() implies (#[trigger] g.blocks[nt.0 as int].body[q]).0 < g.instrs.len() by {
                                assert(g.blocks[nt.0 as int] == g.blocks[nt.0 as int]);
                            }
                            lemma_add_bypass_edges(g, f, nc, g.blocks[nt.0 as int].body, g.blocks[nt.0 as int].body.len() as int, then_dest, pred);
                        }
                        let g2 = if ne != else_dest {
                            with_bypass_edges(g1, else_dest, ne, pred)
                        } else {
                            g1
                        };
                        if ne != else_dest {
                            assert forall|q: int| 0 <= q < g1.blocks[ne.0 as int].body.len() implies (#[trigger] g1.blocks[ne.0 as int].body[q]).0 < g1.instrs.len() by {
                                assert(g1.blocks[ne.0 as int] == g1.blocks[ne.0 as int]);
                            }
                            lemma_add_bypass_edges(g1, f, nc, g1.blocks[ne.0 as int].body, g1.blocks[ne.0 as int].body.len() as int, else_dest, pred);
                        }
                        let k = KindView::CondBr { cond, then_dest: nt, else_dest: ne };
                        assert(g1.instrs[t.0 as int] == g.instrs[t.0 as int]);
                        assert(g1.instrs[t.0 as int] == g.instrs[t.0 as int]);
                assert(g2.instrs[t.0 as int] == g.instrs[t.0 as int]);
                        if nt != then_dest {
                            lemma_bypass_step(f, then_dest);
                        }
                        if ne != else_dest {
                            lemma_bypass_step(f, else_dest);
                        }
                        lemma_condbr_update(g2, f, nc, t.0 as int, k);
                        lemma_weight_update(f, g2.instrs, t.0 as int, k, g2.instrs.len() as int);
                    }
                },
                _ => {},
            }
        },
    }
}

proof fn lemma_sweep(g: FuncView, f: FuncView, nc: nat, n: int)
    requires
        bypass_inv(g, f, nc),
        0 <= n <= g.blocks.len(),
    ensures
        bypass_inv(sweep(g, n).0, f, nc),
        sweep(g, n).0.blocks == g.blocks,
        sweep(g, n).1 ==> weight_sum(f, sweep(g, n).0.instrs, g.instrs.len() as int) < weight_sum(
            f,
            g.instrs,
            g.instrs.len() as int,
        ),
        !sweep(g, n).1 ==> sweep(g, n).0 == g,
    decreases n,
{
    if n > 0 {
        lemma_sweep(g, f, nc, n - 1);
        let (h, c) = sweep(g, n - 1);
        lemma_bypass_block(h, f, nc, n - 1);
    }
}

proof fn lemma_add_bypass_edges_shape(g: FuncView, body: Seq<InstrId>, j: int, empty: BlockId, new_pred: BlockId)
    requires
        0 <= j <= body.len(),
        forall|q: int| 0 <= q < body.len() ==> (#[trigger] body[q]).0 < g.instrs.len(),
    ensures
        add_bypass_edges(g, body, j, empty, new_pred).blocks == g.blocks,
        add_bypass_edges(g, body, j, empty, new_pred).instrs.len() == g.instrs.len(),
        forall|q: int|
            0 <= q < g.instrs.len() && !(g.instrs[q] is Phi) ==> #[trigger] add_bypass_edges(g, body, j, empty, new_pred).instrs[q]
                == g.instrs[q],
    decreases j,
{
    if j > 0 {
        lemma_add_bypass_edges_shape(g, body, j - 1, empty, new_pred);
        let h = add_bypass_edges(g, body, j - 1, empty, new_pred);
        assert(body[j - 1].0 < g.instrs.len());
    }
}

/// Where a branch to `bid` can go instead.
fn bypass_if_empty(func: &Function, bid: BlockId) -> (r: BlockId)
    requires
        ids_in_range(func@),
        bid.0 < func@.blocks.len(),
    ensures
        r == bypass_target(func@, bid),
{
    let block = &func.blocks[bid.0 as usize];
    assert(func@.blocks[bid.0 as int] == block@);
    if block.body.len() != 0 {
        return bid;
    }
    let tid = match block.terminator {
        Some(t) => t,
        None => return bid,
    };
    assert(func@.instrs[tid.0 as int] == func.instructions@[tid.0 as int]@);
    match &func.instructions[tid.0 as usize] {
        InstrKind::Br { dest } => *dest,
        _ => bid,
    }
}

fn copy_ids(v: &Vec<InstrId>) -> (r: Vec<InstrId>)
    ensures
        r@ == v@,
{
    let mut r: Vec<InstrId> = Vec::new();
    let mut i: usize = 0;
    while i < v.len()
        invariant
            i <= v@.len(),
            r@ == v@.take(i as int),
        decreases v@.len() - i,
    {
        r.push(v[i]);
        assert(v@.take(i + 1) =~= v@.take(i as int).push(v@[i as int]));
        i = i + 1;
    }
    assert(v@.take(i as int) =~= v@);
    r
}

/// After `new_pred` bypasses the empty block `empty` to reach `succ`, give
/// every phi of `succ` that has a value from `empty` the same value from
/// `new_pred`, unless it already lists `new_pred`.
fn add_phi_edge_for_bypass(func: &mut Function, empty: BlockId, succ: BlockId, new_pred: BlockId)
    requires
        ids_in_range(old(func)@),
        succ.0 < old(func)@.blocks.len(),
    ensures
        final(func)@ == with_bypass_edges(old(func)@, empty, succ, new_pred),
{
    let ghost g = func@;
    assert(g.blocks[succ.0 as int] == func.blocks@[succ.0 as int]@);
    let body = copy_ids(&func.blocks[succ.0 as usize].body);
    let ghost bv = body@;
    assert(forall|q: int| 0 <= q < bv.len() ==> (#[trigger] bv[q]).0 < g.instrs.len()) by {
        assert forall|q: int| 0 <= q < bv.len() implies (#[trigger] bv[q]).0 < g.instrs.len() by {
            assert(bv[q] == g.blocks[succ.0 as int].body[q]);
        }
    }
    let mut j: usize = 0;
    while j < body.len()
        invariant
            j <= bv.len(),
            bv == body@,
            bv == g.blocks[succ.0 as int].body,
            forall|q: int| 0 <= q < bv.len() ==> (#[trigger] bv[q]).0 < g.instrs.len(),
            func@ == add_bypass_edges(g, bv, j as int, empty, new_pred),
        decreases bv.len() - j,
    {
        proof {
            lemma_add_bypass_edges_shape(g, bv, j as int, empty, new_pred);
        }
        let iid = body[j];
        assert(func@.instrs[iid.0 as int] == func.instructions@[iid.0 as int]@);
        let update = match &func.instructions[iid.0 as usize] {
            InstrKind::Phi { ty, incoming } => {
                let ghost inc = incoming@;
                let mut via_empty: Option<ValueRef> = None;
                let mut has_new_pred = false;
                let mut q: usize = 0;
                while q < incoming.len()
                    invariant
                        q <= inc.len(),
                        inc == incoming@,
                        via_empty == last_value_from(inc.take(q as int), empty),
                        has_new_pred == has_edge_from(inc.take(q as int), new_pred),
                    decreases inc.len() - q,
                {
                    let (v, b) = incoming[q];
                    proof {
                        assert(inc.take(q + 1).drop_last() =~= inc.take(q as int));
                        assert(inc.take(q + 1).last() == (v, b));
                        if has_edge_from(inc.take(q as int), new_pred) {
                            let w = choose|w: int| 0 <= w < inc.take(q as int).len() && (#[trigger] inc.take(q as int)[w]).1 == new_pred;
                            assert(inc.take(q + 1)[w] == inc.take(q as int)[w]);
                        }
                        if b == new_pred {
                            assert(inc.take(q + 1)[q as int].1 == new_pred);
                        }
                        if has_edge_from(inc.take(q + 1), new_pred) && b != new_pred {
                            let w = choose|w: int| 0 <= w < inc.take(q + 1).len() && (#[trigger] inc.take(q + 1)[w]).1 == new_pred;
                            assert(inc.take(q as int)[w] == inc.take(q + 1)[w]);
                        }
                    }
                    if b == empty {
                        via_empty = Some(v);
                    }
                    if b == new_pred {
                        has_new_pred = true;
                    }
                    q = q + 1;
                }
                assert(inc.take(q as int) =~= inc);
                match via_empty {
                    Some(v) => {
                        if !has_new_pred {
                            let mut new_incoming = copy_incoming(incoming);
                            new_incoming.push((v, new_pred));
                            Some(InstrKind::Phi { ty: *ty, incoming: new_incoming })
                        } else {
                            None
                        }
                    },
                    None => None,
                }
            },
            _ => None,
        };
        match update {
            Some(kind) => {
                func.set_instr(iid, kind);
            },
            None => {},
        }
        j = j + 1;
    }
}

/// Pass 3 for block `bidx`.
fn bypass_block_exec(func: &mut Function, bidx: usize, Ghost(f): Ghost<FuncView>, Ghost(nc): Ghost<nat>) -> (changed: bool)
    requires
        bypass_inv(old(func)@, f, nc),
        bidx < old(func)@.blocks.len(),
    ensures
        (final(func)@, changed) == bypass_block(old(func)@, bidx as int),
{
    let ghost g = func@;
    proof {
        lemma_bypass_block(g, f, nc, bidx as int);
    }
    assert(g.blocks[bidx as int] == func.blocks@[bidx as int]@);
    let tid = match func.blocks[bidx].terminator {
        Some(t) => t,
        None => return false,
    };
    proof {
        assert(tid.0 < g.instrs.len());
        assert(g.instrs[tid.0 as int] == func.instructions@[tid.0 as int]@);
        assert(kind_refs_ok(g.instrs[tid.0 as int], g.blocks.len(), nc));
    }
    let (cond, then_dest, else_dest) = match &func.instructions[tid.0 as usize] {
        InstrKind::CondBr { cond, then_dest, else_dest } => (*cond, *then_dest, *else_dest),
        _ => return false,
    };
    let new_then = bypass_if_empty(func, then_dest);
    let new_else = bypass_if_empty(func, else_dest);
    if new_then != then_dest || new_else != else_dest {
        proof {
            lemma_bypass_target_same(g, f, then_dest);
            lemma_bypass_target_same(g, f, else_dest);
            let blk = f.blocks[then_dest.0 as int];
            if blk.body.len() == 0 {
                if let Some(u) = blk.terminator {
                    assert(u.0 < f.instrs.len());
                    assert(kind_refs_ok(f.instrs[u.0 as int], f.blocks.len(), nc));
                }
            }
            let blk2 = f.blocks[else_dest.0 as int];
            if blk2.body.len() == 0 {
                if let Some(u) = blk2.terminator {
                    assert(u.0 < f.instrs.len());
                    assert(kind_refs_ok(f.instrs[u.0 as int], f.blocks.len(), nc));
                }
            }
        }
        let pred = BlockId(bidx as u32);
        if new_then != then_dest {
            add_phi_edge_for_bypass(func, then_dest, new_then, pred);
        }
        proof {
            if new_then != then_dest {
                assert forall|q: int| 0 <= q < g.blocks[new_then.0 as int].body.len() implies (#[trigger] g.blocks[new_then.0 as int].body[q]).0 < g.instrs.len() by {
                    assert(g.blocks[new_then.0 as int] == g.blocks[new_then.0 as int]);
                }
                lemma_add_bypass_edges_shape(
                    g,
                    g.blocks[new_then.0 as int].body,
                    g.blocks[new_then.0 as int].body.len() as int,
                    then_dest,
                    pred,
                );
            }
        }
        if new_else != else_dest {
            add_phi_edge_for_bypass(func, else_dest, new_else, pred);
        }
        proof {
            let g1 = if new_then != then_dest {
                with_bypass_edges(g, then_dest, new_then, pred)
            } else {
                g
            };
            if new_else != else_dest {
                assert forall|q: int| 0 <= q < g1.blocks[new_else.0 as int].body.len() implies (#[trigger] g1.blocks[new_else.0 as int].body[q]).0 < g1.instrs.len() by {
                    assert(g1.blocks[new_else.0 as int] == g1.blocks[new_else.0 as int]);
                }
                lemma_add_bypass_edges_shape(
                    g1,
                    g1.blocks[new_else.0 as int].body,
                    g1.blocks[new_else.0 as int].body.len() as int,
                    else_dest,
                    pred,
                );
            }
        }
        func.set_instr(tid, InstrKind::CondBr { cond, then_dest: new_then, else_dest: new_else });
        true
    } else {
        false
    }
}

/// Every `condbr` of `f` ends its bypass chains exactly when its chains end in `f` itself.
proof fn lemma_bypass_inv_start(f: FuncView, nc: nat)
    requires
        jt_wf(f, nc),
        bypass_chains_end(f),
    ensures
        bypass_inv(f, f, nc),
{
    assert(chains_end_in(f, f)) by {
        assert forall|b: int| 0 <= b < f.blocks.len() implies match (#[trigger] f.blocks[b]).terminator {
            Some(t) => match f.instrs[t.0 as int] {
                KindView::CondBr { cond: _, then_dest, else_dest } => reaches_kept_block(
                    f,
                    then_dest,
                    f.blocks.len() as nat,
                ) && reaches_kept_block(f, else_dest, f.blocks.len() as nat),
                _ => true,
            },
            None => true,
        } by {
            assert(bypass_chains_end(f));
        }
    }
}

/// Pass 3: sweep all blocks, bypassing empty `condbr` targets, until a
/// sweep changes nothing.
fn bypass_empty_blocks(func: &mut Function, Ghost(nc): Ghost<nat>) -> (changed: bool)
    requires
        jt_wf(old(func)@, nc),
        bypass_chains_end(old(func)@),
    ensures
        exists|k: nat|
            final(func)@ == sweeps(old(func)@, k) && (forall|j: nat|
                j < k ==> (#[trigger] sweep(sweeps(old(func)@, j), old(func)@.blocks.len() as int)).1) && !sweep(
                final(func)@,
                old(func)@.blocks.len() as int,
            ).1 && changed == (k > 0),
        jt_wf(final(func)@, nc),
        final(func)@.blocks == old(func)@.blocks,
        final(func)@.instrs.len() == old(func)@.instrs.len(),
{
    let ghost f0 = func@;
    proof {
        lemma_bypass_inv_start(f0, nc);
    }
    let ghost mut k: nat = 0;
    let n = func.blocks.len();
    let mut changed = false;
    let mut local_changed = true;
    while local_changed
        invariant
            n == f0.blocks.len(),
            bypass_inv(func@, f0, nc),
            func@ == sweeps(f0, k),
            forall|j: nat| j < k ==> (#[trigger] sweep(sweeps(f0, j), n as int)).1,
            !local_changed ==> !sweep(func@, n as int).1,
            changed == (k > 0),
        decreases weight_sum(f0, func@.instrs, f0.instrs.len() as int) + (if local_changed { 1nat } else { 0nat }),
    {
        let ghost g = func@;
        proof {
            lemma_sweep(g, f0, nc, n as int);
        }
        local_changed = false;
        let mut bidx: usize = 0;
        while bidx < n
            invariant
                n == f0.blocks.len(),
                g.blocks == f0.blocks,
                bypass_inv(g, f0, nc),
                bidx <= n,
                (func@, local_changed) == sweep(g, bidx as int),
            decreases n - bidx,
        {
            proof {
                lemma_sweep(g, f0, nc, bidx as int);
            }
            let c = bypass_block_exec(func, bidx, Ghost(f0), Ghost(nc));
            if c {
                local_changed = true;
            }
            bidx = bidx + 1;
        }
        if local_changed {
            changed = true;
            proof {
                assert(g.blocks.len() == n);
                assert(sweeps(f0, k + 1) == sweep(g, n as int).0);
                assert forall|j: nat| j < k + 1 implies (#[trigger] sweep(sweeps(f0, j), n as int)).1 by {
                    if j == k {
                        assert(sweeps(f0, j) == g);
                    }
                }
                k = k + 1;
            }
        }
    }
    changed
}

// ── the pass ───────────────────────────────────────────────────────────────

/// The function after passes 1 and 2.
pub open spec fn threaded(f: FuncView, consts: Seq<ConstantData>) -> FuncView {
    thread_pass(fold_pass(f, consts, f.blocks.len() as int).0, consts, f.blocks.len() as int).0
}

/// Whether passes 1 and 2 changed the function.
pub open spec fn threaded_changed(f: FuncView, consts: Seq<ConstantData>) -> bool {
    fold_pass(f, consts, f.blocks.len() as int).1 || thread_pass(
        fold_pass(f, consts, f.blocks.len() as int).0,
        consts,
        f.blocks.len() as int,
    ).1
}

/// The jump-threading pass.
#[derive(Clone, Copy, Debug, Default)]
pub struct JumpThreading;

impl JumpThreading {
    /// The pass name.
    pub fn name(&self) -> (s: &'static str)
        ensures
            s@ == "jump-threading"@,
    {
        "jump-threading"
    }

    /// Run the three transformations on `func`: constant-condition folding
    /// over all blocks, then phi-based threading over all blocks, then sweeps
    /// of empty-block bypass until a sweep changes nothing. Returns whether
    /// anything changed.
    ///
    /// The bypass sweeps end only when the chains of empty forwarding blocks
    /// they follow end, which `requires` states of the function they start on.
    pub fn run_on_function(&mut self, ctx: &mut Context, func: &mut Function) -> (changed: bool)
        requires
            jt_wf(old(func)@, old(ctx).constants@.len()),
            bypass_chains_end(threaded(old(func)@, old(ctx).constants@)),
        ensures
            final(ctx).constants@ == old(ctx).constants@,
            final(func)@.blocks == old(func)@.blocks,
            final(func)@.instrs.len() == old(func)@.instrs.len(),
            phis_kept(old(func)@, final(func)@),
            !changed ==> final(func)@ == old(func)@,
            exists|k: nat|
                #![trigger sweeps(threaded(old(func)@, old(ctx).constants@), k)]
                final(func)@ == sweeps(threaded(old(func)@, old(ctx).constants@), k) && (forall|j: nat|
                    j < k ==> (#[trigger] sweep(
                        sweeps(threaded(old(func)@, old(ctx).constants@), j),
                        old(func)@.blocks.len() as int,
                    )).1) && !sweep(final(func)@, old(func)@.blocks.len() as int).1 && changed == (threaded_changed(
                    old(func)@,
                    old(ctx).constants@,
                ) || k > 0),
    {
        let ghost f0 = func@;
        let ghost consts = ctx.constants@;
        let ghost n = f0.blocks.len() as int;
        let c1 = fold_constant_branches(ctx, func);
        proof {
            lemma_fold_pass_wf(f0, consts, n);
        }
        let ghost f1 = func@;
        let c2 = thread_phi_branches(ctx, func);
        proof {
            lemma_thread_pass_wf(f1, consts, n);
        }
        let ghost f2 = func@;
        assert(f2 == threaded(f0, consts));
        let c3 = bypass_empty_blocks(func, Ghost(consts.len()));
        proof {
            let k = choose|k: nat|
                func@ == #[trigger] sweeps(f2, k) && (forall|j: nat| j < k ==> (#[trigger] sweep(sweeps(f2, j), f2.blocks.len() as int)).1)
                    && !sweep(func@, f2.blocks.len() as int).1 && c3 == (k > 0);
            lemma_jump_threading_keeps_phis(f0, consts, k);
            if !(c1 || c2 || c3) {
                lemma_quiet_threading_changes_nothing(f0, consts);
                assert(func@ == sweeps(f2, 0));
            }
        }
        c1 || c2 || c3
    }
}

/// A sweep that reports no change leaves the function as it is.
proof fn lemma_quiet_sweep(g: FuncView, n: int)
    requires
        !sweep(g, n).1,
    ensures
        sweep(g, n).0 == g,
        forall|b: int| 0 <= b < n ==> !(#[trigger] bypass_block(g, b)).1,
    decreases n,
{
    if n > 0 {
        lemma_quiet_sweep(g, n - 1);
    }
}

/// When a bypass sweep finds nothing to do, no block-ending `condbr` of the
/// function targets a block that would be bypassed: both targets have a body
/// or do not end in an unconditional branch.
pub proof fn lemma_no_bypassable_target_left(g: FuncView)
    requires
        !sweep(g, g.blocks.len() as int).1,
    ensures
        forall|b: int|
            0 <= b < g.blocks.len() ==> match (#[trigger] g.blocks[b]).terminator {
                Some(t) => match g.instrs[t.0 as int] {
                    KindView::CondBr { cond: _, then_dest, else_dest } => bypass_target(g, then_dest) == then_dest
                        && bypass_target(g, else_dest) == else_dest,
                    _ => true,
                },
                None => true,
            },
{
    lemma_quiet_sweep(g, g.blocks.len() as int);
    assert forall|b: int| 0 <= b < g.blocks.len() implies match (#[trigger] g.blocks[b]).terminator {
        Some(t) => match g.instrs[t.0 as int] {
            KindView::CondBr { cond: _, then_dest, else_dest } => bypass_target(g, then_dest) == then_dest
                && bypass_target(g, else_dest) == else_dest,
            _ => true,
        },
        None => true,
    } by {
        assert(!bypass_block(g, b).1);
    }
}

/// What bypass bookkeeping does to one instruction: a phi with a value from
/// `empty` ends up with exactly one more entry, that value from `new_pred`,
/// unless it already listed `new_pred`; every other instruction is kept.
pub open spec fn bypass_entry(old: KindView, empty: BlockId, new_pred: BlockId) -> KindView {
    match phi_with_bypass_edge(old, empty, new_pred) {
        Some(k) => k,
        None => old,
    }
}

proof fn lemma_bypass_entry_stable(k: KindView, empty: BlockId, new_pred: BlockId)
    ensures
        phi_with_bypass_edge(bypass_entry(k, empty, new_pred), empty, new_pred) is None
            || bypass_entry(k, empty, new_pred) == k,
{
    if let Some(k2) = phi_with_bypass_edge(k, empty, new_pred) {
        let inc2 = k2->Phi_incoming;
        assert(inc2[inc2.len() - 1].1 == new_pred);
        assert(has_edge_from(inc2, new_pred));
    }
}

/// `body` lists instruction `i`.
pub open spec fn lists_instr(body: Seq<InstrId>, i: int) -> bool {
    exists|q: int| 0 <= q < body.len() && (#[trigger] body[q]).0 == i
}

proof fn lemma_add_bypass_edges_effect(g: FuncView, body: Seq<InstrId>, j: int, empty: BlockId, new_pred: BlockId)
    requires
        0 <= j <= body.len(),
        forall|q: int| 0 <= q < body.len() ==> (#[trigger] body[q]).0 < g.instrs.len(),
    ensures
        add_bypass_edges(g, body, j, empty, new_pred).instrs.len() == g.instrs.len(),
        forall|i: int|
            0 <= i < g.instrs.len() ==> #[trigger] add_bypass_edges(g, body, j, empty, new_pred).instrs[i] == (if lists_instr(
                body.take(j),
                i,
            ) {
                bypass_entry(g.instrs[i], empty, new_pred)
            } else {
                g.instrs[i]
            }),
    decreases j,
{
    if j > 0 {
        lemma_add_bypass_edges_effect(g, body, j - 1, empty, new_pred);
        let h = add_bypass_edges(g, body, j - 1, empty, new_pred);
        let r = add_bypass_edges(g, body, j, empty, new_pred);
        let iid = body[j - 1];
        assert(iid.0 < g.instrs.len());
        assert forall|i: int| 0 <= i < g.instrs.len() implies #[trigger] r.instrs[i] == (if lists_instr(body.take(j), i) {
            bypass_entry(g.instrs[i], empty, new_pred)
        } else {
            g.instrs[i]
        }) by {
            let before = lists_instr(body.take(j - 1), i);
            let now = lists_instr(body.take(j), i);
            assert(body.take(j) == body.take(j - 1).push(iid));
            if before {
                let w = choose|w: int| 0 <= w < body.take(j - 1).len() && (#[trigger] body.take(j - 1)[w]).0 == i;
                assert(body.take(j)[w] == body.take(j - 1)[w]);
            }
            if iid.0 == i {
                assert(body.take(j)[j - 1] == iid);
                lemma_bypass_entry_stable(g.instrs[i], empty, new_pred);
            } else if now {
                let w = choose|w: int| 0 <= w < body.take(j).len() && (#[trigger] body.take(j)[w]).0 == i;
                assert(w < j - 1);
                assert(body.take(j - 1)[w] == body.take(j)[w]);
            }
        }
    }
}

/// Bypassing an empty block keeps every phi value: after `new_pred` is
/// redirected past `empty` to `succ`, each instruction of `succ`'s body is
/// given its bypass entry (a phi carrying a value from `empty` gains that
/// value from `new_pred`, unless it already lists `new_pred`; no entry is
/// dropped), and every instruction outside that body is unchanged.
pub proof fn lemma_bypass_keeps_phi_values(g: FuncView, empty: BlockId, succ: BlockId, new_pred: BlockId)
    requires
        ids_in_range(g),
        succ.0 < g.blocks.len(),
    ensures
        with_bypass_edges(g, empty, succ, new_pred).instrs.len() == g.instrs.len(),
        forall|i: int|
            0 <= i < g.instrs.len() ==> #[trigger] with_bypass_edges(g, empty, succ, new_pred).instrs[i] == (if lists_instr(
                g.blocks[succ.0 as int].body,
                i,
            ) {
                bypass_entry(g.instrs[i], empty, new_pred)
            } else {
                g.instrs[i]
            }),
{
    let body = g.blocks[succ.0 as int].body;
    assert forall|q: int| 0 <= q < body.len() implies (#[trigger] body[q]).0 < g.instrs.len() by {
        assert(g.blocks[succ.0 as int] == g.blocks[succ.0 as int]);
    }
    lemma_add_bypass_edges_effect(g, body, body.len() as int, empty, new_pred);
    assert(body.take(body.len() as int) =~= body);
}

// ── laws ───────────────────────────────────────────────────────────────────

/// Constant-condition folding, over the first `n` blocks: blocks stay; each
/// instruction is either kept or replaced by the branch it folds to; a block
/// whose terminator is a `condbr` on an integer constant ends in the `br` to
/// the taken target; and with no such block nothing changes.
pub proof fn lemma_fold_pass_folds(f: FuncView, consts: Seq<ConstantData>, n: int)
    requires
        ids_in_range(f),
        0 <= n <= f.blocks.len(),
    ensures
        fold_pass(f, consts, n).0.blocks == f.blocks,
        fold_pass(f, consts, n).0.instrs.len() == f.instrs.len(),
        forall|i: int|
            0 <= i < f.instrs.len() ==> #[trigger] fold_pass(f, consts, n).0.instrs[i] == f.instrs[i] || Some(
                fold_pass(f, consts, n).0.instrs[i],
            ) == folded_branch(consts, f.instrs[i]),
        forall|b: int|
            0 <= b < n ==> match (#[trigger] f.blocks[b]).terminator {
                Some(t) => folded_branch(consts, f.instrs[t.0 as int]) matches Some(k) ==> fold_pass(f, consts, n).0.instrs[t.0 as int]
                    == k,
                None => true,
            },
        (forall|b: int|
            0 <= b < n ==> match (#[trigger] f.blocks[b]).terminator {
                Some(t) => folded_branch(consts, f.instrs[t.0 as int]) is None,
                None => true,
            }) ==> fold_pass(f, consts, n) == (f, false),
    decreases n,
{
    if n > 0 {
        lemma_fold_pass_folds(f, consts, n - 1);
        let (g, c) = fold_pass(f, consts, n - 1);
        let r = fold_pass(f, consts, n).0;
        assert(g.blocks[n - 1] == f.blocks[n - 1]);
        match g.blocks[n - 1].terminator {
            Some(t) => {
                assert((t.0 as int) < f.instrs.len());
                assert(g.instrs[t.0 as int] == f.instrs[t.0 as int] || Some(g.instrs[t.0 as int]) == folded_branch(
                    consts,
                    f.instrs[t.0 as int],
                ));
                match folded_branch(consts, g.instrs[t.0 as int]) {
                    Some(k) => {
                        assert(g.instrs[t.0 as int] == f.instrs[t.0 as int]);
                        assert forall|i: int| 0 <= i < f.instrs.len() implies #[trigger] r.instrs[i] == f.instrs[i] || Some(
                            r.instrs[i],
                        ) == folded_branch(consts, f.instrs[i]) by {
                            if i != t.0 as int {
                                assert(r.instrs[i] == g.instrs[i]);
                            }
                        }
                        assert forall|b: int| 0 <= b < n implies match (#[trigger] f.blocks[b]).terminator {
                            Some(t2) => folded_branch(consts, f.instrs[t2.0 as int]) matches Some(k2) ==> r.instrs[t2.0 as int]
                                == k2,
                            None => true,
                        } by {
                            if b < n - 1 {
                                if let Some(t2) = f.blocks[b].terminator {
                                    if t2 == t {
                                        assert(folded_branch(consts, g.instrs[t.0 as int]) is None || g.instrs[t.0 as int]
                                            == f.instrs[t.0 as int]);
                                    } else {
                                        assert(r.instrs[t2.0 as int] == g.instrs[t2.0 as int]);
                                    }
                                }
                            }
                        }
                    },
                    None => {
                        assert forall|b: int| 0 <= b < n implies match (#[trigger] f.blocks[b]).terminator {
                            Some(t2) => folded_branch(consts, f.instrs[t2.0 as int]) matches Some(k2) ==> r.instrs[t2.0 as int]
                                == k2,
                            None => true,
                        } by {
                            if b == n - 1 {
                                if let Some(k2) = folded_branch(consts, f.instrs[t.0 as int]) {
                                    assert(g.instrs[t.0 as int] != f.instrs[t.0 as int]);
                                }
                            }
                        }
                    },
                }
            },
            None => {},
        }
    }
}

/// Instruction `b` keeps what phi `a` had: when `a` is a phi, `b` is a phi of
/// the same type whose incoming list starts with all of `a`'s entries.
pub open spec fn phi_kept(a: KindView, b: KindView) -> bool {
    match a {
        KindView::Phi { ty, incoming } => match b {
            KindView::Phi { ty: ty2, incoming: inc2 } => ty2 == ty && incoming.len() <= inc2.len() && inc2.take(
                incoming.len() as int,
            ) == incoming,
            _ => false,
        },
        _ => true,
    }
}

/// `g` has the blocks of `f`, as many instructions, and no phi of `f` lost an
/// incoming entry in `g`.
pub open spec fn phis_kept(f: FuncView, g: FuncView) -> bool {
    &&& g.blocks == f.blocks
    &&& g.instrs.len() == f.instrs.len()
    &&& forall|i: int| 0 <= i < f.instrs.len() ==> phi_kept(#[trigger] f.instrs[i], g.instrs[i])
}

proof fn lemma_phi_kept_trans(a: KindView, b: KindView, c: KindView)
    requires
        phi_kept(a, b),
        phi_kept(b, c),
    ensures
        phi_kept(a, c),
{
    if let KindView::Phi { ty, incoming } = a {
        let inc2 = b->Phi_incoming;
        let inc3 = c->Phi_incoming;
        assert(inc3.take(incoming.len() as int) =~= inc3.take(inc2.len() as int).take(incoming.len() as int));
    }
}

proof fn lemma_phis_kept_refl(f: FuncView)
    ensures
        phis_kept(f, f),
{
    assert forall|i: int| 0 <= i < f.instrs.len() implies phi_kept(#[trigger] f.instrs[i], f.instrs[i]) by {
        if let KindView::Phi { ty, incoming } = f.instrs[i] {
            assert(incoming.take(incoming.len() as int) =~= incoming);
        }
    }
}

proof fn lemma_phis_kept_trans(f: FuncView, g: FuncView, h: FuncView)
    requires
        phis_kept(f, g),
        phis_kept(g, h),
    ensures
        phis_kept(f, h),
{
    assert forall|i: int| 0 <= i < f.instrs.len() implies phi_kept(#[trigger] f.instrs[i], h.instrs[i]) by {
        assert(phi_kept(g.instrs[i], h.instrs[i]));
        lemma_phi_kept_trans(f.instrs[i], g.instrs[i], h.instrs[i]);
    }
}

/// Replacing an instruction that is not a phi keeps every phi.
proof fn lemma_with_instr_keeps(g: FuncView, i: int, k: KindView)
    requires
        0 <= i < g.instrs.len(),
        phi_kept(g.instrs[i], k),
    ensures
        phis_kept(g, with_instr(g, i, k)),
{
    lemma_phis_kept_refl(g);
    let h = with_instr(g, i, k);
    assert forall|j: int| 0 <= j < g.instrs.len() implies phi_kept(#[trigger] g.instrs[j], h.instrs[j]) by {
        if j != i {
            assert(h.instrs[j] == g.instrs[j]);
            assert(phi_kept(g.instrs[j], g.instrs[j]));
        }
    }
}

proof fn lemma_fold_pass_keeps(f: FuncView, consts: Seq<ConstantData>, n: int)
    requires
        ids_in_range(f),
        0 <= n <= f.blocks.len(),
    ensures
        phis_kept(f, fold_pass(f, consts, n).0),
    decreases n,
{
    if n <= 0 {
        lemma_phis_kept_refl(f);
    } else {
        lemma_fold_pass_keeps(f, consts, n - 1);
        let g = fold_pass(f, consts, n - 1).0;
        if let Some(t) = g.blocks[n - 1].terminator {
            if let Some(k) = folded_branch(consts, g.instrs[t.0 as int]) {
                assert(g.blocks[n - 1] == f.blocks[n - 1]);
                lemma_with_instr_keeps(g, t.0 as int, k);
                lemma_phis_kept_trans(f, g, with_instr(g, t.0 as int, k));
            }
        }
    }
}

proof fn lemma_thread_edges_keeps(
    g: FuncView,
    consts: Seq<ConstantData>,
    incoming: Seq<(ValueRef, BlockId)>,
    j: int,
    join: BlockId,
    then_dest: BlockId,
    else_dest: BlockId,
)
    requires
        ids_in_range(g),
        0 <= j <= incoming.len(),
        forall|q: int| 0 <= q < incoming.len() ==> (#[trigger] incoming[q]).1.0 < g.blocks.len(),
    ensures
        phis_kept(g, thread_edges(g, consts, incoming, j, join, then_dest, else_dest).0),
    decreases j,
{
    if j <= 0 {
        lemma_phis_kept_refl(g);
    } else {
        lemma_thread_edges_keeps(g, consts, incoming, j - 1, join, then_dest, else_dest);
        let h = thread_edges(g, consts, incoming, j - 1, join, then_dest, else_dest).0;
        let (val, src) = incoming[j - 1];
        if let Some(taken) = const_bool(consts, val) {
            let target = if taken {
                then_dest
            } else {
                else_dest
            };
            if let Some(st) = h.blocks[src.0 as int].terminator {
                if let Some(k) = patched_branch(h.instrs[st.0 as int], join, target) {
                    assert(h.blocks[src.0 as int] == g.blocks[src.0 as int]);
                    lemma_with_instr_keeps(h, st.0 as int, k);
                    lemma_phis_kept_trans(g, h, with_instr(h, st.0 as int, k));
                }
            }
        }
    }
}

proof fn lemma_thread_pass_keeps(f: FuncView, consts: Seq<ConstantData>, n: int)
    requires
        jt_wf(f, consts.len()),
        0 <= n <= f.blocks.len(),
    ensures
        phis_kept(f, thread_pass(f, consts, n).0),
    decreases n,
{
    if n <= 0 {
        lemma_phis_kept_refl(f);
    } else {
        lemma_thread_pass_keeps(f, consts, n - 1);
        let g = thread_pass(f, consts, n - 1).0;
        lemma_thread_pass_wf(f, consts, n - 1);
        let b = n - 1;
        if let Some(t) = g.blocks[b].terminator {
            if let KindView::CondBr { cond, then_dest, else_dest } = g.instrs[t.0 as int] {
                if let ValueRef::Instruction(p) = cond {
                    if g.blocks[b].body.contains(p) {
                        if let KindView::Phi { ty: _, incoming } = g.instrs[p.0 as int] {
                            let q = choose|q: int| 0 <= q < g.blocks[b].body.len() && g.blocks[b].body[q] == p;
                            assert((p.0 as int) < g.instrs.len());
                            assert(kind_refs_ok(g.instrs[p.0 as int], g.blocks.len(), consts.len()));
                            lemma_thread_edges_keeps(
                                g,
                                consts,
                                incoming,
                                incoming.len() as int,
                                BlockId(b as u32),
                                then_dest,
                                else_dest,
                            );
                            lemma_phis_kept_trans(f, g, thread_pass(f, consts, n).0);
                        }
                    }
                }
            }
        }
    }
}

proof fn lemma_bypass_entry_kept(k: KindView, empty: BlockId, new_pred: BlockId)
    ensures
        phi_kept(k, bypass_entry(k, empty, new_pred)),
{
    if let KindView::Phi { ty, incoming } = k {
        if let Some(k2) = phi_with_bypass_edge(k, empty, new_pred) {
            let inc2 = k2->Phi_incoming;
            assert(inc2.take(incoming.len() as int) =~= incoming);
        } else {
            assert(incoming.take(incoming.len() as int) =~= incoming);
        }
    }
}

proof fn lemma_with_bypass_edges_keeps(g: FuncView, empty: BlockId, succ: BlockId, new_pred: BlockId)
    requires
        ids_in_range(g),
        succ.0 < g.blocks.len(),
    ensures
        phis_kept(g, with_bypass_edges(g, empty, succ, new_pred)),
        forall|i: int| 0 <= i < g.instrs.len() && !(g.instrs[i] is Phi) ==> #[trigger] with_bypass_edges(g, empty, succ, new_pred).instrs[i] == g.instrs[i],
{
    lemma_bypass_keeps_phi_values(g, empty, succ, new_pred);
    let h = with_bypass_edges(g, empty, succ, new_pred);
    lemma_add_bypass_edges_blocks(g, g.blocks[succ.0 as int].body, g.blocks[succ.0 as int].body.len() as int, empty, new_pred);
    assert forall|i: int| 0 <= i < g.instrs.len() implies phi_kept(#[trigger] g.instrs[i], h.instrs[i]) by {
        lemma_bypass_entry_kept(g.instrs[i], empty, new_pred);
        if !lists_instr(g.blocks[succ.0 as int].body, i) {
            lemma_phis_kept_refl(g);
        }
    }
}

proof fn lemma_add_bypass_edges_blocks(g: FuncView, body: Seq<InstrId>, j: int, empty: BlockId, new_pred: BlockId)
    ensures
        add_bypass_edges(g, body, j, empty, new_pred).blocks == g.blocks,
    decreases j,
{
    if j > 0 {
        lemma_add_bypass_edges_blocks(g, body, j - 1, empty, new_pred);
    }
}

proof fn lemma_bypass_target_in_range(g: FuncView, nc: nat, d: BlockId)
    requires
        jt_wf(g, nc),
        d.0 < g.blocks.len(),
    ensures
        bypass_target(g, d).0 < g.blocks.len(),
{
    if let Some(t) = g.blocks[d.0 as int].terminator {
        assert((t.0 as int) < g.instrs.len());
        assert(kind_refs_ok(g.instrs[t.0 as int], g.blocks.len(), nc));
    }
}

proof fn lemma_bypass_block_keeps(g: FuncView, nc: nat, b: int)
    requires
        jt_wf(g, nc),
        0 <= b < g.blocks.len(),
    ensures
        phis_kept(g, bypass_block(g, b).0),
{
    if let Some(t) = g.blocks[b].terminator {
        if let KindView::CondBr { cond, then_dest, else_dest } = g.instrs[t.0 as int] {
            let nt = bypass_target(g, then_dest);
            let ne = bypass_target(g, else_dest);
            if nt != then_dest || ne != else_dest {
                assert((t.0 as int) < g.instrs.len());
                assert(kind_refs_ok(g.instrs[t.0 as int], g.blocks.len(), nc));
                assert(nt.0 < g.blocks.len() && ne.0 < g.blocks.len()) by {
                    lemma_bypass_target_in_range(g, nc, then_dest);
                    lemma_bypass_target_in_range(g, nc, else_dest);
                }
                let g1 = if nt != then_dest {
                    with_bypass_edges(g, then_dest, nt, BlockId(b as u32))
                } else {
                    g
                };
                if nt != then_dest {
                    lemma_with_bypass_edges_keeps(g, then_dest, nt, BlockId(b as u32));
                } else {
                    lemma_phis_kept_refl(g);
                }
                let g2 = if ne != else_dest {
                    with_bypass_edges(g1, else_dest, ne, BlockId(b as u32))
                } else {
                    g1
                };
                assert(ids_in_range(g1));
                assert(g1.blocks == g.blocks);
                if ne != else_dest {
                    lemma_with_bypass_edges_keeps(g1, else_dest, ne, BlockId(b as u32));
                } else {
                    lemma_phis_kept_refl(g1);
                }
                lemma_phis_kept_trans(g, g1, g2);
                assert(g1.instrs[t.0 as int] == g.instrs[t.0 as int]);
                assert(g2.instrs[t.0 as int] == g.instrs[t.0 as int]);
                lemma_with_instr_keeps(g2, t.0 as int, KindView::CondBr { cond, then_dest: nt, else_dest: ne });
                lemma_phis_kept_trans(g, g2, bypass_block(g, b).0);
                return;
            }
        }
    }
    lemma_phis_kept_refl(g);
}

proof fn lemma_sweep_keeps(g: FuncView, f: FuncView, nc: nat, n: int)
    requires
        bypass_inv(g, f, nc),
        0 <= n <= g.blocks.len(),
    ensures
        phis_kept(g, sweep(g, n).0),
    decreases n,
{
    if n <= 0 {
        lemma_phis_kept_refl(g);
    } else {
        lemma_sweep_keeps(g, f, nc, n - 1);
        lemma_sweep(g, f, nc, n - 1);
        let h = sweep(g, n - 1).0;
        lemma_bypass_block_keeps(h, nc, n - 1);
        lemma_phis_kept_trans(g, h, sweep(g, n).0);
    }
}

proof fn lemma_sweeps_keep(g: FuncView, nc: nat, k: nat)
    requires
        bypass_inv(g, g, nc),
    ensures
        phis_kept(g, sweeps(g, k)),
        bypass_inv(sweeps(g, k), g, nc),
    decreases k,
{
    if k == 0 {
        lemma_phis_kept_refl(g);
    } else {
        lemma_sweeps_keep(g, nc, (k - 1) as nat);
        let h = sweeps(g, (k - 1) as nat);
        lemma_sweep_keeps(h, g, nc, h.blocks.len() as int);
        lemma_sweep(h, g, nc, h.blocks.len() as int);
        lemma_phis_kept_trans(g, h, sweeps(g, k));
    }
}

/// No phi loses an incoming value in jump threading: after constant folding,
/// phi threading and any number `k` of bypass sweeps, every phi of `f` is
/// still a phi of the same type whose incoming list starts with all of its
/// old entries, and the blocks are those of `f`.
pub proof fn lemma_jump_threading_keeps_phis(f: FuncView, consts: Seq<ConstantData>, k: nat)
    requires
        jt_wf(f, consts.len()),
        bypass_chains_end(threaded(f, consts)),
    ensures
        phis_kept(f, sweeps(threaded(f, consts), k)),
{
    let n = f.blocks.len() as int;
    lemma_fold_pass_keeps(f, consts, n);
    lemma_fold_pass_wf(f, consts, n);
    let f1 = fold_pass(f, consts, n).0;
    lemma_thread_pass_keeps(f1, consts, n);
    lemma_thread_pass_wf(f1, consts, n);
    let f2 = thread_pass(f1, consts, n).0;
    lemma_phis_kept_trans(f, f1, f2);
    lemma_bypass_inv_start(f2, consts.len());
    lemma_sweeps_keep(f2, consts.len(), k);
    lemma_phis_kept_trans(f, f2, sweeps(f2, k));
}

proof fn lemma_fold_pass_quiet(f: FuncView, consts: Seq<ConstantData>, n: int)
    requires
        !fold_pass(f, consts, n).1,
    ensures
        fold_pass(f, consts, n).0 == f,
    decreases n,
{
    if n > 0 {
        lemma_fold_pass_quiet(f, consts, n - 1);
    }
}

proof fn lemma_thread_edges_quiet(
    g: FuncView,
    consts: Seq<ConstantData>,
    incoming: Seq<(ValueRef, BlockId)>,
    j: int,
    join: BlockId,
    then_dest: BlockId,
    else_dest: BlockId,
)
    requires
        !thread_edges(g, consts, incoming, j, join, then_dest, else_dest).1,
    ensures
        thread_edges(g, consts, incoming, j, join, then_dest, else_dest).0 == g,
    decreases j,
{
    if j > 0 {
        lemma_thread_edges_quiet(g, consts, incoming, j - 1, join, then_dest, else_dest);
    }
}

proof fn lemma_thread_pass_quiet(f: FuncView, consts: Seq<ConstantData>, n: int)
    requires
        !thread_pass(f, consts, n).1,
    ensures
        thread_pass(f, consts, n).0 == f,
    decreases n,
{
    if n > 0 {
        lemma_thread_pass_quiet(f, consts, n - 1);
        let g = thread_pass(f, consts, n - 1).0;
        let b = n - 1;
        if let Some(t) = g.blocks[b].terminator {
            if let KindView::CondBr { cond, then_dest, else_dest } = g.instrs[t.0 as int] {
                if let ValueRef::Instruction(p) = cond {
                    if g.blocks[b].body.contains(p) {
                        if let KindView::Phi { ty: _, incoming } = g.instrs[p.0 as int] {
                            lemma_thread_edges_quiet(g, consts, incoming, incoming.len() as int, BlockId(b as u32), then_dest, else_dest);
                        }
                    }
                }
            }
        }
    }
}

/// Folding and threading that report no change leave the function as it
/// was: when no `condbr` folds and none is threaded, the function after
/// passes 1 and 2 is the function itself.
pub proof fn lemma_quiet_threading_changes_nothing(f: FuncView, consts: Seq<ConstantData>)
    requires
        !threaded_changed(f, consts),
    ensures
        threaded(f, consts) == f,
{
    let n = f.blocks.len() as int;
    lemma_fold_pass_quiet(f, consts, n);
    lemma_thread_pass_quiet(fold_pass(f, consts, n).0, consts, n);
}

} // verus!
