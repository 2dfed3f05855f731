//! Loop-invariant code motion over the function model of `crate::ir`.
//!
//! For each natural loop, innermost (smallest body) first: find or create a
//! preheader, a single predecessor of the header outside the loop that ends
//! in a jump to the header; then, round after round until a round finds
//! nothing, move every instruction of the loop body that is free of side
//! effects and whose operands are all defined outside the loop to the end of
//! the preheader, in program order.  Phis are never moved; floating-point
//! arithmetic moves only when it may be reordered and the function is not in
//! strict floating-point mode.  The loops, and the predecessors of each
//! block, come from the caller's control-flow analysis, computed before the
//! pass runs.

use vstd::prelude::*;
use crate::ir::{BasicBlock, BlockId, BlockView, FuncView, Function, InstrId, InstrKind, KindView, ValueRef, ids_in_range, with_instr};
use vstd::string::StringExecFns;

verus! {

/// A natural loop: its header and the blocks of its body (header included).
#[derive(Clone, Debug)]
pub struct LoopDesc {
    pub header: BlockId,
    pub body: Vec<BlockId>,
}

/// Mathematical view of a loop.
pub struct LoopView {
    pub header: BlockId,
    pub body: Seq<BlockId>,
}

impl View for LoopDesc {
    type V = LoopView;

    open spec fn view(&self) -> LoopView {
        LoopView { header: self.header, body: self.body@ }
    }
}

// ── which instructions may move ────────────────────────────────────────────

/// May an instruction of kind `k` leave a loop?  Integer arithmetic,
/// comparisons, conversions, selects, floating-point comparisons and
/// aggregate member access may; floating-point arithmetic only when it may
/// be reordered and `strictfp` is off; nothing else.
pub open spec fn hoistable_kind(k: KindView, strictfp: bool) -> bool {
    match k {
        KindView::Binary { .. } => true,
        KindView::ICmp { .. } => true,
        KindView::Cast { .. } => true,
        KindView::PtrToInt { .. } => true,
        KindView::Select { .. } => true,
        KindView::FloatOp { arith, reorderable, .. } => !arith || (!strictfp && reorderable),
        KindView::Aggregate { value_op, .. } => value_op,
        _ => false,
    }
}

/// The value operands of a movable instruction.
pub open spec fn kind_operands(k: KindView) -> Seq<ValueRef> {
    match k {
        KindView::Binary { lhs, rhs, .. } => seq![lhs, rhs],
        KindView::ICmp { lhs, rhs, .. } => seq![lhs, rhs],
        KindView::Cast { val } => seq![val],
        KindView::PtrToInt { val } => seq![val],
        KindView::Select { cond, then_val, else_val } => seq![cond, then_val, else_val],
        KindView::FloatOp { operands, .. } => operands,
        KindView::Aggregate { operands, .. } => operands,
        _ => Seq::empty(),
    }
}

/// Does block `b` list `iid`, in its body or as its terminator?
pub open spec fn lists(f: FuncView, b: int, iid: InstrId) -> bool {
    f.blocks[b].body.contains(iid) || f.blocks[b].terminator == Some(iid)
}

/// The last of the first `n` blocks that lists `iid`.
pub open spec fn owner_upto(f: FuncView, iid: InstrId, n: nat) -> Option<BlockId>
    decreases n,
{
    if n == 0 {
        None
    } else if lists(f, n - 1, iid) {
        Some(BlockId((n - 1) as u32))
    } else {
        owner_upto(f, iid, (n - 1) as nat)
    }
}

/// The block that defines `iid`: the last block that lists it; none for an
/// id outside the pool.
pub open spec fn owner(f: FuncView, iid: InstrId) -> Option<BlockId> {
    if (iid.0 as int) < f.instrs.len() {
        owner_upto(f, iid, f.blocks.len())
    } else {
        None
    }
}

/// Is `v` defined outside the loop `body` (constants, arguments, globals and
/// instructions no block lists count as outside)?
pub open spec fn outside_loop(f: FuncView, body: Seq<BlockId>, v: ValueRef) -> bool {
    match v {
        ValueRef::Instruction(d) => match owner(f, d) {
            Some(b) => !body.contains(b),
            None => true,
        },
        _ => true,
    }
}

/// May instruction `iid` leave the loop `body`?
pub open spec fn loop_invariant(f: FuncView, body: Seq<BlockId>, iid: InstrId, strictfp: bool) -> bool {
    let k = f.instrs[iid.0 as int];
    &&& hoistable_kind(k, strictfp)
    &&& forall|j: int| 0 <= j < kind_operands(k).len() ==> outside_loop(f, body, #[trigger] kind_operands(k)[j])
}

// ── one round ──────────────────────────────────────────────────────────────

/// The movable instructions among the first `k` of block `b`, with their block.
pub open spec fn block_candidates(f: FuncView, body: Seq<BlockId>, b: int, k: nat, strictfp: bool) -> Seq<(BlockId, InstrId)>
    decreases k,
{
    if k == 0 {
        Seq::empty()
    } else {
        let c = block_candidates(f, body, b, (k - 1) as nat, strictfp);
        let iid = f.blocks[b].body[k - 1];
        if loop_invariant(f, body, iid, strictfp) {
            c.push((BlockId(b as u32), iid))
        } else {
            c
        }
    }
}

/// The movable instructions of the loop blocks among the first `n` blocks,
/// block by block in index order.
pub open spec fn candidates_upto(f: FuncView, body: Seq<BlockId>, n: nat, strictfp: bool) -> Seq<(BlockId, InstrId)>
    decreases n,
{
    if n == 0 {
        Seq::empty()
    } else {
        let c = candidates_upto(f, body, (n - 1) as nat, strictfp);
        if body.contains(BlockId((n - 1) as u32)) {
            c + block_candidates(f, body, n - 1, f.blocks[n - 1].body.len(), strictfp)
        } else {
            c
        }
    }
}

/// The movable instructions of the loop `body`.
pub open spec fn candidates(f: FuncView, body: Seq<BlockId>, strictfp: bool) -> Seq<(BlockId, InstrId)> {
    candidates_upto(f, body, f.blocks.len(), strictfp)
}

/// `s` without any occurrence of `x`.
pub open spec fn remove_all(s: Seq<InstrId>, x: InstrId) -> Seq<InstrId>
    decreases s.len(),
{
    if s.len() == 0 {
        s
    } else if s.last() == x {
        remove_all(s.drop_last(), x)
    } else {
        remove_all(s.drop_last(), x).push(s.last())
    }
}

/// `f` with the body of block `b` replaced by `body`.
pub open spec fn with_body(f: FuncView, b: int, body: Seq<InstrId>) -> FuncView {
    FuncView { blocks: f.blocks.update(b, BlockView { body, ..f.blocks[b] }), ..f }
}

/// `iid` taken out of block `src` and appended to the body of `pre`.
pub open spec fn move_instr(f: FuncView, src: BlockId, iid: InstrId, pre: BlockId) -> FuncView {
    let f1 = with_body(f, src.0 as int, remove_all(f.blocks[src.0 as int].body, iid));
    with_body(f1, pre.0 as int, f1.blocks[pre.0 as int].body.push(iid))
}

/// The first `n` moves of `cands` applied in order.
pub open spec fn apply_moves(f: FuncView, cands: Seq<(BlockId, InstrId)>, pre: BlockId, n: nat) -> FuncView
    decreases n,
{
    if n == 0 {
        f
    } else {
        move_instr(apply_moves(f, cands, pre, (n - 1) as nat), cands[n - 1].0, cands[n - 1].1, pre)
    }
}

/// One round: every movable instruction of the loop moved to `pre`.
pub open spec fn hoist_round(f: FuncView, body: Seq<BlockId>, pre: BlockId, strictfp: bool) -> FuncView {
    let c = candidates(f, body, strictfp);
    apply_moves(f, c, pre, c.len())
}

/// `n` rounds.
pub open spec fn hoist_rounds(f: FuncView, body: Seq<BlockId>, pre: BlockId, strictfp: bool, n: nat) -> FuncView
    decreases n,
{
    if n == 0 {
        f
    } else {
        hoist_round(hoist_rounds(f, body, pre, strictfp, (n - 1) as nat), body, pre, strictfp)
    }
}

/// After `n` rounds nothing is left to move, and every earlier round moved something.
pub open spec fn settles_after(f: FuncView, body: Seq<BlockId>, pre: BlockId, strictfp: bool, n: nat) -> bool {
    &&& candidates(hoist_rounds(f, body, pre, strictfp, n), body, strictfp).len() == 0
    &&& forall|m: nat| m < n ==> candidates(#[trigger] hoist_rounds(f, body, pre, strictfp, m), body, strictfp).len() > 0
}

/// Rounds repeated until one finds nothing to move.
pub open spec fn settled(f: FuncView, body: Seq<BlockId>, pre: BlockId, strictfp: bool) -> FuncView {
    hoist_rounds(f, body, pre, strictfp, choose|n: nat| settles_after(f, body, pre, strictfp, n))
}

// ── termination ────────────────────────────────────────────────────────────

/// Number of instruction entries in the bodies of the loop blocks among the
/// first `n` blocks.
pub open spec fn loop_size(f: FuncView, body: Seq<BlockId>, n: nat) -> nat
    decreases n,
{
    if n == 0 {
        0
    } else {
        loop_size(f, body, (n - 1) as nat) + if body.contains(BlockId((n - 1) as u32)) {
            f.blocks[n - 1].body.len()
        } else {
            0
        }
    }
}

proof fn lemma_remove_all_len(s: Seq<InstrId>, x: InstrId)
    ensures
        remove_all(s, x).len() <= s.len(),
        s.contains(x) ==> remove_all(s, x).len() < s.len(),
    decreases s.len(),
{
    if s.len() > 0 {
        lemma_remove_all_len(s.drop_last(), x);
        if s.contains(x) && s.last() != x {
            let i = choose|i: int| 0 <= i < s.len() && s[i] == x;
            assert(s.drop_last()[i] == x);
        }
    }
}

proof fn lemma_loop_size_with_body(f: FuncView, body: Seq<BlockId>, b: int, nb: Seq<InstrId>, n: nat)
    requires
        0 <= b < f.blocks.len(),
        n <= f.blocks.len(),
        f.blocks.len() <= u32::MAX,
    ensures
        b < n && body.contains(BlockId(b as u32)) ==> loop_size(with_body(f, b, nb), body, n) + f.blocks[b].body.len()
            == loop_size(f, body, n) + nb.len(),
        !(b < n && body.contains(BlockId(b as u32))) ==> loop_size(with_body(f, b, nb), body, n) == loop_size(f, body, n),
    decreases n,
{
    if n > 0 {
        lemma_loop_size_with_body(f, body, b, nb, (n - 1) as nat);
    }
}

proof fn lemma_move_shrinks(f: FuncView, body: Seq<BlockId>, src: BlockId, iid: InstrId, pre: BlockId)
    requires
        src.0 < f.blocks.len(),
        pre.0 < f.blocks.len(),
        f.blocks.len() <= u32::MAX,
        body.contains(src),
        !body.contains(pre),
    ensures
        move_instr(f, src, iid, pre).blocks.len() == f.blocks.len(),
        loop_size(move_instr(f, src, iid, pre), body, f.blocks.len()) <= loop_size(f, body, f.blocks.len()),
        f.blocks[src.0 as int].body.contains(iid) ==> loop_size(move_instr(f, src, iid, pre), body, f.blocks.len())
            < loop_size(f, body, f.blocks.len()),
{
    let s = src.0 as int;
    let nb = f.blocks.len();
    lemma_remove_all_len(f.blocks[s].body, iid);
    let f1 = with_body(f, s, remove_all(f.blocks[s].body, iid));
    lemma_loop_size_with_body(f, body, s, remove_all(f.blocks[s].body, iid), nb);
    lemma_loop_size_with_body(f1, body, pre.0 as int, f1.blocks[pre.0 as int].body.push(iid), nb);
    assert(BlockId(s as u32) == src);
    assert(BlockId(pre.0 as int as u32) == pre);
}

/// Every candidate sits in a loop block among the first `n`, which lists it.
proof fn lemma_block_candidates_from(f: FuncView, body: Seq<BlockId>, b: int, k: nat, strictfp: bool)
    requires
        0 <= b < f.blocks.len(),
        f.blocks.len() <= u32::MAX,
        k <= f.blocks[b].body.len(),
    ensures
        forall|i: int|
            0 <= i < block_candidates(f, body, b, k, strictfp).len() ==> {
                let c = #[trigger] block_candidates(f, body, b, k, strictfp)[i];
                c.0 == BlockId(b as u32) && f.blocks[b].body.contains(c.1) && loop_invariant(f, body, c.1, strictfp)
            },
    decreases k,
{
    if k > 0 {
        lemma_block_candidates_from(f, body, b, (k - 1) as nat, strictfp);
        let iid = f.blocks[b].body[k - 1];
        assert(f.blocks[b].body.contains(iid));
        let c = block_candidates(f, body, b, (k - 1) as nat, strictfp);
        if loop_invariant(f, body, iid, strictfp) {
            let x = (BlockId(b as u32), iid);
            assert forall|i: int| 0 <= i < c.push(x).len() implies {
                let e = #[trigger] c.push(x)[i];
                e.0 == BlockId(b as u32) && f.blocks[b].body.contains(e.1) && loop_invariant(f, body, e.1, strictfp)
            } by {
                if i < c.len() {
                    assert(c.push(x)[i] == c[i]);
                }
            }
        }
    }
}

proof fn lemma_candidates_from(f: FuncView, body: Seq<BlockId>, n: nat, strictfp: bool)
    requires
        n <= f.blocks.len(),
        f.blocks.len() <= u32::MAX,
    ensures
        forall|i: int|
            0 <= i < candidates_upto(f, body, n, strictfp).len() ==> {
                let c = #[trigger] candidates_upto(f, body, n, strictfp)[i];
                &&& c.0.0 < n
                &&& body.contains(c.0)
                &&& f.blocks[c.0.0 as int].body.contains(c.1)
                &&& loop_invariant(f, body, c.1, strictfp)
            },
    decreases n,
{
    if n > 0 {
        lemma_candidates_from(f, body, (n - 1) as nat, strictfp);
        let prev = candidates_upto(f, body, (n - 1) as nat, strictfp);
        if body.contains(BlockId((n - 1) as u32)) {
            let bc = block_candidates(f, body, n - 1, f.blocks[n - 1].body.len(), strictfp);
            lemma_block_candidates_from(f, body, n - 1, f.blocks[n - 1].body.len(), strictfp);
            assert forall|i: int| 0 <= i < (prev + bc).len() implies {
                let c = #[trigger] (prev + bc)[i];
                &&& c.0.0 < n
                &&& body.contains(c.0)
                &&& f.blocks[c.0.0 as int].body.contains(c.1)
                &&& loop_invariant(f, body, c.1, strictfp)
            } by {
                if i >= prev.len() {
                    assert((prev + bc)[i] == bc[i - prev.len()]);
                }
            }
        }
    }
}

proof fn lemma_moves_shrink(f: FuncView, body: Seq<BlockId>, cands: Seq<(BlockId, InstrId)>, pre: BlockId, m: nat)
    requires
        m <= cands.len(),
        pre.0 < f.blocks.len(),
        f.blocks.len() <= u32::MAX,
        !body.contains(pre),
        forall|i: int| 0 <= i < cands.len() ==> (#[trigger] cands[i]).0.0 < f.blocks.len() && body.contains(cands[i].0),
        cands.len() > 0 ==> f.blocks[cands[0].0.0 as int].body.contains(cands[0].1),
    ensures
        apply_moves(f, cands, pre, m).blocks.len() == f.blocks.len(),
        loop_size(apply_moves(f, cands, pre, m), body, f.blocks.len()) + (if m > 0 { 1int } else { 0int }) <= loop_size(
            f,
            body,
            f.blocks.len(),
        ),
    decreases m,
{
    if m > 0 {
        lemma_moves_shrink(f, body, cands, pre, (m - 1) as nat);
        let g = apply_moves(f, cands, pre, (m - 1) as nat);
        let c = cands[m - 1];
        lemma_move_shrinks(g, body, c.0, c.1, pre);
    }
}

/// A round that finds something to move shrinks the loop.
proof fn lemma_round_shrinks(f: FuncView, body: Seq<BlockId>, pre: BlockId, strictfp: bool)
    requires
        pre.0 < f.blocks.len(),
        f.blocks.len() <= u32::MAX,
        !body.contains(pre),
        candidates(f, body, strictfp).len() > 0,
    ensures
        hoist_round(f, body, pre, strictfp).blocks.len() == f.blocks.len(),
        loop_size(hoist_round(f, body, pre, strictfp), body, f.blocks.len()) < loop_size(f, body, f.blocks.len()),
{
    let c = candidates(f, body, strictfp);
    lemma_candidates_from(f, body, f.blocks.len(), strictfp);
    assert(c[0] == c[0]);
    lemma_moves_shrink(f, body, c, pre, c.len());
}

/// Only instructions free of side effects whose operands are all defined
/// outside the loop leave it: whatever a round moves comes from a loop
/// block that lists it, may be hoisted (never a phi, load, store, call,
/// allocation, atomic or terminator), and reads only values from outside
/// the loop.
pub proof fn lemma_only_invariant_instructions_move(f: FuncView, body: Seq<BlockId>, strictfp: bool, i: int)
    requires
        f.blocks.len() <= u32::MAX,
        0 <= i < candidates(f, body, strictfp).len(),
    ensures
        ({
            let c = candidates(f, body, strictfp)[i];
            let k = f.instrs[c.1.0 as int];
            &&& body.contains(c.0)
            &&& f.blocks[c.0.0 as int].body.contains(c.1)
            &&& hoistable_kind(k, strictfp)
            &&& !(k is Phi || k is Load || k is Store || k is Call || k is Alloca || k is AtomicRmw || k is CompareExchange
                || k is Br || k is CondBr || k is Ret || k is Switch || k is Invoke)
            &&& forall|j: int| 0 <= j < kind_operands(k).len() ==> outside_loop(f, body, #[trigger] kind_operands(k)[j])
            &&& forall|v: ValueRef| #[trigger] reads(k, v) ==> outside_loop(f, body, v)
        }),
{
    lemma_candidates_from(f, body, f.blocks.len(), strictfp);
    let c = candidates(f, body, strictfp)[i];
    assert(loop_invariant(f, body, c.1, strictfp));
    lemma_invariant_reads_outside(f, body, c.1, strictfp);
}

// ── preheaders ─────────────────────────────────────────────────────────────

/// The predecessors in `preds` that lie outside the loop `body`, in order.
pub open spec fn outside_preds(preds: Seq<BlockId>, body: Seq<BlockId>) -> Seq<BlockId>
    decreases preds.len(),
{
    if preds.len() == 0 {
        preds
    } else {
        let r = outside_preds(preds.drop_last(), body);
        if body.contains(preds.last()) {
            r
        } else {
            r.push(preds.last())
        }
    }
}

/// `d`, or `to` where `d` is `from`.
pub open spec fn retarget(d: BlockId, from: BlockId, to: BlockId) -> BlockId {
    if d == from {
        to
    } else {
        d
    }
}

/// A case of a `switch` with its target retargeted.
pub open spec fn retarget_case(c: (ValueRef, BlockId), from: BlockId, to: BlockId) -> (ValueRef, BlockId) {
    (c.0, retarget(c.1, from, to))
}

/// Terminator `k` with every branch target `from` replaced by `to`.
pub open spec fn redirected(k: KindView, from: BlockId, to: BlockId) -> KindView {
    match k {
        KindView::Br { dest } => KindView::Br { dest: retarget(dest, from, to) },
        KindView::CondBr { cond, then_dest, else_dest } => KindView::CondBr {
            cond,
            then_dest: retarget(then_dest, from, to),
            else_dest: retarget(else_dest, from, to),
        },
        KindView::Switch { val, default, cases } => KindView::Switch {
            val,
            default: retarget(default, from, to),
            cases: cases.map_values(|c: (ValueRef, BlockId)| retarget_case(c, from, to)),
        },
        _ => k,
    }
}

/// Block `b`'s terminator, if any, redirected from `from` to `to`.
pub open spec fn redirect_block(f: FuncView, b: BlockId, from: BlockId, to: BlockId) -> FuncView {
    match f.blocks[b.0 as int].terminator {
        Some(t) => with_instr(f, t.0 as int, redirected(f.instrs[t.0 as int], from, to)),
        None => f,
    }
}

/// The terminators of the first `n` blocks of `outs` redirected, in order.
pub open spec fn redirect_all(f: FuncView, outs: Seq<BlockId>, from: BlockId, to: BlockId, n: nat) -> FuncView
    decreases n,
{
    if n == 0 {
        f
    } else {
        redirect_block(redirect_all(f, outs, from, to, (n - 1) as nat), outs[n - 1], from, to)
    }
}

/// A phi entry coming from one of `outs` now comes from `pre`.
pub open spec fn phi_entry(c: (ValueRef, BlockId), outs: Seq<BlockId>, pre: BlockId) -> (ValueRef, BlockId) {
    (c.0, if outs.contains(c.1) { pre } else { c.1 })
}

/// The phis among the first `n` instructions of `hb` take their entries
/// from `outs` from `pre` instead.
pub open spec fn retarget_phis(f: FuncView, hb: Seq<InstrId>, outs: Seq<BlockId>, pre: BlockId, n: nat) -> FuncView
    decreases n,
{
    if n == 0 {
        f
    } else {
        let g = retarget_phis(f, hb, outs, pre, (n - 1) as nat);
        let iid = hb[n - 1];
        match g.instrs[iid.0 as int] {
            KindView::Phi { ty, incoming } => with_instr(
                g,
                iid.0 as int,
                KindView::Phi { ty, incoming: incoming.map_values(|c: (ValueRef, BlockId)| phi_entry(c, outs, pre)) },
            ),
            _ => g,
        }
    }
}

/// The single outside predecessor already ends in a jump to the header.
pub open spec fn reusable(f: FuncView, outs: Seq<BlockId>, header: BlockId) -> bool {
    &&& outs.len() == 1
    &&& match f.blocks[outs[0].0 as int].terminator {
        Some(t) => f.instrs[t.0 as int] == KindView::Br { dest: header },
        None => false,
    }
}

/// The loop's preheader, found or made: the single outside predecessor of
/// the header when it already jumps there; otherwise a new block
/// `<header>.preheader` that jumps to the header, with every outside
/// predecessor redirected to it and the header's phis taking those entries
/// from it.
pub open spec fn with_preheader(f: FuncView, header: BlockId, preds: Seq<BlockId>, body: Seq<BlockId>) -> (FuncView, BlockId) {
    let outs = outside_preds(preds, body);
    if reusable(f, outs, header) {
        (f, outs[0])
    } else {
        let br = InstrId(f.instrs.len() as u32);
        let pre = BlockId(f.blocks.len() as u32);
        let f1 = FuncView {
            instrs: f.instrs.push(KindView::Br { dest: header }),
            blocks: f.blocks.push(
                BlockView { name: f.blocks[header.0 as int].name + ".preheader"@, body: Seq::empty(), terminator: Some(br) },
            ),
            ..f
        };
        let f2 = redirect_all(f1, outs, header, pre, outs.len());
        let hb = f.blocks[header.0 as int].body;
        (retarget_phis(f2, hb, outs, pre, hb.len()), pre)
    }
}

// ── the pass ───────────────────────────────────────────────────────────────

/// Position of the first of `order`, from position `k` on, whose loop body
/// is longer than `len`.
pub open spec fn first_longer(order: Seq<usize>, loops: Seq<LoopView>, len: nat, k: int) -> int
    decreases order.len() - k,
{
    if k < 0 || k >= order.len() {
        order.len() as int
    } else if loops[order[k] as int].body.len() > len {
        k
    } else {
        first_longer(order, loops, len, k + 1)
    }
}

/// The first `n` loops ordered by body length, ties in index order.
pub open spec fn by_size(loops: Seq<LoopView>, n: nat) -> Seq<usize>
    decreases n,
{
    if n == 0 {
        Seq::empty()
    } else {
        let o = by_size(loops, (n - 1) as nat);
        o.insert(first_longer(o, loops, loops[n - 1].body.len(), 0), (n - 1) as usize)
    }
}

/// One loop processed: its preheader, then rounds until none moves
/// anything; and whether a round moved something.
pub open spec fn licm_loop(f: FuncView, l: LoopView, preds: Seq<Seq<BlockId>>, strictfp: bool) -> (FuncView, bool) {
    let (f1, pre) = with_preheader(f, l.header, preds[l.header.0 as int], l.body);
    (settled(f1, l.body, pre, strictfp), candidates(f1, l.body, strictfp).len() > 0)
}

/// The first `k` loops of `order` processed in turn.
pub open spec fn licm_upto(
    f: FuncView,
    loops: Seq<LoopView>,
    order: Seq<usize>,
    preds: Seq<Seq<BlockId>>,
    strictfp: bool,
    k: nat,
) -> (FuncView, bool)
    decreases k,
{
    if k == 0 {
        (f, false)
    } else {
        let (g, changed) = licm_upto(f, loops, order, preds, strictfp, (k - 1) as nat);
        let (h, moved) = licm_loop(g, loops[order[k - 1] as int], preds, strictfp);
        (h, changed || moved)
    }
}

/// The function after the pass, and whether anything moved.
pub open spec fn licm_result(f: FuncView, loops: Seq<LoopView>, preds: Seq<Seq<BlockId>>, strictfp: bool) -> (FuncView, bool) {
    if f.blocks.len() == 0 || loops.len() == 0 {
        (f, false)
    } else {
        licm_upto(f, loops, by_size(loops, loops.len()), preds, strictfp, loops.len())
    }
}

// ── proofs about rounds ────────────────────────────────────────────────────

proof fn lemma_remove_all_from(s: Seq<InstrId>, x: InstrId)
    ensures
        forall|i: int| 0 <= i < remove_all(s, x).len() ==> s.contains(#[trigger] remove_all(s, x)[i]),
    decreases s.len(),
{
    if s.len() > 0 {
        lemma_remove_all_from(s.drop_last(), x);
        let r = remove_all(s.drop_last(), x);
        assert forall|i: int| 0 <= i < remove_all(s, x).len() implies s.contains(#[trigger] remove_all(s, x)[i]) by {
            if s.last() == x || i < r.len() {
                assert(r.push(s.last())[i] == r[i] || s.last() == x);
                let y = r[i];
                assert(s.drop_last().contains(y));
                let j = choose|j: int| 0 <= j < s.drop_last().len() && s.drop_last()[j] == y;
                assert(s[j] == y);
            } else {
                assert(s[s.len() - 1] == s.last());
            }
        }
    }
}

proof fn lemma_move_in_range(f: FuncView, src: BlockId, iid: InstrId, pre: BlockId)
    requires
        ids_in_range(f),
        src.0 < f.blocks.len(),
        pre.0 < f.blocks.len(),
        iid.0 < f.instrs.len(),
    ensures
        ids_in_range(move_instr(f, src, iid, pre)),
{
    let s = src.0 as int;
    lemma_remove_all_from(f.blocks[s].body, iid);
    let g = move_instr(f, src, iid, pre);
    assert forall|b: int| 0 <= b < g.blocks.len() implies {
        &&& (forall|k: int| 0 <= k < (#[trigger] g.blocks[b]).body.len() ==> g.blocks[b].body[k].0 < g.instrs.len())
        &&& (g.blocks[b].terminator matches Some(t) ==> t.0 < g.instrs.len())
    } by {
        assert forall|k: int| 0 <= k < g.blocks[b].body.len() implies g.blocks[b].body[k].0 < g.instrs.len() by {
            let f1 = with_body(f, s, remove_all(f.blocks[s].body, iid));
            let x = g.blocks[b].body[k];
            if b == pre.0 as int && k == f1.blocks[b].body.len() {
            } else {
                let y = f1.blocks[b].body[k];
                if b == s {
                    assert(f.blocks[s].body.contains(y));
                    let j = choose|j: int| 0 <= j < f.blocks[s].body.len() && f.blocks[s].body[j] == y;
                    assert(f.blocks[s].body[j].0 < f.instrs.len());
                } else {
                    assert(f.blocks[b].body[k].0 < f.instrs.len());
                }
            }
        }
    }
}

proof fn lemma_settle_unique(f: FuncView, body: Seq<BlockId>, pre: BlockId, strictfp: bool, n: nat, m: nat)
    requires
        settles_after(f, body, pre, strictfp, n),
        settles_after(f, body, pre, strictfp, m),
    ensures
        n == m,
{
    if n < m {
        assert(candidates(hoist_rounds(f, body, pre, strictfp, n), body, strictfp).len() > 0);
    } else if m < n {
        assert(candidates(hoist_rounds(f, body, pre, strictfp, m), body, strictfp).len() > 0);
    }
}

// ── executable parts ───────────────────────────────────────────────────────

fn has_block(v: &Vec<BlockId>, b: BlockId) -> (r: bool)
    ensures
        r == v@.contains(b),
{
    let mut i: usize = 0;
    while i < v.len()
        invariant
            i <= v@.len(),
            forall|j: int| 0 <= j < i ==> v@[j] != b,
        decreases v.len() - i,
    {
        if v[i] == b {
            return true;
        }
        i = i + 1;
    }
    false
}

fn has_instr(v: &Vec<InstrId>, x: InstrId) -> (r: bool)
    ensures
        r == v@.contains(x),
{
    let mut i: usize = 0;
    while i < v.len()
        invariant
            i <= v@.len(),
            forall|j: int| 0 <= j < i ==> v@[j] != x,
        decreases v.len() - i,
    {
        if v[i] == x {
            return true;
        }
        i = i + 1;
    }
    false
}

/// The block that defines `iid` (see `owner`).
fn owner_of(func: &Function, iid: InstrId) -> (r: Option<BlockId>)
    requires
        func@.blocks.len() <= u32::MAX,
    ensures
        r == owner(func@, iid),
{
    if (iid.0 as usize) >= func.instructions.len() {
        return None;
    }
    let ghost fv = func@;
    let mut b = func.blocks.len();
    while b > 0
        invariant
            fv == func@,
            b <= fv.blocks.len(),
            fv.blocks.len() <= u32::MAX,
            (iid.0 as int) < fv.instrs.len(),
            owner_upto(fv, iid, fv.blocks.len()) == owner_upto(fv, iid, b as nat),
        decreases b,
    {
        assert(fv.blocks[b - 1] == func.blocks@[b - 1]@);
        if has_instr(&func.blocks[b - 1].body, iid) || func.blocks[b - 1].terminator == Some(iid) {
            return Some(BlockId((b - 1) as u32));
        }
        b = b - 1;
    }
    None
}

fn copy_values(v: &Vec<ValueRef>) -> (r: Vec<ValueRef>)
    ensures
        r@ == v@,
{
    let mut out: Vec<ValueRef> = Vec::new();
    let mut i: usize = 0;
    while i < v.len()
        invariant
            i <= v@.len(),
            out@ == v@.take(i as int),
        decreases v.len() - i,
    {
        out.push(v[i]);
        assert(v@.take(i + 1) =~= v@.take(i as int).push(v@[i as int]));
        i = i + 1;
    }
    assert(v@.take(v@.len() as int) =~= v@);
    out
}

fn operands_of(k: &InstrKind) -> (r: Vec<ValueRef>)
    ensures
        r@ == kind_operands(k@),
{
    match k {
        InstrKind::Binary { lhs, rhs, .. } => vec![*lhs, *rhs],
        InstrKind::ICmp { lhs, rhs, .. } => vec![*lhs, *rhs],
        InstrKind::Cast { val } => vec![*val],
        InstrKind::PtrToInt { val } => vec![*val],
        InstrKind::Select { cond, then_val, else_val } => vec![*cond, *then_val, *else_val],
        InstrKind::FloatOp { operands, .. } => copy_values(operands),
        InstrKind::Aggregate { operands, .. } => copy_values(operands),
        _ => Vec::new(),
    }
}

fn is_invariant(func: &Function, body: &Vec<BlockId>, iid: InstrId, strictfp: bool) -> (r: bool)
    requires
        (iid.0 as int) < func@.instrs.len(),
        func@.blocks.len() <= u32::MAX,
    ensures
        r == loop_invariant(func@, body@, iid, strictfp),
{
    let k = &func.instructions[iid.0 as usize];
    assert(func@.instrs[iid.0 as int] == k@);
    let movable = match k {
        InstrKind::Binary { .. } => true,
        InstrKind::ICmp { .. } => true,
        InstrKind::Cast { .. } => true,
        InstrKind::PtrToInt { .. } => true,
        InstrKind::Select { .. } => true,
        InstrKind::FloatOp { arith, reorderable, .. } => !*arith || (!strictfp && *reorderable),
        InstrKind::Aggregate { value_op, .. } => *value_op,
        _ => false,
    };
    if !movable {
        return false;
    }
    let ops = operands_of(k);
    let mut j: usize = 0;
    while j < ops.len()
        invariant
            j <= ops@.len(),
            ops@ == kind_operands(func@.instrs[iid.0 as int]),
            func@.blocks.len() <= u32::MAX,
            forall|m: int| 0 <= m < j ==> outside_loop(func@, body@, #[trigger] ops@[m]),
        decreases ops.len() - j,
    {
        if let ValueRef::Instruction(d) = ops[j] {
            if let Some(b) = owner_of(func, d) {
                if has_block(body, b) {
                    assert(!outside_loop(func@, body@, kind_operands(func@.instrs[iid.0 as int])[j as int]));
                    return false;
                }
            }
        }
        j = j + 1;
    }
    true
}

fn without(s: &Vec<InstrId>, x: InstrId) -> (r: Vec<InstrId>)
    ensures
        r@ == remove_all(s@, x),
{
    let mut out: Vec<InstrId> = Vec::new();
    let mut i: usize = 0;
    while i < s.len()
        invariant
            i <= s@.len(),
            out@ == remove_all(s@.take(i as int), x),
        decreases s.len() - i,
    {
        assert(s@.take(i + 1).drop_last() =~= s@.take(i as int));
        if s[i] != x {
            out.push(s[i]);
        }
        i = i + 1;
    }
    assert(s@.take(s@.len() as int) =~= s@);
    out
}

fn replace_body(func: &mut Function, b: usize, body: Vec<InstrId>)
    requires
        b < old(func).blocks.len(),
    ensures
        final(func)@ == with_body(old(func)@, b as int, body@),
{
    let ghost before = func.blocks@;
    let ghost bv = body@;
    func.blocks[b].body = body;
    proof {
        assert(func.blocks@.map_values(|x: BasicBlock| x@) =~= before.map_values(|x: BasicBlock| x@).update(
            b as int,
            BlockView { body: bv, ..before[b as int]@ },
        ));
        assert(func.instructions@.map_values(|k: InstrKind| k@) =~= old(func).instructions@.map_values(|k: InstrKind| k@));
    }
}

fn collect_candidates(func: &Function, body: &Vec<BlockId>, strictfp: bool) -> (r: Vec<(BlockId, InstrId)>)
    requires
        ids_in_range(func@),
        func@.blocks.len() <= u32::MAX,
    ensures
        r@ == candidates(func@, body@, strictfp),
{
    let ghost fv = func@;
    let nb = func.blocks.len();
    let mut cands: Vec<(BlockId, InstrId)> = Vec::new();
    let mut bi: usize = 0;
    while bi < nb
        invariant
            fv == func@,
            nb == fv.blocks.len(),
            nb <= u32::MAX,
            ids_in_range(fv),
            bi <= nb,
            cands@ == candidates_upto(fv, body@, bi as nat, strictfp),
        decreases nb - bi,
    {
        if has_block(body, BlockId(bi as u32)) {
            assert(fv.blocks[bi as int].body == func.blocks@[bi as int].body@);
            let n = func.blocks[bi].body.len();
            let ghost base = cands@;
            let mut k: usize = 0;
            while k < n
                invariant
                    fv == func@,
                    bi < nb,
                    nb == fv.blocks.len(),
                    nb <= u32::MAX,
                    ids_in_range(fv),
                    n == fv.blocks[bi as int].body.len(),
                    fv.blocks[bi as int].body == func.blocks@[bi as int].body@,
                    k <= n,
                    cands@ == base + block_candidates(fv, body@, bi as int, k as nat, strictfp),
                decreases n - k,
            {
                let iid = func.blocks[bi].body[k];
                assert(iid == fv.blocks[bi as int].body[k as int]);
                let ghost prev = block_candidates(fv, body@, bi as int, k as nat, strictfp);
                if is_invariant(func, body, iid, strictfp) {
                    cands.push((BlockId(bi as u32), iid));
                    assert(base + prev.push((BlockId(bi as u32), iid)) =~= (base + prev).push((BlockId(bi as u32), iid)));
                }
                k = k + 1;
            }
        }
        bi = bi + 1;
    }
    cands
}

/// One round: move every movable instruction of the loop `body` to the end
/// of `pre`; report whether there was any.
fn hoist_one_round(func: &mut Function, body: &Vec<BlockId>, pre: BlockId, strictfp: bool) -> (moved: bool)
    requires
        ids_in_range(old(func)@),
        old(func)@.blocks.len() <= u32::MAX,
        (pre.0 as int) < old(func)@.blocks.len(),
    ensures
        final(func)@ == hoist_round(old(func)@, body@, pre, strictfp),
        moved == (candidates(old(func)@, body@, strictfp).len() > 0),
        ids_in_range(final(func)@),
        final(func)@.blocks.len() == old(func)@.blocks.len(),
        final(func)@.instrs == old(func)@.instrs,
{
    let cands = collect_candidates(func, body, strictfp);
    let ghost f0 = func@;
    proof {
        lemma_candidates_from(f0, body@, f0.blocks.len(), strictfp);
    }
    let mut m: usize = 0;
    while m < cands.len()
        invariant
            cands@ == candidates(f0, body@, strictfp),
            forall|i: int|
                0 <= i < cands@.len() ==> {
                    let c = #[trigger] cands@[i];
                    &&& c.0.0 < f0.blocks.len()
                    &&& body@.contains(c.0)
                    &&& f0.blocks[c.0.0 as int].body.contains(c.1)
                },
            ids_in_range(f0),
            (pre.0 as int) < f0.blocks.len(),
            m <= cands@.len(),
            func@ == apply_moves(f0, cands@, pre, m as nat),
            func@.blocks.len() == f0.blocks.len(),
            func@.instrs == f0.instrs,
            ids_in_range(func@),
        decreases cands.len() - m,
    {
        let (src, iid) = cands[m];
        assert(cands@[m as int] == (src, iid));
        proof {
            let j = choose|j: int| 0 <= j < f0.blocks[src.0 as int].body.len() && f0.blocks[src.0 as int].body[j] == iid;
            assert(f0.blocks[src.0 as int].body[j].0 < f0.instrs.len());
            lemma_move_in_range(func@, src, iid, pre);
        }
        assert(func@.blocks[src.0 as int].body == func.blocks@[src.0 as int].body@);
        let rest = without(&func.blocks[src.0 as usize].body, iid);
        replace_body(func, src.0 as usize, rest);
        assert(func@.blocks.len() == func.blocks@.len());
        func.push_body(pre.0 as usize, iid);
        m = m + 1;
    }
    cands.len() > 0
}

fn outside(preds: &Vec<BlockId>, body: &Vec<BlockId>) -> (r: Vec<BlockId>)
    ensures
        r@ == outside_preds(preds@, body@),
{
    let mut out: Vec<BlockId> = Vec::new();
    let mut i: usize = 0;
    while i < preds.len()
        invariant
            i <= preds@.len(),
            out@ == outside_preds(preds@.take(i as int), body@),
        decreases preds.len() - i,
    {
        assert(preds@.take(i + 1).drop_last() =~= preds@.take(i as int));
        if !has_block(body, preds[i]) {
            out.push(preds[i]);
        }
        i = i + 1;
    }
    assert(preds@.take(preds@.len() as int) =~= preds@);
    out
}

/// Rewrite the branch targets `from` of block `b`'s terminator to `to`.
fn redirect_branch(func: &mut Function, b: BlockId, from: BlockId, to: BlockId)
    requires
        (b.0 as int) < old(func)@.blocks.len(),
        match old(func)@.blocks[b.0 as int].terminator {
            Some(t) => (t.0 as int) < old(func)@.instrs.len(),
            None => true,
        },
    ensures
        final(func)@ == redirect_block(old(func)@, b, from, to),
{
    assert(func@.blocks[b.0 as int].terminator == func.blocks@[b.0 as int].terminator);
    let t = match func.blocks[b.0 as usize].terminator {
        Some(t) => t,
        None => return,
    };
    let k = &func.instructions[t.0 as usize];
    assert(func@.instrs[t.0 as int] == k@);
    let nk = match k {
        InstrKind::Br { dest } => InstrKind::Br { dest: if *dest == from { to } else { *dest } },
        InstrKind::CondBr { cond, then_dest, else_dest } => InstrKind::CondBr {
            cond: *cond,
            then_dest: if *then_dest == from { to } else { *then_dest },
            else_dest: if *else_dest == from { to } else { *else_dest },
        },
        InstrKind::Switch { val, default, cases } => {
            let mut nc: Vec<(ValueRef, BlockId)> = Vec::new();
            let mut i: usize = 0;
            while i < cases.len()
                invariant
                    i <= cases@.len(),
                    nc@ =~= cases@.take(i as int).map_values(|c: (ValueRef, BlockId)| retarget_case(c, from, to)),
                decreases cases.len() - i,
            {
                let (v, d) = cases[i];
                nc.push((v, if d == from { to } else { d }));
                assert(cases@.take(i + 1) =~= cases@.take(i as int).push(cases@[i as int]));
                i = i + 1;
            }
            assert(cases@.take(cases@.len() as int) =~= cases@);
            InstrKind::Switch { val: *val, default: if *default == from { to } else { *default }, cases: nc }
        },
        _ => {
            assert(func@.instrs.update(t.0 as int, func@.instrs[t.0 as int]) =~= func@.instrs);
            return;
        },
    };
    func.set_instr(t, nk);
}

/// Make the phis listed in `hb` take their entries from `outs` from `pre`.
fn retarget_header_phis(func: &mut Function, hb: &Vec<InstrId>, outs: &Vec<BlockId>, pre: BlockId)
    requires
        forall|k: int| 0 <= k < hb@.len() ==> (#[trigger] hb@[k]).0 < old(func)@.instrs.len(),
    ensures
        final(func)@ == retarget_phis(old(func)@, hb@, outs@, pre, hb@.len()),
{
    let ghost f0 = func@;
    let mut i: usize = 0;
    while i < hb.len()
        invariant
            i <= hb@.len(),
            forall|k: int| 0 <= k < hb@.len() ==> (#[trigger] hb@[k]).0 < f0.instrs.len(),
            func@ == retarget_phis(f0, hb@, outs@, pre, i as nat),
            func@.instrs.len() == f0.instrs.len(),
        decreases hb.len() - i,
    {
        let iid = hb[i];
        assert(hb@[i as int] == iid);
        let k = &func.instructions[iid.0 as usize];
        assert(func@.instrs[iid.0 as int] == k@);
        if let InstrKind::Phi { ty, incoming } = k {
            let mut ni: Vec<(ValueRef, BlockId)> = Vec::new();
            let mut j: usize = 0;
            while j < incoming.len()
                invariant
                    j <= incoming@.len(),
                    ni@ =~= incoming@.take(j as int).map_values(|c: (ValueRef, BlockId)| phi_entry(c, outs@, pre)),
                decreases incoming.len() - j,
            {
                let (v, src) = incoming[j];
                let from = if has_block(outs, src) { pre } else { src };
                ni.push((v, from));
                assert(incoming@.take(j + 1) =~= incoming@.take(j as int).push(incoming@[j as int]));
                j = j + 1;
            }
            assert(incoming@.take(incoming@.len() as int) =~= incoming@);
            let nk = InstrKind::Phi { ty: *ty, incoming: ni };
            func.set_instr(iid, nk);
        }
        i = i + 1;
    }
}

/// Find or make the preheader of the loop with header `header` (see `with_preheader`).
fn ensure_preheader(func: &mut Function, preds: &Vec<BlockId>, header: BlockId, body: &Vec<BlockId>) -> (pre: BlockId)
    requires
        ids_in_range(old(func)@),
        (header.0 as int) < old(func)@.blocks.len(),
        forall|i: int| 0 <= i < preds@.len() ==> (#[trigger] preds@[i]).0 < old(func)@.blocks.len(),
        old(func)@.blocks.len() < u32::MAX,
        old(func)@.instrs.len() < u32::MAX,
    ensures
        (final(func)@, pre) == with_preheader(old(func)@, header, preds@, body@),
        ids_in_range(final(func)@),
        final(func)@.blocks.len() <= old(func)@.blocks.len() + 1,
        final(func)@.instrs.len() <= old(func)@.instrs.len() + 1,
        (pre.0 as int) < final(func)@.blocks.len(),
        !body@.contains(pre) || pre.0 >= old(func)@.blocks.len(),
{
    let ghost f0 = func@;
    let outs = outside(preds, body);
    proof {
        assert forall|i: int| 0 <= i < outs@.len() implies (#[trigger] outs@[i]).0 < f0.blocks.len() && !body@.contains(outs@[i]) by {
            lemma_outside_from(preds@, body@, i);
        }
    }
    if outs.len() == 1 {
        let p = outs[0];
        assert(f0.blocks[p.0 as int].terminator == func.blocks@[p.0 as int].terminator);
        if let Some(t) = func.blocks[p.0 as usize].terminator {
            assert(f0.instrs[t.0 as int] == func.instructions@[t.0 as int]@);
            if let InstrKind::Br { dest } = &func.instructions[t.0 as usize] {
                if *dest == header {
                    return p;
                }
            }
        }
    }
    assert(f0.blocks[header.0 as int].name == func.blocks@[header.0 as int].name@);
    let mut name = func.blocks[header.0 as usize].name.clone();
    name.append(".preheader");
    let br = func.alloc_instr(InstrKind::Br { dest: header });
    let idx = func.add_block(BasicBlock { name, body: Vec::new(), terminator: Some(br) });
    let pre = BlockId(idx as u32);
    let ghost f1 = func@;
    assert(f1.blocks[idx as int].body =~= Seq::<InstrId>::empty());
    assert(f1 =~= (FuncView {
        instrs: f0.instrs.push(KindView::Br { dest: header }),
        blocks: f0.blocks.push(
            BlockView { name: f0.blocks[header.0 as int].name + ".preheader"@, body: Seq::empty(), terminator: Some(br) },
        ),
        ..f0
    }));
    let mut i: usize = 0;
    while i < outs.len()
        invariant
            i <= outs@.len(),
            forall|j: int| 0 <= j < outs@.len() ==> (#[trigger] outs@[j]).0 < f0.blocks.len(),
            f1.blocks.len() == f0.blocks.len() + 1,
            f1.instrs.len() == f0.instrs.len() + 1,
            ids_in_range(f1),
            func@ == redirect_all(f1, outs@, header, pre, i as nat),
            func@.blocks == f1.blocks,
            func@.instrs.len() == f1.instrs.len(),
        decreases outs.len() - i,
    {
        assert(outs@[i as int].0 < f0.blocks.len());
        redirect_branch(func, outs[i], header, pre);
        i = i + 1;
    }
    assert(func@.blocks[header.0 as int].body == func.blocks@[header.0 as int].body@);
    let hb = func.blocks[header.0 as usize].body.clone();
    assert(hb@ == f0.blocks[header.0 as int].body);
    assert forall|k: int| 0 <= k < hb@.len() implies (#[trigger] hb@[k]).0 < func@.instrs.len() by {
        assert(f0.blocks[header.0 as int].body[k].0 < f0.instrs.len());
    }
    let ghost f2 = func@;
    retarget_header_phis(func, &hb, &outs, pre);
    proof {
        lemma_retarget_keeps_blocks(f2, hb@, outs@, pre, hb@.len());
    }
    pre
}

proof fn lemma_outside_from(preds: Seq<BlockId>, body: Seq<BlockId>, i: int)
    requires
        0 <= i < outside_preds(preds, body).len(),
    ensures
        preds.contains(outside_preds(preds, body)[i]),
        !body.contains(outside_preds(preds, body)[i]),
    decreases preds.len(),
{
    let r = outside_preds(preds.drop_last(), body);
    if i < r.len() {
        lemma_outside_from(preds.drop_last(), body, i);
        let j = choose|j: int| 0 <= j < preds.drop_last().len() && preds.drop_last()[j] == r[i];
        assert(preds[j] == r[i]);
        if !body.contains(preds.last()) {
            assert(r.push(preds.last())[i] == r[i]);
        }
    } else {
        assert(preds[preds.len() - 1] == preds.last());
    }
}

proof fn lemma_retarget_keeps_blocks(f: FuncView, hb: Seq<InstrId>, outs: Seq<BlockId>, pre: BlockId, n: nat)
    requires
        n <= hb.len(),
        forall|k: int| 0 <= k < hb.len() ==> (#[trigger] hb[k]).0 < f.instrs.len(),
    ensures
        retarget_phis(f, hb, outs, pre, n).blocks == f.blocks,
        retarget_phis(f, hb, outs, pre, n).instrs.len() == f.instrs.len(),
    decreases n,
{
    if n > 0 {
        lemma_retarget_keeps_blocks(f, hb, outs, pre, (n - 1) as nat);
    }
}

/// Indices of `loops` ordered by body length, ties in index order (see `by_size`).
fn order_by_size(loops: &Vec<LoopDesc>) -> (order: Vec<usize>)
    ensures
        order@ == by_size(loops@.map_values(|l: LoopDesc| l@), loops@.len()),
        forall|i: int| 0 <= i < order@.len() ==> (#[trigger] order@[i]) < loops@.len(),
        order@.len() == loops@.len(),
{
    let ghost lv = loops@.map_values(|l: LoopDesc| l@);
    let mut order: Vec<usize> = Vec::new();
    let mut n: usize = 0;
    while n < loops.len()
        invariant
            lv == loops@.map_values(|l: LoopDesc| l@),
            n <= loops@.len(),
            order@ == by_size(lv, n as nat),
            order@.len() == n,
            forall|i: int| 0 <= i < order@.len() ==> (#[trigger] order@[i]) < n,
        decreases loops.len() - n,
    {
        let len = loops[n].body.len();
        assert(lv[n as int].body.len() == len);
        let mut k: usize = 0;
        while k < order.len() && loops[order[k]].body.len() <= len
            invariant
                lv == loops@.map_values(|l: LoopDesc| l@),
                n < loops@.len(),
                k <= order@.len(),
                forall|i: int| 0 <= i < order@.len() ==> (#[trigger] order@[i]) < n,
                first_longer(order@, lv, len as nat, 0) == first_longer(order@, lv, len as nat, k as int),
            decreases order.len() - k,
        {
            assert(lv[order@[k as int] as int].body.len() == loops@[order@[k as int] as int].body@.len());
            k = k + 1;
        }
        if k < order.len() {
            assert(lv[order@[k as int] as int].body.len() == loops@[order@[k as int] as int].body@.len());
        }
        let ghost before = order@;
        order.insert(k, n);
        assert forall|i: int| 0 <= i < order@.len() implies (#[trigger] order@[i]) < n + 1 by {
            if i < k {
                assert(order@[i] == before[i]);
            } else if i > k {
                assert(order@[i] == before[i - 1]);
            }
        }
        n = n + 1;
    }
    order
}

/// Loop-invariant code motion.
pub struct Licm;

/// The loops' headers and body blocks are blocks of `f`, each header has its
/// predecessor list, every predecessor is a block of `f`, and the blocks
/// and instructions that new preheaders add keep their ids in range.
pub open spec fn licm_inputs_ok(f: FuncView, loops: Seq<LoopView>, preds: Seq<Seq<BlockId>>) -> bool {
    &&& ids_in_range(f)
    &&& f.blocks.len() + loops.len() < u32::MAX
    &&& f.instrs.len() + loops.len() < u32::MAX
    &&& forall|i: int|
        0 <= i < loops.len() ==> {
            let l = #[trigger] loops[i];
            &&& l.header.0 < f.blocks.len()
            &&& l.header.0 < preds.len()
            &&& forall|j: int| 0 <= j < l.body.len() ==> (#[trigger] l.body[j]).0 < f.blocks.len()
        }
    &&& forall|h: int, j: int|
        0 <= h < preds.len() && 0 <= j < preds[h].len() ==> (#[trigger] preds[h][j]).0 < f.blocks.len()
}

impl Licm {
    /// The pass name.
    pub fn name(&self) -> (s: &'static str)
        ensures
            s@ == "licm"@,
    {
        "licm"
    }

    /// Run the pass on `func`, given its natural loops and the predecessors
    /// of each block as the control-flow analysis found them, and whether
    /// the function is in strict floating-point mode; report whether any
    /// instruction moved (see `licm_result`).
    pub fn run_on_function(
        &mut self,
        func: &mut Function,
        loops: &Vec<LoopDesc>,
        preds: &Vec<Vec<BlockId>>,
        strictfp: bool,
    ) -> (changed: bool)
        requires
            licm_inputs_ok(old(func)@, loops@.map_values(|l: LoopDesc| l@), preds@.map_values(|p: Vec<BlockId>| p@)),
        ensures
            (final(func)@, changed) == licm_result(
                old(func)@,
                loops@.map_values(|l: LoopDesc| l@),
                preds@.map_values(|p: Vec<BlockId>| p@),
                strictfp,
            ),
    {
        let ghost lv = loops@.map_values(|l: LoopDesc| l@);
        let ghost pv = preds@.map_values(|p: Vec<BlockId>| p@);
        let ghost f0 = func@;
        if func.blocks.len() == 0 || loops.len() == 0 {
            return false;
        }
        let order = order_by_size(loops);
        let mut changed = false;
        let mut k: usize = 0;
        while k < order.len()
            invariant
                lv == loops@.map_values(|l: LoopDesc| l@),
                pv == preds@.map_values(|p: Vec<BlockId>| p@),
                licm_inputs_ok(f0, lv, pv),
                order@ == by_size(lv, lv.len()),
                order@.len() == lv.len(),
                forall|i: int| 0 <= i < order@.len() ==> (#[trigger] order@[i]) < lv.len(),
                k <= order@.len(),
                (func@, changed) == licm_upto(f0, lv, order@, pv, strictfp, k as nat),
                ids_in_range(func@),
                f0.blocks.len() <= func@.blocks.len() <= f0.blocks.len() + k,
                func@.instrs.len() <= f0.instrs.len() + k,
            decreases order.len() - k,
        {
            let li = order[k];
            assert(order@[k as int] == li);
            let l = &loops[li];
            let ghost lw = lv[li as int];
            assert(lw.header == l.header && lw.body == l.body@);
            let h = l.header;
            assert(pv[h.0 as int] == preds@[h.0 as int]@);
            assert forall|j: int| 0 <= j < preds@[h.0 as int]@.len() implies (#[trigger] preds@[h.0 as int]@[j]).0 < func@.blocks.len() by {
                assert(pv[h.0 as int][j].0 < f0.blocks.len());
            }
            let ghost g = func@;
            let pre = ensure_preheader(func, &preds[h.0 as usize], h, &l.body);
            let ghost f1 = func@;
            let ghost mut rounds: nat = 0;
            let mut moved = false;
            loop
                invariant
                    ids_in_range(func@),
                    func@.blocks.len() == f1.blocks.len(),
                    func@.instrs.len() == f1.instrs.len(),
                    f1.blocks.len() <= u32::MAX,
                    (pre.0 as int) < f1.blocks.len(),
                    !l.body@.contains(pre),
                    func@ == hoist_rounds(f1, l.body@, pre, strictfp, rounds),
                    forall|m: nat| m < rounds ==> candidates(#[trigger] hoist_rounds(f1, l.body@, pre, strictfp, m), l.body@, strictfp).len() > 0,
                    moved == (rounds > 0),
                ensures
                    func@ == hoist_rounds(f1, l.body@, pre, strictfp, rounds),
                    settles_after(f1, l.body@, pre, strictfp, rounds),
                    ids_in_range(func@),
                    func@.blocks.len() == f1.blocks.len(),
                    func@.instrs.len() == f1.instrs.len(),
                    moved == (rounds > 0),
                decreases loop_size(func@, l.body@, func@.blocks.len()),
            {
                let ghost before = func@;
                let got = hoist_one_round(func, &l.body, pre, strictfp);
                if !got {
                    assert(func@ == before);
                    break;
                }
                proof {
                    lemma_round_shrinks(before, l.body@, pre, strictfp);
                    rounds = rounds + 1;
                }
                moved = true;
            }
            proof {
                assert(settles_after(f1, lw.body, pre, strictfp, rounds));
                let n = choose|n: nat| settles_after(f1, lw.body, pre, strictfp, n);
                lemma_settle_unique(f1, lw.body, pre, strictfp, n, rounds);
                assert(moved == (candidates(f1, lw.body, strictfp).len() > 0)) by {
                    if rounds > 0 {
                        assert(candidates(hoist_rounds(f1, lw.body, pre, strictfp, 0), lw.body, strictfp).len() > 0);
                    }
                }
            }
            changed = changed || moved;
            k = k + 1;
        }
        changed
    }
}

/// Number of body entries over the first `n` blocks.
pub open spec fn body_entries(f: FuncView, n: nat) -> nat
    decreases n,
{
    if n == 0 {
        0
    } else {
        body_entries(f, (n - 1) as nat) + f.blocks[n - 1].body.len()
    }
}

/// No block body lists an instruction twice, and no instruction is listed
/// in two block bodies.
pub open spec fn listed_once(f: FuncView) -> bool {
    &&& forall|b: int, i: int, j: int|
        0 <= b < f.blocks.len() && 0 <= i < j < f.blocks[b].body.len() ==> #[trigger] f.blocks[b].body[i]
            != #[trigger] f.blocks[b].body[j]
    &&& forall|b1: int, b2: int, y: InstrId|
        0 <= b1 < f.blocks.len() && 0 <= b2 < f.blocks.len() && b1 != b2 && #[trigger] f.blocks[b1].body.contains(y)
            ==> !#[trigger] f.blocks[b2].body.contains(y)
}

proof fn lemma_body_entries_with_body(f: FuncView, b: int, nb: Seq<InstrId>, n: nat)
    requires
        0 <= b < f.blocks.len(),
        n <= f.blocks.len(),
    ensures
        b < n ==> body_entries(with_body(f, b, nb), n) + f.blocks[b].body.len() == body_entries(f, n) + nb.len(),
        b >= n ==> body_entries(with_body(f, b, nb), n) == body_entries(f, n),
    decreases n,
{
    if n > 0 {
        lemma_body_entries_with_body(f, b, nb, (n - 1) as nat);
    }
}

/// Removing the only occurrence of `x` from `s` shortens it by one and
/// keeps its other entries, in order, without repeats.
proof fn lemma_remove_single(s: Seq<InstrId>, x: InstrId)
    requires
        forall|i: int, j: int| 0 <= i < j < s.len() ==> s[i] != s[j],
    ensures
        s.contains(x) ==> remove_all(s, x).len() + 1 == s.len(),
        forall|i: int, j: int| 0 <= i < j < remove_all(s, x).len() ==> remove_all(s, x)[i] != remove_all(s, x)[j],
        forall|y: InstrId| #[trigger] remove_all(s, x).contains(y) <==> (s.contains(y) && y != x),
    decreases s.len(),
{
    if s.len() > 0 {
        let t = s.drop_last();
        assert forall|i: int, j: int| 0 <= i < j < t.len() implies t[i] != t[j] by {
            assert(s[i] != s[j]);
        }
        lemma_remove_single(t, x);
        let r = remove_all(t, x);
        assert forall|y: InstrId| #[trigger] remove_all(s, x).contains(y) <==> (s.contains(y) && y != x) by {
            if s.contains(y) && y != x {
                let i = choose|i: int| 0 <= i < s.len() && s[i] == y;
                if i < t.len() {
                    assert(t[i] == y);
                    assert(r.contains(y));
                    if s.last() != x {
                        let k = choose|k: int| 0 <= k < r.len() && r[k] == y;
                        assert(r.push(s.last())[k] == y);
                    }
                } else {
                    assert(r.push(s.last())[r.len() as int] == y);
                }
            }
            if remove_all(s, x).contains(y) {
                let k = choose|k: int| 0 <= k < remove_all(s, x).len() && remove_all(s, x)[k] == y;
                if s.last() == x || k < r.len() {
                    if s.last() != x {
                        assert(r.push(s.last())[k] == r[k]);
                    }
                    assert(r.contains(y));
                    let i = choose|i: int| 0 <= i < t.len() && t[i] == y;
                    assert(s[i] == y);
                } else {
                    assert(s[s.len() - 1] == y);
                }
            }
        }
        if s.contains(x) {
            if s.last() != x {
                let i = choose|i: int| 0 <= i < s.len() && s[i] == x;
                assert(i < t.len());
                assert(t[i] == x);
            } else {
                assert forall|i: int| 0 <= i < t.len() implies t[i] != x by {
                    assert(s[i] != s[s.len() - 1]);
                }
                assert(!t.contains(x));
                lemma_remove_absent(t, x);
            }
        }
        if s.last() != x {
            assert(!r.contains(s.last())) by {
                assert forall|i: int| 0 <= i < t.len() implies t[i] != s.last() by {
                    assert(s[i] != s[s.len() - 1]);
                }
            }
            assert forall|i: int, j: int| 0 <= i < j < r.push(s.last()).len() implies r.push(s.last())[i] != r.push(s.last())[j] by {
                if j == r.len() {
                    assert(r.push(s.last())[i] == r[i]);
                    assert(r.contains(r[i]));
                }
            }
        }
    }
}

proof fn lemma_remove_absent(s: Seq<InstrId>, x: InstrId)
    requires
        !s.contains(x),
    ensures
        remove_all(s, x) == s,
    decreases s.len(),
{
    if s.len() > 0 {
        assert(!s.drop_last().contains(x)) by {
            if s.drop_last().contains(x) {
                let i = choose|i: int| 0 <= i < s.drop_last().len() && s.drop_last()[i] == x;
                assert(s[i] == x);
            }
        }
        lemma_remove_absent(s.drop_last(), x);
        assert(s.last() != x) by {
            assert(s[s.len() - 1] == s.last());
        }
        assert(s.drop_last().push(s.last()) =~= s);
    }
}

/// After moving `x` from `src` to `pre`, a block lists `y` exactly when it
/// did before, except that `x` is listed by `pre` alone.
proof fn lemma_move_listing(g: FuncView, src: BlockId, x: InstrId, pre: BlockId)
    requires
        listed_once(g),
        src.0 < g.blocks.len(),
        pre.0 < g.blocks.len(),
        src != pre,
        g.blocks[src.0 as int].body.contains(x),
    ensures
        move_instr(g, src, x, pre).blocks.len() == g.blocks.len(),
        forall|b: int, y: InstrId|
            0 <= b < g.blocks.len() ==> (#[trigger] move_instr(g, src, x, pre).blocks[b].body.contains(y) <==> (if y == x {
                b == pre.0
            } else {
                g.blocks[b].body.contains(y)
            })),
        listed_once(move_instr(g, src, x, pre)),
        body_entries(move_instr(g, src, x, pre), g.blocks.len()) == body_entries(g, g.blocks.len()),
{
    let s = src.0 as int;
    let p = pre.0 as int;
    let sb = g.blocks[s].body;
    assert forall|i: int, j: int| 0 <= i < j < sb.len() implies sb[i] != sb[j] by {
        assert(g.blocks[s].body[i] != g.blocks[s].body[j]);
    }
    lemma_remove_single(sb, x);
    let f1 = with_body(g, s, remove_all(sb, x));
    let h = move_instr(g, src, x, pre);
    let pb = g.blocks[p].body;
    assert(!pb.contains(x));
    assert(h.blocks[p].body == pb.push(x));
    assert forall|b: int, y: InstrId| 0 <= b < g.blocks.len() implies (#[trigger] h.blocks[b].body.contains(y) <==> (if y == x {
        b == p
    } else {
        g.blocks[b].body.contains(y)
    })) by {
        if b == p {
            if pb.push(x).contains(y) && y != x {
                let k = choose|k: int| 0 <= k < pb.push(x).len() && pb.push(x)[k] == y;
                assert(pb[k] == y);
            }
            if y == x {
                assert(pb.push(x)[pb.len() as int] == x);
            } else if pb.contains(y) {
                let k = choose|k: int| 0 <= k < pb.len() && pb[k] == y;
                assert(pb.push(x)[k] == y);
            }
        } else if b == s {
        } else {
            if y == x {
                assert(!g.blocks[b].body.contains(x));
            }
        }
    }
    assert forall|b: int, i: int, j: int|
        0 <= b < h.blocks.len() && 0 <= i < j < h.blocks[b].body.len() implies #[trigger] h.blocks[b].body[i]
            != #[trigger] h.blocks[b].body[j] by {
        if b == p {
            if j == pb.len() {
                assert(h.blocks[b].body[i] == pb[i]);
                assert(pb.contains(pb[i]));
            } else {
                assert(h.blocks[b].body[i] == pb[i] && h.blocks[b].body[j] == pb[j]);
                assert(g.blocks[p].body[i] != g.blocks[p].body[j]);
            }
        } else if b == s {
        } else {
            assert(g.blocks[b].body[i] != g.blocks[b].body[j]);
        }
    }
    assert forall|b1: int, b2: int, y: InstrId|
        0 <= b1 < h.blocks.len() && 0 <= b2 < h.blocks.len() && b1 != b2 && #[trigger] h.blocks[b1].body.contains(y)
            implies !#[trigger] h.blocks[b2].body.contains(y) by {
        if y != x {
            assert(g.blocks[b1].body.contains(y));
            if h.blocks[b2].body.contains(y) {
                assert(g.blocks[b2].body.contains(y));
            }
        }
    }
    let nb = g.blocks.len();
    lemma_body_entries_with_body(g, s, remove_all(sb, x), nb);
    lemma_body_entries_with_body(f1, p, f1.blocks[p].body.push(x), nb);
}

/// The candidates of block `b` among its first `k` entries are distinct
/// entries of that prefix.
proof fn lemma_block_candidates_distinct(f: FuncView, body: Seq<BlockId>, b: int, k: nat, strictfp: bool)
    requires
        listed_once(f),
        0 <= b < f.blocks.len(),
        k <= f.blocks[b].body.len(),
    ensures
        forall|i: int, j: int|
            0 <= i < j < block_candidates(f, body, b, k, strictfp).len() ==> (#[trigger] block_candidates(f, body, b, k, strictfp)[i]).1
                != (#[trigger] block_candidates(f, body, b, k, strictfp)[j]).1,
        forall|i: int|
            0 <= i < block_candidates(f, body, b, k, strictfp).len() ==> f.blocks[b].body.take(k as int).contains(
                (#[trigger] block_candidates(f, body, b, k, strictfp)[i]).1,
            ),
    decreases k,
{
    if k > 0 {
        lemma_block_candidates_distinct(f, body, b, (k - 1) as nat, strictfp);
        let c = block_candidates(f, body, b, (k - 1) as nat, strictfp);
        let bb = f.blocks[b].body;
        let x = bb[k - 1];
        assert forall|i: int| 0 <= i < c.len() implies bb.take(k as int).contains(#[trigger] c[i].1) && c[i].1 != x by {
            let m = choose|m: int| 0 <= m < k - 1 && #[trigger] bb.take(k - 1)[m] == c[i].1;
            assert(bb.take(k as int)[m] == c[i].1);
            assert(bb[m] != bb[k - 1]);
        }
        if loop_invariant(f, body, x, strictfp) {
            let e = (BlockId(b as u32), x);
            assert(bb.take(k as int)[k - 1] == x);
            assert forall|i: int, j: int| 0 <= i < j < c.push(e).len() implies (#[trigger] c.push(e)[i]).1 != (#[trigger] c.push(e)[j]).1 by {
                assert(c.push(e)[i] == c[i]);
            }
            assert forall|i: int| 0 <= i < c.push(e).len() implies bb.take(k as int).contains((#[trigger] c.push(e)[i]).1) by {
                if i < c.len() {
                    assert(c.push(e)[i] == c[i]);
                }
            }
        }
    }
}

/// Distinct candidates move distinct instructions.
proof fn lemma_candidates_distinct(f: FuncView, body: Seq<BlockId>, n: nat, strictfp: bool)
    requires
        listed_once(f),
        n <= f.blocks.len(),
        f.blocks.len() <= u32::MAX,
    ensures
        forall|i: int, j: int|
            0 <= i < j < candidates_upto(f, body, n, strictfp).len() ==> (#[trigger] candidates_upto(f, body, n, strictfp)[i]).1
                != (#[trigger] candidates_upto(f, body, n, strictfp)[j]).1,
    decreases n,
{
    if n > 0 {
        lemma_candidates_distinct(f, body, (n - 1) as nat, strictfp);
        lemma_candidates_from(f, body, (n - 1) as nat, strictfp);
        let prev = candidates_upto(f, body, (n - 1) as nat, strictfp);
        if body.contains(BlockId((n - 1) as u32)) {
            let b = n - 1;
            let bc = block_candidates(f, body, b, f.blocks[b].body.len(), strictfp);
            lemma_block_candidates_distinct(f, body, b, f.blocks[b].body.len(), strictfp);
            assert(f.blocks[b].body.take(f.blocks[b].body.len() as int) =~= f.blocks[b].body);
            let all = prev + bc;
            assert forall|i: int, j: int| 0 <= i < j < all.len() implies (#[trigger] all[i]).1 != (#[trigger] all[j]).1 by {
                if j < prev.len() {
                    assert(all[i] == prev[i] && all[j] == prev[j]);
                } else if i >= prev.len() {
                    assert(all[i] == bc[i - prev.len()] && all[j] == bc[j - prev.len()]);
                } else {
                    assert(all[i] == prev[i] && all[j] == bc[j - prev.len()]);
                    let pi = prev[i];
                    assert(pi.0.0 < n - 1);
                    assert(f.blocks[pi.0.0 as int].body.contains(pi.1));
                    assert(f.blocks[b].body.contains(bc[j - prev.len()].1));
                }
            }
        }
    }
}

/// Loop-invariant code motion moves instructions and never copies them: a
/// round keeps the number of body entries over all blocks, and keeps every
/// instruction listed once, when no instruction was listed twice before.
pub proof fn lemma_round_moves_not_copies(f: FuncView, body: Seq<BlockId>, pre: BlockId, strictfp: bool)
    requires
        listed_once(f),
        pre.0 < f.blocks.len(),
        f.blocks.len() <= u32::MAX,
        !body.contains(pre),
    ensures
        hoist_round(f, body, pre, strictfp).blocks.len() == f.blocks.len(),
        body_entries(hoist_round(f, body, pre, strictfp), f.blocks.len()) == body_entries(f, f.blocks.len()),
        listed_once(hoist_round(f, body, pre, strictfp)),
{
    let c = candidates(f, body, strictfp);
    lemma_candidates_from(f, body, f.blocks.len(), strictfp);
    lemma_candidates_distinct(f, body, f.blocks.len(), strictfp);
    lemma_moves_keep_count(f, body, c, pre, c.len());
}

proof fn lemma_moves_keep_count(f: FuncView, body: Seq<BlockId>, c: Seq<(BlockId, InstrId)>, pre: BlockId, m: nat)
    requires
        listed_once(f),
        pre.0 < f.blocks.len(),
        !body.contains(pre),
        m <= c.len(),
        forall|i: int|
            0 <= i < c.len() ==> (#[trigger] c[i]).0.0 < f.blocks.len() && body.contains(c[i].0) && f.blocks[c[i].0.0 as int].body.contains(
                c[i].1,
            ),
        forall|i: int, j: int| 0 <= i < j < c.len() ==> (#[trigger] c[i]).1 != (#[trigger] c[j]).1,
    ensures
        apply_moves(f, c, pre, m).blocks.len() == f.blocks.len(),
        listed_once(apply_moves(f, c, pre, m)),
        body_entries(apply_moves(f, c, pre, m), f.blocks.len()) == body_entries(f, f.blocks.len()),
        forall|j: int| m <= j < c.len() ==> apply_moves(f, c, pre, m).blocks[(#[trigger] c[j]).0.0 as int].body.contains(c[j].1),
    decreases m,
{
    if m > 0 {
        lemma_moves_keep_count(f, body, c, pre, (m - 1) as nat);
        let g = apply_moves(f, c, pre, (m - 1) as nat);
        let e = c[m - 1];
        assert(g.blocks[e.0.0 as int].body.contains(e.1));
        lemma_move_listing(g, e.0, e.1, pre);
        let h = move_instr(g, e.0, e.1, pre);
        assert forall|j: int| m <= j < c.len() implies h.blocks[(#[trigger] c[j]).0.0 as int].body.contains(c[j].1) by {
            assert(c[m - 1].1 != c[j].1);
            assert(g.blocks[c[j].0.0 as int].body.contains(c[j].1));
        }
    }
}

proof fn lemma_rounds_keep(f: FuncView, body: Seq<BlockId>, pre: BlockId, strictfp: bool, n: nat)
    requires
        listed_once(f),
        pre.0 < f.blocks.len(),
        f.blocks.len() <= u32::MAX,
        !body.contains(pre),
    ensures
        hoist_rounds(f, body, pre, strictfp, n).blocks.len() == f.blocks.len(),
        body_entries(hoist_rounds(f, body, pre, strictfp, n), f.blocks.len()) == body_entries(f, f.blocks.len()),
        listed_once(hoist_rounds(f, body, pre, strictfp, n)),
    decreases n,
{
    if n > 0 {
        lemma_rounds_keep(f, body, pre, strictfp, (n - 1) as nat);
        lemma_round_moves_not_copies(hoist_rounds(f, body, pre, strictfp, (n - 1) as nat), body, pre, strictfp);
    }
}

proof fn lemma_redirect_keeps_blocks(f: FuncView, outs: Seq<BlockId>, from: BlockId, to: BlockId, n: nat)
    ensures
        redirect_all(f, outs, from, to, n).blocks == f.blocks,
    decreases n,
{
    if n > 0 {
        lemma_redirect_keeps_blocks(f, outs, from, to, (n - 1) as nat);
    }
}

proof fn lemma_phis_keep_blocks(f: FuncView, hb: Seq<InstrId>, outs: Seq<BlockId>, pre: BlockId, n: nat)
    ensures
        retarget_phis(f, hb, outs, pre, n).blocks == f.blocks,
    decreases n,
{
    if n > 0 {
        lemma_phis_keep_blocks(f, hb, outs, pre, (n - 1) as nat);
    }
}

proof fn lemma_body_entries_prefix(f: FuncView, g: FuncView, n: nat)
    requires
        n <= f.blocks.len(),
        n <= g.blocks.len(),
        forall|i: int| 0 <= i < n ==> (#[trigger] g.blocks[i]).body == f.blocks[i].body,
    ensures
        body_entries(g, n) == body_entries(f, n),
    decreases n,
{
    if n > 0 {
        lemma_body_entries_prefix(f, g, (n - 1) as nat);
    }
}

proof fn lemma_outside_preds_from(preds: Seq<BlockId>, body: Seq<BlockId>)
    ensures
        forall|i: int|
            0 <= i < outside_preds(preds, body).len() ==> preds.contains(#[trigger] outside_preds(preds, body)[i]) && !body.contains(
                outside_preds(preds, body)[i],
            ),
{
    assert forall|i: int| 0 <= i < outside_preds(preds, body).len() implies preds.contains(
        #[trigger] outside_preds(preds, body)[i],
    ) && !body.contains(outside_preds(preds, body)[i]) by {
        lemma_outside_from(preds, body, i);
    }
}

/// Finding or making a preheader moves no instruction: the bodies of the
/// existing blocks stay, a new preheader starts empty, and the preheader is
/// a block outside the loop.
proof fn lemma_preheader_keeps_bodies(f: FuncView, header: BlockId, preds: Seq<BlockId>, body: Seq<BlockId>)
    requires
        listed_once(f),
        header.0 < f.blocks.len(),
        forall|i: int| 0 <= i < preds.len() ==> (#[trigger] preds[i]).0 < f.blocks.len(),
        forall|i: int| 0 <= i < body.len() ==> (#[trigger] body[i]).0 < f.blocks.len(),
        f.blocks.len() < u32::MAX,
    ensures
        ({
            let (g, pre) = with_preheader(f, header, preds, body);
            &&& f.blocks.len() <= g.blocks.len() <= f.blocks.len() + 1
            &&& pre.0 < g.blocks.len()
            &&& !body.contains(pre)
            &&& listed_once(g)
            &&& body_entries(g, g.blocks.len()) == body_entries(f, f.blocks.len())
        }),
{
    let outs = outside_preds(preds, body);
    lemma_outside_preds_from(preds, body);
    if reusable(f, outs, header) {
        let p = outs[0];
        let k = choose|k: int| 0 <= k < preds.len() && preds[k] == p;
        assert(preds[k].0 < f.blocks.len());
    } else {
        let br = InstrId(f.instrs.len() as u32);
        let pre = BlockId(f.blocks.len() as u32);
        let f1 = FuncView {
            instrs: f.instrs.push(KindView::Br { dest: header }),
            blocks: f.blocks.push(
                BlockView { name: f.blocks[header.0 as int].name + ".preheader"@, body: Seq::empty(), terminator: Some(br) },
            ),
            ..f
        };
        let f2 = redirect_all(f1, outs, header, pre, outs.len());
        let hb = f.blocks[header.0 as int].body;
        lemma_redirect_keeps_blocks(f1, outs, header, pre, outs.len());
        lemma_phis_keep_blocks(f2, hb, outs, pre, hb.len());
        let g = retarget_phis(f2, hb, outs, pre, hb.len());
        assert(g.blocks == f1.blocks);
        if body.contains(pre) {
            let i = choose|i: int| 0 <= i < body.len() && body[i] == pre;
            assert(body[i].0 < f.blocks.len());
        }
        lemma_body_entries_prefix(f, g, f.blocks.len());
        assert(g.blocks[f.blocks.len() as int].body.len() == 0);
        assert forall|b1: int, b2: int, y: InstrId|
            0 <= b1 < g.blocks.len() && 0 <= b2 < g.blocks.len() && b1 != b2 && #[trigger] g.blocks[b1].body.contains(y)
                implies !#[trigger] g.blocks[b2].body.contains(y) by {
            if b1 < f.blocks.len() && b2 < f.blocks.len() {
                assert(f.blocks[b1].body.contains(y));
            }
        }
        assert forall|b: int, i: int, j: int|
            0 <= b < g.blocks.len() && 0 <= i < j < g.blocks[b].body.len() implies #[trigger] g.blocks[b].body[i]
                != #[trigger] g.blocks[b].body[j] by {
            assert(f.blocks[b].body[i] != f.blocks[b].body[j]);
        }
    }
}

proof fn lemma_first_longer_bound(order: Seq<usize>, loops: Seq<LoopView>, len: nat, k: int)
    requires
        0 <= k <= order.len(),
    ensures
        k <= first_longer(order, loops, len, k) <= order.len(),
    decreases order.len() - k,
{
    if k < order.len() && loops[order[k] as int].body.len() <= len {
        lemma_first_longer_bound(order, loops, len, k + 1);
    }
}

proof fn lemma_by_size_indices(loops: Seq<LoopView>, n: nat)
    requires
        n <= loops.len(),
        loops.len() <= usize::MAX,
    ensures
        by_size(loops, n).len() == n,
        forall|i: int| 0 <= i < n ==> (#[trigger] by_size(loops, n)[i]) < n,
    decreases n,
{
    if n > 0 {
        lemma_by_size_indices(loops, (n - 1) as nat);
        let o = by_size(loops, (n - 1) as nat);
        let p = first_longer(o, loops, loops[n - 1].body.len(), 0);
        lemma_first_longer_bound(o, loops, loops[n - 1].body.len(), 0);
        let r = o.insert(p, (n - 1) as usize);
        assert forall|i: int| 0 <= i < n implies (#[trigger] r[i]) < n by {
            if i < p {
                assert(r[i] == o[i]);
            } else if i > p {
                assert(r[i] == o[i - 1]);
            }
        }
    }
}

proof fn lemma_licm_upto_keeps(
    f: FuncView,
    loops: Seq<LoopView>,
    order: Seq<usize>,
    preds: Seq<Seq<BlockId>>,
    strictfp: bool,
    k: nat,
)
    requires
        listed_once(f),
        licm_inputs_ok(f, loops, preds),
        k <= order.len(),
        k <= loops.len(),
        forall|i: int| 0 <= i < order.len() ==> (#[trigger] order[i]) < loops.len(),
    ensures
        listed_once(licm_upto(f, loops, order, preds, strictfp, k).0),
        body_entries(licm_upto(f, loops, order, preds, strictfp, k).0, licm_upto(f, loops, order, preds, strictfp, k).0.blocks.len())
            == body_entries(f, f.blocks.len()),
        f.blocks.len() <= licm_upto(f, loops, order, preds, strictfp, k).0.blocks.len() <= f.blocks.len() + k,
    decreases k,
{
    if k > 0 {
        lemma_licm_upto_keeps(f, loops, order, preds, strictfp, (k - 1) as nat);
        let g = licm_upto(f, loops, order, preds, strictfp, (k - 1) as nat).0;
        let l = loops[order[k - 1] as int];
        let hp = preds[l.header.0 as int];
        assert forall|i: int| 0 <= i < hp.len() implies (#[trigger] hp[i]).0 < g.blocks.len() by {
            assert(preds[l.header.0 as int][i].0 < f.blocks.len());
        }
        assert forall|i: int| 0 <= i < l.body.len() implies (#[trigger] l.body[i]).0 < g.blocks.len() by {
            assert(loops[order[k - 1] as int].body[i].0 < f.blocks.len());
        }
        lemma_preheader_keeps_bodies(g, l.header, hp, l.body);
        let (f1, pre) = with_preheader(g, l.header, hp, l.body);
        let n = choose|n: nat| settles_after(f1, l.body, pre, strictfp, n);
        lemma_rounds_keep(f1, l.body, pre, strictfp, n);
    }
}

/// Loop-invariant code motion moves instructions and never copies or drops
/// them: over the whole pass the number of body entries over all blocks
/// stays the same (a new preheader starts empty), and every instruction
/// stays listed once, when no instruction was listed twice before.
pub proof fn lemma_licm_moves_not_copies(f: FuncView, loops: Seq<LoopView>, preds: Seq<Seq<BlockId>>, strictfp: bool)
    requires
        listed_once(f),
        licm_inputs_ok(f, loops, preds),
        loops.len() <= usize::MAX,
    ensures
        listed_once(licm_result(f, loops, preds, strictfp).0),
        body_entries(licm_result(f, loops, preds, strictfp).0, licm_result(f, loops, preds, strictfp).0.blocks.len())
            == body_entries(f, f.blocks.len()),
{
    if f.blocks.len() > 0 && loops.len() > 0 {
        lemma_by_size_indices(loops, loops.len());
        lemma_licm_upto_keeps(f, loops, by_size(loops, loops.len()), preds, strictfp, loops.len());
    }
}

/// Does an instruction of kind `k` read the value `v`?  Every value named in
/// its operand fields counts: both sides of an integer operation or a
/// comparison, the converted value, the condition and both choices of a
/// select, the operands of a floating-point or aggregate operation, the
/// pointer of a load or address computation, the value and pointer of a
/// store, the callee and arguments of a call.
pub open spec fn reads(k: KindView, v: ValueRef) -> bool {
    match k {
        KindView::Binary { lhs, rhs, .. } => v == lhs || v == rhs,
        KindView::ICmp { lhs, rhs, .. } => v == lhs || v == rhs,
        KindView::Cast { val } => v == val,
        KindView::PtrToInt { val } => v == val,
        KindView::Select { cond, then_val, else_val } => v == cond || v == then_val || v == else_val,
        KindView::FloatOp { operands, .. } => operands.contains(v),
        KindView::Aggregate { operands, .. } => operands.contains(v),
        KindView::Load { ptr, .. } => v == ptr,
        KindView::GetElementPtr { ptr } => v == ptr,
        KindView::Store { val, ptr, .. } => v == val || v == ptr,
        KindView::Call { callee, args, .. } => v == callee || args.contains(v),
        _ => false,
    }
}

/// An instruction counts as loop-invariant only if every value it reads is
/// defined outside the loop, and only if it has no side effects: a
/// floating-point arithmetic operation also needs to be reorderable with
/// strict floating-point mode off, and an aggregate access must be a member
/// access.
pub proof fn lemma_invariant_reads_outside(f: FuncView, body: Seq<BlockId>, iid: InstrId, strictfp: bool)
    requires
        loop_invariant(f, body, iid, strictfp),
    ensures
        forall|v: ValueRef| #[trigger] reads(f.instrs[iid.0 as int], v) ==> outside_loop(f, body, v),
        !(f.instrs[iid.0 as int] is Phi || f.instrs[iid.0 as int] is Load || f.instrs[iid.0 as int] is Store
            || f.instrs[iid.0 as int] is Call || f.instrs[iid.0 as int] is GetElementPtr),
        f.instrs[iid.0 as int] matches KindView::FloatOp { arith, reorderable, .. } ==> (!arith || (!strictfp && reorderable)),
        f.instrs[iid.0 as int] matches KindView::Aggregate { value_op, .. } ==> value_op,
{
    let k = f.instrs[iid.0 as int];
    let ops = kind_operands(k);
    assert forall|v: ValueRef| #[trigger] reads(k, v) implies outside_loop(f, body, v) by {
        match k {
            KindView::Binary { lhs, rhs, .. } => {
                assert(ops[0] == lhs && ops[1] == rhs);
                if v == lhs {
                    assert(outside_loop(f, body, ops[0]));
                } else {
                    assert(outside_loop(f, body, ops[1]));
                }
            },
            KindView::ICmp { lhs, rhs, .. } => {
                assert(ops[0] == lhs && ops[1] == rhs);
                if v == lhs {
                    assert(outside_loop(f, body, ops[0]));
                } else {
                    assert(outside_loop(f, body, ops[1]));
                }
            },
            KindView::Cast { val } => {
                assert(outside_loop(f, body, ops[0]));
            },
            KindView::PtrToInt { val } => {
                assert(outside_loop(f, body, ops[0]));
            },
            KindView::Select { cond, then_val, else_val } => {
                assert(ops[0] == cond && ops[1] == then_val && ops[2] == else_val);
                if v == cond {
                    assert(outside_loop(f, body, ops[0]));
                } else if v == then_val {
                    assert(outside_loop(f, body, ops[1]));
                } else {
                    assert(outside_loop(f, body, ops[2]));
                }
            },
            KindView::FloatOp { operands, .. } => {
                let j = choose|j: int| 0 <= j < operands.len() && operands[j] == v;
                assert(outside_loop(f, body, ops[j]));
            },
            KindView::Aggregate { operands, .. } => {
                let j = choose|j: int| 0 <= j < operands.len() && operands[j] == v;
                assert(outside_loop(f, body, ops[j]));
            },
            _ => {},
        }
    }
}

proof fn lemma_owner_upto(f: FuncView, iid: InstrId, n: nat)
    requires
        n <= f.blocks.len(),
        f.blocks.len() <= u32::MAX,
    ensures
        match owner_upto(f, iid, n) {
            Some(b) => b.0 < n && lists(f, b.0 as int, iid) && forall|c: int| b.0 < c < n ==> !#[trigger] lists(f, c, iid),
            None => forall|c: int| 0 <= c < n ==> !#[trigger] lists(f, c, iid),
        },
    decreases n,
{
    if n > 0 {
        lemma_owner_upto(f, iid, (n - 1) as nat);
    }
}

/// The block an instruction is taken to be defined in is the last block
/// that lists it; an instruction in the pool that no block lists, or an id
/// outside the pool, has none.
pub proof fn lemma_owner(f: FuncView, iid: InstrId)
    requires
        f.blocks.len() <= u32::MAX,
    ensures
        match owner(f, iid) {
            Some(b) => {
                &&& (iid.0 as int) < f.instrs.len()
                &&& b.0 < f.blocks.len()
                &&& lists(f, b.0 as int, iid)
                &&& forall|c: int| b.0 < c < f.blocks.len() ==> !#[trigger] lists(f, c, iid)
            },
            None => (iid.0 as int) >= f.instrs.len() || forall|c: int| 0 <= c < f.blocks.len() ==> !#[trigger] lists(f, c, iid),
        },
{
    lemma_owner_upto(f, iid, f.blocks.len());
}

} // verus!
