//! Tail-call marking.
//!
//! A call is in tail position when it is the last body instruction of its
//! block, the block ends in `ret void` or in `ret` of that call's result, and
//! the call carries no marking yet (a `notail` call is never changed). A call
//! of the function itself becomes `musttail`, any other such call `tail`.

use vstd::prelude::*;
use crate::ir::{
    ids_in_range, with_instr, Context, FuncView, Function, InstrId, InstrKind, KindView, Module, TailCallKind, ValueRef,
};
use crate::strings::str_equal;

verus! {

/// `callee` is a global whose name in `names` is `func_name`.
pub open spec fn is_self_call(callee: ValueRef, func_name: Seq<char>, names: Seq<Seq<char>>) -> bool {
    match callee {
        ValueRef::Global(g) => g.0 < names.len() && names[g.0 as int] == func_name,
        _ => false,
    }
}

/// The marking that block `b` gives its last body instruction, if it ends in
/// an unmarked call in tail position.
pub open spec fn tail_mark(f: FuncView, b: int, func_name: Seq<char>, names: Seq<Seq<char>>) -> Option<TailCallKind> {
    let blk = f.blocks[b];
    match blk.terminator {
        None => None,
        Some(ret_id) => if blk.body.len() == 0 {
            None
        } else {
            let last = blk.body.last();
            match f.instrs[last.0 as int] {
                KindView::Call { tail, callee, args: _ } => match f.instrs[ret_id.0 as int] {
                    KindView::Ret { val } => if tail != TailCallKind::Unmarked {
                        None
                    } else if (match val {
                        Some(ValueRef::Instruction(i)) => i == last,
                        None => true,
                        _ => false,
                    }) {
                        Some(
                            if is_self_call(callee, func_name, names) {
                                TailCallKind::MustTail
                            } else {
                                TailCallKind::Tail
                            },
                        )
                    } else {
                        None
                    },
                    _ => None,
                },
                _ => None,
            }
        },
    }
}

/// A call with its marking set to `t`.
pub open spec fn with_tail(k: KindView, t: TailCallKind) -> KindView {
    match k {
        KindView::Call { tail: _, callee, args } => KindView::Call { tail: t, callee, args },
        _ => k,
    }
}

/// The function after the first `n` blocks have been visited in order.
pub open spec fn tail_pass(f: FuncView, n: int, func_name: Seq<char>, names: Seq<Seq<char>>) -> FuncView
    decreases n,
{
    if n <= 0 {
        f
    } else {
        let g = tail_pass(f, n - 1, func_name, names);
        match tail_mark(g, n - 1, func_name, names) {
            Some(t) => {
                let last = g.blocks[n - 1].body.last().0 as int;
                with_instr(g, last, with_tail(g.instrs[last], t))
            },
            None => g,
        }
    }
}

/// Whether visiting the first `n` blocks marked any call.
pub open spec fn tail_changed(f: FuncView, n: int, func_name: Seq<char>, names: Seq<Seq<char>>) -> bool
    decreases n,
{
    if n <= 0 {
        false
    } else {
        tail_changed(f, n - 1, func_name, names) || tail_mark(tail_pass(f, n - 1, func_name, names), n - 1, func_name, names) is Some
    }
}

proof fn lemma_tail_pass_shape(f: FuncView, n: int, func_name: Seq<char>, names: Seq<Seq<char>>)
    requires
        ids_in_range(f),
        0 <= n <= f.blocks.len(),
    ensures
        tail_pass(f, n, func_name, names).blocks == f.blocks,
        tail_pass(f, n, func_name, names).instrs.len() == f.instrs.len(),
        tail_pass(f, n, func_name, names).name == f.name,
        tail_pass(f, n, func_name, names).is_declaration == f.is_declaration,
    decreases n,
{
    if n > 0 {
        lemma_tail_pass_shape(f, n - 1, func_name, names);
        let g = tail_pass(f, n - 1, func_name, names);
        if tail_mark(g, n - 1, func_name, names) is Some {
            assert(f.blocks[n - 1].body.len() > 0);
            let k = f.blocks[n - 1].body.len() - 1;
            assert(f.blocks[n - 1].body[k].0 < f.instrs.len());
        }
    }
}

pub(crate) fn copy_values(v: &Vec<ValueRef>) -> (r: Vec<ValueRef>)
    ensures
        r@ == v@,
{
    let mut r: Vec<ValueRef> = Vec::new();
    let mut i: usize = 0;
    while i < v.len()
        invariant
            i <= v@.len(),
            r@ == v@.take(i as int),
        decreases v@.len() - i,
    {
        r.push(v[i]);
        assert(v@.take(i + 1) =~= v@.take(i as int).push(v@[i as int]));
        i = i + 1;
    }
    assert(v@.take(i as int) =~= v@);
    r
}

fn names_equal(names: &[String], g: u32, func_name: &str) -> (r: bool)
    ensures
        r == (g < names@.len() && names@[g as int]@ == func_name@),
{
    let gi = g as usize;
    if gi < names.len() {
        str_equal(names[gi].as_str(), func_name)
    } else {
        false
    }
}

fn tail_mark_exec(func: &Function, b: usize, func_name: &str, names: &[String]) -> (r: Option<TailCallKind>)
    requires
        ids_in_range(func@),
        b < func@.blocks.len(),
    ensures
        r == tail_mark(func@, b as int, func_name@, names@.map_values(|s: String| s@)),
{
    let ghost nv = names@.map_values(|s: String| s@);
    let ghost fv = func@;
    let block = &func.blocks[b];
    assert(fv.blocks[b as int] == block@);
    let ret_id = match block.terminator {
        Some(t) => t,
        None => return None,
    };
    let n = block.body.len();
    if n == 0 {
        return None;
    }
    let last_id = block.body[n - 1];
    proof {
        assert(fv.blocks[b as int].body.last() == last_id);
        assert(last_id.0 < fv.instrs.len());
        assert(ret_id.0 < fv.instrs.len());
    }
    let last_kind = &func.instructions[last_id.0 as usize];
    let ret_kind = &func.instructions[ret_id.0 as usize];
    assert(fv.instrs[last_id.0 as int] == last_kind@);
    assert(fv.instrs[ret_id.0 as int] == ret_kind@);
    match last_kind {
        InstrKind::Call { tail, callee, args: _ } => match ret_kind {
            InstrKind::Ret { val } => {
                if *tail != TailCallKind::Unmarked {
                    return None;
                }
                let is_tail = match val {
                    Some(ValueRef::Instruction(i)) => *i == last_id,
                    None => true,
                    _ => false,
                };
                if !is_tail {
                    return None;
                }
                let is_self = match callee {
                    ValueRef::Global(g) => {
                        let r = names_equal(names, g.0, func_name);
                        proof {
                            if g.0 < names@.len() {
                                assert(nv[g.0 as int] == names@[g.0 as int]@);
                            }
                        }
                        r
                    },
                    _ => false,
                };
                if is_self {
                    Some(TailCallKind::MustTail)
                } else {
                    Some(TailCallKind::Tail)
                }
            },
            _ => None,
        },
        _ => None,
    }
}

/// Mark the calls in tail position of `func`, visiting its blocks in order.
/// `names` maps each global index to the name of the module's function there.
/// Returns whether any call was marked.
pub fn run_on_function_with_name(_ctx: &mut Context, func: &mut Function, func_name: &str, names: &[String]) -> (changed: bool)
    requires
        ids_in_range(old(func)@),
    ensures
        final(func)@ == tail_pass(old(func)@, old(func)@.blocks.len() as int, func_name@, names@.map_values(|s: String| s@)),
        changed == tail_changed(old(func)@, old(func)@.blocks.len() as int, func_name@, names@.map_values(|s: String| s@)),
{
    let ghost nv = names@.map_values(|s: String| s@);
    let ghost f0 = func@;
    let mut changed = false;
    let nblocks = func.blocks.len();
    let mut bidx: usize = 0;
    while bidx < nblocks
        invariant
            nblocks == f0.blocks.len(),
            ids_in_range(f0),
            bidx <= nblocks,
            func@ == tail_pass(f0, bidx as int, func_name@, nv),
            changed == tail_changed(f0, bidx as int, func_name@, nv),
            nv == names@.map_values(|s: String| s@),
        decreases nblocks - bidx,
    {
        proof {
            lemma_tail_pass_shape(f0, bidx as int, func_name@, nv);
            assert(func@.blocks == f0.blocks);
        }
        let action = tail_mark_exec(func, bidx, func_name, names);
        match action {
            Some(kind) => {
                let n = func.blocks[bidx].body.len();
                let last_id = func.blocks[bidx].body[n - 1];
                proof {
                    assert(func@.blocks[bidx as int].body.last() == last_id);
                    assert(f0.blocks[bidx as int].body[n - 1].0 < f0.instrs.len());
                }
                let new_kind = match &func.instructions[last_id.0 as usize] {
                    InstrKind::Call { tail: _, callee, args } => InstrKind::Call {
                        tail: kind,
                        callee: *callee,
                        args: copy_values(args),
                    },
                    _ => InstrKind::Other,
                };
                proof {
                    assert(func@.instrs[last_id.0 as int] == func.instructions@[last_id.0 as int]@);
                }
                func.set_instr(last_id, new_kind);
                changed = true;
            },
            None => {},
        }
        bidx = bidx + 1;
    }
    changed
}

/// Marks eligible calls in tail position as `tail` or `musttail`.
#[derive(Clone, Copy, Debug, Default)]
pub struct TailCallOpt;

impl TailCallOpt {
    /// The pass name.
    pub fn name(&self) -> (s: &'static str)
        ensures
            s@ == "tailcall-opt"@,
    {
        "tailcall-opt"
    }

    /// Mark the calls in tail position of one function. Without the module no
    /// callee name is known, so no call becomes `musttail`.
    pub fn run_on_function(&mut self, ctx: &mut Context, func: &mut Function) -> (changed: bool)
        requires
            ids_in_range(old(func)@),
        ensures
            final(func)@ == tail_pass(old(func)@, old(func)@.blocks.len() as int, old(func)@.name, Seq::empty()),
            changed == tail_changed(old(func)@, old(func)@.blocks.len() as int, old(func)@.name, Seq::empty()),
    {
        let name = func.name.clone();
        let names: Vec<String> = Vec::new();
        assert(names@.map_values(|s: String| s@) =~= Seq::<Seq<char>>::empty());
        run_on_function_with_name(ctx, func, name.as_str(), names.as_slice())
    }

    /// Mark the calls in tail position of every defined function of `module`;
    /// a call of the function that contains it becomes `musttail`.
    /// Returns whether any call was marked.
    pub fn run_on_module(&mut self, ctx: &mut Context, module: &mut Module) -> (changed: bool)
        requires
            forall|i: int| 0 <= i < old(module)@.len() ==> ids_in_range(#[trigger] old(module)@[i]),
        ensures
            final(module)@.len() == old(module)@.len(),
            forall|i: int|
                0 <= i < old(module)@.len() ==> #[trigger] final(module)@[i] == module_tail_result(old(module)@, i),
            changed == (exists|i: int| 0 <= i < old(module)@.len() && #[trigger] module_tail_changed(old(module)@, i)),
            !changed ==> final(module)@ == old(module)@,
    {
        let ghost m0 = module@;
        let mut names: Vec<String> = Vec::new();
        let mut k: usize = 0;
        while k < module.functions.len()
            invariant
                k <= module.functions@.len(),
                module@ == m0,
                names@.len() == k,
                forall|j: int| 0 <= j < k ==> (#[trigger] names@[j])@ == m0[j].name,
            decreases module.functions@.len() - k,
        {
            names.push(module.functions[k].name.clone());
            proof {
                assert(m0[k as int] == module.functions@[k as int]@);
            }
            k = k + 1;
        }
        assert(names@.map_values(|s: String| s@) =~= module_names(m0));
        let mut changed = false;
        let n = module.functions.len();
        let mut fidx: usize = 0;
        while fidx < n
            invariant
                n == m0.len(),
                fidx <= n,
                names@.map_values(|s: String| s@) == module_names(m0),
                forall|i: int| 0 <= i < m0.len() ==> ids_in_range(#[trigger] m0[i]),
                module@.len() == n,
                forall|i: int| 0 <= i < fidx ==> #[trigger] module@[i] == module_tail_result(m0, i),
                forall|i: int| fidx <= i < n ==> #[trigger] module@[i] == m0[i],
                changed == (exists|i: int| 0 <= i < fidx && #[trigger] module_tail_changed(m0, i)),
            decreases n - fidx,
        {
            proof {
                assert(module@[fidx as int] == module.functions@[fidx as int]@);
            }
            let ghost before = module.functions@;
            let ghost mv = module@;
            if !module.functions[fidx].is_declaration {
                let fname = module.functions[fidx].name.clone();
                let c = run_on_function_with_name(ctx, &mut module.functions[fidx], fname.as_str(), names.as_slice());
                proof {
                    assert(module.functions@[fidx as int]@ == module_tail_result(m0, fidx as int));
                    assert(c == module_tail_changed(m0, fidx as int));
                    assert forall|i: int| 0 <= i < n && i != fidx implies #[trigger] module.functions@[i] == before[i] by {}
                }
                changed = changed || c;
            } else {
                proof {
                    assert(!module_tail_changed(m0, fidx as int));
                    assert(module_tail_result(m0, fidx as int) == m0[fidx as int]);
                }
            }
            proof {
                assert forall|i: int| 0 <= i < fidx + 1 implies #[trigger] module@[i] == module_tail_result(m0, i) by {
                    assert(module@[i] == module.functions@[i]@);
                    if i < fidx {
                        assert(mv[i] == before[i]@);
                        assert(before[i]@ == module_tail_result(m0, i));
                    }
                }
                assert forall|i: int| fidx + 1 <= i < n implies #[trigger] module@[i] == m0[i] by {
                    assert(module@[i] == module.functions@[i]@);
                    assert(mv[i] == before[i]@);
                    assert(before[i]@ == m0[i]);
                }
                if changed {
                    if exists|i: int| 0 <= i < fidx && #[trigger] module_tail_changed(m0, i) {
                        let w = choose|i: int| 0 <= i < fidx && #[trigger] module_tail_changed(m0, i);
                        assert(0 <= w < fidx + 1 && module_tail_changed(m0, w));
                    } else {
                        assert(module_tail_changed(m0, fidx as int));
                    }
                }
                assert((exists|i: int| 0 <= i < fidx + 1 && #[trigger] module_tail_changed(m0, i)) ==> changed) by {
                    if exists|i: int| 0 <= i < fidx + 1 && #[trigger] module_tail_changed(m0, i) {
                        let w = choose|i: int| 0 <= i < fidx + 1 && #[trigger] module_tail_changed(m0, i);
                        if w < fidx {
                            assert(exists|i: int| 0 <= i < fidx && #[trigger] module_tail_changed(m0, i));
                        }
                    }
                }
            }
            fidx = fidx + 1;
        }
        proof {
            if !changed {
                assert forall|i: int| 0 <= i < m0.len() implies #[trigger] module@[i] == m0[i] by {
                    assert(!module_tail_changed(m0, i));
                    if !m0[i].is_declaration {
                        lemma_quiet_tail_pass(m0[i], m0[i].blocks.len() as int, m0[i].name, module_names(m0));
                    }
                }
                assert(module@ =~= m0);
            }
        }
        changed
    }
}

/// The names of a module's functions, by global index.
pub open spec fn module_names(m: Seq<FuncView>) -> Seq<Seq<char>> {
    m.map_values(|f: FuncView| f.name)
}

/// Function `i` of `m` after the module pass: declarations unchanged, every
/// other function marked with the module's names.
pub open spec fn module_tail_result(m: Seq<FuncView>, i: int) -> FuncView {
    if m[i].is_declaration {
        m[i]
    } else {
        tail_pass(m[i], m[i].blocks.len() as int, m[i].name, module_names(m))
    }
}

/// Whether the module pass marks a call in function `i` of `m`.
pub open spec fn module_tail_changed(m: Seq<FuncView>, i: int) -> bool {
    !m[i].is_declaration && tail_changed(m[i], m[i].blocks.len() as int, m[i].name, module_names(m))
}

/// `p` is `q` with some unmarked calls given a `tail` or `musttail` marking.
pub open spec fn marks_added(q: FuncView, p: FuncView) -> bool {
    &&& p.blocks == q.blocks
    &&& p.name == q.name
    &&& p.is_declaration == q.is_declaration
    &&& p.instrs.len() == q.instrs.len()
    &&& forall|i: int|
        0 <= i < q.instrs.len() ==> (#[trigger] p.instrs[i]) == q.instrs[i] || (q.instrs[i] is Call && q.instrs[i]->Call_tail
            == TailCallKind::Unmarked && p.instrs[i] is Call && p.instrs[i]->Call_tail != TailCallKind::Unmarked
            && p.instrs[i]->Call_callee == q.instrs[i]->Call_callee && p.instrs[i]->Call_args
            == q.instrs[i]->Call_args)
}

proof fn lemma_marks_added_trans(q: FuncView, p: FuncView, r: FuncView)
    requires
        marks_added(q, p),
        marks_added(p, r),
    ensures
        marks_added(q, r),
{
    assert forall|i: int| 0 <= i < q.instrs.len() implies (#[trigger] r.instrs[i]) == q.instrs[i] || (q.instrs[i] is Call
        && q.instrs[i]->Call_tail == TailCallKind::Unmarked && r.instrs[i] is Call && r.instrs[i]->Call_tail
        != TailCallKind::Unmarked && r.instrs[i]->Call_callee == q.instrs[i]->Call_callee && r.instrs[i]->Call_args
        == q.instrs[i]->Call_args) by {
        assert(p.instrs[i] == q.instrs[i] || p.instrs[i] is Call);
        assert(r.instrs[i] == p.instrs[i] || r.instrs[i] is Call);
    }
}

proof fn lemma_tail_pass_marks(f: FuncView, m: int, n: int, func_name: Seq<char>, names: Seq<Seq<char>>)
    requires
        ids_in_range(f),
        0 <= m <= n <= f.blocks.len(),
    ensures
        marks_added(tail_pass(f, m, func_name, names), tail_pass(f, n, func_name, names)),
    decreases n - m,
{
    if m < n {
        lemma_tail_pass_marks(f, m, n - 1, func_name, names);
        lemma_tail_pass_shape(f, n - 1, func_name, names);
        let g = tail_pass(f, n - 1, func_name, names);
        let h = tail_pass(f, n, func_name, names);
        assert(marks_added(g, h)) by {
            match tail_mark(g, n - 1, func_name, names) {
                Some(t) => {
                    let last = g.blocks[n - 1].body.last().0 as int;
                    assert(f.blocks[n - 1].body[f.blocks[n - 1].body.len() - 1].0 < f.instrs.len());
                    assert forall|i: int| 0 <= i < g.instrs.len() implies (#[trigger] h.instrs[i]) == g.instrs[i] || (
                    g.instrs[i] is Call && g.instrs[i]->Call_tail == TailCallKind::Unmarked && h.instrs[i] is Call
                        && h.instrs[i]->Call_tail != TailCallKind::Unmarked && h.instrs[i]->Call_callee
                        == g.instrs[i]->Call_callee && h.instrs[i]->Call_args == g.instrs[i]->Call_args) by {
                        if i == last {
                            assert(h.instrs[i] == with_tail(g.instrs[i], t));
                        }
                    }
                },
                None => {},
            }
        }
        lemma_marks_added_trans(tail_pass(f, m, func_name, names), g, h);
    } else {
        let g = tail_pass(f, m, func_name, names);
        assert(marks_added(g, g));
    }
}

proof fn lemma_no_mark_left(f: FuncView, b: int, func_name: Seq<char>, names: Seq<Seq<char>>)
    requires
        ids_in_range(f),
        0 <= b < f.blocks.len(),
    ensures
        tail_mark(tail_pass(f, f.blocks.len() as int, func_name, names), b, func_name, names) is None,
{
    let n = f.blocks.len() as int;
    let q = tail_pass(f, b, func_name, names);
    let q1 = tail_pass(f, b + 1, func_name, names);
    let p = tail_pass(f, n, func_name, names);
    lemma_tail_pass_marks(f, b, b + 1, func_name, names);
    lemma_tail_pass_marks(f, b + 1, n, func_name, names);
    lemma_tail_pass_marks(f, b, n, func_name, names);
    lemma_tail_pass_shape(f, b, func_name, names);
    let blk = f.blocks[b];
    match blk.terminator {
        None => {},
        Some(ret_id) => {
            if blk.body.len() > 0 {
                let last = blk.body.last();
                assert(blk.body[blk.body.len() - 1].0 < f.instrs.len());
                assert(ret_id.0 < f.instrs.len());
                let li = last.0 as int;
                let ri = ret_id.0 as int;
                match tail_mark(q, b, func_name, names) {
                    Some(t) => {
                        assert(q1.instrs[li] == with_tail(q.instrs[li], t));
                        assert(q1.instrs[li]->Call_tail != TailCallKind::Unmarked);
                        assert(p.instrs[li] == q1.instrs[li]);
                    },
                    None => {
                        if tail_mark(p, b, func_name, names) is Some {
                            assert(p.instrs[li] == q.instrs[li]);
                            assert(p.instrs[ri] == q.instrs[ri]);
                            assert(false);
                        }
                    },
                }
            }
        },
    }
}

/// Marking tail calls is idempotent: running it again on its own output
/// marks nothing and changes nothing.
pub proof fn lemma_tail_pass_idempotent(f: FuncView, func_name: Seq<char>, names: Seq<Seq<char>>)
    requires
        ids_in_range(f),
    ensures
        tail_pass(
            tail_pass(f, f.blocks.len() as int, func_name, names),
            f.blocks.len() as int,
            func_name,
            names,
        ) == tail_pass(f, f.blocks.len() as int, func_name, names),
        !tail_changed(tail_pass(f, f.blocks.len() as int, func_name, names), f.blocks.len() as int, func_name, names),
{
    lemma_idempotent_prefix(f, f.blocks.len() as int, func_name, names);
}

proof fn lemma_idempotent_prefix(f: FuncView, k: int, func_name: Seq<char>, names: Seq<Seq<char>>)
    requires
        ids_in_range(f),
        0 <= k <= f.blocks.len(),
    ensures
        tail_pass(tail_pass(f, f.blocks.len() as int, func_name, names), k, func_name, names) == tail_pass(
            f,
            f.blocks.len() as int,
            func_name,
            names,
        ),
        !tail_changed(tail_pass(f, f.blocks.len() as int, func_name, names), k, func_name, names),
    decreases k,
{
    if k > 0 {
        lemma_idempotent_prefix(f, k - 1, func_name, names);
        lemma_no_mark_left(f, k - 1, func_name, names);
    }
}

/// Index of the last body instruction of block `b`.
pub open spec fn last_body_index(f: FuncView, b: int) -> int {
    f.blocks[b].body.last().0 as int
}

proof fn lemma_tail_mark_same(f: FuncView, g: FuncView, b: int, func_name: Seq<char>, names: Seq<Seq<char>>)
    requires
        ids_in_range(f),
        0 <= b < f.blocks.len(),
        g.blocks == f.blocks,
        g.instrs.len() == f.instrs.len(),
        forall|i: int|
            0 <= i < f.instrs.len() ==> #[trigger] g.instrs[i] == f.instrs[i] || (f.instrs[i] is Call && g.instrs[i] is Call
                && g.instrs[i]->Call_tail != TailCallKind::Unmarked && g.instrs[i]->Call_callee == f.instrs[i]->Call_callee),
    ensures
        tail_mark(g, b, func_name, names) is Some ==> tail_mark(g, b, func_name, names) == tail_mark(f, b, func_name, names),
        (tail_mark(f, b, func_name, names) is Some && g.instrs[last_body_index(f, b)] == f.instrs[last_body_index(f, b)])
            ==> tail_mark(g, b, func_name, names) == tail_mark(f, b, func_name, names),
{
    let blk = f.blocks[b];
    if let Some(r) = blk.terminator {
        if blk.body.len() > 0 {
            assert(blk.body[blk.body.len() - 1].0 < f.instrs.len());
            assert(r.0 < f.instrs.len());
            let li = last_body_index(f, b);
            let ri = r.0 as int;
            assert(g.instrs[li] == f.instrs[li] || g.instrs[li] is Call);
            assert(g.instrs[ri] == f.instrs[ri] || g.instrs[ri] is Call);
        }
    }
}

/// Tail-call marking of a function: every unmarked call that is the last body
/// instruction of a block ending in `ret` of that call (or `ret void`)
/// becomes `musttail` when it calls the function itself (by name, through
/// `names`) and `tail` otherwise; every other instruction, already-marked
/// calls included, is left as it was.
pub proof fn lemma_tail_marking(f: FuncView, func_name: Seq<char>, names: Seq<Seq<char>>)
    requires
        ids_in_range(f),
    ensures
        tail_pass(f, f.blocks.len() as int, func_name, names).blocks == f.blocks,
        tail_pass(f, f.blocks.len() as int, func_name, names).instrs.len() == f.instrs.len(),
        forall|b: int|
            0 <= b < f.blocks.len() && #[trigger] tail_mark(f, b, func_name, names) is Some ==> tail_pass(
                f,
                f.blocks.len() as int,
                func_name,
                names,
            ).instrs[last_body_index(f, b)] == with_tail(f.instrs[last_body_index(f, b)], tail_mark(f, b, func_name, names)->0),
        forall|i: int|
            0 <= i < f.instrs.len() && #[trigger] tail_pass(f, f.blocks.len() as int, func_name, names).instrs[i]
                != f.instrs[i] ==> exists|b: int|
                0 <= b < f.blocks.len() && #[trigger] tail_mark(f, b, func_name, names) is Some && last_body_index(f, b) == i,
{
    lemma_tail_marking_upto(f, f.blocks.len() as int, func_name, names);
}

proof fn lemma_tail_marking_upto(f: FuncView, n: int, func_name: Seq<char>, names: Seq<Seq<char>>)
    requires
        ids_in_range(f),
        0 <= n <= f.blocks.len(),
    ensures
        tail_pass(f, n, func_name, names).blocks == f.blocks,
        tail_pass(f, n, func_name, names).instrs.len() == f.instrs.len(),
        forall|i: int|
            0 <= i < f.instrs.len() ==> #[trigger] tail_pass(f, n, func_name, names).instrs[i] == f.instrs[i] || (f.instrs[i] is Call
                && tail_pass(f, n, func_name, names).instrs[i] is Call && tail_pass(f, n, func_name, names).instrs[i]->Call_tail
                != TailCallKind::Unmarked && tail_pass(f, n, func_name, names).instrs[i]->Call_callee == f.instrs[i]->Call_callee),
        forall|b: int|
            0 <= b < n && #[trigger] tail_mark(f, b, func_name, names) is Some ==> tail_pass(f, n, func_name, names).instrs[last_body_index(
                f,
                b,
            )] == with_tail(f.instrs[last_body_index(f, b)], tail_mark(f, b, func_name, names)->0),
        forall|i: int|
            0 <= i < f.instrs.len() && #[trigger] tail_pass(f, n, func_name, names).instrs[i] != f.instrs[i] ==> exists|b: int|
                0 <= b < n && #[trigger] tail_mark(f, b, func_name, names) is Some && last_body_index(f, b) == i
                    && tail_pass(f, n, func_name, names).instrs[i] == with_tail(f.instrs[i], tail_mark(f, b, func_name, names)->0),
    decreases n,
{
    lemma_tail_pass_shape(f, n, func_name, names);
    if n > 0 {
        lemma_tail_marking_upto(f, n - 1, func_name, names);
        lemma_tail_pass_shape(f, n - 1, func_name, names);
        let g = tail_pass(f, n - 1, func_name, names);
        let h = tail_pass(f, n, func_name, names);
        let b = n - 1;
        lemma_tail_mark_same(f, g, b, func_name, names);
        match tail_mark(g, b, func_name, names) {
            Some(t) => {
                let li = last_body_index(f, b);
                assert(f.blocks[b].body[f.blocks[b].body.len() - 1].0 < f.instrs.len());
                assert(g.blocks[b] == f.blocks[b]);
                assert(tail_mark(f, b, func_name, names) == Some(t));
                assert(g.instrs[li] == f.instrs[li]) by {
                    if g.instrs[li] != f.instrs[li] {
                        assert(g.instrs[li]->Call_tail != TailCallKind::Unmarked);
                    }
                }
                assert(h == with_instr(g, li, with_tail(g.instrs[li], t)));
                assert forall|i: int| 0 <= i < f.instrs.len() implies #[trigger] h.instrs[i] == f.instrs[i] || (f.instrs[i] is Call
                    && h.instrs[i] is Call && h.instrs[i]->Call_tail != TailCallKind::Unmarked && h.instrs[i]->Call_callee
                    == f.instrs[i]->Call_callee) by {
                    if i != li {
                        assert(h.instrs[i] == g.instrs[i]);
                    } else {
                        assert(t != TailCallKind::Unmarked);
                    }
                }
                assert forall|b2: int| 0 <= b2 < n && #[trigger] tail_mark(f, b2, func_name, names) is Some implies h.instrs[last_body_index(
                    f,
                    b2,
                )] == with_tail(f.instrs[last_body_index(f, b2)], tail_mark(f, b2, func_name, names)->0) by {
                    if b2 < n - 1 {
                        let l2 = last_body_index(f, b2);
                        if l2 == li {
                            // the same call already got its marking from the earlier block
                            assert(g.instrs[l2] == with_tail(f.instrs[l2], tail_mark(f, b2, func_name, names)->0));
                            assert(with_tail(f.instrs[l2], tail_mark(f, b2, func_name, names)->0)->Call_tail != TailCallKind::Unmarked);
                        } else {
                            assert(h.instrs[l2] == g.instrs[l2]);
                        }
                    }
                }
                assert forall|i: int| 0 <= i < f.instrs.len() && #[trigger] h.instrs[i] != f.instrs[i] implies exists|b2: int|
                    0 <= b2 < n && #[trigger] tail_mark(f, b2, func_name, names) is Some && last_body_index(f, b2) == i
                        && h.instrs[i] == with_tail(f.instrs[i], tail_mark(f, b2, func_name, names)->0) by {
                    if i == li {
                        assert(tail_mark(f, b, func_name, names) is Some);
                    } else {
                        assert(h.instrs[i] == g.instrs[i]);
                        let b2 = choose|b2: int|
                            0 <= b2 < n - 1 && #[trigger] tail_mark(f, b2, func_name, names) is Some && last_body_index(f, b2) == i
                                && g.instrs[i] == with_tail(f.instrs[i], tail_mark(f, b2, func_name, names)->0);
                        assert(tail_mark(f, b2, func_name, names) is Some);
                    }
                }
            },
            None => {
                assert(h == g);
                assert forall|b2: int| 0 <= b2 < n && #[trigger] tail_mark(f, b2, func_name, names) is Some implies h.instrs[last_body_index(
                    f,
                    b2,
                )] == with_tail(f.instrs[last_body_index(f, b2)], tail_mark(f, b2, func_name, names)->0) by {
                    if b2 == n - 1 {
                        let li = last_body_index(f, b);
                        assert(f.blocks[b].body[f.blocks[b].body.len() - 1].0 < f.instrs.len());
                        assert(g.instrs[li] != f.instrs[li]);
                        let b3 = choose|b3: int|
                            0 <= b3 < n - 1 && #[trigger] tail_mark(f, b3, func_name, names) is Some && last_body_index(f, b3) == li
                                && g.instrs[li] == with_tail(f.instrs[li], tail_mark(f, b3, func_name, names)->0);
                        assert(tail_mark(f, b3, func_name, names) is Some);
                    }
                }
                assert forall|i: int| 0 <= i < f.instrs.len() && #[trigger] h.instrs[i] != f.instrs[i] implies exists|b2: int|
                    0 <= b2 < n && #[trigger] tail_mark(f, b2, func_name, names) is Some && last_body_index(f, b2) == i
                        && h.instrs[i] == with_tail(f.instrs[i], tail_mark(f, b2, func_name, names)->0) by {
                    let b2 = choose|b2: int|
                        0 <= b2 < n - 1 && #[trigger] tail_mark(f, b2, func_name, names) is Some && last_body_index(f, b2) == i
                            && g.instrs[i] == with_tail(f.instrs[i], tail_mark(f, b2, func_name, names)->0);
                    assert(tail_mark(f, b2, func_name, names) is Some);
                }
            },
        }
    }
}

/// A marking pass that reports no change leaves the function as it was.
pub proof fn lemma_quiet_tail_pass(f: FuncView, n: int, func_name: Seq<char>, names: Seq<Seq<char>>)
    requires
        !tail_changed(f, n, func_name, names),
    ensures
        tail_pass(f, n, func_name, names) == f,
    decreases n,
{
    if n > 0 {
        lemma_quiet_tail_pass(f, n - 1, func_name, names);
    }
}

} // verus!
