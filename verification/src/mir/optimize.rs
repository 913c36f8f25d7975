//! Rewrites that keep what a function computes: dropping the blocks no path from the entry
//! reaches, and simplifying arithmetic with neutral and absorbing constants.

use vstd::prelude::*;
use super::nodes::{
    BasicBlockData, BasicBlockId, Constant, ConstantValue, MatchTarget, MirFunction, Operand, Rvalue, Statement,
    StatementKind, TerminatorKind,
};
use super::const_eval::{
    block_locals_in_range, block_refined, block_rewritten, fold_function_constants, fold_rvalue, foldable, folded, function_refined,
    is_constant_use, lemma_refined_locals, lemma_refined_successors, rvalue_overflow_check, rvalue_overflows,
    statement_refined, statement_rewritten, terminator_refined, ConstView, Rewrite,
};
use crate::text::{i64_value, parse_i64, signed_decimal, signed_decimal_chars, str_eq, string_from_chars};
use crate::types::Type;
use super::nodes::MirProgram;
use super::determinism::{
    block_callee, block_callee_name, block_calls, callable_names, calls, find_last, is_call_chain, last_index, names_of,
};

verus! {

/// The blocks a terminator may pass control to, in order: a match's arms, then its
/// fallback.
pub open spec fn successors(t: TerminatorKind) -> Seq<BasicBlockId> {
    match t {
        TerminatorKind::Goto { target } => seq![target],
        TerminatorKind::Branch { then_bb, else_bb, .. } => seq![then_bb, else_bb],
        TerminatorKind::Match { arms, otherwise, .. } => arms@.map_values(|a: MatchTarget| a.target).push(otherwise),
        TerminatorKind::Call { target, .. } => seq![target],
        TerminatorKind::IterNext { loop_body, exit, .. } => seq![loop_body, exit],
        TerminatorKind::Try { ok_target, err_target, .. } => seq![ok_target, err_target],
        TerminatorKind::Return => Seq::empty(),
        TerminatorKind::Unreachable => Seq::empty(),
    }
}

pub fn successor_blocks(terminator: &TerminatorKind) -> (v: Vec<BasicBlockId>)
    ensures
        v@ == successors(*terminator),
{
    match terminator {
        TerminatorKind::Goto { target } => vec![*target],
        TerminatorKind::Branch { then_bb, else_bb, .. } => vec![*then_bb, *else_bb],
        TerminatorKind::Match { arms, otherwise, .. } => {
            let mut blocks: Vec<BasicBlockId> = Vec::new();
            let mut i: usize = 0;
            while i < arms.len()
                invariant
                    i <= arms@.len(),
                    blocks@ == arms@.take(i as int).map_values(|a: MatchTarget| a.target),
                decreases arms@.len() - i,
            {
                blocks.push(arms[i].target);
                assert(arms@.take(i + 1) =~= arms@.take(i as int).push(arms@[i as int]));
                assert(blocks@ =~= arms@.take(i + 1).map_values(|a: MatchTarget| a.target));
                i += 1;
            }
            assert(arms@.take(i as int) =~= arms@);
            blocks.push(*otherwise);
            blocks
        },
        TerminatorKind::Call { target, .. } => vec![*target],
        TerminatorKind::IterNext { loop_body, exit, .. } => vec![*loop_body, *exit],
        TerminatorKind::Try { ok_target, err_target, .. } => vec![*ok_target, *err_target],
        TerminatorKind::Return | TerminatorKind::Unreachable => Vec::new(),
    }
}

/// Control may pass from block `a` to block `b`.
pub open spec fn edge(bs: Seq<BasicBlockData>, a: int, b: int) -> bool {
    &&& 0 <= a < bs.len()
    &&& 0 <= b < bs.len()
    &&& successors(bs[a].terminator).contains(BasicBlockId(b as usize))
}

/// A sequence of blocks, each passing control to the next.
pub open spec fn is_path(bs: Seq<BasicBlockData>, p: Seq<int>) -> bool {
    &&& p.len() >= 1
    &&& forall|i: int| 0 <= i < p.len() - 1 ==> #[trigger] edge(bs, p[i], p[i + 1])
}

/// Some path leads from block `from` to block `to`.
pub open spec fn reachable(bs: Seq<BasicBlockData>, from: int, to: int) -> bool {
    exists|p: Seq<int>| #[trigger] is_path(bs, p) && p[0] == from && p.last() == to
}

/// Every target of the block is a block of the function.
pub open spec fn targets_in_range(bs: Seq<BasicBlockData>, i: int) -> bool {
    forall|k: int| 0 <= k < successors(bs[i].terminator).len() ==> #[trigger] successors(bs[i].terminator)[k].0 < bs.len()
}

/// The entry is a block, and every block it reaches passes control only to blocks.
pub open spec fn reachable_targets_in_range(bs: Seq<BasicBlockData>, entry: int) -> bool {
    &&& 0 <= entry < bs.len()
    &&& forall|i: int| 0 <= i < bs.len() && #[trigger] reachable(bs, entry, i) ==> targets_in_range(bs, i)
}

pub(crate) proof fn lemma_reachable_self(bs: Seq<BasicBlockData>, a: int)
    ensures
        reachable(bs, a, a),
{
    let p = seq![a];
    assert(is_path(bs, p));
}

pub(crate) proof fn lemma_reachable_step(bs: Seq<BasicBlockData>, from: int, a: int, b: int)
    requires
        reachable(bs, from, a),
        edge(bs, a, b),
    ensures
        reachable(bs, from, b),
{
    let p = choose|p: Seq<int>| #[trigger] is_path(bs, p) && p[0] == from && p.last() == a;
    let q = p.push(b);
    assert forall|i: int| 0 <= i < q.len() - 1 implies #[trigger] edge(bs, q[i], q[i + 1]) by {
        if i < p.len() - 1 {
            assert(q[i] == p[i] && q[i + 1] == p[i + 1]);
        } else {
            assert(q[i] == a && q[i + 1] == b);
        }
    }
    assert(is_path(bs, q));
}

/// With the marked blocks closed under control flow and the start marked, every block
/// on a path from the start is marked.
proof fn lemma_closed_marks_path(bs: Seq<BasicBlockData>, marked: Seq<bool>, p: Seq<int>, k: int)
    requires
        marked.len() == bs.len(),
        is_path(bs, p),
        0 <= p[0] < bs.len(),
        marked[p[0]],
        forall|a: int, b: int| 0 <= a < bs.len() && marked[a] && #[trigger] edge(bs, a, b) ==> b < bs.len() && marked[b],
        0 <= k < p.len(),
    ensures
        0 <= p[k] < bs.len(),
        marked[p[k]],
    decreases k,
{
    if k > 0 {
        lemma_closed_marks_path(bs, marked, p, k - 1);
        assert(edge(bs, p[k - 1], p[(k - 1) + 1]));
    }
}

/// Which blocks some path from the entry reaches.
pub fn mark_reachable(entry: BasicBlockId, blocks: &Vec<BasicBlockData>) -> (reach: Vec<bool>)
    requires
        reachable_targets_in_range(blocks@, entry.0 as int),
    ensures
        reach@.len() == blocks@.len(),
        forall|i: int| 0 <= i < blocks@.len() ==> #[trigger] reach@[i] == reachable(blocks@, entry.0 as int, i),
{
    let ghost bs = blocks@;
    let ghost e = entry.0 as int;
    let n = blocks.len();
    let mut reach: Vec<bool> = Vec::new();
    let mut k: usize = 0;
    while k < n
        invariant
            n == blocks@.len(),
            k <= n,
            reach@.len() == k,
            forall|i: int| 0 <= i < k ==> !#[trigger] reach@[i],
        decreases n - k,
    {
        reach.push(false);
        k += 1;
    }
    reach.set(entry.0, true);
    let mut stack: Vec<usize> = vec![entry.0];
    proof {
        lemma_reachable_self(bs, e);
    }
    while stack.len() > 0
        invariant
            bs == blocks@,
            n == bs.len(),
            e == entry.0 as int,
            reachable_targets_in_range(bs, e),
            reach@.len() == n,
            reach@[e],
            forall|i: int| 0 <= i < n && #[trigger] reach@[i] ==> reachable(bs, e, i),
            forall|j: int| 0 <= j < stack@.len() ==> #[trigger] stack@[j] < n && reach@[stack@[j] as int],
            forall|a: int, b: int| 0 <= a < n && reach@[a] && !stack@.contains(a as usize) && #[trigger] edge(bs, a, b)
                ==> b < n && reach@[b],
        decreases count_false(reach@), stack@.len(),
    {
        let ghost reach0 = reach@;
        let ghost stack0 = stack@;
        let current = stack.pop().unwrap();
        proof {
            assert(stack0.last() == current);
            assert(stack0 =~= stack@.push(current));
        }
        let succ = successor_blocks(&blocks[current].terminator);
        let ghost s = successors(bs[current as int].terminator);
        proof {
            assert(targets_in_range(bs, current as int));
        }
        let mut i: usize = 0;
        while i < succ.len()
            invariant
                bs == blocks@,
                n == bs.len(),
                e == entry.0 as int,
                succ@ == s,
                s == successors(bs[current as int].terminator),
                current < n,
                targets_in_range(bs, current as int),
                reach@.len() == n,
                0 <= e < n,
                reach@[e],
                reach@[current as int],
                i <= s.len(),
                forall|j: int| 0 <= j < i ==> #[trigger] reach@[s[j].0 as int],
                forall|m: int| 0 <= m < n && reach0[m] ==> #[trigger] reach@[m],
                forall|m: int| 0 <= m < n && #[trigger] reach@[m] ==> reachable(bs, e, m),
                reachable(bs, e, current as int),
                forall|j: int| 0 <= j < stack@.len() ==> #[trigger] stack@[j] < n && reach@[stack@[j] as int],
                forall|m: int| 0 <= m < n && reach@[m] && !reach0[m] ==> #[trigger] stack@.contains(m as usize),
                forall|a: int, b: int| 0 <= a < n && reach0[a] && !stack0.contains(a as usize) && #[trigger] edge(bs, a, b)
                    ==> b < n && reach0[b],
                stack0 == stack@.take(stack0.len() - 1).push(current),
                count_false(reach@) + (stack@.len() - (stack0.len() - 1)) <= count_false(reach0),
                stack@.len() >= stack0.len() - 1,
            decreases s.len() - i,
        {
            let target = succ[i].0;
            proof {
                assert(s[i as int].0 < n);
            }
            if !reach[target] {
                let ghost r1 = reach@;
                let ghost st1 = stack@;
                reach.set(target, true);
                stack.push(target);
                proof {
                    assert(stack@ == st1.push(target));
                    assert forall|m: int| 0 <= m < n && reach@[m] && !reach0[m] implies #[trigger] stack@.contains(m as usize) by {
                        if m == target as int {
                            assert(stack@[st1.len() as int] == target);
                        } else {
                            assert(r1[m]);
                            assert(st1.contains(m as usize));
                            let j = choose|j: int| 0 <= j < st1.len() && st1[j] == m as usize;
                            assert(stack@[j] == m as usize);
                        }
                    }
                    assert(stack@.take(stack0.len() - 1) =~= st1.take(stack0.len() - 1));
                    assert(edge(bs, current as int, target as int)) by {
                        assert(s[i as int] == BasicBlockId(target));
                        assert(s.contains(BasicBlockId(target)));
                    }
                    lemma_reachable_step(bs, e, current as int, target as int);
                    lemma_count_false_set(r1, target as int);
                }
            }
            i += 1;
        }
        proof {
            assert forall|a: int, b: int| 0 <= a < n && reach@[a] && !stack@.contains(a as usize) && #[trigger] edge(bs, a, b)
                implies b < n && reach@[b] by {
                if a == current as int {
                    let k = choose|k: int| 0 <= k < s.len() && s[k] == BasicBlockId(b as usize);
                    assert(reach@[s[k].0 as int]);
                } else {
                    assert(reach0[a]);
                    assert(!stack0.contains(a as usize)) by {
                        if stack0.contains(a as usize) {
                            let j = choose|j: int| 0 <= j < stack0.len() && stack0[j] == a as usize;
                            if j < stack0.len() - 1 {
                                assert(stack@[j] == a as usize);
                            }
                        }
                    }
                }
            }
        }
    }
    proof {
        assert forall|i: int| 0 <= i < n && #[trigger] reachable(bs, e, i) implies reach@[i] by {
            let p = choose|p: Seq<int>| #[trigger] is_path(bs, p) && p[0] == e && p.last() == i;
            lemma_closed_marks_path(bs, reach@, p, p.len() - 1);
        }
    }
    reach
}

/// How many of the flags are unset.
pub open spec fn count_false(r: Seq<bool>) -> nat
    decreases r.len(),
{
    if r.len() == 0 {
        0
    } else {
        count_false(r.drop_last()) + if r.last() { 0nat } else { 1nat }
    }
}

pub proof fn lemma_count_false_set(r: Seq<bool>, t: int)
    requires
        0 <= t < r.len(),
        !r[t],
    ensures
        count_false(r.update(t, true)) + 1 == count_false(r),
    decreases r.len(),
{
    let u = r.update(t, true);
    if t == r.len() - 1 {
        assert(u.drop_last() =~= r.drop_last());
    } else {
        assert(u.drop_last() =~= r.drop_last().update(t, true));
        lemma_count_false_set(r.drop_last(), t);
    }
}


/// How many of the flags are set.
pub open spec fn count_true(r: Seq<bool>) -> nat
    decreases r.len(),
{
    if r.len() == 0 {
        0
    } else {
        count_true(r.drop_last()) + if r.last() { 1nat } else { 0nat }
    }
}

/// How many of the first `k` blocks are kept: the index block `k` moves to.
pub open spec fn rank(r: Seq<bool>, k: int) -> nat {
    count_true(r.take(k))
}

/// Where a block id moves to once the unreachable blocks are gone.
pub open spec fn moved(r: Seq<bool>, b: BasicBlockId) -> BasicBlockId {
    BasicBlockId(rank(r, b.0 as int) as usize)
}

proof fn lemma_rank_step(r: Seq<bool>, k: int)
    requires
        0 <= k < r.len(),
    ensures
        rank(r, k + 1) == rank(r, k) + if r[k] { 1nat } else { 0nat },
{
    assert(r.take(k + 1).drop_last() =~= r.take(k));
}

proof fn lemma_rank_bound(r: Seq<bool>, k: int)
    requires
        0 <= k <= r.len(),
    ensures
        rank(r, k) <= k,
        rank(r, k) <= count_true(r),
        k < r.len() && r[k] ==> rank(r, k) < count_true(r),
    decreases r.len() - k,
{
    if k < r.len() {
        lemma_rank_step(r, k);
        lemma_rank_bound(r, k + 1);
    } else {
        assert(r.take(k) =~= r);
    }
    if k > 0 {
        lemma_rank_below(r, k);
    }
}

proof fn lemma_rank_below(r: Seq<bool>, k: int)
    requires
        0 <= k <= r.len(),
    ensures
        rank(r, k) <= k,
    decreases k,
{
    if k > 0 {
        lemma_rank_step(r, k - 1);
        lemma_rank_below(r, k - 1);
    }
}

/// Ranks grow strictly from one kept block to the next.
proof fn lemma_rank_strict(r: Seq<bool>, a: int, b: int)
    requires
        0 <= a < b <= r.len(),
        r[a],
    ensures
        rank(r, a) < rank(r, b),
    decreases b - a,
{
    lemma_rank_step(r, a);
    if a + 1 < b {
        lemma_rank_mono(r, a + 1, b);
    }
}

proof fn lemma_rank_mono(r: Seq<bool>, a: int, b: int)
    requires
        0 <= a <= b <= r.len(),
    ensures
        rank(r, a) <= rank(r, b),
    decreases b - a,
{
    if a < b {
        lemma_rank_step(r, b - 1);
        lemma_rank_mono(r, a, b - 1);
    }
}

/// Every index below the number of kept blocks is the rank of some kept block.
proof fn lemma_rank_onto(r: Seq<bool>, j: int)
    requires
        0 <= j < count_true(r),
    ensures
        exists|k: int| 0 <= k < r.len() && r[k] && rank(r, k) == j,
    decreases r.len(),
{
    let n = r.len() as int;
    assert(r.take(n) =~= r);
    let d = r.drop_last();
    if rank(d, (n - 1)) > j || (rank(d, n - 1) == j && !r[n - 1]) {
        assert(d.take(n - 1) =~= d);
        lemma_rank_onto(d, j);
        let k = choose|k: int| 0 <= k < d.len() && d[k] && rank(d, k) == j;
        assert(r.take(k) =~= d.take(k));
    } else {
        assert(d.take(n - 1) =~= d);
        assert(r.take(n - 1) =~= d);
        lemma_rank_step(r, n - 1);
    }
}

/// The new terminator passes control where the old one did, each target moved, and
/// keeps everything else.
pub open spec fn remapped(old: TerminatorKind, new: TerminatorKind, r: Seq<bool>) -> bool {
    match (old, new) {
        (TerminatorKind::Goto { target: a }, TerminatorKind::Goto { target: b }) => b == moved(r, a),
        (
            TerminatorKind::Branch { condition: c1, then_bb: t1, else_bb: e1 },
            TerminatorKind::Branch { condition: c2, then_bb: t2, else_bb: e2 },
        ) => c1 == c2 && t2 == moved(r, t1) && e2 == moved(r, e1),
        (
            TerminatorKind::Match { discriminant: d1, arms: a1, otherwise: o1 },
            TerminatorKind::Match { discriminant: d2, arms: a2, otherwise: o2 },
        ) => {
            &&& d1 == d2
            &&& a2@.len() == a1@.len()
            &&& forall|i: int| #![trigger a2@[i]] 0 <= i < a1@.len() ==> a2@[i].pattern@ == a1@[i].pattern@
                && a2@[i].target == moved(r, a1@[i].target)
            &&& o2 == moved(r, o1)
        },
        (
            TerminatorKind::Call { callee: c1, args: x1, destination: d1, target: t1 },
            TerminatorKind::Call { callee: c2, args: x2, destination: d2, target: t2 },
        ) => c1 == c2 && x1 == x2 && d1 == d2 && t2 == moved(r, t1),
        (
            TerminatorKind::IterNext { iterator: i1, binding: b1, loop_body: l1, exit: e1 },
            TerminatorKind::IterNext { iterator: i2, binding: b2, loop_body: l2, exit: e2 },
        ) => i1 == i2 && b1 == b2 && l2 == moved(r, l1) && e2 == moved(r, e1),
        (
            TerminatorKind::Try { operand: o1, ok_local: k1, err_local: x1, ok_target: t1, err_target: f1 },
            TerminatorKind::Try { operand: o2, ok_local: k2, err_local: x2, ok_target: t2, err_target: f2 },
        ) => o1 == o2 && k1 == k2 && x1 == x2 && t2 == moved(r, t1) && f2 == moved(r, f1),
        (TerminatorKind::Return, TerminatorKind::Return) => true,
        (TerminatorKind::Unreachable, TerminatorKind::Unreachable) => true,
        _ => false,
    }
}

proof fn lemma_remapped_successors(old: TerminatorKind, new: TerminatorKind, r: Seq<bool>)
    requires
        remapped(old, new, r),
    ensures
        successors(new) == successors(old).map_values(|b: BasicBlockId| moved(r, b)),
{
    match (old, new) {
        (TerminatorKind::Match { arms: a1, otherwise: o1, .. }, TerminatorKind::Match { arms: a2, otherwise: o2, .. }) => {
            let m1 = a1@.map_values(|a: MatchTarget| a.target);
            let m2 = a2@.map_values(|a: MatchTarget| a.target);
            assert forall|i: int| 0 <= i < m2.len() implies m2[i] == moved(r, m1[i]) by {
                assert(a2@[i].target == moved(r, a1@[i].target));
            }
            assert(successors(new) =~= successors(old).map_values(|b: BasicBlockId| moved(r, b)));
        },
        _ => {
            assert(successors(new) =~= successors(old).map_values(|b: BasicBlockId| moved(r, b)));
        },
    }
}

fn move_target(remap: &Vec<usize>, b: BasicBlockId, Ghost(r): Ghost<Seq<bool>>) -> (m: BasicBlockId)
    requires
        b.0 < remap@.len(),
        forall|k: int| 0 <= k < remap@.len() ==> remap@[k] == rank(r, k),
    ensures
        m == moved(r, b),
{
    BasicBlockId(remap[b.0])
}

/// The terminator with every target moved.
fn rewrite_terminator_targets(terminator: TerminatorKind, remap: &Vec<usize>, Ghost(r): Ghost<Seq<bool>>) -> (t: TerminatorKind)
    requires
        forall|k: int| 0 <= k < successors(terminator).len() ==> #[trigger] successors(terminator)[k].0 < remap@.len(),
        forall|k: int| 0 <= k < remap@.len() ==> remap@[k] == rank(r, k),
    ensures
        remapped(terminator, t, r),
{
    let ghost s = successors(terminator);
    match terminator {
        TerminatorKind::Goto { target } => {
            assert(s[0] == target);
            TerminatorKind::Goto { target: move_target(remap, target, Ghost(r)) }
        },
        TerminatorKind::Branch { condition, then_bb, else_bb } => {
            assert(s[0] == then_bb && s[1] == else_bb);
            TerminatorKind::Branch {
                condition,
                then_bb: move_target(remap, then_bb, Ghost(r)),
                else_bb: move_target(remap, else_bb, Ghost(r)),
            }
        },
        TerminatorKind::Match { discriminant, arms, otherwise } => {
            let ghost a1 = arms@;
            let mut new_arms: Vec<MatchTarget> = Vec::new();
            let mut i: usize = 0;
            while i < arms.len()
                invariant
                    a1 == arms@,
                    s == a1.map_values(|a: MatchTarget| a.target).push(otherwise),
                    forall|k: int| 0 <= k < s.len() ==> #[trigger] s[k].0 < remap@.len(),
                    forall|k: int| 0 <= k < remap@.len() ==> remap@[k] == rank(r, k),
                    i <= a1.len(),
                    new_arms@.len() == i,
                    forall|j: int| #![trigger new_arms@[j]] 0 <= j < i ==> new_arms@[j].pattern@ == a1[j].pattern@
                        && new_arms@[j].target == moved(r, a1[j].target),
                decreases a1.len() - i,
            {
                assert(s[i as int] == a1[i as int].target);
                let target = move_target(remap, arms[i].target, Ghost(r));
                new_arms.push(MatchTarget { pattern: arms[i].pattern.clone(), target });
                i += 1;
            }
            assert(s[a1.len() as int] == otherwise);
            TerminatorKind::Match {
                discriminant,
                arms: new_arms,
                otherwise: move_target(remap, otherwise, Ghost(r)),
            }
        },
        TerminatorKind::Call { callee, args, destination, target } => {
            assert(s[0] == target);
            TerminatorKind::Call { callee, args, destination, target: move_target(remap, target, Ghost(r)) }
        },
        TerminatorKind::IterNext { iterator, binding, loop_body, exit } => {
            assert(s[0] == loop_body && s[1] == exit);
            TerminatorKind::IterNext {
                iterator,
                binding,
                loop_body: move_target(remap, loop_body, Ghost(r)),
                exit: move_target(remap, exit, Ghost(r)),
            }
        },
        TerminatorKind::Try { operand, ok_local, err_local, ok_target, err_target } => {
            assert(s[0] == ok_target && s[1] == err_target);
            TerminatorKind::Try {
                operand,
                ok_local,
                err_local,
                ok_target: move_target(remap, ok_target, Ghost(r)),
                err_target: move_target(remap, err_target, Ghost(r)),
            }
        },
        TerminatorKind::Return => TerminatorKind::Return,
        TerminatorKind::Unreachable => TerminatorKind::Unreachable,
    }
}

/// Which blocks the entry reaches.
pub open spec fn reach_of(bs: Seq<BasicBlockData>, entry: BasicBlockId) -> Seq<bool> {
    Seq::new(bs.len(), |i: int| reachable(bs, entry.0 as int, i))
}

/// The blocks after dropping the unmarked ones: block `k`, when kept, stands at its rank
/// with that rank as id, the same statements and its targets moved.
pub open spec fn compacted(old: Seq<BasicBlockData>, new: Seq<BasicBlockData>, r: Seq<bool>) -> bool {
    &&& r.len() == old.len()
    &&& new.len() == count_true(r)
    &&& forall|k: int| #![trigger old[k]] 0 <= k < old.len() && r[k] ==> {
        &&& new[rank(r, k) as int].id == BasicBlockId(rank(r, k) as usize)
        &&& new[rank(r, k) as int].statements == old[k].statements
        &&& remapped(old[k].terminator, new[rank(r, k) as int].terminator, r)
    }
}

/// Whether `after` is `before` without the blocks no path from the entry reaches, as
/// `remove_unreachable_blocks` leaves it.
pub open spec fn unreachable_removed(before: MirFunction, after: MirFunction) -> bool {
    let r = reach_of(before.blocks@, before.entry);
    if count_true(r) == r.len() {
        after == before
    } else {
        &&& compacted(before.blocks@, after.blocks@, r)
        &&& after.entry == moved(r, before.entry)
        &&& after.signature == before.signature
        &&& after.is_declaration == before.is_declaration
        &&& after.locals == before.locals
        &&& after.name == before.name
        &&& after.receiver == before.receiver
        &&& after.return_local == before.return_local
        &&& after.span == before.span
    }
}

/// Drops the blocks that no path from the entry reaches. The blocks that stay keep their
/// order and statements, are numbered anew from zero, and their targets follow them; a
/// function whose blocks are all reached is left as it is.
pub fn remove_unreachable_blocks(function: &mut MirFunction)
    requires
        reachable_targets_in_range(old(function).blocks@, old(function).entry.0 as int),
    ensures
        unreachable_removed(*old(function), *final(function)),
{
    let ghost bs = function.blocks@;
    let ghost r = reach_of(bs, function.entry);
    let reach = mark_reachable(function.entry, &function.blocks);
    proof {
        assert(reach@ =~= r);
    }
    let n = reach.len();
    let mut remap: Vec<usize> = Vec::new();
    let mut count: usize = 0;
    let mut k: usize = 0;
    while k < n
        invariant
            reach@ == r,
            n == r.len(),
            k <= n,
            remap@.len() == k,
            count == rank(r, k as int),
            forall|i: int| 0 <= i < k ==> remap@[i] == rank(r, i),
        decreases n - k,
    {
        remap.push(count);
        proof {
            lemma_rank_step(r, k as int);
            lemma_rank_below(r, k as int);
        }
        if reach[k] {
            count += 1;
        }
        k += 1;
    }
    proof {
        assert(r.take(n as int) =~= r);
    }
    if count == n {
        return;
    }
    let mut old_blocks: Vec<BasicBlockData> = Vec::new();
    std::mem::swap(&mut old_blocks, &mut function.blocks);
    let mut kept: Vec<BasicBlockData> = Vec::new();
    let mut k: usize = n;
    proof {
        assert(old_blocks@.take(n as int) =~= old_blocks@);
    }
    while k > 0
        invariant
            reach@ == r,
            n == r.len(),
            bs.len() == n,
            k <= n,
            old_blocks@ == bs.take(k as int),
            reachable_targets_in_range(bs, function.entry.0 as int),
            forall|i: int| 0 <= i < n ==> #[trigger] r[i] == reachable(bs, function.entry.0 as int, i),
            forall|i: int| 0 <= i < n ==> remap@[i] == rank(r, i),
            remap@.len() == n,
            kept@.len() == count_true(r) - rank(r, k as int),
            forall|i: int| #![trigger bs[i]] k <= i < n && r[i] ==> {
                &&& kept@[rank(r, i) - rank(r, k as int)].id == BasicBlockId(rank(r, i) as usize)
                &&& kept@[rank(r, i) - rank(r, k as int)].statements == bs[i].statements
                &&& remapped(bs[i].terminator, kept@[rank(r, i) - rank(r, k as int)].terminator, r)
            },
        decreases k,
    {
        k -= 1;
        let ghost kept0 = kept@;
        let block = old_blocks.pop().unwrap();
        proof {
            assert(block == bs[k as int]);
            assert(old_blocks@ =~= bs.take(k as int));
            lemma_rank_step(r, k as int);
            lemma_rank_bound(r, k as int);
            lemma_rank_bound(r, k + 1);
        }
        if reach[k] {
            let BasicBlockData { id: _, statements, terminator } = block;
            proof {
                assert(reachable(bs, function.entry.0 as int, k as int));
                assert(targets_in_range(bs, k as int));
            }
            let terminator = rewrite_terminator_targets(terminator, &remap, Ghost(r));
            let id = BasicBlockId(remap[k]);
            kept.insert(0, BasicBlockData { id, statements, terminator });
            proof {
                assert forall|i: int| #![trigger bs[i]] k <= i < n && r[i] implies {
                    &&& kept@[rank(r, i) - rank(r, k as int)].id == BasicBlockId(rank(r, i) as usize)
                    &&& kept@[rank(r, i) - rank(r, k as int)].statements == bs[i].statements
                    &&& remapped(bs[i].terminator, kept@[rank(r, i) - rank(r, k as int)].terminator, r)
                } by {
                    if i > k {
                        lemma_rank_strict(r, k as int, i);
                        lemma_rank_bound(r, i);
                        assert(kept@[rank(r, i) - rank(r, k as int)] == kept0[rank(r, i) - rank(r, k + 1)]);
                    }
                }
            }
        }
    }
    let new_entry = BasicBlockId(remap[function.entry.0]);
    function.blocks = kept;
    function.entry = new_entry;
    proof {
        assert(r.take(0) =~= Seq::<bool>::empty());
        assert forall|i: int| #![trigger bs[i]] 0 <= i < bs.len() && r[i] implies {
            &&& function.blocks@[rank(r, i) as int].id == BasicBlockId(rank(r, i) as usize)
            &&& function.blocks@[rank(r, i) as int].statements == bs[i].statements
            &&& remapped(bs[i].terminator, function.blocks@[rank(r, i) as int].terminator, r)
        } by {
        }
    }
}

/// After dropping the unreachable blocks, the entry reaches every block that is left.
pub proof fn lemma_compacted_all_reachable(
    old: Seq<BasicBlockData>,
    entry: BasicBlockId,
    new: Seq<BasicBlockData>,
)
    requires
        old.len() <= usize::MAX,
        reachable_targets_in_range(old, entry.0 as int),
        compacted(old, new, reach_of(old, entry)),
    ensures
        forall|j: int| 0 <= j < new.len() ==> #[trigger] reachable(new, moved(reach_of(old, entry), entry).0 as int, j),
{
    let r = reach_of(old, entry);
    let e = entry.0 as int;
    lemma_reachable_self(old, e);
    assert(r[e]);
    assert forall|j: int| 0 <= j < new.len() implies #[trigger] reachable(new, moved(r, entry).0 as int, j) by {
        lemma_rank_onto(r, j);
        let k = choose|k: int| 0 <= k < r.len() && r[k] && rank(r, k) == j;
        let p = choose|p: Seq<int>| #[trigger] is_path(old, p) && p[0] == e && p.last() == k;
        lemma_mapped_path(old, e, new, r, p, p.len() - 1);
        lemma_rank_bound(r, e);
    }
}

/// A path from the entry in the old blocks, mapped through the ranks, is a path in the
/// new blocks.
proof fn lemma_mapped_path(
    old: Seq<BasicBlockData>,
    e: int,
    new: Seq<BasicBlockData>,
    r: Seq<bool>,
    p: Seq<int>,
    m: int,
)
    requires
        old.len() <= usize::MAX,
        0 <= e < old.len(),
        r == Seq::new(old.len(), |i: int| reachable(old, e, i)),
        compacted(old, new, r),
        is_path(old, p),
        p[0] == e,
        0 <= m < p.len(),
    ensures
        reachable(new, rank(r, e) as int, rank(r, p[m]) as int),
        reachable(old, e, p[m]),
    decreases m,
{
    if m == 0 {
        lemma_reachable_self(old, e);
        lemma_rank_bound(r, e);
        lemma_reachable_self(new, rank(r, e) as int);
    } else {
        lemma_mapped_path(old, e, new, r, p, m - 1);
        let a = p[m - 1];
        let b = p[(m - 1) + 1];
        assert(edge(old, a, b));
        lemma_reachable_step(old, e, a, b);
        assert(r[a] && r[b]);
        lemma_rank_bound(r, a);
        lemma_rank_bound(r, b);
        let ja = rank(r, a) as int;
        let jb = rank(r, b) as int;
        assert(old[a] == old[a]);
        lemma_remapped_successors(old[a].terminator, new[ja].terminator, r);
        let so = successors(old[a].terminator);
        let k = choose|k: int| 0 <= k < so.len() && so[k] == BasicBlockId(b as usize);
        assert(successors(new[ja].terminator)[k] == moved(r, so[k]));
        assert(successors(new[ja].terminator).contains(BasicBlockId(jb as usize)));
        assert(edge(new, ja, jb));
        lemma_reachable_step(new, rank(r, e) as int, ja, jb);
    }
}
/// The algebraic identity that applies to `left op right`, if any.
pub enum Identity {
    /// The result is the left operand.
    KeepLeft,
    /// The result is the right operand.
    KeepRight,
    /// The result is the integer zero.
    Zero,
    /// The result is this boolean.
    BoolValue(bool),
    NoIdentity,
}

/// The operand is an integer constant whose text parses to `e`.
pub open spec fn int_const_is(o: Operand, e: int) -> bool {
    match o {
        Operand::Constant(c) => match c.value {
            ConstantValue::Integer(t) => i64_value(t@) == Some(e as i64),
            _ => false,
        },
        _ => false,
    }
}

/// The operand is the boolean constant `e`.
pub open spec fn bool_const_is(o: Operand, e: bool) -> bool {
    match o {
        Operand::Constant(c) => match c.value {
            ConstantValue::Bool(b) => b == e,
            _ => false,
        },
        _ => false,
    }
}

/// `x + 0`, `0 + x`, `x - 0`, `x * 1`, `1 * x`, `x / 1` give `x`; `x * 0` and `0 * x` give
/// zero; `false` absorbs `And` and `true` absorbs `Or`, whose other constant is neutral.
/// The left operand is tested first.
pub open spec fn identity_of(op: Seq<char>, l: Operand, r: Operand) -> Identity {
    if op == "Add"@ {
        if int_const_is(l, 0) { Identity::KeepRight } else if int_const_is(r, 0) { Identity::KeepLeft } else { Identity::NoIdentity }
    } else if op == "Subtract"@ {
        if int_const_is(r, 0) { Identity::KeepLeft } else { Identity::NoIdentity }
    } else if op == "Multiply"@ {
        if int_const_is(l, 0) || int_const_is(r, 0) {
            Identity::Zero
        } else if int_const_is(l, 1) {
            Identity::KeepRight
        } else if int_const_is(r, 1) {
            Identity::KeepLeft
        } else {
            Identity::NoIdentity
        }
    } else if op == "Divide"@ {
        if int_const_is(r, 1) { Identity::KeepLeft } else { Identity::NoIdentity }
    } else if op == "And"@ {
        if bool_const_is(l, false) || bool_const_is(r, false) {
            Identity::BoolValue(false)
        } else if bool_const_is(l, true) {
            Identity::KeepRight
        } else if bool_const_is(r, true) {
            Identity::KeepLeft
        } else {
            Identity::NoIdentity
        }
    } else if op == "Or"@ {
        if bool_const_is(l, true) || bool_const_is(r, true) {
            Identity::BoolValue(true)
        } else if bool_const_is(l, false) {
            Identity::KeepRight
        } else if bool_const_is(r, false) {
            Identity::KeepLeft
        } else {
            Identity::NoIdentity
        }
    } else {
        Identity::NoIdentity
    }
}

/// The type a constant made in place of an operand gets: the operand's own type when it is
/// a constant, else the fallback.
pub open spec fn like_type(o: Operand, fallback: Type) -> Type {
    match o {
        Operand::Constant(c) => c.ty,
        _ => fallback,
    }
}

/// Whether `after` is `rv` with an algebraic identity applied.
pub open spec fn simplified(rv: Rvalue, after: Rvalue) -> bool {
    match rv {
        Rvalue::BinaryOp { op, left, right } => match identity_of(op@, left, right) {
            Identity::KeepLeft => after == Rvalue::Use(left),
            Identity::KeepRight => after == Rvalue::Use(right),
            Identity::Zero => is_constant_use(after, like_type(left, Type::Int), ConstView::Integer(signed_decimal(0))),
            Identity::BoolValue(b) => is_constant_use(after, like_type(left, Type::Bool), ConstView::Bool(b)),
            Identity::NoIdentity => after == rv,
        },
        _ => after == rv,
    }
}

/// Whether `after` is `rv` with an algebraic identity applied and then folded.
pub open spec fn identities_applied(rv: Rvalue, after: Rvalue) -> bool {
    match rv {
        Rvalue::BinaryOp { op, left, right } => match identity_of(op@, left, right) {
            Identity::KeepLeft => folded(Rvalue::Use(left), after),
            Identity::KeepRight => folded(Rvalue::Use(right), after),
            Identity::Zero => is_constant_use(after, like_type(left, Type::Int), ConstView::Integer(signed_decimal(0))),
            Identity::BoolValue(b) => is_constant_use(after, like_type(left, Type::Bool), ConstView::Bool(b)),
            Identity::NoIdentity => settled(rv, after),
        },
        _ => folded(rv, after),
    }
}

/// Whether `after` is `rv` folded, or `rv` itself where folding would overflow.
pub open spec fn settled(rv: Rvalue, after: Rvalue) -> bool {
    if rvalue_overflows(rv) {
        after == rv
    } else {
        folded(rv, after)
    }
}

fn is_int_constant(operand: &Operand, expected: i64) -> (r: bool)
    ensures
        r == int_const_is(*operand, expected as int),
{
    match operand {
        Operand::Constant(constant) => match &constant.value {
            ConstantValue::Integer(value) => match parse_i64(value.as_str()) {
                Some(v) => v == expected,
                None => false,
            },
            _ => false,
        },
        _ => false,
    }
}

fn is_bool_constant(operand: &Operand, expected: bool) -> (r: bool)
    ensures
        r == bool_const_is(*operand, expected),
{
    match operand {
        Operand::Constant(constant) => match &constant.value {
            ConstantValue::Bool(value) => *value == expected,
            _ => false,
        },
        _ => false,
    }
}

/// An integer constant with the type of `source` when it is a constant, else `int`.
fn int_constant_like(source: Operand, value: i64) -> (r: Operand)
    ensures
        is_constant_use(Rvalue::Use(r), like_type(source, Type::Int), ConstView::Integer(signed_decimal(value as int))),
{
    let ty = match source {
        Operand::Constant(constant) => constant.ty,
        _ => Type::Int,
    };
    Operand::Constant(Constant { ty, value: ConstantValue::Integer(string_from_chars(&signed_decimal_chars(value))) })
}

/// A boolean constant with the type of `source` when it is a constant, else `bool`.
fn bool_constant_like(source: Operand, value: bool) -> (r: Operand)
    ensures
        is_constant_use(Rvalue::Use(r), like_type(source, Type::Bool), ConstView::Bool(value)),
{
    let ty = match source {
        Operand::Constant(constant) => constant.ty,
        _ => Type::Bool,
    };
    Operand::Constant(Constant { ty, value: ConstantValue::Bool(value) })
}

/// Applies the algebraic identity of `left op right`, if one applies.
fn simplify_binary(op: String, left: Operand, right: Operand) -> (r: Rvalue)
    ensures
        simplified(Rvalue::BinaryOp { op, left, right }, r),
{
    let ghost rv = Rvalue::BinaryOp { op, left, right };
    if str_eq(op.as_str(), "Add") {
        if is_int_constant(&left, 0) {
            return Rvalue::Use(right);
        }
        if is_int_constant(&right, 0) {
            return Rvalue::Use(left);
        }
    } else if str_eq(op.as_str(), "Subtract") {
        if is_int_constant(&right, 0) {
            return Rvalue::Use(left);
        }
    } else if str_eq(op.as_str(), "Multiply") {
        if is_int_constant(&left, 0) || is_int_constant(&right, 0) {
            return Rvalue::Use(int_constant_like(left, 0));
        }
        if is_int_constant(&left, 1) {
            return Rvalue::Use(right);
        }
        if is_int_constant(&right, 1) {
            return Rvalue::Use(left);
        }
    } else if str_eq(op.as_str(), "Divide") {
        if is_int_constant(&right, 1) {
            return Rvalue::Use(left);
        }
    } else if str_eq(op.as_str(), "And") {
        if is_bool_constant(&left, false) || is_bool_constant(&right, false) {
            return Rvalue::Use(bool_constant_like(left, false));
        }
        if is_bool_constant(&left, true) {
            return Rvalue::Use(right);
        }
        if is_bool_constant(&right, true) {
            return Rvalue::Use(left);
        }
    } else if str_eq(op.as_str(), "Or") {
        if is_bool_constant(&left, true) || is_bool_constant(&right, true) {
            return Rvalue::Use(bool_constant_like(left, true));
        }
        if is_bool_constant(&left, false) {
            return Rvalue::Use(right);
        }
        if is_bool_constant(&right, false) {
            return Rvalue::Use(left);
        }
    }
    Rvalue::BinaryOp { op, left, right }
}

/// Applies the algebraic identity of a binary operation, if one applies.
fn simplify_rvalue(value: Rvalue) -> (r: Rvalue)
    ensures
        simplified(value, r),
{
    match value {
        Rvalue::BinaryOp { op, left, right } => simplify_binary(op, left, right),
        other => other,
    }
}

/// Applies the algebraic identities to a right-hand side, then folds it.
fn apply_identities(value: Rvalue) -> (r: Rvalue)
    ensures
        identities_applied(value, r),
{
    let simplified_value = simplify_rvalue(value);
    if rvalue_overflow_check(&simplified_value) {
        simplified_value
    } else {
        fold_rvalue(simplified_value)
    }
}

fn apply_identities_to_statement(statement: Statement) -> (r: Statement)
    ensures
        statement_rewritten(statement, r, Rewrite::Identities),
{
    let Statement { kind, span } = statement;
    match kind {
        StatementKind::Assign(place, value) => Statement { kind: StatementKind::Assign(place, apply_identities(value)), span },
        other => Statement { kind: other, span },
    }
}

fn apply_identities_to_block(block: BasicBlockData) -> (r: BasicBlockData)
    ensures
        block_rewritten(block, r, Rewrite::Identities),
{
    let BasicBlockData { id, statements, terminator } = block;
    let ghost before = statements@;
    let ghost n = before.len();
    let mut pending = statements;
    let mut done: Vec<Statement> = Vec::new();
    while pending.len() > 0
        invariant
            done@.len() + pending@.len() == n,
            before.len() == n,
            pending@ == before.subrange(done@.len() as int, n as int),
            forall|i: int| 0 <= i < done@.len()
                ==> #[trigger] statement_rewritten(before[i], done@[i], Rewrite::Identities),
        decreases pending@.len(),
    {
        let ghost k = done@.len() as int;
        let statement = pending.remove(0);
        proof {
            assert(statement == before[k]);
            assert(pending@ =~= before.subrange(k + 1, n as int));
        }
        done.push(apply_identities_to_statement(statement));
    }
    BasicBlockData { id, statements: done, terminator }
}

/// Whether `after` is `before` with each block rewritten, and all else the same.
pub open spec fn blocks_rewritten(before: MirFunction, after: MirFunction, rel: Rewrite) -> bool {
    &&& after.receiver == before.receiver
    &&& after.name == before.name
    &&& after.signature == before.signature
    &&& after.is_declaration == before.is_declaration
    &&& after.locals == before.locals
    &&& after.entry == before.entry
    &&& after.return_local == before.return_local
    &&& after.span == before.span
    &&& after.blocks@.len() == before.blocks@.len()
    &&& forall|b: int| 0 <= b < before.blocks@.len() ==> #[trigger] block_rewritten(before.blocks@[b], after.blocks@[b], rel)
}

/// Rewrites every assignment by the algebraic identities, folding what becomes constant.
pub fn simplify_algebraic_identities(function: &mut MirFunction)
    ensures
        blocks_rewritten(*old(function), *final(function), Rewrite::Identities),
{
    let ghost before = function.blocks@;
    let ghost n = before.len();
    let mut pending: Vec<BasicBlockData> = Vec::new();
    std::mem::swap(&mut pending, &mut function.blocks);
    let mut done: Vec<BasicBlockData> = Vec::new();
    while pending.len() > 0
        invariant
            done@.len() + pending@.len() == n,
            before.len() == n,
            pending@ == before.subrange(done@.len() as int, n as int),
            forall|b: int| 0 <= b < done@.len() ==> #[trigger] block_rewritten(before[b], done@[b], Rewrite::Identities),
        decreases pending@.len(),
    {
        let ghost k = done@.len() as int;
        let block = pending.remove(0);
        proof {
            assert(block == before[k]);
            assert(pending@ =~= before.subrange(k + 1, n as int));
        }
        done.push(apply_identities_to_block(block));
    }
    function.blocks = done;
}

proof fn lemma_count_true_full(r: Seq<bool>)
    requires
        count_true(r) == r.len(),
    ensures
        forall|i: int| 0 <= i < r.len() ==> #[trigger] r[i],
    decreases r.len(),
{
    if r.len() > 0 {
        lemma_count_true_bound(r.drop_last());
        lemma_count_true_full(r.drop_last());
        assert forall|i: int| 0 <= i < r.len() implies #[trigger] r[i] by {
            if i < r.len() - 1 {
                assert(r.drop_last()[i] == r[i]);
            }
        }
    }
}

proof fn lemma_count_true_bound(r: Seq<bool>)
    ensures
        count_true(r) <= r.len(),
    decreases r.len(),
{
    if r.len() > 0 {
        lemma_count_true_bound(r.drop_last());
    }
}

proof fn lemma_rewritten_refined(a: MirFunction, b: MirFunction, rel: Rewrite)
    requires
        blocks_rewritten(a, b, rel),
    ensures
        function_refined(a, b),
{
    assert forall|x: int| 0 <= x < a.blocks@.len() implies #[trigger] block_refined(a.blocks@[x], b.blocks@[x]) by {
        let ba = a.blocks@[x];
        let bb = b.blocks@[x];
        assert(block_rewritten(ba, bb, rel));
        assert forall|i: int| 0 <= i < ba.statements@.len() implies #[trigger] statement_refined(
            ba.statements@[i],
            bb.statements@[i],
        ) by {
            assert(statement_rewritten(ba.statements@[i], bb.statements@[i], rel));
        }
    }
}

proof fn lemma_refined_path(a: Seq<BasicBlockData>, c: Seq<BasicBlockData>, p: Seq<int>)
    requires
        a.len() == c.len(),
        forall|x: int| 0 <= x < a.len() ==> #[trigger] block_refined(a[x], c[x]),
        is_path(c, p),
    ensures
        is_path(a, p),
{
    assert forall|k: int| 0 <= k < p.len() - 1 implies #[trigger] edge(a, p[k], p[k + 1]) by {
        assert(edge(c, p[k], p[k + 1]));
        assert(block_refined(a[p[k]], c[p[k]]));
        lemma_refined_successors(a[p[k]].terminator, c[p[k]].terminator);
        let sc = successors(c[p[k]].terminator);
        let kk = choose|kk: int| 0 <= kk < sc.len() && sc[kk] == BasicBlockId(p[k + 1] as usize);
        assert(successors(a[p[k]].terminator).contains(sc[kk]));
    }
}

proof fn lemma_refined_foldable(a: MirFunction, c: MirFunction)
    requires
        function_refined(a, c),
        foldable(a),
    ensures
        foldable(c),
{
    let e = a.entry.0 as int;
    let ab = a.blocks@;
    let cb = c.blocks@;
    assert forall|i: int| 0 <= i < cb.len() && #[trigger] reachable(cb, e, i) implies targets_in_range(cb, i)
        && block_locals_in_range(cb[i], c.locals@.len()) by {
        let p = choose|p: Seq<int>| #[trigger] is_path(cb, p) && p[0] == e && p.last() == i;
        lemma_refined_path(ab, cb, p);
        assert(reachable(ab, e, i));
        assert(targets_in_range(ab, i));
        assert(block_refined(ab[i], cb[i]));
        lemma_refined_successors(ab[i].terminator, cb[i].terminator);
        assert forall|k: int| 0 <= k < successors(cb[i].terminator).len() implies #[trigger] successors(
            cb[i].terminator,
        )[k].0 < cb.len() by {
            let sa = successors(ab[i].terminator);
            assert(sa.contains(successors(cb[i].terminator)[k]));
            let kk = choose|kk: int| 0 <= kk < sa.len() && sa[kk] == successors(cb[i].terminator)[k];
            assert(sa[kk].0 < ab.len());
        }
        lemma_refined_locals(ab[i], cb[i], a.locals@.len());
    }
}

/// Whether `after` is what the optimizer leaves of `before`: constants propagated, the
/// algebraic identities applied, constants propagated again, and the unreachable blocks
/// dropped.
pub open spec fn optimized(before: MirFunction, after: MirFunction) -> bool {
    exists|a: MirFunction, b: MirFunction, c: MirFunction|
        #![trigger super::const_eval::function_folded(before, a), super::const_eval::function_folded(b, c)]
        super::const_eval::function_folded(before, a) && blocks_rewritten(a, b, Rewrite::Identities)
            && super::const_eval::function_folded(b, c)
            && unreachable_removed(c, after)
}

/// Optimizes a function: propagates constants, applies the algebraic identities, propagates
/// constants again, and drops the blocks no path from the entry reaches. After it, the
/// entry reaches every block.
pub fn optimize_function(function: &mut MirFunction)
    requires
        foldable(*old(function)),
    ensures
        optimized(*old(function), *final(function)),
        forall|j: int| 0 <= j < final(function).blocks@.len()
            ==> #[trigger] reachable(final(function).blocks@, final(function).entry.0 as int, j),
{
    let ghost f0 = *function;
    fold_function_constants(function);
    let ghost f1 = *function;
    simplify_algebraic_identities(function);
    let ghost f2 = *function;
    proof {
        lemma_refined_foldable(f0, f1);
        lemma_rewritten_refined(f1, f2, Rewrite::Identities);
        lemma_refined_foldable(f1, f2);
    }
    fold_function_constants(function);
    let ghost f3 = *function;
    proof {
        lemma_refined_foldable(f2, f3);
    }
    let nb = function.blocks.len();
    remove_unreachable_blocks(function);
    proof {
        assert(super::const_eval::function_folded(f0, f1) && blocks_rewritten(f1, f2, Rewrite::Identities)
            && super::const_eval::function_folded(f2, f3)
            && unreachable_removed(f3, *function));
        let r = reach_of(f3.blocks@, f3.entry);
        if count_true(r) == r.len() {
            lemma_count_true_full(r);
            assert forall|j: int| 0 <= j < function.blocks@.len() implies #[trigger] reachable(
                function.blocks@,
                function.entry.0 as int,
                j,
            ) by {
                assert(r[j]);
            }
        } else {
            assert(f3.blocks@.len() == nb);
            lemma_compacted_all_reachable(f3.blocks@, f3.entry, function.blocks@);
        }
    }
}

/// Some chain of calls leads from function `root` to function `j`.
pub open spec fn called_from(p: MirProgram, root: int, j: int) -> bool {
    exists|c: Seq<int>| #[trigger] is_call_chain(p, c) && c[0] == root && c.last() == j
}

proof fn lemma_called_self(p: MirProgram, root: int)
    ensures
        called_from(p, root, root),
{
    let c = seq![root];
    assert(is_call_chain(p, c));
}

proof fn lemma_called_step(p: MirProgram, root: int, a: int, b: int)
    requires
        called_from(p, root, a),
        calls(p, a, b),
    ensures
        called_from(p, root, b),
{
    let c = choose|c: Seq<int>| #[trigger] is_call_chain(p, c) && c[0] == root && c.last() == a;
    let d = c.push(b);
    assert forall|k: int| 0 <= k < d.len() - 1 implies #[trigger] calls(p, d[k], d[k + 1]) by {
        if k < c.len() - 1 {
            assert(d[k] == c[k] && d[k + 1] == c[k + 1]);
        } else {
            assert(d[k] == a && d[k + 1] == b);
        }
    }
    assert(is_call_chain(p, d));
}

/// With the marks closed under calling and the root marked, every function on a chain of
/// calls from the root is marked.
proof fn lemma_closed_marks_chain(p: MirProgram, used: Seq<bool>, c: Seq<int>, k: int)
    requires
        used.len() == p.functions@.len(),
        is_call_chain(p, c),
        0 <= c[0] < used.len(),
        used[c[0]],
        forall|a: int, b: int| 0 <= a < used.len() && used[a] && #[trigger] calls(p, a, b) ==> b < used.len() && used[b],
        0 <= k < c.len(),
    ensures
        0 <= c[k] < used.len(),
        used[c[k]],
    decreases k,
{
    if k > 0 {
        lemma_closed_marks_chain(p, used, c, k - 1);
        assert(calls(p, c[k - 1], c[(k - 1) + 1]));
        assert(0 <= c[k]) by {
            let b = choose|b: int| 0 <= b < p.functions@[c[k - 1]].blocks@.len()
                && #[trigger] block_calls(names_of(p), p.functions@[c[k - 1]].blocks@[b], c[k]);
            let x = block_callee(p.functions@[c[k - 1]].blocks@[b])->0;
            crate::mir::determinism::lemma_last_index_bound(names_of(p), x);
        }
    }
}

/// Which functions some chain of calls from function `root` reaches.
fn mark_called(program: &MirProgram, names: &Vec<String>, root: usize) -> (used: Vec<bool>)
    requires
        names@.map_values(|s: String| s@) == names_of(*program),
        root < program.functions@.len(),
    ensures
        used@.len() == program.functions@.len(),
        forall|j: int| 0 <= j < used@.len() ==> #[trigger] used@[j] == called_from(*program, root as int, j),
{
    let ghost p = *program;
    let ghost nm = names_of(p);
    let n = program.functions.len();
    let mut used: Vec<bool> = Vec::new();
    let mut k: usize = 0;
    while k < n
        invariant
            n == p.functions@.len(),
            k <= n,
            used@.len() == k,
            forall|i: int| 0 <= i < k ==> !#[trigger] used@[i],
        decreases n - k,
    {
        used.push(false);
        k += 1;
    }
    used.set(root, true);
    let mut stack: Vec<usize> = vec![root];
    proof {
        lemma_called_self(p, root as int);
        assert(names_of(p).len() == n);
    }
    while stack.len() > 0
        invariant
            p == *program,
            nm == names_of(p),
            names@.map_values(|s: String| s@) == nm,
            n == p.functions@.len(),
            root < n,
            used@.len() == n,
            used@[root as int],
            forall|i: int| 0 <= i < n && #[trigger] used@[i] ==> called_from(p, root as int, i),
            forall|j: int| 0 <= j < stack@.len() ==> #[trigger] stack@[j] < n && used@[stack@[j] as int],
            forall|a: int, b: int| 0 <= a < n && used@[a] && !stack@.contains(a as usize) && #[trigger] calls(p, a, b)
                ==> 0 <= b < n && used@[b],
        decreases count_false(used@), stack@.len(),
    {
        let ghost used0 = used@;
        let ghost stack0 = stack@;
        let current = stack.pop().unwrap();
        proof {
            assert(stack0.last() == current);
            assert(stack0 =~= stack@.push(current));
        }
        let function = &program.functions[current];
        let nb = function.blocks.len();
        let mut b: usize = 0;
        while b < nb
            invariant
                p == *program,
                nm == names_of(p),
                names@.map_values(|s: String| s@) == nm,
                n == p.functions@.len(),
                current < n,
                root < n,
                *function == p.functions@[current as int],
                nb == function.blocks@.len(),
                b <= nb,
                used@.len() == n,
                used@[root as int],
                used@[current as int],
                called_from(p, root as int, current as int),
                forall|kk: int, j: int| 0 <= kk < b && #[trigger] block_calls(nm, function.blocks@[kk], j) ==> 0 <= j < n
                    && used@[j],
                forall|m: int| 0 <= m < n && used0[m] ==> #[trigger] used@[m],
                forall|m: int| 0 <= m < n && #[trigger] used@[m] ==> called_from(p, root as int, m),
                forall|j: int| 0 <= j < stack@.len() ==> #[trigger] stack@[j] < n && used@[stack@[j] as int],
                forall|m: int| 0 <= m < n && used@[m] && !used0[m] ==> #[trigger] stack@.contains(m as usize),
                forall|a: int, c: int| 0 <= a < n && used0[a] && !stack0.contains(a as usize) && #[trigger] calls(p, a, c)
                    ==> 0 <= c < n && used0[c],
                stack0 == stack@.take(stack0.len() - 1).push(current),
                count_false(used@) + (stack@.len() - (stack0.len() - 1)) <= count_false(used0),
                stack@.len() >= stack0.len() - 1,
            decreases nb - b,
        {
            match block_callee_name(&function.blocks[b]) {
                Some(callee) => {
                    match find_last(names, callee.as_str()) {
                        Some(j) => {
                            proof {
                                assert(j < n) by {
                                    crate::mir::determinism::lemma_last_index_bound(nm, callee@);
                                }
                                assert(block_calls(nm, function.blocks@[b as int], j as int));
                                assert(calls(p, current as int, j as int));
                                lemma_called_step(p, root as int, current as int, j as int);
                            }
                            if !used[j] {
                                let ghost u1 = used@;
                                let ghost st1 = stack@;
                                used.set(j, true);
                                stack.push(j);
                                proof {
                                    assert(stack@ == st1.push(j));
                                    assert forall|m: int| 0 <= m < n && used@[m] && !used0[m] implies #[trigger] stack@.contains(
                                        m as usize,
                                    ) by {
                                        if m == j as int {
                                            assert(stack@[st1.len() as int] == j);
                                        } else {
                                            assert(u1[m]);
                                            assert(st1.contains(m as usize));
                                            let jj = choose|jj: int| 0 <= jj < st1.len() && st1[jj] == m as usize;
                                            assert(stack@[jj] == m as usize);
                                        }
                                    }
                                    assert(stack@.take(stack0.len() - 1) =~= st1.take(stack0.len() - 1));
                                    lemma_count_false_set(u1, j as int);
                                }
                            }
                        },
                        None => {
                            proof {
                                assert forall|j: int| !block_calls(nm, function.blocks@[b as int], j) by {}
                            }
                        },
                    }
                },
                None => {},
            }
            proof {
                assert forall|kk: int, j: int| 0 <= kk < b + 1 && #[trigger] block_calls(nm, function.blocks@[kk], j)
                    implies 0 <= j < n && used@[j] by {
                    if kk == b as int {
                        crate::mir::determinism::lemma_last_index_bound(nm, block_callee(function.blocks@[kk])->0);
                    }
                }
            }
            b += 1;
        }
        proof {
            assert forall|a: int, c: int| 0 <= a < n && used@[a] && !stack@.contains(a as usize) && #[trigger] calls(p, a, c)
                implies 0 <= c < n && used@[c] by {
                if a == current as int {
                    let kk = choose|kk: int| 0 <= kk < p.functions@[a].blocks@.len()
                        && #[trigger] block_calls(names_of(p), p.functions@[a].blocks@[kk], c);
                    assert(block_calls(nm, function.blocks@[kk], c));
                    assert(kk < b);
                    assert(0 <= c < n && used@[c]);
                } else {
                    assert(used0[a]) by {
                        if !used0[a] {
                            assert(stack@.contains(a as usize));
                        }
                    }
                    assert(!stack0.contains(a as usize)) by {
                        if stack0.contains(a as usize) {
                            let jj = choose|jj: int| 0 <= jj < stack0.len() && stack0[jj] == a as usize;
                            if jj < stack0.len() - 1 {
                                assert(stack@[jj] == a as usize);
                            }
                        }
                    }
                }
            }
        }
    }
    proof {
        assert forall|i: int| 0 <= i < n && #[trigger] called_from(p, root as int, i) implies used@[i] by {
            let c = choose|c: Seq<int>| #[trigger] is_call_chain(p, c) && c[0] == root && c.last() == i;
            lemma_closed_marks_chain(p, used@, c, c.len() - 1);
        }
    }
    used
}

/// Which functions optimizing keeps: those a chain of calls from `main` reaches, `main`
/// among them; every function when there is no `main`.
pub open spec fn kept_functions(p: MirProgram) -> Seq<bool> {
    match last_index(names_of(p), "main"@) {
        Some(m) => Seq::new(p.functions@.len(), |j: int| called_from(p, m, j)),
        None => Seq::new(p.functions@.len(), |j: int| true),
    }
}

/// Whether the entry of the function reaches every block.
pub open spec fn all_blocks_reachable(f: MirFunction) -> bool {
    forall|j: int| 0 <= j < f.blocks@.len() ==> #[trigger] reachable(f.blocks@, f.entry.0 as int, j)
}

/// The entry is a block, every block passes control only to blocks, and every local a
/// statement writes or ends is declared.
pub open spec fn well_formed(f: MirFunction) -> bool {
    &&& f.entry.0 < f.blocks@.len()
    &&& forall|i: int| 0 <= i < f.blocks@.len() ==> #[trigger] targets_in_range(f.blocks@, i)
        && block_locals_in_range(f.blocks@[i], f.locals@.len())
}

/// A well-formed function can be optimized.
pub proof fn lemma_well_formed_foldable(f: MirFunction)
    requires
        well_formed(f),
    ensures
        foldable(f),
{
}

/// A copy of a function is well formed exactly when the function is.
pub proof fn lemma_same_function_well_formed(a: MirFunction, b: MirFunction)
    requires
        super::nodes::same_function(a, b),
    ensures
        well_formed(a) == well_formed(b),
{
    assert forall|i: int| 0 <= i < a.blocks@.len() implies successors(a.blocks@[i].terminator) == successors(
        b.blocks@[i].terminator,
    ) && (block_locals_in_range(a.blocks@[i], a.locals@.len()) == block_locals_in_range(b.blocks@[i], b.locals@.len())) by {
        assert(super::nodes::same_block(a.blocks@[i], b.blocks@[i]));
        let x = a.blocks@[i];
        let y = b.blocks@[i];
        assert forall|k: int| 0 <= k < x.statements@.len() implies super::const_eval::statement_local(x.statements@[k])
            == super::const_eval::statement_local(y.statements@[k]) by {
            assert(super::nodes::same_statement(x.statements@[k], y.statements@[k]));
        }
        if block_locals_in_range(x, a.locals@.len()) {
            assert forall|k: int| 0 <= k < y.statements@.len() implies match #[trigger] super::const_eval::statement_local(y.statements@[k]) {
                Some(l) => l.0 < b.locals@.len(),
                None => true,
            } by {
                assert(super::const_eval::statement_local(x.statements@[k]) == super::const_eval::statement_local(y.statements@[k]));
            }
        }
        if block_locals_in_range(y, b.locals@.len()) {
            assert forall|k: int| 0 <= k < x.statements@.len() implies match #[trigger] super::const_eval::statement_local(x.statements@[k]) {
                Some(l) => l.0 < a.locals@.len(),
                None => true,
            } by {
                assert(super::const_eval::statement_local(x.statements@[k]) == super::const_eval::statement_local(y.statements@[k]));
            }
        }
    }
    if well_formed(a) != well_formed(b) {
        assert forall|i: int| 0 <= i < a.blocks@.len() implies (targets_in_range(a.blocks@, i) == targets_in_range(b.blocks@, i)) by {
            assert(successors(a.blocks@[i].terminator) == successors(b.blocks@[i].terminator));
        }
        if well_formed(a) {
            assert forall|i: int| 0 <= i < b.blocks@.len() implies #[trigger] targets_in_range(b.blocks@, i)
                && block_locals_in_range(b.blocks@[i], b.locals@.len()) by {
                assert(targets_in_range(a.blocks@, i));
            }
        } else {
            assert forall|i: int| 0 <= i < a.blocks@.len() implies #[trigger] targets_in_range(a.blocks@, i)
                && block_locals_in_range(a.blocks@[i], a.locals@.len()) by {
                assert(targets_in_range(b.blocks@, i));
            }
        }
    }
}

/// The local a statement writes or ends, if any.
fn statement_local_of(statement: &Statement) -> (r: Option<super::nodes::LocalId>)
    ensures
        r == super::const_eval::statement_local(*statement),
{
    match &statement.kind {
        StatementKind::StorageLive(l) => Some(*l),
        StatementKind::StorageDead(l) => Some(*l),
        StatementKind::Drop(l) => Some(*l),
        StatementKind::Assign(p, _) => Some(p.local),
        StatementKind::Nop => None,
    }
}

/// Whether the function is well formed: its blocks and locals are all there.
pub fn is_well_formed(function: &MirFunction) -> (r: bool)
    ensures
        r == well_formed(*function),
{
    let bs = &function.blocks;
    let n = bs.len();
    if function.entry.0 >= n {
        return false;
    }
    let mut i: usize = 0;
    while i < n
        invariant
            n == bs@.len(),
            *bs == function.blocks,
            function.entry.0 < n,
            i <= n,
            forall|k: int| 0 <= k < i ==> #[trigger] targets_in_range(bs@, k)
                && block_locals_in_range(bs@[k], function.locals@.len()),
        decreases n - i,
    {
        let succ = successor_blocks(&bs[i].terminator);
        let mut k: usize = 0;
        while k < succ.len()
            invariant
                k <= succ@.len(),
                i < n,
                *bs == function.blocks,
                succ@ == successors(bs@[i as int].terminator),
                n == bs@.len(),
                forall|j: int| 0 <= j < k ==> #[trigger] succ@[j].0 < n,
                forall|kk: int| 0 <= kk < i ==> #[trigger] targets_in_range(bs@, kk)
                    && block_locals_in_range(bs@[kk], function.locals@.len()),
            decreases succ@.len() - k,
        {
            if succ[k].0 >= n {
                proof {
                    assert(!targets_in_range(bs@, i as int));
                }
                return false;
            }
            k += 1;
        }
        proof {
            assert(targets_in_range(bs@, i as int));
        }
        let statements = &bs[i].statements;
        let mut j: usize = 0;
        while j < statements.len()
            invariant
                j <= statements@.len(),
                i < n,
                n == bs@.len(),
                *bs == function.blocks,
                *statements == bs@[i as int].statements,
                targets_in_range(bs@, i as int),
                forall|kk: int| 0 <= kk < i ==> #[trigger] targets_in_range(bs@, kk)
                    && block_locals_in_range(bs@[kk], function.locals@.len()),
                forall|m: int| 0 <= m < j ==> match #[trigger] super::const_eval::statement_local(statements@[m]) {
                    Some(l) => l.0 < function.locals@.len(),
                    None => true,
                },
            decreases statements@.len() - j,
        {
            match statement_local_of(&statements[j]) {
                Some(l) => {
                    if l.0 >= function.locals.len() {
                        proof {
                            assert(super::const_eval::statement_local(statements@[j as int]) == Some(l));
                            assert(!block_locals_in_range(bs@[i as int], function.locals@.len()));
                            assert(function.blocks@ == bs@);
                            assert(!well_formed(*function));
                            assert(!(targets_in_range(function.blocks@, i as int)
                                && block_locals_in_range(function.blocks@[i as int], function.locals@.len())));
                        }
                        return false;
                    }
                },
                None => {},
            }
            j += 1;
        }
        proof {
            assert(block_locals_in_range(bs@[i as int], function.locals@.len()));
            assert forall|k: int| 0 <= k < i + 1 implies #[trigger] targets_in_range(bs@, k)
                && block_locals_in_range(bs@[k], function.locals@.len()) by {
                if k == i as int {
                    assert(targets_in_range(bs@, i as int));
                }
            }
        }
        i += 1;
    }
    proof {
        assert(function.blocks@ == bs@);
        assert forall|k: int| 0 <= k < function.blocks@.len() implies #[trigger] targets_in_range(function.blocks@, k)
            && block_locals_in_range(function.blocks@[k], function.locals@.len()) by {
            assert(targets_in_range(bs@, k));
        }
        assert(function.entry.0 < function.blocks@.len());
        assert(well_formed(*function));
    }
    true
}

/// Optimizes a program: drops the functions `main` never calls, directly or through other
/// functions, and optimizes the rest, which keep their order.
#[verifier::rlimit(50)]
pub fn optimize_program(program: &mut MirProgram)
    requires
        forall|i: int| 0 <= i < old(program).functions@.len() ==> #[trigger] foldable(old(program).functions@[i]),
    ensures
        final(program).span == old(program).span,
        final(program).functions@.len() == count_true(kept_functions(*old(program))),
        forall|k: int| 0 <= k < old(program).functions@.len() && #[trigger] kept_functions(*old(program))[k]
            ==> optimized(old(program).functions@[k], final(program).functions@[rank(kept_functions(*old(program)), k) as int]),
        forall|i: int| 0 <= i < final(program).functions@.len() ==> #[trigger] all_blocks_reachable(final(program).functions@[i]),
{
    let ghost p = *program;
    let ghost r = kept_functions(p);
    let names = callable_names(program);
    let n = program.functions.len();
    let keep: Vec<bool> = match find_last(&names, "main") {
        Some(m) => {
            proof {
                crate::mir::determinism::lemma_last_index_bound(names_of(p), "main"@);
            }
            mark_called(program, &names, m)
        },
        None => {
            let mut all: Vec<bool> = Vec::new();
            let mut k: usize = 0;
            while k < n
                invariant
                    k <= n,
                    all@.len() == k,
                    forall|i: int| 0 <= i < k ==> #[trigger] all@[i],
                decreases n - k,
            {
                all.push(true);
                k += 1;
            }
            all
        },
    };
    proof {
        assert(keep@ =~= r);
    }
    let ghost orig = program.functions@;
    let mut pending: Vec<MirFunction> = Vec::new();
    std::mem::swap(&mut pending, &mut program.functions);
    let mut done: Vec<MirFunction> = Vec::new();
    let mut k: usize = 0;
    while k < n
        invariant
            orig == p.functions@,
            n == orig.len(),
            r == kept_functions(p),
            keep@ == r,
            r.len() == n,
            k <= n,
            pending@ == orig.subrange(k as int, n as int),
            forall|i: int| 0 <= i < n ==> #[trigger] foldable(orig[i]),
            done@.len() == rank(r, k as int),
            forall|kk: int| 0 <= kk < k && #[trigger] r[kk] ==> optimized(orig[kk], done@[rank(r, kk) as int]),
            forall|i: int| 0 <= i < done@.len() ==> #[trigger] all_blocks_reachable(done@[i]),
        decreases n - k,
    {
        let mut f = pending.remove(0);
        proof {
            assert(f == orig[k as int]);
            assert(pending@ =~= orig.subrange(k + 1, n as int));
            lemma_rank_step(r, k as int);
        }
        if keep[k] {
            optimize_function(&mut f);
            let ghost before = done@;
            done.push(f);
            proof {
                assert forall|kk: int| 0 <= kk < k + 1 && #[trigger] r[kk] implies optimized(orig[kk], done@[rank(r, kk) as int]) by {
                    if kk < k {
                        lemma_rank_strict(r, kk, k as int);
                        assert(done@[rank(r, kk) as int] == before[rank(r, kk) as int]);
                    }
                }
                assert forall|i: int| 0 <= i < done@.len() implies #[trigger] all_blocks_reachable(done@[i]) by {
                    if i < before.len() {
                        assert(done@[i] == before[i]);
                    }
                }
            }
        }
        k += 1;
    }
    proof {
        assert(r.take(n as int) =~= r);
    }
    program.functions = done;
}

/// A value a MIR operand can hold, as the program means it.
pub ghost enum MirValue {
    Int(int),
    Bool(bool),
}

/// The value of an operand: an integer or boolean constant, or a whole local's value.
pub open spec fn operand_value(o: Operand, env: Seq<MirValue>) -> Option<MirValue> {
    match o {
        Operand::Constant(c) => match c.value {
            ConstantValue::Integer(t) => match i64_value(t@) {
                Some(v) => Some(MirValue::Int(v as int)),
                None => None,
            },
            ConstantValue::Bool(b) => Some(MirValue::Bool(b)),
            _ => None,
        },
        Operand::Copy(p) | Operand::Move(p) => if p.projection@.len() == 0 && p.local.0 < env.len() {
            Some(env[p.local.0 as int])
        } else {
            None
        },
    }
}

/// What a binary operator computes on two values: integer `+`, `-`, `*` and division
/// rounding toward zero, and boolean `And`/`Or`, as mathematics defines them.
pub open spec fn binary_op_value(op: Seq<char>, a: Option<MirValue>, b: Option<MirValue>) -> Option<MirValue> {
    match (a, b) {
        (Some(MirValue::Int(a)), Some(MirValue::Int(b))) => if op == "Add"@ {
            Some(MirValue::Int(a + b))
        } else if op == "Subtract"@ {
            Some(MirValue::Int(a - b))
        } else if op == "Multiply"@ {
            Some(MirValue::Int(a * b))
        } else if op == "Divide"@ && b != 0 {
            Some(MirValue::Int(super::const_eval::trunc_div(a, b)))
        } else {
            None
        },
        (Some(MirValue::Bool(a)), Some(MirValue::Bool(b))) => if op == "And"@ {
            Some(MirValue::Bool(a && b))
        } else if op == "Or"@ {
            Some(MirValue::Bool(a || b))
        } else {
            None
        },
        _ => None,
    }
}

/// The value a right-hand side computes from the locals' values.
pub open spec fn rvalue_value(rv: Rvalue, env: Seq<MirValue>) -> Option<MirValue> {
    match rv {
        Rvalue::Use(o) => operand_value(o, env),
        Rvalue::BinaryOp { op, left, right } => binary_op_value(op@, operand_value(left, env), operand_value(right, env)),
        _ => None,
    }
}

proof fn lemma_zero_text()
    ensures
        i64_value(signed_decimal(0)) == Some(0i64),
{
    let z = signed_decimal(0);
    assert(z =~= seq!['0']);
    assert(!crate::text::has_sign(z));
    assert(crate::text::unsigned_part(z) == z);
    assert(crate::text::all_digits(z));
    assert(z.drop_last() =~= Seq::<char>::empty());
    assert(crate::text::digits_value(Seq::<char>::empty()) == 0);
    assert(z.last() == '0');
    assert(crate::text::digits_value(z) == crate::text::digits_value(z.drop_last()) * 10 + crate::text::digit_value('0'));
    assert(crate::text::digits_value(z) == 0);
    assert(crate::text::signed_digits_value(z) == Some(0int));
}

/// Applying an algebraic identity keeps the value: whatever the locals hold, the simplified
/// right-hand side computes what the original does (`x - 0` is `x`, but `0 - x` is not).
pub proof fn lemma_simplified_keeps_value(rv: Rvalue, after: Rvalue, env: Seq<MirValue>)
    requires
        simplified(rv, after),
        rvalue_value(rv, env) is Some,
    ensures
        rvalue_value(after, env) == rvalue_value(rv, env),
{
    lemma_zero_text();
    reveal_strlit("Add");
    reveal_strlit("Subtract");
    reveal_strlit("Multiply");
    reveal_strlit("Divide");
    reveal_strlit("And");
    reveal_strlit("Or");
    assert("Add"@.len() == 3 && "Subtract"@.len() == 8 && "Multiply"@.len() == 8 && "Divide"@.len() == 6 && "And"@.len() == 3
        && "Or"@.len() == 2);
    assert("Multiply"@ != "Subtract"@) by {
        assert("Multiply"@[0] != "Subtract"@[0]);
    }
    assert("Add"@ != "And"@) by {
        assert("Add"@[1] != "And"@[1]);
    }
    match rv {
        Rvalue::BinaryOp { op, left, right } => {
            let lv = operand_value(left, env);
            let rv2 = operand_value(right, env);
            match identity_of(op@, left, right) {
                Identity::Zero => {
                    match after {
                        Rvalue::Use(Operand::Constant(c)) => {
                            match c.value {
                                ConstantValue::Integer(t) => {
                                    assert(t@ == signed_decimal(0));
                                },
                                _ => {},
                            }
                        },
                        _ => {},
                    }
                    if let (Some(MirValue::Int(x)), Some(MirValue::Int(y))) = (lv, rv2) {
                        assert(x == 0 || y == 0);
                        assert(x * y == 0) by (nonlinear_arith)
                            requires
                                x == 0 || y == 0,
                        ;
                    }
                },
                Identity::KeepLeft => {
                    assert(identity_of(op@, left, right) == Identity::KeepLeft);
                    if op@ == "Multiply"@ {
                        assert(op@ != "Add"@);
                        assert(op@ != "Subtract"@);
                        assert(!int_const_is(left, 0) && !int_const_is(right, 0) && !int_const_is(left, 1));
                    }
                    if op@ == "Multiply"@ || op@ == "Divide"@ {
                        assert(int_const_is(right, 1));
                        match right {
                            Operand::Constant(c) => match c.value {
                                ConstantValue::Integer(t) => {
                                    assert(i64_value(t@) == Some(1i64));
                                },
                                _ => {},
                            },
                            _ => {},
                        }
                    }
                    if let (Some(MirValue::Int(x)), Some(MirValue::Int(y))) = (lv, rv2) {
                        if op@ == "Multiply"@ {
                            assert(y == 1);
                            assert(x * 1 == x);
                        }
                        if op@ == "Divide"@ {
                            assert(y == 1);
                            assert(super::const_eval::abs(x) / 1 == super::const_eval::abs(x));
                            assert(super::const_eval::trunc_div(x, 1) == x);
                        }
                    }
                },
                Identity::KeepRight => {
                    if let (Some(MirValue::Int(x)), Some(MirValue::Int(y))) = (lv, rv2) {
                        if op@ == "Multiply"@ {
                            assert(x == 1);
                            assert(1 * y == y);
                        }
                    }
                },
                _ => {},
            }
        },
        _ => {},
    }
}

/// Constant folding computes the operator: folding `a op b` on integer or boolean constants
/// gives the decimal text of (or the boolean) `a op b` as the program means it.
pub proof fn lemma_folding_computes(rv: Rvalue, env: Seq<MirValue>)
    requires
        rv is BinaryOp,
    ensures
        match (super::const_eval::rvalue_constant(rv), rvalue_value(rv, env)) {
            (Some((_, ConstView::Integer(s))), Some(MirValue::Int(v))) => s == signed_decimal(v),
            (Some((_, ConstView::Bool(b))), Some(MirValue::Bool(w))) => b == w,
            _ => true,
        },
{
    reveal_strlit("Add");
    reveal_strlit("Subtract");
    reveal_strlit("Multiply");
    reveal_strlit("Divide");
    reveal_strlit("And");
    reveal_strlit("Or");
    assert("Add"@.len() == 3 && "Subtract"@.len() == 8 && "Multiply"@.len() == 8 && "Divide"@.len() == 6 && "And"@.len() == 3
        && "Or"@.len() == 2);
    assert("Multiply"@ != "Subtract"@) by {
        assert("Multiply"@[0] != "Subtract"@[0]);
    }
    assert("Add"@ != "And"@) by {
        assert("Add"@[1] != "And"@[1]);
    }
}

} // verus!
