//! Which calls make a program's result depend on the outside world: calls of runtime
//! functions with a foreign-host capability, and calls of functions that make such calls,
//! directly or through other functions.

use vstd::prelude::*;
use super::nodes::{callable_name, callable_text};
use crate::text::str_eq;
use super::nodes::{BasicBlockData, ConstantValue, MirFunction, MirProgram, Operand, TerminatorKind};
use super::optimize::{count_false, lemma_count_false_set};

verus! {

/// A call that makes a function's result depend on the outside world.
#[derive(Debug, Clone, PartialEq, Eq)]
pub struct DeterminismIssue {
    pub function: String,
    pub callee: String,
}

/// Whether a runtime function reaches outside the program: every runtime function but the
/// output ones, which only touch the file system.
pub open spec fn breaks_determinism(name: Seq<char>) -> bool {
    !(name == "print_int"@ || name == "print_bool"@ || name == "print_string"@ || name == "print_newline"@
        || name == "flush_stdout"@)
}

pub fn declaration_breaks_determinism(name: &str) -> (r: bool)
    ensures
        r == breaks_determinism(name@),
{
    !(str_eq(name, "print_int") || str_eq(name, "print_bool") || str_eq(name, "print_string") || str_eq(
        name,
        "print_newline",
    ) || str_eq(name, "flush_stdout"))
}

/// The name of the function an operand calls, when it is a function constant.
pub open spec fn callee_of(o: Operand) -> Option<Seq<char>> {
    match o {
        Operand::Constant(c) => match c.value {
            ConstantValue::Function(name) => Some(name@),
            _ => None,
        },
        _ => None,
    }
}

/// The function a block's terminator calls by name, if any.
pub open spec fn block_callee(b: BasicBlockData) -> Option<Seq<char>> {
    match b.terminator {
        TerminatorKind::Call { callee, .. } => callee_of(callee),
        _ => None,
    }
}

fn callee_name(operand: &Operand) -> (r: Option<String>)
    ensures
        match r {
            Some(s) => callee_of(*operand) == Some(s@),
            None => callee_of(*operand) is None,
        },
{
    match operand {
        Operand::Constant(constant) => match &constant.value {
            ConstantValue::Function(name) => Some(name.clone()),
            _ => None,
        },
        _ => None,
    }
}

pub(crate) fn block_callee_name(block: &BasicBlockData) -> (r: Option<String>)
    ensures
        match r {
            Some(s) => block_callee(*block) == Some(s@),
            None => block_callee(*block) is None,
        },
{
    match &block.terminator {
        TerminatorKind::Call { callee, .. } => callee_name(callee),
        _ => None,
    }
}

/// The callable names of the program's functions.
pub open spec fn names_of(p: MirProgram) -> Seq<Seq<char>> {
    p.functions@.map_values(|f: MirFunction| callable_text(f))
}

/// The last function that carries the name: the one a call by that name reaches.
pub open spec fn last_index(names: Seq<Seq<char>>, x: Seq<char>) -> Option<int>
    decreases names.len(),
{
    if names.len() == 0 {
        None
    } else if names.last() == x {
        Some(names.len() - 1)
    } else {
        last_index(names.drop_last(), x)
    }
}

/// The block calls the function at index `j`.
pub open spec fn block_calls(names: Seq<Seq<char>>, b: BasicBlockData, j: int) -> bool {
    match block_callee(b) {
        Some(x) => last_index(names, x) == Some(j),
        None => false,
    }
}

/// The block calls a function the program does not define, and that function breaks
/// determinism.
pub open spec fn block_calls_outside(names: Seq<Seq<char>>, b: BasicBlockData) -> bool {
    match block_callee(b) {
        Some(x) => last_index(names, x) is None && breaks_determinism(x),
        None => false,
    }
}

/// Function `i` calls function `j` from one of its blocks.
pub open spec fn calls(p: MirProgram, i: int, j: int) -> bool {
    &&& 0 <= i < p.functions@.len()
    &&& exists|b: int| 0 <= b < p.functions@[i].blocks@.len() && #[trigger] block_calls(names_of(p), p.functions@[i].blocks@[b], j)
}

/// Function `i` breaks determinism by itself: it is a declaration of a runtime function
/// that does, or it calls such a function that the program does not define.
pub open spec fn breaks_itself(p: MirProgram, i: int) -> bool {
    let f = p.functions@[i];
    ||| f.is_declaration && breaks_determinism(f.name@)
    ||| exists|b: int| 0 <= b < f.blocks@.len() && #[trigger] block_calls_outside(names_of(p), f.blocks@[b])
}

/// A chain of calls, each function calling the next.
pub open spec fn is_call_chain(p: MirProgram, c: Seq<int>) -> bool {
    &&& c.len() >= 1
    &&& forall|k: int| 0 <= k < c.len() - 1 ==> #[trigger] calls(p, c[k], c[k + 1])
}

/// Function `i` is nondeterministic: some chain of calls from it reaches a function that
/// breaks determinism by itself.
pub open spec fn nondeterministic(p: MirProgram, i: int) -> bool {
    exists|c: Seq<int>|
        #[trigger] is_call_chain(p, c) && c[0] == i && 0 <= c.last() < p.functions@.len() && breaks_itself(p, c.last())
}

/// Whether a call by this name makes the caller nondeterministic.
pub open spec fn flagged(p: MirProgram, x: Seq<char>) -> bool {
    match last_index(names_of(p), x) {
        Some(k) => nondeterministic(p, k),
        None => breaks_determinism(x),
    }
}

/// The issues of the first `n` blocks of a function, as (function, callee).
pub open spec fn blocks_issues(p: MirProgram, f: MirFunction, n: int) -> Seq<(Seq<char>, Seq<char>)>
    decreases n,
{
    if n <= 0 || n > f.blocks@.len() {
        Seq::empty()
    } else {
        blocks_issues(p, f, n - 1) + match block_callee(f.blocks@[n - 1]) {
            Some(x) => if flagged(p, x) { seq![(f.name@, x)] } else { Seq::empty() },
            None => Seq::empty(),
        }
    }
}

/// The issues of the first `n` functions, function by function.
pub open spec fn program_issues(p: MirProgram, n: int) -> Seq<(Seq<char>, Seq<char>)>
    decreases n,
{
    if n <= 0 || n > p.functions@.len() {
        Seq::empty()
    } else {
        program_issues(p, n - 1) + blocks_issues(p, p.functions@[n - 1], p.functions@[n - 1].blocks@.len() as int)
    }
}

pub open spec fn issue_views(v: Seq<DeterminismIssue>) -> Seq<(Seq<char>, Seq<char>)> {
    v.map_values(|i: DeterminismIssue| (i.function@, i.callee@))
}

/// The last index of the name among the names.
pub(crate) fn find_last(names: &Vec<String>, name: &str) -> (r: Option<usize>)
    ensures
        match r {
            Some(k) => last_index(names@.map_values(|s: String| s@), name@) == Some(k as int),
            None => last_index(names@.map_values(|s: String| s@), name@) is None,
        },
{
    let ghost all = names@.map_values(|s: String| s@);
    let mut i: usize = names.len();
    proof {
        assert(all.take(i as int) =~= all);
    }
    while i > 0
        invariant
            i <= names@.len(),
            all == names@.map_values(|s: String| s@),
            last_index(all, name@) == last_index(all.take(i as int), name@),
        decreases i,
    {
        let ghost prefix = all.take(i as int);
        if str_eq(names[i - 1].as_str(), name) {
            assert(prefix.last() == name@);
            return Some(i - 1);
        }
        assert(prefix.drop_last() =~= all.take(i - 1));
        i -= 1;
    }
    None
}


/// The callable names of the program's functions, in order.
pub(crate) fn callable_names(program: &MirProgram) -> (names: Vec<String>)
    ensures
        names@.map_values(|s: String| s@) == names_of(*program),
{
    let mut names: Vec<String> = Vec::new();
    let mut i: usize = 0;
    while i < program.functions.len()
        invariant
            i <= program.functions@.len(),
            names@.map_values(|s: String| s@) == names_of(*program).take(i as int),
        decreases program.functions@.len() - i,
    {
        let name = callable_name(&program.functions[i]);
        let ghost before = names@;
        names.push(name);
        proof {
            assert(names@.map_values(|s: String| s@) =~= before.map_values(|s: String| s@).push(name@));
            assert(names_of(*program).take(i + 1) =~= names_of(*program).take(i as int).push(names_of(*program)[i as int]));
        }
        i += 1;
    }
    assert(names_of(*program).take(i as int) =~= names_of(*program));
    names
}

proof fn lemma_breaks_itself_nondeterministic(p: MirProgram, i: int)
    requires
        0 <= i < p.functions@.len(),
        breaks_itself(p, i),
    ensures
        nondeterministic(p, i),
{
    let c = seq![i];
    assert(is_call_chain(p, c));
}

proof fn lemma_caller_nondeterministic(p: MirProgram, i: int, j: int)
    requires
        calls(p, i, j),
        nondeterministic(p, j),
    ensures
        nondeterministic(p, i),
{
    let c = choose|c: Seq<int>| #[trigger] is_call_chain(p, c) && c[0] == j && 0 <= c.last() < p.functions@.len()
        && breaks_itself(p, c.last());
    let d = seq![i] + c;
    assert forall|k: int| 0 <= k < d.len() - 1 implies #[trigger] calls(p, d[k], d[k + 1]) by {
        if k == 0 {
            assert(d[0] == i && d[1] == c[0]);
        } else {
            assert(d[k] == c[k - 1] && d[k + 1] == c[(k - 1) + 1]);
        }
    }
    assert(d.last() == c.last());
    assert(is_call_chain(p, d));
}

/// With the marks closed under calling and every function that breaks determinism by
/// itself marked, every function on a chain to such a function is marked.
proof fn lemma_marked_chain(p: MirProgram, nd: Seq<bool>, c: Seq<int>, k: int)
    requires
        nd.len() == p.functions@.len(),
        is_call_chain(p, c),
        0 <= c.last() < p.functions@.len(),
        breaks_itself(p, c.last()),
        forall|i: int| 0 <= i < nd.len() && breaks_itself(p, i) ==> #[trigger] nd[i],
        forall|i: int, j: int| #[trigger] calls(p, i, j) && 0 <= j < nd.len() && nd[j] ==> nd[i],
        0 <= k < c.len(),
    ensures
        0 <= c[k] < nd.len(),
        nd[c[k]],
    decreases c.len() - k,
{
    if k < c.len() - 1 {
        lemma_marked_chain(p, nd, c, k + 1);
        assert(calls(p, c[k], c[k + 1]));
    }
}

/// Which functions are nondeterministic, by index: first those that break determinism by
/// themselves, then, from each marked function, the functions that call it.
fn nondeterministic_functions(program: &MirProgram, names: &Vec<String>) -> (nd: Vec<bool>)
    requires
        names@.map_values(|s: String| s@) == names_of(*program),
    ensures
        nd@.len() == program.functions@.len(),
        forall|i: int| 0 <= i < nd@.len() ==> #[trigger] nd@[i] == nondeterministic(*program, i),
{
    let ghost p = *program;
    let ghost nv = names_of(p);
    let n = program.functions.len();
    let mut nd: Vec<bool> = Vec::new();
    let mut k: usize = 0;
    while k < n
        invariant
            n == p.functions@.len(),
            k <= n,
            nd@.len() == k,
            forall|i: int| 0 <= i < k ==> !#[trigger] nd@[i],
        decreases n - k,
    {
        nd.push(false);
        k += 1;
    }
    let mut edges: Vec<(usize, usize)> = Vec::new();
    let mut stack: Vec<usize> = Vec::new();
    let mut caller: usize = 0;
    while caller < n
        invariant
            p == *program,
            nv == names_of(p),
            names@.map_values(|s: String| s@) == nv,
            n == p.functions@.len(),
            caller <= n,
            nd@.len() == n,
            forall|i: int| 0 <= i < n ==> #[trigger] nd@[i] == (i < caller && breaks_itself(p, i)),
            forall|e: int| 0 <= e < edges@.len() ==> #[trigger] edges@[e].0 < caller && calls(p, edges@[e].0 as int, edges@[e].1 as int)
                && edges@[e].1 < n,
            forall|i: int, j: int| 0 <= i < caller && #[trigger] calls(p, i, j) ==> edges@.contains((i as usize, j as usize)),
            forall|i: int| 0 <= i < n && nd@[i] ==> #[trigger] stack@.contains(i as usize),
            forall|s: int| 0 <= s < stack@.len() ==> #[trigger] stack@[s] < n && nd@[stack@[s] as int],
        decreases n - caller,
    {
        let function = &program.functions[caller];
        let ghost f = p.functions@[caller as int];
        let ghost declared = function.is_declaration && breaks_determinism(function.name@);
        let mut marked = function.is_declaration && declaration_breaks_determinism(function.name.as_str());
        let mut b: usize = 0;
        let ghost edges0 = edges@;
        while b < function.blocks.len()
            invariant
                p == *program,
                nv == names_of(p),
                names@.map_values(|s: String| s@) == nv,
                n == p.functions@.len(),
                caller < n,
                *function == p.functions@[caller as int],
                b <= function.blocks@.len(),
                marked == (declared || exists|b2: int| 0 <= b2 < b && #[trigger] block_calls_outside(nv, function.blocks@[b2])),
                declared == (function.is_declaration && breaks_determinism(function.name@)),
                forall|e: int| 0 <= e < edges@.len() ==> #[trigger] edges@[e].0 <= caller && calls(p, edges@[e].0 as int, edges@[e].1 as int)
                    && edges@[e].1 < n,
                forall|i: int, j: int| 0 <= i < caller && #[trigger] calls(p, i, j) ==> edges@.contains((i as usize, j as usize)),
                forall|j: int, b2: int| 0 <= b2 < b && #[trigger] block_calls(nv, function.blocks@[b2], j) ==> edges@.contains((caller, j as usize)),
                edges0.len() <= edges@.len(),
                forall|e: int| 0 <= e < edges0.len() ==> edges@[e] == #[trigger] edges0[e],
            decreases function.blocks@.len() - b,
        {
            let callee = block_callee_name(&function.blocks[b]);
            let ghost bb = function.blocks@[b as int];
            match callee {
                Some(name) => {
                    match find_last(names, name.as_str()) {
                        Some(target) => {
                            proof {
                                assert(block_calls(nv, bb, target as int));
                                assert(calls(p, caller as int, target as int));
                                assert(last_index(nv, name@) == Some(target as int));
                                lemma_last_index_bound(nv, name@);
                            }
                            let ghost before = edges@;
                            edges.push((caller, target));
                            proof {
                                assert(edges@[before.len() as int] == (caller, target));
                                assert forall|i: int, j: int| 0 <= i < caller && #[trigger] calls(p, i, j) implies edges@.contains((i as usize, j as usize)) by {
                                    let e = choose|e: int| 0 <= e < before.len() && before[e] == (i as usize, j as usize);
                                    assert(edges@[e] == before[e]);
                                }
                                assert forall|j: int, b2: int| 0 <= b2 < b + 1 && #[trigger] block_calls(nv, function.blocks@[b2], j) implies edges@.contains((caller, j as usize)) by {
                                    if b2 < b {
                                        let e = choose|e: int| 0 <= e < before.len() && before[e] == (caller, j as usize);
                                        assert(edges@[e] == before[e]);
                                    } else {
                                        assert(j == target as int);
                                    }
                                }
                                assert(!block_calls_outside(nv, bb));
                            }
                        },
                        None => {
                            if declaration_breaks_determinism(name.as_str()) {
                                marked = true;
                            }
                            proof {
                                assert(forall|j: int| !block_calls(nv, bb, j));
                                assert(block_calls_outside(nv, bb) == breaks_determinism(name@));
                            }
                        },
                    }
                },
                None => {
                    proof {
                        assert(forall|j: int| !block_calls(nv, bb, j));
                        assert(!block_calls_outside(nv, bb));
                    }
                },
            }
            b += 1;
        }
        proof {
            assert(marked == breaks_itself(p, caller as int));
            assert forall|i: int, j: int| 0 <= i < caller + 1 && #[trigger] calls(p, i, j) implies edges@.contains((i as usize, j as usize)) by {
                if i == caller {
                    let b2 = choose|b2: int| 0 <= b2 < f.blocks@.len() && #[trigger] block_calls(nv, f.blocks@[b2], j);
                }
            }
        }
        if marked {
            let ghost st = stack@;
            let ghost nd_before = nd@;
            nd.set(caller, true);
            stack.push(caller);
            proof {
                assert(stack@ == st.push(caller));
                assert(stack@[st.len() as int] == caller);
                assert forall|i: int| 0 <= i < n && nd@[i] implies #[trigger] stack@.contains(i as usize) by {
                    if i != caller {
                        assert(nd_before[i]);
                        assert(st.contains(i as usize));
                        let s = choose|s: int| 0 <= s < st.len() && st[s] == i as usize;
                        assert(stack@[s] == i as usize);
                    }
                }
            }
        }
        caller += 1;
    }
    proof {
        assert forall|i: int| 0 <= i < n && breaks_itself(p, i) implies #[trigger] nd@[i] by {}
        assert forall|i: int| 0 <= i < n && #[trigger] nd@[i] implies nondeterministic(p, i) by {
            lemma_breaks_itself_nondeterministic(p, i);
        }
    }
    while stack.len() > 0
        invariant
            p == *program,
            n == p.functions@.len(),
            nd@.len() == n,
            forall|i: int| 0 <= i < n && breaks_itself(p, i) ==> #[trigger] nd@[i],
            forall|i: int| 0 <= i < n && #[trigger] nd@[i] ==> nondeterministic(p, i),
            forall|e: int| 0 <= e < edges@.len() ==> #[trigger] edges@[e].0 < n && calls(p, edges@[e].0 as int, edges@[e].1 as int)
                && edges@[e].1 < n,
            forall|i: int, j: int| 0 <= i < n && #[trigger] calls(p, i, j) ==> edges@.contains((i as usize, j as usize)),
            forall|s: int| 0 <= s < stack@.len() ==> #[trigger] stack@[s] < n && nd@[stack@[s] as int],
            forall|i: int, j: int| #[trigger] calls(p, i, j) && 0 <= j < n && nd@[j] && !stack@.contains(j as usize) ==> nd@[i],
        decreases count_false(nd@), stack@.len(),
    {
        let ghost nd0 = nd@;
        let ghost st0 = stack@;
        let current = stack.pop().unwrap();
        proof {
            assert(st0 =~= stack@.push(current));
            assert(st0[st0.len() - 1] == current);
        }
        let mut e: usize = 0;
        while e < edges.len()
            invariant
                p == *program,
                n == p.functions@.len(),
                nd@.len() == n,
                current < n,
                nd@[current as int],
                forall|i: int| 0 <= i < n && breaks_itself(p, i) ==> #[trigger] nd@[i],
                forall|i: int| 0 <= i < n && #[trigger] nd@[i] ==> nondeterministic(p, i),
                forall|x: int| 0 <= x < edges@.len() ==> #[trigger] edges@[x].0 < n && calls(p, edges@[x].0 as int, edges@[x].1 as int)
                    && edges@[x].1 < n,
                e <= edges@.len(),
                forall|x: int| 0 <= x < e && #[trigger] edges@[x].1 == current ==> nd@[edges@[x].0 as int],
                forall|m: int| 0 <= m < n && nd0[m] ==> #[trigger] nd@[m],
                forall|m: int| 0 <= m < n && nd@[m] && !nd0[m] ==> #[trigger] stack@.contains(m as usize),
                forall|s: int| 0 <= s < stack@.len() ==> #[trigger] stack@[s] < n && nd@[stack@[s] as int],
                forall|i: int, j: int| #[trigger] calls(p, i, j) && 0 <= j < n && nd0[j] && !st0.contains(j as usize) ==> nd0[i],
                st0 == stack@.take(st0.len() - 1).push(current),
                stack@.len() >= st0.len() - 1,
                count_false(nd@) + (stack@.len() - (st0.len() - 1)) <= count_false(nd0),
            decreases edges@.len() - e,
        {
            let (from, to) = edges[e];
            if to == current && !nd[from] {
                let ghost n1 = nd@;
                let ghost st1 = stack@;
                nd.set(from, true);
                stack.push(from);
                proof {
                    lemma_caller_nondeterministic(p, from as int, current as int);
                    lemma_count_false_set(n1, from as int);
                    assert(stack@ == st1.push(from));
                    assert forall|m: int| 0 <= m < n && nd@[m] && !nd0[m] implies #[trigger] stack@.contains(m as usize) by {
                        if m == from as int {
                            assert(stack@[st1.len() as int] == from);
                        } else {
                            assert(n1[m]);
                            assert(st1.contains(m as usize));
                            let s = choose|s: int| 0 <= s < st1.len() && st1[s] == m as usize;
                            assert(stack@[s] == m as usize);
                        }
                    }
                    assert(stack@.take(st0.len() - 1) =~= st1.take(st0.len() - 1));
                }
            }
            e += 1;
        }
        proof {
            assert forall|i: int, j: int| #[trigger] calls(p, i, j) && 0 <= j < n && nd@[j] && !stack@.contains(j as usize)
                implies nd@[i] by {
                let x = choose|x: int| 0 <= x < edges@.len() && edges@[x] == (i as usize, j as usize);
                assert(edges@[x].1 == j as usize);
                if j == current as int {
                } else {
                    assert(nd0[j]);
                    assert(!st0.contains(j as usize)) by {
                        if st0.contains(j as usize) {
                            let s = choose|s: int| 0 <= s < st0.len() && st0[s] == j as usize;
                            assert(s < st0.len() - 1);
                            assert(stack@[s] == j as usize);
                        }
                    }
                }
            }
        }
    }
    proof {
        assert forall|i: int| 0 <= i < n implies #[trigger] nd@[i] == nondeterministic(p, i) by {
            if nondeterministic(p, i) {
                let c = choose|c: Seq<int>| #[trigger] is_call_chain(p, c) && c[0] == i && 0 <= c.last() < p.functions@.len()
                    && breaks_itself(p, c.last());
                lemma_marked_chain(p, nd@, c, 0);
            }
        }
    }
    nd
}

pub proof fn lemma_last_index_bound(names: Seq<Seq<char>>, x: Seq<char>)
    ensures
        last_index(names, x) matches Some(k) ==> 0 <= k < names.len() && names[k] == x,
    decreases names.len(),
{
    if names.len() > 0 && names.last() != x {
        lemma_last_index_bound(names.drop_last(), x);
    }
}

/// Every call that makes its caller nondeterministic, function by function and block by
/// block: the call's callee is a function of the program that is nondeterministic, or a
/// runtime function the program does not define and that breaks determinism.
pub fn find_nondeterministic_calls(program: &MirProgram) -> (issues: Vec<DeterminismIssue>)
    ensures
        issue_views(issues@) == program_issues(*program, program.functions@.len() as int),
{
    let ghost p = *program;
    let names = callable_names(program);
    let ghost nv = names@.map_values(|s: String| s@);
    let nd = nondeterministic_functions(program, &names);
    let mut issues: Vec<DeterminismIssue> = Vec::new();
    let mut i: usize = 0;
    while i < program.functions.len()
        invariant
            p == *program,
            nv == names_of(p),
            names@.map_values(|s: String| s@) == nv,
            nd@.len() == p.functions@.len(),
            forall|k: int| 0 <= k < nd@.len() ==> #[trigger] nd@[k] == nondeterministic(p, k),
            i <= p.functions@.len(),
            issue_views(issues@) == program_issues(p, i as int),
        decreases p.functions@.len() - i,
    {
        let function = &program.functions[i];
        let ghost before = issue_views(issues@);
        let mut b: usize = 0;
        assert(issue_views(issues@) =~= before + blocks_issues(p, *function, 0));
        while b < function.blocks.len()
            invariant
                p == *program,
                nv == names_of(p),
                names@.map_values(|s: String| s@) == nv,
                nd@.len() == p.functions@.len(),
                forall|k: int| 0 <= k < nd@.len() ==> #[trigger] nd@[k] == nondeterministic(p, k),
                *function == p.functions@[i as int],
                b <= function.blocks@.len(),
                issue_views(issues@) == before + blocks_issues(p, *function, b as int),
            decreases function.blocks@.len() - b,
        {
            let ghost prev = issue_views(issues@);
            match block_callee_name(&function.blocks[b]) {
                Some(name) => {
                    let is_flagged = match find_last(&names, name.as_str()) {
                        Some(k) => {
                            proof {
                                lemma_last_index_bound(nv, name@);
                            }
                            nd[k]
                        },
                        None => declaration_breaks_determinism(name.as_str()),
                    };
                    assert(is_flagged == flagged(p, name@));
                    assert(block_callee(function.blocks@[b as int]) == Some(name@));
                    if is_flagged {
                        let ghost nm = name@;
                        issues.push(DeterminismIssue { function: function.name.clone(), callee: name });
                        assert(issue_views(issues@) =~= prev.push((function.name@, nm)));
                    } else {
                        assert(issue_views(issues@) =~= prev);
                    }
                },
                None => {
                    assert(issue_views(issues@) =~= prev);
                },
            }
            proof {
                assert(issue_views(issues@) =~= before + blocks_issues(p, *function, b + 1));
            }
            b += 1;
        }
        i += 1;
    }
    issues
}

/// A program none of whose functions breaks determinism by itself gets no issues.
pub proof fn lemma_no_issues_without_breaking_functions(p: MirProgram)
    requires
        forall|i: int| 0 <= i < p.functions@.len() ==> !#[trigger] breaks_itself(p, i),
    ensures
        program_issues(p, p.functions@.len() as int).len() == 0,
{
    let nv = names_of(p);
    assert forall|k: int| 0 <= k < p.functions@.len() implies !#[trigger] nondeterministic(p, k) by {
        if nondeterministic(p, k) {
            let c = choose|c: Seq<int>| #[trigger] is_call_chain(p, c) && c[0] == k && 0 <= c.last() < p.functions@.len()
                && breaks_itself(p, c.last());
        }
    }
    lemma_program_issues_empty(p, p.functions@.len() as int);
}

proof fn lemma_program_issues_empty(p: MirProgram, n: int)
    requires
        forall|i: int| 0 <= i < p.functions@.len() ==> !#[trigger] breaks_itself(p, i),
        forall|k: int| 0 <= k < p.functions@.len() ==> !#[trigger] nondeterministic(p, k),
    ensures
        program_issues(p, n).len() == 0,
    decreases n,
{
    if n > 0 && n <= p.functions@.len() {
        lemma_program_issues_empty(p, n - 1);
        lemma_blocks_issues_empty(p, n - 1, p.functions@[n - 1].blocks@.len() as int);
    }
}

proof fn lemma_blocks_issues_empty(p: MirProgram, i: int, m: int)
    requires
        0 <= i < p.functions@.len(),
        forall|j: int| 0 <= j < p.functions@.len() ==> !#[trigger] breaks_itself(p, j),
        forall|k: int| 0 <= k < p.functions@.len() ==> !#[trigger] nondeterministic(p, k),
    ensures
        blocks_issues(p, p.functions@[i], m).len() == 0,
    decreases m,
{
    let f = p.functions@[i];
    if m > 0 && m <= f.blocks@.len() {
        lemma_blocks_issues_empty(p, i, m - 1);
        let b = f.blocks@[m - 1];
        match block_callee(b) {
            Some(x) => {
                let nv = names_of(p);
                lemma_last_index_bound(nv, x);
                match last_index(nv, x) {
                    Some(k) => {
                        assert(!nondeterministic(p, k));
                    },
                    None => {
                        if breaks_determinism(x) {
                            assert(block_calls_outside(nv, f.blocks@[m - 1]));
                            assert(breaks_itself(p, i));
                        }
                    },
                }
            },
            None => {},
        }
    }
}
} // verus!
