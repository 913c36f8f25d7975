//! A first check on assignments: only locals declared mutable may be assigned.

use vstd::prelude::*;
use crate::text::{chars_of, push_str_chars, string_from_chars};
use super::nodes::{BasicBlockData, LocalDecl, MirFunction, Statement, StatementKind};

verus! {

/// An assignment the borrow check refused.
#[derive(Debug, Clone, PartialEq, Eq)]
pub struct BorrowIssue {
    pub local: String,
    pub message: String,
}

/// The message for an assignment to a local that is not mutable.
pub open spec fn immutable_message(name: Seq<char>) -> Seq<char> {
    "assignment to immutable local `"@ + name + "`"@
}

/// The issue an assignment raises, as (local, message): one when it assigns a declared
/// local that is neither mutable nor the return slot `_return`.
pub open spec fn statement_issues(locals: Seq<LocalDecl>, s: Statement) -> Seq<(Seq<char>, Seq<char>)> {
    match s.kind {
        StatementKind::Assign(place, _) => if place.local.0 < locals.len() && !locals[place.local.0 as int].mutable
            && locals[place.local.0 as int].name@ != "_return"@ {
            let name = locals[place.local.0 as int].name@;
            seq![(name, immutable_message(name))]
        } else {
            Seq::empty()
        },
        _ => Seq::empty(),
    }
}

pub open spec fn statements_issues(locals: Seq<LocalDecl>, ss: Seq<Statement>, n: int) -> Seq<(Seq<char>, Seq<char>)>
    decreases n,
{
    if n <= 0 || n > ss.len() {
        Seq::empty()
    } else {
        statements_issues(locals, ss, n - 1) + statement_issues(locals, ss[n - 1])
    }
}

pub open spec fn blocks_issues(locals: Seq<LocalDecl>, bs: Seq<BasicBlockData>, n: int) -> Seq<(Seq<char>, Seq<char>)>
    decreases n,
{
    if n <= 0 || n > bs.len() {
        Seq::empty()
    } else {
        blocks_issues(locals, bs, n - 1) + statements_issues(locals, bs[n - 1].statements@, bs[n - 1].statements@.len() as int)
    }
}

pub open spec fn issue_views(v: Seq<BorrowIssue>) -> Seq<(Seq<char>, Seq<char>)> {
    v.map_values(|i: BorrowIssue| (i.local@, i.message@))
}

/// The assignments to immutable locals, in the order of the blocks and their statements.
pub fn check_mutable_assignments(function: &MirFunction) -> (issues: Vec<BorrowIssue>)
    ensures
        issue_views(issues@) == blocks_issues(function.locals@, function.blocks@, function.blocks@.len() as int),
{
    let ghost locals = function.locals@;
    let ghost bs = function.blocks@;
    let mut issues: Vec<BorrowIssue> = Vec::new();
    let mut b: usize = 0;
    while b < function.blocks.len()
        invariant
            locals == function.locals@,
            bs == function.blocks@,
            b <= bs.len(),
            issue_views(issues@) == blocks_issues(locals, bs, b as int),
        decreases bs.len() - b,
    {
        let block = &function.blocks[b];
        let ghost before = issues@;
        let mut i: usize = 0;
        assert(issue_views(issues@) =~= blocks_issues(locals, bs, b as int) + statements_issues(locals, block.statements@, 0));
        while i < block.statements.len()
            invariant
                locals == function.locals@,
                *block == bs[b as int],
                i <= block.statements@.len(),
                issue_views(issues@) == blocks_issues(locals, bs, b as int) + statements_issues(locals, block.statements@, i as int),
            decreases block.statements@.len() - i,
        {
            let ghost prev = issues@;
            let statement = &block.statements[i];
            if let StatementKind::Assign(place, _) = &statement.kind {
                check_place(function, place.local.0, &mut issues);
            }
            proof {
                assert(issue_views(issues@) =~= issue_views(prev) + statement_issues(locals, block.statements@[i as int]));
            }
            i += 1;
        }
        b += 1;
    }
    issues
}

/// Appends an issue when the local is declared, not mutable and not the return slot.
fn check_place(function: &MirFunction, local: usize, issues: &mut Vec<BorrowIssue>)
    ensures
        final(issues)@.len() >= old(issues)@.len(),
        issue_views(final(issues)@) == issue_views(old(issues)@) + if local < function.locals@.len()
            && !function.locals@[local as int].mutable && function.locals@[local as int].name@ != "_return"@ {
            seq![(function.locals@[local as int].name@, immutable_message(function.locals@[local as int].name@))]
        } else {
            Seq::<(Seq<char>, Seq<char>)>::empty()
        },
{
    proof {
        reveal_strlit("_return");
    }
    if local >= function.locals.len() {
        assert(issue_views(issues@) =~= issue_views(old(issues)@) + Seq::<(Seq<char>, Seq<char>)>::empty());
        return;
    }
    let decl = &function.locals[local];
    let is_return = crate::text::str_eq(decl.name.as_str(), "_return");
    if !decl.mutable && !is_return {
        let mut message = chars_of("assignment to immutable local `");
        push_str_chars(&mut message, decl.name.as_str());
        push_str_chars(&mut message, "`");
        issues.push(BorrowIssue { local: decl.name.clone(), message: string_from_chars(&message) });
        assert(issue_views(issues@) =~= issue_views(old(issues)@) + seq![(decl.name@, immutable_message(decl.name@))]);
    } else {
        assert(issue_views(issues@) =~= issue_views(old(issues)@) + Seq::<(Seq<char>, Seq<char>)>::empty());
    }
}

} // verus!
